//! Color interpolation, CSS color parsing, and grid geometry.

use keylight::color::{black, blue, lerp_color, parse_hex, purple, red, try_parse_hex, u8_to_col, white, Color, WideColor};
use keylight::geometry::{ControllerInfo, DeviceError, MatrixLayout, Point, ZoneInfo};

fn keyboard_zones() -> Vec<ZoneInfo> {
    vec![
        ZoneInfo { name: "Logo".to_string(), leds_count: 1, matrix: None },
        ZoneInfo {
            name: "Keyboard".to_string(),
            leds_count: 60,
            matrix: Some(MatrixLayout { columns: 20, rows: 3 }),
        },
    ]
}

fn led_names(n: usize) -> Vec<String> {
    (0..n).map(|i| format!("Key: {}", i)).collect()
}

fn keyboard_info() -> ControllerInfo {
    ControllerInfo::new(&keyboard_zones(), led_names(60), 0, &"Keyboard".to_string()).unwrap()
}

#[test]
fn lerp_with_self_is_identity() {
    let c = Color { r: 13, g: 200, b: 77 };
    for num in [0u32, 1, 250, 500, 999, 1000, 5000] {
        assert_eq!(lerp_color(&c, &c, num, 1000), c);
    }
}

#[test]
fn lerp_endpoints() {
    let a = Color { r: 10, g: 20, b: 30 };
    let b = Color { r: 200, g: 100, b: 0 };
    assert_eq!(lerp_color(&a, &b, 0, 1000), a);
    assert_eq!(lerp_color(&a, &b, 1000, 1000), b);
    // positions past 1 clamp to the second endpoint
    assert_eq!(lerp_color(&a, &b, 4000, 1000), b);
}

#[test]
fn lerp_midpoint_truncates() {
    let a = black();
    let b = white();
    // 255 * 500 / 1000 = 127.5, truncated to 127
    assert_eq!(lerp_color(&a, &b, 500, 1000), Color { r: 127, g: 127, b: 127 });
}

#[test]
fn u8_to_col_orders_channels() {
    assert_eq!(u8_to_col([1, 2, 3]), Color { r: 1, g: 2, b: 3 });
}

#[test]
fn wide_color_accumulates() {
    let mut w = WideColor::zero();
    w.add(&red());
    w.add(&blue());
    assert_eq!((w.r, w.g, w.b), (255, 0, 255));
}

#[test]
fn parse_hex_parses_css_colors() {
    assert_eq!(parse_hex("#ff0000"), red());
    assert_eq!(parse_hex("#ff00ff"), purple());
    assert_eq!(parse_hex("rgb(1,2,3)"), Color { r: 1, g: 2, b: 3 });
    assert_eq!(parse_hex("cyan"), Color { r: 0, g: 255, b: 255 });
    // the alpha channel is dropped
    assert_eq!(parse_hex("rgba(9,8,7,0.5)"), Color { r: 9, g: 8, b: 7 });
}

#[test]
fn parse_hex_falls_back_to_black() {
    assert_eq!(parse_hex(""), black());
    assert_eq!(parse_hex("no-such-color"), black());
}

#[test]
fn try_parse_hex_reports_failure() {
    // a configured color that does not parse must be distinguishable from
    // black, so startup can refuse it
    assert_eq!(try_parse_hex(""), None);
    assert_eq!(try_parse_hex("no-such-color"), None);
    assert_eq!(try_parse_hex("#00ff0"), None);
    assert_eq!(try_parse_hex("#00ff00"), Some(Color { r: 0, g: 255, b: 0 }));
    assert_eq!(try_parse_hex("black"), Some(black()));
}

#[test]
fn controller_from_matrix_zone() {
    let info = keyboard_info();
    assert_eq!(info.width, 20);
    assert_eq!(info.height, 3);
    assert_eq!(info.total_leds, 60);
    assert_eq!(info.zone_id, 1);
    assert_eq!(info.center_x, 10);
    assert_eq!(info.center_y, 1);
    assert_eq!(info.leds().len(), 60);
}

#[test]
fn controller_from_linear_zone() {
    let zones = vec![ZoneInfo { name: "Strip".to_string(), leds_count: 9, matrix: None }];
    let info = ControllerInfo::new(&zones, led_names(9), 3, &"Strip".to_string()).unwrap();
    assert_eq!(info.width, 9);
    assert_eq!(info.height, 1);
    assert_eq!(info.total_leds, 9);
}

#[test]
fn controller_zone_not_found() {
    let r = ControllerInfo::new(&keyboard_zones(), led_names(60), 0, &"Mouse".to_string());
    assert_eq!(r.unwrap_err(), DeviceError::ZoneNotFound);
}

#[test]
fn controller_matrix_mismatch() {
    let zones = vec![ZoneInfo {
        name: "Keyboard".to_string(),
        leds_count: 61,
        matrix: Some(MatrixLayout { columns: 20, rows: 3 }),
    }];
    let r = ControllerInfo::new(&zones, led_names(61), 0, &"Keyboard".to_string());
    assert_eq!(r.unwrap_err(), DeviceError::MatrixMismatch);
}

#[test]
fn controller_empty_zone() {
    let zones = vec![ZoneInfo { name: "Ghost".to_string(), leds_count: 0, matrix: None }];
    let r = ControllerInfo::new(&zones, Vec::new(), 0, &"Ghost".to_string());
    assert_eq!(r.unwrap_err(), DeviceError::EmptyZone);
}

#[test]
fn controller_led_count_mismatch() {
    let r = ControllerInfo::new(&keyboard_zones(), led_names(59), 0, &"Keyboard".to_string());
    assert_eq!(r.unwrap_err(), DeviceError::LedCountMismatch);
}

#[test]
fn point_index_roundtrip() {
    let info = keyboard_info();
    for i in 0..info.total_leds {
        let p = info.num2xy(i);
        assert!(p.x < info.width && p.y < info.height);
        assert_eq!(info.xy2num(&p), i);
    }
}

#[test]
fn index_mapping_is_bottom_up() {
    let info = keyboard_info();
    // index 0 is the first LED of the top row; y counts from the bottom
    assert_eq!(info.num2xy(0), Point { x: 0, y: 2 });
    assert_eq!(info.num2xy(20), Point { x: 0, y: 1 });
    assert_eq!(info.num2xy(59), Point { x: 19, y: 0 });
}

#[test]
fn out_of_range_index_clamps() {
    let info = keyboard_info();
    let last = info.num2xy(info.total_leds - 1);
    assert_eq!(info.num2xy(info.total_leds), last);
    assert_eq!(info.num2xy(usize::MAX), last);
}
