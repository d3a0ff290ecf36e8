//! The animator, the frame queue, the compositor and the flash overlay.

use keylight::color::{black, dim_gray, green, red, Color};
use keylight::engine::{
    uniform_frame, EngineInitError, EngineState, FRAME_DURATION_MS, KEYBOARD_COL_OFFSET_END,
    KEYBOARD_COL_OFFSET_START,
};
use keylight::frame::{get_frame_by_key_names, KeyMap};
use keylight::geometry::{ControllerInfo, MatrixLayout, ZoneInfo};
use keylight::notifications::SettingsTable;

fn led_names(n: usize) -> Vec<String> {
    (0..n).map(|i| format!("Key: {}", i)).collect()
}

fn engine() -> EngineState {
    let zones = vec![ZoneInfo {
        name: "Keyboard".to_string(),
        leds_count: 60,
        matrix: Some(MatrixLayout { columns: 20, rows: 3 }),
    }];
    let info = ControllerInfo::new(&zones, led_names(60), 0, &"Keyboard".to_string()).unwrap();
    EngineState::new(info, SettingsTable::new()).unwrap()
}

fn drain(state: &mut EngineState) -> Vec<Vec<Color>> {
    let mut frames = Vec::new();
    while let Some(f) = state.pop_frame() {
        frames.push(f);
    }
    frames
}

#[test]
fn engine_rejects_narrow_grid() {
    let zones = vec![ZoneInfo { name: "Strip".to_string(), leds_count: 5, matrix: None }];
    let info = ControllerInfo::new(&zones, led_names(5), 0, &"Strip".to_string()).unwrap();
    assert!(matches!(
        EngineState::new(info, SettingsTable::new()),
        Err(EngineInitError::TopRowTooNarrow)
    ));
}

#[test]
fn fade_shorter_than_tick_enqueues_nothing() {
    let mut state = engine();
    let target = uniform_frame(red(), 60);
    state.fade_into_frame(&target, FRAME_DURATION_MS - 1);
    assert_eq!(state.queued_frames(), 0);
    assert_eq!(state.last_frame, uniform_frame(black(), 60));
}

#[test]
fn fade_lands_exactly_on_target() {
    let mut state = engine();
    let target = uniform_frame(red(), 60);
    state.fade_into_frame(&target, 2 * FRAME_DURATION_MS);
    assert_eq!(state.queued_frames(), 2);
    assert_eq!(state.last_frame, target);
    let frames = drain(&mut state);
    assert_eq!(frames.last().unwrap(), &target);
}

#[test]
fn fade_steps_are_fifo_interpolations() {
    let mut state = engine();
    let target = uniform_frame(Color { r: 90, g: 90, b: 90 }, 60);
    state.fade_into_frame(&target, 3 * FRAME_DURATION_MS);
    let frames = drain(&mut state);
    let firsts: Vec<u8> = frames.iter().map(|f| f[0].r).collect();
    assert_eq!(firsts, vec![30, 60, 90]);
}

#[test]
fn consecutive_fades_chain_from_last_frame() {
    let mut state = engine();
    state.fade_into_frame(&uniform_frame(Color { r: 100, g: 0, b: 0 }, 60), FRAME_DURATION_MS);
    state.fade_into_frame(&uniform_frame(Color { r: 200, g: 0, b: 0 }, 60), 2 * FRAME_DURATION_MS);
    let frames = drain(&mut state);
    let firsts: Vec<u8> = frames.iter().map(|f| f[0].r).collect();
    assert_eq!(firsts, vec![100, 150, 200]);
}

#[test]
fn composite_of_empty_state_is_base_frame() {
    let mut state = engine();
    let mut base = uniform_frame(Color { r: 9, g: 8, b: 7 }, 60);
    base[30] = Color { r: 1, g: 2, b: 3 };
    state.set_base_frame(base.clone());
    state.composite(Some(FRAME_DURATION_MS));
    let frames = drain(&mut state);
    assert_eq!(frames, vec![base.clone()]);
    assert_eq!(state.last_frame, base);
}

#[test]
fn composite_averages_overlapping_bars() {
    let mut state = engine();
    // two half-done sources, pure red and pure blue
    state.seed_progress("red-source".to_string(), Color { r: 255, g: 0, b: 0 });
    state.seed_progress("blue-source".to_string(), Color { r: 0, g: 0, b: 255 });
    state.handle_progress("red-source".to_string(), 500, true, 1);
    state.handle_progress("blue-source".to_string(), 500, true, 1);
    // corrected row = 20 - 1 - 4 = 15 LEDs; 0.5 * 15 = 7.5: slots 0..7
    // carry both colors in full, slot 7 a half blend from the black base.
    let frame = &state.last_frame;
    let mean = Color { r: 127, g: 0, b: 127 };
    for slot in 0..7 {
        assert_eq!(frame[KEYBOARD_COL_OFFSET_START + slot], mean, "slot {}", slot);
    }
    assert_eq!(frame[KEYBOARD_COL_OFFSET_START + 7], Color { r: 63, g: 0, b: 63 });
    // beyond the bar the base (black) shows
    assert_eq!(frame[KEYBOARD_COL_OFFSET_START + 8], black());
    assert_eq!(frame[0], black());
}

#[test]
fn flash_overrides_indicator_row() {
    let mut state = engine();
    state.seed_progress("dl".to_string(), red());
    state.handle_progress("dl".to_string(), 1000, true, 1);
    let d = state.flash_color(green(), 123);
    assert_eq!(d.delay_ms, 123);
    assert_eq!(state.flash, green());
    let corrected = 20 - KEYBOARD_COL_OFFSET_START - KEYBOARD_COL_OFFSET_END;
    let frame = &state.last_frame;
    for p in KEYBOARD_COL_OFFSET_START..KEYBOARD_COL_OFFSET_START + corrected {
        assert_eq!(frame[p], green(), "position {}", p);
    }
    assert_eq!(frame[0], black());
    assert_eq!(frame[KEYBOARD_COL_OFFSET_START + corrected], black());
    // the deferred clear turns the overlay off and the bar returns
    state.flash_clear();
    assert_eq!(state.flash, black());
    assert_eq!(state.last_frame[KEYBOARD_COL_OFFSET_START + 2], red());
}

#[test]
fn lock_swaps_in_dim_substrate() {
    let mut state = engine();
    state.set_base_frame(uniform_frame(Color { r: 50, g: 60, b: 70 }, 60));
    state.handle_screen_lock(true);
    // 1500 ms at 75 ms per tick: twenty interpolation steps
    assert_eq!(state.queued_frames(), 20);
    assert_eq!(state.last_frame, uniform_frame(dim_gray(), 60));
    assert_eq!(state.get_keyboard_base(), uniform_frame(dim_gray(), 60));
    state.handle_screen_lock(false);
    assert_eq!(state.last_frame, uniform_frame(Color { r: 50, g: 60, b: 70 }, 60));
}

#[test]
fn key_name_rules_first_match_wins() {
    let names = vec![
        "Key: A".to_string(),
        "Key: Number Pad 1".to_string(),
        "Print Screen".to_string(),
        "Key: Num Lock Pad".to_string(),
    ];
    let rules = vec![
        KeyMap { keys: vec!["Number Pad".to_string(), "Num Lock".to_string()], color: red() },
        KeyMap { keys: vec!["Pad".to_string()], color: green() },
        KeyMap { keys: vec!["Print".to_string()], color: black() },
    ];
    let frame = get_frame_by_key_names(&names, &rules, |i: usize| Color { r: i as u8, g: 0, b: 0 });
    assert_eq!(frame[0], Color { r: 0, g: 0, b: 0 });
    // "Number Pad" rule beats the later "Pad" rule
    assert_eq!(frame[1], red());
    assert_eq!(frame[2], black());
    assert_eq!(frame[3], red());
}

#[test]
fn key_name_fallback_gets_index() {
    let names = vec!["alpha".to_string(), "beta".to_string()];
    let rules: Vec<KeyMap> = Vec::new();
    let frame = get_frame_by_key_names(&names, &rules, |i: usize| Color { r: i as u8, g: 9, b: 9 });
    assert_eq!(frame[0], Color { r: 0, g: 9, b: 9 });
    assert_eq!(frame[1], Color { r: 1, g: 9, b: 9 });
}

#[test]
fn shutdown_marker_round_trips() {
    let mut state = engine();
    assert_eq!(state.about_to_shutdown, 0);
    state.set_about_to_shutdown(2);
    assert_eq!(state.about_to_shutdown, 2);
}
