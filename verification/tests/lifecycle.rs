//! The notification lifecycle state machine and the progress ledger.

use keylight::color::{black, Color};
use keylight::engine::{EngineState, DeferredFlashClear};
use keylight::events::{AUTO_CLOSE_FLASH_HOLD_MS, NOTIFY_FLASH_HOLD_MS, PROGRESS_FLASH_HOLD_MS};
use keylight::geometry::{ControllerInfo, MatrixLayout, ZoneInfo};
use keylight::notifications::{get_timestamp, NotificationSettings, SettingsTable,
    DELIVERY_TIMEOUT_MS};

fn cyan() -> Color {
    Color { r: 0, g: 255, b: 255 }
}

fn mail_settings() -> NotificationSettings {
    NotificationSettings {
        color: Color { r: 10, g: 20, b: 30 },
        important: true,
        flash_on_notify: false,
        flash_on_auto_close: cyan(),
    }
}

fn engine_with_mail() -> EngineState {
    let zones = vec![ZoneInfo {
        name: "Keyboard".to_string(),
        leds_count: 60,
        matrix: Some(MatrixLayout { columns: 20, rows: 3 }),
    }];
    let names: Vec<String> = (0..60).map(|i| format!("Key: {}", i)).collect();
    let info = ControllerInfo::new(&zones, names, 0, &"Keyboard".to_string()).unwrap();
    let mut table = SettingsTable::new();
    table.add("Mail".to_string(), mail_settings());
    EngineState::new(info, table).unwrap()
}

#[test]
fn settings_table_lookup() {
    let mut table = SettingsTable::new();
    let a = NotificationSettings {
        color: Color { r: 1, g: 1, b: 1 },
        important: false,
        flash_on_notify: true,
        flash_on_auto_close: black(),
    };
    let b = NotificationSettings { color: Color { r: 2, g: 2, b: 2 }, ..a };
    table.add("App".to_string(), a);
    table.add("App".to_string(), b);
    assert_eq!(table.len(), 2);
    // the first entry for a name wins
    assert_eq!(table.get(&"App".to_string()), Some(a));
    assert_eq!(table.get(&"Other".to_string()), None);
}

#[test]
fn expired_important_notification_is_promoted() {
    let mut state = engine_with_mail();

    // opened: one pending entry, id not yet known
    let known = state.handle_notify(&"Mail".to_string(), ":1.42".to_string(), 1_000);
    assert!(known);
    assert_eq!(state.pending.len(), 1);
    assert_eq!(state.pending[0].id, 0);
    assert_eq!(state.pending[0].sender, ":1.42");

    // delivery reply correlated by sender address assigns the id
    let d = state.handle_delivered(7, &":1.42".to_string(), 1_100);
    assert!(d.is_none());
    assert_eq!(state.pending.len(), 1);
    assert_eq!(state.pending[0].id, 7);

    // closed as expired: pending entry removed, cyan flash triggered,
    // important notification promoted to the displayed list, recomposite
    let before = state.queued_frames();
    let d = state.handle_closed(7, 1);
    assert_eq!(d, Some(DeferredFlashClear { delay_ms: AUTO_CLOSE_FLASH_HOLD_MS }));
    assert_eq!(state.flash, cyan());
    assert_eq!(state.pending.len(), 0);
    assert_eq!(state.displayed.len(), 1);
    assert!(state.queued_frames() > before);
}

#[test]
fn closed_by_user_is_discarded_silently() {
    let mut state = engine_with_mail();
    state.handle_notify(&"Mail".to_string(), ":1.42".to_string(), 1_000);
    state.handle_delivered(7, &":1.42".to_string(), 1_100);
    let d = state.handle_closed(7, 2);
    assert!(d.is_none());
    assert_eq!(state.pending.len(), 0);
    assert_eq!(state.displayed.len(), 0);
    assert_eq!(state.flash, black());
    assert_eq!(state.queued_frames(), 0);
}

#[test]
fn closed_unknown_id_is_a_no_op() {
    let mut state = engine_with_mail();
    state.handle_notify(&"Mail".to_string(), ":1.9".to_string(), 1_000);
    let before = state.queued_frames();
    let d = state.handle_closed(999, 2);
    assert!(d.is_none());
    assert_eq!(state.pending.len(), 1);
    assert_eq!(state.displayed.len(), 0);
    assert_eq!(state.queued_frames(), before);
}

#[test]
fn closing_a_displayed_notification_removes_it() {
    let mut state = engine_with_mail();
    state.handle_notify(&"Mail".to_string(), ":1.1".to_string(), 1_000);
    state.handle_delivered(7, &":1.1".to_string(), 1_100);
    state.handle_closed(7, 1);
    assert_eq!(state.displayed.len(), 1);
    // the promoted notification keeps its id and can be closed again
    assert_eq!(state.displayed[0].id, 7);
    let d = state.handle_closed(7, 3);
    assert!(d.is_none());
    assert_eq!(state.displayed.len(), 0);
}

#[test]
fn displayed_notification_paints_marker() {
    let mut state = engine_with_mail();
    state.handle_notify(&"Mail".to_string(), ":1.1".to_string(), 1_000);
    state.handle_delivered(7, &":1.1".to_string(), 1_100);
    state.handle_closed(7, 1);
    state.flash_clear();
    // with the flash gone, the displayed marker sits at the reserved run
    assert_eq!(state.last_frame[1 + 2], mail_settings().color);
}

#[test]
fn unknown_application_is_ignored() {
    let mut state = engine_with_mail();
    let known = state.handle_notify(&"Chat".to_string(), ":1.5".to_string(), 1_000);
    assert!(!known);
    assert_eq!(state.pending.len(), 0);
    assert_eq!(state.queued_frames(), 0);
}

#[test]
fn flash_on_notify_fires_at_delivery() {
    let mut state = engine_with_mail();
    state.settings.add(
        "Ping".to_string(),
        NotificationSettings {
            color: Color { r: 200, g: 0, b: 200 },
            important: false,
            flash_on_notify: true,
            flash_on_auto_close: black(),
        },
    );
    state.handle_notify(&"Ping".to_string(), ":1.77".to_string(), 1_000);
    let d = state.handle_delivered(21, &":1.77".to_string(), 1_100);
    assert_eq!(d, Some(DeferredFlashClear { delay_ms: NOTIFY_FLASH_HOLD_MS }));
    assert_eq!(state.flash, Color { r: 200, g: 0, b: 200 });
    assert!(state.queued_frames() > 0);
}

#[test]
fn delivery_purges_stale_pending_entries() {
    let mut state = engine_with_mail();
    let now = 100_000;
    state.handle_notify(&"Mail".to_string(), ":1.1".to_string(), now - DELIVERY_TIMEOUT_MS - 1);
    state.handle_notify(&"Mail".to_string(), ":1.2".to_string(), now - 10);
    assert_eq!(state.pending.len(), 2);
    // a reply that matches nothing still garbage-collects
    let d = state.handle_delivered(5, &":1.99".to_string(), now);
    assert!(d.is_none());
    assert_eq!(state.pending.len(), 1);
    assert_eq!(state.pending[0].sender, ":1.2");
}

#[test]
fn delivery_matches_most_recent_sender() {
    let mut state = engine_with_mail();
    state.handle_notify(&"Mail".to_string(), ":1.1".to_string(), 1_000);
    state.handle_notify(&"Mail".to_string(), ":1.1".to_string(), 1_001);
    state.handle_delivered(9, &":1.1".to_string(), 1_002);
    assert_eq!(state.pending[0].id, 0);
    assert_eq!(state.pending[1].id, 9);
}

#[test]
fn progress_update_always_overwrites_ledger() {
    let mut state = engine_with_mail();
    state.seed_progress("dl".to_string(), Color { r: 255, g: 0, b: 0 });
    assert_eq!(state.progress_sources(), 1);

    // first real update recomposites
    state.handle_progress("dl".to_string(), 200, true, 1);
    assert!(state.queued_frames() > 0);
    while state.pop_frame().is_some() {}

    // an identical update is stored but does not re-render
    let d = state.handle_progress("dl".to_string(), 200, true, 1);
    assert!(d.is_none());
    assert_eq!(state.queued_frames(), 0);
    assert_eq!(state.progress_sources(), 1);

    // a small step is stored even without re-rendering: a second small
    // step is measured against it and stays below the threshold too
    state.handle_progress("dl".to_string(), 209, true, 1);
    assert_eq!(state.queued_frames(), 0);
    state.handle_progress("dl".to_string(), 218, true, 1);
    assert_eq!(state.queued_frames(), 0);
    // while a jump beyond the threshold re-renders
    state.handle_progress("dl".to_string(), 400, true, 1);
    assert!(state.queued_frames() > 0);
}

#[test]
fn progress_zero_flashes_by_event_shape() {
    let mut state = engine_with_mail();
    let d = state.handle_progress("dl".to_string(), 0, true, 2);
    assert_eq!(d, Some(DeferredFlashClear { delay_ms: PROGRESS_FLASH_HOLD_MS }));
    // visible bar with entries remaining: green
    assert_eq!(state.flash, Color { r: 0, g: 255, b: 0 });

    let d = state.handle_progress("dl".to_string(), 0, false, 0);
    assert!(d.is_some());
    // invisible bar, nothing remaining: purple
    assert_eq!(state.flash, Color { r: 255, g: 0, b: 255 });
}

#[test]
fn notification_markers_truncate_to_reserved_run() {
    let mut state = engine_with_mail();
    // more displayed notifications than the reserved run can hold:
    // corrected row is 15 LEDs, markers start 2 in, so 13 fit
    for i in 0..20u32 {
        state.handle_notify(&"Mail".to_string(), format!(":1.{}", i), 1_000);
        state.handle_delivered(i + 1, &format!(":1.{}", i), 1_100);
        state.handle_closed(i + 1, 1);
    }
    assert_eq!(state.displayed.len(), 20);
    state.flash_clear();
    let marker = mail_settings().color;
    let frame = &state.last_frame;
    for slot in 0..13 {
        assert_eq!(frame[1 + 2 + slot], marker, "slot {}", slot);
    }
    // the run ends at the row's edge; the LED past it keeps the base
    assert_eq!(frame[16], Color { r: 0, g: 0, b: 0 });
}

#[test]
fn timestamp_is_after_the_epoch() {
    let t = get_timestamp();
    assert!(t > 1_000_000_000_000);
    assert!(get_timestamp() >= t);
}
