use std::time::Duration;

use launchpi::panels::{Action, JsonValue};
use launchpi::system::{countdown_text, format_remaining, manifest, presets, START_TIMER};

#[test]
fn presets_offer_a_clock_and_requested_timer_durations() {
    let offered = presets();
    assert_eq!(
        offered
            .iter()
            .map(|preset| preset.preset_id.as_str())
            .collect::<Vec<_>>(),
        [
            "clock",
            "timer-5-minutes",
            "timer-10-minutes",
            "timer-15-minutes"
        ]
    );
}

#[test]
fn a_timer_key_starts_its_own_duration() {
    let offered = presets();
    let ten = &offered[2];
    assert_eq!(ten.name, "10 minute timer");
    assert_eq!(
        ten.description.as_deref(),
        Some("Starts or resets a 10-minute countdown.")
    );
    let Action::InvokeIntegration {
        integration_id,
        action_name,
        parameters,
    } = &ten.control.action_bindings[0].actions[0]
    else {
        panic!("a timer key starts a countdown");
    };
    assert_eq!(integration_id.0, "self");
    assert_eq!(action_name, START_TIMER);
    assert_eq!(
        parameters,
        &JsonValue::Object(vec![(
            "duration_seconds".to_string(),
            JsonValue::Integer(600)
        )])
    );
}

#[test]
fn remaining_time_rounds_up_to_the_next_second() {
    assert_eq!(format_remaining(Duration::from_secs(300)), "05:00");
    assert_eq!(format_remaining(Duration::from_millis(1)), "00:01");
}

#[test]
fn a_countdown_longer_than_an_hour_keeps_counting_minutes() {
    assert_eq!(countdown_text(3_725, 0), "62:05");
    assert_eq!(countdown_text(59, 1), "01:00");
    assert_eq!(countdown_text(0, 0), "00:00");
}

#[test]
fn the_system_manifest_declares_the_countdown_action() {
    let declared = manifest();
    assert_eq!(declared.plugin_type, "system");
    assert_eq!(declared.actions[0].name, START_TIMER);
    assert_eq!(declared.actions[0].parameters[0].key, "duration_seconds");
    assert_eq!(declared.variables.len(), 2);
}
