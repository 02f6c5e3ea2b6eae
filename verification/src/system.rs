//! The system integration: a local clock and countdown timers. Reading the
//! clock and running the countdown are the daemon's; what the integration
//! declares, recommends and shows is here.

use vstd::prelude::*;
use core::time::Duration;
use crate::identifiers::{AssetId, IntegrationId};
use crate::manifest::{
    field_is, ActionDefinition, ConfigField, PluginManifest, VariableDefinition, VariableKind,
};
use crate::panels::{
    member, Action, ActionBinding, ActionTrigger, ColorBinding, ControlTemplate, JsonValue,
    RenderedState, RgbaColor,
};
use crate::preset::Preset;
use crate::text::{decimal, decimal_text, owned, two_digit_text, two_digits};
use crate::time::{millis_duration, seconds_duration, subsecond_nanos, whole_seconds};

verus! {

/// The value holding the current local time.
pub const CLOCK_VALUE: &'static str = "clock";

/// The value holding the time left in the active countdown.
pub const TIMER_VALUE: &'static str = "timer";

/// The action that starts or resets a countdown.
pub const START_TIMER: &'static str = "start_timer";

/// The integration's manifest.
pub fn manifest() -> (manifest: PluginManifest)
    ensures
        manifest.plugin_type@ == "system"@,
        manifest.display_name@ == "System"@,
        manifest.description@ == "Local clock and countdown timers."@,
        manifest.config_schema@.len() == 0,
        manifest.actions@.len() == 1,
        manifest.actions@[0].name@ == START_TIMER@,
        manifest.actions@[0].label@ == "Start countdown"@,
        manifest.actions@[0].description is None,
        manifest.actions@[0].parameters@.len() == 1,
        field_is(
            manifest.actions@[0].parameters@[0],
            "duration_seconds"@,
            "Duration (seconds)"@,
            true,
            None,
            None,
        ),
        manifest.actions@[0].parameters@[0].kind is Number,
        manifest.variables@.len() == 2,
        manifest.variables@[0].name@ == CLOCK_VALUE@,
        manifest.variables@[0].kind == VariableKind::Text,
        manifest.variables@[0].description matches Some(d) && d@
            == "Current local time in 24-hour format."@,
        manifest.variables@[1].name@ == TIMER_VALUE@,
        manifest.variables@[1].kind == VariableKind::Text,
        manifest.variables@[1].description matches Some(d) && d@
            == "Time remaining in the active countdown."@,
{
    PluginManifest {
        plugin_type: "system",
        display_name: "System",
        description: "Local clock and countdown timers.",
        config_schema: Vec::new(),
        actions: vec![
            ActionDefinition::new(START_TIMER).label("Start countdown").parameters(
                vec![ConfigField::number("duration_seconds").label("Duration (seconds)").required()],
            ),
        ],
        variables: vec![
            VariableDefinition::new(CLOCK_VALUE, VariableKind::Text).description(
                "Current local time in 24-hour format.",
            ),
            VariableDefinition::new(TIMER_VALUE, VariableKind::Text).description(
                "Time remaining in the active countdown.",
            ),
        ],
    }
}

/// The whole seconds a countdown shows: a partial second still counts, so
/// the display never reads zero while time is left.
pub open spec fn shown_seconds(seconds: u64, subsec_nanos: u32) -> u64 {
    if subsec_nanos > 0 {
        if seconds == u64::MAX {
            u64::MAX
        } else {
            (seconds + 1) as u64
        }
    } else {
        seconds
    }
}

/// `MM:SS`, minutes first, each with at least two digits.
pub open spec fn countdown_spec(seconds: u64, subsec_nanos: u32) -> Seq<char> {
    let total = shown_seconds(seconds, subsec_nanos);
    two_digits((total / 60) as nat) + ":"@ + two_digits((total % 60) as nat)
}

/// The time left in a countdown of `seconds` whole seconds and
/// `subsec_nanos` nanoseconds, rounded up to the next second.
pub fn countdown_text(seconds: u64, subsec_nanos: u32) -> (text: String)
    ensures
        text@ == countdown_spec(seconds, subsec_nanos),
{
    let total = if subsec_nanos > 0 {
        seconds.saturating_add(1)
    } else {
        seconds
    };
    let mut text = two_digit_text(total / 60);
    text.push_str(":");
    let seconds_part = two_digit_text(total % 60);
    text.push_str(seconds_part.as_str());
    text
}

/// The time left in a countdown, rounded up to the next second.
pub fn format_remaining(duration: Duration) -> (text: String)
    ensures
        exists|seconds: u64, subsec_nanos: u32|
            subsec_nanos < 1_000_000_000 && text@ == countdown_spec(seconds, subsec_nanos),
        forall|ms: u64|
            duration == #[trigger] millis_duration(ms) ==> text@ == countdown_spec(
                ms / 1000,
                ((ms % 1000) * 1_000_000) as u32,
            ),
        forall|s: u64| duration == #[trigger] seconds_duration(s) ==> text@ == countdown_spec(s, 0),
{
    let seconds = whole_seconds(&duration);
    let subsec_nanos = subsecond_nanos(&duration);
    countdown_text(seconds, subsec_nanos)
}

/// A face for a time key: a black key with an icon above white text.
pub open spec fn is_time_face(state: RenderedState, icon: Seq<char>, text: Seq<char>) -> bool {
    &&& state.text matches Some(t) && t@ == text
    &&& state.image matches Some(i) && i@ == icon
    &&& state.overlay_image is None
    &&& state.image_tint is None
    &&& state.bar is None
    &&& state.foreground_color == Some(
        ColorBinding::Literal(RgbaColor { red: 255, green: 255, blue: 255, alpha: 255 }),
    )
    &&& state.background_color == Some(
        ColorBinding::Literal(RgbaColor { red: 0, green: 0, blue: 0, alpha: 255 }),
    )
    &&& state.border is None
    &&& !state.is_pressed
}

fn face(icon: &str, text: &str) -> (state: RenderedState)
    ensures
        is_time_face(state, icon@, text@),
{
    RenderedState {
        text: Some(owned(text)),
        image: Some(AssetId(owned(icon))),
        image_tint: None,
        overlay_image: None,
        foreground_color: Some(ColorBinding::Literal(RgbaColor::opaque(255, 255, 255))),
        background_color: Some(ColorBinding::Literal(RgbaColor::opaque(0, 0, 0))),
        border: None,
        bar: None,
        is_pressed: false,
    }
}

/// The clock key.
pub open spec fn is_clock_preset(preset: Preset) -> bool {
    &&& preset.preset_id@ == "clock"@
    &&& preset.category@ == "Time"@
    &&& preset.name@ == "Clock"@
    &&& preset.description matches Some(d) && d@ == "Shows the current local time."@
    &&& preset.control.name@ == "Clock"@
    &&& is_time_face(preset.control.default_state, "mdi:clock-outline"@, "$(self:clock)"@)
    &&& preset.control.pressed_state is None
    &&& preset.control.action_bindings@.len() == 0
}

/// The key that starts a countdown of `minutes` minutes.
pub open spec fn is_timer_preset(preset: Preset, minutes: nat) -> bool {
    let n = decimal(minutes);
    &&& preset.preset_id@ == "timer-"@ + n + "-minutes"@
    &&& preset.category@ == "Time"@
    &&& preset.name@ == n + " minute timer"@
    &&& preset.description matches Some(d) && d@ == "Starts or resets a "@ + n
        + "-minute countdown."@
    &&& preset.control.name@ == n + " minute timer"@
    &&& is_time_face(preset.control.default_state, "mdi:timer-sand"@, "$(self:timer)"@)
    &&& preset.control.pressed_state is None
    &&& preset.control.action_bindings@.len() == 1
    &&& preset.control.action_bindings@[0].gesture == ActionTrigger::Press
    &&& preset.control.action_bindings@[0].actions@.len() == 1
    &&& preset.control.action_bindings@[0].actions@[0] matches Action::InvokeIntegration {
        integration_id,
        action_name,
        parameters,
    } && integration_id@ == "self"@ && action_name@ == START_TIMER@ && (parameters matches JsonValue::Object(
        fields,
    ) && fields@.len() == 1 && fields@[0].0@ == "duration_seconds"@ && fields@[0].1
        == JsonValue::Integer((minutes * 60) as i64))
}

/// The keys the integration recommends: a clock, and countdowns of five, ten
/// and fifteen minutes.
pub fn presets() -> (presets: Vec<Preset>)
    ensures
        presets@.len() == 4,
        is_clock_preset(presets@[0]),
        is_timer_preset(presets@[1], 5),
        is_timer_preset(presets@[2], 10),
        is_timer_preset(presets@[3], 15),
{
    let clock = Preset {
        preset_id: owned("clock"),
        category: owned("Time"),
        name: owned("Clock"),
        description: Some(owned("Shows the current local time.")),
        control: ControlTemplate {
            name: owned("Clock"),
            default_state: face("mdi:clock-outline", "$(self:clock)"),
            pressed_state: None,
            action_bindings: Vec::new(),
        },
    };
    let mut presets = vec![clock];
    let durations: [u64; 3] = [5, 10, 15];
    let mut i: usize = 0;
    while i < 3
        invariant
            i <= 3,
            durations@ == seq![5u64, 10u64, 15u64],
            presets@.len() == i + 1,
            is_clock_preset(presets@[0]),
            forall|j: int| 0 <= j < i ==> is_timer_preset(#[trigger] presets@[j + 1], durations@[j] as nat),
        decreases 3 - i,
    {
        let timer = timer_preset(durations[i]);
        presets.push(timer);
        i += 1;
    }
    proof {
        assert(is_timer_preset(presets@[0int + 1], durations@[0] as nat));
        assert(is_timer_preset(presets@[1int + 1], durations@[1] as nat));
        assert(is_timer_preset(presets@[2int + 1], durations@[2] as nat));
    }
    presets
}

fn timer_preset(duration_minutes: u64) -> (preset: Preset)
    requires
        duration_minutes * 60 <= i64::MAX,
    ensures
        is_timer_preset(preset, duration_minutes as nat),
{
    let n = decimal_text(duration_minutes);
    let mut name = n.clone();
    name.push_str(" minute timer");
    let mut preset_id = owned("timer-");
    preset_id.push_str(n.as_str());
    preset_id.push_str("-minutes");
    let mut description = owned("Starts or resets a ");
    description.push_str(n.as_str());
    description.push_str("-minute countdown.");
    let seconds = (duration_minutes * 60) as i64;
    let parameters = JsonValue::Object(vec![member("duration_seconds", JsonValue::Integer(seconds))]);
    Preset {
        preset_id,
        category: owned("Time"),
        name: name.clone(),
        description: Some(description),
        control: ControlTemplate {
            name,
            default_state: face("mdi:timer-sand", "$(self:timer)"),
            pressed_state: None,
            action_bindings: vec![
                ActionBinding {
                    gesture: ActionTrigger::Press,
                    actions: vec![
                        Action::InvokeIntegration {
                            integration_id: IntegrationId(owned("self")),
                            action_name: owned(START_TIMER),
                            parameters,
                        },
                    ],
                },
            ],
        },
    }
}

} // verus!
