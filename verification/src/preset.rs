//! Ready-made buttons an instance recommends, and the store that holds each
//! instance's current recommendations.
//!
//! In a preset, `self` means "whichever instance published this". The sigil
//! is rewritten once, on the way in, so everything downstream sees a preset
//! that already names a real instance.

use vstd::prelude::*;
use crate::identifiers::IntegrationId;
use crate::panels::{
    Action, ActionBinding, Bar, Border, ColorBinding, ControlTemplate, JsonValue, OverlayImage, ValueBinding,
    RenderedState,
};
use crate::identifiers::AssetId;
use crate::text::{replace_all, replaced, owned};

verus! {

/// The instance id a preset uses for "the instance that published me".
pub const SELF_INTEGRATION_ID: &'static str = "self";

/// A ready-made button an instance recommends.
#[derive(Debug, PartialEq, Eq)]
pub struct Preset {
    /// Stable across republishes, so the picker does not reorder under the
    /// cursor.
    pub preset_id: String,
    /// What the picker groups by, in the plugin's own vocabulary.
    pub category: String,
    pub name: String,
    pub description: Option<String>,
    pub control: ControlTemplate,
}

/// `$(self:`, the only spelling the sigil can appear in: an instance id
/// cannot contain `(` or `:`.
pub open spec fn self_sigil() -> Seq<char> {
    seq!['$', '(', 's', 'e', 'l', 'f', ':']
}

/// `$(<instance>:`, what the sigil becomes.
pub open spec fn instance_sigil(integration_id: Seq<char>) -> Seq<char> {
    seq!['$', '('] + integration_id + seq![':']
}

/// Text with the sigil rewritten to name `integration_id`.
pub open spec fn rewritten_text(text: Seq<char>, integration_id: Seq<char>) -> Seq<char> {
    replaced(text, self_sigil(), instance_sigil(integration_id))
}

/// Rewrites every `$(self:` in a text to `$(<instance>:`.
fn rewritten(text: &str, integration_id: &IntegrationId) -> (result: String)
    ensures
        result@ == rewritten_text(text@, integration_id@),
{
    let mut sigil = String::new();
    sigil.push('$');
    sigil.push('(');
    sigil.push_str(integration_id.0.as_str());
    sigil.push(':');
    let pattern = "$(self:";
    proof {
        reveal_strlit("$(self:");
        assert(pattern@ =~= self_sigil());
        assert(sigil@ =~= instance_sigil(integration_id@));
    }
    replace_all(text, pattern, sigil.as_str())
}

/// `new` is `old` with the sigil rewritten in its text.
pub open spec fn text_rewritten(old: Option<String>, new: Option<String>, id: Seq<char>) -> bool {
    match (old, new) {
        (None, None) => true,
        (Some(before), Some(after)) => after@ == rewritten_text(before@, id),
        _ => false,
    }
}

/// `new` is `old` with the sigil rewritten in a colour reference.
pub open spec fn color_rewritten(old: ColorBinding, new: ColorBinding, id: Seq<char>) -> bool {
    match (old, new) {
        (ColorBinding::Literal(before), ColorBinding::Literal(after)) => before == after,
        (ColorBinding::Reference(before), ColorBinding::Reference(after)) => after@
            == rewritten_text(before@, id),
        _ => false,
    }
}

pub open spec fn optional_color_rewritten(
    old: Option<ColorBinding>,
    new: Option<ColorBinding>,
    id: Seq<char>,
) -> bool {
    match (old, new) {
        (None, None) => true,
        (Some(before), Some(after)) => color_rewritten(before, after, id),
        _ => false,
    }
}

pub open spec fn image_rewritten(old: Option<AssetId>, new: Option<AssetId>, id: Seq<char>) -> bool {
    match (old, new) {
        (None, None) => true,
        (Some(before), Some(after)) => after@ == rewritten_text(before@, id),
        _ => false,
    }
}

/// `new` is `old` with the sigil rewritten in every field that can bind.
pub open spec fn state_rewritten(old: RenderedState, new: RenderedState, id: Seq<char>) -> bool {
    &&& text_rewritten(old.text, new.text, id)
    &&& image_rewritten(old.image, new.image, id)
    &&& match (old.overlay_image, new.overlay_image) {
        (None, None) => true,
        (Some(before), Some(after)) => after.image@ == rewritten_text(before.image@, id)
            && after.anchor == before.anchor && after.scale_percent == before.scale_percent
            && optional_color_rewritten(before.tint, after.tint, id),
        _ => false,
    }
    &&& optional_color_rewritten(old.image_tint, new.image_tint, id)
    &&& optional_color_rewritten(old.foreground_color, new.foreground_color, id)
    &&& optional_color_rewritten(old.background_color, new.background_color, id)
    &&& match (old.border, new.border) {
        (None, None) => true,
        (Some(before), Some(after)) => color_rewritten(before.color, after.color, id)
            && after.width == before.width,
        _ => false,
    }
    &&& match (old.bar, new.bar) {
        (None, None) => true,
        (Some(before), Some(after)) => value_rewritten(before.value, after.value, id) && value_rewritten(
            before.maximum,
            after.maximum,
            id,
        ) && color_rewritten(before.color, after.color, id) && after.edge == before.edge && after.thickness
            == before.thickness,
        _ => false,
    }
    &&& new.is_pressed == old.is_pressed
}

/// `new` is the value binding `old` with the sigil rewritten in a reference.
pub open spec fn value_rewritten(old: ValueBinding, new: ValueBinding, id: Seq<char>) -> bool {
    match (old, new) {
        (ValueBinding::Literal(a), ValueBinding::Literal(b)) => a == b,
        (ValueBinding::Reference(a), ValueBinding::Reference(b)) => b@ == rewritten_text(a@, id),
        _ => false,
    }
}

fn rewritten_value(value: &ValueBinding, integration_id: &IntegrationId) -> (result: ValueBinding)
    ensures
        value_rewritten(*value, result, integration_id@),
{
    match value {
        ValueBinding::Literal(v) => ValueBinding::Literal(*v),
        ValueBinding::Reference(reference) => ValueBinding::Reference(rewritten(reference.as_str(), integration_id)),
    }
}

/// `new` is the JSON `old` with the sigil rewritten in every string it holds.
pub open spec fn json_rewritten(old: JsonValue, new: JsonValue, id: Seq<char>) -> bool
    decreases old,
{
    match (old, new) {
        (JsonValue::Null, JsonValue::Null) => true,
        (JsonValue::Bool(a), JsonValue::Bool(b)) => a == b,
        (JsonValue::Integer(a), JsonValue::Integer(b)) => a == b,
        (JsonValue::Number(a), JsonValue::Number(b)) => a@ == b@,
        (JsonValue::Text(a), JsonValue::Text(b)) => b@ == rewritten_text(a@, id),
        (JsonValue::Array(a), JsonValue::Array(b)) => a@.len() == b@.len() && forall|i: int|
            0 <= i < a@.len() ==> json_rewritten(#[trigger] a@[i], b@[i], id),
        (JsonValue::Object(a), JsonValue::Object(b)) => a@.len() == b@.len() && forall|i: int|
            0 <= i < a@.len() ==> (#[trigger] a@[i]).0@ == b@[i].0@ && json_rewritten(
                a@[i].1,
                b@[i].1,
                id,
            ),
        _ => false,
    }
}

fn rewritten_json(value: &JsonValue, integration_id: &IntegrationId) -> (result: JsonValue)
    ensures
        json_rewritten(*value, result, integration_id@),
    decreases value,
{
    match value {
        JsonValue::Null => JsonValue::Null,
        JsonValue::Bool(b) => JsonValue::Bool(*b),
        JsonValue::Integer(n) => JsonValue::Integer(*n),
        JsonValue::Number(text) => JsonValue::Number(text.clone()),
        JsonValue::Text(text) => JsonValue::Text(rewritten(text.as_str(), integration_id)),
        JsonValue::Array(items) => {
            let mut out: Vec<JsonValue> = Vec::new();
            let mut i: usize = 0;
            while i < items.len()
                invariant
                    value is Array,
                    value->Array_0 === *items,
                    i <= items@.len(),
                    out@.len() == i,
                    forall|j: int|
                        0 <= j < i ==> json_rewritten(#[trigger] items@[j], out@[j], integration_id@),
                decreases items.len() - i,
            {
                proof {
                    assert(decreases_to!(*value => value->Array_0));
                    assert(decreases_to!(*items => items@));
                    assert(decreases_to!(items@ => items@[i as int]));
                }
                let item = rewritten_json(&items[i], integration_id);
                out.push(item);
                i += 1;
            }
            JsonValue::Array(out)
        },
        JsonValue::Object(members) => {
            let mut out: Vec<(String, JsonValue)> = Vec::new();
            let mut i: usize = 0;
            while i < members.len()
                invariant
                    value is Object,
                    value->Object_0 === *members,
                    i <= members@.len(),
                    out@.len() == i,
                    forall|j: int|
                        0 <= j < i ==> (#[trigger] members@[j]).0@ == out@[j].0@ && json_rewritten(
                            members@[j].1,
                            out@[j].1,
                            integration_id@,
                        ),
                decreases members.len() - i,
            {
                proof {
                    assert(decreases_to!(*value => value->Object_0));
                    assert(decreases_to!(*members => members@));
                    assert(decreases_to!(members@ => members@[i as int]));
                    assert(decreases_to!(members@[i as int] => members@[i as int].1));
                }
                let item = rewritten_json(&members[i].1, integration_id);
                out.push((members[i].0.clone(), item));
                i += 1;
            }
            JsonValue::Object(out)
        },
    }
}

fn rewritten_color(color: &ColorBinding, integration_id: &IntegrationId) -> (result: ColorBinding)
    ensures
        color_rewritten(*color, result, integration_id@),
{
    match color {
        ColorBinding::Literal(literal) => ColorBinding::Literal(*literal),
        ColorBinding::Reference(reference) => ColorBinding::Reference(
            rewritten(reference.as_str(), integration_id),
        ),
    }
}

fn rewritten_optional_color(color: &Option<ColorBinding>, integration_id: &IntegrationId) -> (result:
    Option<ColorBinding>)
    ensures
        optional_color_rewritten(*color, result, integration_id@),
{
    match color {
        Some(binding) => Some(rewritten_color(binding, integration_id)),
        None => None,
    }
}

fn rewritten_state(state: &RenderedState, integration_id: &IntegrationId) -> (result: RenderedState)
    ensures
        state_rewritten(*state, result, integration_id@),
{
    RenderedState {
        text: match &state.text {
            Some(text) => Some(rewritten(text.as_str(), integration_id)),
            None => None,
        },
        image: match &state.image {
            Some(image) => Some(AssetId(rewritten(image.0.as_str(), integration_id))),
            None => None,
        },
        image_tint: rewritten_optional_color(&state.image_tint, integration_id),
        overlay_image: match &state.overlay_image {
            Some(overlay) => Some(
                OverlayImage {
                    image: AssetId(rewritten(overlay.image.0.as_str(), integration_id)),
                    anchor: overlay.anchor,
                    scale_percent: overlay.scale_percent,
                    tint: rewritten_optional_color(&overlay.tint, integration_id),
                },
            ),
            None => None,
        },
        foreground_color: rewritten_optional_color(&state.foreground_color, integration_id),
        background_color: rewritten_optional_color(&state.background_color, integration_id),
        border: match &state.border {
            Some(border) => Some(
                Border { color: rewritten_color(&border.color, integration_id), width: border.width },
            ),
            None => None,
        },
        bar: match &state.bar {
            Some(bar) => Some(
                Bar {
                    value: rewritten_value(&bar.value, integration_id),
                    maximum: rewritten_value(&bar.maximum, integration_id),
                    color: rewritten_color(&bar.color, integration_id),
                    edge: bar.edge,
                    thickness: bar.thickness,
                },
            ),
            None => None,
        },
        is_pressed: state.is_pressed,
    }
}

/// `new` is `old` with `self` rewritten to the publishing instance: the
/// target of an integration call, and the sigil in the JSON an action
/// carries.
pub open spec fn action_rewritten(old: Action, new: Action, id: Seq<char>) -> bool {
    match (old, new) {
        (
            Action::InvokeIntegration {
                integration_id: target,
                action_name: name,
                parameters: parameters,
            },
            Action::InvokeIntegration {
                integration_id: new_target,
                action_name: new_name,
                parameters: new_parameters,
            },
        ) => new_target@ == (if target@ == SELF_INTEGRATION_ID@ {
            id
        } else {
            target@
        }) && new_name@ == name@ && json_rewritten(parameters, new_parameters, id),
        (
            Action::SetVariable { name: name, value: value },
            Action::SetVariable { name: new_name, value: new_value },
        ) => new_name@ == name@ && json_rewritten(value, new_value, id),
        (
            Action::OpenSubpanel { panel_id: panel, placement: placement },
            Action::OpenSubpanel { panel_id: new_panel, placement: new_placement },
        ) => new_panel@ == panel@ && new_placement == placement,
        (Action::CloseSubpanel, Action::CloseSubpanel) => true,
        (Action::ChangePanel { panel_id: panel }, Action::ChangePanel { panel_id: new_panel }) => new_panel@
            == panel@,
        (Action::Wait { duration_ms: d }, Action::Wait { duration_ms: e }) => d == e,
        _ => false,
    }
}

fn rewritten_action(action: &Action, integration_id: &IntegrationId) -> (result: Action)
    ensures
        action_rewritten(*action, result, integration_id@),
{
    match action {
        Action::InvokeIntegration { integration_id: target, action_name, parameters } => {
            let is_self = crate::text::str_eq(target.0.as_str(), SELF_INTEGRATION_ID);
            Action::InvokeIntegration {
                integration_id: if is_self {
                    integration_id.clone()
                } else {
                    target.clone()
                },
                action_name: action_name.clone(),
                parameters: rewritten_json(parameters, integration_id),
            }
        },
        Action::SetVariable { name, value } => Action::SetVariable {
            name: name.clone(),
            value: rewritten_json(value, integration_id),
        },
        Action::OpenSubpanel { panel_id, placement } => Action::OpenSubpanel {
            panel_id: panel_id.clone(),
            placement: *placement,
        },
        Action::CloseSubpanel => Action::CloseSubpanel,
        Action::ChangePanel { panel_id } => Action::ChangePanel { panel_id: panel_id.clone() },
        Action::Wait { duration_ms } => Action::Wait { duration_ms: *duration_ms },
    }
}

/// `new` is `old` with every action rewritten.
pub open spec fn bindings_rewritten(old: Seq<ActionBinding>, new: Seq<ActionBinding>, id: Seq<char>) -> bool {
    &&& old.len() == new.len()
    &&& forall|i: int|
        0 <= i < old.len() ==> (#[trigger] old[i]).gesture == new[i].gesture && old[i].actions@.len()
            == new[i].actions@.len() && forall|j: int|
            0 <= j < old[i].actions@.len() ==> action_rewritten(
                #[trigger] old[i].actions@[j],
                new[i].actions@[j],
                id,
            )
}

fn rewritten_bindings(bindings: &Vec<ActionBinding>, integration_id: &IntegrationId) -> (result: Vec<
    ActionBinding,
>)
    ensures
        bindings_rewritten(bindings@, result@, integration_id@),
{
    let mut out: Vec<ActionBinding> = Vec::new();
    let mut i: usize = 0;
    while i < bindings.len()
        invariant
            i <= bindings@.len(),
            out@.len() == i,
            forall|k: int|
                0 <= k < i ==> (#[trigger] bindings@[k]).gesture == out@[k].gesture
                    && bindings@[k].actions@.len() == out@[k].actions@.len() && forall|j: int|
                    0 <= j < bindings@[k].actions@.len() ==> action_rewritten(
                        #[trigger] bindings@[k].actions@[j],
                        out@[k].actions@[j],
                        integration_id@,
                    ),
        decreases bindings.len() - i,
    {
        let binding = &bindings[i];
        let mut actions: Vec<Action> = Vec::new();
        let mut j: usize = 0;
        while j < binding.actions.len()
            invariant
                j <= binding.actions@.len(),
                actions@.len() == j,
                forall|m: int|
                    0 <= m < j ==> action_rewritten(
                        #[trigger] binding.actions@[m],
                        actions@[m],
                        integration_id@,
                    ),
            decreases binding.actions.len() - j,
        {
            actions.push(rewritten_action(&binding.actions[j], integration_id));
            j += 1;
        }
        out.push(ActionBinding { gesture: binding.gesture, actions });
        i += 1;
    }
    out
}

/// `new` is the preset `old` with `self` rewritten to `id` everywhere a
/// binding or an action can name it, and nothing else changed.
pub open spec fn preset_rewritten(old: Preset, new: Preset, id: Seq<char>) -> bool {
    &&& new.preset_id == old.preset_id
    &&& new.category == old.category
    &&& new.name == old.name
    &&& new.description == old.description
    &&& new.control.name == old.control.name
    &&& state_rewritten(old.control.default_state, new.control.default_state, id)
    &&& match (old.control.pressed_state, new.control.pressed_state) {
        (None, None) => true,
        (Some(before), Some(after)) => state_rewritten(before, after, id),
        _ => false,
    }
    &&& bindings_rewritten(old.control.action_bindings@, new.control.action_bindings@, id)
}

/// Rewrites the `self` sigil in a preset to the publishing instance.
pub fn substitute_self(preset: &mut Preset, integration_id: &IntegrationId)
    ensures
        preset_rewritten(*old(preset), *final(preset), integration_id@),
{
    let default_state = rewritten_state(&preset.control.default_state, integration_id);
    let pressed_state = match &preset.control.pressed_state {
        Some(state) => Some(rewritten_state(state, integration_id)),
        None => None,
    };
    let action_bindings = rewritten_bindings(&preset.control.action_bindings, integration_id);
    preset.control.default_state = default_state;
    preset.control.pressed_state = pressed_state;
    preset.control.action_bindings = action_bindings;
}

} // verus!
