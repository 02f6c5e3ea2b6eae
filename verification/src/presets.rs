//! The recommendations each instance has published. An instance replaces its
//! list wholesale, so one that has lost sight of a light can withdraw the key
//! for it; republishing the same list changes nothing.

use vstd::prelude::*;
use crate::identifiers::IntegrationId;
use crate::order::{lemma_lex_total, lemma_lex_transitive, lex_less, lex_lt};
use crate::panels::{
    Action, ActionBinding, Border, ColorBinding, ControlTemplate, JsonValue, OverlayImage,
    RenderedState, Control, SurfacePosition, ValueBinding,
};
use crate::preset::Preset;
use crate::json::{copy_json, json_equal, same_json};
use crate::text::{chars_of, option_view};

verus! {

/// Two colour bindings that read the same.
pub open spec fn same_color(a: Option<ColorBinding>, b: Option<ColorBinding>) -> bool {
    match (a, b) {
        (None, None) => true,
        (Some(ColorBinding::Literal(x)), Some(ColorBinding::Literal(y))) => x == y,
        (Some(ColorBinding::Reference(x)), Some(ColorBinding::Reference(y))) => x@ == y@,
        _ => false,
    }
}

fn color_equal(a: &Option<ColorBinding>, b: &Option<ColorBinding>) -> (same: bool)
    ensures
        same == same_color(*a, *b),
{
    match (a, b) {
        (None, None) => true,
        (Some(ColorBinding::Literal(x)), Some(ColorBinding::Literal(y))) => *x == *y,
        (Some(ColorBinding::Reference(x)), Some(ColorBinding::Reference(y))) => *x == *y,
        _ => false,
    }
}

/// Two states that show the same thing.
pub open spec fn same_state(a: RenderedState, b: RenderedState) -> bool {
    &&& option_view(a.text) == option_view(b.text)
    &&& match (a.image, b.image) {
        (None, None) => true,
        (Some(x), Some(y)) => x@ == y@,
        _ => false,
    }
    &&& match (a.overlay_image, b.overlay_image) {
        (None, None) => true,
        (Some(x), Some(y)) => x.image@ == y.image@ && x.anchor == y.anchor && x.scale_percent
            == y.scale_percent && same_color(x.tint, y.tint),
        _ => false,
    }
    &&& same_color(a.image_tint, b.image_tint)
    &&& same_color(a.foreground_color, b.foreground_color)
    &&& same_color(a.background_color, b.background_color)
    &&& match (a.border, b.border) {
        (None, None) => true,
        (Some(x), Some(y)) => same_color(Some(x.color), Some(y.color)) && x.width == y.width,
        _ => false,
    }
    &&& match (a.bar, b.bar) {
        (None, None) => true,
        (Some(x), Some(y)) => same_value(x.value, y.value) && same_value(x.maximum, y.maximum) && same_color(
            Some(x.color),
            Some(y.color),
        ) && x.edge == y.edge && x.thickness == y.thickness,
        _ => false,
    }
    &&& a.is_pressed == b.is_pressed
}

/// Two value bindings that read the same.
pub open spec fn same_value(a: ValueBinding, b: ValueBinding) -> bool {
    match (a, b) {
        (ValueBinding::Literal(x), ValueBinding::Literal(y)) => x == y,
        (ValueBinding::Reference(x), ValueBinding::Reference(y)) => x@ == y@,
        _ => false,
    }
}

fn value_equal(a: &ValueBinding, b: &ValueBinding) -> (same: bool)
    ensures
        same == same_value(*a, *b),
{
    match (a, b) {
        (ValueBinding::Literal(x), ValueBinding::Literal(y)) => *x == *y,
        (ValueBinding::Reference(x), ValueBinding::Reference(y)) => *x == *y,
        _ => false,
    }
}

fn text_equal(a: &Option<String>, b: &Option<String>) -> (same: bool)
    ensures
        same == (option_view(*a) == option_view(*b)),
{
    match (a, b) {
        (None, None) => true,
        (Some(x), Some(y)) => *x == *y,
        _ => false,
    }
}

fn state_equal(a: &RenderedState, b: &RenderedState) -> (same: bool)
    ensures
        same == same_state(*a, *b),
{
    let images = match (&a.image, &b.image) {
        (None, None) => true,
        (Some(x), Some(y)) => x.0 == y.0,
        _ => false,
    };
    let overlays = match (&a.overlay_image, &b.overlay_image) {
        (None, None) => true,
        (Some(x), Some(y)) => x.image.0 == y.image.0 && x.anchor == y.anchor && x.scale_percent
            == y.scale_percent && color_equal(&x.tint, &y.tint),
        _ => false,
    };
    let bars = match (&a.bar, &b.bar) {
        (None, None) => true,
        (Some(x), Some(y)) => value_equal(&x.value, &y.value) && value_equal(&x.maximum, &y.maximum)
            && border_color_equal(&x.color, &y.color) && x.edge == y.edge && x.thickness == y.thickness,
        _ => false,
    };
    let borders = match (&a.border, &b.border) {
        (None, None) => true,
        (Some(x), Some(y)) => border_color_equal(&x.color, &y.color) && x.width == y.width,
        _ => false,
    };
    text_equal(&a.text, &b.text) && images && overlays && color_equal(
        &a.foreground_color,
        &b.foreground_color,
    ) && color_equal(&a.background_color, &b.background_color) && borders && bars && color_equal(
        &a.image_tint,
        &b.image_tint,
    ) && a.is_pressed == b.is_pressed
}

fn border_color_equal(a: &ColorBinding, b: &ColorBinding) -> (same: bool)
    ensures
        same == same_color(Some(*a), Some(*b)),
{
    match (a, b) {
        (ColorBinding::Literal(x), ColorBinding::Literal(y)) => *x == *y,
        (ColorBinding::Reference(x), ColorBinding::Reference(y)) => *x == *y,
        _ => false,
    }
}

/// Two actions that do the same thing.
pub open spec fn same_action(a: Action, b: Action) -> bool {
    match (a, b) {
        (
            Action::InvokeIntegration { integration_id: i, action_name: n, parameters: p },
            Action::InvokeIntegration { integration_id: j, action_name: m, parameters: q },
        ) => i@ == j@ && n@ == m@ && same_json(p, q),
        (Action::SetVariable { name: n, value: v }, Action::SetVariable { name: m, value: w }) => n@
            == m@ && same_json(v, w),
        (
            Action::OpenSubpanel { panel_id: i, placement: p },
            Action::OpenSubpanel { panel_id: j, placement: q },
        ) => i@ == j@ && p == q,
        (Action::CloseSubpanel, Action::CloseSubpanel) => true,
        (Action::ChangePanel { panel_id: i }, Action::ChangePanel { panel_id: j }) => i@ == j@,
        (Action::Wait { duration_ms: d }, Action::Wait { duration_ms: e }) => d == e,
        _ => false,
    }
}

fn action_equal(a: &Action, b: &Action) -> (same: bool)
    ensures
        same == same_action(*a, *b),
{
    match (a, b) {
        (
            Action::InvokeIntegration { integration_id: i, action_name: n, parameters: p },
            Action::InvokeIntegration { integration_id: j, action_name: m, parameters: q },
        ) => i.0 == j.0 && *n == *m && json_equal(p, q),
        (Action::SetVariable { name: n, value: v }, Action::SetVariable { name: m, value: w }) => *n
            == *m && json_equal(v, w),
        (
            Action::OpenSubpanel { panel_id: i, placement: p },
            Action::OpenSubpanel { panel_id: j, placement: q },
        ) => i.0 == j.0 && *p == *q,
        (Action::CloseSubpanel, Action::CloseSubpanel) => true,
        (Action::ChangePanel { panel_id: i }, Action::ChangePanel { panel_id: j }) => i.0 == j.0,
        (Action::Wait { duration_ms: d }, Action::Wait { duration_ms: e }) => *d == *e,
        _ => false,
    }
}

/// Two binding lists that run the same actions on the same gestures.
pub open spec fn same_bindings(a: Seq<ActionBinding>, b: Seq<ActionBinding>) -> bool {
    a.len() == b.len() && forall|i: int|
        0 <= i < a.len() ==> (#[trigger] a[i]).gesture == b[i].gesture && a[i].actions@.len()
            == b[i].actions@.len() && forall|k: int|
            0 <= k < a[i].actions@.len() ==> same_action(#[trigger] a[i].actions@[k], b[i].actions@[k])
}

fn actions_equal(a: &Vec<Action>, b: &Vec<Action>) -> (same: bool)
    ensures
        same == (a@.len() == b@.len() && forall|k: int| 0 <= k < a@.len() ==> same_action(#[trigger] a@[k], b@[k])),
{
    if a.len() != b.len() {
        return false;
    }
    let mut k: usize = 0;
    while k < a.len()
        invariant
            a@.len() == b@.len(),
            k <= a@.len(),
            forall|j: int| 0 <= j < k ==> same_action(#[trigger] a@[j], b@[j]),
        decreases a.len() - k,
    {
        if !action_equal(&a[k], &b[k]) {
            return false;
        }
        k += 1;
    }
    true
}

fn bindings_equal(a: &Vec<ActionBinding>, b: &Vec<ActionBinding>) -> (same: bool)
    ensures
        same == same_bindings(a@, b@),
{
    if a.len() != b.len() {
        return false;
    }
    let mut i: usize = 0;
    while i < a.len()
        invariant
            a@.len() == b@.len(),
            i <= a@.len(),
            forall|j: int|
                0 <= j < i ==> (#[trigger] a@[j]).gesture == b@[j].gesture && a@[j].actions@.len()
                    == b@[j].actions@.len() && forall|k: int|
                    0 <= k < a@[j].actions@.len() ==> same_action(#[trigger] a@[j].actions@[k], b@[j].actions@[k]),
        decreases a.len() - i,
    {
        if a[i].gesture != b[i].gesture || !actions_equal(&a[i].actions, &b[i].actions) {
            return false;
        }
        i += 1;
    }
    true
}

/// Two presets that recommend the same key.
pub open spec fn same_preset(a: Preset, b: Preset) -> bool {
    &&& a.preset_id@ == b.preset_id@
    &&& a.category@ == b.category@
    &&& a.name@ == b.name@
    &&& option_view(a.description) == option_view(b.description)
    &&& a.control.name@ == b.control.name@
    &&& same_state(a.control.default_state, b.control.default_state)
    &&& match (a.control.pressed_state, b.control.pressed_state) {
        (None, None) => true,
        (Some(x), Some(y)) => same_state(x, y),
        _ => false,
    }
    &&& same_bindings(a.control.action_bindings@, b.control.action_bindings@)
}

fn preset_equal(a: &Preset, b: &Preset) -> (same: bool)
    ensures
        same == same_preset(*a, *b),
{
    let pressed = match (&a.control.pressed_state, &b.control.pressed_state) {
        (None, None) => true,
        (Some(x), Some(y)) => state_equal(x, y),
        _ => false,
    };
    a.preset_id == b.preset_id && a.category == b.category && a.name == b.name && text_equal(
        &a.description,
        &b.description,
    ) && a.control.name == b.control.name && state_equal(
        &a.control.default_state,
        &b.control.default_state,
    ) && pressed && bindings_equal(&a.control.action_bindings, &b.control.action_bindings)
}

/// Two lists of the same presets in the same order.
pub open spec fn same_presets(a: Seq<Preset>, b: Seq<Preset>) -> bool {
    a.len() == b.len() && forall|i: int| 0 <= i < a.len() ==> same_preset(#[trigger] a[i], b[i])
}

fn presets_equal(a: &Vec<Preset>, b: &Vec<Preset>) -> (same: bool)
    ensures
        same == same_presets(a@, b@),
{
    if a.len() != b.len() {
        return false;
    }
    let mut i: usize = 0;
    while i < a.len()
        invariant
            a@.len() == b@.len(),
            i <= a@.len(),
            forall|j: int| 0 <= j < i ==> same_preset(#[trigger] a@[j], b@[j]),
        decreases a.len() - i,
    {
        if !preset_equal(&a[i], &b[i]) {
            return false;
        }
        i += 1;
    }
    true
}


fn state_copy(state: &RenderedState) -> (copy: RenderedState)
    ensures
        same_state(*state, copy),
{
    state.clone()
}

fn action_copy(action: &Action) -> (copy: Action)
    ensures
        same_action(*action, copy),
{
    match action {
        Action::InvokeIntegration { integration_id, action_name, parameters } => Action::InvokeIntegration {
            integration_id: integration_id.clone(),
            action_name: action_name.clone(),
            parameters: copy_json(parameters),
        },
        Action::SetVariable { name, value } => Action::SetVariable { name: name.clone(), value: copy_json(value) },
        Action::OpenSubpanel { panel_id, placement } => Action::OpenSubpanel {
            panel_id: panel_id.clone(),
            placement: *placement,
        },
        Action::CloseSubpanel => Action::CloseSubpanel,
        Action::ChangePanel { panel_id } => Action::ChangePanel { panel_id: panel_id.clone() },
        Action::Wait { duration_ms } => Action::Wait { duration_ms: *duration_ms },
    }
}

fn bindings_copy(bindings: &Vec<ActionBinding>) -> (copy: Vec<ActionBinding>)
    ensures
        same_bindings(bindings@, copy@),
{
    let mut out: Vec<ActionBinding> = Vec::new();
    let mut i: usize = 0;
    while i < bindings.len()
        invariant
            i <= bindings@.len(),
            out@.len() == i,
            forall|j: int|
                0 <= j < i ==> (#[trigger] bindings@[j]).gesture == out@[j].gesture && bindings@[j].actions@.len()
                    == out@[j].actions@.len() && forall|k: int|
                    0 <= k < bindings@[j].actions@.len() ==> same_action(#[trigger] bindings@[j].actions@[k], out@[j].actions@[k]),
        decreases bindings.len() - i,
    {
        let mut actions: Vec<Action> = Vec::new();
        let mut k: usize = 0;
        while k < bindings[i].actions.len()
            invariant
                i < bindings@.len(),
                k <= bindings@[i as int].actions@.len(),
                actions@.len() == k,
                forall|m: int| 0 <= m < k ==> same_action(#[trigger] bindings@[i as int].actions@[m], actions@[m]),
            decreases bindings@[i as int].actions@.len() - k,
        {
            actions.push(action_copy(&bindings[i].actions[k]));
            k += 1;
        }
        out.push(ActionBinding { gesture: bindings[i].gesture, actions });
        i += 1;
    }
    out
}

/// A copy of a preset that recommends the same key.
pub fn preset_copy(preset: &Preset) -> (copy: Preset)
    ensures
        same_preset(*preset, copy),
{
    Preset {
        preset_id: preset.preset_id.clone(),
        category: preset.category.clone(),
        name: preset.name.clone(),
        description: match &preset.description {
            Some(d) => Some(d.clone()),
            None => None,
        },
        control: ControlTemplate {
            name: preset.control.name.clone(),
            default_state: state_copy(&preset.control.default_state),
            pressed_state: match &preset.control.pressed_state {
                Some(pressed) => Some(state_copy(pressed)),
                None => None,
            },
            action_bindings: bindings_copy(&preset.control.action_bindings),
        },
    }
}

/// Two controls that are the same key: same id, name and place, showing
/// the same and running the same actions.
pub open spec fn same_control(a: Control, b: Control) -> bool {
    &&& a.control_id@ == b.control_id@
    &&& a.name@ == b.name@
    &&& a.position == b.position
    &&& same_state(a.default_state, b.default_state)
    &&& match (a.pressed_state, b.pressed_state) {
        (None, None) => true,
        (Some(x), Some(y)) => same_state(x, y),
        _ => false,
    }
    &&& same_bindings(a.action_bindings@, b.action_bindings@)
}

/// A copy of a control, moved to `position`.
pub fn control_copy_at(control: &Control, position: SurfacePosition) -> (copy: Control)
    ensures
        same_control(Control { position, ..*control }, copy),
{
    Control {
        control_id: control.control_id.clone(),
        name: control.name.clone(),
        position,
        default_state: state_copy(&control.default_state),
        pressed_state: match &control.pressed_state {
            Some(pressed) => Some(state_copy(pressed)),
            None => None,
        },
        action_bindings: bindings_copy(&control.action_bindings),
    }
}

fn presets_copy(presets: &Vec<Preset>) -> (copy: Vec<Preset>)
    ensures
        same_presets(presets@, copy@),
{
    let mut out: Vec<Preset> = Vec::new();
    let mut i: usize = 0;
    while i < presets.len()
        invariant
            i <= presets@.len(),
            out@.len() == i,
            forall|j: int| 0 <= j < i ==> same_preset(#[trigger] presets@[j], out@[j]),
        decreases presets.len() - i,
    {
        out.push(preset_copy(&presets[i]));
        i += 1;
    }
    out
}


/// Each instance's current recommendations. An instance that publishes
/// nothing is not listed.
#[derive(Debug)]
pub struct PresetStore {
    by_instance: Vec<(IntegrationId, Vec<Preset>)>,
}

/// No instance is listed twice, and none with an empty list.
pub open spec fn store_entries_wf(entries: Seq<(IntegrationId, Vec<Preset>)>) -> bool {
    &&& forall|i: int, j: int|
        0 <= i < entries.len() && 0 <= j < entries.len() && i != j ==> (#[trigger] entries[i]).0@
            != (#[trigger] entries[j]).0@
    &&& forall|i: int| 0 <= i < entries.len() ==> (#[trigger] entries[i]).1@.len() > 0
}

spec fn listed(entries: Seq<(IntegrationId, Vec<Preset>)>, id: Seq<char>) -> bool {
    exists|i: int| 0 <= i < entries.len() && (#[trigger] entries[i]).0@ == id
}

spec fn listed_presets(entries: Seq<(IntegrationId, Vec<Preset>)>, id: Seq<char>) -> Seq<Preset> {
    entries[choose|i: int| 0 <= i < entries.len() && (#[trigger] entries[i]).0@ == id].1@
}

proof fn lemma_listed_at(entries: Seq<(IntegrationId, Vec<Preset>)>, i: int)
    requires
        store_entries_wf(entries),
        0 <= i < entries.len(),
    ensures
        listed(entries, entries[i].0@),
        listed_presets(entries, entries[i].0@) == entries[i].1@,
{
    let id = entries[i].0@;
    assert(listed(entries, id));
    let j = choose|j: int| 0 <= j < entries.len() && (#[trigger] entries[j]).0@ == id;
    assert(j == i);
}

/// Whether every list a store holds names at least one preset: an instance
/// that publishes nothing is withdrawn rather than kept with an empty list.
pub open spec fn lists_nonempty(store: Map<Seq<char>, Seq<Preset>>) -> bool {
    forall|id: Seq<char>| #[trigger] store.contains_key(id) ==> store[id].len() > 0
}

impl View for PresetStore {
    type V = Map<Seq<char>, Seq<Preset>>;

    closed spec fn view(&self) -> Map<Seq<char>, Seq<Preset>> {
        Map::new(|id| listed(self.by_instance@, id), |id| listed_presets(self.by_instance@, id))
    }
}

/// Whether publishing `presets` over what `store` holds for `id` changes
/// anything: the same list again does not, and withdrawing a list only does
/// when there was one.
pub open spec fn publish_changes(store: Map<Seq<char>, Seq<Preset>>, id: Seq<char>, presets: Seq<Preset>) -> bool {
    if store.contains_key(id) {
        !same_presets(store[id], presets)
    } else {
        presets.len() > 0
    }
}

/// What the store holds after `id` publishes `presets`: the list replaced, or
/// withdrawn when it is empty, and left alone when it is the same list.
pub open spec fn published(store: Map<Seq<char>, Seq<Preset>>, id: Seq<char>, presets: Seq<Preset>) -> Map<
    Seq<char>,
    Seq<Preset>,
> {
    if store.contains_key(id) && same_presets(store[id], presets) {
        store
    } else if presets.len() == 0 {
        store.remove(id)
    } else {
        store.insert(id, presets)
    }
}

impl Default for PresetStore {
    fn default() -> (store: Self)
        ensures
            store.wf(),
            store@ == Map::<Seq<char>, Seq<Preset>>::empty(),
            lists_nonempty(store@),
    {
        let store = PresetStore { by_instance: Vec::new() };
        assert(store@ =~= Map::<Seq<char>, Seq<Preset>>::empty());
        store
    }
}

/// Whether some position came from entry `m`.
spec fn placed(from: Seq<int>, m: int) -> bool {
    exists|k: int| 0 <= k < from.len() && #[trigger] from[k] == m
}

/// Where an instance id goes among ids in order: before the first id it
/// sorts before.
fn id_insertion_point(entries: &Vec<(IntegrationId, Vec<Preset>)>, id: &IntegrationId) -> (position: usize)
    ensures
        position <= entries@.len(),
        forall|q: int| 0 <= q < position ==> !lex_lt(id@, (#[trigger] entries@[q]).0@),
        position < entries@.len() ==> lex_lt(id@, entries@[position as int].0@),
{
    let id_chars = chars_of(id.0.as_str());
    let mut position: usize = 0;
    while position < entries.len()
        invariant
            position <= entries@.len(),
            id_chars@ == id@,
            forall|q: int| 0 <= q < position ==> !lex_lt(id@, (#[trigger] entries@[q]).0@),
        decreases entries.len() - position,
    {
        let other = chars_of(entries[position].0.0.as_str());
        if lex_less(&id_chars, &other) {
            return position;
        }
        position += 1;
    }
    position
}

/// A well-formed store holds no empty list.
pub proof fn lemma_stored_lists_nonempty(store: &PresetStore)
    requires
        store.wf(),
    ensures
        lists_nonempty(store@),
{
    assert forall|id: Seq<char>| #[trigger] store@.contains_key(id) implies store@[id].len() > 0 by {
        let entries = store.by_instance@;
        let i = choose|i: int| 0 <= i < entries.len() && (#[trigger] entries[i]).0@ == id;
        lemma_listed_at(entries, i);
    }
}

impl PresetStore {
    /// No instance is listed twice, and none with an empty list.
    pub closed spec fn wf(&self) -> bool {
        store_entries_wf(self.by_instance@)
    }

    /// An empty store.
    pub fn new() -> (store: Self)
        ensures
            store.wf(),
            store@ == Map::<Seq<char>, Seq<Preset>>::empty(),
            lists_nonempty(store@),
    {
        Self::default()
    }

    fn position(&self, integration_id: &IntegrationId) -> (found: Option<usize>)
        ensures
            match found {
                Some(i) => i < self.by_instance@.len() && self.by_instance@[i as int].0@ == integration_id@,
                None => !listed(self.by_instance@, integration_id@),
            },
    {
        let mut i: usize = 0;
        while i < self.by_instance.len()
            invariant
                i <= self.by_instance@.len(),
                forall|j: int| 0 <= j < i ==> (#[trigger] self.by_instance@[j]).0@ != integration_id@,
            decreases self.by_instance.len() - i,
        {
            if self.by_instance[i].0 == *integration_id {
                return Some(i);
            }
            i += 1;
        }
        None
    }

    /// Replaces an instance's recommendations, and answers whether anything
    /// actually changed, so an instance republishing the same list on every
    /// poll tells nobody anything.
    pub fn set(&mut self, integration_id: IntegrationId, presets: Vec<Preset>) -> (changed: bool)
        requires
            old(self).wf(),
        ensures
            final(self).wf(),
            final(self)@ == published(old(self)@, integration_id@, presets@),
            changed == publish_changes(old(self)@, integration_id@, presets@),
            lists_nonempty(final(self)@),
            presets@.len() == 0 ==> changed == old(self)@.contains_key(integration_id@),
            presets@.len() == 0 ==> !final(self)@.contains_key(integration_id@),
    {
        proof {
            lemma_stored_lists_nonempty(old(self));
        }
        let ghost before = self.by_instance@;
        let ghost id = integration_id@;
        let found = self.position(&integration_id);
        match found {
            Some(i) => {
                proof {
                    lemma_listed_at(before, i as int);
                }
                if presets_equal(&self.by_instance[i].1, &presets) {
                    return false;
                }
                if presets.len() == 0 {
                    self.by_instance.remove(i);
                    proof {
                        let after = self.by_instance@;
                        assert(store_entries_wf(after)) by {
                            assert forall|a: int, b: int|
                                0 <= a < after.len() && 0 <= b < after.len() && a != b implies (#[trigger] after[a]).0@
                                    != (#[trigger] after[b]).0@ by {
                                let a0 = if a < i { a } else { a + 1 };
                                let b0 = if b < i { b } else { b + 1 };
                                assert(after[a] == before[a0] && after[b] == before[b0]);
                            }
                            assert forall|a: int| 0 <= a < after.len() implies (#[trigger] after[a]).1@.len() > 0 by {
                                let a0 = if a < i { a } else { a + 1 };
                                assert(after[a] == before[a0]);
                            }
                        }
                        assert forall|k| #[trigger] listed(after, k) == (listed(before, k) && k != id) by {
                            if listed(after, k) {
                                let a = choose|a: int| 0 <= a < after.len() && (#[trigger] after[a]).0@ == k;
                                let a0 = if a < i { a } else { a + 1 };
                                assert(after[a] == before[a0]);
                            }
                            if listed(before, k) && k != id {
                                let a0 = choose|a0: int| 0 <= a0 < before.len() && (#[trigger] before[a0]).0@ == k;
                                let a = if a0 < i { a0 } else { a0 - 1 };
                                assert(after[a] == before[a0]);
                            }
                        }
                        assert forall|k| #[trigger] listed(after, k) implies listed_presets(after, k) == listed_presets(before, k) by {
                            let a = choose|a: int| 0 <= a < after.len() && (#[trigger] after[a]).0@ == k;
                            let a0 = if a < i { a } else { a + 1 };
                            assert(after[a] == before[a0]);
                            lemma_listed_at(after, a);
                            lemma_listed_at(before, a0);
                        }
                        assert(self@ =~= old(self)@.remove(id));
                    }
                    return true;
                }
                self.by_instance.set(i, (integration_id, presets));
                proof {
                    let after = self.by_instance@;
                    assert(store_entries_wf(after)) by {
                        assert forall|a: int, b: int|
                            0 <= a < after.len() && 0 <= b < after.len() && a != b implies (#[trigger] after[a]).0@
                                != (#[trigger] after[b]).0@ by {
                            assert(after[a].0@ == before[a].0@ && after[b].0@ == before[b].0@);
                        }
                        assert forall|a: int| 0 <= a < after.len() implies (#[trigger] after[a]).1@.len() > 0 by {
                            if a != i {
                                assert(after[a] == before[a]);
                            }
                        }
                    }
                    assert forall|k| #[trigger] listed(after, k) == listed(before, k) by {
                        if listed(after, k) {
                            let a = choose|a: int| 0 <= a < after.len() && (#[trigger] after[a]).0@ == k;
                            assert(before[a].0@ == k);
                        }
                        if listed(before, k) {
                            let a = choose|a: int| 0 <= a < before.len() && (#[trigger] before[a]).0@ == k;
                            assert(after[a].0@ == k);
                        }
                    }
                    assert forall|k| #[trigger] listed(after, k) implies listed_presets(after, k) == (if k == id {
                        presets@
                    } else {
                        listed_presets(before, k)
                    }) by {
                        let a = choose|a: int| 0 <= a < after.len() && (#[trigger] after[a]).0@ == k;
                        lemma_listed_at(after, a);
                        if a != i {
                            lemma_listed_at(before, a);
                        }
                    }
                    assert(self@ =~= old(self)@.insert(id, presets@));
                }
                true
            },
            None => {
                if presets.len() == 0 {
                    proof {
                        assert(old(self)@.remove(id) =~= old(self)@);
                    }
                    return false;
                }
                self.by_instance.push((integration_id, presets));
                proof {
                    let after = self.by_instance@;
                    let n = before.len() as int;
                    assert(store_entries_wf(after)) by {
                        assert forall|a: int, b: int|
                            0 <= a < after.len() && 0 <= b < after.len() && a != b implies (#[trigger] after[a]).0@
                                != (#[trigger] after[b]).0@ by {
                            if a < n && b < n {
                                assert(after[a] == before[a] && after[b] == before[b]);
                            } else if a < n {
                                assert(after[a] == before[a]);
                            } else if b < n {
                                assert(after[b] == before[b]);
                            }
                        }
                        assert forall|a: int| 0 <= a < after.len() implies (#[trigger] after[a]).1@.len() > 0 by {
                            if a < n {
                                assert(after[a] == before[a]);
                            }
                        }
                    }
                    assert forall|k| #[trigger] listed(after, k) == (listed(before, k) || k == id) by {
                        if listed(before, k) {
                            let a = choose|a: int| 0 <= a < before.len() && (#[trigger] before[a]).0@ == k;
                            assert(after[a] == before[a]);
                        }
                        if k == id {
                            assert(after[n].0@ == k);
                        }
                        if listed(after, k) {
                            let a = choose|a: int| 0 <= a < after.len() && (#[trigger] after[a]).0@ == k;
                            if a < n {
                                assert(after[a] == before[a]);
                            }
                        }
                    }
                    assert forall|k| #[trigger] listed(after, k) implies listed_presets(after, k) == (if k == id {
                        presets@
                    } else {
                        listed_presets(before, k)
                    }) by {
                        let a = choose|a: int| 0 <= a < after.len() && (#[trigger] after[a]).0@ == k;
                        lemma_listed_at(after, a);
                        if a < n {
                            assert(after[a] == before[a]);
                            lemma_listed_at(before, a);
                        }
                    }
                    assert(self@ =~= old(self)@.insert(id, presets@));
                }
                true
            },
        }
    }

    /// Every instance's recommendations, in order of instance id.
    pub fn snapshot(&self) -> (entries: Vec<(IntegrationId, Vec<Preset>)>)
        requires
            self.wf(),
        ensures
            forall|i: int, j: int|
                0 <= i < j < entries@.len() ==> lex_lt((#[trigger] entries@[i]).0@, (#[trigger] entries@[j]).0@),
            forall|i: int|
                0 <= i < entries@.len() ==> self@.contains_key((#[trigger] entries@[i]).0@) && same_presets(
                    self@[entries@[i].0@],
                    entries@[i].1@,
                ),
            forall|id: Seq<char>| #[trigger] self@.contains_key(id) ==> exists|i: int|
                0 <= i < entries@.len() && (#[trigger] entries@[i]).0@ == id,
            forall|i: int| 0 <= i < entries@.len() ==> (#[trigger] entries@[i]).1@.len() > 0,
    {
        proof {
            lemma_stored_lists_nonempty(self);
        }
        let ghost stored = self.by_instance@;
        let mut entries: Vec<(IntegrationId, Vec<Preset>)> = Vec::new();
        let ghost mut from: Seq<int> = Seq::empty();
        let mut taken: usize = 0;
        while taken < self.by_instance.len()
            invariant
                self.by_instance@ == stored,
                store_entries_wf(stored),
                taken <= stored.len(),
                from.len() == entries@.len(),
                forall|k: int|
                    0 <= k < entries@.len() ==> 0 <= #[trigger] from[k] < taken && entries@[k].0@
                        == stored[from[k]].0@ && same_presets(stored[from[k]].1@, entries@[k].1@),
                forall|m: int| 0 <= m < taken ==> #[trigger] placed(from, m),
                forall|a: int, b: int|
                    0 <= a < b < entries@.len() ==> lex_lt((#[trigger] entries@[a]).0@, (#[trigger] entries@[b]).0@),
            decreases self.by_instance.len() - taken,
        {
            let id = self.by_instance[taken].0.clone();
            let copy = presets_copy(&self.by_instance[taken].1);
            let position = id_insertion_point(&entries, &id);
            let ghost before = entries@;
            let ghost from_before = from;
            let ghost p = position as int;
            let ghost t = taken as int;
            entries.insert(position, (id, copy));
            proof {
                from = from_before.insert(p, t);
                let after = entries@;
                assert forall|k: int|
                    0 <= k < after.len() implies 0 <= #[trigger] from[k] < t + 1 && after[k].0@
                        == stored[from[k]].0@ && same_presets(stored[from[k]].1@, after[k].1@) by {
                    if k < p {
                        assert(after[k] == before[k] && from[k] == from_before[k]);
                    } else if k > p {
                        assert(after[k] == before[k - 1] && from[k] == from_before[k - 1]);
                    }
                }
                assert forall|m: int| 0 <= m < t + 1 implies #[trigger] placed(from, m) by {
                    if m == t {
                        assert(from[p] == m);
                    } else {
                        assert(placed(from_before, m));
                        let k = choose|k: int| 0 <= k < from_before.len() && #[trigger] from_before[k] == m;
                        if k < p {
                            assert(from[k] == m);
                        } else {
                            assert(from[k + 1] == m);
                        }
                    }
                }
                assert forall|a: int, b: int|
                    0 <= a < b < after.len() implies lex_lt((#[trigger] after[a]).0@, (#[trigger] after[b]).0@) by {
                    if a == p {
                        assert(after[b] == before[b - 1]);
                        if b - 1 > p {
                            lemma_lex_transitive(after[a].0@, before[p].0@, before[b - 1].0@, 0);
                        }
                    } else if b == p {
                        assert(after[a] == before[a]);
                        assert(stored[from_before[a]].0@ != stored[t].0@);
                        assert(after[b].0@.take(0) =~= after[a].0@.take(0));
                        lemma_lex_total(after[b].0@, after[a].0@, 0);
                    } else {
                        let a0 = if a < p { a } else { a - 1 };
                        let b0 = if b < p { b } else { b - 1 };
                        assert(after[a] == before[a0] && after[b] == before[b0]);
                    }
                }
            }
            taken += 1;
        }
        proof {
            assert forall|i: int| 0 <= i < entries@.len() implies self@.contains_key((#[trigger] entries@[i]).0@)
                && same_presets(self@[entries@[i].0@], entries@[i].1@) by {
                lemma_listed_at(stored, from[i]);
            }
            assert forall|id: Seq<char>| #[trigger] self@.contains_key(id) implies exists|i: int|
                0 <= i < entries@.len() && (#[trigger] entries@[i]).0@ == id by {
                let m = choose|m: int| 0 <= m < stored.len() && (#[trigger] stored[m]).0@ == id;
                assert(placed(from, m));
                let k = choose|k: int| 0 <= k < from.len() && #[trigger] from[k] == m;
                assert(entries@[k].0@ == id);
            }
        }
        entries
    }

    /// Withdraws an instance's recommendations, and answers whether it had
    /// any.
    pub fn clear_instance(&mut self, integration_id: &IntegrationId) -> (cleared: bool)
        requires
            old(self).wf(),
        ensures
            final(self).wf(),
            final(self)@ == old(self)@.remove(integration_id@),
            cleared == old(self)@.contains_key(integration_id@),
            lists_nonempty(final(self)@),
    {
        proof {
            lemma_stored_lists_nonempty(old(self));
        }
        let ghost before = self.by_instance@;
        let ghost id = integration_id@;
        match self.position(integration_id) {
            None => {
                proof {
                    assert(old(self)@.remove(id) =~= old(self)@);
                }
                false
            },
            Some(i) => {
                self.by_instance.remove(i);
                proof {
                    let after = self.by_instance@;
                    assert(store_entries_wf(after)) by {
                        assert forall|a: int, b: int|
                            0 <= a < after.len() && 0 <= b < after.len() && a != b implies (#[trigger] after[a]).0@
                                != (#[trigger] after[b]).0@ by {
                            let a0 = if a < i { a } else { a + 1 };
                            let b0 = if b < i { b } else { b + 1 };
                            assert(after[a] == before[a0] && after[b] == before[b0]);
                        }
                        assert forall|a: int| 0 <= a < after.len() implies (#[trigger] after[a]).1@.len() > 0 by {
                            let a0 = if a < i { a } else { a + 1 };
                            assert(after[a] == before[a0]);
                        }
                    }
                    assert forall|k| #[trigger] listed(after, k) == (listed(before, k) && k != id) by {
                        if listed(after, k) {
                            let a = choose|a: int| 0 <= a < after.len() && (#[trigger] after[a]).0@ == k;
                            let a0 = if a < i { a } else { a + 1 };
                            assert(after[a] == before[a0]);
                        }
                        if listed(before, k) && k != id {
                            let a0 = choose|a0: int| 0 <= a0 < before.len() && (#[trigger] before[a0]).0@ == k;
                            let a = if a0 < i { a0 } else { a0 - 1 };
                            assert(after[a] == before[a0]);
                        }
                    }
                    assert forall|k| #[trigger] listed(after, k) implies listed_presets(after, k) == listed_presets(before, k) by {
                        let a = choose|a: int| 0 <= a < after.len() && (#[trigger] after[a]).0@ == k;
                        let a0 = if a < i { a } else { a + 1 };
                        assert(after[a] == before[a0]);
                        lemma_listed_at(after, a);
                        lemma_listed_at(before, a0);
                    }
                    assert(self@ =~= old(self)@.remove(id));
                }
                true
            },
        }
    }
}

proof fn lemma_same_json_reflexive(value: JsonValue)
    ensures
        same_json(value, value),
    decreases value,
{
    match value {
        JsonValue::Array(items) => {
            assert forall|i: int| 0 <= i < items@.len() implies same_json(#[trigger] items@[i], items@[i]) by {
                assert(decreases_to!(value => items));
                assert(decreases_to!(items => items@));
                assert(decreases_to!(items@ => items@[i]));
                lemma_same_json_reflexive(items@[i]);
            }
        },
        JsonValue::Object(members) => {
            assert forall|i: int| 0 <= i < members@.len() implies (#[trigger] members@[i]).0@ == members@[i].0@
                && same_json(members@[i].1, members@[i].1) by {
                assert(decreases_to!(value => members));
                assert(decreases_to!(members => members@));
                assert(decreases_to!(members@ => members@[i]));
                assert(decreases_to!(members@[i] => members@[i].1));
                lemma_same_json_reflexive(members@[i].1);
            }
        },
        _ => {},
    }
}

/// Every preset recommends the same key as itself.
pub proof fn lemma_same_preset_reflexive(preset: Preset)
    ensures
        same_preset(preset, preset),
{
    let bindings = preset.control.action_bindings@;
    assert forall|i: int| 0 <= i < bindings.len() implies (#[trigger] bindings[i]).gesture == bindings[i].gesture
        && bindings[i].actions@.len() == bindings[i].actions@.len() && forall|k: int|
        0 <= k < bindings[i].actions@.len() ==> same_action(#[trigger] bindings[i].actions@[k], bindings[i].actions@[k]) by {
        assert forall|k: int| 0 <= k < bindings[i].actions@.len() implies same_action(
            #[trigger] bindings[i].actions@[k],
            bindings[i].actions@[k],
        ) by {
            match bindings[i].actions@[k] {
                Action::InvokeIntegration { parameters, .. } => lemma_same_json_reflexive(parameters),
                Action::SetVariable { value, .. } => lemma_same_json_reflexive(value),
                _ => {},
            }
        }
    }
}

/// Publishing the same list twice changes nothing the second time.
pub proof fn lemma_republishing_changes_nothing(store: Map<Seq<char>, Seq<Preset>>, id: Seq<char>, presets: Seq<Preset>)
    ensures
        !publish_changes(published(store, id, presets), id, presets),
        published(published(store, id, presets), id, presets) == published(store, id, presets),
{
    let once = published(store, id, presets);
    if store.contains_key(id) && same_presets(store[id], presets) {
        assert(once == store);
    } else if presets.len() == 0 {
        assert(!once.contains_key(id));
    } else {
        assert(once.contains_key(id) && once[id] == presets);
        assert forall|i: int| 0 <= i < presets.len() implies same_preset(#[trigger] presets[i], presets[i]) by {
            lemma_same_preset_reflexive(presets[i]);
        }
        assert(same_presets(presets, presets));
    }
}

} // verus!
