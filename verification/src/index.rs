//! What every visible key depends on, inverted. A value change looks up
//! exactly the keys that reference it rather than repainting a panel, and
//! each instance is told exactly the values something on screen shows.

use vstd::prelude::*;
use crate::identifiers::{IntegrationId, SurfaceId};
use crate::panels::{ColorBinding, Control, Panel, RenderedState, ValueBinding};
use crate::plugin::Subscription;
use crate::surfaces::{key_index_for, key_index_spec};
use crate::template::{references, template_references, VariableRef};
use crate::text::option_view;

verus! {

/// A key of a surface that shows something.
#[derive(Debug, Eq, Hash)]
pub struct RenderTarget {
    pub surface_id: SurfaceId,
    pub key_index: u8,
}

impl Clone for RenderTarget {
    fn clone(&self) -> (copy: Self)
        ensures
            copy == *self,
    {
        RenderTarget { surface_id: self.surface_id.clone(), key_index: self.key_index }
    }
}

impl View for RenderTarget {
    type V = (Seq<char>, u8);

    open spec fn view(&self) -> (Seq<char>, u8) {
        (self.surface_id@, self.key_index)
    }
}

impl PartialEq for RenderTarget {
    fn eq(&self, other: &Self) -> (same: bool) {
        self.surface_id.0 == other.surface_id.0 && self.key_index == other.key_index
    }
}

impl vstd::std_specs::cmp::PartialEqSpecImpl for RenderTarget {
    open spec fn obeys_eq_spec() -> bool {
        true
    }

    open spec fn eq_spec(&self, other: &RenderTarget) -> bool {
        self@ == other@
    }
}

/// A value reference taken by its plain values: instance id and name.
pub type RefView = (Seq<char>, Seq<char>);

/// A key taken by its plain values: surface id and key index.
pub type TargetView = (Seq<char>, u8);

/// Whether an optional template binds `reference`.
pub open spec fn binds(template: Option<Seq<char>>, reference: RefView) -> bool {
    match template {
        Some(t) => template_references(t).contains(reference),
        None => false,
    }
}

/// The template of a colour binding, when it is a reference.
pub open spec fn color_template(binding: Option<ColorBinding>) -> Option<Seq<char>> {
    match binding {
        Some(ColorBinding::Reference(reference)) => Some(reference@),
        _ => None,
    }
}

/// Whether any field of a state binds `reference`: its text, its image, its
/// overlay image, its colours or its border's colour. A reference missed here
/// would be invisible twice over: its plugin would never be told to watch the
/// value, and a change to it would never mark the key dirty.
pub open spec fn state_binds(state: RenderedState, reference: RefView) -> bool {
    ||| binds(option_view(state.text), reference)
    ||| (state.image matches Some(image) && binds(Some(image@), reference))
    ||| binds(color_template(state.image_tint), reference)
    ||| (state.overlay_image matches Some(overlay) && binds(Some(overlay.image@), reference))
    ||| (state.overlay_image matches Some(overlay) && binds(color_template(overlay.tint), reference))
    ||| binds(color_template(state.foreground_color), reference)
    ||| binds(color_template(state.background_color), reference)
    ||| (state.border matches Some(border) && binds(color_template(Some(border.color)), reference))
    ||| (state.bar matches Some(bar) && binds(value_template(bar.value), reference))
    ||| (state.bar matches Some(bar) && binds(value_template(bar.maximum), reference))
    ||| (state.bar matches Some(bar) && binds(color_template(Some(bar.color)), reference))
}

/// The template of a value binding, when it is a reference.
pub open spec fn value_template(binding: ValueBinding) -> Option<Seq<char>> {
    match binding {
        ValueBinding::Reference(reference) => Some(reference@),
        _ => None,
    }
}

fn value_reference(binding: &ValueBinding) -> (template: Option<&str>)
    ensures
        match template {
            Some(t) => value_template(*binding) == Some(t@),
            None => value_template(*binding) is None,
        },
{
    match binding {
        ValueBinding::Reference(reference) => Some(reference.as_str()),
        ValueBinding::Literal(_) => None,
    }
}

/// Whether a control binds `reference` in its default or its pressed state.
pub open spec fn control_binds(control: Control, reference: RefView) -> bool {
    state_binds(control.default_state, reference) || (control.pressed_state matches Some(pressed)
        && state_binds(pressed, reference))
}

/// Whether control `c` of panel `p` sits on `target` and binds `reference`.
pub open spec fn placed_binding(
    panels: Seq<(SurfaceId, Panel)>,
    p: int,
    c: int,
    reference: RefView,
    target: TargetView,
) -> bool {
    &&& 0 <= p < panels.len()
    &&& 0 <= c < panels[p].1.controls@.len()
    &&& panels[p].0@ == target.0
    &&& key_index_spec(panels[p].1.controls@[c].position, panels[p].1.layout.columns) == Some(
        target.1,
    )
    &&& control_binds(panels[p].1.controls@[c], reference)
}

/// Whether a key of an active panel shows `reference`.
pub open spec fn depends(panels: Seq<(SurfaceId, Panel)>, reference: RefView, target: TargetView) -> bool {
    exists|p: int, c: int| #[trigger] placed_binding(panels, p, c, reference, target)
}

/// Whether a control before control `c0` of panel `p0` sits on `target` and
/// binds `reference`.
pub open spec fn depends_before(
    panels: Seq<(SurfaceId, Panel)>,
    p0: int,
    c0: int,
    reference: RefView,
    target: TargetView,
) -> bool {
    exists|p: int, c: int|
        #[trigger] placed_binding(panels, p, c, reference, target) && (p < p0 || (p == p0 && c < c0))
}

/// Whether some value is shown on `target`.
pub open spec fn shown_somewhere(relation: Set<(RefView, TargetView)>, target: TargetView) -> bool {
    exists|reference: RefView| relation.contains((reference, target))
}

/// Whether `targets` lists `target`.
pub open spec fn listed_target(targets: Seq<RenderTarget>, target: TargetView) -> bool {
    exists|i: int| 0 <= i < targets.len() && (#[trigger] targets[i])@ == target
}

/// Whether value `name` of instance `id` is shown somewhere.
pub open spec fn watched_value(relation: Set<(RefView, TargetView)>, id: Seq<char>, name: Seq<char>) -> bool {
    exists|target: TargetView| relation.contains(((id, name), target))
}

/// Whether some value of instance `id` is shown somewhere.
pub open spec fn watched_instance(relation: Set<(RefView, TargetView)>, id: Seq<char>) -> bool {
    exists|name: Seq<char>, target: TargetView| relation.contains(((id, name), target))
}

/// The keys each value is shown on, and for each instance the values it is
/// asked to publish.
#[derive(Debug)]
pub struct DependencyIndex {
    pairs: Vec<(VariableRef, RenderTarget)>,
    subscriptions: Vec<(IntegrationId, Vec<Subscription>)>,
}

/// The (reference, key) pairs a list holds.
pub open spec fn pair_set(pairs: Seq<(VariableRef, RenderTarget)>) -> Set<(RefView, TargetView)> {
    Set::new(|x: (RefView, TargetView)| exists|i: int| 0 <= i < pairs.len() && (#[trigger] pairs[i]).0@ == x.0 && pairs[i].1@ == x.1)
}

/// No pair is listed twice.
pub open spec fn pairs_distinct(pairs: Seq<(VariableRef, RenderTarget)>) -> bool {
    forall|i: int, j: int|
        0 <= i < pairs.len() && 0 <= j < pairs.len() && i != j ==> ((#[trigger] pairs[i]).0@, pairs[i].1@)
            != ((#[trigger] pairs[j]).0@, pairs[j].1@)
}

/// Whether some listed pair has reference `reference`.
pub open spec fn referenced(pairs: Seq<(VariableRef, RenderTarget)>, reference: RefView) -> bool {
    exists|i: int| 0 <= i < pairs.len() && (#[trigger] pairs[i]).0@ == reference
}

/// The subscriptions each instance is listed with: every instance once, never
/// with an empty list, every name once, and exactly the references in
/// `pairs`.
pub open spec fn subscriptions_match(
    subscriptions: Seq<(IntegrationId, Vec<Subscription>)>,
    pairs: Seq<(VariableRef, RenderTarget)>,
) -> bool {
    &&& forall|i: int, j: int|
        0 <= i < subscriptions.len() && 0 <= j < subscriptions.len() && i != j ==> (#[trigger] subscriptions[i]).0@
            != (#[trigger] subscriptions[j]).0@
    &&& forall|i: int| 0 <= i < subscriptions.len() ==> (#[trigger] subscriptions[i]).1@.len() > 0
    &&& forall|i: int, a: int, b: int|
        0 <= i < subscriptions.len() && 0 <= a < subscriptions[i].1@.len() && 0 <= b
            < subscriptions[i].1@.len() && a != b ==> (#[trigger] subscriptions[i].1@[a]).name@
            != (#[trigger] subscriptions[i].1@[b]).name@
    &&& forall|i: int, a: int|
        0 <= i < subscriptions.len() && 0 <= a < subscriptions[i].1@.len() ==> referenced(
            pairs,
            (subscriptions[i].0@, (#[trigger] subscriptions[i].1@[a]).name@),
        )
    &&& forall|reference: RefView|
        #[trigger] referenced(pairs, reference) ==> exists|i: int, a: int|
            0 <= i < subscriptions.len() && 0 <= a < subscriptions[i].1@.len() && (#[trigger] subscriptions[i].1@[a]).name@
                == reference.1 && subscriptions[i].0@ == reference.0
}

impl DependencyIndex {
    /// Every (reference, key) pair: the key shows the reference.
    pub closed spec fn relation(&self) -> Set<(RefView, TargetView)> {
        pair_set(self.pairs@)
    }

    /// The pairs are listed once each and the subscriptions are exactly the
    /// references in them.
    pub closed spec fn wf(&self) -> bool {
        pairs_distinct(self.pairs@) && subscriptions_match(self.subscriptions@, self.pairs@)
    }

    /// The index of the panels each surface shows: a key depends on a value
    /// exactly when a control on that key binds it, in its default or its
    /// pressed state.
    pub fn build(active_panels: &[(SurfaceId, Panel)]) -> (index: Self)
        ensures
            index.wf(),
            forall|reference: RefView, target: TargetView|
                #[trigger] index.relation().contains((reference, target)) == depends(
                    active_panels@,
                    reference,
                    target,
                ),
    {
        let mut index = DependencyIndex { pairs: Vec::new(), subscriptions: Vec::new() };
        let ghost panels = active_panels@;
        assert(index.relation() =~= Set::<(RefView, TargetView)>::empty());
        let mut p: usize = 0;
        while p < active_panels.len()
            invariant
                panels == active_panels@,
                p <= panels.len(),
                pairs_distinct(index.pairs@),
                index.subscriptions@.len() == 0,
                forall|reference: RefView, target: TargetView|
                    #[trigger] index.relation().contains((reference, target)) == depends_before(
                        panels,
                        p as int,
                        0,
                        reference,
                        target,
                    ),
            decreases active_panels.len() - p,
        {
            let surface_id = &active_panels[p].0;
            let panel = &active_panels[p].1;
            let mut c: usize = 0;
            while c < panel.controls.len()
                invariant
                    panels == active_panels@,
                    p < panels.len(),
                    *surface_id == panels[p as int].0,
                    *panel == panels[p as int].1,
                    c <= panel.controls@.len(),
                    pairs_distinct(index.pairs@),
                    index.subscriptions@.len() == 0,
                    forall|reference: RefView, target: TargetView|
                        #[trigger] index.relation().contains((reference, target)) == depends_before(
                            panels,
                            p as int,
                            c as int,
                            reference,
                            target,
                        ),
                decreases panel.controls.len() - c,
            {
                let control = &panel.controls[c];
                let ghost before = index.relation();
                match key_index_for(control, panel.layout.columns) {
                    Some(key_index) => {
                        let target = RenderTarget { surface_id: surface_id.clone(), key_index };
                        index.add_control(&target, control);
                        proof {
                            assert forall|reference: RefView, t: TargetView|
                                #[trigger] index.relation().contains((reference, t)) == depends_before(
                                    panels,
                                    p as int,
                                    c + 1,
                                    reference,
                                    t,
                                ) by {
                                if depends_before(panels, p as int, c + 1, reference, t) {
                                    let (pp, cc) = choose|pp: int, cc: int|
                                        #[trigger] placed_binding(panels, pp, cc, reference, t) && (pp < p
                                            || (pp == p && cc < c + 1));
                                    if !(pp == p && cc == c) {
                                        assert(depends_before(panels, p as int, c as int, reference, t));
                                    }
                                }
                                if before.contains((reference, t)) {
                                    let (pp, cc) = choose|pp: int, cc: int|
                                        #[trigger] placed_binding(panels, pp, cc, reference, t) && (pp < p
                                            || (pp == p && cc < c));
                                    assert(placed_binding(panels, pp, cc, reference, t));
                                }
                                if t == target@ && control_binds(*control, reference) {
                                    assert(placed_binding(panels, p as int, c as int, reference, t));
                                }
                            }
                        }
                    },
                    None => {
                        proof {
                            assert forall|reference: RefView, t: TargetView|
                                #[trigger] index.relation().contains((reference, t)) == depends_before(
                                    panels,
                                    p as int,
                                    c + 1,
                                    reference,
                                    t,
                                ) by {
                                if depends_before(panels, p as int, c + 1, reference, t) {
                                    let (pp, cc) = choose|pp: int, cc: int|
                                        #[trigger] placed_binding(panels, pp, cc, reference, t) && (pp < p
                                            || (pp == p && cc < c + 1));
                                    assert(!(pp == p && cc == c));
                                    assert(depends_before(panels, p as int, c as int, reference, t));
                                }
                                if before.contains((reference, t)) {
                                    let (pp, cc) = choose|pp: int, cc: int|
                                        #[trigger] placed_binding(panels, pp, cc, reference, t) && (pp < p
                                            || (pp == p && cc < c));
                                    assert(placed_binding(panels, pp, cc, reference, t));
                                }
                            }
                        }
                    },
                }
                c += 1;
            }
            proof {
                assert forall|reference: RefView, t: TargetView|
                    #[trigger] index.relation().contains((reference, t)) == depends_before(
                        panels,
                        p + 1,
                        0,
                        reference,
                        t,
                    ) by {
                    if depends_before(panels, p + 1, 0, reference, t) {
                        let (pp, cc) = choose|pp: int, cc: int|
                            #[trigger] placed_binding(panels, pp, cc, reference, t) && (pp < p + 1 || (pp
                                == p + 1 && cc < 0));
                        assert(placed_binding(panels, pp, cc, reference, t));
                    }
                    if depends_before(panels, p as int, c as int, reference, t) {
                        let (pp, cc) = choose|pp: int, cc: int|
                            #[trigger] placed_binding(panels, pp, cc, reference, t) && (pp < p || (pp == p
                                && cc < c));
                        assert(placed_binding(panels, pp, cc, reference, t));
                    }
                }
            }
            p += 1;
        }
        proof {
            assert forall|reference: RefView, t: TargetView|
                #[trigger] index.relation().contains((reference, t)) == depends(panels, reference, t) by {
                if depends(panels, reference, t) {
                    let (pp, cc) = choose|pp: int, cc: int| #[trigger] placed_binding(panels, pp, cc, reference, t);
                    assert(depends_before(panels, p as int, 0, reference, t));
                }
                if depends_before(panels, p as int, 0, reference, t) {
                    let (pp, cc) = choose|pp: int, cc: int|
                        #[trigger] placed_binding(panels, pp, cc, reference, t) && (pp < p || (pp == p && cc
                            < 0));
                    assert(placed_binding(panels, pp, cc, reference, t));
                }
            }
        }
        let ghost built = index.relation();
        index.build_subscriptions();
        assert(index.relation() == built);
        index
    }

    /// Adds one pair, unless it is there already.
    fn insert_pair(&mut self, reference: &VariableRef, target: &RenderTarget)
        requires
            pairs_distinct(old(self).pairs@),
        ensures
            pairs_distinct(final(self).pairs@),
            final(self).relation() == old(self).relation().insert((reference@, target@)),
            final(self).subscriptions@ == old(self).subscriptions@,
    {
        let ghost before = self.pairs@;
        let mut i: usize = 0;
        while i < self.pairs.len()
            invariant
                self.pairs@ == before,
                pairs_distinct(before),
                i <= before.len(),
                forall|j: int| 0 <= j < i ==> ((#[trigger] before[j]).0@, before[j].1@) != (reference@, target@),
            decreases self.pairs.len() - i,
        {
            if self.pairs[i].0 == *reference && self.pairs[i].1 == *target {
                proof {
                    assert(pair_set(before).contains((reference@, target@)));
                    assert(pair_set(before) =~= pair_set(before).insert((reference@, target@)));
                }
                return;
            }
            i += 1;
        }
        self.pairs.push((reference.clone(), target.clone()));
        proof {
            let after = self.pairs@;
            assert(pairs_distinct(after));
            assert forall|x: (RefView, TargetView)| #[trigger] pair_set(after).contains(x) == pair_set(
                before,
            ).insert((reference@, target@)).contains(x) by {
                if pair_set(before).contains(x) {
                    let j = choose|j: int| 0 <= j < before.len() && (#[trigger] before[j]).0@ == x.0 && before[j].1@ == x.1;
                    assert(after[j] == before[j]);
                }
                if x == (reference@, target@) {
                    assert(after[before.len() as int].0@ == x.0);
                }
                if pair_set(after).contains(x) {
                    let j = choose|j: int| 0 <= j < after.len() && (#[trigger] after[j]).0@ == x.0 && after[j].1@ == x.1;
                    if j < before.len() {
                        assert(after[j] == before[j]);
                    }
                }
            }
            assert(pair_set(after) =~= pair_set(before).insert((reference@, target@)));
        }
    }

    /// Adds every reference an optional template binds, shown on `target`.
    fn add_template(&mut self, template: Option<&str>, target: &RenderTarget)
        requires
            pairs_distinct(old(self).pairs@),
        ensures
            pairs_distinct(final(self).pairs@),
            forall|x: (RefView, TargetView)|
                #[trigger] final(self).relation().contains(x) == (old(self).relation().contains(x) || (x.1
                    == target@ && binds(
                    match template {
                        Some(t) => Some(t@),
                        None => None,
                    },
                    x.0,
                ))),
            final(self).subscriptions@ == old(self).subscriptions@,
    {
        match template {
            None => {},
            Some(text) => {
                let found = references(text);
                let ghost views = found@.map_values(|reference: VariableRef| reference@);
                let ghost start = self.relation();
                let mut i: usize = 0;
                while i < found.len()
                    invariant
                        views == found@.map_values(|reference: VariableRef| reference@),
                        views == template_references(text@),
                        i <= found@.len(),
                        pairs_distinct(self.pairs@),
                        self.subscriptions@ == old(self).subscriptions@,
                        start == old(self).relation(),
                        forall|x: (RefView, TargetView)|
                            #[trigger] self.relation().contains(x) == (start.contains(x) || (x.1 == target@
                                && views.take(i as int).contains(x.0))),
                    decreases found.len() - i,
                {
                    let ghost previous = self.relation();
                    self.insert_pair(&found[i], target);
                    proof {
                        assert(views[i as int] == found@[i as int]@);
                        assert(views.take(i + 1)[i as int] == views[i as int]);
                        assert(views.take(i + 1) =~= views.take(i as int).push(views[i as int]));
                        assert forall|x: (RefView, TargetView)|
                            #[trigger] self.relation().contains(x) == (start.contains(x) || (x.1 == target@
                                && views.take(i + 1).contains(x.0))) by {
                            if views.take(i + 1).contains(x.0) && !views.take(i as int).contains(x.0) {
                                let k = choose|k: int| 0 <= k < i + 1 && #[trigger] views.take(i + 1)[k] == x.0;
                                assert(k == i);
                            }
                            if views.take(i as int).contains(x.0) {
                                let k = choose|k: int| 0 <= k < i && #[trigger] views.take(i as int)[k] == x.0;
                                assert(views.take(i + 1)[k] == x.0);
                            }
                        }
                    }
                    i += 1;
                }
                assert(views.take(found@.len() as int) =~= views);
            },
        }
    }

    /// Adds every reference a state binds, shown on `target`.
    fn add_state(&mut self, state: &RenderedState, target: &RenderTarget)
        requires
            pairs_distinct(old(self).pairs@),
        ensures
            pairs_distinct(final(self).pairs@),
            forall|x: (RefView, TargetView)|
                #[trigger] final(self).relation().contains(x) == (old(self).relation().contains(x) || (x.1
                    == target@ && state_binds(*state, x.0))),
            final(self).subscriptions@ == old(self).subscriptions@,
    {
        let text = match &state.text {
            Some(text) => Some(text.as_str()),
            None => None,
        };
        self.add_template(text, target);
        let image = match &state.image {
            Some(image) => Some(image.0.as_str()),
            None => None,
        };
        self.add_template(image, target);
        self.add_template(color_reference(&state.image_tint), target);
        let overlay = match &state.overlay_image {
            Some(overlay) => Some(overlay.image.0.as_str()),
            None => None,
        };
        self.add_template(overlay, target);
        let overlay_tint = match &state.overlay_image {
            Some(overlay) => color_reference(&overlay.tint),
            None => None,
        };
        self.add_template(overlay_tint, target);
        self.add_template(color_reference(&state.foreground_color), target);
        self.add_template(color_reference(&state.background_color), target);
        let border = match &state.border {
            Some(border) => match &border.color {
                ColorBinding::Reference(reference) => Some(reference.as_str()),
                ColorBinding::Literal(_) => None,
            },
            None => None,
        };
        self.add_template(border, target);
        let (bar_value, bar_maximum, bar_color) = match &state.bar {
            Some(bar) => (
                value_reference(&bar.value),
                value_reference(&bar.maximum),
                match &bar.color {
                    ColorBinding::Reference(reference) => Some(reference.as_str()),
                    ColorBinding::Literal(_) => None,
                },
            ),
            None => (None, None, None),
        };
        self.add_template(bar_value, target);
        self.add_template(bar_maximum, target);
        self.add_template(bar_color, target);
    }

    /// Adds every reference a control binds, shown on `target`.
    fn add_control(&mut self, target: &RenderTarget, control: &Control)
        requires
            pairs_distinct(old(self).pairs@),
        ensures
            pairs_distinct(final(self).pairs@),
            forall|x: (RefView, TargetView)|
                #[trigger] final(self).relation().contains(x) == (old(self).relation().contains(x) || (x.1
                    == target@ && control_binds(*control, x.0))),
            final(self).subscriptions@ == old(self).subscriptions@,
    {
        self.add_state(&control.default_state, target);
        match &control.pressed_state {
            Some(pressed) => self.add_state(pressed, target),
            None => {},
        }
    }

    /// Lists each referenced value under its instance, once.
    fn build_subscriptions(&mut self)
        requires
            pairs_distinct(old(self).pairs@),
            old(self).subscriptions@.len() == 0,
        ensures
            final(self).wf(),
            final(self).pairs@ == old(self).pairs@,
    {
        let ghost pairs = self.pairs@;
        let mut subscriptions: Vec<(IntegrationId, Vec<Subscription>)> = Vec::new();
        let mut i: usize = 0;
        while i < self.pairs.len()
            invariant
                self.pairs@ == pairs,
                i <= pairs.len(),
                subscriptions_match(subscriptions@, pairs.take(i as int)),
            decreases self.pairs.len() - i,
        {
            let reference = &self.pairs[i].0;
            let ghost prefix = pairs.take(i as int);
            let ghost next = pairs.take(i + 1);
            assert(next =~= prefix.push(pairs[i as int]));
            proof {
                assert forall|r: RefView| #[trigger] referenced(next, r) == (referenced(prefix, r) || r
                    == reference@) by {
                    if referenced(prefix, r) {
                        let k = choose|k: int| 0 <= k < prefix.len() && (#[trigger] prefix[k]).0@ == r;
                        assert(next[k] == prefix[k]);
                    }
                    if r == reference@ {
                        assert(next[i as int].0@ == r);
                    }
                    if referenced(next, r) {
                        let k = choose|k: int| 0 <= k < next.len() && (#[trigger] next[k]).0@ == r;
                        if k < i {
                            assert(prefix[k] == next[k]);
                        }
                    }
                }
            }
            subscribe(&mut subscriptions, reference, Ghost(prefix), Ghost(next));
            i += 1;
        }
        assert(pairs.take(pairs.len() as int) =~= pairs);
        self.subscriptions = subscriptions;
    }

    /// Every key that shows `reference`, each once.
    pub fn targets_for_variable(&self, reference: &VariableRef) -> (targets: Vec<RenderTarget>)
        requires
            self.wf(),
        ensures
            forall|t: TargetView|
                (exists|i: int| 0 <= i < targets@.len() && (#[trigger] targets@[i])@ == t) == self.relation().contains(
                    (reference@, t),
                ),
            forall|i: int, j: int|
                0 <= i < targets@.len() && 0 <= j < targets@.len() && i != j ==> (#[trigger] targets@[i])@
                    != (#[trigger] targets@[j])@,
    {
        let ghost pairs = self.pairs@;
        let mut targets: Vec<RenderTarget> = Vec::new();
        let ghost mut from: Seq<int> = Seq::empty();
        let mut i: usize = 0;
        while i < self.pairs.len()
            invariant
                self.pairs@ == pairs,
                pairs_distinct(pairs),
                i <= pairs.len(),
                from.len() == targets@.len(),
                forall|j: int|
                    0 <= j < targets@.len() ==> 0 <= #[trigger] from[j] < i && pairs[from[j]].0@ == reference@
                        && pairs[from[j]].1@ == targets@[j]@,
                forall|j: int, k: int| 0 <= j < k < targets@.len() ==> #[trigger] from[j] < #[trigger] from[k],
                forall|m: int|
                    0 <= m < i && (#[trigger] pairs[m]).0@ == reference@ ==> exists|j: int|
                        0 <= j < targets@.len() && from[j] == m,
            decreases self.pairs.len() - i,
        {
            if self.pairs[i].0 == *reference {
                let ghost before = from;
                targets.push(self.pairs[i].1.clone());
                proof {
                    from = from.push(i as int);
                    assert forall|m: int|
                        0 <= m < i + 1 && (#[trigger] pairs[m]).0@ == reference@ implies exists|j: int|
                            0 <= j < targets@.len() && from[j] == m by {
                        if m == i {
                            assert(from[from.len() - 1] == m);
                        } else {
                            let j = choose|j: int| 0 <= j < before.len() && before[j] == m;
                            assert(from[j] == m);
                        }
                    }
                }
            }
            i += 1;
        }
        proof {
            assert forall|t: TargetView|
                (exists|j: int| 0 <= j < targets@.len() && (#[trigger] targets@[j])@ == t) == self.relation().contains(
                    (reference@, t),
                ) by {
                if exists|j: int| 0 <= j < targets@.len() && (#[trigger] targets@[j])@ == t {
                    let j = choose|j: int| 0 <= j < targets@.len() && (#[trigger] targets@[j])@ == t;
                    assert(pairs[from[j]].0@ == reference@ && pairs[from[j]].1@ == t);
                }
                if self.relation().contains((reference@, t)) {
                    let m = choose|m: int| 0 <= m < pairs.len() && (#[trigger] pairs[m]).0@ == reference@ && pairs[m].1@ == t;
                    let j = choose|j: int| 0 <= j < targets@.len() && from[j] == m;
                    assert(targets@[j]@ == t);
                }
            }
            assert forall|a: int, b: int|
                0 <= a < targets@.len() && 0 <= b < targets@.len() && a != b implies (#[trigger] targets@[a])@
                    != (#[trigger] targets@[b])@ by {
                if a < b {
                    assert(from[a] < from[b]);
                } else {
                    assert(from[b] < from[a]);
                }
            }
        }
        targets
    }

    /// The values one instance is asked to publish, each once.
    pub fn subscriptions_for(&self, integration_id: &IntegrationId) -> (found: &[Subscription])
        requires
            self.wf(),
        ensures
            forall|a: int|
                0 <= a < found@.len() ==> watched_value(
                    self.relation(),
                    integration_id@,
                    (#[trigger] found@[a]).name@,
                ),
            forall|name: Seq<char>, t: TargetView|
                #[trigger] self.relation().contains(((integration_id@, name), t)) ==> exists|a: int|
                    0 <= a < found@.len() && (#[trigger] found@[a]).name@ == name,
            forall|a: int, b: int|
                0 <= a < found@.len() && 0 <= b < found@.len() && a != b ==> (#[trigger] found@[a]).name@
                    != (#[trigger] found@[b]).name@,
    {
        let ghost subscriptions = self.subscriptions@;
        let ghost pairs = self.pairs@;
        let mut i: usize = 0;
        while i < self.subscriptions.len()
            invariant
                self.subscriptions@ == subscriptions,
                self.pairs@ == pairs,
                subscriptions_match(subscriptions, pairs),
                i <= subscriptions.len(),
                forall|j: int| 0 <= j < i ==> (#[trigger] subscriptions[j]).0@ != integration_id@,
            decreases self.subscriptions.len() - i,
        {
            if self.subscriptions[i].0 == *integration_id {
                let found = self.subscriptions[i].1.as_slice();
                proof {
                    assert forall|a: int| 0 <= a < found@.len() implies watched_value(
                        self.relation(),
                        integration_id@,
                        (#[trigger] found@[a]).name@,
                    ) by {
                        assert(subscriptions[i as int].1@[a] == found@[a]);
                        assert(referenced(pairs, (subscriptions[i as int].0@, subscriptions[i as int].1@[a].name@)));
                        lemma_referenced_is_related(pairs, (integration_id@, found@[a].name@));
                        let t = choose|t: TargetView| #[trigger] pair_set(pairs).contains(((integration_id@, found@[a].name@), t));
                        assert(self.relation().contains(((integration_id@, found@[a].name@), t)));
                    }
                    assert forall|name: Seq<char>, t: TargetView|
                        #[trigger] self.relation().contains(((integration_id@, name), t)) implies exists|a: int|
                            0 <= a < found@.len() && (#[trigger] found@[a]).name@ == name by {
                        lemma_referenced_is_related(pairs, (integration_id@, name));
                        let (ii, a) = choose|ii: int, a: int|
                            0 <= ii < subscriptions.len() && 0 <= a < subscriptions[ii].1@.len()
                                && (#[trigger] subscriptions[ii].1@[a]).name@ == name
                                && subscriptions[ii].0@ == integration_id@;
                        assert(ii == i as int);
                        assert(found@[a].name@ == name);
                    }
                }
                return found;
            }
            i += 1;
        }
        let found: &[Subscription] = &[];
        proof {
            assert forall|name: Seq<char>, t: TargetView|
                #[trigger] self.relation().contains(((integration_id@, name), t)) implies exists|a: int|
                    0 <= a < found@.len() && (#[trigger] found@[a]).name@ == name by {
                lemma_referenced_is_related(pairs, (integration_id@, name));
                let (ii, a) = choose|ii: int, a: int|
                    0 <= ii < subscriptions.len() && 0 <= a < subscriptions[ii].1@.len()
                        && (#[trigger] subscriptions[ii].1@[a]).name@ == name && subscriptions[ii].0@
                        == integration_id@;
                assert(subscriptions[ii].0@ != integration_id@);
            }
        }
        found
    }

    /// Every key the index knows about, each once, for the rare case where
    /// what changed is not a value.
    pub fn every_target(&self) -> (targets: Vec<RenderTarget>)
        requires
            self.wf(),
        ensures
            forall|i: int|
                0 <= i < targets@.len() ==> shown_somewhere(self.relation(), (#[trigger] targets@[i])@),
            forall|reference: RefView, t: TargetView|
                #[trigger] self.relation().contains((reference, t)) ==> exists|i: int|
                    0 <= i < targets@.len() && (#[trigger] targets@[i])@ == t,
            forall|i: int, j: int|
                0 <= i < targets@.len() && 0 <= j < targets@.len() && i != j ==> (#[trigger] targets@[i])@
                    != (#[trigger] targets@[j])@,
            forall|t: TargetView|
                #[trigger] listed_target(targets@, t) == shown_somewhere(self.relation(), t),
    {
        let ghost pairs = self.pairs@;
        let mut targets: Vec<RenderTarget> = Vec::new();
        let mut i: usize = 0;
        while i < self.pairs.len()
            invariant
                self.pairs@ == pairs,
                i <= pairs.len(),
                forall|j: int|
                    0 <= j < targets@.len() ==> exists|m: int|
                        0 <= m < i && pairs[m].1@ == (#[trigger] targets@[j])@,
                forall|m: int|
                    0 <= m < i ==> exists|j: int|
                        0 <= j < targets@.len() && targets@[j]@ == (#[trigger] pairs[m]).1@,
                forall|a: int, b: int|
                    0 <= a < targets@.len() && 0 <= b < targets@.len() && a != b ==> (#[trigger] targets@[a])@
                        != (#[trigger] targets@[b])@,
            decreases self.pairs.len() - i,
        {
            let target = &self.pairs[i].1;
            let ghost before = targets@;
            let mut k: usize = 0;
            let mut seen = false;
            while k < targets.len()
                invariant
                    targets@ == before,
                    k <= before.len(),
                    seen == exists|j: int| 0 <= j < k && (#[trigger] before[j])@ == target@,
                decreases targets.len() - k,
            {
                if targets[k] == *target {
                    seen = true;
                }
                k += 1;
            }
            if !seen {
                targets.push(target.clone());
            }
            proof {
                assert forall|j: int| 0 <= j < targets@.len() implies exists|m: int|
                    0 <= m < i + 1 && pairs[m].1@ == (#[trigger] targets@[j])@ by {
                    if j < before.len() {
                        assert(targets@[j] == before[j]);
                        let m = choose|m: int| 0 <= m < i && pairs[m].1@ == (#[trigger] before[j])@;
                        assert(pairs[m].1@ == targets@[j]@);
                    } else {
                        assert(pairs[i as int].1@ == targets@[j]@);
                    }
                }
                assert forall|m: int| 0 <= m < i + 1 implies exists|j: int|
                    0 <= j < targets@.len() && targets@[j]@ == (#[trigger] pairs[m]).1@ by {
                    if m < i {
                        let j = choose|j: int| 0 <= j < before.len() && before[j]@ == (#[trigger] pairs[m]).1@;
                        assert(targets@[j] == before[j]);
                    } else if seen {
                        let j = choose|j: int| 0 <= j < before.len() && (#[trigger] before[j])@ == target@;
                        assert(targets@[j] == before[j]);
                    } else {
                        assert(targets@[before.len() as int]@ == pairs[m].1@);
                    }
                }
            }
            i += 1;
        }
        proof {
            assert forall|j: int| 0 <= j < targets@.len() implies shown_somewhere(
                self.relation(),
                (#[trigger] targets@[j])@,
            ) by {
                let m = choose|m: int| 0 <= m < pairs.len() && pairs[m].1@ == (#[trigger] targets@[j])@;
                assert(self.relation().contains((pairs[m].0@, targets@[j]@)));
            }
            assert forall|reference: RefView, t: TargetView|
                #[trigger] self.relation().contains((reference, t)) implies exists|j: int|
                    0 <= j < targets@.len() && (#[trigger] targets@[j])@ == t by {
                let m = choose|m: int| 0 <= m < pairs.len() && (#[trigger] pairs[m]).0@ == reference && pairs[m].1@ == t;
                let j = choose|j: int| 0 <= j < targets@.len() && targets@[j]@ == (#[trigger] pairs[m]).1@;
                assert(targets@[j]@ == t);
            }
            assert forall|t: TargetView| #[trigger] listed_target(targets@, t) == shown_somewhere(self.relation(), t) by {
                if listed_target(targets@, t) {
                    let j = choose|j: int| 0 <= j < targets@.len() && (#[trigger] targets@[j])@ == t;
                    assert(shown_somewhere(self.relation(), targets@[j]@));
                }
                if shown_somewhere(self.relation(), t) {
                    let reference = choose|reference: RefView| self.relation().contains((reference, t));
                    assert(self.relation().contains((reference, t)));
                }
            }
        }
        targets
    }

    /// Every instance something on screen is watching, each once.
    pub fn watched_integrations(&self) -> (watched: Vec<IntegrationId>)
        requires
            self.wf(),
        ensures
            forall|i: int|
                0 <= i < watched@.len() ==> watched_instance(self.relation(), (#[trigger] watched@[i])@),
            forall|id: Seq<char>, name: Seq<char>, t: TargetView|
                #[trigger] self.relation().contains(((id, name), t)) ==> exists|i: int|
                    0 <= i < watched@.len() && (#[trigger] watched@[i])@ == id,
            forall|i: int, j: int|
                0 <= i < watched@.len() && 0 <= j < watched@.len() && i != j ==> (#[trigger] watched@[i])@
                    != (#[trigger] watched@[j])@,
    {
        let ghost subscriptions = self.subscriptions@;
        let ghost pairs = self.pairs@;
        let mut watched: Vec<IntegrationId> = Vec::new();
        let mut i: usize = 0;
        while i < self.subscriptions.len()
            invariant
                self.subscriptions@ == subscriptions,
                i <= subscriptions.len(),
                watched@.len() == i,
                forall|j: int| 0 <= j < i ==> (#[trigger] watched@[j])@ == subscriptions[j].0@,
            decreases self.subscriptions.len() - i,
        {
            watched.push(self.subscriptions[i].0.clone());
            i += 1;
        }
        proof {
            assert forall|i: int| 0 <= i < watched@.len() implies watched_instance(
                self.relation(),
                (#[trigger] watched@[i])@,
            ) by {
                let id = watched@[i]@;
                let name = subscriptions[i].1@[0].name@;
                assert(referenced(pairs, (subscriptions[i].0@, subscriptions[i].1@[0].name@)));
                lemma_referenced_is_related(pairs, (id, name));
                let t = choose|t: TargetView| #[trigger] pair_set(pairs).contains(((id, name), t));
                assert(self.relation().contains(((id, name), t)));
            }
            assert forall|id: Seq<char>, name: Seq<char>, t: TargetView|
                #[trigger] self.relation().contains(((id, name), t)) implies exists|i: int|
                    0 <= i < watched@.len() && (#[trigger] watched@[i])@ == id by {
                lemma_referenced_is_related(pairs, (id, name));
                let (ii, a) = choose|ii: int, a: int|
                    0 <= ii < subscriptions.len() && 0 <= a < subscriptions[ii].1@.len()
                        && (#[trigger] subscriptions[ii].1@[a]).name@ == name && subscriptions[ii].0@ == id;
                assert(watched@[ii]@ == id);
            }
            assert forall|a: int, b: int|
                0 <= a < watched@.len() && 0 <= b < watched@.len() && a != b implies (#[trigger] watched@[a])@
                    != (#[trigger] watched@[b])@ by {
                assert(subscriptions[a].0@ != subscriptions[b].0@);
            }
        }
        watched
    }
}

/// A reference is listed in some pair exactly when it is related to some
/// key.
proof fn lemma_referenced_is_related(pairs: Seq<(VariableRef, RenderTarget)>, reference: RefView)
    ensures
        referenced(pairs, reference) == exists|t: TargetView| #[trigger] pair_set(pairs).contains((reference, t)),
{
    if referenced(pairs, reference) {
        let i = choose|i: int| 0 <= i < pairs.len() && (#[trigger] pairs[i]).0@ == reference;
        assert(pair_set(pairs).contains((reference, pairs[i].1@)));
    }
    if exists|t: TargetView| #[trigger] pair_set(pairs).contains((reference, t)) {
        let t = choose|t: TargetView| #[trigger] pair_set(pairs).contains((reference, t));
        let i = choose|i: int| 0 <= i < pairs.len() && (#[trigger] pairs[i]).0@ == reference && pairs[i].1@ == t;
        assert(pairs[i].0@ == reference);
    }
}

/// The template of a colour binding, when it is a reference.
fn color_reference(binding: &Option<ColorBinding>) -> (template: Option<&str>)
    ensures
        match template {
            Some(t) => color_template(*binding) == Some(t@),
            None => color_template(*binding) is None,
        },
{
    match binding {
        Some(ColorBinding::Reference(reference)) => Some(reference.as_str()),
        _ => None,
    }
}

/// The entry listing instance `id`, if there is one.
fn find_entry(subscriptions: &Vec<(IntegrationId, Vec<Subscription>)>, id: &IntegrationId) -> (found: Option<usize>)
    ensures
        match found {
            Some(i) => i < subscriptions@.len() && subscriptions@[i as int].0@ == id@,
            None => forall|j: int| 0 <= j < subscriptions@.len() ==> (#[trigger] subscriptions@[j]).0@ != id@,
        },
{
    let mut i: usize = 0;
    while i < subscriptions.len()
        invariant
            i <= subscriptions@.len(),
            forall|j: int| 0 <= j < i ==> (#[trigger] subscriptions@[j]).0@ != id@,
        decreases subscriptions.len() - i,
    {
        if subscriptions[i].0 == *id {
            return Some(i);
        }
        i += 1;
    }
    None
}

/// Whether `names` lists `name`.
fn lists_name(names: &Vec<Subscription>, name: &String) -> (found: Option<usize>)
    ensures
        match found {
            Some(a) => a < names@.len() && names@[a as int].name@ == name@,
            None => forall|a: int| 0 <= a < names@.len() ==> (#[trigger] names@[a]).name@ != name@,
        },
{
    let mut a: usize = 0;
    while a < names.len()
        invariant
            a <= names@.len(),
            forall|b: int| 0 <= b < a ==> (#[trigger] names@[b]).name@ != name@,
        decreases names.len() - a,
    {
        if names[a].name == *name {
            return Some(a);
        }
        a += 1;
    }
    None
}

/// Lists `reference` under its instance unless it is listed already.
fn subscribe(
    subscriptions: &mut Vec<(IntegrationId, Vec<Subscription>)>,
    reference: &VariableRef,
    Ghost(prefix): Ghost<Seq<(VariableRef, RenderTarget)>>,
    Ghost(next): Ghost<Seq<(VariableRef, RenderTarget)>>,
)
    requires
        subscriptions_match(old(subscriptions)@, prefix),
        forall|r: RefView| #[trigger] referenced(next, r) == (referenced(prefix, r) || r == reference@),
    ensures
        subscriptions_match(final(subscriptions)@, next),
{
    let ghost before = subscriptions@;
    assert forall|r: RefView| referenced(prefix, r) implies #[trigger] referenced(next, r) by {}
    assert(referenced(next, reference@));
    match find_entry(subscriptions, &reference.integration_id) {
        None => {
            let names = vec![Subscription { name: reference.name.clone() }];
            subscriptions.push((reference.integration_id.clone(), names));
            proof {
                let after = subscriptions@;
                let n = before.len() as int;
                assert(after[n].1@[0].name@ == reference.name@);
                assert forall|i: int, a: int|
                    0 <= i < after.len() && 0 <= a < after[i].1@.len() implies referenced(
                        next,
                        (after[i].0@, (#[trigger] after[i].1@[a]).name@),
                    ) by {
                    if i < n {
                        assert(after[i] == before[i]);
                        assert(referenced(prefix, (before[i].0@, before[i].1@[a].name@)));
                    } else {
                        assert((after[i].0@, after[i].1@[a].name@) == reference@);
                    }
                }
                assert forall|r: RefView| #[trigger] referenced(next, r) implies exists|i: int, a: int|
                    0 <= i < after.len() && 0 <= a < after[i].1@.len() && (#[trigger] after[i].1@[a]).name@
                        == r.1 && after[i].0@ == r.0 by {
                    if r == reference@ {
                        assert(after[n].1@[0].name@ == r.1 && after[n].0@ == r.0);
                    } else {
                        let (i, a) = choose|i: int, a: int|
                            0 <= i < before.len() && 0 <= a < before[i].1@.len() && (#[trigger] before[i].1@[a]).name@
                                == r.1 && before[i].0@ == r.0;
                        assert(after[i] == before[i]);
                        assert(after[i].1@[a].name@ == r.1);
                    }
                }
                assert forall|i: int, j: int|
                    0 <= i < after.len() && 0 <= j < after.len() && i != j implies (#[trigger] after[i]).0@
                        != (#[trigger] after[j]).0@ by {
                    if i < n && j < n {
                        assert(after[i] == before[i] && after[j] == before[j]);
                    }
                }
                assert forall|i: int| 0 <= i < after.len() implies (#[trigger] after[i]).1@.len() > 0 by {
                    if i < n {
                        assert(after[i] == before[i]);
                    }
                }
                assert forall|i: int, a: int, b: int|
                    0 <= i < after.len() && 0 <= a < after[i].1@.len() && 0 <= b < after[i].1@.len() && a
                        != b implies (#[trigger] after[i].1@[a]).name@ != (#[trigger] after[i].1@[b]).name@ by {
                    if i < n {
                        assert(after[i] == before[i]);
                    }
                }
            }
        },
        Some(i) => {
            match lists_name(&subscriptions[i].1, &reference.name) {
                Some(a) => {
                    proof {
                        assert forall|r: RefView| #[trigger] referenced(next, r) implies exists|ii: int, b: int|
                            0 <= ii < before.len() && 0 <= b < before[ii].1@.len() && (#[trigger] before[ii].1@[b]).name@
                                == r.1 && before[ii].0@ == r.0 by {
                            if r == reference@ {
                                assert(before[i as int].1@[a as int].name@ == r.1);
                            }
                        }
                    }
                },
                None => {
                    let ghost old_names = before[i as int].1@;
                    let mut names: Vec<Subscription> = Vec::new();
                    let mut k: usize = 0;
                    while k < subscriptions[i].1.len()
                        invariant
                            subscriptions@ == before,
                            i < before.len(),
                            old_names == before[i as int].1@,
                            k <= old_names.len(),
                            names@.len() == k,
                            forall|b: int| 0 <= b < k ==> #[trigger] names@[b] == old_names[b],
                        decreases old_names.len() - k,
                    {
                        names.push(subscriptions[i].1[k].clone());
                        k += 1;
                    }
                    names.push(Subscription { name: reference.name.clone() });
                    let id = subscriptions[i].0.clone();
                    subscriptions.set(i, (id, names));
                    proof {
                        let after = subscriptions@;
                        let m = old_names.len() as int;
                        assert(after[i as int].1@[m].name@ == reference.name@);
                        assert forall|b: int| 0 <= b < m implies #[trigger] after[i as int].1@[b] == old_names[b] by {}
                        assert forall|ii: int, a: int|
                            0 <= ii < after.len() && 0 <= a < after[ii].1@.len() implies referenced(
                                next,
                                (after[ii].0@, (#[trigger] after[ii].1@[a]).name@),
                            ) by {
                            if ii != i {
                                assert(after[ii] == before[ii]);
                                assert(referenced(prefix, (before[ii].0@, before[ii].1@[a].name@)));
                            } else if a < m {
                                assert(after[ii].1@[a] == before[ii].1@[a]);
                                assert(referenced(prefix, (before[ii].0@, before[ii].1@[a].name@)));
                            } else {
                                assert((after[ii].0@, after[ii].1@[a].name@) == reference@);
                            }
                        }
                        assert forall|r: RefView| #[trigger] referenced(next, r) implies exists|ii: int, a: int|
                            0 <= ii < after.len() && 0 <= a < after[ii].1@.len() && (#[trigger] after[ii].1@[a]).name@
                                == r.1 && after[ii].0@ == r.0 by {
                            if r == reference@ {
                                assert(after[i as int].1@[m].name@ == r.1 && after[i as int].0@ == r.0);
                            } else {
                                let (ii, a) = choose|ii: int, a: int|
                                    0 <= ii < before.len() && 0 <= a < before[ii].1@.len() && (#[trigger] before[ii].1@[a]).name@
                                        == r.1 && before[ii].0@ == r.0;
                                if ii != i {
                                    assert(after[ii] == before[ii]);
                                }
                                assert(after[ii].1@[a].name@ == r.1);
                            }
                        }
                        assert forall|ii: int, jj: int|
                            0 <= ii < after.len() && 0 <= jj < after.len() && ii != jj implies (#[trigger] after[ii]).0@
                                != (#[trigger] after[jj]).0@ by {
                            assert(after[ii].0@ == before[ii].0@);
                            assert(after[jj].0@ == before[jj].0@);
                        }
                        assert forall|ii: int| 0 <= ii < after.len() implies (#[trigger] after[ii]).1@.len() > 0 by {
                            if ii != i {
                                assert(after[ii] == before[ii]);
                            }
                        }
                        assert forall|ii: int, a: int, b: int|
                            0 <= ii < after.len() && 0 <= a < after[ii].1@.len() && 0 <= b < after[ii].1@.len()
                                && a != b implies (#[trigger] after[ii].1@[a]).name@ != (#[trigger] after[ii].1@[b]).name@ by {
                            if ii != i {
                                assert(after[ii] == before[ii]);
                            } else {
                                if a < m && b < m {
                                    assert(after[ii].1@[a] == before[ii].1@[a]);
                                    assert(after[ii].1@[b] == before[ii].1@[b]);
                                } else if a < m {
                                    assert(after[ii].1@[a] == old_names[a]);
                                } else if b < m {
                                    assert(after[ii].1@[b] == old_names[b]);
                                }
                            }
                        }
                    }
                },
            }
        },
    }
}

} // verus!
