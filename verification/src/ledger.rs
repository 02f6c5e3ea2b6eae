//! What each key was last told to show. A repaint that resolves to the same
//! thing is dropped here instead of costing an image encode, which is what
//! makes a live value affordable.

use vstd::prelude::*;
use crate::surfaces::{KeyRendering, LayerView, ResolvedLayer};
use crate::text::{owned, str_eq};

verus! {

/// Whether two layers are the same layer.
fn same_layer(left: &ResolvedLayer, right: &ResolvedLayer) -> (same: bool)
    ensures
        same == (left@ == right@),
{
    match (left, right) {
        (ResolvedLayer::Fill { color: a }, ResolvedLayer::Fill { color: b }) => *a == *b,
        (ResolvedLayer::Image { image: a }, ResolvedLayer::Image { image: b }) => a.0 == b.0,
        (ResolvedLayer::Text { text: a, color: c }, ResolvedLayer::Text { text: b, color: d }) => *a
            == *b && *c == *d,
        _ => false,
    }
}

/// Whether two renderings show the same thing on the same key.
pub fn same_rendering(left: &KeyRendering, right: &KeyRendering) -> (same: bool)
    ensures
        same == (left@ == right@),
{
    if left.key_index != right.key_index || left.is_dimmed != right.is_dimmed || left.layers.len()
        != right.layers.len() {
        assert(left@.1.len() != right@.1.len() || left@.0 != right@.0 || left@.2 != right@.2);
        return false;
    }
    let mut i: usize = 0;
    while i < left.layers.len()
        invariant
            i <= left.layers@.len(),
            left.layers@.len() == right.layers@.len(),
            forall|j: int| 0 <= j < i ==> (#[trigger] left.layers@[j])@ == right.layers@[j]@,
        decreases left.layers.len() - i,
    {
        if !same_layer(&left.layers[i], &right.layers[i]) {
            assert(left@.1[i as int] != right@.1[i as int]);
            return false;
        }
        i += 1;
    }
    assert(left@.1 =~= right@.1);
    true
}

/// A copy of a rendering.
pub fn copy_rendering(rendering: &KeyRendering) -> (copy: KeyRendering)
    ensures
        copy@ == rendering@,
{
    let mut layers: Vec<ResolvedLayer> = Vec::new();
    let mut i: usize = 0;
    while i < rendering.layers.len()
        invariant
            i <= rendering.layers@.len(),
            layers@.len() == i,
            forall|j: int| 0 <= j < i ==> #[trigger] layers@[j] == rendering.layers@[j],
        decreases rendering.layers.len() - i,
    {
        layers.push(rendering.layers[i].clone());
        i += 1;
    }
    let copy = KeyRendering { key_index: rendering.key_index, layers, is_dimmed: rendering.is_dimmed };
    assert(copy@.1 =~= rendering@.1);
    copy
}

/// One key's last rendering.
#[derive(Debug)]
struct Recorded {
    surface_id: String,
    rendering: KeyRendering,
}

/// A key of the ledger: the surface and the key index.
pub type LedgerKey = (Seq<char>, u8);

/// What each key of each surface was last told to show.
#[derive(Debug)]
pub struct RenderLedger {
    recorded: Vec<Recorded>,
}

spec fn key_of(entry: Recorded) -> LedgerKey {
    (entry.surface_id@, entry.rendering.key_index)
}

spec fn has_key(entries: Seq<Recorded>, key: LedgerKey) -> bool {
    exists|i: int| 0 <= i < entries.len() && key_of(#[trigger] entries[i]) == key
}

spec fn shown_for(entries: Seq<Recorded>, key: LedgerKey) -> (u8, Seq<LayerView>, bool) {
    entries[choose|i: int| 0 <= i < entries.len() && key_of(#[trigger] entries[i]) == key].rendering@
}

spec fn distinct_keys(entries: Seq<Recorded>) -> bool {
    forall|i: int, j: int|
        0 <= i < entries.len() && 0 <= j < entries.len() && i != j ==> key_of(#[trigger] entries[i])
            != key_of(#[trigger] entries[j])
}

proof fn lemma_entry_shown(entries: Seq<Recorded>, i: int)
    requires
        distinct_keys(entries),
        0 <= i < entries.len(),
    ensures
        has_key(entries, key_of(entries[i])),
        shown_for(entries, key_of(entries[i])) == entries[i].rendering@,
{
    let key = key_of(entries[i]);
    assert(has_key(entries, key));
    let j = choose|j: int| 0 <= j < entries.len() && key_of(#[trigger] entries[j]) == key;
    assert(j == i);
}

impl View for RenderLedger {
    type V = Map<LedgerKey, (u8, Seq<LayerView>, bool)>;

    closed spec fn view(&self) -> Map<LedgerKey, (u8, Seq<LayerView>, bool)> {
        Map::new(|key| has_key(self.recorded@, key), |key| shown_for(self.recorded@, key))
    }
}

/// Whether recording `rendering` for `key` over what `before` holds tells the
/// key anything new.
pub open spec fn is_news(
    before: Map<LedgerKey, (u8, Seq<LayerView>, bool)>,
    key: LedgerKey,
    rendering: (u8, Seq<LayerView>, bool),
) -> bool {
    !(before.contains_key(key) && before[key] == rendering)
}

impl Default for RenderLedger {
    fn default() -> (ledger: Self)
        ensures
            ledger.wf(),
            ledger@ == Map::<LedgerKey, (u8, Seq<LayerView>, bool)>::empty(),
    {
        let ledger = RenderLedger { recorded: Vec::new() };
        assert(ledger@ =~= Map::<LedgerKey, (u8, Seq<LayerView>, bool)>::empty());
        ledger
    }
}

impl RenderLedger {
    /// No key is recorded twice.
    pub closed spec fn wf(&self) -> bool {
        distinct_keys(self.recorded@)
    }

    /// An empty ledger.
    pub fn new() -> (ledger: Self)
        ensures
            ledger.wf(),
            ledger@ == Map::<LedgerKey, (u8, Seq<LayerView>, bool)>::empty(),
    {
        Self::default()
    }

    fn position(&self, surface_id: &str, key_index: u8) -> (found: Option<usize>)
        ensures
            match found {
                Some(i) => i < self.recorded@.len() && key_of(self.recorded@[i as int]) == (
                surface_id@,
                key_index,
                ),
                None => !has_key(self.recorded@, (surface_id@, key_index)),
            },
    {
        let mut i: usize = 0;
        while i < self.recorded.len()
            invariant
                i <= self.recorded@.len(),
                forall|j: int| 0 <= j < i ==> key_of(#[trigger] self.recorded@[j]) != (surface_id@, key_index),
            decreases self.recorded.len() - i,
        {
            if self.recorded[i].rendering.key_index == key_index && str_eq(
                self.recorded[i].surface_id.as_str(),
                surface_id,
            ) {
                return Some(i);
            }
            i += 1;
        }
        None
    }

    /// Records what a key is about to be told to show, and answers whether
    /// that differs from what it was last told.
    pub fn record(&mut self, surface_id: &str, rendering: &KeyRendering) -> (changed: bool)
        requires
            old(self).wf(),
        ensures
            final(self).wf(),
            final(self)@ == old(self)@.insert((surface_id@, rendering.key_index), rendering@),
            changed == is_news(old(self)@, (surface_id@, rendering.key_index), rendering@),
    {
        let ghost before = self.recorded@;
        let ghost key = (surface_id@, rendering.key_index);
        let found = self.position(surface_id, rendering.key_index);
        let fresh = Recorded { surface_id: owned(surface_id), rendering: copy_rendering(rendering) };
        assert(key_of(fresh) == key);
        if let Some(i) = found {
            proof {
                lemma_entry_shown(before, i as int);
            }
            let changed = !same_rendering(&self.recorded[i].rendering, rendering);
            self.recorded.set(i, fresh);
            proof {
                let after = self.recorded@;
                assert(distinct_keys(after));
                assert forall|k| #[trigger] has_key(after, k) == (has_key(before, k) || k == key) by {
                    if has_key(before, k) {
                        let j = choose|j: int| 0 <= j < before.len() && key_of(#[trigger] before[j]) == k;
                        assert(key_of(after[j]) == k);
                    }
                    if has_key(after, k) {
                        let j = choose|j: int| 0 <= j < after.len() && key_of(#[trigger] after[j]) == k;
                        assert(key_of(before[j]) == k);
                    }
                }
                assert forall|k| #[trigger] has_key(after, k) implies shown_for(after, k) == (if k == key {
                    rendering@
                } else {
                    shown_for(before, k)
                }) by {
                    let j = choose|j: int| 0 <= j < after.len() && key_of(#[trigger] after[j]) == k;
                    lemma_entry_shown(after, j);
                    if j != i {
                        lemma_entry_shown(before, j);
                    }
                }
                assert(self@ =~= old(self)@.insert(key, rendering@));
            }
            changed
        } else {
            self.recorded.push(fresh);
            proof {
                let after = self.recorded@;
                assert(distinct_keys(after));
                assert forall|k| #[trigger] has_key(after, k) == (has_key(before, k) || k == key) by {
                    if has_key(before, k) {
                        let j = choose|j: int| 0 <= j < before.len() && key_of(#[trigger] before[j]) == k;
                        assert(key_of(after[j]) == k);
                    }
                    if k == key {
                        assert(key_of(after[before.len() as int]) == k);
                    }
                    if has_key(after, k) {
                        let j = choose|j: int| 0 <= j < after.len() && key_of(#[trigger] after[j]) == k;
                        if j < before.len() {
                            assert(key_of(before[j]) == k);
                        }
                    }
                }
                assert forall|k| #[trigger] has_key(after, k) implies shown_for(after, k) == (if k == key {
                    rendering@
                } else {
                    shown_for(before, k)
                }) by {
                    let j = choose|j: int| 0 <= j < after.len() && key_of(#[trigger] after[j]) == k;
                    lemma_entry_shown(after, j);
                    if j < before.len() {
                        lemma_entry_shown(before, j);
                    }
                }
                assert(self@ =~= old(self)@.insert(key, rendering@));
            }
            true
        }
    }

    /// Forgets everything, so the next repaint of every key is sent. Needed
    /// when what changed is not a rendering itself but what an id in it
    /// resolves to, such as a fetched image landing.
    pub fn forget_all(&mut self)
        ensures
            final(self).wf(),
            final(self)@ == Map::<LedgerKey, (u8, Seq<LayerView>, bool)>::empty(),
    {
        self.recorded = Vec::new();
        assert(self@ =~= Map::<LedgerKey, (u8, Seq<LayerView>, bool)>::empty());
    }

    /// Forgets what one surface was showing, so its next repaint is sent
    /// rather than deduplicated against a device that has since been reset.
    /// Other surfaces are untouched.
    pub fn forget(&mut self, surface_id: &str)
        requires
            old(self).wf(),
        ensures
            final(self).wf(),
            forall|key: LedgerKey|
                #[trigger] final(self)@.contains_key(key) == (old(self)@.contains_key(key) && key.0
                    != surface_id@),
            forall|key: LedgerKey|
                #[trigger] final(self)@.contains_key(key) ==> final(self)@[key] == old(self)@[key],
    {
        let ghost before = self.recorded@;
        let ghost old_view = self@;
        let mut kept: Vec<Recorded> = Vec::new();
        let ghost mut kept_from: Seq<int> = Seq::empty();
        let ghost mut slot: Seq<int> = Seq::empty();
        let mut i: usize = 0;
        while i < self.recorded.len()
            invariant
                self.recorded@ == before,
                distinct_keys(before),
                i <= before.len(),
                kept_from.len() == kept@.len(),
                slot.len() == i,
                forall|j: int|
                    0 <= j < kept@.len() ==> 0 <= #[trigger] kept_from[j] < i && key_of(kept@[j])
                        == key_of(before[kept_from[j]]) && kept@[j].rendering@
                        == before[kept_from[j]].rendering@ && before[kept_from[j]].surface_id@
                        != surface_id@ && slot[kept_from[j]] == j,
                forall|m: int|
                    0 <= m < i && before[m].surface_id@ != surface_id@ ==> 0 <= #[trigger] slot[m]
                        < kept@.len() && kept_from[slot[m]] == m,
            decreases before.len() - i,
        {
            if !str_eq(self.recorded[i].surface_id.as_str(), surface_id) {
                let entry = Recorded {
                    surface_id: self.recorded[i].surface_id.clone(),
                    rendering: copy_rendering(&self.recorded[i].rendering),
                };
                proof {
                    slot = slot.push(kept@.len() as int);
                    kept_from = kept_from.push(i as int);
                }
                kept.push(entry);
            } else {
                proof {
                    slot = slot.push(-1);
                }
            }
            i += 1;
        }
        proof {
            assert forall|a: int, b: int|
                0 <= a < kept@.len() && 0 <= b < kept@.len() && a != b implies key_of(#[trigger] kept@[a])
                    != key_of(#[trigger] kept@[b]) by {
                assert(kept_from[a] != kept_from[b]);
            }
        }
        self.recorded = kept;
        proof {
            assert forall|key: LedgerKey|
                #[trigger] self@.contains_key(key) == (old_view.contains_key(key) && key.0 != surface_id@) by {
                if has_key(kept@, key) {
                    let j = choose|j: int| 0 <= j < kept@.len() && key_of(#[trigger] kept@[j]) == key;
                    assert(key_of(before[kept_from[j]]) == key);
                }
                if has_key(before, key) && key.0 != surface_id@ {
                    let m = choose|m: int| 0 <= m < before.len() && key_of(#[trigger] before[m]) == key;
                    assert(key_of(kept@[slot[m]]) == key);
                }
            }
            assert forall|key: LedgerKey| #[trigger] self@.contains_key(key) implies self@[key]
                == old_view[key] by {
                let j = choose|j: int| 0 <= j < kept@.len() && key_of(#[trigger] kept@[j]) == key;
                lemma_entry_shown(kept@, j);
                lemma_entry_shown(before, kept_from[j]);
            }
        }
    }
}

/// Recording the rendering a key already shows is no news, so a repaint
/// that resolves to the same thing is dropped.
pub proof fn lemma_same_rendering_twice_is_no_news(
    ledger: Map<LedgerKey, (u8, Seq<LayerView>, bool)>,
    key: LedgerKey,
    rendering: (u8, Seq<LayerView>, bool),
)
    ensures
        !is_news(ledger.insert(key, rendering), key, rendering),
{
}

} // verus!
