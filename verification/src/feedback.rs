//! The results of evaluated feedbacks. Two buttons watching the same light
//! share a key, and so share a single cache entry and a single evaluation.

use vstd::prelude::*;
use crate::identifiers::IntegrationId;

verus! {

/// Identifies one evaluated feedback: the instance, the feedback's name and
/// its parameters as serialized JSON. The serialization sorts object members,
/// so the text is canonical and two spellings of the same parameters are one
/// key.
#[derive(Debug, Eq, Hash)]
pub struct FeedbackKey {
    pub integration_id: IntegrationId,
    pub feedback_name: String,
    pub parameters: String,
}

impl Clone for FeedbackKey {
    fn clone(&self) -> (copy: Self)
        ensures
            copy == *self,
    {
        FeedbackKey {
            integration_id: self.integration_id.clone(),
            feedback_name: self.feedback_name.clone(),
            parameters: self.parameters.clone(),
        }
    }
}

impl View for FeedbackKey {
    type V = (Seq<char>, Seq<char>, Seq<char>);

    open spec fn view(&self) -> (Seq<char>, Seq<char>, Seq<char>) {
        (self.integration_id@, self.feedback_name@, self.parameters@)
    }
}

impl PartialEq for FeedbackKey {
    fn eq(&self, other: &Self) -> (same: bool) {
        self.integration_id.0 == other.integration_id.0 && self.feedback_name == other.feedback_name
            && self.parameters == other.parameters
    }
}

impl vstd::std_specs::cmp::PartialEqSpecImpl for FeedbackKey {
    open spec fn obeys_eq_spec() -> bool {
        true
    }

    open spec fn eq_spec(&self, other: &FeedbackKey) -> bool {
        self@ == other@
    }
}

/// The last result of each evaluated feedback. Absent means "not evaluated
/// yet", which renders as inactive: a feedback whose plugin has not started
/// leaves the button looking like its configured state rather than blank.
#[derive(Debug)]
pub struct FeedbackCache {
    results: Vec<(FeedbackKey, bool)>,
}

/// Whether the entry at some index has a key with view `key`.
pub open spec fn holds_key(entries: Seq<(FeedbackKey, bool)>, key: (Seq<char>, Seq<char>, Seq<char>)) -> bool {
    exists|i: int| 0 <= i < entries.len() && (#[trigger] entries[i]).0@ == key
}

/// The result stored under `key`, taken from any entry holding it.
pub open spec fn result_for(entries: Seq<(FeedbackKey, bool)>, key: (Seq<char>, Seq<char>, Seq<char>)) -> bool {
    entries[choose|i: int| 0 <= i < entries.len() && (#[trigger] entries[i]).0@ == key].1
}

/// Whether a change of the cache from `before` to `after` is what setting
/// `key` to `result` is: that result stored, everything else kept.
pub open spec fn set_changes(
    before: Map<(Seq<char>, Seq<char>, Seq<char>), bool>,
    key: (Seq<char>, Seq<char>, Seq<char>),
    result: bool,
) -> bool {
    !(before.contains_key(key) && before[key] == result)
}

impl View for FeedbackCache {
    type V = Map<(Seq<char>, Seq<char>, Seq<char>), bool>;

    closed spec fn view(&self) -> Map<(Seq<char>, Seq<char>, Seq<char>), bool> {
        Map::new(|key| holds_key(self.results@, key), |key| result_for(self.results@, key))
    }
}

impl Default for FeedbackCache {
    fn default() -> (cache: Self)
        ensures
            cache.wf(),
            cache@ == Map::<(Seq<char>, Seq<char>, Seq<char>), bool>::empty(),
    {
        let cache = FeedbackCache { results: Vec::new() };
        assert(cache@ =~= Map::<(Seq<char>, Seq<char>, Seq<char>), bool>::empty());
        cache
    }
}

/// No two entries share a key.
pub open spec fn keys_unique(entries: Seq<(FeedbackKey, bool)>) -> bool {
    forall|i: int, j: int|
        0 <= i < entries.len() && 0 <= j < entries.len() && i != j ==> (#[trigger] entries[i]).0@
            != (#[trigger] entries[j]).0@
}

proof fn lemma_entry_is_result(entries: Seq<(FeedbackKey, bool)>, i: int)
    requires
        keys_unique(entries),
        0 <= i < entries.len(),
    ensures
        holds_key(entries, entries[i].0@),
        result_for(entries, entries[i].0@) == entries[i].1,
{
    let key = entries[i].0@;
    assert(holds_key(entries, key));
    let j = choose|j: int| 0 <= j < entries.len() && (#[trigger] entries[j]).0@ == key;
    assert(j == i);
}

impl FeedbackCache {
    /// No two entries share a key.
    pub closed spec fn wf(&self) -> bool {
        keys_unique(self.results@)
    }

    /// An empty cache.
    pub fn new() -> (cache: Self)
        ensures
            cache.wf(),
            cache@ == Map::<(Seq<char>, Seq<char>, Seq<char>), bool>::empty(),
    {
        Self::default()
    }

    fn position(&self, key: &FeedbackKey) -> (found: Option<usize>)
        ensures
            match found {
                Some(i) => i < self.results@.len() && self.results@[i as int].0@ == key@,
                None => !holds_key(self.results@, key@),
            },
    {
        let mut i: usize = 0;
        while i < self.results.len()
            invariant
                i <= self.results@.len(),
                forall|j: int| 0 <= j < i ==> (#[trigger] self.results@[j]).0@ != key@,
            decreases self.results.len() - i,
        {
            if self.results[i].0 == *key {
                return Some(i);
            }
            i += 1;
        }
        None
    }

    /// The last result of a feedback, or `None` when it has not been
    /// evaluated.
    pub fn get(&self, key: &FeedbackKey) -> (result: Option<bool>)
        requires
            self.wf(),
        ensures
            result == if self@.contains_key(key@) {
                Some(self@[key@])
            } else {
                None::<bool>
            },
    {
        match self.position(key) {
            Some(i) => {
                proof {
                    lemma_entry_is_result(self.results@, i as int);
                }
                Some(self.results[i].1)
            },
            None => None,
        }
    }

    /// Whether a feedback is active; one not evaluated yet is not.
    pub fn is_active(&self, key: &FeedbackKey) -> (active: bool)
        requires
            self.wf(),
        ensures
            active == (self@.contains_key(key@) && self@[key@]),
    {
        match self.get(key) {
            Some(result) => result,
            None => false,
        }
    }

    /// Stores a result, and answers whether it differs from the one stored
    /// before, so an unchanged evaluation repaints nothing.
    pub fn set(&mut self, key: FeedbackKey, result: bool) -> (changed: bool)
        requires
            old(self).wf(),
        ensures
            final(self).wf(),
            final(self)@ == old(self)@.insert(key@, result),
            changed == set_changes(old(self)@, key@, result),
    {
        let ghost before = self.results@;
        let ghost k = key@;
        match self.position(&key) {
            Some(i) => {
                let previous = self.results[i].1;
                proof {
                    lemma_entry_is_result(before, i as int);
                }
                self.results.set(i, (key, result));
                proof {
                    let after = self.results@;
                    assert(keys_unique(after));
                    assert forall|other| #[trigger] holds_key(after, other) == (holds_key(before, other)
                        || other == k) by {
                        if holds_key(before, other) {
                            let j = choose|j: int| 0 <= j < before.len() && (#[trigger] before[j]).0@ == other;
                            assert(after[j].0@ == other);
                        }
                        if holds_key(after, other) {
                            let j = choose|j: int| 0 <= j < after.len() && (#[trigger] after[j]).0@ == other;
                            assert(before[j].0@ == other);
                        }
                    }
                    assert forall|other| #[trigger] holds_key(after, other) implies result_for(after, other) == (
                    if other == k {
                        result
                    } else {
                        result_for(before, other)
                    }) by {
                        let j = choose|j: int| 0 <= j < after.len() && (#[trigger] after[j]).0@ == other;
                        lemma_entry_is_result(after, j);
                        if j != i {
                            lemma_entry_is_result(before, j);
                        }
                    }
                    assert(self@ =~= old(self)@.insert(k, result));
                }
                previous != result
            },
            None => {
                self.results.push((key, result));
                proof {
                    let after = self.results@;
                    assert(keys_unique(after));
                    assert forall|other| #[trigger] holds_key(after, other) == (holds_key(before, other)
                        || other == k) by {
                        if holds_key(before, other) {
                            let j = choose|j: int| 0 <= j < before.len() && (#[trigger] before[j]).0@ == other;
                            assert(after[j].0@ == other);
                        }
                        if other == k {
                            assert(after[before.len() as int].0@ == other);
                        }
                        if holds_key(after, other) {
                            let j = choose|j: int| 0 <= j < after.len() && (#[trigger] after[j]).0@ == other;
                            if j < before.len() {
                                assert(before[j].0@ == other);
                            }
                        }
                    }
                    assert forall|other| #[trigger] holds_key(after, other) implies result_for(after, other) == (
                    if other == k {
                        result
                    } else {
                        result_for(before, other)
                    }) by {
                        let j = choose|j: int| 0 <= j < after.len() && (#[trigger] after[j]).0@ == other;
                        lemma_entry_is_result(after, j);
                        if j < before.len() {
                            lemma_entry_is_result(before, j);
                        }
                    }
                    assert(self@ =~= old(self)@.insert(k, result));
                }
                true
            },
        }
    }

    /// Forgets every result of one instance, and hands back the keys it
    /// forgot, each once. Results of other instances are kept.
    pub fn clear_instance(&mut self, integration_id: &IntegrationId) -> (cleared: Vec<FeedbackKey>)
        requires
            old(self).wf(),
        ensures
            final(self).wf(),
            forall|key: (Seq<char>, Seq<char>, Seq<char>)|
                #[trigger] final(self)@.contains_key(key) == (old(self)@.contains_key(key) && key.0
                    != integration_id@),
            forall|key: (Seq<char>, Seq<char>, Seq<char>)|
                #[trigger] final(self)@.contains_key(key) ==> final(self)@[key] == old(self)@[key],
            forall|i: int|
                0 <= i < cleared@.len() ==> (#[trigger] cleared@[i]).integration_id@ == integration_id@
                    && old(self)@.contains_key(cleared@[i]@),
            forall|key: (Seq<char>, Seq<char>, Seq<char>)|
                #[trigger] old(self)@.contains_key(key) && key.0 == integration_id@ ==> exists|i: int|
                    0 <= i < cleared@.len() && (#[trigger] cleared@[i])@ == key,
            forall|i: int, j: int|
                0 <= i < cleared@.len() && 0 <= j < cleared@.len() && i != j ==> (#[trigger] cleared@[i])@
                    != (#[trigger] cleared@[j])@,
    {
        let ghost before = self.results@;
        let mut kept: Vec<(FeedbackKey, bool)> = Vec::new();
        let mut cleared: Vec<FeedbackKey> = Vec::new();
        // Where each kept or cleared entry came from, and where each entry
        // already looked at went.
        let ghost mut kept_from: Seq<int> = Seq::empty();
        let ghost mut cleared_from: Seq<int> = Seq::empty();
        let ghost mut slot: Seq<int> = Seq::empty();
        let mut i: usize = 0;
        while i < self.results.len()
            invariant
                self.results@ == before,
                keys_unique(before),
                i <= before.len(),
                kept_from.len() == kept@.len(),
                cleared_from.len() == cleared@.len(),
                slot.len() == i,
                forall|j: int|
                    0 <= j < kept@.len() ==> 0 <= #[trigger] kept_from[j] < i && kept@[j]
                        == before[kept_from[j]] && before[kept_from[j]].0.integration_id@
                        != integration_id@ && slot[kept_from[j]] == j,
                forall|j: int|
                    0 <= j < cleared@.len() ==> 0 <= #[trigger] cleared_from[j] < i && cleared@[j]
                        == before[cleared_from[j]].0 && before[cleared_from[j]].0.integration_id@
                        == integration_id@ && slot[cleared_from[j]] == j,
                forall|m: int|
                    0 <= m < i ==> if before[m].0.integration_id@ != integration_id@ {
                        0 <= #[trigger] slot[m] < kept@.len() && kept_from[slot[m]] == m
                    } else {
                        0 <= slot[m] < cleared@.len() && cleared_from[slot[m]] == m
                    },
            decreases before.len() - i,
        {
            let key = self.results[i].0.clone();
            let result = self.results[i].1;
            if key.integration_id.0 == integration_id.0 {
                proof {
                    slot = slot.push(cleared@.len() as int);
                    cleared_from = cleared_from.push(i as int);
                }
                cleared.push(key);
            } else {
                proof {
                    slot = slot.push(kept@.len() as int);
                    kept_from = kept_from.push(i as int);
                }
                kept.push((key, result));
                assert(kept@[kept@.len() - 1] == before[i as int]);
            }
            i += 1;
        }
        let ghost old_view = self@;
        proof {
            assert forall|a: int, b: int|
                0 <= a < kept@.len() && 0 <= b < kept@.len() && a != b implies (#[trigger] kept@[a]).0@
                    != (#[trigger] kept@[b]).0@ by {
                assert(kept_from[a] != kept_from[b]);
            }
            assert forall|a: int, b: int|
                0 <= a < cleared@.len() && 0 <= b < cleared@.len() && a != b implies (#[trigger] cleared@[a])@
                    != (#[trigger] cleared@[b])@ by {
                assert(cleared_from[a] != cleared_from[b]);
            }
        }
        self.results = kept;
        proof {
            assert forall|key: (Seq<char>, Seq<char>, Seq<char>)|
                #[trigger] self@.contains_key(key) == (old_view.contains_key(key) && key.0 != integration_id@) by {
                if holds_key(kept@, key) {
                    let j = choose|j: int| 0 <= j < kept@.len() && (#[trigger] kept@[j]).0@ == key;
                    assert(before[kept_from[j]].0@ == key);
                }
                if holds_key(before, key) && key.0 != integration_id@ {
                    let m = choose|m: int| 0 <= m < before.len() && (#[trigger] before[m]).0@ == key;
                    assert(kept@[slot[m]].0@ == key);
                }
            }
            assert forall|key: (Seq<char>, Seq<char>, Seq<char>)|
                #[trigger] self@.contains_key(key) implies self@[key] == old_view[key] by {
                let j = choose|j: int| 0 <= j < kept@.len() && (#[trigger] kept@[j]).0@ == key;
                lemma_entry_is_result(kept@, j);
                lemma_entry_is_result(before, kept_from[j]);
            }
            assert forall|a: int| 0 <= a < cleared@.len() implies (#[trigger] cleared@[a]).integration_id@
                == integration_id@ && old_view.contains_key(cleared@[a]@) by {
                assert(before[cleared_from[a]].0@ == cleared@[a]@);
            }
            assert forall|key: (Seq<char>, Seq<char>, Seq<char>)|
                #[trigger] old_view.contains_key(key) && key.0 == integration_id@ implies exists|a: int|
                    0 <= a < cleared@.len() && (#[trigger] cleared@[a])@ == key by {
                let m = choose|m: int| 0 <= m < before.len() && (#[trigger] before[m]).0@ == key;
                assert(cleared@[slot[m]]@ == key);
            }
        }
        cleared
    }
}

/// Storing the result a feedback already has reports no change, so an
/// evaluation repeated on every poll repaints nothing after the first.
pub proof fn lemma_setting_again_changes_nothing(
    cache: Map<(Seq<char>, Seq<char>, Seq<char>), bool>,
    key: (Seq<char>, Seq<char>, Seq<char>),
    result: bool,
)
    ensures
        !set_changes(cache.insert(key, result), key, result),
{
}

/// What was stored under a key is what reading the key gives back, and
/// every other key reads as before.
pub proof fn lemma_read_gives_back_the_write(
    cache: Map<(Seq<char>, Seq<char>, Seq<char>), bool>,
    key: (Seq<char>, Seq<char>, Seq<char>),
    result: bool,
    other: (Seq<char>, Seq<char>, Seq<char>),
)
    ensures
        cache.insert(key, result).contains_key(key),
        cache.insert(key, result)[key] == result,
        other != key ==> cache.insert(key, result).contains_key(other) == cache.contains_key(other),
        other != key && cache.contains_key(other) ==> cache.insert(key, result)[other] == cache[other],
{
}

} // verus!
