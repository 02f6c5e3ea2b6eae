//! Lists of entries keyed by an id, read as maps: what the plugins keep of
//! the services they follow, where each id stands once.

use vstd::prelude::*;
use crate::text::str_eq;

verus! {

/// Each id is listed once.
pub open spec fn ids_unique<K: View, T>(entries: Seq<(K, T)>) -> bool {
    forall|i: int, j: int|
        0 <= i < entries.len() && 0 <= j < entries.len() && i != j ==> (#[trigger] entries[i]).0@
            != (#[trigger] entries[j]).0@
}

/// The entries as a map from id to value; of two entries with one id, the
/// later one counts.
pub open spec fn keyed<K: View, T>(entries: Seq<(K, T)>) -> Map<K::V, T>
    decreases entries.len(),
{
    if entries.len() == 0 {
        Map::empty()
    } else {
        keyed(entries.drop_last()).insert(entries.last().0@, entries.last().1)
    }
}

/// An id is in the map exactly when some entry lists it.
pub proof fn lemma_keyed_dom<K: View, T>(entries: Seq<(K, T)>, key: K::V)
    ensures
        keyed(entries).dom().contains(key) <==> exists|i: int|
            0 <= i < entries.len() && (#[trigger] entries[i]).0@ == key,
    decreases entries.len(),
{
    if entries.len() > 0 {
        let rest = entries.drop_last();
        lemma_keyed_dom(rest, key);
        if keyed(entries).dom().contains(key) && entries.last().0@ != key {
            let i = choose|i: int| 0 <= i < rest.len() && (#[trigger] rest[i]).0@ == key;
            assert(entries[i] == rest[i]);
        }
        if exists|i: int| 0 <= i < entries.len() && (#[trigger] entries[i]).0@ == key {
            let i = choose|i: int| 0 <= i < entries.len() && (#[trigger] entries[i]).0@ == key;
            if i < entries.len() - 1 {
                assert(rest[i] == entries[i]);
            }
        }
    }
}

/// With every id listed once, the map holds each entry's value under its id.
pub proof fn lemma_keyed_at<K: View, T>(entries: Seq<(K, T)>, i: int)
    requires
        ids_unique(entries),
        0 <= i < entries.len(),
    ensures
        keyed(entries).dom().contains(entries[i].0@),
        keyed(entries)[entries[i].0@] == entries[i].1,
    decreases entries.len(),
{
    let rest = entries.drop_last();
    if i < entries.len() - 1 {
        assert(rest[i] == entries[i]);
        lemma_keyed_at(rest, i);
        assert(entries[entries.len() - 1].0@ != entries[i].0@);
    }
}

/// Replacing the value of a listed id.
proof fn lemma_keyed_update<K: View, T>(entries: Seq<(K, T)>, i: int, entry: (K, T))
    requires
        ids_unique(entries),
        0 <= i < entries.len(),
        entries[i].0@ == entry.0@,
    ensures
        ids_unique(entries.update(i, entry)),
        keyed(entries.update(i, entry)) == keyed(entries).insert(entry.0@, entry.1),
    decreases entries.len(),
{
    let updated = entries.update(i, entry);
    assert forall|a: int, b: int|
        0 <= a < updated.len() && 0 <= b < updated.len() && a != b implies (#[trigger] updated[a]).0@
        != (#[trigger] updated[b]).0@ by {
        assert(entries[a].0@ != entries[b].0@);
    }
    let rest = entries.drop_last();
    if i == entries.len() - 1 {
        assert(updated.drop_last() =~= rest);
        assert(keyed(updated) =~= keyed(entries).insert(entry.0@, entry.1));
    } else {
        assert(updated.drop_last() =~= rest.update(i, entry));
        assert(ids_unique(rest));
        lemma_keyed_update(rest, i, entry);
        assert(entries.last().0@ != entries[i].0@);
        assert(keyed(updated) =~= keyed(entries).insert(entry.0@, entry.1));
    }
}

/// Taking a listed id out.
proof fn lemma_keyed_remove<K: View, T>(entries: Seq<(K, T)>, i: int)
    requires
        ids_unique(entries),
        0 <= i < entries.len(),
    ensures
        ids_unique(entries.remove(i)),
        keyed(entries.remove(i)) == keyed(entries).remove(entries[i].0@),
    decreases entries.len(),
{
    let removed = entries.remove(i);
    let key = entries[i].0@;
    assert forall|a: int, b: int|
        0 <= a < removed.len() && 0 <= b < removed.len() && a != b implies (#[trigger] removed[a]).0@
        != (#[trigger] removed[b]).0@ by {
        let a0 = if a < i { a } else { a + 1 };
        let b0 = if b < i { b } else { b + 1 };
        assert(removed[a] == entries[a0] && removed[b] == entries[b0]);
        assert(entries[a0].0@ != entries[b0].0@);
    }
    let rest = entries.drop_last();
    assert(ids_unique(rest));
    if i == entries.len() - 1 {
        assert(removed =~= rest);
        lemma_keyed_dom(rest, key);
        if keyed(rest).dom().contains(key) {
            let j = choose|j: int| 0 <= j < rest.len() && (#[trigger] rest[j]).0@ == key;
            assert(entries[j].0@ != entries[i].0@);
        }
        assert(keyed(removed) =~= keyed(entries).remove(key));
    } else {
        assert(removed.drop_last() =~= rest.remove(i));
        assert(removed.last() == entries.last());
        lemma_keyed_remove(rest, i);
        assert(rest[i] == entries[i]);
        assert(entries.last().0@ != key);
        assert(keyed(removed) =~= keyed(entries).remove(key));
    }
}

/// Adding an id that is not listed yet.
proof fn lemma_keyed_push<K: View, T>(entries: Seq<(K, T)>, entry: (K, T))
    requires
        ids_unique(entries),
        forall|j: int| 0 <= j < entries.len() ==> (#[trigger] entries[j]).0@ != entry.0@,
    ensures
        ids_unique(entries.push(entry)),
        keyed(entries.push(entry)) == keyed(entries).insert(entry.0@, entry.1),
{
    let pushed = entries.push(entry);
    assert(pushed.drop_last() =~= entries);
    assert forall|a: int, b: int|
        0 <= a < pushed.len() && 0 <= b < pushed.len() && a != b implies (#[trigger] pushed[a]).0@
        != (#[trigger] pushed[b]).0@ by {
        if a < entries.len() && b < entries.len() {
            assert(pushed[a] == entries[a] && pushed[b] == entries[b]);
        } else if a < entries.len() {
            assert(pushed[a] == entries[a]);
        } else {
            assert(pushed[b] == entries[b]);
        }
    }
}

/// The index of the entry listed under `key`, if there is one.
pub fn position_of<T>(entries: &Vec<(String, T)>, key: &str) -> (found: Option<usize>)
    ensures
        match found {
            Some(i) => i < entries@.len() && entries@[i as int].0@ == key@,
            None => forall|j: int| 0 <= j < entries@.len() ==> (#[trigger] entries@[j]).0@ != key@,
        },
{
    let mut i: usize = 0;
    while i < entries.len()
        invariant
            i <= entries@.len(),
            forall|j: int| 0 <= j < i ==> (#[trigger] entries@[j]).0@ != key@,
        decreases entries.len() - i,
    {
        if str_eq(entries[i].0.as_str(), key) {
            return Some(i);
        }
        i += 1;
    }
    None
}

/// Whether `found` is where `key` is listed in `entries`, or says that it is
/// not listed.
pub open spec fn found_at<K: View, T>(entries: Seq<(K, T)>, key: K::V, found: Option<usize>) -> bool {
    match found {
        Some(i) => i < entries.len() && entries[i as int].0@ == key,
        None => forall|j: int| 0 <= j < entries.len() ==> (#[trigger] entries[j]).0@ != key,
    }
}

/// Lists `value` under `key`, in place of what was listed there; `found` is
/// where `key` is listed.
pub fn put_at<K: View, T>(entries: &mut Vec<(K, T)>, found: Option<usize>, key: K, value: T)
    requires
        ids_unique(old(entries)@),
        found_at(old(entries)@, key@, found),
    ensures
        ids_unique(final(entries)@),
        keyed(final(entries)@) == keyed(old(entries)@).insert(key@, value),
        match found {
            Some(i) => final(entries)@ == old(entries)@.update(i as int, (key, value)),
            None => final(entries)@ == old(entries)@.push((key, value)),
        },
{
    match found {
        Some(i) => {
            proof {
                lemma_keyed_update(entries@, i as int, (key, value));
            }
            entries.set(i, (key, value));
        },
        None => {
            proof {
                lemma_keyed_push(entries@, (key, value));
            }
            entries.push((key, value));
        },
    }
}

/// Takes the entry at `i` out, and hands it back.
pub fn remove_at<K: View, T>(entries: &mut Vec<(K, T)>, i: usize) -> (removed: (K, T))
    requires
        ids_unique(old(entries)@),
        i < old(entries)@.len(),
    ensures
        removed == old(entries)@[i as int],
        final(entries)@ == old(entries)@.remove(i as int),
        ids_unique(final(entries)@),
        keyed(final(entries)@) == keyed(old(entries)@).remove(removed.0@),
        found_at(final(entries)@, removed.0@, None),
{
    proof {
        lemma_keyed_remove(entries@, i as int);
    }
    let ghost before = entries@;
    let removed = entries.remove(i);
    proof {
        assert forall|j: int| 0 <= j < entries@.len() implies (#[trigger] entries@[j]).0@ != removed.0@ by {
            let j0 = if j < i { j } else { j + 1 };
            assert(entries@[j] == before[j0]);
        }
    }
    removed
}

/// Putting an entry whose id is not listed anywhere in the list.
proof fn lemma_keyed_insert<K: View, T>(entries: Seq<(K, T)>, i: int, entry: (K, T))
    requires
        ids_unique(entries),
        0 <= i <= entries.len(),
        forall|j: int| 0 <= j < entries.len() ==> (#[trigger] entries[j]).0@ != entry.0@,
    ensures
        ids_unique(entries.insert(i, entry)),
        keyed(entries.insert(i, entry)) == keyed(entries).insert(entry.0@, entry.1),
    decreases entries.len() - i,
{
    let inserted = entries.insert(i, entry);
    assert forall|a: int, b: int|
        0 <= a < inserted.len() && 0 <= b < inserted.len() && a != b implies (#[trigger] inserted[a]).0@
        != (#[trigger] inserted[b]).0@ by {
        if a != i && b != i {
            let a0 = if a < i { a } else { a - 1 };
            let b0 = if b < i { b } else { b - 1 };
            assert(inserted[a] == entries[a0] && inserted[b] == entries[b0]);
        } else if a == i {
            let b0 = if b < i { b } else { b - 1 };
            assert(inserted[b] == entries[b0]);
        } else {
            let a0 = if a < i { a } else { a - 1 };
            assert(inserted[a] == entries[a0]);
        }
    }
    if i == entries.len() {
        assert(inserted =~= entries.push(entry));
        lemma_keyed_push(entries, entry);
    } else {
        let rest = entries.drop_last();
        assert(inserted.drop_last() =~= rest.insert(i, entry));
        assert(inserted.last() == entries.last());
        assert(ids_unique(rest));
        lemma_keyed_insert(rest, i, entry);
        assert(entries.last().0@ != entry.0@);
        assert(keyed(inserted) =~= keyed(entries).insert(entry.0@, entry.1));
    }
}

/// Puts an entry whose id is not listed at `i`.
pub fn insert_at<K: View, T>(entries: &mut Vec<(K, T)>, i: usize, entry: (K, T))
    requires
        ids_unique(old(entries)@),
        i <= old(entries)@.len(),
        found_at(old(entries)@, entry.0@, None),
    ensures
        final(entries)@ == old(entries)@.insert(i as int, entry),
        ids_unique(final(entries)@),
        keyed(final(entries)@) == keyed(old(entries)@).insert(entry.0@, entry.1),
{
    proof {
        lemma_keyed_insert(entries@, i as int, entry);
    }
    entries.insert(i, entry);
}

/// Looking a key up: where `found` says the key is, the map holds that
/// entry's value under it; where `found` says it is not listed, the map
/// does not hold it.
pub proof fn lemma_found<K: View, T>(entries: Seq<(K, T)>, key: K::V, found: Option<usize>)
    requires
        ids_unique(entries),
        found_at(entries, key, found),
    ensures
        match found {
            Some(i) => keyed(entries).dom().contains(key) && keyed(entries)[key] == entries[i as int].1,
            None => !keyed(entries).dom().contains(key),
        },
{
    match found {
        Some(i) => lemma_keyed_at(entries, i as int),
        None => lemma_keyed_dom(entries, key),
    }
}

/// Taking out a key that is not listed changes nothing.
pub proof fn lemma_keyed_absent<K: View, T>(entries: Seq<(K, T)>, key: K::V)
    requires
        forall|j: int| 0 <= j < entries.len() ==> (#[trigger] entries[j]).0@ != key,
    ensures
        keyed(entries).remove(key) == keyed(entries),
        !keyed(entries).dom().contains(key),
{
    lemma_keyed_dom(entries, key);
    assert(keyed(entries).remove(key) =~= keyed(entries));
}

/// Lists `value` under `key`, in place of what was listed there.
pub fn put<T>(entries: &mut Vec<(String, T)>, key: String, value: T)
    requires
        ids_unique(old(entries)@),
    ensures
        ids_unique(final(entries)@),
        keyed(final(entries)@) == keyed(old(entries)@).insert(key@, value),
{
    let found = position_of(entries, key.as_str());
    put_at(entries, found, key, value);
}

/// Takes whatever is listed under `key` out.
pub fn take_out<T>(entries: &mut Vec<(String, T)>, key: &str)
    requires
        ids_unique(old(entries)@),
    ensures
        ids_unique(final(entries)@),
        keyed(final(entries)@) == keyed(old(entries)@).remove(key@),
{
    match position_of(entries, key) {
        Some(i) => {
            remove_at(entries, i);
        },
        None => {
            proof {
                lemma_keyed_absent(entries@, key@);
            }
        },
    }
}

/// The index of the entry listed under the key `(surface, index)`, if there
/// is one.
pub fn slot_position<T>(entries: &Vec<((String, u8), T)>, surface: &str, index: u8) -> (found: Option<usize>)
    ensures
        found_at(entries@, (surface@, index), found),
{
    let mut i: usize = 0;
    while i < entries.len()
        invariant
            i <= entries@.len(),
            forall|j: int| 0 <= j < i ==> (#[trigger] entries@[j]).0@ != (surface@, index),
        decreases entries.len() - i,
    {
        if entries[i].0.1 == index && str_eq(entries[i].0.0.as_str(), surface) {
            return Some(i);
        }
        i += 1;
    }
    None
}

} // verus!
