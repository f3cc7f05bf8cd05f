//! Insertion-ordered maps keyed by name.
//!
//! The maps themselves are `indexmap::IndexMap`s. This module says what they
//! hold as a sequence of entries, oldest first, and states each operation the
//! pass uses over that sequence.
use crate::symbol::Symbol;
use crate::tree::Member;
use indexmap::IndexMap;
use vstd::prelude::*;

verus! {

/// Position of the first entry of `entries` whose key is `key`.
pub open spec fn find_key<V>(entries: Seq<(Symbol, V)>, key: Symbol) -> Option<int>
    decreases entries.len(),
{
    if entries.len() == 0 {
        None
    } else {
        match find_key(entries.drop_last(), key) {
            Some(i) => Some(i),
            None => if entries.last().0 == key {
                Some(entries.len() - 1)
            } else {
                None
            },
        }
    }
}

/// The value that `entries` holds for `key`.
pub open spec fn value_at<V>(entries: Seq<(Symbol, V)>, key: Symbol) -> Option<V> {
    match find_key(entries, key) {
        Some(i) => Some(entries[i].1),
        None => None,
    }
}

/// `entries` after `key` was given `value`: an entry that is there keeps its
/// place and gets the value, a new one goes last.
pub open spec fn inserted<V>(entries: Seq<(Symbol, V)>, key: Symbol, value: V) -> Seq<(Symbol, V)> {
    match find_key(entries, key) {
        Some(i) => entries.update(i, (key, value)),
        None => entries.push((key, value)),
    }
}

/// `entries` without the entry of `key`; the others keep their order.
pub open spec fn removed<V>(entries: Seq<(Symbol, V)>, key: Symbol) -> Seq<(Symbol, V)> {
    match find_key(entries, key) {
        Some(i) => entries.remove(i),
        None => entries,
    }
}

/// The values of the entries, in their order.
pub open spec fn values<V>(entries: Seq<(Symbol, V)>) -> Seq<V> {
    entries.map_values(|entry: (Symbol, V)| entry.1)
}

/// `find_key` finds the first entry with the key, and finds one if there is any.
pub(crate) proof fn lemma_find_key<V>(entries: Seq<(Symbol, V)>, key: Symbol)
    ensures
        match find_key(entries, key) {
            Some(i) => 0 <= i < entries.len() && entries[i].0 == key && forall|j: int|
                0 <= j < i ==> (#[trigger] entries[j]).0 != key,
            None => forall|j: int| 0 <= j < entries.len() ==> (#[trigger] entries[j]).0 != key,
        },
    decreases entries.len(),
{
    if entries.len() > 0 {
        let front = entries.drop_last();
        lemma_find_key(front, key);
        assert(forall|j: int| 0 <= j < front.len() ==> front[j] == entries[j]);
        match find_key(front, key) {
            Some(i) => {
                assert(entries[i] == front[i]);
                assert forall|j: int| 0 <= j < i implies (#[trigger] entries[j]).0 != key by {
                    assert(front[j].0 != key);
                }
            },
            None => {
                assert forall|j: int| 0 <= j < front.len() implies (#[trigger] entries[j]).0 != key by {
                    assert(front[j].0 != key);
                }
            },
        }
    }
}

/// An entry with the key at `i` and none before it: `find_key` returns `i`.
pub(crate) proof fn lemma_find_key_is<V>(entries: Seq<(Symbol, V)>, key: Symbol, i: int)
    requires
        0 <= i < entries.len(),
        entries[i].0 == key,
        forall|j: int| 0 <= j < i ==> (#[trigger] entries[j]).0 != key,
    ensures
        find_key(entries, key) == Some(i),
{
    lemma_find_key(entries, key);
}

/// After `key` was given `value`, `key` has it and every other key has what
/// it had.
pub(crate) proof fn lemma_value_after_insert<V>(
    entries: Seq<(Symbol, V)>,
    key: Symbol,
    value: V,
    other: Symbol,
)
    ensures
        value_at(inserted(entries, key, value), other) == if other == key {
            Some(value)
        } else {
            value_at(entries, other)
        },
{
    let after = inserted(entries, key, value);
    lemma_find_key(entries, key);
    lemma_find_key(entries, other);
    match find_key(entries, key) {
        Some(i) => {
            if other == key {
                lemma_find_key_is(after, key, i);
            } else {
                match find_key(entries, other) {
                    Some(j) => {
                        lemma_find_key_is(after, other, j);
                    },
                    None => {
                        lemma_find_key(after, other);
                    },
                }
            }
        },
        None => {
            if other == key {
                lemma_find_key_is(after, key, entries.len() as int);
            } else {
                match find_key(entries, other) {
                    Some(j) => {
                        lemma_find_key_is(after, other, j);
                    },
                    None => {
                        lemma_find_key(after, other);
                    },
                }
            }
        },
    }
}

/// Taking a key out leaves every other key with what it had.
pub(crate) proof fn lemma_value_after_remove<V>(entries: Seq<(Symbol, V)>, key: Symbol, other: Symbol)
    requires
        other != key,
    ensures
        value_at(removed(entries, key), other) == value_at(entries, other),
{
    let after = removed(entries, key);
    lemma_find_key(entries, key);
    lemma_find_key(entries, other);
    match find_key(entries, key) {
        Some(i) => {
            match find_key(entries, other) {
                Some(j) => {
                    if j < i {
                        lemma_find_key_is(after, other, j);
                    } else {
                        assert forall|k: int| 0 <= k < j - 1 implies (#[trigger] after[k]).0 != other by {
                            if k >= i {
                                assert(after[k] == entries[k + 1]);
                            } else {
                                assert(after[k] == entries[k]);
                            }
                        }
                        lemma_find_key_is(after, other, j - 1);
                    }
                },
                None => {
                    assert forall|k: int| 0 <= k < after.len() implies (#[trigger] after[k]).0 != other by {
                        if k >= i {
                            assert(after[k] == entries[k + 1]);
                        } else {
                            assert(after[k] == entries[k]);
                        }
                    }
                    lemma_find_key(after, other);
                },
            }
        },
        None => {},
    }
}

/// An entry added behind the others does not change what is taken out for
/// another key.
pub(crate) proof fn lemma_removed_push_other<V>(entries: Seq<(Symbol, V)>, entry: (Symbol, V), key: Symbol)
    requires
        entry.0 != key,
    ensures
        removed(entries.push(entry), key) == removed(entries, key).push(entry),
{
    let longer = entries.push(entry);
    assert(longer.drop_last() =~= entries);
    lemma_find_key(entries, key);
    match find_key(entries, key) {
        Some(i) => {
            assert(removed(longer, key) =~= removed(entries, key).push(entry));
        },
        None => {},
    }
}

/// An entry added behind others that lack its key is the one taken out for
/// the key.
pub(crate) proof fn lemma_removed_push_same<V>(entries: Seq<(Symbol, V)>, entry: (Symbol, V))
    requires
        find_key(entries, entry.0) is None,
    ensures
        removed(entries.push(entry), entry.0) == entries,
        value_at(entries.push(entry), entry.0) == Some(entry.1),
{
    let longer = entries.push(entry);
    assert(longer.drop_last() =~= entries);
    assert(removed(longer, entry.0) =~= entries);
}

/// What a rename frame holds, oldest entry first. The map stores a name as
/// the pair of its base and its version; an entry here is that pair read as
/// a `Symbol`, for the key and for the value.
pub uninterp spec fn frame_entries(frame: IndexMap<(u32, u64), (u32, u64)>) -> Seq<(Symbol, Symbol)>;

/// `IndexMap::new`: a map without entries.
#[verifier::external_body]
pub(crate) fn frame_new() -> (frame: IndexMap<(u32, u64), (u32, u64)>)
    ensures
        frame_entries(frame) == Seq::<(Symbol, Symbol)>::empty(),
{
    IndexMap::new()
}

/// `IndexMap::insert`: a key that the map holds keeps its place and gets the
/// new value, a key that it does not hold is added last.
#[verifier::external_body]
pub(crate) fn frame_insert(frame: &mut IndexMap<(u32, u64), (u32, u64)>, key: Symbol, value: Symbol)
    ensures
        frame_entries(*final(frame)) == inserted(frame_entries(*old(frame)), key, value),
{
    frame.insert((key.base, key.version), (value.base, value.version));
}

/// `IndexMap::get`: the value stored for the key, if the map holds the key.
#[verifier::external_body]
pub(crate) fn frame_get(frame: &IndexMap<(u32, u64), (u32, u64)>, key: Symbol) -> (value: Option<Symbol>)
    ensures
        value == value_at(frame_entries(*frame), key),
{
    frame.get(&(key.base, key.version)).map(|raw| Symbol { base: raw.0, version: raw.1 })
}

/// `IndexMap::into_iter`: the entries in their order.
#[verifier::external_body]
pub(crate) fn frame_into_entries(frame: IndexMap<(u32, u64), (u32, u64)>) -> (entries: Vec<(Symbol, Symbol)>)
    ensures
        entries@ == frame_entries(frame),
{
    frame
        .into_iter()
        .map(|(key, value)| (Symbol { base: key.0, version: key.1 }, Symbol { base: value.0, version: value.1 }))
        .collect()
}

/// What a map of members holds, oldest entry first. The map stores the key as
/// the pair of its base and its version; the key here is that pair read as a
/// `Symbol`.
pub uninterp spec fn member_entries(map: IndexMap<(u32, u64), Member>) -> Seq<(Symbol, Member)>;

/// `IndexMap::new`: a map without entries.
#[verifier::external_body]
pub(crate) fn member_map_new() -> (map: IndexMap<(u32, u64), Member>)
    ensures
        member_entries(map) == Seq::<(Symbol, Member)>::empty(),
{
    IndexMap::new()
}

/// `IndexMap::insert`: a key that the map holds keeps its place and gets the
/// new value, a key that it does not hold is added last.
#[verifier::external_body]
pub(crate) fn member_map_insert(map: &mut IndexMap<(u32, u64), Member>, key: Symbol, member: Member)
    ensures
        member_entries(*final(map)) == inserted(member_entries(*old(map)), key, member),
{
    map.insert((key.base, key.version), member);
}

/// `IndexMap::shift_remove`: takes the entry of the key out and returns its
/// value; the entries after it move up by one and keep their order. A map
/// without the key is left as it is.
#[verifier::external_body]
pub(crate) fn member_map_shift_remove(map: &mut IndexMap<(u32, u64), Member>, key: Symbol) -> (member: Option<Member>)
    ensures
        member == value_at(member_entries(*old(map)), key),
        member_entries(*final(map)) == removed(member_entries(*old(map)), key),
{
    map.shift_remove(&(key.base, key.version))
}

/// `IndexMap::into_iter`: the entries in their order; the values are kept.
#[verifier::external_body]
pub(crate) fn member_map_into_members(map: IndexMap<(u32, u64), Member>) -> (members: Vec<Member>)
    ensures
        members@ == values(member_entries(map)),
{
    map.into_iter().map(|(_, member)| member).collect()
}

} // verus!
