//! The entries of a JSON object as a mathematical value: a list of keys with
//! their values, in the order in which the object yields them.

use vstd::prelude::*;

verus! {

/// The index of the last entry of `entries` whose key is `key`.
pub open spec fn key_index(entries: Seq<(Seq<char>, Seq<char>)>, key: Seq<char>) -> Option<int>
    decreases entries.len(),
{
    if entries.len() == 0 {
        None
    } else if entries.last().0 == key {
        Some(entries.len() - 1)
    } else {
        key_index(entries.drop_last(), key)
    }
}

/// The entries after `key` has been set to `value`: a key that is already
/// present keeps its place and takes the new value, a new key goes last.
pub open spec fn put(entries: Seq<(Seq<char>, Seq<char>)>, key: Seq<char>, value: Seq<char>) -> Seq<
    (Seq<char>, Seq<char>),
> {
    match key_index(entries, key) {
        Some(i) => entries.update(i, (key, value)),
        None => entries.push((key, value)),
    }
}

/// The value that `entries` holds for `key`, if they hold one.
pub open spec fn value_of(entries: Seq<(Seq<char>, Seq<char>)>, key: Seq<char>) -> Option<
    Seq<char>,
> {
    match key_index(entries, key) {
        Some(i) => Some(entries[i].1),
        None => None,
    }
}

/// No key occurs twice.
pub open spec fn distinct_keys(entries: Seq<(Seq<char>, Seq<char>)>) -> bool {
    forall|i: int, j: int|
        0 <= i < j < entries.len() ==> (#[trigger] entries[i]).0 != (#[trigger] entries[j]).0
}

/// `key_index` finds an entry with the key where there is one, and the last
/// such entry; it finds none only where no entry has the key.
pub proof fn lemma_key_index(entries: Seq<(Seq<char>, Seq<char>)>, key: Seq<char>)
    ensures
        match key_index(entries, key) {
            Some(i) => {
                &&& 0 <= i < entries.len()
                &&& entries[i].0 == key
                &&& forall|j: int| i < j < entries.len() ==> (#[trigger] entries[j]).0 != key
            },
            None => forall|j: int| 0 <= j < entries.len() ==> (#[trigger] entries[j]).0 != key,
        },
    decreases entries.len(),
{
    if entries.len() > 0 && entries.last().0 != key {
        let before = entries.drop_last();
        lemma_key_index(before, key);
        match key_index(before, key) {
            Some(i) => {
                assert forall|j: int| i < j < entries.len() implies (#[trigger] entries[j]).0
                    != key by {
                    if j < before.len() {
                        assert(entries[j] == before[j]);
                    }
                }
            },
            None => {
                assert forall|j: int| 0 <= j < entries.len() implies (#[trigger] entries[j]).0
                    != key by {
                    if j < before.len() {
                        assert(entries[j] == before[j]);
                    }
                }
            },
        }
    }
}

/// An entry with the key at a place after which the key does not occur is
/// the one that `key_index` finds.
pub proof fn lemma_key_index_is(entries: Seq<(Seq<char>, Seq<char>)>, key: Seq<char>, i: int)
    requires
        0 <= i < entries.len(),
        entries[i].0 == key,
        forall|j: int| i < j < entries.len() ==> (#[trigger] entries[j]).0 != key,
    ensures
        key_index(entries, key) == Some(i),
{
    lemma_key_index(entries, key);
}

/// Setting a key keeps the keys distinct.
pub proof fn lemma_put_distinct(
    entries: Seq<(Seq<char>, Seq<char>)>,
    key: Seq<char>,
    value: Seq<char>,
)
    requires
        distinct_keys(entries),
    ensures
        distinct_keys(put(entries, key, value)),
{
    lemma_key_index(entries, key);
    let after = put(entries, key, value);
    assert forall|i: int, j: int| 0 <= i < j < after.len() implies (#[trigger] after[i]).0 != (
    #[trigger] after[j]).0 by {
        match key_index(entries, key) {
            Some(k) => {
                assert(after[i].0 == entries[i].0);
                assert(after[j].0 == entries[j].0);
            },
            None => {
                if j < entries.len() {
                    assert(after[i] == entries[i]);
                    assert(after[j] == entries[j]);
                } else {
                    assert(after[i] == entries[i]);
                }
            },
        }
    }
}

/// After a key has been set it has the new value, and every other key has
/// the value that it had.
pub proof fn lemma_put_value(
    entries: Seq<(Seq<char>, Seq<char>)>,
    key: Seq<char>,
    value: Seq<char>,
    other: Seq<char>,
)
    ensures
        value_of(put(entries, key, value), other) == if other == key {
            Some(value)
        } else {
            value_of(entries, other)
        },
{
    let after = put(entries, key, value);
    lemma_key_index(entries, key);
    lemma_key_index(entries, other);
    match key_index(entries, key) {
        Some(k) => {
            if other == key {
                assert forall|j: int| k < j < after.len() implies (#[trigger] after[j]).0
                    != key by {
                    assert(after[j] == entries[j]);
                }
                lemma_key_index_is(after, key, k);
            } else {
                match key_index(entries, other) {
                    Some(m) => {
                        assert(after[m] == entries[m]);
                        assert forall|j: int| m < j < after.len() implies (#[trigger] after[j]).0
                            != other by {
                            assert(after[j].0 == entries[j].0);
                        }
                        lemma_key_index_is(after, other, m);
                    },
                    None => {
                        lemma_key_index(after, other);
                        if let Some(m) = key_index(after, other) {
                            assert(after[m].0 == entries[m].0);
                        }
                    },
                }
            }
        },
        None => {
            assert(after.drop_last() =~= entries);
        },
    }
}

} // verus!
