//! Tables keyed by name.
//!
//! A table is a list of entries, each a name with a value, in the order in
//! which the names were first seen. Its model is a sequence of pairs whose
//! first component is the name as a sequence of characters. The spec functions
//! here say what it is to look a name up and to put a value under a name.

use vstd::prelude::*;

verus! {

/// Whether some entry has the name `key`.
pub open spec fn has_key<V>(entries: Seq<(Seq<char>, V)>, key: Seq<char>) -> bool {
    exists|i: int| 0 <= i < entries.len() && (#[trigger] entries[i]).0 == key
}

/// Whether no name occurs twice.
pub open spec fn distinct_keys<V>(entries: Seq<(Seq<char>, V)>) -> bool {
    forall|i: int, j: int|
        0 <= i < j < entries.len() ==> (#[trigger] entries[i]).0 != (#[trigger] entries[j]).0
}

/// The value of the first entry with the name `key`, if there is one.
pub open spec fn lookup<V>(entries: Seq<(Seq<char>, V)>, key: Seq<char>) -> Option<V>
    decreases entries.len(),
{
    if entries.len() == 0 {
        None
    } else if entries[0].0 == key {
        Some(entries[0].1)
    } else {
        lookup(entries.skip(1), key)
    }
}

/// The table in which every entry with the name `key` holds `value`.
pub open spec fn replaced<V>(entries: Seq<(Seq<char>, V)>, key: Seq<char>, value: V) -> Seq<
    (Seq<char>, V),
> {
    entries.map_values(
        |e: (Seq<char>, V)|
            if e.0 == key {
                (key, value)
            } else {
                e
            },
    )
}

/// The table after `value` was put under `key`: in place of the old value if
/// the name was there, as a new last entry if it was not.
pub open spec fn upserted<V>(entries: Seq<(Seq<char>, V)>, key: Seq<char>, value: V) -> Seq<
    (Seq<char>, V),
> {
    if has_key(entries, key) {
        replaced(entries, key, value)
    } else {
        entries.push((key, value))
    }
}

/// Looking a name up gives the value of the first entry under that name.
pub proof fn lemma_lookup_first<V>(entries: Seq<(Seq<char>, V)>, key: Seq<char>, i: int)
    requires
        0 <= i < entries.len(),
        entries[i].0 == key,
        forall|j: int| 0 <= j < i ==> (#[trigger] entries[j]).0 != key,
    ensures
        lookup(entries, key) == Some(entries[i].1),
    decreases i,
{
    if i > 0 {
        let rest = entries.skip(1);
        assert(rest[i - 1] == entries[i]);
        assert forall|j: int| 0 <= j < i - 1 implies (#[trigger] rest[j]).0 != key by {
            assert(rest[j] == entries[j + 1]);
        }
        lemma_lookup_first(rest, key, i - 1);
    }
}

/// A name is found exactly when some entry has it.
pub proof fn lemma_lookup_has_key<V>(entries: Seq<(Seq<char>, V)>, key: Seq<char>)
    ensures
        lookup(entries, key) is Some <==> has_key(entries, key),
    decreases entries.len(),
{
    if entries.len() > 0 {
        let rest = entries.skip(1);
        lemma_lookup_has_key(rest, key);
        if entries[0].0 == key {
            assert(has_key(entries, key));
        } else if has_key(rest, key) {
            let i = choose|i: int| 0 <= i < rest.len() && (#[trigger] rest[i]).0 == key;
            assert(entries[i + 1] == rest[i]);
        } else if has_key(entries, key) {
            let i = choose|i: int| 0 <= i < entries.len() && (#[trigger] entries[i]).0 == key;
            assert(rest[i - 1] == entries[i]);
        }
    }
}

/// In a table without repeated names, the value under a name is the value of
/// the entry that has the name.
pub proof fn lemma_lookup_at<V>(entries: Seq<(Seq<char>, V)>, i: int)
    requires
        distinct_keys(entries),
        0 <= i < entries.len(),
    ensures
        lookup(entries, entries[i].0) == Some(entries[i].1),
{
    lemma_lookup_first(entries, entries[i].0, i);
}

/// After a value was put under a name, looking the name up gives that value,
/// the names are those of before with that name among them, and no name
/// occurs twice if none did before.
pub proof fn lemma_upserted<V>(entries: Seq<(Seq<char>, V)>, key: Seq<char>, value: V)
    requires
        distinct_keys(entries),
    ensures
        distinct_keys(upserted(entries, key, value)),
        lookup(upserted(entries, key, value), key) == Some(value),
        has_key(upserted(entries, key, value), key),
        forall|other: Seq<char>|
            other != key ==> lookup(upserted(entries, key, value), other) == lookup(
                entries,
                other,
            ),
{
    let after = upserted(entries, key, value);
    if has_key(entries, key) {
        let i = choose|i: int| 0 <= i < entries.len() && (#[trigger] entries[i]).0 == key;
        assert(after[i] == (key, value));
        assert forall|a: int, b: int| 0 <= a < b < after.len() implies (#[trigger] after[a]).0 != (
        #[trigger] after[b]).0 by {
            assert(after[a].0 == entries[a].0);
            assert(after[b].0 == entries[b].0);
        }
        lemma_lookup_at(after, i);
    } else {
        let i = entries.len() as int;
        assert(after[i] == (key, value));
        assert forall|a: int, b: int| 0 <= a < b < after.len() implies (#[trigger] after[a]).0 != (
        #[trigger] after[b]).0 by {
            if b < i {
                assert(after[a] == entries[a]);
                assert(after[b] == entries[b]);
            } else {
                assert(after[a] == entries[a]);
            }
        }
        lemma_lookup_at(after, i);
    }
    assert forall|other: Seq<char>| other != key implies lookup(after, other) == lookup(
        entries,
        other,
    ) by {
        lemma_upserted_keeps_others(entries, key, value, other);
    }
}

/// Putting a value under a name leaves what is found under every other name.
pub proof fn lemma_upserted_keeps_others<V>(
    entries: Seq<(Seq<char>, V)>,
    key: Seq<char>,
    value: V,
    other: Seq<char>,
)
    requires
        other != key,
    ensures
        lookup(upserted(entries, key, value), other) == lookup(entries, other),
{
    let after = upserted(entries, key, value);
    lemma_lookup_has_key(entries, other);
    lemma_lookup_has_key(after, other);
    if has_key(entries, other) {
        lemma_first_key(entries, other);
        let i = first_key(entries, other);
        assert(after[i] == entries[i]);
        assert forall|j: int| 0 <= j < i implies (#[trigger] after[j]).0 != other by {
            assert(entries[j].0 != other);
            if j < entries.len() && has_key(entries, key) {
                assert(after[j].0 == entries[j].0);
            }
        }
        lemma_lookup_first(entries, other, i);
        lemma_lookup_first(after, other, i);
    } else {
        if has_key(after, other) {
            let i = choose|i: int| 0 <= i < after.len() && (#[trigger] after[i]).0 == other;
            if i < entries.len() {
                assert(entries[i].0 == other);
            }
        }
    }
}

/// The position of the first entry with the name `key`, or the length of the
/// table if there is none.
pub open spec fn first_key<V>(entries: Seq<(Seq<char>, V)>, key: Seq<char>) -> int
    decreases entries.len(),
{
    if entries.len() == 0 || entries[0].0 == key {
        0
    } else {
        1 + first_key(entries.skip(1), key)
    }
}

/// The first position of a name: no entry before it has the name, and the
/// entry there has it if any entry does.
pub proof fn lemma_first_key<V>(entries: Seq<(Seq<char>, V)>, key: Seq<char>)
    ensures
        0 <= first_key(entries, key) <= entries.len(),
        forall|j: int| 0 <= j < first_key(entries, key) ==> (#[trigger] entries[j]).0 != key,
        has_key(entries, key) ==> first_key(entries, key) < entries.len() && entries[first_key(
            entries,
            key,
        )].0 == key,
    decreases entries.len(),
{
    if entries.len() == 0 || entries[0].0 == key {
    } else {
        let rest = entries.skip(1);
        lemma_first_key(rest, key);
        let k = first_key(rest, key);
        assert forall|j: int| 0 <= j < 1 + k implies (#[trigger] entries[j]).0 != key by {
            if j > 0 {
                assert(rest[j - 1] == entries[j]);
            }
        }
        if has_key(entries, key) {
            let i = choose|i: int| 0 <= i < entries.len() && (#[trigger] entries[i]).0 == key;
            assert(rest[i - 1] == entries[i]);
            assert(has_key(rest, key));
            assert(entries[1 + k] == rest[k]);
        }
    }
}

/// The position of the first entry of `entries` whose name is `key`.
pub fn position<V>(entries: &Vec<(String, V)>, key: &String) -> (found: Option<usize>)
    ensures
        match found {
            Some(i) => i < entries.len() && entries[i as int].0@ == key@ && forall|j: int|
                0 <= j < i ==> (#[trigger] entries[j]).0@ != key@,
            None => forall|j: int| 0 <= j < entries.len() ==> (#[trigger] entries[j]).0@ != key@,
        },
{
    let mut i: usize = 0;
    while i < entries.len()
        invariant
            i <= entries.len(),
            forall|j: int| 0 <= j < i ==> (#[trigger] entries[j]).0@ != key@,
        decreases entries.len() - i,
    {
        if entries[i].0 == *key {
            return Some(i);
        }
        i += 1;
    }
    None
}

} // verus!
