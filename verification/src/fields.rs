//! Named entries in the order of their insertion.
//!
//! Header maps and bodies are sequences of `(name, value)` entries in which
//! no name occurs twice. The order is that of insertion, so that what is
//! written from such a sequence is the same on every run.

use vstd::prelude::*;

verus! {

/// Index of the first entry at `from` or later that goes by `name`.
pub open spec fn position_from<V>(entries: Seq<(Seq<char>, V)>, name: Seq<char>, from: int) -> Option<
    int,
>
    decreases entries.len() - from,
{
    if from < 0 || from >= entries.len() {
        None
    } else if entries[from].0 == name {
        Some(from)
    } else {
        position_from(entries, name, from + 1)
    }
}

/// Index of the first entry that goes by `name`.
pub open spec fn position<V>(entries: Seq<(Seq<char>, V)>, name: Seq<char>) -> Option<int> {
    position_from(entries, name, 0)
}

/// Some entry goes by `name`.
pub open spec fn has_name<V>(entries: Seq<(Seq<char>, V)>, name: Seq<char>) -> bool {
    position(entries, name) is Some
}

/// The value held under `name`.
pub open spec fn lookup<V>(entries: Seq<(Seq<char>, V)>, name: Seq<char>) -> Option<V> {
    match position(entries, name) {
        Some(i) => Some(entries[i].1),
        None => None,
    }
}

/// `entries` with `value` under `name`: in the place of the value that was
/// there, or as a new last entry.
pub open spec fn put<V>(entries: Seq<(Seq<char>, V)>, name: Seq<char>, value: V) -> Seq<
    (Seq<char>, V),
> {
    match position(entries, name) {
        Some(i) => entries.update(i, (name, value)),
        None => entries.push((name, value)),
    }
}

/// No name occurs twice.
pub open spec fn distinct_names<V>(entries: Seq<(Seq<char>, V)>) -> bool {
    forall|i: int, j: int| 0 <= i < j < entries.len() ==> entries[i].0 != entries[j].0
}

/// What `position_from` returns is the least index from `from` on whose
/// entry goes by `name`, and it returns `None` only where there is none.
pub proof fn lemma_position_from<V>(entries: Seq<(Seq<char>, V)>, name: Seq<char>, from: int)
    requires
        0 <= from,
    ensures
        match position_from(entries, name, from) {
            Some(i) => {
                &&& from <= i < entries.len()
                &&& entries[i].0 == name
                &&& forall|j: int| from <= j < i ==> entries[j].0 != name
            },
            None => forall|j: int| from <= j < entries.len() ==> entries[j].0 != name,
        },
    decreases entries.len() - from,
{
    if from < entries.len() && entries[from].0 != name {
        lemma_position_from(entries, name, from + 1);
    }
}

/// The first index whose entry goes by `name` is what `position` returns.
pub proof fn lemma_position_is<V>(entries: Seq<(Seq<char>, V)>, name: Seq<char>, i: int)
    requires
        0 <= i < entries.len(),
        entries[i].0 == name,
        forall|j: int| 0 <= j < i ==> entries[j].0 != name,
    ensures
        position(entries, name) == Some(i),
{
    lemma_position_from(entries, name, 0);
}

/// Where no entry goes by `name`, `position` returns `None`.
pub proof fn lemma_position_none<V>(entries: Seq<(Seq<char>, V)>, name: Seq<char>)
    requires
        forall|j: int| 0 <= j < entries.len() ==> entries[j].0 != name,
    ensures
        position(entries, name) is None,
{
    lemma_position_from(entries, name, 0);
}

/// A name is taken where some entry goes by it.
pub proof fn lemma_has_name<V>(entries: Seq<(Seq<char>, V)>, name: Seq<char>)
    ensures
        has_name(entries, name) <==> exists|i: int|
            0 <= i < entries.len() && (#[trigger] entries[i]).0 == name,
{
    lemma_position_from(entries, name, 0);
}

/// `put` keeps names distinct.
pub proof fn lemma_put_distinct<V>(entries: Seq<(Seq<char>, V)>, name: Seq<char>, value: V)
    requires
        distinct_names(entries),
    ensures
        distinct_names(put(entries, name, value)),
{
    lemma_position_from(entries, name, 0);
}

/// After `put`, `name` holds `value` and every other name holds what it
/// held.
pub proof fn lemma_lookup_put<V>(
    entries: Seq<(Seq<char>, V)>,
    name: Seq<char>,
    value: V,
    other: Seq<char>,
)
    ensures
        lookup(put(entries, name, value), name) == Some(value),
        other != name ==> lookup(put(entries, name, value), other) == lookup(entries, other),
{
    let after = put(entries, name, value);
    lemma_position_from(entries, name, 0);
    lemma_position_from(entries, other, 0);
    match position(entries, name) {
        Some(i) => {
            lemma_position_is(after, name, i);
        },
        None => {
            lemma_position_is(after, name, entries.len() as int);
        },
    }
    if other != name {
        match position(entries, other) {
            Some(k) => {
                lemma_position_is(after, other, k);
            },
            None => {
                lemma_position_none(after, other);
            },
        }
    }
}

/// Index of the first entry of `entries` that goes by `name`.
pub fn index_of<V>(entries: &Vec<(String, V)>, name: &str) -> (r: Option<usize>)
    ensures
        match r {
            Some(i) => {
                &&& i < entries@.len()
                &&& entries@[i as int].0@ == name@
                &&& forall|j: int| 0 <= j < i ==> entries@[j].0@ != name@
            },
            None => forall|j: int| 0 <= j < entries@.len() ==> entries@[j].0@ != name@,
        },
{
    let key = name.to_owned();
    let n = entries.len();
    let mut i: usize = 0;
    while i < n
        invariant
            n == entries@.len(),
            i <= n,
            key@ == name@,
            forall|j: int| 0 <= j < i ==> entries@[j].0@ != name@,
        decreases n - i,
    {
        if entries[i].0 == key {
            return Some(i);
        }
        i += 1;
    }
    None
}

} // verus!
