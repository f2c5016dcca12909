//! Header maps, and the defaults that every request carries.

use crate::consts::{
    lemma_words_differ, C_FORM, C_JSON, C_MULTIPART, DEF_ACCEPT, DEF_CONN, H_ACCPT, H_CONN,
    H_CTYPE, H_HOST, JOIN,
};
use crate::fields::{
    distinct_names, has_name, index_of, lemma_has_name, lemma_lookup_put, lemma_position_from,
    lemma_position_is, lemma_position_none, lemma_put_distinct, lookup, position, put,
};
use crate::text::same_text;
use vstd::prelude::*;

verus! {

/// The entries of a vector of header pairs, each text by its view.
pub open spec fn pairs_view(pairs: Seq<(String, String)>) -> Seq<(Seq<char>, Seq<char>)> {
    pairs.map_values(|p: (String, String)| (p.0@, p.1@))
}

/// Index of the first entry at `from` or later whose value is `value`.
pub open spec fn value_position_from(
    entries: Seq<(Seq<char>, Seq<char>)>,
    value: Seq<char>,
    from: int,
) -> Option<int>
    decreases entries.len() - from,
{
    if from < 0 || from >= entries.len() {
        None
    } else if entries[from].1 == value {
        Some(from)
    } else {
        value_position_from(entries, value, from + 1)
    }
}

/// Index of the first entry whose value is `value`.
pub open spec fn value_position(entries: Seq<(Seq<char>, Seq<char>)>, value: Seq<char>) -> Option<
    int,
> {
    value_position_from(entries, value, 0)
}

/// What `value_position_from` returns is the least index from `from` on
/// whose entry holds `value`, and it returns `None` only where there is none.
pub proof fn lemma_value_position_from(
    entries: Seq<(Seq<char>, Seq<char>)>,
    value: Seq<char>,
    from: int,
)
    requires
        0 <= from,
    ensures
        match value_position_from(entries, value, from) {
            Some(i) => {
                &&& from <= i < entries.len()
                &&& entries[i].1 == value
                &&& forall|j: int| from <= j < i ==> entries[j].1 != value
            },
            None => forall|j: int| from <= j < entries.len() ==> entries[j].1 != value,
        },
    decreases entries.len() - from,
{
    if from < entries.len() && entries[from].1 != value {
        lemma_value_position_from(entries, value, from + 1);
    }
}

/// Header names with their values, in the order in which the names came in.
/// No name occurs twice.
#[derive(Debug)]
pub struct HeaderMap {
    entries: Vec<(String, String)>,
}

impl View for HeaderMap {
    type V = Seq<(Seq<char>, Seq<char>)>;

    closed spec fn view(&self) -> Seq<(Seq<char>, Seq<char>)> {
        pairs_view(self.entries@)
    }
}

impl HeaderMap {
    #[verifier::type_invariant]
    spec fn names_differ(self) -> bool {
        distinct_names(self@)
    }

    /// A map without entries.
    pub fn new() -> (map: HeaderMap)
        ensures
            map@ == Seq::<(Seq<char>, Seq<char>)>::empty(),
    {
        let map = HeaderMap { entries: Vec::new() };
        assert(map@ =~= Seq::<(Seq<char>, Seq<char>)>::empty());
        map
    }

    /// The number of entries.
    pub fn len(&self) -> (n: usize)
        ensures
            n == self@.len(),
            distinct_names(self@),
    {
        proof {
            use_type_invariant(self);
        }
        self.entries.len()
    }

    /// Whether the map is without entries.
    pub fn is_empty(&self) -> (r: bool)
        ensures
            r == (self@.len() == 0),
    {
        self.entries.len() == 0
    }

    /// The name of the entry at `i`.
    pub fn name_at(&self, i: usize) -> (name: &String)
        requires
            i < self@.len(),
        ensures
            name@ == self@[i as int].0,
    {
        &self.entries[i].0
    }

    /// The value of the entry at `i`.
    pub fn value_at(&self, i: usize) -> (value: &String)
        requires
            i < self@.len(),
        ensures
            value@ == self@[i as int].1,
    {
        &self.entries[i].1
    }

    /// The index of the entry that goes by `name`.
    pub fn position(&self, name: &str) -> (r: Option<usize>)
        ensures
            match r {
                Some(i) => position(self@, name@) == Some(i as int) && i < self@.len(),
                None => position(self@, name@) is None,
            },
    {
        let found = index_of(&self.entries, name);
        proof {
            match found {
                Some(i) => lemma_position_is(self@, name@, i as int),
                None => lemma_position_none(self@, name@),
            }
        }
        found
    }

    /// Whether an entry goes by `name`.
    pub fn contains_key(&self, name: &str) -> (r: bool)
        ensures
            r == (lookup(self@, name@) is Some),
    {
        self.position(name).is_some()
    }

    /// The value held under `name`.
    pub fn get(&self, name: &str) -> (r: Option<&String>)
        ensures
            match r {
                Some(value) => lookup(self@, name@) == Some(value@),
                None => lookup(self@, name@) is None,
            },
    {
        match self.position(name) {
            Some(i) => Some(&self.entries[i].1),
            None => None,
        }
    }

    /// The index of the first entry that holds `value`.
    pub fn position_of_value(&self, value: &str) -> (r: Option<usize>)
        ensures
            match r {
                Some(i) => value_position(self@, value@) == Some(i as int) && i < self@.len(),
                None => value_position(self@, value@) is None,
            },
    {
        let key = value.to_owned();
        let n = self.entries.len();
        let mut i: usize = 0;
        while i < n
            invariant
                n == self.entries@.len(),
                i <= n,
                key@ == value@,
                forall|j: int| 0 <= j < i ==> self@[j].1 != value@,
            decreases n - i,
        {
            if self.entries[i].1 == key {
                proof {
                    assert(self@[i as int].1 == value@);
                    lemma_value_position_from(self@, value@, 0);
                }
                return Some(i);
            }
            i += 1;
        }
        proof {
            lemma_value_position_from(self@, value@, 0);
        }
        None
    }

    /// Puts `value` in the place of the value of the entry at `i`.
    pub fn set_value(&mut self, i: usize, value: String)
        requires
            i < old(self)@.len(),
        ensures
            final(self)@ == old(self)@.update(i as int, (old(self)@[i as int].0, value@)),
    {
        proof {
            use_type_invariant(&*self);
        }
        let ghost before = self@;
        let mut entries: Vec<(String, String)> = Vec::new();
        assert(pairs_view(entries@) =~= Seq::<(Seq<char>, Seq<char>)>::empty());
        std::mem::swap(&mut self.entries, &mut entries);
        let name = entries[i].0.clone();
        entries.set(i, (name, value));
        assert(pairs_view(entries@) =~= before.update(i as int, (before[i as int].0, value@)));
        self.entries = entries;
    }

    /// Puts `value` under `name` and returns the value that it replaces: an
    /// entry that goes by `name` keeps its place, a new name goes last.
    pub fn insert(&mut self, name: String, value: String) -> (previous: Option<String>)
        ensures
            final(self)@ == put(old(self)@, name@, value@),
            match previous {
                Some(v) => lookup(old(self)@, name@) == Some(v@),
                None => lookup(old(self)@, name@) is None,
            },
    {
        proof {
            use_type_invariant(&*self);
            lemma_put_distinct(self@, name@, value@);
        }
        let ghost before = self@;
        let found = self.position(name.as_str());
        let mut entries: Vec<(String, String)> = Vec::new();
        assert(pairs_view(entries@) =~= Seq::<(Seq<char>, Seq<char>)>::empty());
        std::mem::swap(&mut self.entries, &mut entries);
        let previous = match found {
            Some(i) => {
                let previous = entries[i].1.clone();
                entries.set(i, (name, value));
                Some(previous)
            },
            None => {
                entries.push((name, value));
                None
            },
        };
        assert(pairs_view(entries@) =~= put(before, name@, value@));
        self.entries = entries;
        previous
    }
}

/// The entries after one more caller header came in: a header whose value
/// an entry already holds is joined onto that entry, the first such; any
/// other is put under its own name.
pub open spec fn merge_by_value(
    entries: Seq<(Seq<char>, Seq<char>)>,
    name: Seq<char>,
    value: Seq<char>,
) -> Seq<(Seq<char>, Seq<char>)> {
    match value_position(entries, value) {
        Some(i) => entries.update(i, (entries[i].0, entries[i].1 + JOIN@ + value)),
        None => put(entries, name, value),
    }
}

/// The caller's headers, taken in one by one through `merge_by_value`.
pub open spec fn merged(headers: Seq<(Seq<char>, Seq<char>)>) -> Seq<(Seq<char>, Seq<char>)>
    decreases headers.len(),
{
    if headers.len() == 0 {
        Seq::empty()
    } else {
        merge_by_value(merged(headers.drop_last()), headers.last().0, headers.last().1)
    }
}

/// `entries` with `value` under `name` unless the name is taken.
pub open spec fn with_default(
    entries: Seq<(Seq<char>, Seq<char>)>,
    name: Seq<char>,
    value: Seq<char>,
) -> Seq<(Seq<char>, Seq<char>)> {
    if has_name(entries, name) {
        entries
    } else {
        entries.push((name, value))
    }
}

/// One of the three content types for which there is an encoding.
pub open spec fn recognized(content_type: Seq<char>) -> bool {
    content_type == C_JSON@ || content_type == C_FORM@ || content_type == C_MULTIPART@
}

/// The caller's headers merged, with `Host`, `Accept` and `Connection`
/// where the caller gave none.
pub open spec fn with_defaults(headers: Seq<(Seq<char>, Seq<char>)>, host: Seq<char>) -> Seq<
    (Seq<char>, Seq<char>),
> {
    with_default(
        with_default(with_default(merged(headers), H_HOST@, host), H_ACCPT@, DEF_ACCEPT@),
        H_CONN@,
        DEF_CONN@,
    )
}

/// The headers of a request, and the content type that the caller asked
/// for: empty where the caller named none, JSON where the one named is not
/// recognized.
pub open spec fn normalized(headers: Seq<(Seq<char>, Seq<char>)>, host: Seq<char>) -> (
    Seq<(Seq<char>, Seq<char>)>,
    Seq<char>,
) {
    let entries = with_defaults(headers, host);
    match lookup(entries, H_CTYPE@) {
        Some(content_type) => if recognized(content_type) {
            (entries, content_type)
        } else {
            (put(entries, H_CTYPE@, C_JSON@), C_JSON@)
        },
        None => (entries.push((H_CTYPE@, C_JSON@)), Seq::empty()),
    }
}

/// Merging brings in no name that the caller did not give.
pub proof fn lemma_merged_names(headers: Seq<(Seq<char>, Seq<char>)>, name: Seq<char>)
    requires
        has_name(merged(headers), name),
    ensures
        has_name(headers, name),
    decreases headers.len(),
{
    let all = merged(headers);
    lemma_has_name(all, name);
    if headers.len() > 0 {
        let front = headers.drop_last();
        let prev = merged(front);
        let last = headers.last();
        let i = choose|i: int| 0 <= i < all.len() && (#[trigger] all[i]).0 == name;
        lemma_value_position_from(prev, last.1, 0);
        lemma_position_from(prev, last.0, 0);
        lemma_has_name(prev, name);
        lemma_has_name(front, name);
        lemma_has_name(headers, name);
        if i < prev.len() && prev[i].0 == name {
            lemma_merged_names(front, name);
            let j = choose|j: int| 0 <= j < front.len() && (#[trigger] front[j]).0 == name;
            assert(headers[j].0 == name);
        } else {
            assert(last.0 == name);
            assert(headers[headers.len() - 1].0 == name);
        }
    }
}

/// Merging keeps names distinct.
pub proof fn lemma_merged_distinct(headers: Seq<(Seq<char>, Seq<char>)>)
    ensures
        distinct_names(merged(headers)),
    decreases headers.len(),
{
    if headers.len() > 0 {
        let prev = merged(headers.drop_last());
        let last = headers.last();
        lemma_merged_distinct(headers.drop_last());
        lemma_value_position_from(prev, last.1, 0);
        lemma_put_distinct(prev, last.0, last.1);
    }
}

/// A default takes the place that it is for and leaves every other name as
/// it was.
pub proof fn lemma_with_default(
    entries: Seq<(Seq<char>, Seq<char>)>,
    name: Seq<char>,
    value: Seq<char>,
    other: Seq<char>,
)
    ensures
        has_name(with_default(entries, name, value), name),
        other != name ==> lookup(with_default(entries, name, value), other) == lookup(
            entries,
            other,
        ),
        !has_name(entries, name) ==> lookup(with_default(entries, name, value), name) == Some(
            value,
        ),
        has_name(entries, name) ==> lookup(with_default(entries, name, value), name) == lookup(
            entries,
            name,
        ),
        distinct_names(entries) ==> distinct_names(with_default(entries, name, value)),
{
    lemma_position_from(entries, name, 0);
    if !has_name(entries, name) {
        assert(with_default(entries, name, value) == put(entries, name, value));
        lemma_lookup_put(entries, name, value, other);
        if distinct_names(entries) {
            lemma_put_distinct(entries, name, value);
        }
    }
}

/// Every request carries `Host`, `Accept`, `Connection` and a recognized
/// `Content-Type`, each once. The content type that is told is the one that
/// the request carries, or empty.
pub proof fn lemma_normalized(headers: Seq<(Seq<char>, Seq<char>)>, host: Seq<char>)
    ensures
        distinct_names(normalized(headers, host).0),
        has_name(normalized(headers, host).0, H_HOST@),
        has_name(normalized(headers, host).0, H_ACCPT@),
        has_name(normalized(headers, host).0, H_CONN@),
        lookup(normalized(headers, host).0, H_CTYPE@) matches Some(content_type) && recognized(
            content_type,
        ) && (normalized(headers, host).1 == content_type || normalized(headers, host).1
            == Seq::<char>::empty()),
        !has_name(headers, H_HOST@) ==> lookup(normalized(headers, host).0, H_HOST@) == Some(
            host,
        ),
{
    lemma_words_differ();
    let a = merged(headers);
    let b = with_default(a, H_HOST@, host);
    let c = with_default(b, H_ACCPT@, DEF_ACCEPT@);
    let d = with_default(c, H_CONN@, DEF_CONN@);
    lemma_merged_distinct(headers);
    if has_name(a, H_HOST@) {
        lemma_merged_names(headers, H_HOST@);
    }
    lemma_with_default(a, H_HOST@, host, H_HOST@);
    lemma_with_default(b, H_ACCPT@, DEF_ACCEPT@, H_HOST@);
    lemma_with_default(c, H_CONN@, DEF_CONN@, H_HOST@);
    lemma_with_default(c, H_CONN@, DEF_CONN@, H_ACCPT@);
    let e = normalized(headers, host).0;
    lemma_position_from(d, H_CTYPE@, 0);
    match lookup(d, H_CTYPE@) {
        Some(content_type) => {
            if !recognized(content_type) {
                lemma_lookup_put(d, H_CTYPE@, C_JSON@, H_HOST@);
                lemma_lookup_put(d, H_CTYPE@, C_JSON@, H_ACCPT@);
                lemma_lookup_put(d, H_CTYPE@, C_JSON@, H_CONN@);
                lemma_put_distinct(d, H_CTYPE@, C_JSON@);
            }
        },
        None => {
            assert(e == put(d, H_CTYPE@, C_JSON@));
            lemma_lookup_put(d, H_CTYPE@, C_JSON@, H_HOST@);
            lemma_lookup_put(d, H_CTYPE@, C_JSON@, H_ACCPT@);
            lemma_lookup_put(d, H_CTYPE@, C_JSON@, H_CONN@);
            lemma_put_distinct(d, H_CTYPE@, C_JSON@);
        },
    }
}

/// Headers that name no content type come out with the JSON one, and the
/// content type that is told is empty.
pub proof fn lemma_default_content_type(headers: Seq<(Seq<char>, Seq<char>)>, host: Seq<char>)
    requires
        !has_name(headers, H_CTYPE@),
    ensures
        lookup(normalized(headers, host).0, H_CTYPE@) == Some(C_JSON@),
        normalized(headers, host).1 == Seq::<char>::empty(),
{
    lemma_words_differ();
    let a = merged(headers);
    let b = with_default(a, H_HOST@, host);
    let c = with_default(b, H_ACCPT@, DEF_ACCEPT@);
    let d = with_default(c, H_CONN@, DEF_CONN@);
    if has_name(a, H_CTYPE@) {
        lemma_merged_names(headers, H_CTYPE@);
    }
    lemma_with_default(a, H_HOST@, host, H_CTYPE@);
    lemma_with_default(b, H_ACCPT@, DEF_ACCEPT@, H_CTYPE@);
    lemma_with_default(c, H_CONN@, DEF_CONN@, H_CTYPE@);
    assert(lookup(d, H_CTYPE@) is None);
    assert(normalized(headers, host).0 == put(d, H_CTYPE@, C_JSON@));
    lemma_lookup_put(d, H_CTYPE@, C_JSON@, H_CTYPE@);
}

/// Whether `content_type` is one for which there is an encoding.
pub fn is_recognized(content_type: &str) -> (r: bool)
    ensures
        r == recognized(content_type@),
{
    same_text(content_type, C_JSON) || same_text(content_type, C_FORM) || same_text(
        content_type,
        C_MULTIPART,
    )
}

/// Puts `value` under `name` unless the name is taken.
fn insert_default(data: &mut HeaderMap, name: &str, value: &str)
    ensures
        final(data)@ == with_default(old(data)@, name@, value@),
{
    if !data.contains_key(name) {
        data.insert(name.to_owned(), value.to_owned());
    }
}

/// Makes the headers of a request from those of the caller, and tells the
/// content type that the caller asked for.
pub fn organize_header(header: &HeaderMap, host: &str) -> (r: (HeaderMap, String))
    ensures
        r.0@ == normalized(header@, host@).0,
        r.1@ == normalized(header@, host@).1,
        has_name(r.0@, H_HOST@),
        has_name(r.0@, H_ACCPT@),
        has_name(r.0@, H_CONN@),
        lookup(r.0@, H_CTYPE@) matches Some(content_type) && recognized(content_type) && (r.1@
            == content_type || r.1@ == Seq::<char>::empty()),
        !has_name(header@, H_CTYPE@) ==> lookup(r.0@, H_CTYPE@) == Some(C_JSON@) && r.1@
            == Seq::<char>::empty(),
{
    proof {
        lemma_normalized(header@, host@);
        if !has_name(header@, H_CTYPE@) {
            lemma_default_content_type(header@, host@);
        }
    }
    let mut data = HeaderMap::new();
    let n = header.len();
    let mut i: usize = 0;
    assert(header@.take(0) =~= Seq::<(Seq<char>, Seq<char>)>::empty());
    while i < n
        invariant
            n == header@.len(),
            i <= n,
            data@ == merged(header@.take(i as int)),
        decreases n - i,
    {
        let name = header.name_at(i);
        let value = header.value_at(i);
        proof {
            assert(header@.take(i + 1).drop_last() =~= header@.take(i as int));
            assert(header@.take(i + 1).last() == header@[i as int]);
        }
        match data.position_of_value(value.as_str()) {
            Some(k) => {
                let mut joined = data.value_at(k).clone();
                joined.append(JOIN);
                joined.append(value.as_str());
                data.set_value(k, joined);
            },
            None => {
                data.insert(name.clone(), value.clone());
            },
        }
        i += 1;
    }
    assert(header@.take(n as int) =~= header@);
    insert_default(&mut data, H_HOST, host);
    insert_default(&mut data, H_ACCPT, DEF_ACCEPT);
    insert_default(&mut data, H_CONN, DEF_CONN);
    let found = match data.get(H_CTYPE) {
        Some(value) => Some(value.clone()),
        None => None,
    };
    let content_type = match found {
        Some(value) => {
            if is_recognized(value.as_str()) {
                value
            } else {
                data.insert(H_CTYPE.to_owned(), C_JSON.to_owned());
                C_JSON.to_owned()
            }
        },
        None => {
            proof {
                lemma_position_from(data@, H_CTYPE@, 0);
            }
            data.insert(H_CTYPE.to_owned(), C_JSON.to_owned());
            String::new()
        },
    };
    (data, content_type)
}

} // verus!
