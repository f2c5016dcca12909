//! Bodies: named fields that hold a text or the path of a file.

use crate::fields::{
    distinct_names, index_of, lemma_position_is, lemma_position_none, lemma_put_distinct, lookup,
    put,
};
use crate::header::HeaderMap;
use vstd::prelude::*;

verus! {

/// The value of a body field.
#[derive(Debug)]
pub enum Data {
    /// The path of a file whose content is the value.
    File(String),
    /// A text.
    String(String),
}

/// A body field's value with its text as characters.
pub enum Field {
    /// The path of a file.
    File(Seq<char>),
    /// A text.
    Text(Seq<char>),
}

impl View for Data {
    type V = Field;

    open spec fn view(&self) -> Field {
        match self {
            Data::File(path) => Field::File(path@),
            Data::String(text) => Field::Text(text@),
        }
    }
}

/// The fields of a vector of named values, each by its view.
pub open spec fn fields_view(fields: Seq<(String, Data)>) -> Seq<(Seq<char>, Field)> {
    fields.map_values(|f: (String, Data)| (f.0@, f.1@))
}

/// The fields of a body by name, in the order in which the names came in.
/// No name occurs twice.
#[derive(Debug)]
pub struct Body {
    fields: Vec<(String, Data)>,
}

impl View for Body {
    type V = Seq<(Seq<char>, Field)>;

    closed spec fn view(&self) -> Seq<(Seq<char>, Field)> {
        fields_view(self.fields@)
    }
}

impl Body {
    #[verifier::type_invariant]
    spec fn names_differ(self) -> bool {
        distinct_names(self@)
    }

    /// A body without fields.
    pub fn new() -> (body: Body)
        ensures
            body@ == Seq::<(Seq<char>, Field)>::empty(),
    {
        let body = Body { fields: Vec::new() };
        assert(body@ =~= Seq::<(Seq<char>, Field)>::empty());
        body
    }

    /// The number of fields.
    pub fn len(&self) -> (n: usize)
        ensures
            n == self@.len(),
            distinct_names(self@),
    {
        proof {
            use_type_invariant(self);
        }
        self.fields.len()
    }

    /// Whether the body is without fields.
    pub fn is_empty(&self) -> (r: bool)
        ensures
            r == (self@.len() == 0),
    {
        self.fields.len() == 0
    }

    /// The name of the field at `i`.
    pub fn name_at(&self, i: usize) -> (name: &String)
        requires
            i < self@.len(),
        ensures
            name@ == self@[i as int].0,
    {
        &self.fields[i].0
    }

    /// The value of the field at `i`.
    pub fn value_at(&self, i: usize) -> (value: &Data)
        requires
            i < self@.len(),
        ensures
            value@ == self@[i as int].1,
    {
        &self.fields[i].1
    }

    /// The value of the field that goes by `name`.
    pub fn get(&self, name: &str) -> (r: Option<&Data>)
        ensures
            match r {
                Some(value) => lookup(self@, name@) == Some(value@),
                None => lookup(self@, name@) is None,
            },
    {
        let found = index_of(&self.fields, name);
        proof {
            match found {
                Some(i) => lemma_position_is(self@, name@, i as int),
                None => lemma_position_none(self@, name@),
            }
        }
        match found {
            Some(i) => Some(&self.fields[i].1),
            None => None,
        }
    }

    /// Puts `value` under `name` and returns the value that it replaces: a
    /// field that goes by `name` keeps its place, a new name goes last.
    pub fn insert(&mut self, name: String, value: Data) -> (previous: Option<Data>)
        ensures
            final(self)@ == put(old(self)@, name@, value@),
            match previous {
                Some(v) => lookup(old(self)@, name@) == Some(v@),
                None => lookup(old(self)@, name@) is None,
            },
    {
        proof {
            use_type_invariant(&*self);
            lemma_put_distinct(self@, name@, value@);
        }
        let ghost before = self@;
        let found = index_of(&self.fields, name.as_str());
        proof {
            match found {
                Some(i) => lemma_position_is(before, name@, i as int),
                None => lemma_position_none(before, name@),
            }
        }
        let mut fields: Vec<(String, Data)> = Vec::new();
        assert(fields_view(fields@) =~= Seq::<(Seq<char>, Field)>::empty());
        std::mem::swap(&mut self.fields, &mut fields);
        let previous = match found {
            Some(i) => {
                let mut entry = (name, value);
                fields.set_and_swap(i, &mut entry);
                Some(entry.1)
            },
            None => {
                fields.push((name, value));
                None
            },
        };
        assert(fields_view(fields@) =~= put(before, name@, value@));
        self.fields = fields;
        previous
    }
}

/// The files that have been read: each content by the path that it was read
/// from.
#[derive(Debug)]
pub struct Files {
    contents: HeaderMap,
}

impl View for Files {
    type V = Seq<(Seq<char>, Seq<char>)>;

    closed spec fn view(&self) -> Seq<(Seq<char>, Seq<char>)> {
        self.contents@
    }
}

impl Files {
    /// No file.
    pub fn new() -> (files: Files)
        ensures
            files@ == Seq::<(Seq<char>, Seq<char>)>::empty(),
    {
        Files { contents: HeaderMap::new() }
    }

    /// Takes `content` as what the file at `path` holds.
    pub fn insert(&mut self, path: String, content: String)
        ensures
            final(self)@ == put(old(self)@, path@, content@),
    {
        self.contents.insert(path, content);
    }

    /// What the file at `path` holds.
    pub fn get(&self, path: &str) -> (r: Option<&String>)
        ensures
            match r {
                Some(content) => lookup(self@, path@) == Some(content@),
                None => lookup(self@, path@) is None,
            },
    {
        self.contents.get(path)
    }
}

/// The paths of the file fields, in the order of the fields.
pub open spec fn file_paths(fields: Seq<(Seq<char>, Field)>) -> Seq<Seq<char>>
    decreases fields.len(),
{
    if fields.len() == 0 {
        Seq::empty()
    } else {
        let front = file_paths(fields.drop_last());
        match fields.last().1 {
            Field::File(path) => front.push(path),
            Field::Text(_) => front,
        }
    }
}

/// The texts of a vector, each by its view.
pub open spec fn texts_view(texts: Seq<String>) -> Seq<Seq<char>> {
    texts.map_values(|t: String| t@)
}

impl Body {
    /// The paths of the file fields, in the order of the fields.
    pub fn paths(&self) -> (paths: Vec<String>)
        ensures
            texts_view(paths@) == file_paths(self@),
    {
        let n = self.len();
        let mut paths: Vec<String> = Vec::new();
        let mut i: usize = 0;
        assert(self@.take(0) =~= Seq::<(Seq<char>, Field)>::empty());
        assert(texts_view(paths@) =~= Seq::<Seq<char>>::empty());
        while i < n
            invariant
                n == self@.len(),
                i <= n,
                texts_view(paths@) == file_paths(self@.take(i as int)),
            decreases n - i,
        {
            proof {
                assert(self@.take(i + 1).drop_last() =~= self@.take(i as int));
                assert(self@.take(i + 1).last() == self@[i as int]);
            }
            let ghost front = texts_view(paths@);
            match self.value_at(i) {
                Data::File(path) => {
                    paths.push(path.clone());
                    assert(texts_view(paths@) =~= front.push(path@));
                },
                Data::String(_) => {},
            }
            i += 1;
        }
        assert(self@.take(n as int) =~= self@);
        paths
    }
}

/// The text fields of a body with their values, in their order.
pub open spec fn text_fields(fields: Seq<(Seq<char>, Field)>) -> Seq<(Seq<char>, Seq<char>)>
    decreases fields.len(),
{
    if fields.len() == 0 {
        Seq::empty()
    } else {
        let front = text_fields(fields.drop_last());
        match fields.last().1 {
            Field::Text(value) => front.push((fields.last().0, value)),
            Field::File(_) => front,
        }
    }
}

} // verus!
