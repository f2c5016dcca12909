//! The body as a JSON object.

use crate::body::{text_fields, Body, Data, Field};
use crate::err::HttpError;
use crate::header::pairs_view;
use vstd::prelude::*;

verus! {

/// The JSON object that the serializer writes for these members: each name
/// with its value as a JSON string.
pub uninterp spec fn json_object_text(members: Seq<(Seq<char>, Seq<char>)>) -> Seq<char>;

/// `serde_json::to_string` on the map from each member's name to its value.
/// The map is ordered by name, and the serializer reads nothing else, so
/// that what it writes is a function of the members: `json_object_text`.
/// It does not fail: it writes into a vector, which takes every byte, and
/// names and values that are text give it no other ground to give up.
#[verifier::external_body]
fn json_object(members: &Vec<(String, String)>) -> (r: Result<String, serde_json::Error>)
    ensures
        r is Ok,
        r matches Ok(text) ==> text@ == json_object_text(pairs_view(members@)),
{
    let object: std::collections::BTreeMap<&str, &str> = members.iter().map(
        |m| (m.0.as_str(), m.1.as_str()),
    ).collect();
    serde_json::to_string(&object)
}

/// What comes of the serializer's answer: its text, or the error that it
/// gave up with.
pub fn json_outcome(answer: Result<String, serde_json::Error>) -> (r: Result<String, HttpError>)
    ensures
        match answer {
            Ok(text) => r == Ok::<String, HttpError>(text),
            Err(err) => r == Err::<String, HttpError>(HttpError::Json(err)),
        },
{
    match answer {
        Ok(text) => Ok(text),
        Err(err) => Err(HttpError::from(err)),
    }
}

/// The text fields of the body as one JSON object. File fields are left
/// out.
pub fn json_body(body: &Body) -> (r: Result<String, HttpError>)
    ensures
        r matches Ok(text) && text@ == json_object_text(text_fields(body@)),
{
    let n = body.len();
    let mut members: Vec<(String, String)> = Vec::new();
    let mut i: usize = 0;
    assert(body@.take(0) =~= Seq::<(Seq<char>, Field)>::empty());
    assert(pairs_view(members@) =~= Seq::<(Seq<char>, Seq<char>)>::empty());
    while i < n
        invariant
            n == body@.len(),
            i <= n,
            pairs_view(members@) == text_fields(body@.take(i as int)),
        decreases n - i,
    {
        proof {
            assert(body@.take(i + 1).drop_last() =~= body@.take(i as int));
            assert(body@.take(i + 1).last() == body@[i as int]);
        }
        let ghost front = pairs_view(members@);
        match body.value_at(i) {
            Data::String(value) => {
                members.push((body.name_at(i).clone(), value.clone()));
                assert(pairs_view(members@) =~= front.push((body@[i as int].0, value@)));
            },
            Data::File(_) => {},
        }
        i += 1;
    }
    assert(body@.take(n as int) =~= body@);
    json_outcome(json_object(&members))
}

} // verus!
