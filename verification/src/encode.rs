//! The body of a request in the encoding of its content type.

use crate::body::{text_fields, Body, Files};
use crate::consts::{lemma_words_differ, C_FORM, C_MULTIPART, H_CTYPE};
use crate::err::HttpError;
use crate::fields::put;
use crate::form::{form_text, urlencoded_body};
use crate::header::HeaderMap;
use crate::json::{json_body, json_object_text};
use crate::multipart::{
    boundary_type, encodes, file_names_of, multipart_body, multipart_text, names_of_fields,
    names_view,
};
use crate::text::same_text;
use vstd::prelude::*;

verus! {

/// The body that goes with the content type `c_type`, with `b` as the
/// boundary of a multipart body, whose `Content-Type` header then tells it.
/// A file field has the content that `files` holds for its path, under the
/// file name that its path ends in.
pub fn create_body(
    c_type: &str,
    body: &Body,
    header: &mut HeaderMap,
    b: &str,
    files: &Files,
) -> (r: Result<String, HttpError>)
    ensures
        c_type@ == C_FORM@ ==> {
            &&& final(header)@ == old(header)@
            &&& r matches Ok(text)
            &&& text@ == form_text(body@)
        },
        c_type@ == C_MULTIPART@ ==> {
            &&& final(header)@ == put(old(header)@, H_CTYPE@, boundary_type(b@))
            &&& exists|file_names: Seq<Option<Seq<char>>>|
                names_of_fields(body@, file_names) && encodes(
                    r,
                    #[trigger] multipart_text(b@, body@, file_names, files@),
                )
        },
        c_type@ != C_FORM@ && c_type@ != C_MULTIPART@ ==> {
            &&& final(header)@ == old(header)@
            &&& r matches Ok(text)
            &&& text@ == json_object_text(text_fields(body@))
        },
{
    proof {
        lemma_words_differ();
    }
    if same_text(c_type, C_FORM) {
        Ok(urlencoded_body(body))
    } else if same_text(c_type, C_MULTIPART) {
        let mut value = C_MULTIPART.to_owned();
        value.append("; boundary=");
        value.append(b);
        assert(value@ =~= boundary_type(b@));
        header.insert(H_CTYPE.to_owned(), value);
        let file_names = file_names_of(body);
        let r = multipart_body(b, body, &file_names, files);
        proof {
            let names = names_view(file_names@);
            assert(names_of_fields(body@, names));
            assert(encodes(r, multipart_text(b@, body@, names, files@)));
        }
        r
    } else {
        json_body(body)
    }
}

} // verus!
