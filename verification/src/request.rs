//! The text of a request.

use crate::consts::{HTTP_VERSION, H_CLEN, M_POST, M_PUT, SEP};
use crate::fields::put;
use crate::header::HeaderMap;
use crate::number::{decimal, decimal_string};
use crate::text::same_text;
use vstd::prelude::*;
use vstd::utf8::encode_utf8;

verus! {

/// The headers as lines: `name: value`, each with a line separator behind
/// it.
pub open spec fn header_lines(entries: Seq<(Seq<char>, Seq<char>)>) -> Seq<char>
    decreases entries.len(),
{
    if entries.len() == 0 {
        Seq::empty()
    } else {
        header_lines(entries.drop_last()) + entries.last().0 + ": "@ + entries.last().1 + SEP@
    }
}

/// The method is one that carries a body.
pub open spec fn bears_body(method: Seq<char>) -> bool {
    method == M_POST@ || method == M_PUT@
}

/// The length of a body as the `Content-Length` header tells it: the number
/// of bytes of its UTF-8 form, in decimal digits.
pub open spec fn content_length(body: Seq<char>) -> Seq<char> {
    decimal(encode_utf8(body).len())
}

/// The headers that go out: with the length of the body where the method
/// carries one.
pub open spec fn sent_headers(
    method: Seq<char>,
    headers: Seq<(Seq<char>, Seq<char>)>,
    body: Seq<char>,
) -> Seq<(Seq<char>, Seq<char>)> {
    if bears_body(method) {
        put(headers, H_CLEN@, content_length(body))
    } else {
        headers
    }
}

/// The request as it goes over the wire: request line, headers, a blank
/// line, and the body.
pub open spec fn request_text(
    method: Seq<char>,
    target: Seq<char>,
    headers: Seq<(Seq<char>, Seq<char>)>,
    body: Seq<char>,
) -> Seq<char> {
    method + " "@ + target + " "@ + HTTP_VERSION@ + SEP@ + header_lines(
        sent_headers(method, headers, body),
    ) + SEP@ + body
}

/// Whether the method is one that carries a body.
pub fn is_body_method(method: &str) -> (r: bool)
    ensures
        r == bears_body(method@),
{
    same_text(method, M_POST) || same_text(method, M_PUT)
}

/// Puts a request together from its method, its target, its headers and its
/// body.
pub fn assemble(method: &str, target: &str, headers: HeaderMap, body: &str) -> (text: String)
    ensures
        text@ == request_text(method@, target@, headers@, body@),
{
    let mut headers = headers;
    let ghost given = headers@;
    if is_body_method(method) {
        let length = decimal_string(body.as_bytes().len() as u64);
        headers.insert(H_CLEN.to_owned(), length);
    }
    let ghost sent = headers@;
    assert(sent == sent_headers(method@, given, body@));
    let mut text = method.to_owned();
    text.append(" ");
    text.append(target);
    text.append(" ");
    text.append(HTTP_VERSION);
    text.append(SEP);
    let ghost top = text@;
    let n = headers.len();
    let mut i: usize = 0;
    assert(sent.take(0) =~= Seq::<(Seq<char>, Seq<char>)>::empty());
    assert(text@ =~= top + header_lines(sent.take(0)));
    while i < n
        invariant
            n == sent.len(),
            sent == headers@,
            i <= n,
            text@ == top + header_lines(sent.take(i as int)),
        decreases n - i,
    {
        proof {
            assert(sent.take(i + 1).drop_last() =~= sent.take(i as int));
            assert(sent.take(i + 1).last() == sent[i as int]);
        }
        text.append(headers.name_at(i).as_str());
        text.append(": ");
        text.append(headers.value_at(i).as_str());
        text.append(SEP);
        assert(text@ =~= top + header_lines(sent.take(i + 1)));
        i += 1;
    }
    assert(sent.take(n as int) =~= sent);
    text.append(SEP);
    text.append(body);
    assert(text@ =~= request_text(method@, target@, given, body@));
    text
}

} // verus!
