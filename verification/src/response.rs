//! Responses, and how the text that a server sent is read as one.

use crate::consts::{BLANK_LINE, JOIN, SEP};
use crate::err::HttpError;
use crate::fields::{lookup, put};
use crate::header::HeaderMap;
use crate::number::{
    decimal, decimal_string, is_digit, lemma_decimal_digits, lemma_parse_decimal, parse_decimal,
    parse_u32, IntErrorKind,
};
use crate::text::{
    after, before, contains, find, find_in, lacks, lemma_contains_front, lemma_cut,
    lemma_cut_at_char, lemma_find_absent, lemma_find_first, lemma_find_from, occurs_at, split,
    substring, to_chars,
};
use vstd::prelude::*;

verus! {

/// What a server answered.
#[derive(Debug)]
pub struct Response {
    /// The status code; 0 where the text has no status line.
    pub status: u32,
    /// The headers by name.
    pub header: HeaderMap,
    /// What follows the blank line.
    pub body: String,
}

/// The head of a response text: what stands in front of the first blank
/// line, or all of it.
pub open spec fn head_of(text: Seq<char>) -> Seq<char> {
    before(text, BLANK_LINE@)
}

/// The body of a response text: what stands behind the first blank line.
pub open spec fn body_of(text: Seq<char>) -> Seq<char> {
    after(text, BLANK_LINE@)
}

/// The lines of the head.
pub open spec fn lines_of(text: Seq<char>) -> Seq<Seq<char>> {
    split(head_of(text), SEP@)
}

/// The second of the words of `line` that single spaces part: what stands
/// between the first space and the next, empty where the line has no space.
pub open spec fn second_token(line: Seq<char>) -> Seq<char> {
    before(after(line, " "@), " "@)
}

/// The status that a first line tells: the number that is its second word
/// where the line holds `HTTP/1`, else 0.
pub open spec fn status_of_line(line: Seq<char>) -> Result<u32, IntErrorKind> {
    if contains(line, "HTTP/1"@) {
        parse_decimal(second_token(line))
    } else {
        Ok(0)
    }
}

/// The status of a response text.
pub open spec fn status_of(text: Seq<char>) -> Result<u32, IntErrorKind> {
    status_of_line(lines_of(text)[0])
}

/// The header that a line holds: name and value around its first `": "`.
pub open spec fn header_of_line(line: Seq<char>) -> Option<(Seq<char>, Seq<char>)> {
    if contains(line, ": "@) {
        Some((before(line, ": "@), after(line, ": "@)))
    } else {
        None
    }
}

/// `entries` with one more header: a value for a name that is taken is
/// joined onto the value that the name holds.
pub open spec fn with_header(
    entries: Seq<(Seq<char>, Seq<char>)>,
    name: Seq<char>,
    value: Seq<char>,
) -> Seq<(Seq<char>, Seq<char>)> {
    match lookup(entries, name) {
        Some(held) => put(entries, name, held + JOIN@ + value),
        None => put(entries, name, value),
    }
}

/// The headers that `lines` hold, taken in line by line.
pub open spec fn headers_of_lines(lines: Seq<Seq<char>>) -> Seq<(Seq<char>, Seq<char>)>
    decreases lines.len(),
{
    if lines.len() == 0 {
        Seq::empty()
    } else {
        let front = headers_of_lines(lines.drop_last());
        match header_of_line(lines.last()) {
            Some((name, value)) => with_header(front, name, value),
            None => front,
        }
    }
}

/// The headers of a response text.
pub open spec fn headers_of(text: Seq<char>) -> Seq<(Seq<char>, Seq<char>)> {
    headers_of_lines(lines_of(text))
}

/// The headers of a response, one behind the other, each after a line
/// separator.
pub open spec fn header_block(entries: Seq<(Seq<char>, Seq<char>)>) -> Seq<char>
    decreases entries.len(),
{
    if entries.len() == 0 {
        Seq::empty()
    } else {
        header_block(entries.drop_last()) + SEP@ + entries.last().0 + ": "@ + entries.last().1
    }
}

/// A response as text for reading: status, headers and body, with a blank
/// line between them.
pub open spec fn response_text(status: u32, entries: Seq<(Seq<char>, Seq<char>)>, body: Seq<char>) -> Seq<
    char,
> {
    "Status: "@ + decimal(status as nat) + SEP@ + SEP@ + header_block(entries) + SEP@ + SEP@
        + body
}

/// `r` is `text` read as a response: its status, its headers and its body,
/// or the error of a status that is no number.
pub open spec fn reads_as(text: Seq<char>, r: Result<Response, HttpError>) -> bool {
    match r {
        Ok(response) => {
            &&& status_of(text) == Ok::<u32, IntErrorKind>(response.status)
            &&& response.header@ == headers_of(text)
            &&& response.body@ == body_of(text)
        },
        Err(err) => status_of(text) matches Err(kind) && err == HttpError::ParseInt(kind),
    }
}

/// The body of a response is what stands behind the first blank line of the
/// text, as it stands there; the head is what stands in front of it.
pub proof fn lemma_body_behind_blank_line(text: Seq<char>, i: int)
    requires
        occurs_at(text, BLANK_LINE@, i),
        forall|j: int| 0 <= j < i ==> !occurs_at(text, BLANK_LINE@, j),
    ensures
        head_of(text) == text.subrange(0, i),
        body_of(text) == text.subrange(i + 4, text.len() as int),
{
    reveal_strlit("\r\n\r\n");
    lemma_find_first(text, BLANK_LINE@, i);
}

/// A head and a body with a blank line between them are read back as they
/// are, where the blank line is the first of the text.
pub proof fn lemma_head_and_body(head: Seq<char>, body: Seq<char>)
    requires
        forall|j: int|
            0 <= j < head.len() ==> !occurs_at(head + BLANK_LINE@ + body, BLANK_LINE@, j),
    ensures
        head_of(head + BLANK_LINE@ + body) == head,
        body_of(head + BLANK_LINE@ + body) == body,
{
    lemma_cut(head, BLANK_LINE@, body);
}

/// A text without a blank line is all head.
pub proof fn lemma_no_body(text: Seq<char>)
    requires
        !contains(text, BLANK_LINE@),
    ensures
        head_of(text) == text,
        body_of(text) == Seq::<char>::empty(),
{
}

/// The first line of a response is what stands in front of its first line
/// separator, or all of it.
pub proof fn lemma_first_line(line: Seq<char>, rest: Seq<char>)
    requires
        !contains(line, SEP@),
    ensures
        lines_of(line)[0] == line,
        lines_of(line + SEP@ + rest)[0] == line,
{
    reveal_strlit("\r\n\r\n");
    reveal_strlit("\r\n");
    lemma_find_from(line, SEP@, 0);
    // The line alone.
    lemma_find_from(line, BLANK_LINE@, 0);
    if find(line, BLANK_LINE@) is Some {
        let i = find(line, BLANK_LINE@)->Some_0;
        assert(line.subrange(i, i + 2) =~= line.subrange(i, i + 4).subrange(0, 2));
        assert(line.subrange(i, i + 2) =~= SEP@);
        assert(occurs_at(line, SEP@, i));
    }
    assert(head_of(line) == line);
    assert(split(line, SEP@) == seq![line]);
    // The line with more behind it.
    let text = line + SEP@ + rest;
    let n = line.len() as int;
    assert forall|j: int| 0 <= j < n implies !occurs_at(text, SEP@, j) by {
        if occurs_at(text, SEP@, j) {
            if j + 2 <= n {
                assert(line.subrange(j, j + 2) =~= text.subrange(j, j + 2));
                assert(occurs_at(line, SEP@, j));
            } else {
                assert(text.subrange(j, j + 2)[1] == text[n]);
                assert(text[n] == SEP@[0]);
            }
        }
    }
    lemma_cut(line, SEP@, rest);
    lemma_find_from(text, BLANK_LINE@, 0);
    match find(text, BLANK_LINE@) {
        None => {
            assert(head_of(text) == text);
        },
        Some(i) => {
            assert(text.subrange(i, i + 2) =~= text.subrange(i, i + 4).subrange(0, 2));
            assert(text.subrange(i, i + 2) =~= SEP@);
            assert(occurs_at(text, SEP@, i));
            let head = text.subrange(0, i);
            assert(head_of(text) == head);
            if i == n {
                assert(head =~= line);
            } else {
                assert(i > n);
                assert(i != n + 1) by {
                    if i == n + 1 {
                        assert(text.subrange(i, i + 4)[0] == text[n + 1]);
                        assert(text[n + 1] == SEP@[1]);
                        assert(BLANK_LINE@[0] == '\r');
                    }
                }
                assert(text.subrange(n, n + 2) =~= SEP@);
                assert(head.subrange(n, n + 2) =~= text.subrange(n, n + 2));
                assert(occurs_at(head, SEP@, n));
                assert forall|j: int| 0 <= j < n implies !occurs_at(head, SEP@, j) by {
                    if occurs_at(head, SEP@, j) {
                        assert(head.subrange(j, j + 2) =~= text.subrange(j, j + 2));
                        assert(occurs_at(text, SEP@, j));
                    }
                }
                lemma_find_first(head, SEP@, n);
                assert(head.subrange(0, n) =~= line);
            }
        },
    }
}

/// A status line: the version, the status code and the reason, with one
/// space behind the version and one behind the code.
pub open spec fn status_line(version: Seq<char>, code: Seq<char>, reason: Seq<char>) -> Seq<char> {
    version + " "@ + code + " "@ + reason
}

/// The status of a status line is what its code reads as. So is that of a
/// line that ends with its code.
pub proof fn lemma_status_of_line(version: Seq<char>, code: Seq<char>, reason: Seq<char>)
    requires
        contains(version, "HTTP/1"@),
        lacks(version, ' '),
        lacks(code, ' '),
    ensures
        status_of_line(status_line(version, code, reason)) == parse_decimal(code),
        status_of_line(version + " "@ + code) == parse_decimal(code),
{
    reveal_strlit(" ");
    let space = " "@;
    // With a reason.
    let line = status_line(version, code, reason);
    assert(line =~= version + space + (code + space + reason));
    lemma_cut_at_char(version, space, code + space + reason);
    lemma_cut_at_char(code, space, reason);
    assert(line =~= version + (space + code + space + reason));
    lemma_contains_front(version, space + code + space + reason, "HTTP/1"@);
    assert(second_token(line) == code);
    // Without one.
    let short = version + space + code;
    lemma_cut_at_char(version, space, code);
    lemma_find_absent(code, space);
    assert(short =~= version + (space + code));
    lemma_contains_front(version, space + code, "HTTP/1"@);
    assert(second_token(short) == code);
}

/// The status of a response whose first line is a status line is what the
/// code of that line reads as, whatever follows the line.
pub proof fn lemma_status_of_response(
    version: Seq<char>,
    code: Seq<char>,
    reason: Seq<char>,
    rest: Seq<char>,
)
    requires
        contains(version, "HTTP/1"@),
        lacks(version, ' '),
        lacks(code, ' '),
        !contains(status_line(version, code, reason), SEP@),
    ensures
        status_of(status_line(version, code, reason)) == parse_decimal(code),
        status_of(status_line(version, code, reason) + SEP@ + rest) == parse_decimal(code),
{
    lemma_first_line(status_line(version, code, reason), rest);
    lemma_status_of_line(version, code, reason);
}

/// The status of a response whose status line tells the number `code` in
/// decimal digits is `code`.
pub proof fn lemma_status_code(version: Seq<char>, code: u32, reason: Seq<char>, rest: Seq<char>)
    requires
        contains(version, "HTTP/1"@),
        lacks(version, ' '),
        !contains(status_line(version, decimal(code as nat), reason), SEP@),
    ensures
        status_of(status_line(version, decimal(code as nat), reason)) == Ok::<u32, IntErrorKind>(
            code,
        ),
        status_of(status_line(version, decimal(code as nat), reason) + SEP@ + rest) == Ok::<
            u32,
            IntErrorKind,
        >(code),
{
    let digits = decimal(code as nat);
    lemma_decimal_digits(code as nat);
    lemma_parse_decimal(code);
    assert forall|j: int| 0 <= j < digits.len() implies digits[j] != ' ' by {
        assert(is_digit(digits[j]));
    }
    lemma_status_of_response(version, digits, reason, rest);
}

/// Takes one more header in.
fn add_header(header: &mut HeaderMap, name: String, value: String)
    ensures
        final(header)@ == with_header(old(header)@, name@, value@),
{
    let held = match header.get(name.as_str()) {
        Some(held) => Some(held.clone()),
        None => None,
    };
    match held {
        Some(mut joined) => {
            joined.append(JOIN);
            joined.append(value.as_str());
            header.insert(name, joined);
        },
        None => {
            header.insert(name, value);
        },
    }
}

/// The status that the line `chars[from..to]` tells.
fn read_status(chars: &Vec<char>, from: usize, to: usize) -> (r: Result<u32, IntErrorKind>)
    requires
        from <= to <= chars@.len(),
    ensures
        r == status_of_line(chars@.subrange(from as int, to as int)),
{
    let ghost line = chars@.subrange(from as int, to as int);
    let marker = to_chars("HTTP/1");
    let space = to_chars(" ");
    proof {
        reveal_strlit(" ");
    }
    if find_in(chars, from, to, &marker).is_none() {
        return Ok(0);
    }
    let (start, end) = match find_in(chars, from, to, &space) {
        None => (to, to),
        Some(a) => {
            let ghost rest = chars@.subrange(a + 1, to as int);
            assert(rest =~= after(line, " "@));
            match find_in(chars, a + 1, to, &space) {
                Some(b) => {
                    assert(chars@.subrange(a + 1, b as int) =~= before(rest, " "@));
                    (a + 1, b)
                },
                None => (a + 1, to),
            }
        },
    };
    assert(chars@.subrange(start as int, end as int) =~= second_token(line));
    parse_u32(chars, start, end)
}

impl Response {
    /// Reads the text that a server sent: the status from the first line,
    /// a header from every line of the head that holds `": "`, and the body
    /// behind the first blank line. The only text that is refused is one
    /// whose first line holds `HTTP/1` and no number as its second word.
    #[verifier::loop_isolation(false)]
    pub fn new(str: String) -> (r: Result<Response, HttpError>)
        ensures
            reads_as(str@, r),
    {
        let text = str.as_str();
        let chars = to_chars(text);
        let n = chars.len();
        let blank = to_chars(BLANK_LINE);
        let sep = to_chars(SEP);
        let colon = to_chars(": ");
        proof {
            reveal_strlit("\r\n\r\n");
            reveal_strlit("\r\n");
            reveal_strlit(": ");
            assert(chars@.subrange(0, n as int) =~= str@);
        }
        let (head_end, body) = match find_in(&chars, 0, n, &blank) {
            Some(i) => (i, substring(text, i + 4, n)),
            None => (n, String::new()),
        };
        let ghost head = chars@.subrange(0, head_end as int);
        assert(head =~= head_of(str@));
        assert(body@ =~= body_of(str@));

        let mut header = HeaderMap::new();
        let mut status: u32 = 0;
        let mut pos: usize = 0;
        let mut more = true;
        let mut first = true;
        let ghost mut done: Seq<Seq<char>> = Seq::empty();
        assert(head.subrange(0, head_end as int) =~= head);
        while more
            invariant
                pos <= head_end,
                more ==> split(head, SEP@) == done + split(
                    head.subrange(pos as int, head_end as int),
                    SEP@,
                ),
                !more ==> split(head, SEP@) == done,
                !more ==> done.len() > 0,
                header@ == headers_of_lines(done),
                first == (done.len() == 0),
                done.len() > 0 ==> status_of_line(split(head, SEP@)[0]) == Ok::<u32, IntErrorKind>(
                    status,
                ),
                done.len() == 0 ==> status == 0,
            decreases
                    head_end - pos + if more {
                        1int
                    } else {
                        0int
                    },
        {
            let ghost window = head.subrange(pos as int, head_end as int);
            assert(window =~= chars@.subrange(pos as int, head_end as int));
            let found = find_in(&chars, pos, head_end, &sep);
            let line_end = match found {
                Some(k) => k,
                None => head_end,
            };
            let ghost line = chars@.subrange(pos as int, line_end as int);
            proof {
                assert(line =~= before(window, SEP@));
                if found is Some {
                    let rest = head.subrange(line_end + 2, head_end as int);
                    assert(rest =~= after(window, SEP@));
                    assert(split(window, SEP@) == seq![line] + split(rest, SEP@));
                    assert(done + (seq![line] + split(rest, SEP@)) =~= done.push(line) + split(
                        rest,
                        SEP@,
                    ));
                } else {
                    assert(split(window, SEP@) == seq![line]);
                    assert(done + seq![line] =~= done.push(line));
                }
                assert(split(head, SEP@)[done.len() as int] == line);
            }
            if first {
                match read_status(&chars, pos, line_end) {
                    Ok(code) => {
                        status = code;
                    },
                    Err(kind) => {
                        return Err(HttpError::from(kind));
                    },
                }
                first = false;
            }
            match find_in(&chars, pos, line_end, &colon) {
                Some(k) => {
                    let name = substring(text, pos, k);
                    let value = substring(text, k + 2, line_end);
                    proof {
                        assert(name@ =~= before(line, ": "@));
                        assert(value@ =~= after(line, ": "@));
                    }
                    add_header(&mut header, name, value);
                },
                None => {},
            }
            proof {
                assert(done.push(line).drop_last() =~= done);
                done = done.push(line);
            }
            match found {
                Some(k) => {
                    pos = k + 2;
                },
                None => {
                    more = false;
                },
            }
        }
        Ok(Response { status, header, body })
    }

    /// The response as text for reading.
    pub fn as_str(&self) -> (text: String)
        ensures
            text@ == response_text(self.status, self.header@, self.body@),
    {
        let mut text = "Status: ".to_owned();
        let code = decimal_string(self.status as u64);
        text.append(code.as_str());
        text.append(SEP);
        text.append(SEP);
        let ghost top = text@;
        let n = self.header.len();
        let mut i: usize = 0;
        assert(self.header@.take(0) =~= Seq::<(Seq<char>, Seq<char>)>::empty());
        assert(text@ =~= top + header_block(self.header@.take(0)));
        while i < n
            invariant
                n == self.header@.len(),
                i <= n,
                text@ == top + header_block(self.header@.take(i as int)),
            decreases n - i,
        {
            let ghost front = self.header@.take(i as int);
            proof {
                assert(self.header@.take(i + 1).drop_last() =~= front);
                assert(self.header@.take(i + 1).last() == self.header@[i as int]);
            }
            text.append(SEP);
            text.append(self.header.name_at(i).as_str());
            text.append(": ");
            text.append(self.header.value_at(i).as_str());
            assert(text@ =~= top + header_block(self.header@.take(i + 1)));
            i += 1;
        }
        assert(self.header@.take(n as int) =~= self.header@);
        text.append(SEP);
        text.append(SEP);
        text.append(self.body.as_str());
        assert(text@ =~= response_text(self.status, self.header@, self.body@));
        text
    }
}

} // verus!
