//! The body as parts between boundary lines.

use crate::body::{Body, Data, Field, Files};
use crate::consts::{BOUNDARY_LEN, C_MULTIPART, SEP};
use crate::err::HttpError;
use crate::fields::lookup;
use crate::text::{
    free_of, lacks, lemma_free_parts, lemma_occurs_behind, lemma_occurs_in_parts,
    lemma_prefix_of_prefix, occurs_at, text_view,
};
use vstd::prelude::*;

verus! {

/// One of the letters `a` to `z` and `A` to `Z` and the digits.
pub open spec fn is_alphanumeric(c: char) -> bool {
    ('a' <= c && c <= 'z') || ('A' <= c && c <= 'Z') || ('0' <= c && c <= '9')
}

/// A boundary: letters and digits, `BOUNDARY_LEN` of them.
pub open spec fn is_boundary(text: Seq<char>) -> bool {
    &&& text.len() == BOUNDARY_LEN
    &&& forall|i: int| 0 <= i < text.len() ==> is_alphanumeric(#[trigger] text[i])
}

/// `rand::Rng::sample_iter` on `rand::thread_rng()` with the distribution
/// `rand::distributions::Alphanumeric`, which draws from the letters `a` to
/// `z` and `A` to `Z` and the digits: the first `n` of what it draws.
#[verifier::external_body]
fn random_alphanumeric(n: usize) -> (text: String)
    ensures
        text@.len() == n,
        forall|i: int| 0 <= i < text@.len() ==> is_alphanumeric(#[trigger] text@[i]),
{
    rand::Rng::sample_iter(rand::thread_rng(), rand::distributions::Alphanumeric).take(n).map(
        char::from,
    ).collect()
}

/// A boundary drawn at random.
pub fn new_boundary() -> (boundary: String)
    ensures
        is_boundary(boundary@),
{
    random_alphanumeric(BOUNDARY_LEN)
}

/// The value of `Content-Type` that tells the boundary.
pub open spec fn boundary_type(boundary: Seq<char>) -> Seq<char> {
    C_MULTIPART@ + "; boundary="@ + boundary
}

/// The line that opens a part.
pub open spec fn opening_line(boundary: Seq<char>) -> Seq<char> {
    "--"@ + boundary + SEP@
}

/// The line that closes a multipart body.
pub open spec fn closing_line(boundary: Seq<char>) -> Seq<char> {
    "--"@ + boundary + "--"@
}

/// The header line of a part, up to the name of its field.
pub open spec fn disposition(name: Seq<char>) -> Seq<char> {
    "Content-Disposition: form-data; name="@ + name
}

/// The part of a text field.
pub open spec fn text_part(boundary: Seq<char>, name: Seq<char>, value: Seq<char>) -> Seq<char> {
    opening_line(boundary) + disposition(name) + SEP@ + SEP@ + value + SEP@
}

/// The part of a file field.
pub open spec fn file_part(
    boundary: Seq<char>,
    name: Seq<char>,
    file_name: Seq<char>,
    content: Seq<char>,
) -> Seq<char> {
    opening_line(boundary) + disposition(name) + "; filename="@ + file_name + SEP@ + SEP@
        + content + SEP@
}

/// Why a file field has no part.
pub enum Fault {
    /// The path has no file name.
    InvalidFilePath(Seq<char>),
    /// The content of the file at this path is not at hand.
    Unreadable(Seq<char>),
}

/// The part of one field. `file_name` is the file name of a file field's
/// path, where it has one.
pub open spec fn part(
    boundary: Seq<char>,
    name: Seq<char>,
    field: Field,
    file_name: Option<Seq<char>>,
    files: Seq<(Seq<char>, Seq<char>)>,
) -> Result<Seq<char>, Fault> {
    match field {
        Field::Text(value) => Ok(text_part(boundary, name, value)),
        Field::File(path) => match file_name {
            None => Err(Fault::InvalidFilePath(path)),
            Some(file_name) => match lookup(files, path) {
                Some(content) => Ok(file_part(boundary, name, file_name, content)),
                None => Err(Fault::Unreadable(path)),
            },
        },
    }
}

/// The file name on record for the field at `i`.
pub open spec fn file_name_at(file_names: Seq<Option<Seq<char>>>, i: int) -> Option<Seq<char>> {
    if 0 <= i < file_names.len() {
        file_names[i]
    } else {
        None
    }
}

/// The parts of the first `k` fields, one behind the other, or the fault
/// of the first field that has none.
pub open spec fn parts(
    boundary: Seq<char>,
    fields: Seq<(Seq<char>, Field)>,
    file_names: Seq<Option<Seq<char>>>,
    files: Seq<(Seq<char>, Seq<char>)>,
    k: int,
) -> Result<Seq<char>, Fault>
    decreases k,
{
    if k <= 0 {
        Ok(Seq::empty())
    } else {
        match parts(boundary, fields, file_names, files, k - 1) {
            Err(fault) => Err(fault),
            Ok(front) => match part(
                boundary,
                fields[k - 1].0,
                fields[k - 1].1,
                file_name_at(file_names, k - 1),
                files,
            ) {
                Ok(next) => Ok(front + next),
                Err(fault) => Err(fault),
            },
        }
    }
}

/// The multipart body: the part of every field, then the closing line.
pub open spec fn multipart_text(
    boundary: Seq<char>,
    fields: Seq<(Seq<char>, Field)>,
    file_names: Seq<Option<Seq<char>>>,
    files: Seq<(Seq<char>, Seq<char>)>,
) -> Result<Seq<char>, Fault> {
    match parts(boundary, fields, file_names, files, fields.len() as int) {
        Ok(text) => Ok(text + closing_line(boundary)),
        Err(fault) => Err(fault),
    }
}

/// The fault that an error reports.
pub open spec fn fault_of(err: HttpError) -> Option<Fault> {
    match err {
        HttpError::InvalidFilePath(path) => Some(Fault::InvalidFilePath(path@)),
        HttpError::IO(path) => Some(Fault::Unreadable(path@)),
        _ => None,
    }
}

/// `r` is `expected` in executable form: the same text, or the error that
/// reports the same fault.
pub open spec fn encodes(r: Result<String, HttpError>, expected: Result<Seq<char>, Fault>) -> bool {
    match r {
        Ok(text) => expected == Ok::<Seq<char>, Fault>(text@),
        Err(err) => expected is Err && fault_of(err) == Some(expected->Err_0),
    }
}

/// The file names of a vector, each by its view.
pub open spec fn names_view(file_names: Seq<Option<String>>) -> Seq<Option<Seq<char>>> {
    file_names.map_values(|name: Option<String>| text_view(name))
}

/// A fault stays: once the parts of the first `k` fields fail, so do those
/// of any more.
pub proof fn lemma_parts_fail(
    boundary: Seq<char>,
    fields: Seq<(Seq<char>, Field)>,
    file_names: Seq<Option<Seq<char>>>,
    files: Seq<(Seq<char>, Seq<char>)>,
    k: int,
    m: int,
)
    requires
        k <= m,
        parts(boundary, fields, file_names, files, k) is Err,
    ensures
        parts(boundary, fields, file_names, files, m) == parts(
            boundary,
            fields,
            file_names,
            files,
            k,
        ),
    decreases m - k,
{
    if k < m {
        lemma_parts_fail(boundary, fields, file_names, files, k, m - 1);
    }
}

/// The parts build on one another: where the first `m` fields have their
/// parts, so have the first `k` of them, and theirs stand in front.
pub proof fn lemma_parts_front(
    boundary: Seq<char>,
    fields: Seq<(Seq<char>, Field)>,
    file_names: Seq<Option<Seq<char>>>,
    files: Seq<(Seq<char>, Seq<char>)>,
    k: int,
    m: int,
)
    requires
        0 <= k <= m,
        parts(boundary, fields, file_names, files, m) is Ok,
    ensures
        parts(boundary, fields, file_names, files, k) matches Ok(front)
            && parts(boundary, fields, file_names, files, m) matches Ok(all)
            && front.is_prefix_of(all),
    decreases m - k,
{
    if k < m {
        lemma_parts_front(boundary, fields, file_names, files, k, m - 1);
        let front = parts(boundary, fields, file_names, files, k)->Ok_0;
        let most = parts(boundary, fields, file_names, files, m - 1)->Ok_0;
        let all = parts(boundary, fields, file_names, files, m)->Ok_0;
        assert(most.is_prefix_of(all));
        assert(front =~= all.subrange(0, front.len() as int));
    } else {
        let all = parts(boundary, fields, file_names, files, m)->Ok_0;
        assert(all =~= all.subrange(0, all.len() as int));
    }
}

/// Where the part of the field at `k` begins in the body.
pub open spec fn part_start(
    boundary: Seq<char>,
    fields: Seq<(Seq<char>, Field)>,
    file_names: Seq<Option<Seq<char>>>,
    files: Seq<(Seq<char>, Seq<char>)>,
    k: int,
) -> int {
    parts(boundary, fields, file_names, files, k)->Ok_0.len() as int
}

/// A boundary marker: what every boundary line begins with.
pub open spec fn marker(boundary: Seq<char>) -> Seq<char> {
    "--"@ + boundary
}

/// A part begins with a boundary line and with the header that names its
/// field, and ends with a line separator.
pub proof fn lemma_part_opens(
    boundary: Seq<char>,
    name: Seq<char>,
    field: Field,
    file_name: Option<Seq<char>>,
    files: Seq<(Seq<char>, Seq<char>)>,
)
    requires
        part(boundary, name, field, file_name, files) is Ok,
    ensures
        ({
            let this = part(boundary, name, field, file_name, files)->Ok_0;
            &&& (opening_line(boundary) + disposition(name)).is_prefix_of(this)
            &&& marker(boundary).is_prefix_of(this)
            &&& this.len() > 2
            &&& this.subrange(this.len() - 2, this.len() as int) == SEP@
        }),
{
    reveal_strlit("--");
    reveal_strlit("\r\n");
    let this = part(boundary, name, field, file_name, files)->Ok_0;
    let open = opening_line(boundary) + disposition(name);
    let mark = marker(boundary);
    assert(open =~= mark + (SEP@ + disposition(name)));
    match field {
        Field::Text(value) => {
            assert(this =~= open + (SEP@ + SEP@ + value + SEP@));
        },
        Field::File(path) => {
            let content = lookup(files, path)->Some_0;
            assert(this =~= open + ("; filename="@ + file_name->Some_0 + SEP@ + SEP@ + content
                + SEP@));
        },
    }
    assert(open =~= this.subrange(0, open.len() as int));
    assert(mark =~= open.subrange(0, mark.len() as int));
    assert(mark =~= this.subrange(0, mark.len() as int));
    assert(this.subrange(this.len() - 2, this.len() as int) =~= SEP@);
}

/// In a multipart body every field has its part, one behind the other in
/// the order of the fields. The part of a field stands between two boundary
/// markers: it begins with a boundary line and the header that names the
/// field, it ends with a line separator, and where it ends the next
/// boundary marker stands.
pub proof fn lemma_multipart_part(
    boundary: Seq<char>,
    fields: Seq<(Seq<char>, Field)>,
    file_names: Seq<Option<Seq<char>>>,
    files: Seq<(Seq<char>, Seq<char>)>,
    k: int,
)
    requires
        0 <= k < fields.len(),
        multipart_text(boundary, fields, file_names, files) is Ok,
    ensures
        ({
            let text = multipart_text(boundary, fields, file_names, files)->Ok_0;
            let start = part_start(boundary, fields, file_names, files, k);
            let end = part_start(boundary, fields, file_names, files, k + 1);
            &&& part(
                boundary,
                fields[k].0,
                fields[k].1,
                file_name_at(file_names, k),
                files,
            ) matches Ok(this)
            &&& 0 <= start < end <= text.len()
            &&& text.subrange(start, end) == this
            &&& occurs_at(text, opening_line(boundary) + disposition(fields[k].0), start)
            &&& occurs_at(text, SEP@, end - 2)
            &&& occurs_at(text, marker(boundary), end)
        }),
{
    let n = fields.len() as int;
    let text = multipart_text(boundary, fields, file_names, files)->Ok_0;
    let all = parts(boundary, fields, file_names, files, n)->Ok_0;
    assert(all.is_prefix_of(text)) by {
        assert(all =~= text.subrange(0, all.len() as int));
    }
    lemma_parts_front(boundary, fields, file_names, files, k + 1, n);
    lemma_parts_front(boundary, fields, file_names, files, k, k + 1);
    let front = parts(boundary, fields, file_names, files, k)->Ok_0;
    let upto = parts(boundary, fields, file_names, files, k + 1)->Ok_0;
    let this = part(boundary, fields[k].0, fields[k].1, file_name_at(file_names, k), files)->Ok_0;
    assert(upto == front + this);
    lemma_prefix_of_prefix(upto, all, text);
    lemma_part_opens(boundary, fields[k].0, fields[k].1, file_name_at(file_names, k), files);
    assert(text.subrange(front.len() as int, upto.len() as int) =~= this);
    assert(text.subrange(upto.len() - 2, upto.len() as int) =~= this.subrange(
        this.len() - 2,
        this.len() as int,
    ));
    reveal_strlit("\r\n");
    lemma_occurs_behind(text, front, this, opening_line(boundary) + disposition(fields[k].0));
    // Behind the part stands the marker of the next part, or of the closing
    // line.
    let mark = marker(boundary);
    if k + 1 < n {
        lemma_parts_front(boundary, fields, file_names, files, k + 2, n);
        let next = part(
            boundary,
            fields[k + 1].0,
            fields[k + 1].1,
            file_name_at(file_names, k + 1),
            files,
        )->Ok_0;
        let further = parts(boundary, fields, file_names, files, k + 2)->Ok_0;
        assert(further == upto + next);
        lemma_prefix_of_prefix(further, all, text);
        lemma_part_opens(
            boundary,
            fields[k + 1].0,
            fields[k + 1].1,
            file_name_at(file_names, k + 1),
            files,
        );
        lemma_occurs_behind(text, upto, next, mark);
    } else {
        let closing = closing_line(boundary);
        assert(upto == all);
        assert(text == all + closing);
        assert((all + closing).is_prefix_of(text)) by {
            assert(text =~= text.subrange(0, text.len() as int));
        }
        assert(mark.is_prefix_of(closing)) by {
            assert(closing =~= mark + "--"@);
            assert(mark =~= closing.subrange(0, mark.len() as int));
        }
        lemma_occurs_behind(text, all, closing, mark);
    }
}

/// A body without fields is the closing line and nothing else.
pub proof fn lemma_multipart_empty(
    boundary: Seq<char>,
    file_names: Seq<Option<Seq<char>>>,
    files: Seq<(Seq<char>, Seq<char>)>,
)
    ensures
        multipart_text(boundary, Seq::empty(), file_names, files) == Ok::<Seq<char>, Fault>(
            closing_line(boundary),
        ),
{
    assert(Seq::<char>::empty() + closing_line(boundary) =~= closing_line(boundary));
}

/// What follows the marker in the part of a text field.
pub open spec fn text_rest(name: Seq<char>, value: Seq<char>) -> Seq<char> {
    SEP@ + disposition(name) + SEP@ + SEP@ + value + SEP@
}

/// What follows the marker in the part of a file field.
pub open spec fn file_rest(name: Seq<char>, file_name: Seq<char>, content: Seq<char>) -> Seq<
    char,
> {
    SEP@ + disposition(name) + "; filename="@ + file_name + SEP@ + SEP@ + content + SEP@
}

/// The boundary stands in nothing that the fields bring in: in no name, no
/// text, no file name and no content.
pub open spec fn apart(
    boundary: Seq<char>,
    fields: Seq<(Seq<char>, Field)>,
    file_names: Seq<Option<Seq<char>>>,
    files: Seq<(Seq<char>, Seq<char>)>,
) -> bool {
    forall|i: int|
        0 <= i < fields.len() ==> {
            &&& free_of((#[trigger] fields[i]).0, boundary)
            &&& match fields[i].1 {
                Field::Text(value) => free_of(value, boundary),
                Field::File(path) => {
                    &&& file_name_at(file_names, i) matches Some(file_name) ==> free_of(
                        file_name,
                        boundary,
                    )
                    &&& lookup(files, path) matches Some(content) ==> free_of(content, boundary)
                },
            }
        }
}

/// A boundary holds none of the characters that stand around it and around
/// what the fields bring in.
pub proof fn lemma_boundary_chars(boundary: Seq<char>)
    requires
        is_boundary(boundary),
    ensures
        boundary.len() == 32,
        lacks(boundary, '-'),
        lacks(boundary, '\r'),
        lacks(boundary, '\n'),
        lacks(boundary, ':'),
        lacks(boundary, ';'),
        lacks(boundary, '='),
{
    assert forall|i: int| 0 <= i < boundary.len() implies {
        &&& boundary[i] != '-'
        &&& boundary[i] != '\r'
        &&& boundary[i] != '\n'
        &&& boundary[i] != ':'
        &&& boundary[i] != ';'
        &&& boundary[i] != '='
    } by {
        assert(is_alphanumeric(boundary[i]));
    }
}

/// The boundary does not stand in the header line of a part, up to the name
/// of its field.
proof fn lemma_disposition_free(boundary: Seq<char>, name: Seq<char>)
    requires
        is_boundary(boundary),
        free_of(name, boundary),
    ensures
        free_of(SEP@ + disposition(name), boundary),
{
    lemma_boundary_chars(boundary);
    reveal_strlit("\r\n");
    reveal_strlit("Content-Disposition: form-data; name=");
    reveal_strlit("Content-Disposition:");
    reveal_strlit(" form-data; name=");
    let one = "Content-Disposition:"@;
    let two = " form-data; name="@;
    assert("Content-Disposition: form-data; name="@ =~= one + two);
    lemma_free_parts(SEP@, one, boundary);
    lemma_free_parts(SEP@ + one, two, boundary);
    lemma_free_parts(SEP@ + one + two, name, boundary);
    assert(SEP@ + disposition(name) =~= SEP@ + one + two + name);
}

/// The boundary does not stand in what follows the marker in a part. That
/// begins and ends with a line separator.
proof fn lemma_rest_free(
    boundary: Seq<char>,
    name: Seq<char>,
    field: Field,
    file_name: Option<Seq<char>>,
    files: Seq<(Seq<char>, Seq<char>)>,
)
    requires
        is_boundary(boundary),
        part(boundary, name, field, file_name, files) is Ok,
        free_of(name, boundary),
        match field {
            Field::Text(value) => free_of(value, boundary),
            Field::File(path) => free_of(file_name->Some_0, boundary) && free_of(
                lookup(files, path)->Some_0,
                boundary,
            ),
        },
    ensures
        ({
            let this = part(boundary, name, field, file_name, files)->Ok_0;
            let rest = this.subrange(marker(boundary).len() as int, this.len() as int);
            &&& this == marker(boundary) + rest
            &&& free_of(rest, boundary)
            &&& rest.len() >= 2
            &&& rest[0] == '\r'
            &&& rest.last() == '\n'
        }),
{
    lemma_boundary_chars(boundary);
    lemma_disposition_free(boundary, name);
    reveal_strlit("\r\n");
    reveal_strlit("; filename=");
    let this = part(boundary, name, field, file_name, files)->Ok_0;
    let mark = marker(boundary);
    let head = SEP@ + disposition(name);
    match field {
        Field::Text(value) => {
            let rest = text_rest(name, value);
            lemma_free_parts(head, SEP@, boundary);
            lemma_free_parts(head + SEP@, SEP@, boundary);
            lemma_free_parts(head + SEP@ + SEP@, value, boundary);
            lemma_free_parts(head + SEP@ + SEP@ + value, SEP@, boundary);
            assert(rest =~= head + SEP@ + SEP@ + value + SEP@);
            assert(this =~= mark + rest);
            assert(this.subrange(mark.len() as int, this.len() as int) =~= rest);
        },
        Field::File(path) => {
            let name_of_file = file_name->Some_0;
            let content = lookup(files, path)->Some_0;
            let rest = file_rest(name, name_of_file, content);
            let tag = "; filename="@;
            lemma_free_parts(head, tag, boundary);
            lemma_free_parts(head + tag, name_of_file, boundary);
            lemma_free_parts(head + tag + name_of_file, SEP@, boundary);
            lemma_free_parts(head + tag + name_of_file + SEP@, SEP@, boundary);
            lemma_free_parts(head + tag + name_of_file + SEP@ + SEP@, content, boundary);
            lemma_free_parts(head + tag + name_of_file + SEP@ + SEP@ + content, SEP@, boundary);
            assert(rest =~= head + tag + name_of_file + SEP@ + SEP@ + content + SEP@);
            assert(this =~= mark + rest);
            assert(this.subrange(mark.len() as int, this.len() as int) =~= rest);
        },
    }
}

/// In a marker with something behind it that is free of the boundary and
/// begins with a line separator or a hyphen, the boundary stands once:
/// behind the two hyphens.
proof fn lemma_boundary_in_marked(boundary: Seq<char>, rest: Seq<char>, j: int)
    requires
        is_boundary(boundary),
        free_of(rest, boundary),
        rest.len() > 0,
        rest[0] == '\r' || rest[0] == '-',
        occurs_at(marker(boundary) + rest, boundary, j),
    ensures
        j == 2,
{
    lemma_boundary_chars(boundary);
    reveal_strlit("--");
    let mark = marker(boundary);
    lemma_occurs_in_parts(mark, rest, boundary, j);
    assert(occurs_at(mark, boundary, j));
    lemma_occurs_in_parts("--"@, boundary, boundary, j);
}

/// A multipart body ends with the closing line, and the closing line stands
/// behind the part of the last field.
pub proof fn lemma_multipart_end(
    boundary: Seq<char>,
    fields: Seq<(Seq<char>, Field)>,
    file_names: Seq<Option<Seq<char>>>,
    files: Seq<(Seq<char>, Seq<char>)>,
)
    requires
        multipart_text(boundary, fields, file_names, files) is Ok,
    ensures
        ({
            let text = multipart_text(boundary, fields, file_names, files)->Ok_0;
            let end = part_start(boundary, fields, file_names, files, fields.len() as int);
            &&& end + closing_line(boundary).len() == text.len()
            &&& text.subrange(end, text.len() as int) == closing_line(boundary)
        }),
{
    let text = multipart_text(boundary, fields, file_names, files)->Ok_0;
    let all = parts(boundary, fields, file_names, files, fields.len() as int)->Ok_0;
    assert(text.subrange(all.len() as int, text.len() as int) =~= closing_line(boundary));
}

/// The parts of some fields are empty or end with a line separator.
proof fn lemma_parts_end(
    boundary: Seq<char>,
    fields: Seq<(Seq<char>, Field)>,
    file_names: Seq<Option<Seq<char>>>,
    files: Seq<(Seq<char>, Seq<char>)>,
    k: int,
)
    requires
        parts(boundary, fields, file_names, files, k) is Ok,
    ensures
        ({
            let text = parts(boundary, fields, file_names, files, k)->Ok_0;
            text.len() == 0 || text.last() == '\n'
        }),
{
    reveal_strlit("\r\n");
}

/// A later part begins behind an earlier one.
pub proof fn lemma_part_starts_grow(
    boundary: Seq<char>,
    fields: Seq<(Seq<char>, Field)>,
    file_names: Seq<Option<Seq<char>>>,
    files: Seq<(Seq<char>, Seq<char>)>,
    k: int,
    m: int,
)
    requires
        0 <= k < m <= fields.len(),
        multipart_text(boundary, fields, file_names, files) is Ok,
    ensures
        part_start(boundary, fields, file_names, files, k) < part_start(
            boundary,
            fields,
            file_names,
            files,
            m,
        ),
    decreases m - k,
{
    lemma_multipart_part(boundary, fields, file_names, files, m - 1);
    if k < m - 1 {
        lemma_part_starts_grow(boundary, fields, file_names, files, k, m - 1);
    }
}

/// In the parts of some fields the boundary stands only in the markers:
/// behind the two hyphens with which each part begins.
proof fn lemma_boundary_in_parts(
    boundary: Seq<char>,
    fields: Seq<(Seq<char>, Field)>,
    file_names: Seq<Option<Seq<char>>>,
    files: Seq<(Seq<char>, Seq<char>)>,
    k: int,
    j: int,
)
    requires
        is_boundary(boundary),
        apart(boundary, fields, file_names, files),
        0 <= k <= fields.len(),
        parts(boundary, fields, file_names, files, k) is Ok,
        occurs_at(parts(boundary, fields, file_names, files, k)->Ok_0, boundary, j),
    ensures
        exists|i: int|
            0 <= i < k && j == #[trigger] part_start(boundary, fields, file_names, files, i) + 2,
    decreases k,
{
    lemma_boundary_chars(boundary);
    if k > 0 {
        let front = parts(boundary, fields, file_names, files, k - 1)->Ok_0;
        let name = fields[k - 1].0;
        let field = fields[k - 1].1;
        let file_name = file_name_at(file_names, k - 1);
        let this = part(boundary, name, field, file_name, files)->Ok_0;
        assert(parts(boundary, fields, file_names, files, k)->Ok_0 == front + this);
        lemma_parts_end(boundary, fields, file_names, files, k - 1);
        lemma_rest_free(boundary, name, field, file_name, files);
        let rest = this.subrange(marker(boundary).len() as int, this.len() as int);
        lemma_occurs_in_parts(front, this, boundary, j);
        if occurs_at(front, boundary, j) {
            lemma_boundary_in_parts(boundary, fields, file_names, files, k - 1, j);
            let i = choose|i: int|
                0 <= i < k - 1 && j == #[trigger] part_start(
                    boundary,
                    fields,
                    file_names,
                    files,
                    i,
                ) + 2;
            assert(0 <= i < k && j == part_start(boundary, fields, file_names, files, i) + 2);
        } else {
            lemma_boundary_in_marked(boundary, rest, j - front.len());
            assert(j == part_start(boundary, fields, file_names, files, k - 1) + 2);
        }
    } else {
        assert(parts(boundary, fields, file_names, files, k)->Ok_0.len() == 0);
    }
}

/// Where the boundary stands in nothing that the fields bring in, the
/// boundary lines of a multipart body are those of its parts: a line that
/// opens a part stands where the part of a field begins and nowhere else,
/// and the closing line stands behind the last part and nowhere else. So
/// there are as many opening lines as fields, and one closing line.
pub proof fn lemma_multipart_lines(
    boundary: Seq<char>,
    fields: Seq<(Seq<char>, Field)>,
    file_names: Seq<Option<Seq<char>>>,
    files: Seq<(Seq<char>, Seq<char>)>,
    j: int,
)
    requires
        is_boundary(boundary),
        apart(boundary, fields, file_names, files),
        multipart_text(boundary, fields, file_names, files) is Ok,
    ensures
        ({
            let text = multipart_text(boundary, fields, file_names, files)->Ok_0;
            &&& occurs_at(text, opening_line(boundary), j) <==> exists|k: int|
                0 <= k < fields.len() && j == #[trigger] part_start(
                    boundary,
                    fields,
                    file_names,
                    files,
                    k,
                )
            &&& occurs_at(text, closing_line(boundary), j) <==> j == part_start(
                boundary,
                fields,
                file_names,
                files,
                fields.len() as int,
            )
        }),
{
    lemma_boundary_chars(boundary);
    reveal_strlit("--");
    reveal_strlit("\r\n");
    let n = fields.len() as int;
    let text = multipart_text(boundary, fields, file_names, files)->Ok_0;
    let all = parts(boundary, fields, file_names, files, n)->Ok_0;
    let mark = marker(boundary);
    let opening = opening_line(boundary);
    let closing = closing_line(boundary);
    let last = part_start(boundary, fields, file_names, files, n);
    assert(text == all + closing);
    assert(opening =~= mark + SEP@);
    assert(closing =~= mark + "--"@);
    lemma_multipart_end(boundary, fields, file_names, files);
    // Where a part begins, a line that opens a part stands.
    assert forall|k: int| 0 <= k < n implies occurs_at(
        text,
        opening,
        #[trigger] part_start(boundary, fields, file_names, files, k),
    ) by {
        lemma_multipart_part(boundary, fields, file_names, files, k);
        let start = part_start(boundary, fields, file_names, files, k);
        let long = opening + disposition(fields[k].0);
        assert(text.subrange(start, start + opening.len()) =~= text.subrange(
            start,
            start + long.len(),
        ).subrange(0, opening.len() as int));
        assert(long.subrange(0, opening.len() as int) =~= opening);
    }
    // Where a boundary line stands, the boundary stands two characters on:
    // in the marker of a part or in that of the closing line.
    if occurs_at(text, opening, j) || occurs_at(text, closing, j) {
        let line = if occurs_at(text, opening, j) {
            opening
        } else {
            closing
        };
        assert(text.subrange(j + 2, j + 34) =~= text.subrange(
            j,
            j + line.len(),
        ).subrange(2, 34));
        assert(line.subrange(2, 34) =~= boundary);
        assert(occurs_at(text, boundary, j + 2));
        assert(text[j + 34] == text.subrange(j, j + line.len())[34]);
        lemma_parts_end(boundary, fields, file_names, files, n);
        lemma_occurs_in_parts(all, closing, boundary, j + 2);
        if occurs_at(all, boundary, j + 2) {
            lemma_boundary_in_parts(boundary, fields, file_names, files, n, j + 2);
            let i = choose|i: int|
                0 <= i < n && j + 2 == #[trigger] part_start(
                    boundary,
                    fields,
                    file_names,
                    files,
                    i,
                ) + 2;
            // Behind the marker of a part stands a line separator.
            lemma_multipart_part(boundary, fields, file_names, files, i);
            lemma_rest_free_at(boundary, fields, file_names, files, i);
            let end = part_start(boundary, fields, file_names, files, i + 1);
            let this = text.subrange(j, end);
            assert(text[j + 34] == this[34]);
            assert(text[j + 34] == '\r');
            assert(line[34] == '\r');
            assert(line == opening);
            assert(j == part_start(boundary, fields, file_names, files, i));
        } else {
            lemma_boundary_in_marked(boundary, "--"@, j + 2 - all.len());
            assert(j == last);
            assert(text[j + 34] == closing[34]);
            assert(closing[34] == '-');
            assert(line[34] == '-');
            assert(line == closing);
        }
    }
}

/// What follows the marker in the part of the field at `i` begins with a
/// line separator.
proof fn lemma_rest_free_at(
    boundary: Seq<char>,
    fields: Seq<(Seq<char>, Field)>,
    file_names: Seq<Option<Seq<char>>>,
    files: Seq<(Seq<char>, Seq<char>)>,
    i: int,
)
    requires
        is_boundary(boundary),
        apart(boundary, fields, file_names, files),
        0 <= i < fields.len(),
        part(boundary, fields[i].0, fields[i].1, file_name_at(file_names, i), files) is Ok,
    ensures
        ({
            let this = part(
                boundary,
                fields[i].0,
                fields[i].1,
                file_name_at(file_names, i),
                files,
            )->Ok_0;
            this.len() > 34 && this[34] == '\r'
        }),
{
    lemma_boundary_chars(boundary);
    reveal_strlit("--");
    lemma_rest_free(boundary, fields[i].0, fields[i].1, file_name_at(file_names, i), files);
    let this = part(boundary, fields[i].0, fields[i].1, file_name_at(file_names, i), files)->Ok_0;
    let rest = this.subrange(marker(boundary).len() as int, this.len() as int);
    assert(this[34] == rest[0]);
}

/// The multipart body. `file_names` holds, at the index of each file field,
/// the file name of its path, or `None` where the path has none.
pub fn multipart_body(
    boundary: &str,
    body: &Body,
    file_names: &Vec<Option<String>>,
    files: &Files,
) -> (r: Result<String, HttpError>)
    ensures
        encodes(r, multipart_text(boundary@, body@, names_view(file_names@), files@)),
{
    let n = body.len();
    let ghost names = names_view(file_names@);
    let mut text = String::new();
    let mut i: usize = 0;
    while i < n
        invariant
            n == body@.len(),
            i <= n,
            names == names_view(file_names@),
            parts(boundary@, body@, names, files@, i as int) == Ok::<Seq<char>, Fault>(text@),
        decreases n - i,
    {
        let ghost front = text@;
        let name = body.name_at(i);
        match body.value_at(i) {
            Data::String(value) => {
                text.append("--");
                text.append(boundary);
                text.append(SEP);
                text.append("Content-Disposition: form-data; name=");
                text.append(name.as_str());
                text.append(SEP);
                text.append(SEP);
                text.append(value.as_str());
                text.append(SEP);
                assert(text@ =~= front + text_part(boundary@, name@, value@));
            },
            Data::File(path) => {
                let file_name = if i < file_names.len() {
                    match &file_names[i] {
                        Some(file_name) => Some(file_name.clone()),
                        None => None,
                    }
                } else {
                    None
                };
                assert(text_view(file_name) == file_name_at(names, i as int));
                match file_name {
                    None => {
                        proof {
                            lemma_parts_fail(boundary@, body@, names, files@, i + 1, n as int);
                        }
                        return Err(HttpError::InvalidFilePath(path.clone()));
                    },
                    Some(file_name) => match files.get(path.as_str()) {
                        None => {
                            proof {
                                lemma_parts_fail(boundary@, body@, names, files@, i + 1, n as int);
                            }
                            return Err(HttpError::IO(path.clone()));
                        },
                        Some(content) => {
                            text.append("--");
                            text.append(boundary);
                            text.append(SEP);
                            text.append("Content-Disposition: form-data; name=");
                            text.append(name.as_str());
                            text.append("; filename=");
                            text.append(file_name.as_str());
                            text.append(SEP);
                            text.append(SEP);
                            text.append(content.as_str());
                            text.append(SEP);
                            assert(text@ =~= front + file_part(
                                boundary@,
                                name@,
                                file_name@,
                                content@,
                            ));
                        },
                    },
                }
            },
        }
        i += 1;
    }
    text.append("--");
    text.append(boundary);
    text.append("--");
    assert(text@ =~= parts(boundary@, body@, names, files@, n as int)->Ok_0 + closing_line(
        boundary@,
    ));
    Ok(text)
}

/// `std::path::Path::file_name` on `path`: the last component of the path
/// as text, where the path ends in one. Nothing is claimed of it: what a
/// path ends in is for the platform to say.
#[verifier::external_body]
fn file_name_of(path: &str) -> Option<String> {
    std::path::Path::new(path).file_name().and_then(|name| name.to_str()).map(str::to_string)
}

/// The file names are those of a body's fields: one place for each field,
/// and none on record at the place of a text field.
pub open spec fn names_of_fields(
    fields: Seq<(Seq<char>, Field)>,
    file_names: Seq<Option<Seq<char>>>,
) -> bool {
    &&& file_names.len() == fields.len()
    &&& forall|i: int|
        0 <= i < fields.len() && (#[trigger] fields[i]).1 is Text ==> file_names[i] is None
}

/// The file name of the path of every file field, at the index of the
/// field. The place of a text field holds none.
pub(crate) fn file_names_of(body: &Body) -> (file_names: Vec<Option<String>>)
    ensures
        names_of_fields(body@, names_view(file_names@)),
{
    let n = body.len();
    let mut file_names: Vec<Option<String>> = Vec::new();
    let mut i: usize = 0;
    while i < n
        invariant
            n == body@.len(),
            i <= n,
            file_names@.len() == i,
            forall|j: int|
                0 <= j < i && (#[trigger] body@[j]).1 is Text ==> file_names@[j] is None,
        decreases n - i,
    {
        match body.value_at(i) {
            Data::String(_) => file_names.push(None),
            Data::File(path) => file_names.push(file_name_of(path.as_str())),
        }
        i += 1;
    }
    file_names
}

} // verus!
