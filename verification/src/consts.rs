//! The fixed words of the protocol.

use vstd::prelude::*;

verus! {

/// The protocol version that every request line ends with.
pub const HTTP_VERSION: &'static str = "HTTP/1.1";

/// The line separator.
pub const SEP: &'static str = "\r\n";

/// The blank line between head and body: two separators.
pub const BLANK_LINE: &'static str = "\r\n\r\n";

/// A method that carries a body.
pub const M_POST: &'static str = "POST";

/// A method that carries a body.
pub const M_PUT: &'static str = "PUT";

/// The content type that applies where none is given or recognized.
pub const C_JSON: &'static str = "application/json";

/// The content type of `name=value` pairs joined by `&`.
pub const C_FORM: &'static str = "application/x-www-form-urlencoded";

/// The content type of parts between boundary lines.
pub const C_MULTIPART: &'static str = "multipart/form-data";

/// The port of a plain connection where the URL names none.
pub const DEF_PORT: u16 = 80;

/// The port of a secure connection where the URL names none.
pub const DEF_SSL_PORT: u16 = 443;

/// The `Accept` header where the caller gives none.
pub const DEF_ACCEPT: &'static str = "*/*";

/// The `Connection` header where the caller gives none.
pub const DEF_CONN: &'static str = "close";

/// The header that names the host.
pub const H_HOST: &'static str = "Host";

/// The header that tells which content types are welcome.
pub const H_ACCPT: &'static str = "Accept";

/// The header that tells what becomes of the connection.
pub const H_CONN: &'static str = "Connection";

/// The header that tells the content type of the body.
pub const H_CTYPE: &'static str = "Content-Type";

/// The header that tells the length of the body.
pub const H_CLEN: &'static str = "Content-Length";

/// The number of characters of a boundary.
pub const BOUNDARY_LEN: usize = 32;

/// What stands between two header values that are merged into one.
pub const JOIN: &'static str = "; ";

/// The four header names differ from one another, and so do the three
/// content types.
pub proof fn lemma_words_differ()
    ensures
        H_HOST@ != H_ACCPT@,
        H_HOST@ != H_CONN@,
        H_HOST@ != H_CTYPE@,
        H_ACCPT@ != H_CONN@,
        H_ACCPT@ != H_CTYPE@,
        H_CONN@ != H_CTYPE@,
        C_JSON@ != C_FORM@,
        C_JSON@ != C_MULTIPART@,
        C_FORM@ != C_MULTIPART@,
        C_JSON@.len() > 0,
{
    reveal_strlit("Host");
    reveal_strlit("Accept");
    reveal_strlit("Connection");
    reveal_strlit("Content-Type");
    reveal_strlit("application/json");
    reveal_strlit("application/x-www-form-urlencoded");
    reveal_strlit("multipart/form-data");
    assert(H_HOST@.len() == 4);
    assert(H_ACCPT@.len() == 6);
    assert(H_CONN@.len() == 10);
    assert(H_CTYPE@.len() == 12);
    assert(C_JSON@.len() == 16);
    assert(C_FORM@.len() == 33);
    assert(C_MULTIPART@.len() == 19);
}

} // verus!
