//! The errors of the client.

use crate::number::IntErrorKind;
use vstd::prelude::*;

verus! {

/// `url::ParseError`, the error of the URL parser. It is carried as it
/// is; nothing is known of what it holds.
#[verifier::external_type_specification]
#[verifier::external_body]
pub struct ExUrlParseError(url::ParseError);

/// `serde_json::Error`, the error of the JSON serializer. It is carried as
/// it is; nothing is known of what it holds.
#[verifier::external_type_specification]
#[verifier::external_body]
pub struct ExJsonError(serde_json::Error);

/// Why a request could not be made or a response could not be read.
#[derive(Debug)]
pub enum HttpError {
    /// The URL does not parse, or names no host.
    Parse(url::ParseError),
    /// The content of the file at this path is not at hand.
    IO(String),
    /// The body did not serialize as JSON.
    Json(serde_json::Error),
    /// The status of a response is not a number.
    ParseInt(IntErrorKind),
    /// A secure connection is asked for and there is no support for one.
    MissingFeature(String),
    /// The file path of a multipart field has no file name.
    InvalidFilePath(String),
}

impl From<url::ParseError> for HttpError {
    fn from(err: url::ParseError) -> (r: HttpError) {
        HttpError::Parse(err)
    }
}

impl vstd::std_specs::convert::FromSpecImpl<url::ParseError> for HttpError {
    open spec fn obeys_from_spec() -> bool {
        true
    }

    open spec fn from_spec(err: url::ParseError) -> HttpError {
        HttpError::Parse(err)
    }
}

impl From<serde_json::Error> for HttpError {
    fn from(err: serde_json::Error) -> (r: HttpError) {
        HttpError::Json(err)
    }
}

impl vstd::std_specs::convert::FromSpecImpl<serde_json::Error> for HttpError {
    open spec fn obeys_from_spec() -> bool {
        true
    }

    open spec fn from_spec(err: serde_json::Error) -> HttpError {
        HttpError::Json(err)
    }
}

impl From<IntErrorKind> for HttpError {
    fn from(err: IntErrorKind) -> (r: HttpError) {
        HttpError::ParseInt(err)
    }
}

impl vstd::std_specs::convert::FromSpecImpl<IntErrorKind> for HttpError {
    open spec fn obeys_from_spec() -> bool {
        true
    }

    open spec fn from_spec(err: IntErrorKind) -> HttpError {
        HttpError::ParseInt(err)
    }
}

/// The words of `url::ParseError`: what its `Display` writes. Nothing is
/// claimed of them.
#[verifier::external_body]
fn url_error_text(err: &url::ParseError) -> String {
    format!("{}", err)
}

/// The words of `serde_json::Error`: what its `Display` writes. Nothing is
/// claimed of them.
#[verifier::external_body]
fn json_error_text(err: &serde_json::Error) -> String {
    format!("{}", err)
}

/// What is said of a status that is no number.
pub open spec fn int_error_text(kind: IntErrorKind) -> Seq<char> {
    match kind {
        IntErrorKind::Empty => "cannot parse integer from empty string"@,
        IntErrorKind::InvalidDigit => "invalid digit found in string"@,
        IntErrorKind::PosOverflow => "number too large to fit in target type"@,
    }
}

/// What an error reads like, where the library itself knows the words: all
/// of it, but for what an error of the URL parser or of the JSON serializer
/// says of itself.
pub open spec fn message_text(err: HttpError) -> Seq<char> {
    match err {
        HttpError::Parse(_) => "Parse error: "@,
        HttpError::IO(path) => "Parse error: cannot read "@ + path@,
        HttpError::Json(_) => "Parse error: "@,
        HttpError::ParseInt(kind) => "Parse error: "@ + int_error_text(kind),
        HttpError::MissingFeature(what) => "Missing feature: "@ + what@,
        HttpError::InvalidFilePath(_) => "Parse error: wrong file path"@,
    }
}

impl HttpError {
    /// The error in words. Behind `Parse error: `, an error of the URL
    /// parser or of the JSON serializer speaks for itself.
    pub fn message(&self) -> (text: String)
        ensures
            message_text(*self).is_prefix_of(text@),
            !(self is Parse || self is Json) ==> text@ == message_text(*self),
    {
        match self {
            HttpError::Parse(err) => {
                let mut text = "Parse error: ".to_owned();
                let detail = url_error_text(err);
                text.append(detail.as_str());
                text
            },
            HttpError::IO(path) => {
                let mut text = "Parse error: cannot read ".to_owned();
                text.append(path.as_str());
                text
            },
            HttpError::Json(err) => {
                let mut text = "Parse error: ".to_owned();
                let detail = json_error_text(err);
                text.append(detail.as_str());
                text
            },
            HttpError::ParseInt(kind) => {
                let mut text = "Parse error: ".to_owned();
                text.append(
                    match kind {
                        IntErrorKind::Empty => "cannot parse integer from empty string",
                        IntErrorKind::InvalidDigit => "invalid digit found in string",
                        IntErrorKind::PosOverflow => "number too large to fit in target type",
                    },
                );
                text
            },
            HttpError::MissingFeature(what) => {
                let mut text = "Missing feature: ".to_owned();
                text.append(what.as_str());
                text
            },
            HttpError::InvalidFilePath(_) => "Parse error: wrong file path".to_owned(),
        }
    }
}

} // verus!
