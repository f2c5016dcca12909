//! Where a request goes: the parts of its URL.

use crate::err::HttpError;
use crate::text::text_view;
use vstd::prelude::*;

verus! {

/// The parts of a URL that a request is made from.
#[derive(Debug)]
pub struct Endpoint {
    /// The scheme in lower case, without the colon.
    pub scheme: String,
    /// The host, where the URL has one.
    pub host: Option<String>,
    /// The port, where the URL names one that is not the default of its scheme.
    pub port: Option<u16>,
    /// The path.
    pub path: String,
    /// What follows the question mark, where there is one.
    pub query: Option<String>,
}

/// An `Endpoint` with each text as its characters.
pub struct UrlParts {
    pub scheme: Seq<char>,
    pub host: Option<Seq<char>>,
    pub port: Option<u16>,
    pub path: Seq<char>,
    pub query: Option<Seq<char>>,
}

impl View for Endpoint {
    type V = UrlParts;

    open spec fn view(&self) -> UrlParts {
        UrlParts {
            scheme: self.scheme@,
            host: text_view(self.host),
            port: self.port,
            path: self.path@,
            query: text_view(self.query),
        }
    }
}

/// What a request line names: the path, and the query behind a question
/// mark where there is one.
pub open spec fn target_of(url: UrlParts) -> Seq<char> {
    match url.query {
        Some(query) => url.path + "?"@ + query,
        None => url.path,
    }
}

/// The parts of the absolute URL that `text` holds, as the URL parser finds
/// them; `None` where `text` holds no such URL.
pub uninterp spec fn parsed_url(text: Seq<char>) -> Option<UrlParts>;

/// `url::Url::parse`, and of the URL that it returns `scheme`, `host_str`,
/// `port`, `path` and `query`. The parser reads nothing but its argument, so
/// its answer is a function of the text: `parsed_url`.
#[verifier::external_body]
fn parse_url(text: &str) -> (r: Result<Endpoint, url::ParseError>)
    ensures
        match r {
            Ok(endpoint) => parsed_url(text@) == Some(endpoint@),
            Err(_) => parsed_url(text@) is None,
        },
{
    let parsed = url::Url::parse(text)?;
    Ok(
        Endpoint {
            scheme: parsed.scheme().to_string(),
            host: parsed.host_str().map(str::to_string),
            port: parsed.port(),
            path: parsed.path().to_string(),
            query: parsed.query().map(str::to_string),
        },
    )
}

/// `url::ParseError::EmptyHost`, the error of the URL parser for a URL
/// without a host. Nothing is claimed of it.
#[verifier::external_body]
fn empty_host() -> url::ParseError {
    url::ParseError::EmptyHost
}

impl Endpoint {
    /// The parts of the URL that `text` holds.
    pub fn parse(text: &str) -> (r: Result<Endpoint, HttpError>)
        ensures
            match r {
                Ok(endpoint) => parsed_url(text@) == Some(endpoint@),
                Err(err) => parsed_url(text@) is None && err is Parse,
            },
    {
        match parse_url(text) {
            Ok(endpoint) => Ok(endpoint),
            Err(err) => Err(HttpError::from(err)),
        }
    }

    /// What a request line names.
    pub fn target(&self) -> (target: String)
        ensures
            target@ == target_of(self@),
    {
        let mut target = self.path.clone();
        match &self.query {
            Some(query) => {
                target.append("?");
                target.append(query.as_str());
            },
            None => {},
        }
        target
    }

    /// The host, or the error of a URL without one.
    pub fn require_host(&self) -> (r: Result<String, HttpError>)
        ensures
            match r {
                Ok(host) => self@.host == Some(host@),
                Err(err) => self@.host is None && err is Parse,
            },
    {
        match &self.host {
            Some(host) => Ok(host.clone()),
            None => Err(HttpError::Parse(empty_host())),
        }
    }
}

} // verus!
