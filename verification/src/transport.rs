//! Which connection a request goes over.

use crate::consts::{DEF_PORT, DEF_SSL_PORT};
use crate::endpoint::{Endpoint, UrlParts};
use crate::err::HttpError;
use crate::text::same_text;
use vstd::prelude::*;

verus! {

/// The connection to open for a request.
#[derive(Debug)]
pub struct Transport {
    /// The host to connect to, and the name that a certificate has to bear.
    pub host: String,
    /// The port to connect to.
    pub port: u16,
    /// Whether the connection is encrypted.
    pub secure: bool,
    /// Whether a certificate that does not hold is let through.
    pub accept_invalid_certs: bool,
}

/// The scheme is the one that goes over a plain connection.
pub open spec fn is_plain(scheme: Seq<char>) -> bool {
    scheme == "http"@
}

/// The port of a URL: the one that it names, or the default of the kind of
/// connection.
pub open spec fn port_of(url: UrlParts) -> u16 {
    match url.port {
        Some(port) => port,
        None => if is_plain(url.scheme) {
            DEF_PORT
        } else {
            DEF_SSL_PORT
        },
    }
}

/// What is said where a secure connection is asked for and cannot be had.
pub const NO_TLS: &'static str = "Lib not compiled with feature native-tls active";

/// `r` is the choice of a connection for `url`: a plain one for the scheme
/// `http`, a secure one for any other, to `host` and to the port of the
/// URL. Where a secure one is to be chosen and `tls_available` is false,
/// `r` is the error that says so.
pub open spec fn chooses(
    url: UrlParts,
    host: Seq<char>,
    accept_invalid_certs: bool,
    tls_available: bool,
    r: Result<Transport, HttpError>,
) -> bool {
    match r {
        Ok(transport) => {
            &&& is_plain(url.scheme) || tls_available
            &&& transport.host@ == host
            &&& transport.port == port_of(url)
            &&& transport.secure == !is_plain(url.scheme)
            &&& transport.accept_invalid_certs == accept_invalid_certs
        },
        Err(err) => {
            &&& !is_plain(url.scheme)
            &&& !tls_available
            &&& err matches HttpError::MissingFeature(what)
            &&& what@ == NO_TLS@
        },
    }
}

/// Chooses the connection for `url`: a plain one for the scheme `http`, a
/// secure one for any other. A secure one cannot be chosen where
/// `tls_available` is false.
pub fn select_transport(
    url: &Endpoint,
    host: &str,
    accept_invalid_certs: bool,
    tls_available: bool,
) -> (r: Result<Transport, HttpError>)
    ensures
        chooses(url@, host@, accept_invalid_certs, tls_available, r),
{
    let plain = same_text(url.scheme.as_str(), "http");
    if !plain && !tls_available {
        return Err(HttpError::MissingFeature(NO_TLS.to_owned()));
    }
    let port = match url.port {
        Some(port) => port,
        None => if plain {
            DEF_PORT
        } else {
            DEF_SSL_PORT
        },
    };
    Ok(Transport { host: host.to_owned(), port, secure: !plain, accept_invalid_certs })
}

} // verus!
