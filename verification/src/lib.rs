//! A small HTTP/1.1 client: the text of a request, the connection that it
//! goes over, and the reading of what comes back.

pub mod body;
pub mod client;
pub mod consts;
pub mod encode;
pub mod endpoint;
pub mod err;
pub mod fields;
pub mod form;
pub mod header;
pub mod json;
pub mod multipart;
pub mod number;
pub mod request;
pub mod response;
pub mod text;
pub mod transport;

pub use body::{Body, Data, Files};
pub use client::{Action, Event, HTTP};
pub use encode::create_body;
pub use endpoint::Endpoint;
pub use err::HttpError;
pub use header::{organize_header, HeaderMap};
pub use number::IntErrorKind;
pub use response::Response;
pub use transport::Transport;
