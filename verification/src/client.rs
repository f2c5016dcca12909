//! The client: what a caller sets, and the steps of a send.
//!
//! A send is made of steps, so that whoever holds the files and the network
//! can run it: `prepare`, then `attachments` to learn which files to read,
//! `create_request` for the text to send, `transport` for the connection to
//! send it over, and `receive` for what came back.

use crate::body::{file_paths, text_fields, texts_view, Body, Files};
use crate::consts::{lemma_words_differ, C_FORM, C_MULTIPART, H_CTYPE};
use crate::encode::create_body;
use crate::endpoint::{parsed_url, target_of, Endpoint};
use crate::err::HttpError;
use crate::fields::put;
use crate::form::form_text;
use crate::header::{normalized, organize_header, HeaderMap};
use crate::json::json_object_text;
use crate::multipart::{
    boundary_type, encodes, fault_of, is_boundary, multipart_text, names_of_fields,
    new_boundary, Fault,
};
use crate::request::{assemble, request_text};
use crate::response::{reads_as, Response};
use crate::text::same_text;
use crate::transport::{chooses, select_transport, Transport};
use vstd::prelude::*;

verus! {

/// A request in the making.
#[derive(Debug)]
pub struct HTTP {
    /// The response of a request that has not been sent: status 0, nothing
    /// else.
    pub response: Response,
    /// Where the request goes.
    pub url: Endpoint,
    /// The method.
    pub method: String,
    /// The fields of the body.
    pub body: Body,
    /// The headers that the caller gives.
    pub header: HeaderMap,
    /// A body that goes out as it is, in place of the fields, unless empty.
    pub body_str: String,
    /// Whether a certificate that does not hold is let through.
    pub danger_accept_invalid_certs: bool,
    /// The host of the URL; empty where it has none.
    pub host: String,
    /// The boundary of a multipart body.
    pub boundary: String,
    /// The text of the response as it came in.
    pub response_str: String,
}

/// The host of a URL as text: empty where it has none.
pub open spec fn host_text(host: Option<Seq<char>>) -> Seq<char> {
    match host {
        Some(host) => host,
        None => Seq::empty(),
    }
}

impl HTTP {
    /// Nothing is set yet but the URL and its host.
    pub open spec fn is_new(self) -> bool {
        &&& self.response.status == 0
        &&& self.response.header@.len() == 0
        &&& self.response.body@.len() == 0
        &&& self.method@.len() == 0
        &&& self.body@.len() == 0
        &&& self.header@.len() == 0
        &&& self.body_str@.len() == 0
        &&& !self.danger_accept_invalid_certs
        &&& self.host@ == host_text(self.url@.host)
        &&& self.boundary@.len() == 0
        &&& self.response_str@.len() == 0
    }

    /// The headers of the request and the content type that the caller
    /// asked for.
    pub open spec fn headers(self) -> (Seq<(Seq<char>, Seq<char>)>, Seq<char>) {
        normalized(self.header@, self.host@)
    }

    /// The fields are encoded as a multipart body.
    pub open spec fn is_multipart(self) -> bool {
        self.body_str@.len() == 0 && self.headers().1 == C_MULTIPART@
    }

    /// The paths of the files whose content the request needs: those of the
    /// file fields where the fields go out as a multipart body, none
    /// otherwise.
    pub open spec fn attached(self) -> Seq<Seq<char>> {
        if self.is_multipart() {
            file_paths(self.body@)
        } else {
            Seq::empty()
        }
    }

    /// `r` is the choice of the connection to send the request over.
    pub open spec fn connects(self, tls_available: bool, r: Result<Transport, HttpError>) -> bool {
        chooses(self.url@, self.host@, self.danger_accept_invalid_certs, tls_available, r)
    }

    /// The send has begun: there is a boundary, and the host is that of the
    /// URL, where it has one. Nothing else has changed since `before`.
    pub open spec fn prepared(self, before: HTTP, r: Result<(), HttpError>) -> bool {
        &&& is_boundary(self.boundary@)
        &&& self == (HTTP { boundary: self.boundary, host: self.host, ..before })
        &&& match r {
            Ok(_) => before.url@.host == Some(self.host@),
            Err(err) => before.url@.host is None && err is Parse && self.host == before.host,
        }
    }

    /// The response has come in as `raw`, and `r` is what it reads as.
    /// Nothing but the text that is kept has changed since `before`.
    pub open spec fn received(
        self,
        before: HTTP,
        raw: Seq<char>,
        r: Result<Response, HttpError>,
    ) -> bool {
        &&& self.response_str@ == raw
        &&& self == (HTTP { response_str: self.response_str, ..before })
        &&& reads_as(raw, r)
    }

    /// The request with `headers` and `body`.
    pub open spec fn wire_text(self, headers: Seq<(Seq<char>, Seq<char>)>, body: Seq<char>) -> Seq<
        char,
    > {
        request_text(self.method@, target_of(self.url@), headers, body)
    }

    /// `r` is the request that is to go out, where `files` holds the files
    /// that have been read: with the body that the caller gave as text, or
    /// with the fields in the encoding of the content type.
    pub open spec fn builds(
        self,
        files: Seq<(Seq<char>, Seq<char>)>,
        r: Result<String, HttpError>,
    ) -> bool {
        let headers = self.headers().0;
        let content_type = self.headers().1;
        if self.body_str@.len() > 0 {
            r matches Ok(text) && text@ == self.wire_text(headers, self.body_str@)
        } else if content_type == C_FORM@ {
            r matches Ok(text) && text@ == self.wire_text(headers, form_text(self.body@))
        } else if content_type == C_MULTIPART@ {
            exists|file_names: Seq<Option<Seq<char>>>|
                names_of_fields(self.body@, file_names) && self.builds_multipart(
                    #[trigger] multipart_text(self.boundary@, self.body@, file_names, files),
                    r,
                )
        } else {
            r matches Ok(text) && text@ == self.wire_text(
                headers,
                json_object_text(text_fields(self.body@)),
            )
        }
    }

    /// `r` is the request with the multipart body `body`, or the error of
    /// the field for which there is no part.
    pub open spec fn builds_multipart(
        self,
        body: Result<Seq<char>, Fault>,
        r: Result<String, HttpError>,
    ) -> bool {
        match body {
            Ok(body) => r matches Ok(text) && text@ == self.wire_text(
                put(self.headers().0, H_CTYPE@, boundary_type(self.boundary@)),
                body,
            ),
            Err(fault) => r matches Err(err) && fault_of(err) == Some(fault),
        }
    }

    /// A request to `url`, with nothing set.
    pub fn new(url: &str) -> (r: Result<HTTP, HttpError>)
        ensures
            match r {
                Ok(http) => parsed_url(url@) == Some(http.url@) && http.is_new(),
                Err(err) => parsed_url(url@) is None && err is Parse,
            },
    {
        let response = Response { status: 0, header: HeaderMap::new(), body: String::new() };
        let url = match Endpoint::parse(url) {
            Ok(url) => url,
            Err(err) => {
                return Err(err);
            },
        };
        let host = match &url.host {
            Some(host) => host.clone(),
            None => String::new(),
        };
        Ok(
            HTTP {
                response,
                url,
                method: String::new(),
                body: Body::new(),
                header: HeaderMap::new(),
                body_str: String::new(),
                danger_accept_invalid_certs: false,
                host,
                boundary: String::new(),
                response_str: String::new(),
            },
        )
    }

    /// Sets the method to `GET`.
    pub fn get(&mut self) -> (r: &mut Self)
        ensures
            r.method@ == "GET"@,
            *r == (HTTP { method: r.method, ..*old(self) }),
            *final(self) == *final(r),
    {
        self.method = "GET".to_owned();
        self
    }

    /// Sets the method to `POST`.
    pub fn post(&mut self) -> (r: &mut Self)
        ensures
            r.method@ == "POST"@,
            *r == (HTTP { method: r.method, ..*old(self) }),
            *final(self) == *final(r),
    {
        self.method = "POST".to_owned();
        self
    }

    /// Sets the method to `PUT`.
    pub fn put(&mut self) -> (r: &mut Self)
        ensures
            r.method@ == "PUT"@,
            *r == (HTTP { method: r.method, ..*old(self) }),
            *final(self) == *final(r),
    {
        self.method = "PUT".to_owned();
        self
    }

    /// Sets the method to `DELETE`.
    pub fn delete(&mut self) -> (r: &mut Self)
        ensures
            r.method@ == "DELETE"@,
            *r == (HTTP { method: r.method, ..*old(self) }),
            *final(self) == *final(r),
    {
        self.method = "DELETE".to_owned();
        self
    }

    /// Sets whether a certificate that does not hold is let through.
    pub fn danger_accept_invalid_certs(&mut self, danger_accept_invalid_certs: bool) -> (r:
        &mut Self)
        ensures
            *r == (HTTP { danger_accept_invalid_certs, ..*old(self) }),
            *final(self) == *final(r),
    {
        self.danger_accept_invalid_certs = danger_accept_invalid_certs;
        self
    }

    /// Sets the method to `method`.
    pub fn request(&mut self, method: &str) -> (r: &mut Self)
        ensures
            r.method@ == method@,
            *r == (HTTP { method: r.method, ..*old(self) }),
            *final(self) == *final(r),
    {
        self.method = method.to_owned();
        self
    }

    /// Sets the fields of the body.
    pub fn body(&mut self, data: Body) -> (r: &mut Self)
        ensures
            *r == (HTTP { body: data, ..*old(self) }),
            *final(self) == *final(r),
    {
        self.body = data;
        self
    }

    /// Sets a body that goes out as it is. An empty one leaves the body to
    /// the fields.
    pub fn body_as_str(&mut self, data: &str) -> (r: &mut Self)
        ensures
            r.body_str@ == data@,
            *r == (HTTP { body_str: r.body_str, ..*old(self) }),
            *final(self) == *final(r),
    {
        self.body_str = data.to_owned();
        self
    }

    /// Sets the headers.
    pub fn header(&mut self, data: HeaderMap) -> (r: &mut Self)
        ensures
            *r == (HTTP { header: data, ..*old(self) }),
            *final(self) == *final(r),
    {
        self.header = data;
        self
    }

    /// The first step of a send: draws a boundary and takes the host from
    /// the URL, which has to have one.
    pub fn prepare(&mut self) -> (r: Result<(), HttpError>)
        ensures
            final(self).prepared(*old(self), r),
    {
        self.boundary = new_boundary();
        match self.url.require_host() {
            Ok(host) => {
                self.host = host;
                Ok(())
            },
            Err(err) => Err(err),
        }
    }

    /// The paths of the files whose content the request needs: those of the
    /// file fields where the fields go out as a multipart body, none
    /// otherwise.
    pub fn attachments(&self) -> (paths: Vec<String>)
        ensures
            texts_view(paths@) == self.attached(),
    {
        let (_, content_type) = organize_header(&self.header, self.host.as_str());
        if self.body_str.as_str().is_empty() && same_text(content_type.as_str(), C_MULTIPART) {
            self.body.paths()
        } else {
            let paths: Vec<String> = Vec::new();
            assert(texts_view(paths@) =~= Seq::<Seq<char>>::empty());
            paths
        }
    }

    /// The text of the request. `files` holds the files that have been
    /// read.
    pub fn create_request(&self, files: &Files) -> (r: Result<String, HttpError>)
        ensures
            self.builds(files@, r),
    {
        proof {
            lemma_words_differ();
        }
        let (mut header, content_type) = organize_header(&self.header, self.host.as_str());
        let ghost headers = header@;
        let target = self.url.target();
        if !self.body_str.as_str().is_empty() {
            return Ok(
                assemble(self.method.as_str(), target.as_str(), header, self.body_str.as_str()),
            );
        }
        let made = create_body(
            content_type.as_str(),
            &self.body,
            &mut header,
            self.boundary.as_str(),
            files,
        );
        let r = match made {
            Ok(body) => Ok(assemble(self.method.as_str(), target.as_str(), header, body.as_str())),
            Err(err) => Err(err),
        };
        proof {
            if content_type@ == C_MULTIPART@ {
                let file_names = choose|file_names: Seq<Option<Seq<char>>>|
                    names_of_fields(self.body@, file_names) && encodes(
                        made,
                        #[trigger] multipart_text(
                            self.boundary@,
                            self.body@,
                            file_names,
                            files@,
                        ),
                    );
                assert(self.builds_multipart(
                    multipart_text(self.boundary@, self.body@, file_names, files@),
                    r,
                ));
            }
        }
        r
    }

    /// The connection to send the request over. `tls_available` tells
    /// whether a secure one can be had.
    pub fn transport(&self, tls_available: bool) -> (r: Result<Transport, HttpError>)
        ensures
            self.connects(tls_available, r),
    {
        select_transport(
            &self.url,
            self.host.as_str(),
            self.danger_accept_invalid_certs,
            tls_available,
        )
    }

    /// The last step of a send: keeps the text that came back and reads it
    /// as a response.
    pub fn receive(&mut self, raw: String) -> (r: Result<Response, HttpError>)
        ensures
            final(self).received(*old(self), raw@, r),
    {
        self.response_str = raw.clone();
        Response::new(raw)
    }

    /// One step of a send: takes what happened outside and tells what is to
    /// be done outside next. A send begins with `Event::Start` and is over
    /// with `Action::Done` or with an error.
    ///
    /// At the start the request is prepared, and the files that it needs
    /// are asked for. With the files read, the request is built and its
    /// connection is chosen; the request is built first, so that its error
    /// comes before that of a connection that cannot be had. With the
    /// response in, it is read.
    pub fn step(&mut self, event: Event, tls_available: bool) -> (r: Result<Action, HttpError>)
        ensures
            match event {
                Event::Start => match r {
                    Ok(action) => {
                        &&& final(self).prepared(*old(self), Ok(()))
                        &&& action matches Action::ReadFiles(paths)
                        &&& texts_view(paths@) == final(self).attached()
                    },
                    Err(err) => final(self).prepared(*old(self), Err(err)),
                },
                Event::FilesRead(files) => {
                    &&& *final(self) == *old(self)
                    &&& match r {
                        Ok(action) => {
                            &&& action matches Action::Exchange(transport, request)
                            &&& old(self).builds(files@, Ok(request))
                            &&& old(self).connects(tls_available, Ok(transport))
                        },
                        Err(err) => {
                            ||| old(self).builds(files@, Err(err))
                            ||| {
                                &&& old(self).connects(tls_available, Err(err))
                                &&& exists|request: String|
                                    #[trigger] old(self).builds(files@, Ok(request))
                            }
                        },
                    }
                },
                Event::Received(raw) => match r {
                    Ok(action) => {
                        &&& action matches Action::Done(response)
                        &&& final(self).received(*old(self), raw@, Ok(response))
                    },
                    Err(err) => final(self).received(*old(self), raw@, Err(err)),
                },
            },
    {
        match event {
            Event::Start => match self.prepare() {
                Ok(_) => Ok(Action::ReadFiles(self.attachments())),
                Err(err) => Err(err),
            },
            Event::FilesRead(files) => {
                let request = match self.create_request(&files) {
                    Ok(request) => request,
                    Err(err) => {
                        return Err(err);
                    },
                };
                match self.transport(tls_available) {
                    Ok(transport) => Ok(Action::Exchange(transport, request)),
                    Err(err) => {
                        assert(self.builds(files@, Ok(request)));
                        Err(err)
                    },
                }
            },
            Event::Received(raw) => match self.receive(raw) {
                Ok(response) => Ok(Action::Done(response)),
                Err(err) => Err(err),
            },
        }
    }
}

/// What happened outside since the last step of a send.
#[derive(Debug)]
pub enum Event {
    /// Nothing yet: the send begins.
    Start,
    /// The files that were asked for have been read, as far as they could
    /// be.
    FilesRead(Files),
    /// The response has come in, to its end.
    Received(String),
}

/// What is to be done outside for a send.
#[derive(Debug)]
pub enum Action {
    /// Read the files at these paths.
    ReadFiles(Vec<String>),
    /// Open this connection, write the request to it, and read what comes
    /// back to its end.
    Exchange(Transport, String),
    /// Nothing more: the send is over, and this is the response.
    Done(Response),
}

} // verus!
