use knock::request::{assemble, is_body_method};
use knock::transport::select_transport;
use knock::{
    Action, Body, Data, Endpoint, Event, Files, HeaderMap, HttpError, IntErrorKind, HTTP,
};

fn headers(pairs: &[(&str, &str)]) -> HeaderMap {
    let mut map = HeaderMap::new();
    for (name, value) in pairs {
        map.insert(name.to_string(), value.to_string());
    }
    map
}

#[test]
fn body_methods_are_post_and_put() {
    assert!(is_body_method("POST"));
    assert!(is_body_method("PUT"));
    assert!(!is_body_method("GET"));
    assert!(!is_body_method("post"));
    assert!(!is_body_method(""));
}

#[test]
fn assemble_writes_line_headers_and_body() {
    let text = assemble("GET", "/a?b=c", headers(&[("Host", "h"), ("X", "y")]), "body");
    assert_eq!(text, "GET /a?b=c HTTP/1.1\r\nHost: h\r\nX: y\r\n\r\nbody");
}

#[test]
fn assemble_without_headers_and_body() {
    let text = assemble("DELETE", "/", HeaderMap::new(), "");
    assert_eq!(text, "DELETE / HTTP/1.1\r\n\r\n");
}

#[test]
fn assemble_tells_the_length_of_a_posted_body_in_bytes() {
    let text = assemble("POST", "/", headers(&[("Host", "h")]), "grüße ✓");
    assert_eq!(text, "POST / HTTP/1.1\r\nHost: h\r\nContent-Length: 11\r\n\r\ngrüße ✓");
    let text = assemble("PUT", "/", headers(&[("Content-Length", "99"), ("Host", "h")]), "");
    assert_eq!(text, "PUT / HTTP/1.1\r\nContent-Length: 0\r\nHost: h\r\n\r\n");
}

#[test]
fn get_request_has_the_default_headers_and_an_empty_object() {
    let mut http = HTTP::new("http://moo.com/?foo=bar").unwrap();
    let request = http.get().create_request(&Files::new()).unwrap();
    assert_eq!(
        request,
        "GET /?foo=bar HTTP/1.1\r\nHost: moo.com\r\nAccept: */*\r\nConnection: close\r\n\
         Content-Type: application/json\r\n\r\n{}"
    );
}

#[test]
fn request_with_body_as_text() {
    let mut http = HTTP::new("http://httpbin.org/post").unwrap();
    let mut fields = Body::new();
    fields.insert("ignored".to_string(), Data::String("x".to_string()));
    let request = http
        .post()
        .header(headers(&[("Content-Type", "application/json")]))
        .body(fields)
        .body_as_str("{\"key\":\"value\"}")
        .create_request(&Files::new())
        .unwrap();
    assert_eq!(
        request,
        "POST /post HTTP/1.1\r\nContent-Type: application/json\r\nHost: httpbin.org\r\n\
         Accept: */*\r\nConnection: close\r\nContent-Length: 15\r\n\r\n{\"key\":\"value\"}"
    );
}

#[test]
fn urlencoded_request() {
    let mut http = HTTP::new("http://example.com/form").unwrap();
    let mut fields = Body::new();
    fields.insert("a".to_string(), Data::String("1".to_string()));
    fields.insert("b".to_string(), Data::String("2".to_string()));
    let request = http
        .put()
        .header(headers(&[("Content-Type", "application/x-www-form-urlencoded")]))
        .body(fields)
        .create_request(&Files::new())
        .unwrap();
    assert_eq!(
        request,
        "PUT /form HTTP/1.1\r\nContent-Type: application/x-www-form-urlencoded\r\n\
         Host: example.com\r\nAccept: */*\r\nConnection: close\r\nContent-Length: 7\r\n\r\na=1&b=2"
    );
}

#[test]
fn multipart_request_tells_the_boundary_in_its_header() {
    let mut http = HTTP::new("http://example.com/upload").unwrap();
    let mut fields = Body::new();
    fields.insert("note".to_string(), Data::String("hi".to_string()));
    fields.insert("doc".to_string(), Data::File("/tmp/dir/doc.txt".to_string()));
    http.post().header(headers(&[("Content-Type", "multipart/form-data")])).body(fields);
    http.boundary = "BOUND".to_string();
    assert_eq!(http.attachments(), vec!["/tmp/dir/doc.txt".to_string()]);
    let mut files = Files::new();
    files.insert("/tmp/dir/doc.txt".to_string(), "text".to_string());
    let request = http.create_request(&files).unwrap();
    let body = "--BOUND\r\nContent-Disposition: form-data; name=note\r\n\r\nhi\r\n\
                --BOUND\r\nContent-Disposition: form-data; name=doc; filename=doc.txt\r\n\r\n\
                text\r\n--BOUND--";
    assert_eq!(
        request,
        format!(
            "POST /upload HTTP/1.1\r\nContent-Type: multipart/form-data; boundary=BOUND\r\n\
             Host: example.com\r\nAccept: */*\r\nConnection: close\r\nContent-Length: {}\r\n\r\n{}",
            body.len(),
            body
        )
    );
    let err = http.create_request(&Files::new()).unwrap_err();
    assert!(matches!(err, HttpError::IO(ref path) if path == "/tmp/dir/doc.txt"));
}

#[test]
fn attachments_are_asked_for_a_multipart_body_only() {
    let mut http = HTTP::new("http://example.com/").unwrap();
    let mut fields = Body::new();
    fields.insert("a".to_string(), Data::File("one".to_string()));
    fields.insert("b".to_string(), Data::String("text".to_string()));
    fields.insert("c".to_string(), Data::File("two".to_string()));
    http.post().body(fields);
    assert_eq!(http.attachments(), Vec::<String>::new());
    http.header(headers(&[("Content-Type", "application/x-www-form-urlencoded")]));
    assert_eq!(http.attachments(), Vec::<String>::new());
    http.header(headers(&[("Content-Type", "multipart/form-data")]));
    assert_eq!(http.attachments(), vec!["one".to_string(), "two".to_string()]);
    http.body_as_str("raw");
    assert_eq!(http.attachments(), Vec::<String>::new());
}

#[test]
fn new_request_has_nothing_set() {
    let http = HTTP::new("https://example.com:8443/api/date?x=1#frag").unwrap();
    assert_eq!(http.url.scheme, "https");
    assert_eq!(http.url.host, Some("example.com".to_string()));
    assert_eq!(http.url.port, Some(8443));
    assert_eq!(http.url.path, "/api/date");
    assert_eq!(http.url.query, Some("x=1".to_string()));
    assert_eq!(http.url.target(), "/api/date?x=1");
    assert_eq!(http.host, "example.com");
    assert_eq!(http.method, "");
    assert_eq!(http.body.len(), 0);
    assert_eq!(http.header.len(), 0);
    assert_eq!(http.body_str, "");
    assert!(!http.danger_accept_invalid_certs);
    assert_eq!(http.boundary, "");
    assert_eq!(http.response_str, "");
    assert_eq!(http.response.status, 0);
    assert_eq!(http.response.header.len(), 0);
    assert_eq!(http.response.body, "");
}

#[test]
fn url_is_read_by_the_url_parser() {
    let url = Endpoint::parse("HTTP://Example.COM:80/a b/../c?q=ä").unwrap();
    assert_eq!(url.scheme, "http");
    assert_eq!(url.host, Some("example.com".to_string()));
    assert_eq!(url.port, None);
    assert_eq!(url.path, "/c");
    assert_eq!(url.query, Some("q=%C3%A4".to_string()));
    assert_eq!(url.target(), "/c?q=%C3%A4");
    let url = Endpoint::parse("http://example.com").unwrap();
    assert_eq!(url.path, "/");
    assert_eq!(url.query, None);
    assert_eq!(url.target(), "/");
}

#[test]
fn url_that_does_not_parse_is_refused() {
    let err = HTTP::new("not a url").unwrap_err();
    assert!(matches!(err, HttpError::Parse(url::ParseError::RelativeUrlWithoutBase)));
    let err = HTTP::new("http://").unwrap_err();
    assert!(matches!(err, HttpError::Parse(url::ParseError::EmptyHost)));
    let err = Endpoint::parse("http://example.com:99999/").unwrap_err();
    assert!(matches!(err, HttpError::Parse(url::ParseError::InvalidPort)));
}

#[test]
fn setters_set_one_thing_each() {
    let mut http = HTTP::new("http://example.com/").unwrap();
    assert_eq!(http.post().method, "POST");
    assert_eq!(http.put().method, "PUT");
    assert_eq!(http.delete().method, "DELETE");
    assert_eq!(http.get().method, "GET");
    assert_eq!(http.request("OPTIONS").method, "OPTIONS");
    assert!(http.danger_accept_invalid_certs(true).danger_accept_invalid_certs);
    assert_eq!(http.body_as_str("raw").body_str, "raw");
    assert_eq!(http.header(headers(&[("A", "b")])).header.get("A"), Some(&"b".to_string()));
    let mut fields = Body::new();
    fields.insert("k".to_string(), Data::String("v".to_string()));
    assert_eq!(http.body(fields).body.len(), 1);
    assert_eq!(http.method, "OPTIONS");
    assert_eq!(http.host, "example.com");
}

#[test]
fn prepare_draws_a_boundary_and_takes_the_host() {
    let mut http = HTTP::new("http://example.com/").unwrap();
    http.host = "stale".to_string();
    http.get();
    assert!(http.prepare().is_ok());
    assert_eq!(http.host, "example.com");
    assert_eq!(http.boundary.len(), 32);
    assert!(http.boundary.chars().all(|c| c.is_ascii_alphanumeric()));
    assert_eq!(http.method, "GET");
}

#[test]
fn prepare_refuses_a_url_without_host() {
    let mut http = HTTP::new("unix:/run/foo.socket").unwrap();
    assert_eq!(http.url.host, None);
    assert_eq!(http.host, "");
    let err = http.prepare().unwrap_err();
    assert!(matches!(err, HttpError::Parse(url::ParseError::EmptyHost)));
    assert_eq!(http.boundary.len(), 32);
    assert_eq!(http.host, "");
}

#[test]
fn plain_transport_for_http() {
    let http = HTTP::new("http://example.com/").unwrap();
    for tls_available in [true, false] {
        let transport = http.transport(tls_available).unwrap();
        assert_eq!(transport.host, "example.com");
        assert_eq!(transport.port, 80);
        assert!(!transport.secure);
        assert!(!transport.accept_invalid_certs);
    }
    let http = HTTP::new("http://example.com:8080/").unwrap();
    assert_eq!(http.transport(false).unwrap().port, 8080);
}

#[test]
fn secure_transport_for_any_other_scheme() {
    let mut http = HTTP::new("https://example.com/").unwrap();
    let transport = http.transport(true).unwrap();
    assert_eq!(transport.host, "example.com");
    assert_eq!(transport.port, 443);
    assert!(transport.secure);
    assert!(!transport.accept_invalid_certs);
    http.danger_accept_invalid_certs(true);
    assert!(http.transport(true).unwrap().accept_invalid_certs);
    let http = HTTP::new("https://example.com:8443/").unwrap();
    assert_eq!(http.transport(true).unwrap().port, 8443);
    let url = Endpoint::parse("ftp://example.com/").unwrap();
    let transport = select_transport(&url, "example.com", false, true).unwrap();
    assert!(transport.secure);
    assert_eq!(transport.port, 443);
}

#[test]
fn secure_transport_that_cannot_be_had_is_a_missing_feature() {
    let http = HTTP::new("https://example.com/").unwrap();
    let err = http.transport(false).unwrap_err();
    assert!(matches!(
        err,
        HttpError::MissingFeature(ref what) if what == "Lib not compiled with feature native-tls active"
    ));
}

#[test]
fn receive_keeps_the_text_and_reads_it() {
    let mut http = HTTP::new("http://example.com/").unwrap();
    let response = http.receive("HTTP/1.1 201 Created\r\nA: b\r\n\r\nok".to_string()).unwrap();
    assert_eq!(response.status, 201);
    assert_eq!(response.header.get("A"), Some(&"b".to_string()));
    assert_eq!(response.body, "ok");
    assert_eq!(http.response_str, "HTTP/1.1 201 Created\r\nA: b\r\n\r\nok");
    assert_eq!(http.response.status, 0);
    let err = http.receive("HTTP/1.1 two\r\n\r\n".to_string()).unwrap_err();
    assert!(matches!(err, HttpError::ParseInt(IntErrorKind::InvalidDigit)));
    assert_eq!(http.response_str, "HTTP/1.1 two\r\n\r\n");
}

#[test]
fn errors_in_words() {
    assert_eq!(
        HttpError::ParseInt(IntErrorKind::Empty).message(),
        "Parse error: cannot parse integer from empty string"
    );
    assert_eq!(
        HttpError::ParseInt(IntErrorKind::InvalidDigit).message(),
        "Parse error: invalid digit found in string"
    );
    assert_eq!(
        HttpError::ParseInt(IntErrorKind::PosOverflow).message(),
        "Parse error: number too large to fit in target type"
    );
    assert_eq!(
        HttpError::MissingFeature("tls".to_string()).message(),
        "Missing feature: tls"
    );
    assert_eq!(HttpError::IO("a/b".to_string()).message(), "Parse error: cannot read a/b");
    assert_eq!(
        HttpError::InvalidFilePath("..".to_string()).message(),
        "Parse error: wrong file path"
    );
    assert_eq!(
        HttpError::Parse(url::ParseError::EmptyHost).message(),
        "Parse error: empty host"
    );
    let failure = serde_json::from_str::<serde_json::Value>("{").unwrap_err();
    let expected = format!("Parse error: {}", failure);
    assert_eq!(HttpError::Json(failure).message(), expected);
}

#[test]
fn steps_of_a_send() {
    let mut http = HTTP::new("http://example.com:8080/upload?x=1").unwrap();
    let mut fields = Body::new();
    fields.insert("doc".to_string(), Data::File("dir/doc.txt".to_string()));
    http.post().header(headers(&[("Content-Type", "multipart/form-data")])).body(fields);

    let paths = match http.step(Event::Start, false).unwrap() {
        Action::ReadFiles(paths) => paths,
        other => panic!("{:?}", other),
    };
    assert_eq!(paths, vec!["dir/doc.txt".to_string()]);
    assert_eq!(http.host, "example.com");
    let boundary = http.boundary.clone();
    assert_eq!(boundary.len(), 32);

    let mut files = Files::new();
    files.insert("dir/doc.txt".to_string(), "text".to_string());
    let (transport, request) = match http.step(Event::FilesRead(files), false).unwrap() {
        Action::Exchange(transport, request) => (transport, request),
        other => panic!("{:?}", other),
    };
    assert_eq!(transport.host, "example.com");
    assert_eq!(transport.port, 8080);
    assert!(!transport.secure);
    let body = format!(
        "--{0}\r\nContent-Disposition: form-data; name=doc; filename=doc.txt\r\n\r\ntext\r\n--{0}--",
        boundary
    );
    assert_eq!(
        request,
        format!(
            "POST /upload?x=1 HTTP/1.1\r\nContent-Type: multipart/form-data; boundary={}\r\n\
             Host: example.com\r\nAccept: */*\r\nConnection: close\r\nContent-Length: {}\r\n\r\n{}",
            boundary,
            body.len(),
            body
        )
    );

    let raw = "HTTP/1.1 200 OK\r\nServer: s\r\n\r\ndone".to_string();
    let response = match http.step(Event::Received(raw.clone()), false).unwrap() {
        Action::Done(response) => response,
        other => panic!("{:?}", other),
    };
    assert_eq!(response.status, 200);
    assert_eq!(response.body, "done");
    assert_eq!(http.response_str, raw);
}

#[test]
fn steps_that_fail() {
    let mut http = HTTP::new("data:text/plain,Stuff").unwrap();
    let err = http.step(Event::Start, true).unwrap_err();
    assert!(matches!(err, HttpError::Parse(url::ParseError::EmptyHost)));

    let mut http = HTTP::new("https://example.com/").unwrap();
    let mut fields = Body::new();
    fields.insert("doc".to_string(), Data::File("missing".to_string()));
    http.post().header(headers(&[("Content-Type", "multipart/form-data")])).body(fields);
    assert!(matches!(http.step(Event::Start, false), Ok(Action::ReadFiles(_))));
    let err = http.step(Event::FilesRead(Files::new()), false).unwrap_err();
    assert!(matches!(err, HttpError::IO(ref path) if path == "missing"));
    let mut files = Files::new();
    files.insert("missing".to_string(), "found".to_string());
    let err = http.step(Event::FilesRead(files), false).unwrap_err();
    assert!(matches!(err, HttpError::MissingFeature(_)));
    let mut files = Files::new();
    files.insert("missing".to_string(), "found".to_string());
    match http.step(Event::FilesRead(files), true).unwrap() {
        Action::Exchange(transport, _) => {
            assert!(transport.secure);
            assert_eq!(transport.port, 443);
        }
        other => panic!("{:?}", other),
    }
    let err = http.step(Event::Received("HTTP/1.1 x".to_string()), true).unwrap_err();
    assert!(matches!(err, HttpError::ParseInt(IntErrorKind::InvalidDigit)));
}
