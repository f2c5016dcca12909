use knock::form::urlencoded_body;
use knock::json::{json_body, json_outcome};
use knock::multipart::{multipart_body, new_boundary};
use knock::{create_body, Body, Data, Files, HeaderMap, HttpError};

fn text(name: &str, value: &str) -> (String, Data) {
    (name.to_string(), Data::String(value.to_string()))
}

fn file(name: &str, path: &str) -> (String, Data) {
    (name.to_string(), Data::File(path.to_string()))
}

fn body_of(fields: Vec<(String, Data)>) -> Body {
    let mut body = Body::new();
    for (name, value) in fields {
        body.insert(name, value);
    }
    body
}

fn files_of(pairs: &[(&str, &str)]) -> Files {
    let mut files = Files::new();
    for (path, content) in pairs {
        files.insert(path.to_string(), content.to_string());
    }
    files
}

fn decode_pairs(encoded: &str) -> Vec<(String, String)> {
    let mut pairs = Vec::new();
    if encoded.is_empty() {
        return pairs;
    }
    for piece in encoded.split('&') {
        match piece.find('=') {
            Some(at) => pairs.push((piece[..at].to_string(), piece[at + 1..].to_string())),
            None => pairs.push((piece.to_string(), String::new())),
        }
    }
    pairs
}

#[test]
fn body_keeps_the_order_of_insertion_and_the_last_value() {
    let mut body = Body::new();
    assert!(body.is_empty());
    assert!(body.insert("a".to_string(), Data::String("1".to_string())).is_none());
    assert!(body.insert("b".to_string(), Data::File("p".to_string())).is_none());
    let previous = body.insert("a".to_string(), Data::String("2".to_string()));
    assert!(matches!(previous, Some(Data::String(ref old)) if old == "1"));
    assert_eq!(body.len(), 2);
    assert_eq!(body.name_at(0), "a");
    assert!(matches!(body.value_at(0), Data::String(value) if value == "2"));
    assert!(matches!(body.get("b"), Some(Data::File(path)) if path == "p"));
    assert!(body.get("c").is_none());
    assert_eq!(body.paths(), vec!["p".to_string()]);
}

#[test]
fn files_hold_the_last_content_of_a_path() {
    let mut files = Files::new();
    assert_eq!(files.get("a"), None);
    files.insert("a".to_string(), "1".to_string());
    files.insert("b".to_string(), "2".to_string());
    files.insert("a".to_string(), "3".to_string());
    assert_eq!(files.get("a"), Some(&"3".to_string()));
    assert_eq!(files.get("b"), Some(&"2".to_string()));
}

#[test]
fn urlencoded_pairs_are_joined() {
    let body = body_of(vec![text("a", "1"), text("b", "two"), text("c", "")]);
    assert_eq!(urlencoded_body(&body), "a=1&b=two&c=");
}

#[test]
fn urlencoded_body_of_no_field_is_empty() {
    assert_eq!(urlencoded_body(&Body::new()), "");
}

#[test]
fn urlencoded_body_leaves_files_out() {
    let body = body_of(vec![file("f", "/tmp/x"), text("a", "1"), file("g", "y"), text("b", "2")]);
    assert_eq!(urlencoded_body(&body), "a=1&b=2");
}

#[test]
fn urlencoded_body_has_no_ampersand_behind_the_last_pair() {
    let body = body_of(vec![text("a", "1"), file("f", "/tmp/x")]);
    assert_eq!(urlencoded_body(&body), "a=1");
    let body = body_of(vec![file("f", "/tmp/x"), text("a", "1")]);
    assert_eq!(urlencoded_body(&body), "a=1");
    let body = body_of(vec![text("a", "1"), file("f", "x"), file("g", "y"), text("b", "2"), file("h", "z")]);
    assert_eq!(urlencoded_body(&body), "a=1&b=2");
}

#[test]
fn urlencoded_body_of_files_only_is_empty() {
    let body = body_of(vec![file("f", "/tmp/x"), file("g", "/tmp/y")]);
    assert_eq!(urlencoded_body(&body), "");
    assert_eq!(decode_pairs(""), Vec::<(String, String)>::new());
}

#[test]
fn urlencoded_pairs_read_back_as_the_text_fields() {
    let body = body_of(vec![
        text("name", "value"),
        file("upload", "dir/file.bin"),
        text("empty", ""),
        text("", "no name"),
        text("eq", "a=b=c"),
        file("last", "x"),
    ]);
    let encoded = urlencoded_body(&body);
    assert_eq!(encoded, "name=value&empty=&=no name&eq=a=b=c");
    let pieces: Vec<&str> = encoded.split('&').collect();
    assert_eq!(pieces.len(), 4);
    assert!(pieces.iter().all(|piece| piece.contains('=')));
    assert_eq!(
        decode_pairs(&encoded),
        vec![
            ("name".to_string(), "value".to_string()),
            ("empty".to_string(), "".to_string()),
            ("".to_string(), "no name".to_string()),
            ("eq".to_string(), "a=b=c".to_string()),
        ]
    );
}

#[test]
fn create_body_for_urlencoded_skips_a_file_field() {
    for fields in [
        vec![text("a", "1"), file("f", "/tmp/x")],
        vec![file("f", "/tmp/x"), text("a", "1")],
    ] {
        let body = body_of(fields);
        let mut header = HeaderMap::new();
        header.insert("Content-Type".to_string(), "application/x-www-form-urlencoded".to_string());
        let encoded =
            create_body("application/x-www-form-urlencoded", &body, &mut header, "", &Files::new())
                .unwrap();
        assert_eq!(encoded, "a=1");
    }
}

#[test]
fn json_body_is_an_object_of_the_text_fields() {
    let body = body_of(vec![text("b", "x\"y"), file("f", "p"), text("a", "1")]);
    assert_eq!(json_body(&body).unwrap(), "{\"a\":\"1\",\"b\":\"x\\\"y\"}");
}

#[test]
fn json_body_of_no_field_is_an_empty_object() {
    assert_eq!(json_body(&Body::new()).unwrap(), "{}");
    assert_eq!(json_body(&body_of(vec![file("f", "p")])).unwrap(), "{}");
}

#[test]
fn json_body_escapes_what_json_asks_for() {
    let body = body_of(vec![text("line\nbreak", "tab\there \\ ü")]);
    assert_eq!(json_body(&body).unwrap(), "{\"line\\nbreak\":\"tab\\there \\\\ ü\"}");
}

#[test]
fn json_outcome_keeps_text_and_wraps_the_error() {
    assert_eq!(json_outcome(Ok("{}".to_string())).unwrap(), "{}");
    let failure = serde_json::from_str::<serde_json::Value>("{").unwrap_err();
    assert!(matches!(json_outcome(Err(failure)), Err(HttpError::Json(_))));
}

#[test]
fn multipart_body_has_one_part_for_each_field() {
    let body = body_of(vec![text("a", "1"), file("f", "dir/x.txt"), text("b", "")]);
    let names = vec![None, Some("x.txt".to_string()), None];
    let files = files_of(&[("dir/x.txt", "DATA")]);
    let encoded = multipart_body("B", &body, &names, &files).unwrap();
    assert_eq!(
        encoded,
        "--B\r\nContent-Disposition: form-data; name=a\r\n\r\n1\r\n\
         --B\r\nContent-Disposition: form-data; name=f; filename=x.txt\r\n\r\nDATA\r\n\
         --B\r\nContent-Disposition: form-data; name=b\r\n\r\n\r\n\
         --B--"
    );
}

#[test]
fn multipart_body_of_no_field_is_the_closing_line() {
    assert_eq!(multipart_body("xyz", &Body::new(), &Vec::new(), &Files::new()).unwrap(), "--xyz--");
}

#[test]
fn multipart_parts_stand_between_boundary_markers() {
    let body =
        body_of(vec![text("one", "1"), file("two", "a/b.c"), text("three", "3"), text("four", "4")]);
    let names = vec![None, Some("b.c".to_string()), None, None];
    let files = files_of(&[("a/b.c", "content")]);
    let boundary = "0123456789abcdefghijABCDEFGHIJ12";
    let encoded = multipart_body(boundary, &body, &names, &files).unwrap();
    let marker = format!("--{}", boundary);
    let pieces: Vec<&str> = encoded.split(marker.as_str()).collect();
    assert_eq!(pieces.len(), 6);
    assert_eq!(pieces[0], "");
    assert_eq!(pieces[5], "--");
    let names_in_order = ["one", "two", "three", "four"];
    for (i, name) in names_in_order.iter().enumerate() {
        let header = format!("\r\nContent-Disposition: form-data; name={}", name);
        assert!(pieces[i + 1].starts_with(header.as_str()));
        assert!(pieces[i + 1].ends_with("\r\n"));
        for (j, other) in pieces.iter().enumerate() {
            if j != i + 1 {
                assert!(!other.contains(header.as_str()));
            }
        }
    }
    assert!(encoded.ends_with(format!("--{}--", boundary).as_str()));
}

#[test]
fn multipart_body_has_as_many_opening_lines_as_fields() {
    let boundary = new_boundary();
    let body = body_of(vec![
        text("one", "--not the boundary\r\n"),
        file("two", "a/b.c"),
        text("three", "--"),
        file("four", "d"),
        text("five", ""),
    ]);
    let names = vec![None, Some("b.c".to_string()), None, Some("d".to_string()), None];
    let files = files_of(&[("a/b.c", "content\r\n--\r\n"), ("d", "")]);
    let encoded = multipart_body(&boundary, &body, &names, &files).unwrap();
    let opening = format!("--{}\r\n", boundary);
    let closing = format!("--{}--", boundary);
    assert_eq!(encoded.matches(opening.as_str()).count(), 5);
    assert_eq!(encoded.matches(closing.as_str()).count(), 1);
    assert!(encoded.ends_with(closing.as_str()));
    let mut at = 0;
    for name in ["one", "two", "three", "four", "five"] {
        let found = encoded[at..].find(opening.as_str()).unwrap() + at;
        if at > 0 {
            assert_eq!(&encoded[found - 2..found], "\r\n");
        }
        let behind = &encoded[found + opening.len()..];
        assert!(behind.starts_with(&format!("Content-Disposition: form-data; name={}", name)));
        at = found + opening.len();
    }
    let last = encoded.len() - closing.len();
    assert_eq!(&encoded[last - 2..last], "\r\n");
}

#[test]
fn multipart_body_fails_at_the_first_field_without_part() {
    let body = body_of(vec![file("f", "a"), file("g", "b"), file("h", "c")]);
    let files = files_of(&[("a", "A"), ("c", "C")]);
    let all = vec![Some("a".to_string()), Some("b".to_string()), Some("c".to_string())];
    let err = multipart_body("B", &body, &all, &files).unwrap_err();
    assert!(matches!(err, HttpError::IO(ref path) if path == "b"));
    let unnamed = vec![Some("a".to_string()), None, None];
    let err = multipart_body("B", &body, &unnamed, &files).unwrap_err();
    assert!(matches!(err, HttpError::InvalidFilePath(ref path) if path == "b"));
    let short = vec![Some("a".to_string())];
    let err = multipart_body("B", &body, &short, &files).unwrap_err();
    assert!(matches!(err, HttpError::InvalidFilePath(ref path) if path == "b"));
    let first = vec![None, Some("b".to_string()), Some("c".to_string())];
    let err = multipart_body("B", &body, &first, &Files::new()).unwrap_err();
    assert!(matches!(err, HttpError::InvalidFilePath(ref path) if path == "a"));
}

#[test]
fn new_boundary_is_32_letters_and_digits() {
    let boundary = new_boundary();
    assert_eq!(boundary.chars().count(), 32);
    assert!(boundary.chars().all(|c| c.is_ascii_alphanumeric()));
    assert_ne!(boundary, new_boundary());
}

#[test]
fn create_body_for_urlencoded_leaves_the_headers() {
    let body = body_of(vec![text("a", "1"), text("b", "2")]);
    let mut header = HeaderMap::new();
    header.insert("Content-Type".to_string(), "application/x-www-form-urlencoded".to_string());
    let encoded =
        create_body("application/x-www-form-urlencoded", &body, &mut header, "B", &Files::new())
            .unwrap();
    assert_eq!(encoded, "a=1&b=2");
    assert_eq!(
        header.get("Content-Type"),
        Some(&"application/x-www-form-urlencoded".to_string())
    );
    assert_eq!(header.len(), 1);
}

#[test]
fn create_body_for_multipart_tells_the_boundary() {
    let body = body_of(vec![text("a", "1"), file("f", "some/dir/notes.txt")]);
    let mut header = HeaderMap::new();
    header.insert("Host".to_string(), "h".to_string());
    header.insert("Content-Type".to_string(), "multipart/form-data".to_string());
    let files = files_of(&[("some/dir/notes.txt", "line one\nline two")]);
    let encoded = create_body("multipart/form-data", &body, &mut header, "bnd", &files).unwrap();
    assert_eq!(
        encoded,
        "--bnd\r\nContent-Disposition: form-data; name=a\r\n\r\n1\r\n\
         --bnd\r\nContent-Disposition: form-data; name=f; filename=notes.txt\r\n\r\n\
         line one\nline two\r\n--bnd--"
    );
    assert_eq!(
        header.get("Content-Type"),
        Some(&"multipart/form-data; boundary=bnd".to_string())
    );
    assert_eq!(header.position("Content-Type"), Some(1));
    assert_eq!(header.len(), 2);
}

#[test]
fn create_body_for_multipart_adds_a_missing_content_type() {
    let mut header = HeaderMap::new();
    let encoded =
        create_body("multipart/form-data", &Body::new(), &mut header, "b", &Files::new()).unwrap();
    assert_eq!(encoded, "--b--");
    assert_eq!(header.get("Content-Type"), Some(&"multipart/form-data; boundary=b".to_string()));
}

#[test]
fn create_body_refuses_a_path_without_file_name() {
    let body = body_of(vec![file("f", "..")]);
    let mut header = HeaderMap::new();
    let files = files_of(&[("..", "content")]);
    let err = create_body("multipart/form-data", &body, &mut header, "b", &files).unwrap_err();
    assert!(matches!(err, HttpError::InvalidFilePath(ref path) if path == ".."));
    assert_eq!(header.get("Content-Type"), Some(&"multipart/form-data; boundary=b".to_string()));
}

#[test]
fn create_body_refuses_a_file_that_was_not_read() {
    let body = body_of(vec![text("a", "1"), file("f", "missing.txt")]);
    let mut header = HeaderMap::new();
    let err =
        create_body("multipart/form-data", &body, &mut header, "b", &Files::new()).unwrap_err();
    assert!(matches!(err, HttpError::IO(ref path) if path == "missing.txt"));
}

#[test]
fn create_body_for_any_other_content_type_is_json() {
    let body = body_of(vec![text("key", "value"), file("f", "not/read")]);
    for content_type in ["application/json", "", "text/plain"] {
        let mut header = HeaderMap::new();
        let encoded = create_body(content_type, &body, &mut header, "b", &Files::new()).unwrap();
        assert_eq!(encoded, "{\"key\":\"value\"}");
        assert_eq!(header.len(), 0);
    }
}
