use knock::fields::index_of;
use knock::text::{find_in, same_text, substring, to_chars};
use knock::Response;

fn chars(text: &str) -> Vec<char> {
    text.chars().collect()
}

#[test]
fn to_chars_gives_every_character() {
    assert_eq!(to_chars(""), Vec::<char>::new());
    assert_eq!(to_chars("aä✓\r\n"), vec!['a', 'ä', '✓', '\r', '\n']);
}

#[test]
fn find_in_gives_the_first_place() {
    let text = chars("abcabcabc");
    assert_eq!(find_in(&text, 0, 9, &chars("bc")), Some(1));
    assert_eq!(find_in(&text, 2, 9, &chars("bc")), Some(4));
    assert_eq!(find_in(&text, 2, 5, &chars("bc")), None);
    assert_eq!(find_in(&text, 2, 6, &chars("bc")), Some(4));
    assert_eq!(find_in(&text, 0, 9, &chars("cb")), None);
    assert_eq!(find_in(&text, 0, 9, &chars("abcabcabc")), Some(0));
    assert_eq!(find_in(&text, 0, 9, &chars("abcabcabca")), None);
    assert_eq!(find_in(&text, 7, 9, &chars("c")), Some(8));
    assert_eq!(find_in(&text, 9, 9, &chars("c")), None);
}

#[test]
fn find_in_finds_the_empty_pattern_at_once() {
    let text = chars("abc");
    assert_eq!(find_in(&text, 1, 3, &chars("")), Some(1));
    assert_eq!(find_in(&text, 3, 3, &chars("")), Some(3));
}

#[test]
fn find_in_does_not_skip_an_overlapping_place() {
    let text = chars("\r\r\n\r\n\r\n");
    assert_eq!(find_in(&text, 0, text.len(), &chars("\r\n\r\n")), Some(1));
    let text = chars("aaab");
    assert_eq!(find_in(&text, 0, 4, &chars("aab")), Some(1));
}

#[test]
fn same_text_compares_characters() {
    assert!(same_text("", ""));
    assert!(same_text("POST", "POST"));
    assert!(!same_text("POST", "post"));
    assert!(!same_text("POST", "POST "));
}

#[test]
fn substring_counts_characters() {
    assert_eq!(substring("grüße ✓ ok", 2, 7), "üße ✓");
    assert_eq!(substring("abc", 0, 3), "abc");
    assert_eq!(substring("abc", 3, 3), "");
    assert_eq!(substring("abc", 1, 1), "");
}

#[test]
fn index_of_gives_the_first_entry_of_a_name() {
    let entries = vec![
        ("a".to_string(), 1),
        ("b".to_string(), 2),
        ("a".to_string(), 3),
    ];
    assert_eq!(index_of(&entries, "a"), Some(0));
    assert_eq!(index_of(&entries, "b"), Some(1));
    assert_eq!(index_of(&entries, "c"), None);
    assert_eq!(index_of(&Vec::<(String, u8)>::new(), "a"), None);
}

#[test]
fn status_of_a_status_line_is_its_code() {
    for version in ["HTTP/1.0", "HTTP/1.1", "HTTP/1.9", "HTTP/1"] {
        for code in [0u32, 100, 200, 204, 301, 404, 500, 599, 65536, 4294967295] {
            let line = format!("{} {} Some Reason", version, code);
            assert_eq!(Response::new(line.clone()).unwrap().status, code);
            let text = format!("{}\r\nA: b\r\n\r\nHTTP/1.1 999 not this", line);
            assert_eq!(Response::new(text).unwrap().status, code);
            let short = format!("{} {}\r\n\r\n", version, code);
            assert_eq!(Response::new(short).unwrap().status, code);
        }
    }
}
