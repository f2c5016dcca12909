use knock::{Files, HTTP};

#[test]
fn setup_get_method_var_in_http() {
    let mut http = HTTP::new("http://rand-lang.org/").unwrap();
    let _ = http.get();

    assert!(http.method == "GET".to_string(), "should be equals");
}

#[test]
fn setup_post_method_var_in_http() {
    let mut http = HTTP::new("http://rand-lang.org/").unwrap();
    let _ = http.request("POST");

    assert!(http.method == "POST".to_string(), "should be equals");
}

#[test]
fn test_query_params() {
    let mut http = HTTP::new("http://moo.com/?foo=bar").unwrap();
    let expected = "GET /?foo=bar".to_string();
    assert_eq!(
        http.get().create_request(&Files::new()).unwrap()[0..expected.len()],
        expected
    );
}
