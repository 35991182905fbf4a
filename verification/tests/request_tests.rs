use raspi_file_server::{
    parse_request_from_http_request_body, request_matches_route,
    set_request_params_according_to_match, HttpMethod, Request,
};

fn create_mock_request(method: HttpMethod, path: &str) -> (Request, String) {
    let string = format!(
        r"{:?} {} HTTP/1.1
User-Agent: Mozilla/4.0 (compatible; MSIE5.01; Windows NT)
Host: www.loremipsum.com
Accept-Language: en-us
Accept-Encoding: gzip, deflate
Connection: Keep-Alive",
        method, path
    );
    (
        parse_request_from_http_request_body(string.clone()).unwrap(),
        string,
    )
}

#[test]
fn test_http_method_part_eq_with_str() {
    assert!(HttpMethod::GET.eq_str("GET"));
    assert!(HttpMethod::PUT.eq_str("put"));
    assert!(!HttpMethod::PATCH.eq_str("GET"));
}

#[test]
fn test_http_method_from_str() {
    assert!(HttpMethod::try_from_str("GET").is_ok());
    assert!(HttpMethod::try_from_str("dElEtE").is_ok());
    assert!(HttpMethod::try_from_str("asdf").is_err());
    assert_eq!(HttpMethod::try_from_str("PATCH").unwrap(), HttpMethod::PATCH);
}

#[test]
fn test_parsing_request() {
    let (request, request_str) = create_mock_request(HttpMethod::GET, "/path?query2&query1=val");
    assert_eq!(request.raw_content, request_str);
    assert_eq!(request.method, HttpMethod::GET);
    assert_eq!(request.queries.len(), 2);
    assert_eq!(request.query_value("query1").unwrap(), Some("val".to_string()));
    assert_eq!(request.query_value("query2").unwrap(), None);
}

#[test]
fn test_request_matches() {
    let (request, _) = create_mock_request(HttpMethod::GET, "/test/path");
    assert!(request_matches_route(&request, "/test/path"));
    assert!(request_matches_route(&request, "/test/path/"));
    assert!(!request_matches_route(&request, "/some-other-path"));

    let (request, _) = create_mock_request(HttpMethod::GET, "/test/path?some_param=value");
    assert!(request_matches_route(&request, "/test/path"));

    let (request, _) = create_mock_request(HttpMethod::GET, "/greet/john");
    assert!(request_matches_route(&request, "/greet/{name}/"));
    assert!(!request_matches_route(&request, "/greet"));
    assert!(!request_matches_route(&request, "/some-other-path"));
}

#[test]
fn test_parse_recovers_method_and_path() {
    let request = parse_request_from_http_request_body("POST /submit HTTP/1.1\n".to_string())
        .unwrap();
    assert_eq!(request.method, HttpMethod::POST);
    assert_eq!(request.path, "/submit");
    assert_eq!(request.raw_content, "POST /submit HTTP/1.1\n");
    assert!(request.params.is_empty());
}

#[test]
fn test_parse_method_case_insensitive() {
    let request = parse_request_from_http_request_body("dElEtE /x HTTP/1.1".to_string()).unwrap();
    assert_eq!(request.method, HttpMethod::DELETE);
    assert_eq!(request.path, "/x");
}

#[test]
fn test_parse_rejects_single_token() {
    assert!(parse_request_from_http_request_body("GET".to_string()).is_err());
    assert!(parse_request_from_http_request_body(String::new()).is_err());
    assert!(parse_request_from_http_request_body("GET ".to_string()).is_err());
    assert!(parse_request_from_http_request_body("GET   ".to_string()).is_err());
    assert!(parse_request_from_http_request_body("GET \n".to_string()).is_err());
    assert!(parse_request_from_http_request_body("GET\t\r\n".to_string()).is_err());
}

#[test]
fn test_parse_tab_delimited() {
    let request = parse_request_from_http_request_body("GET\t/x HTTP/1.1".to_string()).unwrap();
    assert_eq!(request.method, HttpMethod::GET);
    assert_eq!(request.path, "/x");
}

#[test]
fn test_parse_mixed_whitespace_run() {
    let request = parse_request_from_http_request_body("GET \t/x B".to_string()).unwrap();
    assert_eq!(request.method, HttpMethod::GET);
    assert_eq!(request.path, "/x");
}

#[test]
fn test_parse_rejects_unknown_method() {
    assert!(parse_request_from_http_request_body("FOO /x HTTP/1.1".to_string()).is_err());
}

#[test]
fn test_parse_error_message() {
    let err = parse_request_from_http_request_body("nope".to_string()).unwrap_err();
    assert_eq!(err.message(), "RequestParseError");
}

#[test]
fn test_query_flag_and_value() {
    let request = parse_request_from_http_request_body("GET /p?a&b=1 HTTP/1.1".to_string())
        .unwrap();
    assert_eq!(request.queries.len(), 2);
    assert_eq!(request.query_value("a").unwrap(), None);
    assert_eq!(request.query_value("b").unwrap(), Some("1".to_string()));
    assert_eq!(request.query_value("missing"), None);
}

#[test]
fn test_duplicate_query_key_first_wins() {
    let request = parse_request_from_http_request_body("GET /p?x=1&x=2 HTTP/1.1".to_string())
        .unwrap();
    assert_eq!(request.queries.len(), 1);
    assert_eq!(request.query_value("x").unwrap(), Some("1".to_string()));
}

#[test]
fn test_query_empty_key_skipped() {
    let request = parse_request_from_http_request_body("GET /p?&a=2 HTTP/1.1".to_string())
        .unwrap();
    assert_eq!(request.queries.len(), 1);
    assert_eq!(request.query_value("a").unwrap(), Some("2".to_string()));
}

#[test]
fn test_match_placeholder_segment_counts() {
    let (request, _) = create_mock_request(HttpMethod::GET, "/greet/john/extra");
    assert!(!request_matches_route(&request, "/greet/{name}"));
    let (request, _) = create_mock_request(HttpMethod::GET, "/greet/john/");
    assert!(request_matches_route(&request, "/greet/{name}"));
}

#[test]
fn test_literal_template_ignores_query() {
    let (request, _) = create_mock_request(HttpMethod::GET, "/test/path?x=1");
    assert!(request_matches_route(&request, "/test/path"));
    assert!(!request_matches_route(&request, "/other/path"));
}

#[test]
fn test_bind_params() {
    let (mut request, _) = create_mock_request(HttpMethod::GET, "/greet/john");
    set_request_params_according_to_match(&mut request, "/greet/{name}");
    assert_eq!(request.params.len(), 1);
    assert_eq!(request.param_value("name"), Some("john".to_string()));
}

#[test]
fn test_bind_params_trailing_slash() {
    let (mut request, _) = create_mock_request(HttpMethod::GET, "/greet/john/");
    set_request_params_according_to_match(&mut request, "/greet/{name}");
    assert_eq!(request.param_value("name"), Some("john".to_string()));
}

#[test]
fn test_bind_params_query_stripped() {
    let (mut request, _) = create_mock_request(HttpMethod::GET, "/greet/john?x=1");
    set_request_params_according_to_match(&mut request, "/greet/{name}");
    assert_eq!(request.param_value("name"), Some("john".to_string()));
}

#[test]
fn test_bind_params_multiple() {
    let (mut request, _) = create_mock_request(HttpMethod::GET, "/files/docs/report");
    set_request_params_according_to_match(&mut request, "/files/{dir}/{file}");
    assert_eq!(request.param_value("dir"), Some("docs".to_string()));
    assert_eq!(request.param_value("file"), Some("report".to_string()));
}

#[test]
fn test_accessors() {
    let (request, raw) = create_mock_request(HttpMethod::PUT, "/a/b?k=v");
    assert_eq!(request.raw_content(), raw.as_str());
    assert_eq!(request.path(), "/a/b?k=v");
    assert_eq!(request.path_as_str(), "/a/b?k=v");
    assert_eq!(request.method(), HttpMethod::PUT);
    assert_eq!(request.queries().len(), 1);
    assert!(request.params().is_empty());
}
