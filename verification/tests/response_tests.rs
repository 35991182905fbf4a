use raspi_file_server::{
    response_from_outcome, response_from_text, response_into_http_response_string, HttpHeaderName,
    HttpStatusCode, RequestParseError, Response,
};

#[test]
fn test_default_response() {
    let response = Response::default();
    assert_eq!(response.status_code, HttpStatusCode::OK);
    assert_eq!(response.body, "");
    assert_eq!(response.headers.len(), 0);
}

#[test]
fn test_set_status_code() {
    let mut response = Response::default();
    response.set_status_code(HttpStatusCode::OK);
    assert_eq!(response.status_code, HttpStatusCode::OK);
    response.set_status_code(HttpStatusCode::BadRequest);
    assert_eq!(response.status_code, HttpStatusCode::BadRequest);
}

#[test]
fn test_set_header() {
    let mut response = Response::default();
    assert_eq!(response.headers.len(), 0);
    response.set_header(HttpHeaderName::ContentType, "test1");
    assert_eq!(response.headers.len(), 1);
    response.set_header(HttpHeaderName::ContentType, "test2");
    assert_eq!(response.headers.len(), 1);
    assert_eq!(response.headers[0].0, HttpHeaderName::ContentType);
    assert_eq!(response.headers[0].1, "test2");
}

#[test]
fn test_set_body() {
    let mut response = Response::default();
    response.set_body("body");
    assert_eq!(response.body, "body");
    assert_eq!(response.headers.len(), 0);
}

#[test]
fn test_set_json_and_html() {
    let mut response = Response::default();
    response.set_json("json");
    assert_eq!(response.body, "json");
    assert_eq!(response.headers.len(), 1);
    assert_eq!(response.headers[0].1, "application/json");
    response.set_html("html");
    assert_eq!(response.body, "html");
    assert_eq!(response.headers.len(), 1);
    assert_eq!(response.headers[0].1, "text/html");
}

#[test]
fn test_into_http_response_string() {
    let mut response = Response::default();
    response.set_html("test");
    let should_be = "HTTP/1.1 200 OK\ncontent-type: text/html\ncontent-length: 4\n\ntest";
    assert_eq!(response_into_http_response_string(response), should_be);
}

#[test]
fn test_response_from_str() {
    let response = response_from_text("test");
    assert_eq!(response.body, "test");
    assert_eq!(response.headers[0].1, "text/html");
    assert_eq!(response.status_code, HttpStatusCode::OK);
}

#[test]
fn test_serialize_without_headers() {
    let response = Response::default();
    let rendered = response_into_http_response_string(response);
    assert_eq!(rendered, "HTTP/1.1 200 OK\n\ncontent-length: 0\n\n");
}

#[test]
fn test_serialize_idempotent() {
    let make = || {
        let mut response = Response::default();
        response.set_status_code(HttpStatusCode::Created);
        response.set_json("{\"k\":\"v\"}");
        response
    };
    let first = response_into_http_response_string(make());
    let second = response_into_http_response_string(make());
    assert_eq!(first, second);
    assert_eq!(first.as_bytes(), second.as_bytes());
}

#[test]
fn test_content_length_counts_bytes() {
    let mut response = Response::default();
    response.set_body("1234567890");
    let rendered = response_into_http_response_string(response);
    assert_eq!(rendered, "HTTP/1.1 200 OK\n\ncontent-length: 10\n\n1234567890");
}

#[test]
fn test_status_codes_and_names() {
    assert_eq!(HttpStatusCode::OK.code(), 200);
    assert_eq!(HttpStatusCode::Created.code(), 201);
    assert_eq!(HttpStatusCode::Accepted.code(), 202);
    assert_eq!(HttpStatusCode::BadRequest.code(), 400);
    assert_eq!(HttpStatusCode::Unauthorized.code(), 401);
    assert_eq!(HttpStatusCode::Forbidden.code(), 403);
    assert_eq!(HttpStatusCode::NotFound.code(), 404);
    assert_eq!(HttpStatusCode::InternalServerError.code(), 500);
    assert_eq!(HttpStatusCode::NotImplemented.code(), 501);
    assert_eq!(HttpStatusCode::NotFound.name_str(), "NotFound");
    assert_eq!(HttpStatusCode::default(), HttpStatusCode::OK);
}

#[test]
fn test_status_code_from_code() {
    assert_eq!(HttpStatusCode::from_code(200), HttpStatusCode::OK);
    assert_eq!(HttpStatusCode::from_code(404), HttpStatusCode::NotFound);
    assert_eq!(HttpStatusCode::from_code(501), HttpStatusCode::NotImplemented);
    assert_eq!(HttpStatusCode::from_code(HttpStatusCode::Forbidden.code()), HttpStatusCode::Forbidden);
}

#[test]
fn test_response_from_outcome() {
    let ok = response_from_outcome(Ok(response_from_text("good")));
    assert_eq!(ok.body, "good");
    assert_eq!(ok.status_code, HttpStatusCode::OK);

    let mut failure = Response::default();
    failure.set_status_code(HttpStatusCode::InternalServerError);
    failure.set_body("bad");
    let err = response_from_outcome(Err(failure));
    assert_eq!(err.body, "bad");
    assert_eq!(err.status_code, HttpStatusCode::InternalServerError);
}

#[test]
fn test_parse_error_response() {
    let response = RequestParseError.to_response();
    assert_eq!(response.status_code, HttpStatusCode::BadRequest);
    assert_eq!(response.body, "RequestParseError");
    assert_eq!(response.headers[0].1, "text/html");
}
