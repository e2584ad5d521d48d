use webserver::http::HttpResponse;

#[test]
fn default_response() {
    let default_response = HttpResponse::new();
    assert_eq!(default_response.to_string(), "HTTP/1.1 200 Ok\r\n\r\n");
}

#[test]
fn headers_response() {
    let mut response = HttpResponse::new();
    response.add_header("x-test".to_owned(), "more test".to_owned());
    response.set_body("test body".to_owned());
    assert_eq!(
        response.to_string(),
        "HTTP/1.1 200 Ok\r\nx-test:more test\r\n\r\ntest body"
    )
}

#[test]
fn known_reason_phrases() {
    let mut response = HttpResponse::new();
    response.set_status_code(404);
    assert_eq!(response.to_string(), "HTTP/1.1 404 Not found\r\n\r\n");
    response.set_status_code(400);
    assert_eq!(response.to_string(), "HTTP/1.1 400 Bad request\r\n\r\n");
    response.set_status_code(500);
    assert_eq!(response.to_string(), "HTTP/1.1 500 Internal server error\r\n\r\n");
    response.set_status_code(418);
    assert_eq!(response.to_string(), "HTTP/1.1 418 Something happened\r\n\r\n");
}

#[test]
fn accessors_read_back() {
    let mut response = HttpResponse::new();
    assert_eq!(response.status_code(), 200);
    assert_eq!(response.body(), "");
    assert_eq!(response.headers().len(), 0);
    response.set_status_code(301);
    response.set_body("moved".to_owned());
    response
        .headers_mut()
        .push(("Location".to_owned(), "/new".to_owned()));
    assert_eq!(response.status_code(), 301);
    assert_eq!(response.body(), "moved");
    assert_eq!(response.headers()[0], ("Location".to_owned(), "/new".to_owned()));
}
