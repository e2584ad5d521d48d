use webserver::http::server::{Handler, HttpServer, Middleware, Route};
use webserver::http::{HttpRequest, HttpResponse};
use std::cell::Cell;

struct NoopHandler;

impl Handler<()> for NoopHandler {
    fn handle(&self, _request: &HttpRequest, _response: &mut HttpResponse, _state: &()) {}
}

struct PanicHandler;

impl Handler<()> for PanicHandler {
    fn handle(&self, _request: &HttpRequest, _response: &mut HttpResponse, _state: &()) {
        panic!("This doesn't run");
    }
}

struct EchoParamHandler;

impl Handler<()> for EchoParamHandler {
    fn handle(&self, request: &HttpRequest, response: &mut HttpResponse, _state: &()) {
        let id = request.params.get("id").unwrap().clone();
        response.set_body(format!("url id: {}", id));
    }
}

struct ShortCircuitMiddleware;

impl Middleware<()> for ShortCircuitMiddleware {
    fn handle(&self, _request: &HttpRequest, response: &mut HttpResponse, _state: &()) -> bool {
        response.set_body(String::from("Set from middleware"));
        false
    }
}

struct NoopMiddleware;

impl<T> Middleware<T> for NoopMiddleware {
    fn handle(&self, _request: &HttpRequest, _response: &mut HttpResponse, _state: &T) -> bool {
        true
    }
}

fn route(uri: &str) -> Route<NoopMiddleware, NoopHandler> {
    Route {
        method: String::from("GET"),
        uri: String::from(uri),
        middleware: Vec::new(),
        handler: NoopHandler,
    }
}

#[test]
fn basic_route_match() {
    let route = route("/test");
    assert_eq!(route.matches_uri(&"/test?query=1".to_owned()), true);
}

#[test]
fn route_with_parameter_match() {
    let route = route("/test/:test_param");
    assert_eq!(route.matches_uri(&"/test".to_owned()), false);
    assert_eq!(route.matches_uri(&"/test/test".to_owned()), true);
}

#[test]
fn get_params_from_route() {
    let route = route("/test/:test_param");
    let mut request = HttpRequest::new_with_uri("/test/some_param".to_owned());
    route.add_params(&mut request);
    assert_eq!(request.params.get("test_param").is_some(), true);
    assert_eq!(request.params.get("test_param").unwrap(), "some_param");
}

#[test]
fn route_pattern_does_not_match_longer_path() {
    let route = route("/test");
    assert_eq!(route.matches_uri(&"/test/extra".to_owned()), false);
}

#[test]
fn parameter_captures_whole_remainder() {
    let route = route("/id/:id");
    assert_eq!(route.matches_uri(&"/id/42".to_owned()), true);
    assert_eq!(route.matches_uri(&"/id".to_owned()), false);
    let mut request = HttpRequest::new_with_uri("/id/42/extra".to_owned());
    route.add_params(&mut request);
    assert_eq!(request.params.get("id").unwrap(), "42/extra");
}

#[test]
fn middleware_short_circuit_skips_handler() {
    let mut server: HttpServer<(), ShortCircuitMiddleware, PanicHandler> = HttpServer::new(());
    server.add_route(Route {
        method: String::from("GET"),
        uri: String::from("/middleware"),
        middleware: vec![ShortCircuitMiddleware],
        handler: PanicHandler,
    });
    let response = server.handle_connection("GET /middleware HTTP/1.1\r\nHost: x\r\n\r\n");
    assert_eq!(response.body(), "Set from middleware");
}

#[test]
fn unmatched_route_is_not_found() {
    let server: HttpServer<(), NoopMiddleware, NoopHandler> = HttpServer::new(());
    let response = server.handle_connection("GET /missing HTTP/1.1\r\nHost: x\r\n\r\n");
    assert_eq!(response.status_code(), 404);
    assert_eq!(response.body(), "Not found");
}

#[test]
fn malformed_request_is_bad_request() {
    let server: HttpServer<(), NoopMiddleware, NoopHandler> = HttpServer::new(());
    let response = server.handle_connection("garbage");
    assert_eq!(response.status_code(), 400);
    assert_eq!(response.body(), "Bad request");
}

#[test]
fn dispatch_binds_path_parameter() {
    let mut server: HttpServer<(), NoopMiddleware, EchoParamHandler> = HttpServer::new(());
    server.get("/id/:id", EchoParamHandler);
    let response = server.handle_connection("GET /id/42 HTTP/1.1\r\nHost: x\r\n\r\n");
    assert_eq!(response.status_code(), 200);
    assert_eq!(response.body(), "url id: 42");
}

struct BodyHandler(&'static str);

impl Handler<()> for BodyHandler {
    fn handle(&self, _request: &HttpRequest, response: &mut HttpResponse, _state: &()) {
        response.set_body(String::from(self.0));
    }
}

#[test]
fn first_matching_route_wins() {
    let mut server: HttpServer<(), NoopMiddleware, BodyHandler> = HttpServer::new(());
    server.get("/x", BodyHandler("first"));
    server.get("/x", BodyHandler("second"));
    let response = server.handle_connection("GET /x HTTP/1.1\r\nHost: x\r\n\r\n");
    assert_eq!(response.body(), "first");
}

struct CountingHandler;

impl Handler<Cell<u32>> for CountingHandler {
    fn handle(
        &self,
        _request: &HttpRequest,
        response: &mut HttpResponse,
        state: &Cell<u32>,
    ) {
        state.set(state.get() + 1);
        response.set_body(format!("hits: {}", state.get()));
    }
}

#[test]
fn state_is_shared_with_handlers() {
    let mut server: HttpServer<Cell<u32>, NoopMiddleware, CountingHandler> =
        HttpServer::new(Cell::new(0));
    server.get("/count", CountingHandler);
    let _ = server.handle_connection("GET /count HTTP/1.1\r\nHost: x\r\n\r\n");
    let response = server.handle_connection("GET /count HTTP/1.1\r\nHost: x\r\n\r\n");
    assert_eq!(response.body(), "hits: 2");
    assert_eq!(server.state().get(), 2);
}
