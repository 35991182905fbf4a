use raspi_file_server::{
    response_from_text, Handler, HttpMethod, Request, Response, Server,
};

// Each impl gives `response_of` — the trait's specification method, erased
// to an ordinary method in compiled form — the same body as `invoke`.

struct DefaultHandler;

impl Handler for DefaultHandler {
    fn response_of(&self, _request: Request) -> Response {
        Response::default()
    }

    fn invoke(&self, _request: &Request) -> Response {
        Response::default()
    }
}

struct FixedHtml(&'static str);

impl Handler for FixedHtml {
    fn response_of(&self, _request: Request) -> Response {
        response_from_text(self.0)
    }

    fn invoke(&self, _request: &Request) -> Response {
        response_from_text(self.0)
    }
}

struct Greet;

impl Handler for Greet {
    fn response_of(&self, request: Request) -> Response {
        self.invoke(&request)
    }

    fn invoke(&self, request: &Request) -> Response {
        let name = request.param_value("name").unwrap_or_default();
        response_from_text(&format!("Hello {}", name))
    }
}

#[test]
fn test_add_route() {
    let mut server: Server<DefaultHandler> = Server::new();
    assert_eq!(server.routes.len(), 0);
    server.add_route(HttpMethod::GET, "/", DefaultHandler);
    assert_eq!(server.routes.len(), 1);
    let (m, p, _) = server.routes.get(0).unwrap();
    assert_eq!(*m, HttpMethod::GET);
    assert_eq!(*p, "/");
}

#[test]
fn test_dispatch_end_to_end() {
    let mut server: Server<FixedHtml> = Server::new();
    server.add_route(HttpMethod::GET, "/", FixedHtml("<h1>Hi</h1>"));
    let out = server.handle("GET / HTTP/1.1\nHost: localhost\n".to_string());
    assert_eq!(
        out,
        "HTTP/1.1 200 OK\ncontent-type: text/html\ncontent-length: 11\n\n<h1>Hi</h1>"
    );
}

#[test]
fn test_dispatch_bad_request() {
    let server: Server<FixedHtml> = Server::new();
    let out = server.handle("garbage".to_string());
    assert_eq!(
        out,
        "HTTP/1.1 400 BadRequest\ncontent-type: text/html\ncontent-length: 17\n\nRequestParseError"
    );
}

#[test]
fn test_dispatch_not_found() {
    let mut server: Server<FixedHtml> = Server::new();
    server.add_route(HttpMethod::GET, "/", FixedHtml("home"));
    let out = server.handle("GET /missing HTTP/1.1\n".to_string());
    assert_eq!(out, "HTTP/1.1 404 NotFound\n\ncontent-length: 0\n\n");
}

#[test]
fn test_dispatch_binds_params() {
    let mut server: Server<Greet> = Server::new();
    server.add_route(HttpMethod::GET, "/greet/{name}", Greet);
    let out = server.handle("GET /greet/john HTTP/1.1\n".to_string());
    assert_eq!(
        out,
        "HTTP/1.1 200 OK\ncontent-type: text/html\ncontent-length: 10\n\nHello john"
    );
}

#[test]
fn test_dispatch_first_match_wins() {
    let mut server: Server<FixedHtml> = Server::new();
    server.add_route(HttpMethod::GET, "/x", FixedHtml("first"));
    server.add_route(HttpMethod::GET, "/x", FixedHtml("second"));
    let out = server.handle("GET /x HTTP/1.1\n".to_string());
    assert!(out.ends_with("\n\nfirst"));
}

#[test]
fn test_dispatch_method_must_match() {
    let mut server: Server<FixedHtml> = Server::new();
    server.add_route(HttpMethod::PUT, "/", FixedHtml("put"));
    server.add_route(HttpMethod::GET, "/", FixedHtml("get"));
    let out = server.handle("GET / HTTP/1.1\n".to_string());
    assert!(out.ends_with("\n\nget"));
    let out = server.handle("PUT / HTTP/1.1\n".to_string());
    assert!(out.ends_with("\n\nput"));
}
