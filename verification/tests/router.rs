use h1::bytes::ByteTendril;
use h1::parser::{parse_request, ParseStatus};
use h1::request::Request;
use h1::router::{Dispatch, H1};

const DATE: &str = "Thu, 01 Jan 1970 00:00:00 GMT";

fn request(bytes: &[u8]) -> Request {
    match parse_request(ByteTendril::from_slice(bytes).unwrap(), 16) {
        ParseStatus::Complete(request, _) => request,
        other => panic!("not complete: {:?}", other),
    }
}

fn handler_of(app: &H1, bytes: &[u8]) -> Option<usize> {
    match app.dispatch(&request(bytes)) {
        Dispatch::Call { handler, .. } => Some(handler),
        Dispatch::NotFound(_) => None,
    }
}

#[test]
fn a_server_starts_without_routes_and_middleware() {
    let app = H1::default();
    assert!(app.middleware().is_empty());
    assert_eq!(app.find("GET", "/"), None);
    assert_eq!(app.find("GET", ""), None);
}

#[test]
fn a_get_route_is_found_for_a_get_request() {
    let app = H1::default().get("/x", 7);
    assert_eq!(app.find("GET", "/x"), Some((7, Vec::new())));
    assert_eq!(handler_of(&app, b"GET /x HTTP/1.1\r\n\r\n"), Some(7));
}

#[test]
fn another_method_or_another_path_is_not_found() {
    let app = H1::default().get("/x", 7);
    assert_eq!(app.find("POST", "/x"), None);
    assert_eq!(app.find("GET", "/y"), None);
    assert_eq!(app.find("GET", "/x/"), None);
    assert_eq!(app.find("get", "/x"), None);
    assert_eq!(handler_of(&app, b"POST /x HTTP/1.1\r\n\r\n"), None);
    assert_eq!(handler_of(&app, b"GET /y HTTP/1.1\r\n\r\n"), None);
}

#[test]
fn what_is_not_found_is_answered_with_404_not_found() {
    let app = H1::default().get("/x", 7);
    for bytes in [&b"POST /x HTTP/1.1\r\n\r\n"[..], &b"GET /y HTTP/1.1\r\n\r\n"[..]] {
        match app.dispatch(&request(bytes)) {
            Dispatch::NotFound(response) => {
                assert_eq!(
                    response.finalize(DATE),
                    b"HTTP/1.1 404 Not Found\r\nServer: Example\r\nContent-Length: 0\r\n\
                      Date: Thu, 01 Jan 1970 00:00:00 GMT\r\n\r\n"
                        .to_vec()
                );
            }
            other => panic!("found: {:?}", other),
        }
    }
}

#[test]
fn each_route_has_its_own_handler() {
    let app = H1::default().get("/json", 0).get("/plaintext", 1).get("/", 2);
    assert_eq!(app.find("GET", "/json"), Some((0, Vec::new())));
    assert_eq!(app.find("GET", "/plaintext"), Some((1, Vec::new())));
    assert_eq!(app.find("GET", "/"), Some((2, Vec::new())));
    assert_eq!(app.find("GET", "/missing"), None);
}

#[test]
fn a_pattern_hands_its_parameters_on() {
    let app = H1::default().get("/user/:id", 3).get("/files/:dir/:name", 4);
    assert_eq!(
        app.find("GET", "/user/42"),
        Some((3, vec![("id".to_string(), "42".to_string())]))
    );
    assert_eq!(
        app.find("GET", "/files/etc/passwd"),
        Some((
            4,
            vec![("dir".to_string(), "etc".to_string()), ("name".to_string(), "passwd".to_string())]
        ))
    );
    match app.dispatch(&request(b"GET /user/alice HTTP/1.1\r\n\r\n")) {
        Dispatch::Call { handler, params } => {
            assert_eq!(handler, 3);
            assert_eq!(params, vec![("id".to_string(), "alice".to_string())]);
        }
        other => panic!("not found: {:?}", other),
    }
}

#[test]
fn a_literal_segment_wins_over_a_parameter() {
    let app = H1::default().get("/user/:id", 1).get("/user/me", 2);
    assert_eq!(app.find("GET", "/user/me"), Some((2, Vec::new())));
    assert_eq!(app.find("GET", "/user/you"), Some((1, vec![("id".to_string(), "you".to_string())])));
}

#[test]
fn a_route_that_is_registered_again_gets_the_later_handler() {
    let app = H1::default().get("/x", 1).get("/x", 2);
    assert_eq!(app.find("GET", "/x"), Some((2, Vec::new())));
}

#[test]
fn middleware_runs_in_the_order_in_which_it_was_added() {
    let app = H1::default().using(7).get("/", 0).using(3).using(7);
    assert_eq!(app.middleware(), &vec![7, 3, 7]);
    assert_eq!(app.find("GET", "/"), Some((0, Vec::new())));
}

#[test]
fn the_query_is_part_of_the_path_that_is_looked_up() {
    let app = H1::default().get("/search", 5);
    assert_eq!(handler_of(&app, b"GET /search HTTP/1.1\r\n\r\n"), Some(5));
    assert_eq!(handler_of(&app, b"GET /search?q=1 HTTP/1.1\r\n\r\n"), None);
}

#[test]
fn what_the_router_found_is_where_the_request_goes() {
    match h1::router::route(Some((4, vec![("id".to_string(), "9".to_string())]))) {
        Dispatch::Call { handler, params } => {
            assert_eq!(handler, 4);
            assert_eq!(params, vec![("id".to_string(), "9".to_string())]);
        }
        other => panic!("no call: {:?}", other),
    }
}

#[test]
fn what_the_router_did_not_find_is_answered_with_404() {
    match h1::router::route(None) {
        Dispatch::NotFound(response) => {
            assert_eq!(response.body_encoded(), b"");
            assert_eq!(
                response.header_encoded(DATE),
                b"HTTP/1.1 404 Not Found\r\nServer: Example\r\nContent-Length: 0\r\n\
                  Date: Thu, 01 Jan 1970 00:00:00 GMT\r\n\r\n"
                    .to_vec()
            );
        }
        other => panic!("found: {:?}", other),
    }
}
