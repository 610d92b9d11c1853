use worker_pool::request::{find, parse_path, resolve, route, Page};

#[test]
fn find_gives_the_first_occurrence() {
    assert_eq!(find(b"abcabc", b"bc", 0), Some(1));
    assert_eq!(find(b"abcabc", b"bc", 1), Some(1));
    assert_eq!(find(b"abcabc", b"bc", 2), Some(4));
    assert_eq!(find(b"abcabc", b"bc", 5), None);
    assert_eq!(find(b"abcabc", b"abcabc", 0), Some(0));
    assert_eq!(find(b"abcabc", b"abcabcd", 0), None);
    assert_eq!(find(b"aaab", b"aab", 0), Some(1));
}

#[test]
fn find_at_the_edges() {
    assert_eq!(find(b"", b"a", 0), None);
    assert_eq!(find(b"", b"", 0), Some(0));
    assert_eq!(find(b"abc", b"", 0), Some(0));
    assert_eq!(find(b"abc", b"", 3), Some(3));
    assert_eq!(find(b"abc", b"", 4), None);
    assert_eq!(find(b"abc", b"c", 2), Some(2));
    assert_eq!(find(b"abc", b"c", 3), None);
    assert_eq!(find(b"abc", b"a", usize::MAX), None);
}

#[test]
fn parse_path_of_the_known_requests() {
    assert_eq!(parse_path(b"GET / HTTP/1.1\r\nHost: localhost\r\n\r\n"), "/");
    assert_eq!(parse_path(b"GET /about HTTP/1.1\r\n\r\n"), "/about");
    assert_eq!(parse_path(b"GET /unknown HTTP/1.1\r\n\r\n"), "/unknown");
}

#[test]
fn parse_path_in_a_padded_buffer() {
    let mut buffer = [0u8; 1024];
    let request = b"GET /about HTTP/1.1\r\nHost: 127.0.0.1:7878\r\n\r\n";
    buffer[..request.len()].copy_from_slice(request);
    assert_eq!(parse_path(&buffer), "/about");
    assert_eq!(parse_path(&[0u8; 1024]), "/");
}

#[test]
fn parse_path_defaults_to_the_root() {
    assert_eq!(parse_path(b""), "/");
    assert_eq!(parse_path(b"POST /about HTTP/1.1\r\n\r\n"), "/");
    assert_eq!(parse_path(b"GET /about"), "/");
    assert_eq!(parse_path(b"GET /about HTTP/1.0\r\n\r\n"), "/");
    assert_eq!(parse_path(b"get /about HTTP/1.1\r\n\r\n"), "/");
    assert_eq!(parse_path(b" HTTP/1.1 GET /about"), "/");
}

#[test]
fn parse_path_takes_what_lies_between_the_markers() {
    assert_eq!(parse_path(b"GET  HTTP/1.1"), "");
    assert_eq!(parse_path(b"GET /a b/c?d=e HTTP/1.1"), "/a b/c?d=e");
    assert_eq!(parse_path(b"GET /x HTTP/1.1 GET /y HTTP/1.1"), "/x");
    assert_eq!(parse_path(b"xxGET /late HTTP/1.1"), "/late");
    assert_eq!(parse_path(b"\r\n\r\nGET /index.html HTTP/1.1\r\n"), "/index.html");
}

#[test]
fn parse_path_looks_for_the_end_behind_the_start() {
    assert_eq!(parse_path(b"GET HTTP/1.1"), "/");
    assert_eq!(parse_path(b"GET HTTP/1.1 HTTP/1.1"), "HTTP/1.1");
    assert_eq!(parse_path(b" HTTP/1.1GET /p HTTP/1.1"), "/p");
}

#[test]
fn parse_path_decodes_the_path() {
    assert_eq!(parse_path("GET /caf\u{e9} HTTP/1.1".as_bytes()), "/caf\u{e9}");
    assert_eq!(parse_path(b"GET /\xff HTTP/1.1"), "/\u{fffd}");
    assert_eq!(parse_path(b"GET /a\xe2\x82z HTTP/1.1"), "/a\u{fffd}z");
    assert_eq!(parse_path(b"\xffGET /ok HTTP/1.1\xfe"), "/ok");
}

#[test]
fn route_knows_two_paths() {
    assert_eq!(route("/"), Page::Hello);
    assert_eq!(route("/about"), Page::About);
    assert_eq!(route("/unknown"), Page::NotFound);
}

#[test]
fn route_sends_every_other_path_to_not_found() {
    for path in ["", "//", "/about/", "/About", "about", "/abou", "/about ", "/\u{e9}", "/hello"] {
        assert_eq!(route(path), Page::NotFound);
    }
}

#[test]
fn pages_have_their_status_line_and_file() {
    assert_eq!(Page::Hello.status_line(), "HTTP/1.1 200 OK\r\n\r\n");
    assert_eq!(Page::Hello.file_name(), "static/hello.html");
    assert_eq!(Page::About.status_line(), "HTTP/1.1 200 OK\r\n\r\n");
    assert_eq!(Page::About.file_name(), "static/about.html");
    assert_eq!(Page::NotFound.status_line(), "HTTP/1.1 404 NOT FOUND\r\n\r\n");
    assert_eq!(Page::NotFound.file_name(), "static/404.html");
}

#[test]
fn response_is_the_status_line_and_the_contents() {
    assert_eq!(
        Page::Hello.response("<h1>Hello</h1>"),
        "HTTP/1.1 200 OK\r\n\r\n<h1>Hello</h1>"
    );
    assert_eq!(
        Page::NotFound.response("gone"),
        "HTTP/1.1 404 NOT FOUND\r\n\r\ngone"
    );
    assert_eq!(Page::About.response(""), "HTTP/1.1 200 OK\r\n\r\n");
}

#[test]
fn known_requests_resolve_to_their_pages() {
    assert_eq!(resolve(b"GET / HTTP/1.1\r\n\r\n"), Page::Hello);
    assert_eq!(resolve(b"GET /about HTTP/1.1\r\n\r\n"), Page::About);
    assert_eq!(resolve(b"GET /unknown HTTP/1.1\r\n\r\n"), Page::NotFound);
    assert_eq!(resolve(b"garbage"), Page::Hello);
    let reply = resolve(b"GET /unknown HTTP/1.1\r\n\r\n").response("<h1>Oops!</h1>");
    assert_eq!(reply, "HTTP/1.1 404 NOT FOUND\r\n\r\n<h1>Oops!</h1>");
}
