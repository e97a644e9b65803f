use server::request::route;
use server::request::starts_with;
use server::Route;

fn buffer(request: &[u8]) -> [u8; 512] {
    let mut bytes = [0u8; 512];
    bytes[..request.len()].copy_from_slice(request);
    bytes
}

#[test]
fn root_is_the_entry_page() {
    assert_eq!(route(&buffer(b"GET / HTTP/1.1\r\nHost: localhost\r\n\r\n")), Route::Page);
    assert_eq!(route(b"GET / HTTP/1.1"), Route::Page);
}

#[test]
fn site_icon_is_the_entry_page() {
    assert_eq!(route(&buffer(b"GET /favicon.ico HTTP/1.1\r\n\r\n")), Route::Page);
}

#[test]
fn sleep_is_the_slow_page() {
    assert_eq!(route(&buffer(b"GET /sleep HTTP/1.1\r\n\r\n")), Route::SlowPage);
}

#[test]
fn anything_else_is_not_found() {
    assert_eq!(route(&buffer(b"GET /other HTTP/1.1\r\n\r\n")), Route::NotFound);
    assert_eq!(route(&buffer(b"POST / HTTP/1.1\r\n\r\n")), Route::NotFound);
    assert_eq!(route(&buffer(b"GET / HTTP/1.0\r\n\r\n")), Route::NotFound);
    assert_eq!(route(&buffer(b"get / http/1.1\r\n\r\n")), Route::NotFound);
    assert_eq!(route(&buffer(b"")), Route::NotFound);
    assert_eq!(route(b""), Route::NotFound);
}

#[test]
fn request_cut_short_is_not_found() {
    assert_eq!(route(b"GET / HTTP/1."), Route::NotFound);
    assert_eq!(route(b"GET /sleep HTTP/1.1"), Route::SlowPage);
    assert_eq!(route(b"GET /sleep HTTP/1."), Route::NotFound);
}

#[test]
fn request_must_begin_with_the_request_line() {
    assert_eq!(route(b" GET / HTTP/1.1"), Route::NotFound);
}

#[test]
fn prefix_test_handles_the_edges() {
    assert!(starts_with(b"abc", b""));
    assert!(starts_with(b"", b""));
    assert!(starts_with(b"abc", b"abc"));
    assert!(starts_with(b"abc", b"ab"));
    assert!(!starts_with(b"abc", b"abcd"));
    assert!(!starts_with(b"", b"a"));
    assert!(!starts_with(b"abc", b"abd"));
    assert!(!starts_with(b"abc", b"bc"));
    assert!(!starts_with(b"xbc", b"abc"));
}

#[test]
fn status_lines_are_exact() {
    assert_eq!(Route::Page.status_line(), "HTTP/1.1 200 OK\r\n\r\n");
    assert_eq!(Route::SlowPage.status_line(), "HTTP/1.1 200 OK\r\n\r\n");
    assert_eq!(Route::NotFound.status_line(), "HTTP/1.1 404 NOT FOUND\r\n\r\n");
}

#[test]
fn files_are_exact() {
    assert_eq!(Route::Page.file(), "src/temp/entry.html");
    assert_eq!(Route::SlowPage.file(), "src/temp/entry.html");
    assert_eq!(Route::NotFound.file(), "src/temp/404.html");
}

#[test]
fn only_the_slow_page_is_held_back() {
    assert_eq!(Route::Page.delay_seconds(), 0);
    assert_eq!(Route::SlowPage.delay_seconds(), 5);
    assert_eq!(Route::NotFound.delay_seconds(), 0);
}

#[test]
fn response_is_the_status_line_then_the_body() {
    assert_eq!(Route::Page.response("<h1>Hi</h1>"), "HTTP/1.1 200 OK\r\n\r\n<h1>Hi</h1>");
    assert_eq!(Route::NotFound.response("gone"), "HTTP/1.1 404 NOT FOUND\r\n\r\ngone");
    assert_eq!(Route::SlowPage.response(""), "HTTP/1.1 200 OK\r\n\r\n");
}
