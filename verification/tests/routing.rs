use websrv_core::head::RequestError;
use websrv_core::route::{is_api, route_request, route_target, Route};

fn route_of(req: &[u8]) -> Result<(Route, Vec<u8>), RequestError> {
    route_request(req).map(|r| (r.route, r.filename))
}

fn ok(route: Route, filename: &str) -> Result<(Route, Vec<u8>), RequestError> {
    Ok((route, filename.as_bytes().to_vec()))
}

#[test]
fn root_is_the_index_page() {
    assert_eq!(route_of(b"GET / HTTP/1.1\r\nHost: x\r\n\r\n"), ok(Route::ServeHtml, "index.html"));
}

#[test]
fn pages_by_extension() {
    assert_eq!(route_of(b"GET /about.html HTTP/1.1\r\n\r\n"), ok(Route::ServeHtml, "about.html"));
    assert_eq!(
        route_of(b"GET /image/test.jpg HTTP/1.1\r\n\r\n"),
        ok(Route::ServeJpg, "image/test.jpg")
    );
    assert_eq!(route_of(b"GET /a.b.html HTTP/1.1\r\n\r\n"), ok(Route::NotImplemented, "a.b.html"));
    assert_eq!(route_of(b"GET /readme HTTP/1.1\r\n\r\n"), ok(Route::NotImplemented, "readme"));
    assert_eq!(route_of(b"GET /x.png HTTP/1.1\r\n\r\n"), ok(Route::NotImplemented, "x.png"));
}

#[test]
fn methods_other_than_get() {
    assert_eq!(route_of(b"POST /a.html HTTP/1.1\r\n\r\n"), ok(Route::NotImplemented, "a.html"));
    assert_eq!(route_of(b"PUT /a.html HTTP/1.1\r\n\r\n"), ok(Route::NotImplemented, "a.html"));
    assert_eq!(route_of(b"DELETE /a.html HTTP/1.1\r\n\r\n"), ok(Route::UndefinedMethod, "a.html"));
}

#[test]
fn api_calls() {
    assert_eq!(
        route_of(b"GET /api/test_sse.rs HTTP/1.1\r\n\r\n"),
        ok(Route::ApiEventStream, "api/test_sse.rs")
    );
    assert_eq!(route_of(b"GET /api/other HTTP/1.1\r\n\r\n"), ok(Route::ApiNotImplemented, "api/other"));
    assert_eq!(route_of(b"GET /api HTTP/1.1\r\n\r\n"), ok(Route::ApiNotImplemented, "api"));
    assert_eq!(
        route_of(b"POST /api/filescan.rs HTTP/1.1\r\n\r\n"),
        ok(Route::ApiFileScan, "api/filescan.rs")
    );
    assert_eq!(route_of(b"POST /api/mu.rs HTTP/1.1\r\n\r\n"), ok(Route::ApiMu, "api/mu.rs"));
    assert_eq!(route_of(b"POST /api/nu.rs HTTP/1.1\r\n\r\n"), ok(Route::ApiNu, "api/nu.rs"));
    assert_eq!(route_of(b"POST /api/mu.rs/x HTTP/1.1\r\n\r\n"), ok(Route::ApiMu, "api/mu.rs/x"));
    assert_eq!(route_of(b"POST /api/other HTTP/1.1\r\n\r\n"), ok(Route::ApiRefused, "api/other"));
    assert_eq!(route_of(b"POST /api HTTP/1.1\r\n\r\n"), ok(Route::ApiIgnored, "api"));
    assert_eq!(route_of(b"PUT /api/mu.rs HTTP/1.1\r\n\r\n"), ok(Route::ApiRefused, "api/mu.rs"));
    assert_eq!(route_of(b"POST xapi/mu.rs HTTP/1.1\r\n\r\n"), ok(Route::ApiIgnored, "api/mu.rs"));
}

#[test]
fn request_line_errors() {
    assert_eq!(route_of(b"GET\r\n\r\n"), Err(RequestError::RequestLineIncomplete));
    assert_eq!(route_of(b""), Err(RequestError::RequestLineIncomplete));
    assert_eq!(route_of(b"   \r\nGET / HTTP/1.1"), Err(RequestError::RequestLineIncomplete));
    assert_eq!(route_of(b"GET index.html HTTP/1.1\r\n\r\n"), Err(RequestError::TargetWithoutSlash));
    assert_eq!(route_of(b"GET /\xff HTTP/1.1\r\n\r\n"), Err(RequestError::RequestNotUtf8));
}

#[test]
fn binary_requests_are_cut_to_their_text() {
    // a zero byte makes the request look binary; when it is still UTF-8 it is refused
    assert_eq!(route_of(b"GET / HTTP/1.1\r\n\r\n\0"), Err(RequestError::RequestNotUtf8));
    // otherwise only its leading UTF-8 text is read
    assert_eq!(route_of(b"GET /a.jpg HTTP/1.1\r\n\r\n\0\xff\xfe"), ok(Route::ServeJpg, "a.jpg"));
}

#[test]
fn words_split_at_unicode_white_space() {
    let line = "GET\u{3000}/x.html\u{a0}HTTP/1.1";
    let words: Vec<&str> = line.split_whitespace().collect();
    assert_eq!(words, vec!["GET", "/x.html", "HTTP/1.1"]);
    assert_eq!(route_of(line.as_bytes()), ok(Route::ServeHtml, "x.html"));
    assert_eq!(route_of(b"\t GET \x0b /y.html"), ok(Route::ServeHtml, "y.html"));
}

#[test]
fn route_target_directly() {
    assert_eq!(route_target(b"GET", b"/").map(|r| (r.route, r.filename)), ok(Route::ServeHtml, "index.html"));
    assert_eq!(
        route_target(b"GET", b"//etc/x.html").map(|r| (r.route, r.filename)),
        ok(Route::ServeHtml, "/etc/x.html")
    );
    assert_eq!(
        route_target(b"GET", "é/x.jpg".as_bytes()).map(|r| (r.route, r.filename)),
        ok(Route::ServeJpg, "/x.jpg")
    );
}

#[test]
fn api_paths() {
    assert!(is_api(b"api"));
    assert!(is_api(b"api/mu.rs"));
    assert!(!is_api(b"apis/mu.rs"));
    assert!(!is_api(b"/api"));
    assert!(!is_api(b"index.html"));
}
