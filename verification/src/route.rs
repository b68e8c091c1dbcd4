//! The request line and the routing decision taken from it.

use vstd::prelude::*;
use vstd::string::StringSliceAdditionalSpecFns;
use vstd::utf8::valid_utf8;
use crate::bytes::{
    bytes_eq, copy_range, count_byte, count_occurrences, find_from, find_seq_from,
    last_index_of, last_position, lemma_find_seq_bounds, split_piece, split_piece_at,
};
use crate::head::{crlf, line_end, RequestError};
use crate::inspect::{inspect_content, inspect_spec};
use crate::utf8::{is_utf8, utf8_prefix_len, valid_up_to};

verus! {

/// The length of the Unicode white-space character (`char::is_whitespace`)
/// whose UTF-8 encoding starts at `s[i]`, or 0 when none does.
pub open spec fn ws_width(s: Seq<u8>, i: int) -> int {
    if 0 <= i < s.len() {
        let b = s[i];
        if b == 0x20 || (0x09 <= b && b <= 0x0d) {
            1
        } else if b == 0xc2 && i + 1 < s.len() && (s[i + 1] == 0x85 || s[i + 1] == 0xa0) {
            2
        } else if i + 2 < s.len() && ((b == 0xe1 && s[i + 1] == 0x9a && s[i + 2] == 0x80) || (
        b == 0xe2 && s[i + 1] == 0x80 && ((0x80 <= s[i + 2] && s[i + 2] <= 0x8a) || s[i + 2]
            == 0xa8 || s[i + 2] == 0xa9 || s[i + 2] == 0xaf)) || (b == 0xe2 && s[i + 1] == 0x81
            && s[i + 2] == 0x9f) || (b == 0xe3 && s[i + 1] == 0x80 && s[i + 2] == 0x80)) {
            3
        } else {
            0
        }
    } else {
        0
    }
}

/// The first position at or after `i` where no white space starts.
pub open spec fn skip_ws(s: Seq<u8>, i: int) -> int
    decreases s.len() - i,
{
    if 0 <= i < s.len() && ws_width(s, i) > 0 {
        skip_ws(s, i + ws_width(s, i))
    } else {
        i
    }
}

/// The first position at or after `i` where white space starts, or the end.
pub open spec fn token_end(s: Seq<u8>, i: int) -> int
    decreases s.len() - i,
{
    if 0 <= i < s.len() && ws_width(s, i) == 0 {
        token_end(s, i + 1)
    } else {
        i
    }
}

/// The first two words of `line` (as `split_whitespace` gives them), when
/// it has at least two.
pub open spec fn first_two_words(line: Seq<u8>) -> Option<(Seq<u8>, Seq<u8>)> {
    let a0 = skip_ws(line, 0);
    let e0 = token_end(line, a0);
    let a1 = skip_ws(line, e0);
    let e1 = token_end(line, a1);
    if a1 < line.len() {
        Some((line.subrange(a0, e0), line.subrange(a1, e1)))
    } else {
        None
    }
}

/// The request as text: binary-looking requests are cut to their leading
/// UTF-8 text (and must not be UTF-8 as a whole); others must be UTF-8.
pub open spec fn request_text(req: Seq<u8>) -> Result<Seq<u8>, RequestError> {
    if inspect_spec(req) is Binary {
        if valid_utf8(req) {
            Err(RequestError::RequestNotUtf8)
        } else {
            Ok(req.subrange(0, utf8_prefix_len(req)))
        }
    } else if valid_utf8(req) {
        Ok(req)
    } else {
        Err(RequestError::RequestNotUtf8)
    }
}

/// Where a request goes.
#[derive(Debug, Clone, Copy, PartialEq, Eq, Structural)]
pub enum Route {
    /// `GET /api/test_sse.rs`: a stream of server-sent events.
    ApiEventStream,
    /// Any other API `GET`: a plain "NOT IMPLEMENTED".
    ApiNotImplemented,
    /// `POST /api/filescan.rs`: scan the uploaded file.
    ApiFileScan,
    /// `POST /api/mu.rs`: run the uploaded program.
    ApiMu,
    /// `POST /api/nu.rs`: deploy the uploaded program as a service.
    ApiNu,
    /// Any other API request: the connection is shut down.
    ApiRefused,
    /// An API `POST` whose target has a single `/`: nothing is answered.
    ApiIgnored,
    /// `GET` of an `.html` file.
    ServeHtml,
    /// `GET` of a `.jpg` file.
    ServeJpg,
    /// Other `GET`, `POST` and `PUT` requests: "NOT IMPLEMENTED".
    NotImplemented,
    /// Any other method: the connection is shut down.
    UndefinedMethod,
}

impl Route {
    /// The route serves an API call.
    pub open spec fn is_api_route(self) -> bool {
        ||| self is ApiEventStream
        ||| self is ApiNotImplemented
        ||| self is ApiFileScan
        ||| self is ApiMu
        ||| self is ApiNu
        ||| self is ApiRefused
        ||| self is ApiIgnored
    }
}

/// The routing decision and the file name the request names.
pub struct Routing {
    pub route: Route,
    pub filename: Vec<u8>,
}

/// The length of the UTF-8 character announced by the leading byte `b`.
pub open spec fn lead_width(b: u8) -> int {
    if b < 0xc0 {
        1
    } else if b < 0xe0 {
        2
    } else if b < 0xf0 {
        3
    } else {
        4
    }
}

/// `t` without its first character.
pub open spec fn after_first_char(t: Seq<u8>) -> Seq<u8> {
    if t.len() == 0 {
        t
    } else if lead_width(t[0]) >= t.len() {
        Seq::<u8>::empty()
    } else {
        t.subrange(lead_width(t[0]), t.len() as int)
    }
}

pub open spec fn root_target() -> Seq<u8> {
    seq![0x2fu8]
}

/// The target the routing reads: `/` stands for `/index.html`.
pub open spec fn routed_target(target: Seq<u8>) -> Seq<u8> {
    if target == root_target() {
        "/index.html".spec_bytes()
    } else {
        target
    }
}

/// The file a target names: `index.html` for `/`, else the target without
/// its first character.
pub open spec fn filename_of(target: Seq<u8>) -> Seq<u8> {
    if target == root_target() {
        "index.html".spec_bytes()
    } else {
        after_first_char(target)
    }
}

/// The path names an API call: its part before the first `/` is `api`.
pub open spec fn is_api_spec(path: Seq<u8>) -> bool {
    split_piece(path, 0x2fu8, 0) == Some("api".spec_bytes())
}

/// The part of `s` after its last `/`.
pub open spec fn last_segment(s: Seq<u8>) -> Seq<u8> {
    match last_index_of(s, 0x2fu8) {
        Some(i) => s.subrange(i + 1, s.len() as int),
        None => s,
    }
}

/// The last segment has exactly one `.`, followed by `ext`.
pub open spec fn has_extension(segment: Seq<u8>, ext: Seq<u8>) -> bool {
    count_byte(segment, 0x2eu8) == 1 && split_piece(segment, 0x2eu8, 1) == Some(ext)
}

/// Where an API request goes.
pub open spec fn api_route(method: Seq<u8>, uri: Seq<u8>) -> Route {
    let segments = count_byte(uri, 0x2fu8);
    if method == "GET".spec_bytes() {
        if segments > 1 && split_piece(uri, 0x2fu8, 2) == Some("test_sse.rs".spec_bytes()) {
            Route::ApiEventStream
        } else {
            Route::ApiNotImplemented
        }
    } else if method == "POST".spec_bytes() {
        if segments > 1 {
            if split_piece(uri, 0x2fu8, 2) == Some("filescan.rs".spec_bytes()) {
                Route::ApiFileScan
            } else if split_piece(uri, 0x2fu8, 2) == Some("mu.rs".spec_bytes()) {
                Route::ApiMu
            } else if split_piece(uri, 0x2fu8, 2) == Some("nu.rs".spec_bytes()) {
                Route::ApiNu
            } else {
                Route::ApiRefused
            }
        } else {
            Route::ApiIgnored
        }
    } else {
        Route::ApiRefused
    }
}

/// Where a request for a page goes.
pub open spec fn page_route(method: Seq<u8>, uri: Seq<u8>) -> Route {
    if method == "GET".spec_bytes() {
        if has_extension(last_segment(uri), "html".spec_bytes()) {
            Route::ServeHtml
        } else if has_extension(last_segment(uri), "jpg".spec_bytes()) {
            Route::ServeJpg
        } else {
            Route::NotImplemented
        }
    } else if method == "POST".spec_bytes() || method == "PUT".spec_bytes() {
        Route::NotImplemented
    } else {
        Route::UndefinedMethod
    }
}

/// The routing of a request with the given method and target.
pub open spec fn route_spec(method: Seq<u8>, target: Seq<u8>) -> Result<(Route, Seq<u8>), RequestError> {
    let uri = routed_target(target);
    let filename = filename_of(target);
    if count_byte(uri, 0x2fu8) == 0 {
        Err(RequestError::TargetWithoutSlash)
    } else if is_api_spec(filename) {
        Ok((api_route(method, uri), filename))
    } else {
        Ok((page_route(method, uri), filename))
    }
}

/// The routing of a whole request.
pub open spec fn routing_spec(req: Seq<u8>) -> Result<(Route, Seq<u8>), RequestError> {
    match request_text(req) {
        Err(e) => Err(e),
        Ok(text) => match first_two_words(text.subrange(0, line_end(text, 0))) {
            None => Err(RequestError::RequestLineIncomplete),
            Some((method, target)) => route_spec(method, target),
        },
    }
}

/// API routes are taken exactly for paths that name an API call, and page
/// routes exactly for the others.
pub proof fn law_api_routes_follow_path(method: Seq<u8>, target: Seq<u8>)
    ensures
        route_spec(method, target) matches Ok((route, filename)) ==> (route.is_api_route()
            <==> is_api_spec(filename)),
{
}

/// A method other than GET, POST and PUT is never served: the connection
/// is shut down.
pub proof fn law_unknown_method_refused(method: Seq<u8>, target: Seq<u8>)
    requires
        method != "GET".spec_bytes(),
        method != "POST".spec_bytes(),
        method != "PUT".spec_bytes(),
    ensures
        route_spec(method, target) matches Ok((route, _)) ==> (route == Route::ApiRefused
            || route == Route::UndefinedMethod),
{
}

/// Only GET requests are answered with a file.
pub proof fn law_files_only_for_get(method: Seq<u8>, target: Seq<u8>)
    ensures
        route_spec(method, target) matches Ok((route, _)) ==> ((route == Route::ServeHtml
            || route == Route::ServeJpg) ==> method == "GET".spec_bytes()),
{
}

/// The upload endpoints (scan, run, deploy) are reached by POST alone.
pub proof fn law_uploads_only_by_post(method: Seq<u8>, target: Seq<u8>)
    ensures
        route_spec(method, target) matches Ok((route, _)) ==> ((route == Route::ApiFileScan
            || route == Route::ApiMu || route == Route::ApiNu) ==> method
            == "POST".spec_bytes()),
{
}

/// A GET of an API path is answered with the event stream when the piece
/// after the second `/` of its target is `test_sse.rs`, and with "NOT
/// IMPLEMENTED" for every other API path.
pub proof fn law_api_get_routes(target: Seq<u8>)
    ensures
        route_spec("GET".spec_bytes(), target) matches Ok((route, filename)) ==> (
        is_api_spec(filename) ==> (route == Route::ApiEventStream || route
            == Route::ApiNotImplemented) && (route == Route::ApiEventStream <==> (count_byte(
            routed_target(target),
            0x2fu8,
        ) > 1 && split_piece(routed_target(target), 0x2fu8, 2) == Some(
            "test_sse.rs".spec_bytes(),
        )))),
{
}

/// A routing outcome taken by its view.
pub open spec fn routing_view(r: Result<Routing, RequestError>) -> Result<(Route, Seq<u8>), RequestError> {
    match r {
        Ok(x) => Ok((x.route, x.filename@)),
        Err(e) => Err(e),
    }
}

/// The width of the white-space character that starts at `s[i]`, or 0.
fn ws_width_at(s: &[u8], i: usize) -> (r: usize)
    requires
        i <= s@.len(),
    ensures
        r == ws_width(s@, i as int),
{
    let n = s.len();
    if i >= n {
        return 0;
    }
    let b = s[i];
    if b == 0x20 || (0x09 <= b && b <= 0x0d) {
        return 1;
    }
    if b == 0xc2 && n - i > 1 {
        let c = s[i + 1];
        if c == 0x85 || c == 0xa0 {
            return 2;
        }
        return 0;
    }
    if n - i > 2 {
        let c = s[i + 1];
        let d = s[i + 2];
        if (b == 0xe1 && c == 0x9a && d == 0x80) || (b == 0xe2 && c == 0x80 && ((0x80 <= d && d
            <= 0x8a) || d == 0xa8 || d == 0xa9 || d == 0xaf)) || (b == 0xe2 && c == 0x81 && d
            == 0x9f) || (b == 0xe3 && c == 0x80 && d == 0x80) {
            return 3;
        }
    }
    0
}

pub(crate) fn skip_ws_from(s: &[u8], i: usize) -> (r: usize)
    requires
        i <= s@.len(),
    ensures
        r == skip_ws(s@, i as int),
        i <= r <= s@.len(),
{
    let mut j = i;
    while j < s.len()
        invariant
            i <= j <= s@.len(),
            skip_ws(s@, i as int) == skip_ws(s@, j as int),
        decreases s@.len() - j,
    {
        let w = ws_width_at(s, j);
        if w == 0 {
            return j;
        }
        j = j + w;
    }
    j
}

pub(crate) fn token_end_from(s: &[u8], i: usize) -> (r: usize)
    requires
        i <= s@.len(),
    ensures
        r == token_end(s@, i as int),
        i <= r <= s@.len(),
{
    let mut j = i;
    while j < s.len()
        invariant
            i <= j <= s@.len(),
            token_end(s@, i as int) == token_end(s@, j as int),
        decreases s@.len() - j,
    {
        if ws_width_at(s, j) > 0 {
            return j;
        }
        j = j + 1;
    }
    j
}

/// Whether the path names an API call (`api` before its first `/`).
pub fn is_api(requests: &[u8]) -> (r: bool)
    ensures
        r == is_api_spec(requests@),
{
    match split_piece_at(requests, 0x2fu8, 0) {
        Some(first) => bytes_eq(first.as_slice(), "api".as_bytes()),
        None => false,
    }
}

/// `t` without its first character.
fn drop_first_char(t: &[u8]) -> (r: Vec<u8>)
    ensures
        r@ == after_first_char(t@),
{
    if t.len() == 0 {
        return Vec::new();
    }
    let b = t[0];
    let w: usize = if b < 0xc0 {
        1
    } else if b < 0xe0 {
        2
    } else if b < 0xf0 {
        3
    } else {
        4
    };
    if w >= t.len() {
        return Vec::new();
    }
    copy_range(t, w, t.len())
}

/// The last segment has exactly one `.`, followed by `ext`.
fn extension_is(segment: &[u8], ext: &[u8]) -> (r: bool)
    ensures
        r == has_extension(segment@, ext@),
{
    if count_occurrences(segment, 0x2eu8) != 1 {
        return false;
    }
    match split_piece_at(segment, 0x2eu8, 1) {
        Some(e) => bytes_eq(e.as_slice(), ext),
        None => false,
    }
}

/// Piece `k` of `uri.split('/')` is `name`.
fn piece_is(uri: &[u8], k: usize, name: &[u8]) -> (r: bool)
    ensures
        r == (split_piece(uri@, 0x2fu8, k as nat) == Some(name@)),
{
    match split_piece_at(uri, 0x2fu8, k) {
        Some(p) => bytes_eq(p.as_slice(), name),
        None => false,
    }
}

/// Routes a request with the given method and target.
pub fn route_target(method: &[u8], target: &[u8]) -> (r: Result<Routing, RequestError>)
    ensures
        routing_view(r) == route_spec(method@, target@),
{
    let slash: [u8; 1] = [0x2fu8];
    assert(slash@ =~= root_target());
    let is_root = bytes_eq(target, &slash);
    let uri: Vec<u8> = if is_root {
        copy_range("/index.html".as_bytes(), 0, "/index.html".as_bytes().len())
    } else {
        copy_range(target, 0, target.len())
    };
    assert(uri@ =~= routed_target(target@));
    let filename: Vec<u8> = if is_root {
        copy_range("index.html".as_bytes(), 0, "index.html".as_bytes().len())
    } else {
        drop_first_char(target)
    };
    assert(filename@ =~= filename_of(target@));
    let uri = uri.as_slice();
    let segments = count_occurrences(uri, 0x2fu8);
    if segments == 0 {
        return Err(RequestError::TargetWithoutSlash);
    }
    let route = if is_api(filename.as_slice()) {
        if bytes_eq(method, "GET".as_bytes()) {
            if segments > 1 && piece_is(uri, 2, "test_sse.rs".as_bytes()) {
                Route::ApiEventStream
            } else {
                Route::ApiNotImplemented
            }
        } else if bytes_eq(method, "POST".as_bytes()) {
            if segments > 1 {
                if piece_is(uri, 2, "filescan.rs".as_bytes()) {
                    Route::ApiFileScan
                } else if piece_is(uri, 2, "mu.rs".as_bytes()) {
                    Route::ApiMu
                } else if piece_is(uri, 2, "nu.rs".as_bytes()) {
                    Route::ApiNu
                } else {
                    Route::ApiRefused
                }
            } else {
                Route::ApiIgnored
            }
        } else {
            Route::ApiRefused
        }
    } else {
        if bytes_eq(method, "GET".as_bytes()) {
            let last = match last_position(uri, 0x2fu8) {
                Some(i) => vstd::slice::slice_subrange(uri, i + 1, uri.len()),
                None => uri,
            };
            assert(last@ =~= last_segment(uri@));
            if extension_is(last, "html".as_bytes()) {
                Route::ServeHtml
            } else if extension_is(last, "jpg".as_bytes()) {
                Route::ServeJpg
            } else {
                Route::NotImplemented
            }
        } else if bytes_eq(method, "POST".as_bytes()) || bytes_eq(method, "PUT".as_bytes()) {
            Route::NotImplemented
        } else {
            Route::UndefinedMethod
        }
    };
    Ok(Routing { route, filename })
}

/// Reads the request line of a received request and routes it.
pub fn route_request(request: &[u8]) -> (r: Result<Routing, RequestError>)
    ensures
        routing_view(r) == routing_spec(request@),
{
    let kind = inspect_content(request);
    let text: &[u8] = if kind.is_binary() {
        let v = valid_up_to(request);
        if v == request.len() {
            return Err(RequestError::RequestNotUtf8);
        }
        vstd::slice::slice_subrange(request, 0, v)
    } else {
        if !is_utf8(request) {
            return Err(RequestError::RequestNotUtf8);
        }
        request
    };
    assert(request_text(request@) == Ok::<Seq<u8>, RequestError>(text@));
    let crlf_bytes: [u8; 2] = [0x0du8, 0x0au8];
    assert(crlf_bytes@ =~= crlf());
    let end = match find_from(text, &crlf_bytes, 0) {
        Some(e) => {
            proof {
                lemma_find_seq_bounds(text@, crlf(), 0);
            }
            e
        },
        None => text.len(),
    };
    let line = vstd::slice::slice_subrange(text, 0, end);
    let a0 = skip_ws_from(line, 0);
    let e0 = token_end_from(line, a0);
    let a1 = skip_ws_from(line, e0);
    let e1 = token_end_from(line, a1);
    if a1 >= line.len() {
        return Err(RequestError::RequestLineIncomplete);
    }
    let method = vstd::slice::slice_subrange(line, a0, e0);
    let target = vstd::slice::slice_subrange(line, a1, e1);
    route_target(method, target)
}

} // verus!
