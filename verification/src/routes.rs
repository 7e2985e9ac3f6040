//! The request dispatcher's decisions, separated from the socket handling:
//! which route a method and URL name, which content type a static file gets,
//! whether a path tries to escape the static root, and whether a request
//! came from the hypermedia front end.
use crate::identity::find_byte;
use vstd::prelude::*;
use vstd::string::StringSliceAdditionalSpecFns;

verus! {

/// The request methods the server distinguishes.
#[derive(PartialEq, Eq, Structural, Clone, Copy, Debug)]
pub enum Method {
    Get,
    Post,
    Other,
}

/// Every endpoint the server serves.
#[derive(PartialEq, Eq, Structural, Clone, Copy, Debug)]
pub enum Route {
    Home,
    Guestbook,
    Projects,
    Interests,
    CompNowPlaying,
    CompTopArtists,
    CompTopTracks,
    CompTopAlbums,
    CompUserStats,
    CompServerWeather,
    CompProjects,
    CompMessages,
    CompPostMessage,
    StaticAsset,
    NotFound,
}

/// How a response body is rendered: alone, or wrapped in the full page.
pub enum RenderType {
    Partial,
    Full,
}

pub open spec fn spec_starts_with(b: Seq<u8>, p: Seq<u8>) -> bool {
    b.len() >= p.len() && b.subrange(0, p.len() as int) == p
}

/// Whether `v` begins with `prefix`.
pub fn bytes_starts_with(v: &[u8], prefix: &[u8]) -> (r: bool)
    ensures
        r == spec_starts_with(v@, prefix@),
{
    if v.len() < prefix.len() {
        return false;
    }
    let head = &v[0..prefix.len()];
    crate::strutil::bytes_eq(head, prefix)
}

/// The path part of a request URL: everything before the first `?`.
pub open spec fn spec_path_of(url: Seq<u8>) -> Seq<u8> {
    url.subrange(0, find_byte(url, 63))
}

/// The route of the component endpoints, matched on the bare path.
pub open spec fn spec_comp_route(m: Method, path: Seq<u8>) -> Route {
    if m == Method::Get && path == "/comp/now-playing".spec_bytes() {
        Route::CompNowPlaying
    } else if m == Method::Get && path == "/comp/top-artists".spec_bytes() {
        Route::CompTopArtists
    } else if m == Method::Get && path == "/comp/top-tracks".spec_bytes() {
        Route::CompTopTracks
    } else if m == Method::Get && path == "/comp/top-albums".spec_bytes() {
        Route::CompTopAlbums
    } else if m == Method::Get && path == "/comp/user-stats".spec_bytes() {
        Route::CompUserStats
    } else if m == Method::Get && path == "/comp/server-weather".spec_bytes() {
        Route::CompServerWeather
    } else if m == Method::Get && path == "/comp/projects".spec_bytes() {
        Route::CompProjects
    } else if m == Method::Get && path == "/comp/messages".spec_bytes() {
        Route::CompMessages
    } else if m == Method::Post && path == "/comp/messages".spec_bytes() {
        Route::CompPostMessage
    } else {
        Route::NotFound
    }
}

/// The route of the page endpoints, matched on the bare path.
pub open spec fn spec_page_route(m: Method, path: Seq<u8>) -> Route {
    if m != Method::Get {
        Route::NotFound
    } else if path == "/".spec_bytes() || path == "/home".spec_bytes() {
        Route::Home
    } else if path == "/guestbook".spec_bytes() {
        Route::Guestbook
    } else if path == "/projects".spec_bytes() {
        Route::Projects
    } else if path == "/interests".spec_bytes() {
        Route::Interests
    } else {
        Route::NotFound
    }
}

/// The route a request is dispatched to: static assets by URL prefix,
/// component endpoints under `/comp`, pages otherwise; the query string
/// never takes part in the match.
pub open spec fn spec_route(m: Method, url: Seq<u8>) -> Route {
    if spec_starts_with(url, "/static".spec_bytes()) {
        Route::StaticAsset
    } else if spec_starts_with(url, "/comp".spec_bytes()) {
        spec_comp_route(m, spec_path_of(url))
    } else {
        spec_page_route(m, spec_path_of(url))
    }
}

fn match_comp(m: Method, path: &[u8]) -> (r: Route)
    ensures
        r == spec_comp_route(m, path@),
{
    let get = matches!(m, Method::Get);
    if get && crate::strutil::bytes_eq(path, "/comp/now-playing".as_bytes()) {
        Route::CompNowPlaying
    } else if get && crate::strutil::bytes_eq(path, "/comp/top-artists".as_bytes()) {
        Route::CompTopArtists
    } else if get && crate::strutil::bytes_eq(path, "/comp/top-tracks".as_bytes()) {
        Route::CompTopTracks
    } else if get && crate::strutil::bytes_eq(path, "/comp/top-albums".as_bytes()) {
        Route::CompTopAlbums
    } else if get && crate::strutil::bytes_eq(path, "/comp/user-stats".as_bytes()) {
        Route::CompUserStats
    } else if get && crate::strutil::bytes_eq(path, "/comp/server-weather".as_bytes()) {
        Route::CompServerWeather
    } else if get && crate::strutil::bytes_eq(path, "/comp/projects".as_bytes()) {
        Route::CompProjects
    } else if get && crate::strutil::bytes_eq(path, "/comp/messages".as_bytes()) {
        Route::CompMessages
    } else if matches!(m, Method::Post) && crate::strutil::bytes_eq(
        path,
        "/comp/messages".as_bytes(),
    ) {
        Route::CompPostMessage
    } else {
        Route::NotFound
    }
}

fn match_page(m: Method, path: &[u8]) -> (r: Route)
    ensures
        r == spec_page_route(m, path@),
{
    if !matches!(m, Method::Get) {
        return Route::NotFound;
    }
    if crate::strutil::bytes_eq(path, "/".as_bytes()) || crate::strutil::bytes_eq(
        path,
        "/home".as_bytes(),
    ) {
        Route::Home
    } else if crate::strutil::bytes_eq(path, "/guestbook".as_bytes()) {
        Route::Guestbook
    } else if crate::strutil::bytes_eq(path, "/projects".as_bytes()) {
        Route::Projects
    } else if crate::strutil::bytes_eq(path, "/interests".as_bytes()) {
        Route::Interests
    } else {
        Route::NotFound
    }
}

/// Dispatches a request's method and URL to its route.
pub fn route_of(m: Method, url: &str) -> (r: Route)
    ensures
        r == spec_route(m, url.spec_bytes()),
{
    let v = url.as_bytes();
    if bytes_starts_with(v, "/static".as_bytes()) {
        return Route::StaticAsset;
    }
    proof {
        crate::identity::lemma_find_byte(v@, 63);
        assert(v@.subrange(0, v@.len() as int) =~= v@);
    }
    let q = crate::identity::find_byte_from(v, 63, 0);
    let path = crate::identity::copy_range(v, 0, q);
    if bytes_starts_with(v, "/comp".as_bytes()) {
        match_comp(m, path.as_slice())
    } else {
        match_page(m, path.as_slice())
    }
}

/// Whether a requested path contains a `..` segment and must be refused.
pub open spec fn spec_has_dotdot(b: Seq<u8>) -> bool {
    exists|i: int| 0 <= i && i + 1 < b.len() && #[trigger] b[i] == 46 && b[i + 1] == 46
}

pub fn has_dotdot(v: &[u8]) -> (r: bool)
    ensures
        r == spec_has_dotdot(v@),
{
    if v.len() < 2 {
        return false;
    }
    let n: usize = v.len();
    let mut i: usize = 0;
    while i < n - 1
        invariant
            0 <= i <= n - 1,
            n == v@.len() >= 2,
            forall|j: int| 0 <= j < i ==> !(#[trigger] v@[j] == 46 && v@[j + 1] == 46),
        decreases n - i,
    {
        if v[i] == 46 && v[i + 1] == 46 {
            assert(spec_has_dotdot(v@));
            return true;
        }
        i += 1;
    }
    false
}

/// The content type served for a static file, by extension.
pub open spec fn spec_content_type(ext: Seq<char>) -> Seq<char> {
    if ext == "css"@ {
        "text/css; charset=utf-8"@
    } else if ext == "js"@ {
        "application/javascript; charset=utf-8"@
    } else if ext == "png"@ {
        "image/png"@
    } else if ext == "gif"@ {
        "image/gif"@
    } else if ext == "svg"@ {
        "image/svg+xml"@
    } else if ext == "jpg"@ || ext == "jpeg"@ {
        "image/jpeg"@
    } else {
        "application/octet-stream"@
    }
}

pub fn content_type_for(ext: &str) -> (r: &'static str)
    ensures
        r@ == spec_content_type(ext@),
{
    if crate::strutil::str_eq(ext, "css") {
        "text/css; charset=utf-8"
    } else if crate::strutil::str_eq(ext, "js") {
        "application/javascript; charset=utf-8"
    } else if crate::strutil::str_eq(ext, "png") {
        "image/png"
    } else if crate::strutil::str_eq(ext, "gif") {
        "image/gif"
    } else if crate::strutil::str_eq(ext, "svg") {
        "image/svg+xml"
    } else if crate::strutil::str_eq(ext, "jpg") || crate::strutil::str_eq(ext, "jpeg") {
        "image/jpeg"
    } else {
        "application/octet-stream"
    }
}

/// ASCII lowercase of a byte.
pub open spec fn to_lower(b: u8) -> u8 {
    if 65 <= b <= 90 {
        (b + 32) as u8
    } else {
        b
    }
}

/// Header-field equality: ASCII case-insensitive, as header names compare.
pub open spec fn spec_eq_ignore_case(a: Seq<u8>, b: Seq<u8>) -> bool {
    a.len() == b.len() && forall|i: int| 0 <= i < a.len() ==> to_lower(a[i]) == to_lower(b[i])
}

pub fn eq_ignore_case(a: &[u8], b: &[u8]) -> (r: bool)
    ensures
        r == spec_eq_ignore_case(a@, b@),
{
    if a.len() != b.len() {
        return false;
    }
    let n: usize = a.len();
    let mut i: usize = 0;
    while i < n
        invariant
            0 <= i <= n,
            n == a@.len() == b@.len(),
            forall|j: int| 0 <= j < i ==> to_lower(a@[j]) == to_lower(b@[j]),
        decreases n - i,
    {
        let ca = if 65 <= a[i] && a[i] <= 90 {
            a[i] + 32
        } else {
            a[i]
        };
        let cb = if 65 <= b[i] && b[i] <= 90 {
            b[i] + 32
        } else {
            b[i]
        };
        if ca != cb {
            return false;
        }
        i += 1;
    }
    true
}

/// Whether some header of the request has the given field name, compared
/// case-insensitively as header names are.
pub open spec fn spec_has_header(headers: Seq<(Seq<char>, Seq<char>)>, name: Seq<u8>) -> bool {
    exists|i: int|
        0 <= i < headers.len() && spec_eq_ignore_case(
            vstd::utf8::encode_utf8((#[trigger] headers[i]).0),
            name,
        )
}

pub fn has_header(headers: &Vec<(String, String)>, name: &str) -> (r: bool)
    ensures
        r == spec_has_header(headers.deep_view(), name.spec_bytes()),
{
    let n: usize = headers.len();
    let mut i: usize = 0;
    while i < n
        invariant
            0 <= i <= n,
            n == headers@.len(),
            forall|j: int|
                0 <= j < i ==> !spec_eq_ignore_case(
                    vstd::utf8::encode_utf8((#[trigger] headers.deep_view()[j]).0),
                    name.spec_bytes(),
                ),
        decreases n - i,
    {
        if eq_ignore_case(headers[i].0.as_str().as_bytes(), name.as_bytes()) {
            proof {
                assert(headers.deep_view()[i as int].0 == headers@[i as int].0@);
            }
            return true;
        }
        proof {
            assert(headers.deep_view()[i as int].0 == headers@[i as int].0@);
        }
        i += 1;
    }
    false
}

/// How the body is rendered: a request from the hypermedia front end gets
/// the fragment alone, any other a full page around it.
pub fn render_mode(is_htmx: bool) -> (r: RenderType)
    ensures
        is_htmx ==> r is Partial,
        !is_htmx ==> r is Full,
{
    if is_htmx {
        RenderType::Partial
    } else {
        RenderType::Full
    }
}

} // verus!
