use vstd::prelude::*;
use vstd::utf8::{decode_utf8, valid_utf8};

use crate::store::text_from_bytes;
use crate::text::{chars_of, lemma_split_on_concat, lemma_split_on_single, split_on, substring};

verus! {

/// The method of an HTTP request.
#[derive(Debug, PartialEq, Eq)]
pub enum Method {
    Get,
    Head,
    Post,
    Put,
    Delete,
    Connect,
    Options,
    Trace,
    Patch,
    Other(String),
}

/// Why a request cannot be served.
#[derive(Debug, PartialEq, Eq)]
pub enum ErrorCode {
    /// No route matches the request.
    DestinationNotFound,
    /// The store or the encoding of its answer failed.
    InternalError(Option<String>),
}

/// What routing reads of a request: its method, its path and its body, if
/// the body is text.
pub struct RoutePath {
    pub method: Method,
    pub path: String,
    pub body: Option<String>,
}

/// The operations of the API.
#[derive(Debug, PartialEq, Eq)]
pub enum Routes {
    GetLyrics,
    GetLyric(String),
    PutLyric(String, String),
    PostLyric(String),
    DeleteLyric(String),
    GetPlaylists,
    GetPlaylist(String),
    PutPlaylist(String, String),
    PostPlaylist(String),
    DeletePlaylist(String),
}

/// What a route asks of the store; the bodies are the JSON texts of the
/// record to store.
#[derive(Debug, PartialEq, Eq)]
pub enum StoreCall {
    GetLyrics,
    GetLyric(String),
    UpsertLyric(String),
    DeleteLyric(String),
    GetPlaylists,
    GetPlaylist(String),
    UpsertPlaylist(String),
    DeletePlaylist(String),
}

/// A route as plain values.
pub enum RouteView {
    GetLyrics,
    GetLyric(Seq<char>),
    PutLyric(Seq<char>, Seq<char>),
    PostLyric(Seq<char>),
    DeleteLyric(Seq<char>),
    GetPlaylists,
    GetPlaylist(Seq<char>),
    PutPlaylist(Seq<char>, Seq<char>),
    PostPlaylist(Seq<char>),
    DeletePlaylist(Seq<char>),
}

impl View for Routes {
    type V = RouteView;

    open spec fn view(&self) -> RouteView {
        match self {
            Routes::GetLyrics => RouteView::GetLyrics,
            Routes::GetLyric(id) => RouteView::GetLyric(id@),
            Routes::PutLyric(id, body) => RouteView::PutLyric(id@, body@),
            Routes::PostLyric(body) => RouteView::PostLyric(body@),
            Routes::DeleteLyric(id) => RouteView::DeleteLyric(id@),
            Routes::GetPlaylists => RouteView::GetPlaylists,
            Routes::GetPlaylist(id) => RouteView::GetPlaylist(id@),
            Routes::PutPlaylist(id, body) => RouteView::PutPlaylist(id@, body@),
            Routes::PostPlaylist(body) => RouteView::PostPlaylist(body@),
            Routes::DeletePlaylist(id) => RouteView::DeletePlaylist(id@),
        }
    }
}

/// The prefix of every path of the API.
pub open spec fn api_prefix() -> Seq<char> {
    seq!['a', 'p', 'i', '/', 'v', '1', '/']
}

/// The prefix of the lyric routes, after the API prefix.
pub open spec fn lyric_prefix() -> Seq<char> {
    seq!['l', 'y', 'r', 'i', 'c']
}

/// The prefix of the playlist routes, after the API prefix.
pub open spec fn playlist_prefix() -> Seq<char> {
    seq!['p', 'l', 'a', 'y', 'l', 'i', 's', 't']
}

/// The second `/`-separated segment of `rest`, if there is one.
pub open spec fn second_segment(rest: Seq<char>) -> Option<Seq<char>> {
    if split_on(rest, '/').len() > 1 {
        Some(split_on(rest, '/')[1])
    } else {
        None
    }
}

/// The body as text; no body is the empty text.
pub open spec fn body_text(body: Option<String>) -> Seq<char> {
    match body {
        Some(b) => b@,
        None => Seq::<char>::empty(),
    }
}

/// The route of a request: the path must start with `api/v1/`; what
/// follows starts with `lyric` or `playlist`; the second `/`-separated
/// segment of it, when there is one and it is not empty, is the id. `None`
/// when no route matches.
pub open spec fn route_of(method: Method, path: Seq<char>, body: Seq<char>) -> Option<RouteView> {
    if !api_prefix().is_prefix_of(path) {
        None
    } else {
        let rest = path.skip(7);
        if lyric_prefix().is_prefix_of(rest) {
            match second_segment(rest) {
                Some(id) if id.len() > 0 => match method {
                    Method::Get => Some(RouteView::GetLyric(id)),
                    Method::Put => Some(RouteView::PutLyric(id, body)),
                    Method::Delete => Some(RouteView::DeleteLyric(id)),
                    _ => None,
                },
                _ => match method {
                    Method::Post => Some(RouteView::PostLyric(body)),
                    Method::Get => Some(RouteView::GetLyrics),
                    _ => None,
                },
            }
        } else if playlist_prefix().is_prefix_of(rest) {
            match second_segment(rest) {
                Some(id) => if id.len() == 0 {
                    match method {
                        Method::Post => Some(RouteView::PostPlaylist(body)),
                        Method::Get => Some(RouteView::GetPlaylists),
                        _ => None,
                    }
                } else {
                    match method {
                        Method::Get => Some(RouteView::GetPlaylist(id)),
                        Method::Put => Some(RouteView::PutPlaylist(id, body)),
                        Method::Delete => Some(RouteView::DeletePlaylist(id)),
                        _ => None,
                    }
                },
                None => Some(RouteView::GetPlaylists),
            }
        } else {
            None
        }
    }
}

/// Whether `v[from..]` starts with `prefix`.
fn has_prefix_at(v: &Vec<char>, from: usize, prefix: &Vec<char>) -> (b: bool)
    requires
        from <= v.len(),
    ensures
        b == prefix@.is_prefix_of(v@.skip(from as int)),
{
    if prefix.len() > v.len() - from {
        return false;
    }
    let mut k: usize = 0;
    while k < prefix.len()
        invariant
            from + prefix.len() <= v.len(),
            k <= prefix.len(),
            forall|j: int| 0 <= j < k ==> prefix@[j] == v@[from + j],
        decreases prefix.len() - k,
    {
        if prefix[k] != v[from + k] {
            assert(v@.skip(from as int)[k as int] == v@[from + k]);
            return false;
        }
        k = k + 1;
    }
    assert(prefix@ =~= v@.skip(from as int).take(prefix.len() as int));
    true
}

/// The first position at or after `from` where `v` holds `c`.
fn find_char(v: &Vec<char>, c: char, from: usize) -> (r: Option<usize>)
    requires
        from <= v.len(),
    ensures
        match r {
            Some(k) => from <= k < v.len() && v@[k as int] == c && forall|j: int|
                from <= j < k ==> v@[j] != c,
            None => forall|j: int| from <= j < v.len() ==> v@[j] != c,
        },
{
    let mut k = from;
    while k < v.len()
        invariant
            from <= k <= v.len(),
            forall|j: int| from <= j < k ==> v@[j] != c,
        decreases v.len() - k,
    {
        if v[k] == c {
            return Some(k);
        }
        k = k + 1;
    }
    None
}

/// The first piece of splitting `s` at `sep`, where `sep` is found first at
/// `k` (or not at all, when `k == s.len()`).
proof fn lemma_first_piece(s: Seq<char>, sep: char, k: int)
    requires
        0 <= k <= s.len(),
        k < s.len() ==> s[k] == sep,
        forall|j: int| 0 <= j < k ==> s[j] != sep,
    ensures
        split_on(s, sep)[0] == s.take(k),
        k == s.len() ==> split_on(s, sep).len() == 1,
        k < s.len() ==> split_on(s, sep) == seq![s.take(k)] + split_on(s.skip(k + 1), sep),
{
    assert(!s.take(k).contains(sep)) by {
        if s.take(k).contains(sep) {
            let j = choose|j: int| 0 <= j < k && #[trigger] s.take(k)[j] == sep;
            assert(s[j] == sep);
        }
    }
    lemma_split_on_single(s.take(k), sep);
    if k == s.len() {
        assert(s.take(k) =~= s);
    } else {
        assert(s =~= s.take(k) + seq![sep] + s.skip(k + 1));
        lemma_split_on_concat(s.take(k), s.skip(k + 1), sep);
    }
}

/// The second segment of `v[from..]`, with `None` when there is no `/`.
fn second_segment_of(path: &str, v: &Vec<char>, from: usize) -> (r: Option<String>)
    requires
        v@ == path@,
        from <= v.len(),
    ensures
        match r {
            Some(id) => second_segment(v@.skip(from as int)) == Some(id@),
            None => second_segment(v@.skip(from as int)) is None,
        },
{
    let ghost rest = v@.skip(from as int);
    match find_char(v, '/', from) {
        None => {
            proof {
                lemma_first_piece(rest, '/', rest.len() as int);
            }
            None
        },
        Some(j) => {
            let end = match find_char(v, '/', j + 1) {
                Some(k) => k,
                None => v.len(),
            };
            proof {
                let a = j - from;
                lemma_first_piece(rest, '/', a);
                let b = rest.skip(a + 1);
                assert(b =~= v@.skip(j + 1));
                lemma_first_piece(b, '/', end - (j + 1));
                assert(b.take(end - (j + 1)) =~= v@.subrange(j + 1, end as int));
            }
            Some(substring(path, j + 1, end))
        },
    }
}

impl RoutePath {
    /// What routing reads of a request whose body has the bytes `body`: the
    /// body counts as text when it is valid UTF-8, and as absent otherwise.
    pub fn new(method: Method, path: String, body: Vec<u8>) -> (r: RoutePath)
        ensures
            r.method == method,
            r.path == path,
            r.body is Some <==> valid_utf8(body@),
            r.body matches Some(b) ==> b@ == decode_utf8(body@),
    {
        let text = match text_from_bytes(body) {
            Ok(t) => Some(t),
            Err(_) => None,
        };
        RoutePath { method, path, body: text }
    }
}

impl Routes {
    /// The route of a request, as `route_of` describes it;
    /// [`ErrorCode::DestinationNotFound`] when none matches.
    pub fn try_from(route_path: RoutePath) -> (r: Result<Routes, ErrorCode>)
        ensures
            match r {
                Ok(route) => route_of(route_path.method, route_path.path@, body_text(route_path.body))
                    == Some(route@),
                Err(e) => route_of(route_path.method, route_path.path@, body_text(route_path.body))
                    is None && e == ErrorCode::DestinationNotFound,
            },
    {
        let RoutePath { method, path, body } = route_path;
        let body_value = match body {
            Some(b) => b,
            None => String::new(),
        };
        let v = chars_of(path.as_str());
        let api = chars_of("api/v1/");
        let lyric = chars_of("lyric");
        let playlist = chars_of("playlist");
        proof {
            reveal_strlit("api/v1/");
            reveal_strlit("lyric");
            reveal_strlit("playlist");
            assert(api@ =~= api_prefix());
            assert(lyric@ =~= lyric_prefix());
            assert(playlist@ =~= playlist_prefix());
            assert(v@.skip(0) =~= v@);
        }
        if !has_prefix_at(&v, 0, &api) {
            return Err(ErrorCode::DestinationNotFound);
        }
        if has_prefix_at(&v, 7, &lyric) {
            match second_segment_of(path.as_str(), &v, 7) {
                Some(id) if !id.as_str().is_empty() => match method {
                    Method::Get => Ok(Routes::GetLyric(id)),
                    Method::Put => Ok(Routes::PutLyric(id, body_value)),
                    Method::Delete => Ok(Routes::DeleteLyric(id)),
                    _ => Err(ErrorCode::DestinationNotFound),
                },
                _ => match method {
                    Method::Post => Ok(Routes::PostLyric(body_value)),
                    Method::Get => Ok(Routes::GetLyrics),
                    _ => Err(ErrorCode::DestinationNotFound),
                },
            }
        } else if has_prefix_at(&v, 7, &playlist) {
            match second_segment_of(path.as_str(), &v, 7) {
                Some(id) => if id.as_str().is_empty() {
                    match method {
                        Method::Post => Ok(Routes::PostPlaylist(body_value)),
                        Method::Get => Ok(Routes::GetPlaylists),
                        _ => Err(ErrorCode::DestinationNotFound),
                    }
                } else {
                    match method {
                        Method::Get => Ok(Routes::GetPlaylist(id)),
                        Method::Put => Ok(Routes::PutPlaylist(id, body_value)),
                        Method::Delete => Ok(Routes::DeletePlaylist(id)),
                        _ => Err(ErrorCode::DestinationNotFound),
                    }
                },
                None => Ok(Routes::GetPlaylists),
            }
        } else {
            Err(ErrorCode::DestinationNotFound)
        }
    }
}

impl Routes {
    /// The store call that serves the route: putting and posting both store
    /// the record of the body (the id of a put is the record's own).
    pub fn into_store_call(self) -> (r: StoreCall)
        ensures
            match self {
                Routes::GetLyrics => r == StoreCall::GetLyrics,
                Routes::GetLyric(id) => r == StoreCall::GetLyric(id),
                Routes::PutLyric(_, body) => r == StoreCall::UpsertLyric(body),
                Routes::PostLyric(body) => r == StoreCall::UpsertLyric(body),
                Routes::DeleteLyric(id) => r == StoreCall::DeleteLyric(id),
                Routes::GetPlaylists => r == StoreCall::GetPlaylists,
                Routes::GetPlaylist(id) => r == StoreCall::GetPlaylist(id),
                Routes::PutPlaylist(_, body) => r == StoreCall::UpsertPlaylist(body),
                Routes::PostPlaylist(body) => r == StoreCall::UpsertPlaylist(body),
                Routes::DeletePlaylist(id) => r == StoreCall::DeletePlaylist(id),
            },
    {
        match self {
            Routes::GetLyrics => StoreCall::GetLyrics,
            Routes::GetLyric(id) => StoreCall::GetLyric(id),
            Routes::PutLyric(_, body) => StoreCall::UpsertLyric(body),
            Routes::PostLyric(body) => StoreCall::UpsertLyric(body),
            Routes::DeleteLyric(id) => StoreCall::DeleteLyric(id),
            Routes::GetPlaylists => StoreCall::GetPlaylists,
            Routes::GetPlaylist(id) => StoreCall::GetPlaylist(id),
            Routes::PutPlaylist(_, body) => StoreCall::UpsertPlaylist(body),
            Routes::PostPlaylist(body) => StoreCall::UpsertPlaylist(body),
            Routes::DeletePlaylist(id) => StoreCall::DeletePlaylist(id),
        }
    }
}

/// Turns a failure (of reading a request body, or of the store) into
/// [`ErrorCode::InternalError`] with its message; a value stays.
pub fn answer<T>(result: Result<T, String>) -> (r: Result<T, ErrorCode>)
    ensures
        match result {
            Ok(v) => r matches Ok(w) && w == v,
            Err(m) => r matches Err(ErrorCode::InternalError(Some(n))) && n == m,
        },
{
    match result {
        Ok(v) => Ok(v),
        Err(m) => Err(ErrorCode::InternalError(Some(m))),
    }
}

/// The id of a routed lyric or playlist request is the path segment after
/// the collection name exactly as the request wrote it, character for
/// character: for a non-empty id without `/`, `GET`, `PUT` and `DELETE` on
/// `api/v1/lyric/<id>` and `api/v1/playlist/<id>` name that very id, and a
/// `PUT` carries the body unchanged.
pub proof fn law_route_keeps_id(id: Seq<char>, body: Seq<char>)
    requires
        id.len() > 0,
        !id.contains('/'),
    ensures
        route_of(Method::Get, api_prefix() + lyric_prefix() + seq!['/'] + id, body)
            == Some(RouteView::GetLyric(id)),
        route_of(Method::Put, api_prefix() + lyric_prefix() + seq!['/'] + id, body)
            == Some(RouteView::PutLyric(id, body)),
        route_of(Method::Delete, api_prefix() + lyric_prefix() + seq!['/'] + id, body)
            == Some(RouteView::DeleteLyric(id)),
        route_of(Method::Get, api_prefix() + playlist_prefix() + seq!['/'] + id, body)
            == Some(RouteView::GetPlaylist(id)),
        route_of(Method::Put, api_prefix() + playlist_prefix() + seq!['/'] + id, body)
            == Some(RouteView::PutPlaylist(id, body)),
        route_of(Method::Delete, api_prefix() + playlist_prefix() + seq!['/'] + id, body)
            == Some(RouteView::DeletePlaylist(id)),
{
    lemma_segment_after(lyric_prefix(), id);
    lemma_segment_after(playlist_prefix(), id);
    let lp = api_prefix() + lyric_prefix() + seq!['/'] + id;
    let pp = api_prefix() + playlist_prefix() + seq!['/'] + id;
    assert(lp.take(7) =~= api_prefix());
    assert(pp.take(7) =~= api_prefix());
    assert(lp.skip(7) =~= lyric_prefix() + seq!['/'] + id);
    assert(pp.skip(7) =~= playlist_prefix() + seq!['/'] + id);
    assert(lyric_prefix().is_prefix_of(lp.skip(7))) by {
        assert(lp.skip(7).take(5) =~= lyric_prefix());
    }
    assert(playlist_prefix().is_prefix_of(pp.skip(7))) by {
        assert(pp.skip(7).take(8) =~= playlist_prefix());
    }
    assert(!lyric_prefix().is_prefix_of(pp.skip(7))) by {
        assert(pp.skip(7)[0] == 'p');
    }
}

/// Splitting `name + "/" + id` at `/`, for a `name` and an `id` without `/`,
/// gives the two pieces `name` and `id`.
proof fn lemma_segment_after(name: Seq<char>, id: Seq<char>)
    requires
        !name.contains('/'),
        !id.contains('/'),
    ensures
        split_on(name + seq!['/'] + id, '/') == seq![name, id],
        second_segment(name + seq!['/'] + id) == Some(id),
{
    lemma_split_on_concat(name, id, '/');
    lemma_split_on_single(name, '/');
    lemma_split_on_single(id, '/');
    assert(seq![name] + seq![id] =~= seq![name, id]);
}

/// The collection routes: `api/v1/lyric` and `api/v1/lyric/` list the
/// lyrics on `GET` and add the body as a lyric on `POST`;
/// `api/v1/playlist/` lists the playlists on `GET` and adds the body as a
/// playlist on `POST`; `api/v1/playlist` lists the playlists whatever the
/// method; a path outside `api/v1/` has no route.
pub proof fn law_route_collections(method: Method, path: Seq<char>, body: Seq<char>)
    ensures
        route_of(Method::Get, api_prefix() + lyric_prefix(), body) == Some(RouteView::GetLyrics),
        route_of(Method::Post, api_prefix() + lyric_prefix(), body) == Some(
            RouteView::PostLyric(body),
        ),
        route_of(Method::Get, api_prefix() + lyric_prefix() + seq!['/'], body) == Some(
            RouteView::GetLyrics,
        ),
        route_of(Method::Post, api_prefix() + lyric_prefix() + seq!['/'], body) == Some(
            RouteView::PostLyric(body),
        ),
        route_of(method, api_prefix() + playlist_prefix(), body) == Some(RouteView::GetPlaylists),
        route_of(Method::Get, api_prefix() + playlist_prefix() + seq!['/'], body) == Some(
            RouteView::GetPlaylists,
        ),
        route_of(Method::Post, api_prefix() + playlist_prefix() + seq!['/'], body) == Some(
            RouteView::PostPlaylist(body),
        ),
        !api_prefix().is_prefix_of(path) ==> route_of(method, path, body) is None,
{
    let empty = Seq::<char>::empty();
    lemma_split_on_single(lyric_prefix(), '/');
    lemma_split_on_single(playlist_prefix(), '/');
    lemma_segment_after(lyric_prefix(), empty);
    lemma_segment_after(playlist_prefix(), empty);
    assert(lyric_prefix() + seq!['/'] + empty =~= lyric_prefix() + seq!['/']);
    assert(playlist_prefix() + seq!['/'] + empty =~= playlist_prefix() + seq!['/']);
    let l0 = api_prefix() + lyric_prefix();
    let l1 = api_prefix() + lyric_prefix() + seq!['/'];
    let p0 = api_prefix() + playlist_prefix();
    let p1 = api_prefix() + playlist_prefix() + seq!['/'];
    assert(l0.take(7) =~= api_prefix());
    assert(l1.take(7) =~= api_prefix());
    assert(p0.take(7) =~= api_prefix());
    assert(p1.take(7) =~= api_prefix());
    assert(l0.skip(7) =~= lyric_prefix());
    assert(l1.skip(7) =~= lyric_prefix() + seq!['/']);
    assert(p0.skip(7) =~= playlist_prefix());
    assert(p1.skip(7) =~= playlist_prefix() + seq!['/']);
    assert(lyric_prefix().is_prefix_of(l0.skip(7))) by {
        assert(l0.skip(7).take(5) =~= lyric_prefix());
    }
    assert(lyric_prefix().is_prefix_of(l1.skip(7))) by {
        assert(l1.skip(7).take(5) =~= lyric_prefix());
    }
    assert(playlist_prefix().is_prefix_of(p0.skip(7))) by {
        assert(p0.skip(7).take(8) =~= playlist_prefix());
    }
    assert(playlist_prefix().is_prefix_of(p1.skip(7))) by {
        assert(p1.skip(7).take(8) =~= playlist_prefix());
    }
    assert(!lyric_prefix().is_prefix_of(p0.skip(7))) by {
        assert(p0.skip(7)[0] == 'p');
    }
    assert(!lyric_prefix().is_prefix_of(p1.skip(7))) by {
        assert(p1.skip(7)[0] == 'p');
    }
}

} // verus!
