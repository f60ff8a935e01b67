//! The local video file server: which requests it answers, which file a
//! request names, and the response built from that file's bytes.

use vstd::prelude::*;
use crate::archive::{join_path, join_spec, name_resolves_everywhere, resolves_everywhere};
use crate::text::{ends_with, has_prefix, has_suffix, same_text, starts_with};

verus! {

pub const STATUS_OK: u16 = 200;

pub const STATUS_NOT_FOUND: u16 = 404;

pub open spec fn get_method() -> Seq<char> {
    seq!['G', 'E', 'T']
}

pub open spec fn videos_prefix() -> Seq<char> {
    seq!['/', 'v', 'i', 'd', 'e', 'o', 's', '/']
}

/// The body of a not-found response: the ASCII text `Not Found`.
pub open spec fn not_found_body() -> Seq<u8> {
    seq![78u8, 111u8, 116u8, 32u8, 70u8, 111u8, 117u8, 110u8, 100u8]
}

/// The file name that a request asks for: the rest of the path after
/// `/videos/`, for a `GET` whose rest stays inside the media directory on
/// every target.
pub open spec fn requested_name(method: Seq<char>, path: Seq<char>) -> Option<Seq<char>> {
    let rest = path.subrange(videos_prefix().len() as int, path.len() as int);
    if method == get_method() && has_prefix(path, videos_prefix()) && resolves_everywhere(rest) {
        Some(rest)
    } else {
        None
    }
}

/// The content type announced for a file, from its extension.
pub open spec fn content_type_spec(name: Seq<char>) -> Seq<char> {
    if has_suffix(name, seq!['.', 'm', 'p', '4']) {
        seq!['v', 'i', 'd', 'e', 'o', '/', 'm', 'p', '4']
    } else if has_suffix(name, seq!['.', 'w', 'e', 'b', 'm']) {
        seq!['v', 'i', 'd', 'e', 'o', '/', 'w', 'e', 'b', 'm']
    } else {
        seq!['a', 'p', 'p', 'l', 'i', 'c', 'a', 't', 'i', 'o', 'n', '/', 'o', 'c', 't', 'e', 't', '-', 's', 't', 'r', 'e', 'a', 'm']
    }
}

/// An HTTP response of the server. `accept_ranges` says whether the
/// `Accept-Ranges: bytes` header is sent; ranges are announced, not served.
pub struct HttpResponse {
    pub status: u16,
    pub content_type: String,
    pub accept_ranges: bool,
    pub body: Vec<u8>,
}

/// The path and method of a request, when it asks for a video file, give
/// back the file name; any other request gives nothing.
pub fn route(method: &str, path: &str) -> (r: Option<String>)
    ensures
        r matches Some(n) ==> requested_name(method@, path@) == Some(n@),
        r is None ==> requested_name(method@, path@) is None,
{
    proof {
        reveal_strlit("GET");
        reveal_strlit("/videos/");
    }
    assert("GET"@ =~= get_method());
    assert("/videos/"@ =~= videos_prefix());
    if !same_text(method, "GET") || !starts_with(path, "/videos/") {
        return None;
    }
    let n = path.unicode_len();
    let rest = path.substring_char(8, n);
    if name_resolves_everywhere(rest) {
        Some(rest.to_string())
    } else {
        None
    }
}

/// The content type for a file name: `video/mp4` for `.mp4`, `video/webm`
/// for `.webm`, `application/octet-stream` for anything else.
pub fn content_type(name: &str) -> (r: &'static str)
    ensures
        r@ == content_type_spec(name@),
{
    proof {
        reveal_strlit(".mp4");
        reveal_strlit(".webm");
        reveal_strlit("video/mp4");
        reveal_strlit("video/webm");
        reveal_strlit("application/octet-stream");
    }
    assert(".mp4"@ =~= seq!['.', 'm', 'p', '4']);
    assert(".webm"@ =~= seq!['.', 'w', 'e', 'b', 'm']);
    if ends_with(name, ".mp4") {
        assert("video/mp4"@ =~= content_type_spec(name@));
        "video/mp4"
    } else if ends_with(name, ".webm") {
        assert("video/webm"@ =~= content_type_spec(name@));
        "video/webm"
    } else {
        assert("application/octet-stream"@ =~= content_type_spec(name@));
        "application/octet-stream"
    }
}

/// The response to a request for `name`, given the file's bytes when it
/// could be read: 200 with those bytes and the extension's content type,
/// or 404 with a plain-text `Not Found`.
pub fn respond(name: &str, contents: Option<Vec<u8>>) -> (r: HttpResponse)
    ensures
        contents matches Some(b) ==> r.status == STATUS_OK && r.body@ == b@
            && r.content_type@ == content_type_spec(name@) && r.accept_ranges,
        contents is None ==> r.status == STATUS_NOT_FOUND && r.body@ == not_found_body()
            && r.content_type@ == seq!['t', 'e', 'x', 't', '/', 'p', 'l', 'a', 'i', 'n'] && !r.accept_ranges,
{
    match contents {
        Some(b) => HttpResponse {
            status: STATUS_OK,
            content_type: content_type(name).to_string(),
            accept_ranges: true,
            body: b,
        },
        None => {
            proof {
                reveal_strlit("text/plain");
            }
            let body: Vec<u8> = vec![78u8, 111u8, 116u8, 32u8, 70u8, 111u8, 117u8, 110u8, 100u8];
            assert(body@ =~= not_found_body());
            let ct = "text/plain".to_string();
            assert(ct@ =~= seq!['t', 'e', 'x', 't', '/', 'p', 'l', 'a', 'i', 'n']);
            HttpResponse { status: STATUS_NOT_FOUND, content_type: ct, accept_ranges: false, body }
        },
    }
}

/// The directory that video files are served from. It starts empty; each
/// change applies to every request resolved after it.
pub struct MediaServer {
    dir: String,
}

impl MediaServer {
    pub closed spec fn view(&self) -> Seq<char> {
        self.dir@
    }

    /// A server with no media directory set yet.
    pub fn new() -> (r: MediaServer)
        ensures
            r@ == Seq::<char>::empty(),
    {
        MediaServer { dir: String::new() }
    }

    /// Replaces the media directory.
    pub fn set_media_dir(&mut self, dir: &str)
        ensures
            final(self)@ == dir@,
    {
        self.dir = dir.to_string();
    }

    /// The current media directory.
    pub fn media_dir(&self) -> (r: String)
        ensures
            r@ == self@,
    {
        self.dir.clone()
    }

    /// The file that a request asks for, inside the current media directory.
    pub fn file_for(&self, method: &str, path: &str) -> (r: Option<String>)
        ensures
            r matches Some(p) ==> requested_name(method@, path@) matches Some(n) && p@ == join_spec(self@, n),
            r is None ==> requested_name(method@, path@) is None,
    {
        match route(method, path) {
            Some(n) => Some(join_path(self.dir.as_str(), n.as_str())),
            None => None,
        }
    }
}

/// A `GET` of `/videos/<name>`, for a name that stays inside the media
/// directory, asks for exactly that name, and the file it reads is `name`
/// joined onto whatever media directory `dir` is current when the request
/// is resolved, whatever directory was set before it.
pub proof fn lemma_request_reads_current_dir(dir: Seq<char>, name: Seq<char>)
    requires
        resolves_everywhere(name),
    ensures
        requested_name(get_method(), videos_prefix() + name) == Some(name),
        join_spec(dir, name) == join_spec(dir, requested_name(get_method(), videos_prefix() + name)->0),
{
    let path = videos_prefix() + name;
    assert(path.subrange(0, videos_prefix().len() as int) =~= videos_prefix());
    assert(path.subrange(videos_prefix().len() as int, path.len() as int) =~= name);
}

} // verus!
