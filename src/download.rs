//! Downloads of remote media into the application's local data tree.

use vstd::prelude::*;
use crate::archive::{join_path, join_spec};

verus! {

/// The application's directory under the platform's local data directory.
pub open spec fn app_dir_name() -> Seq<char> {
    "com.tti.grain-link"@
}

/// The subdirectory that a media type is stored in.
pub open spec fn media_subdir_spec(media_type: Seq<char>) -> Seq<char> {
    if media_type == "image"@ {
        "images"@
    } else if media_type == "video"@ {
        "videos"@
    } else {
        "media"@
    }
}

/// An HTTP status in the 2xx range.
pub open spec fn is_success_spec(status: u16) -> bool {
    200 <= status <= 299
}

/// A file to write: its path and the bytes it must hold afterwards.
pub struct FileWrite {
    pub path: String,
    pub data: Vec<u8>,
}

/// The download failed with a status outside the 2xx range.
pub struct BadStatus {
    pub status: u16,
}

/// The application's data root under the local data directory `local`.
pub fn app_root(local: &str) -> (r: String)
    ensures
        r@ == join_spec(local@, app_dir_name()),
{
    join_path(local, "com.tti.grain-link")
}

/// The application's log directory under the local data directory `local`.
pub fn log_dir(local: &str) -> (r: String)
    ensures
        r@ == join_spec(join_spec(local@, app_dir_name()), "logs"@),
{
    let root = app_root(local);
    join_path(root.as_str(), "logs")
}

/// `images` for `image`, `videos` for `video`, `media` for anything else.
pub fn media_subdir(media_type: &str) -> (r: &'static str)
    ensures
        r@ == media_subdir_spec(media_type@),
{
    if crate::text::same_text(media_type, "image") {
        "images"
    } else if crate::text::same_text(media_type, "video") {
        "videos"
    } else {
        "media"
    }
}

/// The directory that media of `media_type` is stored in.
pub fn media_dir(local: &str, media_type: &str) -> (r: String)
    ensures
        r@ == join_spec(join_spec(local@, app_dir_name()), media_subdir_spec(media_type@)),
{
    let root = app_root(local);
    join_path(root.as_str(), media_subdir(media_type))
}

/// Whether an HTTP status is a success.
pub fn is_success(status: u16) -> (r: bool)
    ensures
        r == is_success_spec(status),
{
    200 <= status && status <= 299
}

/// What a finished download leads to: on a 2xx status, writing the body to
/// `file_name` in the media type's directory, replacing any file there; on
/// any other status, an error and no write.
pub fn plan_download(local: &str, media_type: &str, file_name: &str, status: u16, body: Vec<u8>) -> (r: Result<
    FileWrite,
    BadStatus,
>)
    ensures
        is_success_spec(status) ==> (r matches Ok(w) && w.data@ == body@ && w.path@ == join_spec(
            join_spec(join_spec(local@, app_dir_name()), media_subdir_spec(media_type@)),
            file_name@,
        )),
        !is_success_spec(status) ==> (r matches Err(e) && e.status == status),
{
    if !is_success(status) {
        return Err(BadStatus { status });
    }
    let dir = media_dir(local, media_type);
    let path = join_path(dir.as_str(), file_name);
    Ok(FileWrite { path, data: body })
}

} // verus!
