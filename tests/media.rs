use grain_link::media::{content_type, respond, route, MediaServer, STATUS_NOT_FOUND, STATUS_OK};

#[test]
fn route_accepts_get_under_videos() {
    assert_eq!(route("GET", "/videos/clip.mp4"), Some("clip.mp4".to_string()));
    assert_eq!(route("GET", "/videos/sub/clip.webm"), Some("sub/clip.webm".to_string()));
}

#[test]
fn route_ignores_other_requests() {
    assert_eq!(route("POST", "/videos/clip.mp4"), None);
    assert_eq!(route("GET", "/images/a.png"), None);
    assert_eq!(route("GET", "/videos"), None);
    assert_eq!(route("GET", "/videos/../secret"), None);
    assert_eq!(route("GET", "/videos//etc/passwd"), None);
}

#[test]
fn content_type_by_extension() {
    assert_eq!(content_type("a.mp4"), "video/mp4");
    assert_eq!(content_type("a.webm"), "video/webm");
    assert_eq!(content_type("a.mkv"), "application/octet-stream");
    assert_eq!(content_type("mp4"), "application/octet-stream");
}

#[test]
fn existing_file_is_served() {
    let r = respond("clip.mp4", Some(vec![1, 2, 3]));
    assert_eq!(r.status, 200);
    assert_eq!(r.status, STATUS_OK);
    assert_eq!(r.body, vec![1, 2, 3]);
    assert_eq!(r.content_type, "video/mp4");
    assert!(r.accept_ranges);
}

#[test]
fn missing_file_is_not_found() {
    let r = respond("nope.mp4", None);
    assert_eq!(r.status, 404);
    assert_eq!(r.status, STATUS_NOT_FOUND);
    assert_eq!(r.body, b"Not Found".to_vec());
    assert_eq!(r.content_type, "text/plain");
}

#[test]
fn new_media_dir_applies_to_next_request() {
    let mut s = MediaServer::new();
    assert_eq!(s.media_dir(), "");
    s.set_media_dir("/old");
    assert_eq!(s.file_for("GET", "/videos/a.mp4"), Some("/old/a.mp4".to_string()));
    s.set_media_dir("/new/dir");
    assert_eq!(s.media_dir(), "/new/dir");
    assert_eq!(s.file_for("GET", "/videos/a.mp4"), Some("/new/dir/a.mp4".to_string()));
    assert_eq!(s.file_for("PUT", "/videos/a.mp4"), None);
}
