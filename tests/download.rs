use grain_link::download::{app_root, is_success, log_dir, media_dir, media_subdir, plan_download};

#[test]
fn subdirectory_by_media_type() {
    assert_eq!(media_subdir("image"), "images");
    assert_eq!(media_subdir("video"), "videos");
    assert_eq!(media_subdir("audio"), "media");
    assert_eq!(media_subdir(""), "media");
}

#[test]
fn layout_under_local_data() {
    assert_eq!(app_root("/home/u/.local/share"), "/home/u/.local/share/com.tti.grain-link");
    assert_eq!(log_dir("/l"), "/l/com.tti.grain-link/logs");
    assert_eq!(media_dir("/l", "video"), "/l/com.tti.grain-link/videos");
}

#[test]
fn successful_image_download_goes_under_images() {
    let w = plan_download("/l", "image", "cat.png", 200, vec![9, 8, 7]).ok().unwrap();
    assert_eq!(w.path, "/l/com.tti.grain-link/images/cat.png");
    assert_eq!(w.data, vec![9, 8, 7]);
}

#[test]
fn bad_status_gives_error_and_no_write() {
    let e = plan_download("/l", "image", "cat.png", 404, vec![1]).err().unwrap();
    assert_eq!(e.status, 404);
    assert!(plan_download("/l", "video", "v.mp4", 300, vec![]).is_err());
    assert!(plan_download("/l", "video", "v.mp4", 199, vec![]).is_err());
    assert!(plan_download("/l", "video", "v.mp4", 299, vec![]).is_ok());
}

#[test]
fn success_range() {
    assert!(is_success(200));
    assert!(is_success(204));
    assert!(is_success(299));
    assert!(!is_success(199));
    assert!(!is_success(300));
    assert!(!is_success(500));
}
