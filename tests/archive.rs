use grain_link::archive::{
    extract, join_path, name_enclosed_under, name_resolves_everywhere, plan_extraction, read_entries, ArchiveEntry, ArchiveError,
    ExtractAction,
};
use std::io::Write;

fn make_zip(entries: &[(&str, &[u8])]) -> Vec<u8> {
    let mut w = zip::ZipWriter::new(std::io::Cursor::new(Vec::new()));
    for (name, data) in entries {
        if name.ends_with('/') {
            w.add_directory(*name, zip::write::SimpleFileOptions::default()).unwrap();
        } else {
            w.start_file(*name, zip::write::SimpleFileOptions::default()).unwrap();
            w.write_all(data).unwrap();
        }
    }
    w.finish().unwrap().into_inner()
}

fn summary(plan: &[ExtractAction]) -> Vec<(String, bool, Vec<u8>)> {
    plan.iter().map(|a| (a.path.clone(), a.is_dir, a.data.clone())).collect()
}

#[test]
fn confined_archive_writes_every_file() {
    let big: Vec<u8> = (0..5000u32).map(|i| (i % 7) as u8).collect();
    let bytes = make_zip(&[("images/", b""), ("images/a.png", b"PNGDATA"), ("videos/b.mp4", &big)]);
    let plan = extract(bytes, "/data/root").ok().unwrap();
    assert_eq!(
        summary(&plan),
        vec![
            ("/data/root/images/".to_string(), true, vec![]),
            ("/data/root/images/a.png".to_string(), false, b"PNGDATA".to_vec()),
            ("/data/root/videos/b.mp4".to_string(), false, big.clone()),
        ]
    );
}

#[test]
fn traversal_entries_are_skipped_and_rest_continues() {
    let bytes = make_zip(&[
        ("ok1.txt", b"one"),
        ("../evil.txt", b"bad"),
        ("a/../../evil2.txt", b"bad"),
        ("ok2.txt", b"two"),
    ]);
    let plan = extract(bytes, "/dest").ok().unwrap();
    assert_eq!(
        summary(&plan),
        vec![
            ("/dest/ok1.txt".to_string(), false, b"one".to_vec()),
            ("/dest/ok2.txt".to_string(), false, b"two".to_vec()),
        ]
    );
}

#[test]
fn extraction_twice_gives_same_plan() {
    let bytes = make_zip(&[("x/y.bin", b"\x00\x01\x02"), ("z.txt", b"zz")]);
    let a = extract(bytes.clone(), "/d").ok().unwrap();
    let b = extract(bytes, "/d").ok().unwrap();
    assert_eq!(summary(&a), summary(&b));
}

#[test]
fn malformed_archive_is_rejected() {
    match read_entries(b"this is not a zip archive".to_vec()) {
        Err(ArchiveError::Malformed(_)) => {}
        _ => panic!("expected a malformed-archive error"),
    }
    assert!(extract(Vec::new(), "/d").is_err());
}

#[test]
fn read_entries_reports_resolved_names() {
    let bytes = make_zip(&[("a/b.txt", b"hello"), ("../up.txt", b"x")]);
    let es = read_entries(bytes).ok().unwrap();
    assert_eq!(es.len(), 2);
    assert_eq!(es[0].name, "a/b.txt");
    assert_eq!(es[0].enclosed, Some("a/b.txt".to_string()));
    assert_eq!(es[0].data, b"hello".to_vec());
    assert_eq!(es[1].name, "../up.txt");
    assert_eq!(es[1].enclosed, None);
}

#[test]
fn path_guard_cases() {
    assert!(name_resolves_everywhere("a/b/c.txt"));
    assert!(name_resolves_everywhere("a/../b"));
    assert!(name_resolves_everywhere("./a"));
    assert!(name_resolves_everywhere("dir/"));
    assert!(name_resolves_everywhere(""));
    assert!(name_resolves_everywhere("..a/b.."));
    assert!(name_resolves_everywhere("a\\b"));
    assert!(!name_resolves_everywhere("../x"));
    assert!(!name_resolves_everywhere(".."));
    assert!(!name_resolves_everywhere("a/../../x"));
    assert!(!name_resolves_everywhere("/etc/passwd"));
    assert!(!name_resolves_everywhere("a\0b"));
    assert!(!name_resolves_everywhere("..\\x"));
    assert!(!name_resolves_everywhere("\\x"));
    assert!(!name_resolves_everywhere("C:x"));
}

#[test]
fn path_rules_per_target() {
    assert!(name_enclosed_under("..\\x", false));
    assert!(!name_enclosed_under("..\\x", true));
    assert!(name_enclosed_under("a\\b/../..", true));
    assert!(!name_enclosed_under("a\\b/../..", false));
    assert!(name_enclosed_under("a/./b/..", false));
    assert!(name_enclosed_under("a/./b/..", true));
    assert!(!name_enclosed_under("\\share\\x", true));
}

#[test]
fn malformed_archive_plans_nothing() {
    match extract(b"PK\x03\x04 truncated".to_vec(), "/d") {
        Err(ArchiveError::Malformed(_)) => {}
        _ => panic!("expected a malformed-archive error"),
    }
}

#[test]
fn plan_from_entries_skips_unresolved() {
    let es = vec![
        ArchiveEntry { name: "d/".to_string(), enclosed: Some("d/".to_string()), data: b"ignored".to_vec() },
        ArchiveEntry { name: "../bad".to_string(), enclosed: None, data: b"bad".to_vec() },
        ArchiveEntry { name: "d/f".to_string(), enclosed: Some("d/f".to_string()), data: b"f".to_vec() },
    ];
    let plan = plan_extraction("/r/", &es);
    assert_eq!(
        summary(&plan),
        vec![("/r/d/".to_string(), true, vec![]), ("/r/d/f".to_string(), false, b"f".to_vec())]
    );
    assert!(plan_extraction("/r", &Vec::new()).is_empty());
}

#[test]
fn join_path_inserts_one_separator() {
    assert_eq!(join_path("/data", "x"), "/data/x");
    assert_eq!(join_path("/data/", "x"), "/data/x");
    assert_eq!(join_path("", "x"), "x");
}
