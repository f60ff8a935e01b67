use grain_link::datauri::{base64_encode, image_data_uri, image_mime_type};

#[test]
fn base64_standard_vectors() {
    let cases: [(&str, &str); 7] = [
        ("", ""),
        ("f", "Zg=="),
        ("fo", "Zm8="),
        ("foo", "Zm9v"),
        ("foob", "Zm9vYg=="),
        ("fooba", "Zm9vYmE="),
        ("foobar", "Zm9vYmFy"),
    ];
    for (input, expected) in cases {
        assert_eq!(base64_encode(&input.as_bytes().to_vec()), expected);
    }
}

#[test]
fn base64_uses_plus_and_slash() {
    assert_eq!(base64_encode(&vec![0xfb, 0xff, 0xbf]), "+/+/");
    assert_eq!(base64_encode(&vec![0, 0, 0]), "AAAA");
}

#[test]
fn image_mime_by_extension() {
    assert_eq!(image_mime_type("a.png"), "image/png");
    assert_eq!(image_mime_type("a.jpg"), "image/jpeg");
    assert_eq!(image_mime_type("a.jpeg"), "image/jpeg");
    assert_eq!(image_mime_type("a.gif"), "image/gif");
    assert_eq!(image_mime_type("a.webp"), "image/webp");
    assert_eq!(image_mime_type("a.bmp"), "application/octet-stream");
    assert_eq!(image_mime_type("png"), "application/octet-stream");
}

#[test]
fn data_uri_of_image() {
    assert_eq!(image_data_uri("/p/x.png", &b"foo".to_vec()), "data:image/png;base64,Zm9v");
    assert_eq!(image_data_uri("x.txt", &Vec::new()), "data:application/octet-stream;base64,");
}
