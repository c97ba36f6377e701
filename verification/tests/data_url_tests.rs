use base64::engine::general_purpose::STANDARD;
use base64::Engine;
use media_walker::encoding::base64_encode;
use media_walker::materialize::materialize_image;

#[test]
fn encoder_matches_reference_base64() {
    let cases: Vec<Vec<u8>> = vec![
        vec![],
        vec![0],
        vec![255],
        vec![0, 0],
        vec![1, 2],
        vec![1, 2, 3],
        vec![250, 236, 32, 85, 0],
        (0u8..=255).collect(),
        b"hello base64 world".to_vec(),
    ];
    for bytes in cases {
        assert_eq!(base64_encode(&bytes), STANDARD.encode(&bytes));
    }
}

#[test]
fn materialize_builds_tagged_data_url() {
    let bytes: Vec<u8> = vec![137, 80, 78, 71, 13, 10, 26, 10];
    let url = materialize_image("/pics/img.png", &bytes).unwrap();
    assert_eq!(url, format!("data:image/png;base64,{}", STANDARD.encode(&bytes)));
}

#[test]
fn materialize_round_trips_payload() {
    let bytes: Vec<u8> = (0u8..100).collect();
    let url = materialize_image("/shots/Photo.JPEG", &bytes).unwrap();
    let prefix = "data:image/jpeg;base64,";
    assert!(url.starts_with(prefix));
    let payload = &url[prefix.len()..];
    assert_eq!(STANDARD.decode(payload).unwrap(), bytes);
}

#[test]
fn materialize_uses_the_mime_table() {
    let bytes: Vec<u8> = vec![1, 2, 3];
    let cases = vec![
        ("a.jpg", "image/jpeg"),
        ("a.jpeg", "image/jpeg"),
        ("a.png", "image/png"),
        ("a.gif", "image/gif"),
        ("a.bmp", "image/bmp"),
        ("a.webp", "image/webp"),
        ("a.tiff", "image/tiff"),
        ("a.svg", "image/svg+xml"),
        ("a.avif", "image/avif"),
        ("a.heic", "image/heic"),
    ];
    for (path, mime) in cases {
        let url = materialize_image(path, &bytes).unwrap();
        assert!(url.starts_with(&format!("data:{};base64,", mime)));
    }
}

#[test]
fn materialize_rejects_non_image_extensions() {
    let bytes: Vec<u8> = vec![1, 2, 3];
    assert!(materialize_image("/videos/clip.mp4", &bytes).is_none());
    assert!(materialize_image("/audio/song.mp3", &bytes).is_none());
    assert!(materialize_image("/docs/notes.txt", &bytes).is_none());
    assert!(materialize_image("/none/README", &bytes).is_none());
    assert!(materialize_image("/odd/.png", &bytes).is_none());
}

#[test]
fn materialize_looks_only_at_the_final_segment() {
    let bytes: Vec<u8> = vec![9];
    assert!(materialize_image("/a.jpg/readme", &bytes).is_none());
    let url = materialize_image("C:\\shots\\pic.GIF", &bytes).unwrap();
    assert!(url.starts_with("data:image/gif;base64,"));
}

#[test]
fn materialize_of_empty_file_has_empty_payload() {
    let bytes: Vec<u8> = vec![];
    let url = materialize_image("x.webp", &bytes).unwrap();
    assert_eq!(url, "data:image/webp;base64,");
}
