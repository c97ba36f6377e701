use media_walker::classify::{classify_name, is_supported_media};
use media_walker::drives::{drive_letter_roots, universal_root};

#[test]
fn allow_list_membership() {
    for ext in [
        "jpg", "jpeg", "png", "gif", "bmp", "webp", "tiff", "svg", "avif", "heic", "mp4", "webm",
        "ogg", "mov", "avi", "mkv", "mp3", "wav", "flac", "aac",
    ] {
        assert!(is_supported_media(ext), "{ext} should be supported");
    }
    for ext in ["txt", "doc", "exe", "", "jpg ", "jp", "tif", "JPG"] {
        assert!(!is_supported_media(ext), "{ext} should not be supported");
    }
}

#[test]
fn classification_lowercases_the_extension() {
    assert_eq!(classify_name("photo.JPG").unwrap(), "jpg");
    assert_eq!(classify_name("CLIP.MkV").unwrap(), "mkv");
    assert_eq!(classify_name("song.aac").unwrap(), "aac");
}

#[test]
fn classification_rejects_outside_the_allow_list() {
    assert!(classify_name("notes.txt").is_none());
    assert!(classify_name("README").is_none());
    assert!(classify_name(".bashrc").is_none());
    assert!(classify_name("dotted.").is_none());
    assert!(classify_name("archive.tar.gz").is_none());
}

#[test]
fn drive_roots_follow_the_probe() {
    let mut present = vec![false; 26];
    present[0] = true;
    present[2] = true;
    present[25] = true;
    let roots = drive_letter_roots(&present);
    assert_eq!(roots, vec!["A:\\", "C:\\", "Z:\\"]);

    let none = drive_letter_roots(&vec![false; 26]);
    assert!(none.is_empty());
}

#[test]
fn universal_root_is_single_slash() {
    assert_eq!(universal_root(), vec!["/"]);
}
