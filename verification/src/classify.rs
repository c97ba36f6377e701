//! The extension classifier: a fixed allow-list of supported media
//! extensions, and the narrower image subset with its MIME type table.

use vstd::prelude::*;
use crate::chars::{ext_of, lower_seq, lower_char, str_eq, find_last_dot, to_lower_ascii};

verus! {

/// The allow-list of supported media extensions, lowercased: raster and
/// vector images, video, and audio.
pub open spec fn media_ext_list() -> Seq<Seq<char>> {
    seq![
        "jpg"@, "jpeg"@, "png"@, "gif"@, "bmp"@, "webp"@, "tiff"@, "svg"@,
        "avif"@, "heic"@, "mp4"@, "webm"@, "ogg"@, "mov"@, "avi"@, "mkv"@,
        "mp3"@, "wav"@, "flac"@, "aac"@,
    ]
}

/// Membership in the allow-list.
pub open spec fn is_media_ext(e: Seq<char>) -> bool {
    media_ext_list().contains(e)
}

/// Whether a file name is classified as supported media: it has an
/// extension whose lowercased form is in the allow-list.
pub open spec fn name_is_media(name: Seq<char>) -> bool {
    match ext_of(name) {
        Some(e) => is_media_ext(lower_seq(e)),
        None => false,
    }
}

/// The lowercased extension of a classified name (meaningful only when
/// `ext_of` yields one).
pub open spec fn media_file_type(name: Seq<char>) -> Seq<char> {
    lower_seq(ext_of(name)->Some_0)
}

/// The image subset of the allow-list with its MIME type for each entry;
/// extensions outside this subset (video, audio) have no MIME type here.
pub open spec fn image_mime_of(e: Seq<char>) -> Option<Seq<char>> {
    if e == "jpg"@ || e == "jpeg"@ {
        Some("image/jpeg"@)
    } else if e == "png"@ {
        Some("image/png"@)
    } else if e == "gif"@ {
        Some("image/gif"@)
    } else if e == "bmp"@ {
        Some("image/bmp"@)
    } else if e == "webp"@ {
        Some("image/webp"@)
    } else if e == "tiff"@ {
        Some("image/tiff"@)
    } else if e == "svg"@ {
        Some("image/svg+xml"@)
    } else if e == "avif"@ {
        Some("image/avif"@)
    } else if e == "heic"@ {
        Some("image/heic"@)
    } else {
        None
    }
}

/// Every character of every allow-list entry is ASCII.
pub proof fn lemma_media_exts_ascii()
    ensures
        forall|k: int, i: int|
            0 <= k < media_ext_list().len() && 0 <= i < media_ext_list()[k].len()
                ==> (#[trigger] media_ext_list()[k][i] as u32) < 128,
{
    reveal_strlit("jpg");
    reveal_strlit("jpeg");
    reveal_strlit("png");
    reveal_strlit("gif");
    reveal_strlit("bmp");
    reveal_strlit("webp");
    reveal_strlit("tiff");
    reveal_strlit("svg");
    reveal_strlit("avif");
    reveal_strlit("heic");
    reveal_strlit("mp4");
    reveal_strlit("webm");
    reveal_strlit("ogg");
    reveal_strlit("mov");
    reveal_strlit("avi");
    reveal_strlit("mkv");
    reveal_strlit("mp3");
    reveal_strlit("wav");
    reveal_strlit("flac");
    reveal_strlit("aac");
}

/// A sequence with a character outside ASCII equals no allow-list entry.
pub proof fn lemma_non_ascii_not_media(e: Seq<char>)
    requires
        exists|i: int| 0 <= i < e.len() && (e[i] as u32) >= 128,
    ensures
        !is_media_ext(e),
{
    lemma_media_exts_ascii();
    let i = choose|i: int| 0 <= i < e.len() && (e[i] as u32) >= 128;
    assert forall|k: int| 0 <= k < media_ext_list().len() implies media_ext_list()[k] != e by {
        if media_ext_list()[k].len() == e.len() {
            assert(media_ext_list()[k][i] != e[i]);
        }
    }
}

/// The allow-list as executable string slices, in the order of
/// `media_ext_list`.
fn media_ext_table() -> (v: Vec<&'static str>)
    ensures
        v@.len() == media_ext_list().len(),
        forall|k: int| 0 <= k < v@.len() ==> (#[trigger] v@[k]@) == media_ext_list()[k],
{
    let v: Vec<&'static str> = vec![
        "jpg", "jpeg", "png", "gif", "bmp", "webp", "tiff", "svg",
        "avif", "heic", "mp4", "webm", "ogg", "mov", "avi", "mkv",
        "mp3", "wav", "flac", "aac",
    ];
    v
}

/// Decides membership of a lowercased extension in the allow-list.
pub fn is_supported_media(ext: &str) -> (r: bool)
    ensures
        r == is_media_ext(ext@),
{
    let table = media_ext_table();
    let mut k: usize = 0;
    while k < table.len()
        invariant
            k <= table@.len(),
            table@.len() == media_ext_list().len(),
            forall|j: int| 0 <= j < table@.len() ==> (#[trigger] table@[j]@) == media_ext_list()[j],
            forall|j: int| 0 <= j < k ==> media_ext_list()[j] != ext@,
        decreases table@.len() - k,
    {
        if str_eq(ext, table[k]) {
            proof {
                assert(media_ext_list()[k as int] == ext@);
            }
            return true;
        }
        k = k + 1;
    }
    proof {
        assert(!media_ext_list().contains(ext@));
    }
    false
}

/// Classifies a file name: `Some(file_type)` with the lowercased extension
/// exactly when the name passes the allow-list, `None` otherwise.
pub fn classify_name(name: &str) -> (r: Option<String>)
    ensures
        match r {
            Some(t) => name_is_media(name@) && t@ == media_file_type(name@),
            None => !name_is_media(name@),
        },
{
    match find_last_dot(name) {
        None => None,
        Some(j) => {
            let len = name.unicode_len();
            proof {
                crate::chars::lemma_last_dot_props(name@, name@.len() - 1);
            }
            let ext = name.substring_char(j + 1, len);
            assert(ext@ == ext_of(name@)->Some_0);
            match to_lower_ascii(ext) {
                None => {
                    proof {
                        let lo = lower_seq(ext@);
                        let i = choose|i: int| 0 <= i < ext@.len() && (ext@[i] as u32) >= 128;
                        assert(lo[i] == lower_char(ext@[i]));
                        assert((lo[i] as u32) >= 128);
                        lemma_non_ascii_not_media(lo);
                    }
                    None
                },
                Some(lowered) => {
                    if is_supported_media(lowered.as_str()) {
                        Some(lowered)
                    } else {
                        None
                    }
                },
            }
        },
    }
}

} // verus!
