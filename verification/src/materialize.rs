//! Turning an image file's bytes into an embeddable data URL.

use vstd::prelude::*;
use vstd::string::*;
use crate::chars::{
    basename_of, ext_of, lower_seq, lower_char, find_last_dot, find_last_sep, str_eq,
    to_lower_ascii, lemma_last_dot_props,
};
use crate::classify::{image_mime_of, lemma_media_exts_ascii};
use crate::encoding::{b64_encode, b64_decode, base64_encode, lemma_b64_round_trip};

verus! {

/// The MIME type the materializer uses for a path: the image-subset MIME
/// of the lowercased extension of the path's final segment, if any.
pub open spec fn path_image_mime(p: Seq<char>) -> Option<Seq<char>> {
    match ext_of(basename_of(p)) {
        Some(e) => image_mime_of(lower_seq(e)),
        None => None,
    }
}

/// The embeddable string for a MIME type and a byte payload.
pub open spec fn data_url(mime: Seq<char>, bytes: Seq<u8>) -> Seq<char> {
    "data:"@ + mime + ";base64,"@ + b64_encode(bytes)
}

/// Law: a materialized string is the MIME tag from the extension table
/// followed by the base64 payload, and decoding that payload reproduces
/// the file's bytes exactly.
pub proof fn lemma_data_url_round_trip(mime: Seq<char>, bytes: Seq<u8>)
    ensures
        data_url(mime, bytes) == "data:"@ + mime + ";base64,"@ + b64_encode(bytes),
        b64_decode(b64_encode(bytes)) == bytes,
{
    lemma_b64_round_trip(bytes);
}

/// A sequence with a character outside ASCII has no image MIME type.
proof fn lemma_non_ascii_no_mime(e: Seq<char>)
    requires
        exists|i: int| 0 <= i < e.len() && (e[i] as u32) >= 128,
    ensures
        image_mime_of(e) is None,
{
    lemma_media_exts_ascii();
    let i = choose|i: int| 0 <= i < e.len() && (e[i] as u32) >= 128;
    assert forall|k: int| 0 <= k < 10 implies crate::classify::media_ext_list()[k] != e by {
        if crate::classify::media_ext_list()[k].len() == e.len() {
            assert(crate::classify::media_ext_list()[k][i] != e[i]);
        }
    }
    assert(crate::classify::media_ext_list()[0] == "jpg"@);
    assert(crate::classify::media_ext_list()[1] == "jpeg"@);
    assert(crate::classify::media_ext_list()[2] == "png"@);
    assert(crate::classify::media_ext_list()[3] == "gif"@);
    assert(crate::classify::media_ext_list()[4] == "bmp"@);
    assert(crate::classify::media_ext_list()[5] == "webp"@);
    assert(crate::classify::media_ext_list()[6] == "tiff"@);
    assert(crate::classify::media_ext_list()[7] == "svg"@);
    assert(crate::classify::media_ext_list()[8] == "avif"@);
    assert(crate::classify::media_ext_list()[9] == "heic"@);
}

/// The MIME type for a lowercased image extension, as `image_mime_of`
/// gives it.
fn image_mime_for(e: &str) -> (r: Option<&'static str>)
    ensures
        match r {
            Some(m) => image_mime_of(e@) == Some(m@),
            None => image_mime_of(e@) is None,
        },
{
    if str_eq(e, "jpg") || str_eq(e, "jpeg") {
        Some("image/jpeg")
    } else if str_eq(e, "png") {
        Some("image/png")
    } else if str_eq(e, "gif") {
        Some("image/gif")
    } else if str_eq(e, "bmp") {
        Some("image/bmp")
    } else if str_eq(e, "webp") {
        Some("image/webp")
    } else if str_eq(e, "tiff") {
        Some("image/tiff")
    } else if str_eq(e, "svg") {
        Some("image/svg+xml")
    } else if str_eq(e, "avif") {
        Some("image/avif")
    } else if str_eq(e, "heic") {
        Some("image/heic")
    } else {
        None
    }
}

/// The final path segment of `p`.
fn basename(p: &str) -> (r: &str)
    ensures
        r@ == basename_of(p@),
{
    match find_last_sep(p) {
        Some(j) => {
            proof {
                crate::chars::lemma_last_sep_props(p@, p@.len() - 1);
            }
            let len = p.unicode_len();
            p.substring_char(j + 1, len)
        },
        None => p,
    }
}

/// Builds the data URL for a file's bytes, when the path's extension is in
/// the image subset: `data:<mime>;base64,<payload>`.  Yields `None`
/// exactly when the extension has no image MIME type — video and audio
/// extensions, anything else outside the image subset, or no extension at
/// all.
pub fn materialize_image(path: &str, bytes: &Vec<u8>) -> (r: Option<String>)
    ensures
        match path_image_mime(path@) {
            Some(m) => r is Some && r->Some_0@ == data_url(m, bytes@),
            None => r is None,
        },
{
    let base = basename(path);
    match find_last_dot(base) {
        None => None,
        Some(j) => {
            proof {
                lemma_last_dot_props(base@, base@.len() - 1);
            }
            let len = base.unicode_len();
            let ext = base.substring_char(j + 1, len);
            assert(ext@ == ext_of(basename_of(path@))->Some_0);
            match to_lower_ascii(ext) {
                None => {
                    proof {
                        let lo = lower_seq(ext@);
                        let i = choose|i: int| 0 <= i < ext@.len() && (ext@[i] as u32) >= 128;
                        assert(lo[i] == lower_char(ext@[i]));
                        assert((lo[i] as u32) >= 128);
                        lemma_non_ascii_no_mime(lo);
                    }
                    None
                },
                Some(lowered) => {
                    match image_mime_for(lowered.as_str()) {
                        None => None,
                        Some(mime) => {
                            let payload = base64_encode(bytes);
                            let mut url = String::from_str("data:");
                            url.append(mime);
                            url.append(";base64,");
                            url.append(payload.as_str());
                            proof {
                                assert(url@ =~= data_url(mime@, bytes@));
                            }
                            Some(url)
                        },
                    }
                },
            }
        },
    }
}

} // verus!
