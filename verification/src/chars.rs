//! Character-level helpers: string equality, extension splitting, and
//! ASCII lowercasing, each against an exact sequence-level specification.

use vstd::prelude::*;

verus! {

/// ASCII uppercase letters map to their lowercase form; every other
/// character is kept as it is.
pub open spec fn lower_char(c: char) -> char {
    if 65 <= c as u32 && c as u32 <= 90 {
        ((c as u32 + 32) as char)
    } else {
        c
    }
}

/// Character-wise ASCII lowercasing of a character sequence.
pub open spec fn lower_seq(s: Seq<char>) -> Seq<char> {
    s.map_values(|c: char| lower_char(c))
}

/// The position of the last `'.'` in `s` at an index in `1 ..= i`, if any.
/// A dot at index 0 never counts: a name that is all extension has none.
pub open spec fn last_dot_at_or_before(s: Seq<char>, i: int) -> Option<int>
    decreases i + 1,
{
    if i < 1 || i >= s.len() {
        None
    } else if s[i] == '.' {
        Some(i)
    } else {
        last_dot_at_or_before(s, i - 1)
    }
}

/// A found dot index is in range and is the last dot: no dot follows it.
pub proof fn lemma_last_dot_props(s: Seq<char>, i: int)
    requires
        i < s.len(),
    ensures
        match last_dot_at_or_before(s, i) {
            Some(j) => 1 <= j <= i && j < s.len() && s[j] == '.' && forall|k: int|
                j < k <= i && k < s.len() ==> s[k] != '.',
            None => forall|k: int| 1 <= k <= i && k < s.len() ==> s[k] != '.',
        },
    decreases i + 1,
{
    if i < 1 || i >= s.len() {
    } else if s[i] == '.' {
    } else {
        lemma_last_dot_props(s, i - 1);
    }
}

/// The extension of a file name: the characters after the last dot, where
/// that dot is neither the first character nor absent.  `"photo.JPG"` gives
/// `Some("JPG")`, `"archive.tar.gz"` gives `Some("gz")`, `"notes"` and
/// `".hidden"` give `None`.
pub open spec fn ext_of(name: Seq<char>) -> Option<Seq<char>> {
    match last_dot_at_or_before(name, name.len() - 1) {
        Some(j) => Some(name.subrange(j + 1, name.len() as int)),
        None => None,
    }
}

/// The position of the last path separator (`'/'` or `'\\'`) in `s`, if any.
pub open spec fn last_sep_at_or_before(s: Seq<char>, i: int) -> Option<int>
    decreases i + 1,
{
    if i < 0 || i >= s.len() {
        None
    } else if s[i] == '/' || s[i] == '\\' {
        Some(i)
    } else {
        last_sep_at_or_before(s, i - 1)
    }
}

/// A found separator index is in range and is the last one.
pub proof fn lemma_last_sep_props(s: Seq<char>, i: int)
    requires
        i < s.len(),
    ensures
        match last_sep_at_or_before(s, i) {
            Some(j) => 0 <= j <= i && j < s.len() && (s[j] == '/' || s[j] == '\\') && forall|k: int|
                j < k <= i && k < s.len() ==> s[k] != '/' && s[k] != '\\',
            None => forall|k: int| 0 <= k <= i && k < s.len() ==> s[k] != '/' && s[k] != '\\',
        },
    decreases i + 1,
{
    if i < 0 {
    } else if s[i] == '/' || s[i] == '\\' {
    } else {
        lemma_last_sep_props(s, i - 1);
    }
}

/// The final path segment of `p`: everything after the last separator.
pub open spec fn basename_of(p: Seq<char>) -> Seq<char> {
    match last_sep_at_or_before(p, p.len() - 1) {
        Some(j) => p.subrange(j + 1, p.len() as int),
        None => p,
    }
}

/// Character-for-character string equality, decided without any trusted
/// comparison: both views are walked in lockstep.
pub fn str_eq(a: &str, b: &str) -> (r: bool)
    ensures
        r == (a@ == b@),
{
    let alen = a.unicode_len();
    let blen = b.unicode_len();
    if alen != blen {
        assert(a@ != b@) by {
            assert(a@.len() != b@.len());
        }
        return false;
    }
    let mut i: usize = 0;
    while i < alen
        invariant
            alen == a@.len(),
            alen == b@.len(),
            i <= alen,
            forall|j: int| 0 <= j < i ==> a@[j] == b@[j],
        decreases alen - i,
    {
        if a.get_char(i) != b.get_char(i) {
            return false;
        }
        i = i + 1;
    }
    proof {
        assert(a@ =~= b@);
    }
    true
}

/// The index of the last dot of `name`, skipping a dot in first position,
/// as `last_dot_at_or_before` describes.
pub fn find_last_dot(name: &str) -> (r: Option<usize>)
    ensures
        match r {
            Some(j) => last_dot_at_or_before(name@, name@.len() - 1) == Some(j as int),
            None => last_dot_at_or_before(name@, name@.len() - 1) is None,
        },
{
    let len = name.unicode_len();
    if len < 2 {
        return None;
    }
    let mut i: usize = len - 1;
    loop
        invariant
            1 <= i < len,
            len == name@.len(),
            last_dot_at_or_before(name@, len - 1) == last_dot_at_or_before(name@, i as int),
        decreases i,
    {
        if name.get_char(i) == '.' {
            return Some(i);
        }
        if i == 1 {
            return None;
        }
        i = i - 1;
    }
}

/// The index of the last path separator of `p`, as `last_sep_at_or_before`
/// describes.
pub fn find_last_sep(p: &str) -> (r: Option<usize>)
    ensures
        match r {
            Some(j) => last_sep_at_or_before(p@, p@.len() - 1) == Some(j as int),
            None => last_sep_at_or_before(p@, p@.len() - 1) is None,
        },
{
    let len = p.unicode_len();
    if len == 0 {
        return None;
    }
    let mut i: usize = len - 1;
    loop
        invariant
            0 <= i < len,
            len == p@.len(),
            last_sep_at_or_before(p@, len - 1) == last_sep_at_or_before(p@, i as int),
        decreases i,
    {
        let c = p.get_char(i);
        if c == '/' || c == '\\' {
            return Some(i);
        }
        if i == 0 {
            return None;
        }
        i = i - 1;
    }
}

/// Relies on `String::from_utf8`: a vector of bytes below 128 is valid
/// UTF-8, and the resulting string holds exactly those bytes, one
/// character per byte.
#[verifier::external_body]
pub fn string_from_ascii(bytes: Vec<u8>) -> (r: String)
    requires
        forall|i: int| 0 <= i < bytes@.len() ==> bytes@[i] < 128,
    ensures
        r@.len() == bytes@.len(),
        forall|i: int| 0 <= i < bytes@.len() ==> r@[i] == (bytes@[i] as char),
{
    match String::from_utf8(bytes) {
        Ok(s) => s,
        Err(_) => String::new(),
    }
}

/// ASCII lowercasing of a string.  Yields `None` exactly when some
/// character is outside ASCII; such a string can never equal an entry of
/// the extension allow-list, whose characters are all ASCII.
pub fn to_lower_ascii(s: &str) -> (r: Option<String>)
    ensures
        match r {
            Some(t) => t@ == lower_seq(s@) && forall|i: int|
                0 <= i < s@.len() ==> (s@[i] as u32) < 128,
            None => exists|i: int| 0 <= i < s@.len() && (s@[i] as u32) >= 128,
        },
{
    let len = s.unicode_len();
    let mut bytes: Vec<u8> = Vec::new();
    let mut i: usize = 0;
    while i < len
        invariant
            i <= len,
            len == s@.len(),
            bytes@.len() == i as int,
            forall|j: int| 0 <= j < i ==> bytes@[j] < 128,
            forall|j: int| 0 <= j < i ==> (s@[j] as u32) < 128,
            forall|j: int| 0 <= j < i ==> (bytes@[j] as char) == lower_char(s@[j]),
        decreases len - i,
    {
        let c = s.get_char(i);
        let u = c as u32;
        if u >= 128 {
            return None;
        }
        let b: u8 = if 65 <= u && u <= 90 {
            (u + 32) as u8
        } else {
            u as u8
        };
        proof {
            assert((b as char) == lower_char(s@[i as int]));
        }
        bytes.push(b);
        i = i + 1;
    }
    let out = string_from_ascii(bytes);
    proof {
        assert(out@ =~= lower_seq(s@));
    }
    Some(out)
}

} // verus!
