//! Base64 encoding of byte sequences, with a decoding specification and a
//! proof that decoding an encoded sequence gives the original bytes back.

use vstd::prelude::*;
use crate::chars::string_from_ascii;

verus! {

/// The base64 alphabet symbol for a 6-bit value.
pub open spec fn b64_char(v: u8) -> char
    recommends
        v < 64,
{
    if v < 26 {
        (((65 + v) as u8) as char)  // 'A' ..= 'Z'
    } else if v < 52 {
        (((71 + v) as u8) as char)  // 'a' ..= 'z'
    } else if v < 62 {
        (((v - 4) as u8) as char)  // '0' ..= '9'
    } else if v == 62 {
        '+'
    } else {
        '/'
    }
}

/// The 6-bit value of a base64 symbol, or -1 for a character outside the
/// alphabet (including the padding `'='`).
pub open spec fn b64_val(c: char) -> int {
    let u = c as u32;
    if 65 <= u && u <= 90 {
        u - 65
    } else if 97 <= u && u <= 122 {
        u - 71
    } else if 48 <= u && u <= 57 {
        u + 4
    } else if u == 43 {
        62
    } else if u == 47 {
        63
    } else {
        -1
    }
}

/// `b64_val` inverts `b64_char`, and no symbol is the padding character.
pub proof fn lemma_b64_char_val(v: u8)
    requires
        v < 64,
    ensures
        b64_val(b64_char(v)) == v as int,
        b64_char(v) != '=',
{
}

/// The four symbols for a full block of three bytes.
pub open spec fn encode3(b0: u8, b1: u8, b2: u8) -> Seq<char> {
    seq![
        b64_char(b0 >> 2),
        b64_char(((b0 & 3) << 4) | (b1 >> 4)),
        b64_char(((b1 & 15) << 2) | (b2 >> 6)),
        b64_char(b2 & 63),
    ]
}

/// The padded block for a tail of two bytes.
pub open spec fn encode2(b0: u8, b1: u8) -> Seq<char> {
    seq![
        b64_char(b0 >> 2),
        b64_char(((b0 & 3) << 4) | (b1 >> 4)),
        b64_char((b1 & 15) << 2),
        '=',
    ]
}

/// The padded block for a tail of one byte.
pub open spec fn encode1(b0: u8) -> Seq<char> {
    seq![b64_char(b0 >> 2), b64_char((b0 & 3) << 4), '=', '=']
}

/// Base64 encoding: full blocks of three bytes, then one padded block for
/// a one- or two-byte tail.
pub open spec fn b64_encode(s: Seq<u8>) -> Seq<char>
    decreases s.len(),
{
    if s.len() == 0 {
        Seq::empty()
    } else if s.len() == 1 {
        encode1(s[0])
    } else if s.len() == 2 {
        encode2(s[0], s[1])
    } else {
        encode3(s[0], s[1], s[2]) + b64_encode(s.skip(3))
    }
}

/// The bytes of one block of four symbols; padding symbols cut the block
/// short.
pub open spec fn decode4(c0: char, c1: char, c2: char, c3: char) -> Seq<u8> {
    let v0 = b64_val(c0) as u8;
    let v1 = b64_val(c1) as u8;
    let v2 = b64_val(c2) as u8;
    let v3 = b64_val(c3) as u8;
    let y0 = (v0 << 2) | (v1 >> 4);
    let y1 = (v1 << 4) | (v2 >> 2);
    let y2 = (v2 << 6) | v3;
    if c2 == '=' {
        seq![y0]
    } else if c3 == '=' {
        seq![y0, y1]
    } else {
        seq![y0, y1, y2]
    }
}

/// Base64 decoding of a sequence of four-symbol blocks; a tail shorter
/// than a block decodes to nothing.
pub open spec fn b64_decode(cs: Seq<char>) -> Seq<u8>
    decreases cs.len(),
{
    if cs.len() < 4 {
        Seq::empty()
    } else {
        decode4(cs[0], cs[1], cs[2], cs[3]) + b64_decode(cs.skip(4))
    }
}

/// Decoding a one-byte padded block gives the byte back.
proof fn lemma_decode_encode1(b0: u8)
    ensures
        decode4(b64_char(b0 >> 2), b64_char((b0 & 3) << 4), '=', '=') == seq![b0],
{
    let v0 = b0 >> 2;
    let v1 = (b0 & 3) << 4;
    assert(v0 < 64 && v1 < 64) by (bit_vector)
        requires
            v0 == b0 >> 2 && v1 == (b0 & 3) << 4,;
    lemma_b64_char_val(v0);
    lemma_b64_char_val(v1);
    assert(((b0 >> 2) << 2) | ((((b0 & 3) << 4)) >> 4) == b0) by (bit_vector);
    assert(decode4(b64_char(v0), b64_char(v1), '=', '=') =~= seq![b0]);
}

/// Decoding a two-byte padded block gives the bytes back.
proof fn lemma_decode_encode2(b0: u8, b1: u8)
    ensures
        decode4(
            b64_char(b0 >> 2),
            b64_char(((b0 & 3) << 4) | (b1 >> 4)),
            b64_char((b1 & 15) << 2),
            '=',
        ) == seq![b0, b1],
{
    let v0 = b0 >> 2;
    let v1 = ((b0 & 3) << 4) | (b1 >> 4);
    let v2 = (b1 & 15) << 2;
    assert(v0 < 64 && v1 < 64 && v2 < 64) by (bit_vector)
        requires
            v0 == b0 >> 2 && v1 == ((b0 & 3) << 4) | (b1 >> 4) && v2 == (b1 & 15) << 2,;
    lemma_b64_char_val(v0);
    lemma_b64_char_val(v1);
    lemma_b64_char_val(v2);
    assert((v0 << 2) | (v1 >> 4) == b0) by (bit_vector)
        requires
            v0 == b0 >> 2 && v1 == ((b0 & 3) << 4) | (b1 >> 4),;
    assert((v1 << 4) | (v2 >> 2) == b1) by (bit_vector)
        requires
            v1 == ((b0 & 3) << 4) | (b1 >> 4) && v2 == (b1 & 15) << 2,;
    assert(decode4(b64_char(v0), b64_char(v1), b64_char(v2), '=') =~= seq![b0, b1]);
}

/// Decoding a full block gives the three bytes back.
proof fn lemma_decode_encode3(b0: u8, b1: u8, b2: u8)
    ensures
        decode4(
            b64_char(b0 >> 2),
            b64_char(((b0 & 3) << 4) | (b1 >> 4)),
            b64_char(((b1 & 15) << 2) | (b2 >> 6)),
            b64_char(b2 & 63),
        ) == seq![b0, b1, b2],
{
    let v0 = b0 >> 2;
    let v1 = ((b0 & 3) << 4) | (b1 >> 4);
    let v2 = ((b1 & 15) << 2) | (b2 >> 6);
    let v3 = b2 & 63;
    assert(v0 < 64 && v1 < 64 && v2 < 64 && v3 < 64) by (bit_vector)
        requires
            v0 == b0 >> 2 && v1 == ((b0 & 3) << 4) | (b1 >> 4) && v2 == ((b1 & 15) << 2) | (b2
                >> 6) && v3 == b2 & 63,;
    lemma_b64_char_val(v0);
    lemma_b64_char_val(v1);
    lemma_b64_char_val(v2);
    lemma_b64_char_val(v3);
    assert((v0 << 2) | (v1 >> 4) == b0) by (bit_vector)
        requires
            v0 == b0 >> 2 && v1 == ((b0 & 3) << 4) | (b1 >> 4),;
    assert((v1 << 4) | (v2 >> 2) == b1) by (bit_vector)
        requires
            v1 == ((b0 & 3) << 4) | (b1 >> 4) && v2 == ((b1 & 15) << 2) | (b2 >> 6),;
    assert((v2 << 6) | v3 == b2) by (bit_vector)
        requires
            v2 == ((b1 & 15) << 2) | (b2 >> 6) && v3 == b2 & 63,;
    assert(decode4(b64_char(v0), b64_char(v1), b64_char(v2), b64_char(v3)) =~= seq![b0, b1, b2]);
}

/// The encoded symbols of a full block are not padding.
proof fn lemma_encode3_no_pad(b0: u8, b1: u8, b2: u8)
    ensures
        encode3(b0, b1, b2)[2] != '=',
        encode3(b0, b1, b2)[3] != '=',
{
    let v2 = ((b1 & 15) << 2) | (b2 >> 6);
    let v3 = b2 & 63;
    assert(v2 < 64 && v3 < 64) by (bit_vector)
        requires
            v2 == ((b1 & 15) << 2) | (b2 >> 6) && v3 == b2 & 63,;
    lemma_b64_char_val(v2);
    lemma_b64_char_val(v3);
}

/// One full block at the front decodes independently of the rest.
proof fn lemma_b64_round_trip_step(s: Seq<u8>)
    requires
        s.len() >= 3,
        b64_decode(b64_encode(s.skip(3))) == s.skip(3),
    ensures
        b64_decode(b64_encode(s)) == s,
{
    lemma_decode_encode3(s[0], s[1], s[2]);
    lemma_encode3_no_pad(s[0], s[1], s[2]);
    let cs = b64_encode(s);
    let head = encode3(s[0], s[1], s[2]);
    let rest = b64_encode(s.skip(3));
    assert(cs == head + rest);
    assert(cs.len() >= 4);
    assert(cs[0] == head[0] && cs[1] == head[1] && cs[2] == head[2] && cs[3] == head[3]);
    assert(cs[2] != '=' && cs[3] != '=');
    assert(cs.skip(4) =~= rest);
    assert(decode4(cs[0], cs[1], cs[2], cs[3]) == seq![s[0], s[1], s[2]]) by {
        assert(decode4(cs[0], cs[1], cs[2], cs[3]) == decode4(head[0], head[1], head[2], head[3]));
    }
    assert(seq![s[0], s[1], s[2]] + s.skip(3) =~= s);
}

/// Round trip: decoding an encoded byte sequence reproduces it exactly.
pub proof fn lemma_b64_round_trip(s: Seq<u8>)
    ensures
        b64_decode(b64_encode(s)) == s,
    decreases s.len(),
{
    if s.len() == 0 {
        assert(b64_decode(b64_encode(s)) =~= s);
    } else if s.len() == 1 {
        lemma_decode_encode1(s[0]);
        let cs = encode1(s[0]);
        assert(b64_encode(s) == cs);
        assert(cs.len() == 4);
        assert(cs[0] == b64_char(s[0] >> 2) && cs[1] == b64_char((s[0] & 3) << 4) && cs[2] == '='
            && cs[3] == '=');
        assert(cs.skip(4) =~= Seq::<char>::empty());
        assert(b64_decode(cs.skip(4)) =~= Seq::<u8>::empty());
        assert(b64_decode(cs) == decode4(cs[0], cs[1], cs[2], cs[3]) + b64_decode(cs.skip(4)));
        assert(seq![s[0]] + Seq::<u8>::empty() =~= s);
    } else if s.len() == 2 {
        lemma_decode_encode2(s[0], s[1]);
        let cs = encode2(s[0], s[1]);
        assert(b64_encode(s) == cs);
        assert(cs.len() == 4);
        assert(cs[0] == b64_char(s[0] >> 2) && cs[1] == b64_char(((s[0] & 3) << 4) | (s[1] >> 4))
            && cs[2] == b64_char((s[1] & 15) << 2) && cs[3] == '=');
        assert(cs.skip(4) =~= Seq::<char>::empty());
        assert(b64_decode(cs.skip(4)) =~= Seq::<u8>::empty());
        assert(b64_decode(cs) == decode4(cs[0], cs[1], cs[2], cs[3]) + b64_decode(cs.skip(4)));
        assert(seq![s[0], s[1]] + Seq::<u8>::empty() =~= s);
    } else {
        lemma_b64_round_trip(s.skip(3));
        lemma_b64_round_trip_step(s);
    }
}

/// Encoding distributes over concatenation at block boundaries.
pub proof fn lemma_b64_encode_append(a: Seq<u8>, b: Seq<u8>)
    requires
        a.len() % 3 == 0,
    ensures
        b64_encode(a + b) == b64_encode(a) + b64_encode(b),
    decreases a.len(),
{
    if a.len() == 0 {
        assert(a + b =~= b);
        assert(b64_encode(a) + b64_encode(b) =~= b64_encode(b));
    } else {
        assert(a.len() >= 3);
        lemma_b64_encode_append(a.skip(3), b);
        assert((a + b).skip(3) =~= a.skip(3) + b);
        if b.len() == 0 {
            assert(a + b =~= a);
            assert(a.skip(3) + b =~= a.skip(3));
            assert(b64_encode(a) + b64_encode(b) =~= b64_encode(a));
        } else {
            assert((a + b).len() >= 4);
            assert((a + b)[0] == a[0] && (a + b)[1] == a[1] && (a + b)[2] == a[2]);
            if a.len() == 3 {
                assert(a.skip(3) =~= Seq::<u8>::empty());
                assert(a.skip(3) + b =~= b);
                assert(b64_encode(a) =~= encode3(a[0], a[1], a[2]) + b64_encode(a.skip(3)));
            }
            assert(encode3(a[0], a[1], a[2]) + (b64_encode(a.skip(3)) + b64_encode(b)) =~= (encode3(
                a[0],
                a[1],
                a[2],
            ) + b64_encode(a.skip(3))) + b64_encode(b));
        }
    }
}

/// One processed block extends the encoded prefix.
pub proof fn lemma_b64_encode_take_step(s: Seq<u8>, i: int)
    requires
        0 <= i,
        i % 3 == 0,
        i + 3 <= s.len(),
    ensures
        b64_encode(s.take(i + 3)) == b64_encode(s.take(i)) + encode3(s[i], s[i + 1], s[i + 2]),
{
    reveal_with_fuel(b64_encode, 3);
    let blk = seq![s[i], s[i + 1], s[i + 2]];
    assert(s.take(i + 3) =~= s.take(i) + blk);
    lemma_b64_encode_append(s.take(i), blk);
    assert(blk.skip(3) =~= Seq::<u8>::empty());
    assert(encode3(blk[0], blk[1], blk[2]) + Seq::<char>::empty() =~= encode3(
        s[i],
        s[i + 1],
        s[i + 2],
    ));
}

/// The byte of the base64 symbol for a 6-bit value.
fn b64_sym(v: u8) -> (b: u8)
    requires
        v < 64,
    ensures
        (b as char) == b64_char(v),
        b < 128,
{
    if v < 26 {
        65 + v
    } else if v < 52 {
        71 + v
    } else if v < 62 {
        v - 4
    } else if v == 62 {
        43
    } else {
        47
    }
}

/// Base64-encodes a byte sequence into the ASCII codes of its symbols.
#[verifier::loop_isolation(false)]
pub fn base64_encode_bytes(bytes: &Vec<u8>) -> (r: Vec<u8>)
    ensures
        r@.map_values(|b: u8| b as char) == b64_encode(bytes@),
        forall|i: int| 0 <= i < r@.len() ==> r@[i] < 128,
{
    let n = bytes.len();
    let mut r: Vec<u8> = Vec::new();
    let mut i: usize = 0;
    while n - i >= 3
        invariant
            i <= n,
            i % 3 == 0,
            r@.map_values(|b: u8| b as char) == b64_encode(bytes@.take(i as int)),
            forall|j: int| 0 <= j < r@.len() ==> r@[j] < 128,
        decreases n - i,
    {
        let b0 = bytes[i];
        let b1 = bytes[i + 1];
        let b2 = bytes[i + 2];
        let v0 = b0 >> 2;
        let v1 = ((b0 & 3) << 4) | (b1 >> 4);
        let v2 = ((b1 & 15) << 2) | (b2 >> 6);
        let v3 = b2 & 63;
        proof {
            assert(v0 < 64 && v1 < 64 && v2 < 64 && v3 < 64) by (bit_vector)
                requires
                    v0 == b0 >> 2 && v1 == ((b0 & 3) << 4) | (b1 >> 4) && v2 == ((b1 & 15) << 2) | (
                    b2 >> 6) && v3 == b2 & 63,
            ;
        }
        let ghost r0 = r@;
        r.push(b64_sym(v0));
        r.push(b64_sym(v1));
        r.push(b64_sym(v2));
        r.push(b64_sym(v3));
        proof {
            lemma_b64_encode_take_step(bytes@, i as int);
            assert(r@.map_values(|b: u8| b as char) =~= r0.map_values(|b: u8| b as char)
                + encode3(b0, b1, b2));
        }
        i = i + 3;
    }
    if n - i == 1 {
        let b0 = bytes[i];
        let v0 = b0 >> 2;
        let v1 = (b0 & 3) << 4;
        proof {
            assert(v0 < 64 && v1 < 64) by (bit_vector)
                requires
                    v0 == b0 >> 2 && v1 == (b0 & 3) << 4,
            ;
        }
        let ghost r0 = r@;
        r.push(b64_sym(v0));
        r.push(b64_sym(v1));
        r.push(61);
        r.push(61);
        proof {
            let tail = seq![bytes@[i as int]];
            assert(bytes@ =~= bytes@.take(i as int) + tail);
            lemma_b64_encode_append(bytes@.take(i as int), tail);
            assert((61 as u8) as char == '=');
            assert(b64_encode(tail) =~= encode1(b0));
            assert(r@.map_values(|b: u8| b as char) =~= r0.map_values(|b: u8| b as char)
                + encode1(b0));
        }
    } else if n - i == 2 {
        let b0 = bytes[i];
        let b1 = bytes[i + 1];
        let v0 = b0 >> 2;
        let v1 = ((b0 & 3) << 4) | (b1 >> 4);
        let v2 = (b1 & 15) << 2;
        proof {
            assert(v0 < 64 && v1 < 64 && v2 < 64) by (bit_vector)
                requires
                    v0 == b0 >> 2 && v1 == ((b0 & 3) << 4) | (b1 >> 4) && v2 == (b1 & 15) << 2,
            ;
        }
        let ghost r0 = r@;
        r.push(b64_sym(v0));
        r.push(b64_sym(v1));
        r.push(b64_sym(v2));
        r.push(61);
        proof {
            let tail = seq![bytes@[i as int], bytes@[i + 1]];
            assert(bytes@ =~= bytes@.take(i as int) + tail);
            lemma_b64_encode_append(bytes@.take(i as int), tail);
            assert((61 as u8) as char == '=');
            assert(b64_encode(tail) =~= encode2(b0, b1));
            assert(r@.map_values(|b: u8| b as char) =~= r0.map_values(|b: u8| b as char)
                + encode2(b0, b1));
        }
    } else {
        proof {
            assert(bytes@.take(i as int) =~= bytes@);
        }
    }
    r
}

/// Base64-encodes a byte sequence as a string of symbols.
pub fn base64_encode(bytes: &Vec<u8>) -> (r: String)
    ensures
        r@ == b64_encode(bytes@),
{
    let codes = base64_encode_bytes(bytes);
    let s = string_from_ascii(codes);
    proof {
        assert(s@ =~= b64_encode(bytes@));
    }
    s
}

} // verus!
