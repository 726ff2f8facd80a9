use vstd::prelude::*;
use crate::error::Error;
use crate::wire;

verus! {

use vstd::utf8::*;


// ---------------------------------------------------------------------------
// What the three wire text encodings mean.
//
// Unit width 1 carries UTF-8 (described by vstd::utf8), unit width 2 carries
// UCS-2LE and unit width 4 carries UCS-4LE. UCS-2 and UCS-4 are fixed-width:
// every code unit is one scalar value, little-endian, and surrogate values
// are not scalars, so they make the payload invalid.
// ---------------------------------------------------------------------------
/// The bytes of an ASCII-only character sequence, one byte per character.
pub open spec fn ascii_bytes(s: Seq<char>) -> Seq<u8> {
    Seq::new(s.len(), |i: int| s[i] as u8)
}

/// The UCS-4LE bytes of a character sequence: each character's scalar value
/// as four little-endian bytes.
pub open spec fn ucs4le_bytes(s: Seq<char>) -> Seq<u8>
    decreases s.len(),
{
    if s.len() == 0 {
        Seq::empty()
    } else {
        wire::le32(s[0] as u32) + ucs4le_bytes(s.drop_first())
    }
}

/// The i-th UCS-2LE code unit of a byte sequence.
pub open spec fn ucs2_unit(b: Seq<u8>, i: int) -> u32
    recommends
        0 <= i,
        2 * i + 2 <= b.len(),
{
    (b[2 * i] as u32) | ((b[2 * i + 1] as u32) << 8)
}

/// True when the bytes are a valid UCS-2LE payload: an even number of bytes,
/// none of whose code units is a surrogate.
pub open spec fn valid_ucs2(b: Seq<u8>) -> bool {
    b.len() % 2 == 0 && (forall|i: int|
        0 <= i < b.len() / 2 ==> !(0xD800 <= #[trigger] ucs2_unit(b, i) <= 0xDFFF))
}

/// The characters of a valid UCS-2LE payload.
pub open spec fn ucs2_chars(b: Seq<u8>) -> Seq<char>
    recommends
        valid_ucs2(b),
{
    Seq::new((b.len() / 2) as nat, |i: int| ucs2_unit(b, i) as char)
}

/// The i-th UCS-4LE code unit of a byte sequence.
pub open spec fn ucs4_unit(b: Seq<u8>, i: int) -> u32
    recommends
        0 <= i,
        4 * i + 4 <= b.len(),
{
    wire::le32_val(b[4 * i], b[4 * i + 1], b[4 * i + 2], b[4 * i + 3])
}

/// True when the bytes are a valid UCS-4LE payload: a multiple of four bytes,
/// every code unit of which is a Unicode scalar value.
pub open spec fn valid_ucs4(b: Seq<u8>) -> bool {
    b.len() % 4 == 0 && (forall|i: int|
        0 <= i < b.len() / 4 ==> is_scalar(#[trigger] ucs4_unit(b, i)))
}

/// The characters of a valid UCS-4LE payload.
pub open spec fn ucs4_chars(b: Seq<u8>) -> Seq<char>
    recommends
        valid_ucs4(b),
{
    Seq::new((b.len() / 4) as nat, |i: int| ucs4_unit(b, i) as char)
}

// ---------------------------------------------------------------------------
// Facts about the encodings.
// ---------------------------------------------------------------------------
/// Appending one character appends its four UCS-4LE bytes.
pub proof fn lemma_ucs4le_push(s: Seq<char>, c: char)
    ensures
        ucs4le_bytes(s.push(c)) == ucs4le_bytes(s) + wire::le32(c as u32),
    decreases s.len(),
{
    if s.len() == 0 {
        assert(s.push(c)[0] == c);
        assert(s.push(c).drop_first() =~= Seq::<char>::empty());
        assert(ucs4le_bytes(Seq::<char>::empty()) =~= Seq::<u8>::empty());
        assert(ucs4le_bytes(s.push(c)) =~= ucs4le_bytes(s) + wire::le32(c as u32));
    } else {
        assert(s.push(c).drop_first() =~= s.drop_first().push(c));
        lemma_ucs4le_push(s.drop_first(), c);
        assert(s.push(c)[0] == s[0]);
        assert(ucs4le_bytes(s.push(c)) =~= ucs4le_bytes(s) + wire::le32(c as u32));
    }
}

/// A UCS-4LE payload is four bytes per character.
pub proof fn lemma_ucs4le_len(s: Seq<char>)
    ensures
        ucs4le_bytes(s).len() == 4 * s.len(),
    decreases s.len(),
{
    if s.len() > 0 {
        lemma_ucs4le_len(s.drop_first());
    }
}

/// Encoding characters as UCS-4LE and reading the payload back yields the
/// original characters.
pub proof fn lemma_ucs4le_roundtrip(s: Seq<char>)
    ensures
        valid_ucs4(ucs4le_bytes(s)),
        ucs4_chars(ucs4le_bytes(s)) == s,
    decreases s.len(),
{
    lemma_ucs4le_len(s);
    let b = ucs4le_bytes(s);
    if s.len() == 0 {
        assert(ucs4_chars(b) =~= s);
    } else {
        let tail = ucs4le_bytes(s.drop_first());
        lemma_ucs4le_len(s.drop_first());
        lemma_ucs4le_roundtrip(s.drop_first());
        wire::lemma_le32_val(s[0] as u32);
        assert forall|i: int| 0 <= i < b.len() / 4 implies vstd::utf8::is_scalar(
            #[trigger] ucs4_unit(b, i),
        ) by {
            if i == 0 {
                assert(ucs4_unit(b, 0) == s[0] as u32);
                vstd::utf8::char_is_scalar(s[0]);
            } else {
                assert(b[4 * i] == tail[4 * (i - 1)]);
                assert(b[4 * i + 1] == tail[4 * (i - 1) + 1]);
                assert(b[4 * i + 2] == tail[4 * (i - 1) + 2]);
                assert(b[4 * i + 3] == tail[4 * (i - 1) + 3]);
                assert(ucs4_unit(b, i) == ucs4_unit(tail, i - 1));
                assert(vstd::utf8::is_scalar(ucs4_unit(tail, i - 1)));
            }
        }
        assert forall|i: int| 0 <= i < s.len() implies #[trigger] ucs4_chars(b)[i] == s[i] by {
            if i == 0 {
                assert(ucs4_unit(b, 0) == s[0] as u32);
                vstd::utf8::char_u32_cast(s[0], s[0] as u32);
            } else {
                assert(b[4 * i] == tail[4 * (i - 1)]);
                assert(b[4 * i + 1] == tail[4 * (i - 1) + 1]);
                assert(b[4 * i + 2] == tail[4 * (i - 1) + 2]);
                assert(b[4 * i + 3] == tail[4 * (i - 1) + 3]);
                assert(ucs4_unit(b, i) == ucs4_unit(tail, i - 1));
                assert(ucs4_chars(tail)[i - 1] == s.drop_first()[i - 1]);
            }
        }
        assert(ucs4_chars(b) =~= s);
    }
}

// ---------------------------------------------------------------------------
// The executable conversion service.
// ---------------------------------------------------------------------------
/// Relies on core's char::from_u32: it returns the character of any Unicode
/// scalar value (a code point neither in the surrogate range nor above
/// 0x10FFFF), and None exactly on the rest.
pub assume_specification[ char::from_u32 ](i: u32) -> (r: Option<char>)
    ensures
        r is Some <==> is_scalar(i),
        (r matches Some(c) ==> c as u32 == i),
;

/// Upper bounds of the code points each UTF-8 width can carry.
proof fn lemma_codepoint_bounds(b0: u8, b1: u8, b2: u8, b3: u8)
    by (bit_vector)
    ensures
        ((b0 & 0x7F) as u32) <= 0x7F,
        ((((b0 & 0x1F) as u32) << 6) | ((b1 & 0x3F) as u32)) <= 0x7FF,
        ((((b0 & 0x0F) as u32) << 12) | (((b1 & 0x3F) as u32) << 6) | ((b2 & 0x3F) as u32))
            <= 0xFFFF,
        ((((b0 & 0x07) as u32) << 18) | (((b1 & 0x3F) as u32) << 12) | (((b2 & 0x3F) as u32) << 6)
            | ((b3 & 0x3F) as u32)) <= 0x1FFFFF,
{
}

/// One decoding step: when the bytes from position `i` on begin with a
/// well-formed scalar encoding of length `k` and code point `cp`, a valid
/// prefix of length `i` extends to one of length `i + k`, and its decoding
/// gains exactly that scalar's character.
proof fn lemma_utf8_step(bytes: Seq<u8>, i: int, k: int, cp: u32)
    requires
        partial_valid_utf8(bytes, i),
        0 <= i,
        1 <= k <= 4,
        i + k <= bytes.len(),
        valid_first_scalar(bytes.subrange(i, bytes.len() as int)),
        length_of_first_scalar(bytes.subrange(i, bytes.len() as int)) == k,
        decode_first_scalar(bytes.subrange(i, bytes.len() as int)) == cp,
    ensures
        partial_valid_utf8(bytes, i + k),
        is_scalar(cp),
        decode_utf8(bytes.subrange(0, i + k)) == decode_utf8(bytes.subrange(0, i)) + seq![
            cp as char,
        ],
{
    let rem = bytes.subrange(i, bytes.len() as int);
    partial_valid_utf8_extend(bytes, i);
    assert(partial_valid_utf8(bytes, i + k));
    let p = bytes.subrange(0, i + k);
    assert(valid_utf8(p));
    assert(p[i] == rem[0]);
    assert(!is_continuation_byte(rem[0]));
    is_char_boundary_iff_not_is_continuation_byte(p, i);
    assert(is_char_boundary(p, i));
    valid_utf8_split(p, i);
    decode_utf8_split(p, i);
    let s1 = p.subrange(i, p.len() as int);
    assert(p.subrange(0, i) =~= bytes.subrange(0, i));
    assert(valid_utf8(s1));
    assert(s1.len() == k);
    assert(forall|j: int| 0 <= j < k ==> s1[j] == rem[j]);
    lemma_codepoint_bounds(rem[0], if k >= 2 { rem[1] } else { 0 }, if k >= 3 { rem[2] } else { 0 },
        if k >= 4 { rem[3] } else { 0 });
    if is_leading_byte_width_1(rem[0]) {
        assert(k == 1);
        assert(decode_first_codepoint(s1) == codepoint_width_1(s1[0]));
        assert(decode_first_scalar(s1) == cp);
        assert(length_of_first_scalar(s1) == 1);
        assert(has_width_1_encoding(cp));
    } else if is_leading_byte_width_2(rem[0]) {
        assert(k == 2);
        assert(decode_first_codepoint(s1) == codepoint_width_2(s1[0], s1[1]));
        assert(decode_first_scalar(s1) == cp);
        assert(length_of_first_scalar(s1) == 2);
        assert(cp <= 0x7FF);
        assert(has_width_2_encoding(cp));
    } else if is_leading_byte_width_3(rem[0]) {
        assert(k == 3);
        assert(decode_first_codepoint(s1) == codepoint_width_3(s1[0], s1[1], s1[2]));
        assert(decode_first_scalar(s1) == cp);
        assert(length_of_first_scalar(s1) == 3);
        assert(cp <= 0xFFFF);
        assert(has_width_3_encoding(cp));
    } else {
        assert(is_leading_byte_width_4(rem[0]));
        assert(k == 4);
        assert(decode_first_codepoint(s1) == codepoint_width_4(s1[0], s1[1], s1[2], s1[3]));
        assert(decode_first_scalar(s1) == cp);
        assert(length_of_first_scalar(s1) == 4);
        assert(has_width_4_encoding(cp));
    }
    assert(is_scalar(cp));
    assert(pop_first_scalar(s1) =~= Seq::<u8>::empty());
    assert(valid_utf8(Seq::<u8>::empty()));
    assert(decode_utf8(Seq::<u8>::empty()) =~= Seq::<char>::empty());
    assert(decode_utf8(s1) =~= seq![cp as char]);
    assert(decode_utf8(p) =~= decode_utf8(bytes.subrange(0, i)) + seq![cp as char]);
}

/// When the bytes from position `i` on do not begin with a well-formed
/// scalar encoding, the whole sequence is not valid UTF-8.
proof fn lemma_utf8_fail(bytes: Seq<u8>, i: int)
    requires
        partial_valid_utf8(bytes, i),
        0 <= i < bytes.len(),
        !valid_first_scalar(bytes.subrange(i, bytes.len() as int)),
    ensures
        !valid_utf8(bytes),
{
    let rem = bytes.subrange(i, bytes.len() as int);
    assert(rem.len() > 0);
    assert(!valid_utf8(rem));
    partial_valid_partial_invalid_utf8(bytes, i);
}

/// The encoding context: the conversion service between the host's text and
/// the wire's encodings. The conversions are implemented and verified here,
/// so the context itself carries no state.
pub struct TextCodec {}

impl TextCodec {
    /// Makes a conversion service.
    pub fn new() -> (c: TextCodec) {
        TextCodec {  }
    }

    /// Encodes characters as UCS-4LE.
    pub fn ucs4_encode(&self, s: &Vec<char>) -> (out: Vec<u8>)
        ensures
            out@ == ucs4le_bytes(s@),
    {
        let mut out: Vec<u8> = Vec::new();
        let mut i: usize = 0;
        while i < s.len()
            invariant
                0 <= i <= s@.len(),
                out@ == ucs4le_bytes(s@.take(i as int)),
            decreases s@.len() - i,
        {
            let u: u32 = s[i] as u32;
            proof {
                lemma_ucs4le_push(s@.take(i as int), s@[i as int]);
                assert(s@.take(i as int).push(s@[i as int]) =~= s@.take(i as int + 1));
            }
            out.push((u & 0xFF) as u8);
            out.push(((u >> 8) & 0xFF) as u8);
            out.push(((u >> 16) & 0xFF) as u8);
            out.push(((u >> 24) & 0xFF) as u8);
            proof {
                assert(out@ =~= ucs4le_bytes(s@.take(i as int)) + wire::le32(u));
            }
            i = i + 1;
        }
        proof {
            assert(s@.take(s@.len() as int) =~= s@);
        }
        out
    }

    /// Decodes a UTF-8 payload, as unit width 1 strings carry it.
    pub fn utf8_decode(&self, b: &Vec<u8>) -> (r: Result<Vec<char>, Error>)
        ensures
            match r {
                Ok(s) => valid_utf8(b@) && s@ == decode_utf8(b@),
                Err(e) => e == Error::TranscodingFailure && !valid_utf8(b@),
            },
    {
        let n: usize = b.len();
        let mut out: Vec<char> = Vec::new();
        let mut i: usize = 0;
        while i < n
            invariant
                n == b@.len(),
                0 <= i <= n,
                partial_valid_utf8(b@, i as int),
                out@ == decode_utf8(b@.subrange(0, i as int)),
            decreases n - i,
        {
            let ghost rem = b@.subrange(i as int, n as int);
            assert(forall|j: int| 0 <= j < rem.len() ==> rem[j] == b@[i + j]);
            let b0: u8 = b[i];
            if b0 < 0x80 {
                let cp: u32 = b0 as u32;
                proof {
                    assert(is_leading_byte_width_1(rem[0]));
                    assert(b0 & 0x7F == b0) by (bit_vector)
                        requires
                            b0 < 0x80,
                    ;
                    assert(valid_first_scalar(rem));
                    assert(decode_first_scalar(rem) == cp);
                    assert(length_of_first_scalar(rem) == 1);
                    lemma_utf8_step(b@, i as int, 1, cp);
                }
                out.push(b0 as char);
                proof {
                    assert(out@ == decode_utf8(b@.subrange(0, i as int + 1)));
                }
                i = i + 1;
            } else if 0xC0 <= b0 && b0 <= 0xDF {
                if n - i < 2 || !(0x80 <= b[i + 1] && b[i + 1] <= 0xBF) {
                    proof {
                        assert(!valid_first_scalar(rem));
                        lemma_utf8_fail(b@, i as int);
                    }
                    return Err(Error::TranscodingFailure);
                }
                let b1: u8 = b[i + 1];
                let cp: u32 = (((b0 & 0x1F) as u32) << 6) | ((b1 & 0x3F) as u32);
                proof {
                    assert(rem[0] == b0 && rem[1] == b1);
                    lemma_codepoint_bounds(b0, b1, 0, 0);
                    assert(decode_first_codepoint(rem) == cp);
                    assert(length_of_first_codepoint(rem) == 2);
                }
                if cp < 0x80 {
                    proof {
                        assert(!not_overlong_encoding(cp, 2));
                        assert(!valid_first_scalar(rem));
                        lemma_utf8_fail(b@, i as int);
                    }
                    return Err(Error::TranscodingFailure);
                }
                proof {
                    assert(valid_first_scalar(rem));
                    assert(decode_first_scalar(rem) == cp);
                    assert(length_of_first_scalar(rem) == 2);
                    lemma_utf8_step(b@, i as int, 2, cp);
                }
                match char::from_u32(cp) {
                    Option::Some(c) => {
                        proof {
                            char_u32_cast(c, cp);
                        }
                        out.push(c);
                    },
                    Option::None => {
                        proof {
                            assert(false);
                        }
                        return Err(Error::TranscodingFailure);
                    },
                }
                i = i + 2;
            } else if 0xE0 <= b0 && b0 <= 0xEF {
                if n - i < 3 || !(0x80 <= b[i + 1] && b[i + 1] <= 0xBF) || !(0x80 <= b[i + 2]
                    && b[i + 2] <= 0xBF) {
                    proof {
                        assert(!valid_first_scalar(rem));
                        lemma_utf8_fail(b@, i as int);
                    }
                    return Err(Error::TranscodingFailure);
                }
                let b1: u8 = b[i + 1];
                let b2: u8 = b[i + 2];
                let cp: u32 = (((b0 & 0x0F) as u32) << 12) | (((b1 & 0x3F) as u32) << 6) | ((b2
                    & 0x3F) as u32);
                proof {
                    assert(rem[0] == b0 && rem[1] == b1 && rem[2] == b2);
                    lemma_codepoint_bounds(b0, b1, b2, 0);
                    assert(decode_first_codepoint(rem) == cp);
                    assert(length_of_first_codepoint(rem) == 3);
                }
                if cp < 0x800 || (0xD800 <= cp && cp <= 0xDFFF) {
                    proof {
                        assert(!valid_first_scalar(rem));
                        lemma_utf8_fail(b@, i as int);
                    }
                    return Err(Error::TranscodingFailure);
                }
                proof {
                    assert(valid_first_scalar(rem));
                    assert(decode_first_scalar(rem) == cp);
                    assert(length_of_first_scalar(rem) == 3);
                    lemma_utf8_step(b@, i as int, 3, cp);
                }
                match char::from_u32(cp) {
                    Option::Some(c) => {
                        proof {
                            char_u32_cast(c, cp);
                        }
                        out.push(c);
                    },
                    Option::None => {
                        proof {
                            assert(false);
                        }
                        return Err(Error::TranscodingFailure);
                    },
                }
                i = i + 3;
            } else if 0xF0 <= b0 && b0 <= 0xF7 {
                if n - i < 4 || !(0x80 <= b[i + 1] && b[i + 1] <= 0xBF) || !(0x80 <= b[i + 2]
                    && b[i + 2] <= 0xBF) || !(0x80 <= b[i + 3] && b[i + 3] <= 0xBF) {
                    proof {
                        assert(!valid_first_scalar(rem));
                        lemma_utf8_fail(b@, i as int);
                    }
                    return Err(Error::TranscodingFailure);
                }
                let b1: u8 = b[i + 1];
                let b2: u8 = b[i + 2];
                let b3: u8 = b[i + 3];
                let cp: u32 = (((b0 & 0x07) as u32) << 18) | (((b1 & 0x3F) as u32) << 12) | (((b2
                    & 0x3F) as u32) << 6) | ((b3 & 0x3F) as u32);
                proof {
                    assert(rem[0] == b0 && rem[1] == b1 && rem[2] == b2 && rem[3] == b3);
                    lemma_codepoint_bounds(b0, b1, b2, b3);
                    assert(decode_first_codepoint(rem) == cp);
                    assert(length_of_first_codepoint(rem) == 4);
                }
                if cp < 0x10000 || cp > 0x10FFFF {
                    proof {
                        assert(!not_overlong_encoding(cp, 4));
                        assert(!valid_first_scalar(rem));
                        lemma_utf8_fail(b@, i as int);
                    }
                    return Err(Error::TranscodingFailure);
                }
                proof {
                    assert(valid_first_scalar(rem));
                    assert(decode_first_scalar(rem) == cp);
                    assert(length_of_first_scalar(rem) == 4);
                    lemma_utf8_step(b@, i as int, 4, cp);
                }
                match char::from_u32(cp) {
                    Option::Some(c) => {
                        proof {
                            char_u32_cast(c, cp);
                        }
                        out.push(c);
                    },
                    Option::None => {
                        proof {
                            assert(false);
                        }
                        return Err(Error::TranscodingFailure);
                    },
                }
                i = i + 4;
            } else {
                proof {
                    assert(!is_leading_byte_width_1(rem[0]));
                    assert(!is_leading_byte_width_2(rem[0]));
                    assert(!is_leading_byte_width_3(rem[0]));
                    assert(!is_leading_byte_width_4(rem[0]));
                    assert(!valid_first_scalar(rem));
                    lemma_utf8_fail(b@, i as int);
                }
                return Err(Error::TranscodingFailure);
            }
        }
        proof {
            assert(b@.subrange(0, b@.len() as int) =~= b@);
        }
        Ok(out)
    }

    /// Decodes a UCS-2LE payload, as unit width 2 strings carry it.
    pub fn ucs2_decode(&self, b: &Vec<u8>) -> (r: Result<Vec<char>, Error>)
        ensures
            match r {
                Ok(s) => valid_ucs2(b@) && s@ == ucs2_chars(b@),
                Err(e) => e == Error::TranscodingFailure && !valid_ucs2(b@),
            },
    {
        if b.len() % 2 != 0 {
            return Err(Error::TranscodingFailure);
        }
        let n: usize = b.len() / 2;
        let mut out: Vec<char> = Vec::new();
        let mut i: usize = 0;
        while i < n
            invariant
                b@.len() % 2 == 0,
                n == b@.len() / 2,
                0 <= i <= n,
                out@.len() == i,
                forall|j: int| 0 <= j < i ==> !(0xD800 <= #[trigger] ucs2_unit(b@, j) <= 0xDFFF),
                forall|j: int| 0 <= j < i ==> out@[j] == ucs2_unit(b@, j) as char,
            decreases n - i,
        {
            proof {
                assert(b@.len() <= usize::MAX) by {
                    assert(b.len() == b@.len());
                }
                assert(b@.len() == 2 * n);
                assert(2 * i + 1 < b@.len());
            }
            let x0: u8 = b[2 * i];
            let x1: u8 = b[2 * i + 1];
            let u: u32 = (x0 as u32) | ((x1 as u32) << 8);
            proof {
                assert(u == ucs2_unit(b@, i as int));
                assert(u < 0x10000) by (bit_vector)
                    requires
                        u == (x0 as u32) | ((x1 as u32) << 8),
                ;
            }
            if 0xD800 <= u && u <= 0xDFFF {
                proof {
                    assert(!valid_ucs2(b@)) by {
                        if valid_ucs2(b@) {
                            assert(!(0xD800 <= ucs2_unit(b@, i as int) <= 0xDFFF));
                        }
                    }
                }
                return Err(Error::TranscodingFailure);
            }
            match char::from_u32(u) {
                Option::Some(c) => {
                    proof {
                        char_u32_cast(c, u);
                    }
                    out.push(c);
                },
                Option::None => {
                    proof {
                        assert(false);
                    }
                    return Err(Error::TranscodingFailure);
                },
            }
            i = i + 1;
        }
        proof {
            assert(out@ =~= ucs2_chars(b@));
        }
        Ok(out)
    }

    /// Decodes a UCS-4LE payload, as unit width 4 strings and chars carry it.
    pub fn ucs4_decode(&self, b: &Vec<u8>) -> (r: Result<Vec<char>, Error>)
        ensures
            match r {
                Ok(s) => valid_ucs4(b@) && s@ == ucs4_chars(b@),
                Err(e) => e == Error::TranscodingFailure && !valid_ucs4(b@),
            },
    {
        if b.len() % 4 != 0 {
            return Err(Error::TranscodingFailure);
        }
        let n: usize = b.len() / 4;
        let mut out: Vec<char> = Vec::new();
        let mut i: usize = 0;
        while i < n
            invariant
                b@.len() % 4 == 0,
                n == b@.len() / 4,
                0 <= i <= n,
                out@.len() == i,
                forall|j: int| 0 <= j < i ==> is_scalar(#[trigger] ucs4_unit(b@, j)),
                forall|j: int| 0 <= j < i ==> out@[j] == ucs4_unit(b@, j) as char,
            decreases n - i,
        {
            proof {
                assert(b@.len() <= usize::MAX) by {
                    assert(b.len() == b@.len());
                }
                assert(b@.len() == 4 * n);
                assert(4 * i + 3 < b@.len());
            }
            let u: u32 = (b[4 * i] as u32) | ((b[4 * i + 1] as u32) << 8) | ((b[4 * i + 2] as u32)
                << 16) | ((b[4 * i + 3] as u32) << 24);
            proof {
                assert(u == ucs4_unit(b@, i as int));
            }
            if !(u < 0xD800 || (0xDFFF < u && u <= 0x10FFFF)) {
                proof {
                    assert(!is_scalar(u));
                    assert(!valid_ucs4(b@)) by {
                        if valid_ucs4(b@) {
                            assert(is_scalar(ucs4_unit(b@, i as int)));
                        }
                    }
                }
                return Err(Error::TranscodingFailure);
            }
            proof {
                assert(is_scalar(u));
            }
            match char::from_u32(u) {
                Option::Some(c) => {
                    proof {
                        char_u32_cast(c, u);
                    }
                    out.push(c);
                },
                Option::None => {
                    proof {
                        assert(false);
                    }
                    return Err(Error::TranscodingFailure);
                },
            }
            i = i + 1;
        }
        proof {
            assert(out@ =~= ucs4_chars(b@));
        }
        Ok(out)
    }
}

} // verus!
