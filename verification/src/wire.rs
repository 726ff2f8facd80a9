use vstd::prelude::*;
use crate::error::Error;
use crate::text;
use crate::value::ValueModel;

verus! {

// ---------------------------------------------------------------------------
// Tag bytes: the one-byte discriminant stored at the front of every value's
// four-byte tag word.
// ---------------------------------------------------------------------------
pub const TAG_NONE: u8 = 0x03;

pub const TAG_LOGIC: u8 = 0x04;

pub const TAG_BLOCK: u8 = 0x05;

pub const TAG_PAREN: u8 = 0x06;

pub const TAG_STRING: u8 = 0x07;

pub const TAG_CHAR: u8 = 0x0A;

pub const TAG_INTEGER: u8 = 0x0B;

pub const TAG_FLOAT: u8 = 0x0C;

pub const TAG_BINARY: u8 = 0x29;

/// The single format version this codec speaks.
pub const VERSION_BYTE: u8 = 0x02;

/// The bit of the third tag-word byte that marks a reference (shared-series
/// view) value. Decoding a value with this bit set is unsupported.
pub const REFERENCE_FLAG: u8 = 0x08;

// ---------------------------------------------------------------------------
// Little-endian 32-bit words.
// ---------------------------------------------------------------------------
/// The four little-endian bytes of a 32-bit word.
pub open spec fn le32(x: u32) -> Seq<u8> {
    seq![
        (x & 0xFF) as u8,
        ((x >> 8) & 0xFF) as u8,
        ((x >> 16) & 0xFF) as u8,
        ((x >> 24) & 0xFF) as u8,
    ]
}

/// The 32-bit word read from four little-endian bytes.
pub open spec fn le32_val(b0: u8, b1: u8, b2: u8, b3: u8) -> u32 {
    (b0 as u32) | ((b1 as u32) << 8) | ((b2 as u32) << 16) | ((b3 as u32) << 24)
}

/// The 32-bit word at offset `off` of a byte sequence.
pub open spec fn read_le32(b: Seq<u8>, off: int) -> u32
    recommends
        0 <= off,
        off + 4 <= b.len(),
{
    le32_val(b[off], b[off + 1], b[off + 2], b[off + 3])
}

/// Writing a word and reading it back yields the word.
pub proof fn lemma_le32_val(x: u32)
    ensures
        le32(x).len() == 4,
        read_le32(le32(x), 0) == x,
{
    assert(((x & 0xFF) as u8 as u32) | ((((x >> 8) & 0xFF) as u8 as u32) << 8) | ((((x >> 16)
        & 0xFF) as u8 as u32) << 16) | ((((x >> 24) & 0xFF) as u8 as u32) << 24) == x)
        by (bit_vector);
}

/// A float value's eight payload bytes: the high word first, then the low
/// word, each little-endian within itself.
pub open spec fn float_words(bits: u64) -> Seq<u8> {
    le32((bits >> 32) as u32) + le32(bits as u32)
}

/// The 64-bit bit pattern put back together from its high and low words.
pub open spec fn words_to_bits(hi: u32, lo: u32) -> u64 {
    ((hi as u64) << 32) | (lo as u64)
}

/// Splitting a 64-bit pattern into words and rejoining them yields the
/// pattern.
pub proof fn lemma_words_to_bits(bits: u64)
    ensures
        words_to_bits((bits >> 32) as u32, bits as u32) == bits,
{
    assert((((bits >> 32) as u32 as u64) << 32) | (bits as u32 as u64) == bits) by (bit_vector);
}

// ---------------------------------------------------------------------------
// Padding.
// ---------------------------------------------------------------------------
/// A run of zero bytes.
pub open spec fn zeros(n: int) -> Seq<u8>
    recommends
        n >= 0,
{
    Seq::new(n as nat, |i: int| 0u8)
}

/// How many zero bytes pad a payload of `n` bytes up to the next four-byte
/// boundary.
pub open spec fn pad4(n: int) -> int
    recommends
        n >= 0,
{
    (4 - n % 4) % 4
}

/// The suffix of a byte sequence after the run of zero bytes at its front.
/// Decoders skip such runs before inspecting a tag: no tag byte is zero.
pub open spec fn skip_pad(b: Seq<u8>) -> Seq<u8>
    decreases b.len(),
{
    if b.len() > 0 && b[0] == 0 {
        skip_pad(b.drop_first())
    } else {
        b
    }
}

/// Skipping padding of a sequence that starts with a nonzero byte (or is
/// empty) changes nothing.
pub proof fn lemma_skip_pad_nonzero(b: Seq<u8>)
    requires
        b.len() == 0 || b[0] != 0,
    ensures
        skip_pad(b) == b,
{
}

/// Skipping padding consumes exactly a leading run of zeros when what follows
/// does not start with another zero.
pub proof fn lemma_skip_pad_zeros(n: int, rest: Seq<u8>)
    requires
        n >= 0,
        rest.len() == 0 || rest[0] != 0,
    ensures
        skip_pad(zeros(n) + rest) == rest,
    decreases n,
{
    if n == 0 {
        assert(zeros(0) + rest =~= rest);
        lemma_skip_pad_nonzero(rest);
    } else {
        assert((zeros(n) + rest)[0] == 0);
        assert((zeros(n) + rest).drop_first() =~= zeros(n - 1) + rest);
        lemma_skip_pad_zeros(n - 1, rest);
    }
}

/// What padding skipping leaves never starts with a zero byte.
pub proof fn lemma_skip_pad_head(b: Seq<u8>)
    ensures
        skip_pad(b).len() == 0 || skip_pad(b)[0] != 0,
    decreases b.len(),
{
    if b.len() > 0 && b[0] == 0 {
        lemma_skip_pad_head(b.drop_first());
    }
}

/// Skipping padding never lengthens the sequence.
pub proof fn lemma_skip_pad_len(b: Seq<u8>)
    ensures
        skip_pad(b).len() <= b.len(),
    decreases b.len(),
{
    if b.len() > 0 && b[0] == 0 {
        lemma_skip_pad_len(b.drop_first());
    }
}

// ---------------------------------------------------------------------------
// What each value kind encodes to.
// ---------------------------------------------------------------------------
/// A four-byte tag word: the tag byte and three reserved zero bytes.
pub open spec fn tag_word(t: u8) -> Seq<u8> {
    seq![t, 0u8, 0u8, 0u8]
}

/// The encoding of a string: tag word carrying the unit width in its second
/// byte, a zero head position, the character count, then the payload. The
/// ASCII fast path uses unit width 1 and pads its payload to a four-byte
/// boundary; any other text uses UCS-4LE, which is already aligned.
pub open spec fn enc_string(s: Seq<char>) -> Seq<u8> {
    if vstd::utf8::is_ascii_chars(s) {
        seq![TAG_STRING, 1u8, 0u8, 0u8] + le32(0) + le32(s.len() as u32) + text::ascii_bytes(s)
            + zeros(pad4(s.len() as int))
    } else {
        seq![TAG_STRING, 4u8, 0u8, 0u8] + le32(0) + le32(s.len() as u32) + text::ucs4le_bytes(s)
    }
}

/// The encoding of a binary blob: like a string with unit width 1, but under
/// the binary tag and with the bytes kept opaque.
pub open spec fn enc_binary(b: Seq<u8>) -> Seq<u8> {
    seq![TAG_BINARY, 1u8, 0u8, 0u8] + le32(0) + le32(b.len() as u32) + b + zeros(
        pad4(b.len() as int),
    )
}

/// The payload bytes a value encodes to.
pub open spec fn enc(m: ValueModel) -> Seq<u8>
    decreases m,
{
    match m {
        ValueModel::NoneVal => tag_word(TAG_NONE),
        ValueModel::Logic(v) => tag_word(TAG_LOGIC) + le32(
            if v {
                1
            } else {
                0
            },
        ),
        ValueModel::Integer(i) => tag_word(TAG_INTEGER) + le32(i as u32),
        ValueModel::Float(bits) => tag_word(TAG_FLOAT) + float_words(bits),
        ValueModel::Char(c) => tag_word(TAG_CHAR) + le32(c as u32),
        ValueModel::Str(s) => enc_string(s),
        ValueModel::Binary(b) => enc_binary(b),
        ValueModel::Block(vs) => tag_word(TAG_BLOCK) + le32(0) + le32(vs.len() as u32) + enc_elems(
            vs,
        ),
        ValueModel::Paren(vs) => tag_word(TAG_PAREN) + le32(0) + le32(vs.len() as u32) + enc_elems(
            vs,
        ),
    }
}

/// The concatenated encodings of a sequence of values.
pub open spec fn enc_elems(vs: Seq<ValueModel>) -> Seq<u8>
    decreases vs,
{
    if vs.len() == 0 {
        Seq::empty()
    } else {
        enc(vs[0]) + enc_elems(vs.drop_first())
    }
}

/// Appending one value to a sequence appends its encoding.
pub proof fn lemma_enc_elems_push(vs: Seq<ValueModel>, m: ValueModel)
    ensures
        enc_elems(vs.push(m)) == enc_elems(vs) + enc(m),
    decreases vs.len(),
{
    if vs.len() == 0 {
        assert(vs.push(m)[0] == m);
        assert(vs.push(m).drop_first() =~= Seq::<ValueModel>::empty());
        assert(enc_elems(Seq::<ValueModel>::empty()) =~= Seq::<u8>::empty());
        assert(enc_elems(vs.push(m)) =~= enc_elems(vs) + enc(m));
    } else {
        assert(vs.push(m).drop_first() =~= vs.drop_first().push(m));
        lemma_enc_elems_push(vs.drop_first(), m);
        assert(vs.push(m)[0] == vs[0]);
        assert(enc_elems(vs.push(m)) =~= enc_elems(vs) + enc(m));
    }
}

// ---------------------------------------------------------------------------
// The envelope: a sixteen-byte header around exactly one encoded value.
// ---------------------------------------------------------------------------
/// The six magic bytes that open every envelope.
pub open spec fn magic() -> Seq<u8> {
    seq![0x52u8, 0x45u8, 0x44u8, 0x42u8, 0x49u8, 0x4Eu8]
}

/// The envelope: magic, version, flags, a record count of one, and the
/// payload's byte length.
pub open spec fn envelope(payload_len: u32) -> Seq<u8> {
    magic() + seq![VERSION_BYTE, 0u8] + le32(1) + le32(payload_len)
}

/// The bytes a whole encode call produces: the envelope, then the payload.
pub open spec fn encode_spec(m: ValueModel) -> Seq<u8> {
    envelope(enc(m).len() as u32) + enc(m)
}

/// Envelope validation: the magic bytes, then the version, then the record
/// count must check out; the flags byte and the payload length field are read
/// but not constrained. Returns the payload that follows.
pub open spec fn dec_envelope(b: Seq<u8>) -> Result<Seq<u8>, Error> {
    if b.len() < 16 {
        Err(Error::Truncated)
    } else if b.subrange(0, 6) != magic() {
        Err(Error::BadMagic)
    } else if b[6] != VERSION_BYTE {
        Err(Error::UnsupportedVersion)
    } else if read_le32(b, 8) != 1 {
        Err(Error::UnsupportedRecordCount)
    } else {
        Ok(b.skip(16))
    }
}

// ---------------------------------------------------------------------------
// What each value kind decodes from. Each decoder first skips any run of
// zero padding bytes, then inspects the tag. The remainder handed back is
// the suffix after the value (and, for string and binary, after their
// trailing padding).
// ---------------------------------------------------------------------------
/// Decoding a none sentinel: the none tag byte, consumed with its tag word.
pub open spec fn dec_none(b: Seq<u8>) -> Result<Seq<u8>, Error> {
    let c = skip_pad(b);
    if c.len() == 0 {
        Err(Error::Truncated)
    } else if c[0] != TAG_NONE {
        Err(Error::ExpectedNone)
    } else if c.len() < 4 {
        Err(Error::Truncated)
    } else {
        Ok(c.skip(4))
    }
}

/// Decoding a scalar whose payload is one word: a full tag word (reserved
/// bytes must be zero), then the payload word.
pub open spec fn dec_word(t: u8, e: Error, b: Seq<u8>) -> Result<(u32, Seq<u8>), Error> {
    let c = skip_pad(b);
    if c.len() < 4 {
        Err(Error::Truncated)
    } else if !(c[0] == t && c[1] == 0 && c[2] == 0 && c[3] == 0) {
        Err(e)
    } else if c.len() < 8 {
        Err(Error::Truncated)
    } else {
        Ok((read_le32(c, 4), c.skip(8)))
    }
}

/// Decoding a logic value: any nonzero payload word is true.
pub open spec fn dec_logic(b: Seq<u8>) -> Result<(bool, Seq<u8>), Error> {
    match dec_word(TAG_LOGIC, Error::ExpectedLogic, b) {
        Err(e) => Err(e),
        Ok((w, rest)) => Ok((w != 0, rest)),
    }
}

/// Decoding an integer: the payload word read as a signed 32-bit value.
pub open spec fn dec_integer(b: Seq<u8>) -> Result<(i32, Seq<u8>), Error> {
    match dec_word(TAG_INTEGER, Error::ExpectedInteger, b) {
        Err(e) => Err(e),
        Ok((w, rest)) => Ok((w as i32, rest)),
    }
}

/// Decoding a float: a full tag word, then the high and low words of the
/// 64-bit bit pattern.
pub open spec fn dec_float(b: Seq<u8>) -> Result<(u64, Seq<u8>), Error> {
    let c = skip_pad(b);
    if c.len() < 4 {
        Err(Error::Truncated)
    } else if !(c[0] == TAG_FLOAT && c[1] == 0 && c[2] == 0 && c[3] == 0) {
        Err(Error::ExpectedFloat)
    } else if c.len() < 12 {
        Err(Error::Truncated)
    } else {
        Ok((words_to_bits(read_le32(c, 4), read_le32(c, 8)), c.skip(12)))
    }
}

/// Decoding a char: the char tag byte, then one UCS-4LE code unit, which
/// must be a Unicode scalar value.
pub open spec fn dec_char(b: Seq<u8>) -> Result<(char, Seq<u8>), Error> {
    let c = skip_pad(b);
    if c.len() == 0 {
        Err(Error::Truncated)
    } else if c[0] != TAG_CHAR {
        Err(Error::ExpectedChar)
    } else if c.len() < 8 {
        Err(Error::Truncated)
    } else {
        let u = read_le32(c, 4);
        if vstd::utf8::is_scalar(u) {
            Ok((u as char, c.skip(8)))
        } else {
            Err(Error::TranscodingFailure)
        }
    }
}

/// Decoding a block or paren header: a full tag word, an ignored head
/// position word, then the element count.
pub open spec fn dec_header(t: u8, e: Error, b: Seq<u8>) -> Result<(u32, Seq<u8>), Error> {
    let c = skip_pad(b);
    if c.len() < 4 {
        Err(Error::Truncated)
    } else if !(c[0] == t && c[1] == 0 && c[2] == 0 && c[3] == 0) {
        Err(e)
    } else if c.len() < 12 {
        Err(Error::Truncated)
    } else {
        Ok((read_le32(c, 8), c.skip(12)))
    }
}

/// Decoding the shared string/binary shape: tag byte, unit width in the
/// second tag-word byte, reference flag checked in the third, an ignored
/// head position, a code-unit count, then `count * unit` payload bytes and
/// the trailing padding skip. Returns the unit width, the payload bytes and
/// the remainder.
pub open spec fn dec_payload(t: u8, e: Error, binary: bool, b: Seq<u8>) -> Result<
    (u8, Seq<u8>, Seq<u8>),
    Error,
> {
    let c = skip_pad(b);
    if c.len() == 0 {
        Err(Error::Truncated)
    } else if c[0] != t {
        Err(e)
    } else if c.len() < 12 {
        Err(Error::Truncated)
    } else {
        let unit = c[1];
        if c[2] & REFERENCE_FLAG != 0 {
            Err(Error::UnsupportedReference)
        } else if (binary && unit != 1) || (!binary && !(unit == 1 || unit == 2 || unit == 4)) {
            Err(Error::UnsupportedUnitWidth)
        } else {
            let n = (read_le32(c, 8) as int) * (unit as int);
            if c.len() < 12 + n {
                Err(Error::Truncated)
            } else {
                Ok((unit, c.subrange(12, 12 + n), skip_pad(c.skip(12 + n))))
            }
        }
    }
}

/// Decoding a string: the string payload shape, then the payload read in the
/// declared unit width's encoding.
pub open spec fn dec_string(b: Seq<u8>) -> Result<(Seq<char>, Seq<u8>), Error> {
    match dec_payload(TAG_STRING, Error::ExpectedString, false, b) {
        Err(e) => Err(e),
        Ok((unit, content, rest)) => if unit == 1 {
            if vstd::utf8::valid_utf8(content) {
                Ok((vstd::utf8::decode_utf8(content), rest))
            } else {
                Err(Error::TranscodingFailure)
            }
        } else if unit == 2 {
            if text::valid_ucs2(content) {
                Ok((text::ucs2_chars(content), rest))
            } else {
                Err(Error::TranscodingFailure)
            }
        } else {
            if text::valid_ucs4(content) {
                Ok((text::ucs4_chars(content), rest))
            } else {
                Err(Error::TranscodingFailure)
            }
        },
    }
}

/// Decoding a binary blob: the binary payload shape with unit width 1, the
/// payload kept opaque.
pub open spec fn dec_binary(b: Seq<u8>) -> Result<(Seq<u8>, Seq<u8>), Error> {
    match dec_payload(TAG_BINARY, Error::ExpectedBinary, true, b) {
        Err(e) => Err(e),
        Ok((unit, content, rest)) => Ok((content, rest)),
    }
}

// ---------------------------------------------------------------------------
// Decoding a whole value: skip padding, dispatch on the tag byte, and for
// containers decode the declared number of elements. The fuel bounds the
// nesting depth a decode may descend through; any fuel larger than the byte
// count is enough, since every nesting level consumes bytes.
// ---------------------------------------------------------------------------
/// The value (or error) at the front of a byte sequence.
pub open spec fn dec_value(b: Seq<u8>, fuel: nat) -> Result<(ValueModel, Seq<u8>), Error>
    decreases fuel, 0int, 0int,
{
    if fuel == 0 {
        Err(Error::Truncated)
    } else {
        let c = skip_pad(b);
        if c.len() == 0 {
            Err(Error::Truncated)
        } else if c[0] == TAG_NONE {
            match dec_none(b) {
                Err(e) => Err(e),
                Ok(rest) => Ok((ValueModel::NoneVal, rest)),
            }
        } else if c[0] == TAG_LOGIC {
            match dec_logic(b) {
                Err(e) => Err(e),
                Ok((v, rest)) => Ok((ValueModel::Logic(v), rest)),
            }
        } else if c[0] == TAG_INTEGER {
            match dec_integer(b) {
                Err(e) => Err(e),
                Ok((i, rest)) => Ok((ValueModel::Integer(i), rest)),
            }
        } else if c[0] == TAG_FLOAT {
            match dec_float(b) {
                Err(e) => Err(e),
                Ok((bits, rest)) => Ok((ValueModel::Float(bits), rest)),
            }
        } else if c[0] == TAG_CHAR {
            match dec_char(b) {
                Err(e) => Err(e),
                Ok((v, rest)) => Ok((ValueModel::Char(v), rest)),
            }
        } else if c[0] == TAG_STRING {
            match dec_string(b) {
                Err(e) => Err(e),
                Ok((s, rest)) => Ok((ValueModel::Str(s), rest)),
            }
        } else if c[0] == TAG_BINARY {
            match dec_binary(b) {
                Err(e) => Err(e),
                Ok((bs, rest)) => Ok((ValueModel::Binary(bs), rest)),
            }
        } else if c[0] == TAG_BLOCK {
            match dec_header(TAG_BLOCK, Error::ExpectedBlock, b) {
                Err(e) => Err(e),
                Ok((count, rest)) => match dec_elems(rest, count as nat, (fuel - 1) as nat) {
                    Err(e) => Err(e),
                    Ok((vs, rest2)) => Ok((ValueModel::Block(vs), rest2)),
                },
            }
        } else if c[0] == TAG_PAREN {
            match dec_header(TAG_PAREN, Error::ExpectedParen, b) {
                Err(e) => Err(e),
                Ok((count, rest)) => match dec_elems(rest, count as nat, (fuel - 1) as nat) {
                    Err(e) => Err(e),
                    Ok((vs, rest2)) => Ok((ValueModel::Paren(vs), rest2)),
                },
            }
        } else {
            Err(Error::UnsupportedTag)
        }
    }
}

/// The `n` values (or first error) at the front of a byte sequence.
pub open spec fn dec_elems(b: Seq<u8>, n: nat, fuel: nat) -> Result<
    (Seq<ValueModel>, Seq<u8>),
    Error,
>
    decreases fuel, n, 1int,
{
    if n == 0 {
        Ok((Seq::empty(), b))
    } else {
        match dec_value(b, fuel) {
            Err(e) => Err(e),
            Ok((v, rest)) => match dec_elems(rest, (n - 1) as nat, fuel) {
                Err(e) => Err(e),
                Ok((vs, rest2)) => Ok((seq![v] + vs, rest2)),
            },
        }
    }
}

/// Decoding an option's front: a none sentinel is consumed and reports
/// absence; any other value is left in place for the decoder of the wrapped
/// kind.
pub open spec fn dec_option(b: Seq<u8>) -> Result<(bool, Seq<u8>), Error> {
    let c = skip_pad(b);
    if c.len() == 0 {
        Err(Error::Truncated)
    } else if c[0] == TAG_NONE {
        if c.len() < 4 {
            Err(Error::Truncated)
        } else {
            Ok((true, c.skip(4)))
        }
    } else {
        Ok((false, c))
    }
}

/// Decoding a map's opening block header: the element count must be even,
/// checked before any key or value is consumed.
pub open spec fn dec_map_header(b: Seq<u8>) -> Result<(u32, Seq<u8>), Error> {
    match dec_header(TAG_BLOCK, Error::ExpectedBlock, b) {
        Err(e) => Err(e),
        Ok((count, rest)) => if count % 2 != 0 {
            Err(Error::UnevenMapLength)
        } else {
            Ok((count, rest))
        },
    }
}

/// Decoding a tagged union's opening paren header: the element count must
/// be 1 (a bare variant name) or 2 (a name and a payload).
pub open spec fn dec_enum_header(b: Seq<u8>) -> Result<(u32, Seq<u8>), Error> {
    match dec_header(TAG_PAREN, Error::ExpectedParen, b) {
        Err(e) => Err(e),
        Ok((count, rest)) => if count == 1 || count == 2 {
            Ok((count, rest))
        } else {
            Err(Error::MalformedEnumArity)
        },
    }
}

/// Any two fuels beyond the byte count decode alike, and a successful
/// decode always consumes at least a tag word.
pub proof fn lemma_dec_value_fuel(b: Seq<u8>, f1: nat, f2: nat)
    requires
        f1 > b.len(),
        f2 > b.len(),
    ensures
        dec_value(b, f1) == dec_value(b, f2),
        (dec_value(b, f1) matches Ok(p) ==> p.1.len() + 4 <= b.len()),
    decreases f1, 0int, 0int,
{
    let c = skip_pad(b);
    lemma_skip_pad_len(b);
    if c.len() == 0 {
    } else if c[0] == TAG_STRING || c[0] == TAG_BINARY {
        let e = if c[0] == TAG_STRING {
            Error::ExpectedString
        } else {
            Error::ExpectedBinary
        };
        let pay = dec_payload(c[0], e, c[0] == TAG_BINARY, b);
        if pay is Ok {
            let n = (read_le32(c, 8) as int) * (c[1] as int);
            vstd::arithmetic::mul::lemma_mul_nonnegative(read_le32(c, 8) as int, c[1] as int);
            lemma_skip_pad_len(c.skip(12 + n));
        }
    } else if c[0] == TAG_BLOCK || c[0] == TAG_PAREN {
        let e = if c[0] == TAG_PAREN {
            Error::ExpectedParen
        } else {
            Error::ExpectedBlock
        };
        let hd = dec_header(c[0], e, b);
        if hd is Ok {
            let count = hd->Ok_0.0;
            let rest = hd->Ok_0.1;
            assert(rest == c.skip(12));
            lemma_dec_elems_fuel(rest, count as nat, (f1 - 1) as nat, (f2 - 1) as nat);
        }
    } else {
    }
}

/// Any two fuels beyond the byte count decode a run of elements alike, and
/// what such a run leaves is never longer than what it started from.
pub proof fn lemma_dec_elems_fuel(b: Seq<u8>, n: nat, f1: nat, f2: nat)
    requires
        f1 > b.len(),
        f2 > b.len(),
    ensures
        dec_elems(b, n, f1) == dec_elems(b, n, f2),
        (dec_elems(b, n, f1) matches Ok(p) ==> p.1.len() <= b.len()),
    decreases f1, n, 1int,
{
    if n != 0 {
        lemma_dec_value_fuel(b, f1, f2);
        let dv = dec_value(b, f1);
        if dv is Ok {
            lemma_dec_elems_fuel(dv->Ok_0.1, (n - 1) as nat, f1, f2);
        }
    }
}

/// The value at the front of a byte sequence, with fuel that is always
/// enough: one more than the byte count.
pub open spec fn dec_top(b: Seq<u8>) -> Result<(ValueModel, Seq<u8>), Error> {
    dec_value(b, b.len() + 1)
}

/// What a whole decode call yields: envelope validation, one value, and no
/// bytes left over.
pub open spec fn decode_spec(b: Seq<u8>) -> Result<ValueModel, Error> {
    match dec_envelope(b) {
        Err(e) => Err(e),
        Ok(payload) => match dec_top(payload) {
            Err(e) => Err(e),
            Ok((m, rest)) => if rest.len() == 0 {
                Ok(m)
            } else {
                Err(Error::TrailingBytes)
            },
        },
    }
}

} // verus!
