use vstd::prelude::*;
use crate::error::Error;
use crate::text;
use crate::value::ValueModel;
use crate::value::wf;
use crate::wire;

verus! {

use vstd::utf8::*;

// ---------------------------------------------------------------------------
// What the codec's two directions promise of each other.
// ---------------------------------------------------------------------------
/// The first byte of any value's encoding is its nonzero tag, and every
/// encoding spans at least a tag word.
proof fn lemma_enc_shape(m: ValueModel)
    ensures
        wire::enc(m).len() >= 4,
        wire::enc(m)[0] != 0,
{
    match m {
        ValueModel::Str(s) => {
            assert(wire::enc(m)[0] == wire::TAG_STRING);
        },
        _ => {
        },
    }
}

/// Truncating a 32-bit signed value to unsigned and back is the identity.
proof fn lemma_i32_cast(i: i32)
    by (bit_vector)
    ensures
        (i as u32) as i32 == i,
{
}

/// The reserved zero byte never carries the reference flag.
proof fn lemma_zero_flag()
    by (bit_vector)
    ensures
        0u8 & 0x08u8 == 0,
{
}

/// Decoding a string's encoding from the front of a byte sequence yields
/// the string, provided what follows does not begin with a padding byte.
proof fn lemma_dec_enc_string(s: Seq<char>, rest: Seq<u8>)
    requires
        s.len() <= 0x7FFF_FFFF,
        rest.len() == 0 || rest[0] != 0,
    ensures
        wire::dec_string(wire::enc_string(s) + rest) == Result::<(Seq<char>, Seq<u8>),
            Error,
        >::Ok((s, rest)),
{
    let b = wire::enc_string(s) + rest;
    wire::lemma_le32_val(0);
    wire::lemma_le32_val(s.len() as u32);
    lemma_zero_flag();
    assert(b[0] == wire::TAG_STRING);
    wire::lemma_skip_pad_nonzero(b);
    let len32 = s.len() as u32;
    if is_ascii_chars(s) {
        let n = s.len() as int;
        let content = text::ascii_bytes(s);
        let p = wire::pad4(n);
        assert(b.len() == 12 + n + p + rest.len());
        assert(b[1] == 1 && b[2] == 0);
        assert(b[4] == wire::le32(0)[0] && b[5] == wire::le32(0)[1] && b[6] == wire::le32(0)[2] && b[7] == wire::le32(0)[3]);
        assert(b[8] == wire::le32(len32)[0] && b[9] == wire::le32(len32)[1] && b[10] == wire::le32(len32)[2] && b[11] == wire::le32(len32)[3]);
        assert(wire::read_le32(b, 8) == len32);
        assert((wire::read_le32(b, 8) as int) * (b[1] as int) == n);
        assert(b.subrange(12, 12 + n) =~= content);
        is_ascii_chars_encode_utf8(s);
        assert(encode_utf8(s) =~= content);
        encode_utf8_valid_utf8(s);
        assert(valid_utf8(content));
        encode_utf8_decode_utf8(s);
        assert(decode_utf8(content) == s);
        assert(b.skip(12 + n) =~= wire::zeros(p) + rest);
        wire::lemma_skip_pad_zeros(p, rest);
        assert(wire::dec_payload(wire::TAG_STRING, Error::ExpectedString, false, b) == Result::<
            (u8, Seq<u8>, Seq<u8>),
            Error,
        >::Ok((1u8, content, rest)));
    } else {
        let content = text::ucs4le_bytes(s);
        text::lemma_ucs4le_len(s);
        text::lemma_ucs4le_roundtrip(s);
        let n = 4 * s.len() as int;
        assert(b.len() == 12 + n + rest.len());
        assert(b[1] == 4 && b[2] == 0);
        assert(b[4] == wire::le32(0)[0] && b[5] == wire::le32(0)[1] && b[6] == wire::le32(0)[2] && b[7] == wire::le32(0)[3]);
        assert(b[8] == wire::le32(len32)[0] && b[9] == wire::le32(len32)[1] && b[10] == wire::le32(len32)[2] && b[11] == wire::le32(len32)[3]);
        assert(wire::read_le32(b, 8) == len32);
        assert((wire::read_le32(b, 8) as int) * (b[1] as int) == n);
        assert(b.subrange(12, 12 + n) =~= content);
        assert(b.skip(12 + n) =~= rest);
        wire::lemma_skip_pad_nonzero(rest);
        assert(wire::dec_payload(wire::TAG_STRING, Error::ExpectedString, false, b) == Result::<
            (u8, Seq<u8>, Seq<u8>),
            Error,
        >::Ok((4u8, content, rest)));
        assert(text::valid_ucs4(content));
        assert(text::ucs4_chars(content) == s);
    }
}

/// Decoding a binary blob's encoding from the front of a byte sequence
/// yields the blob, provided what follows does not begin with a padding
/// byte.
proof fn lemma_dec_enc_binary(bs: Seq<u8>, rest: Seq<u8>)
    requires
        bs.len() <= 0x7FFF_FFFF,
        rest.len() == 0 || rest[0] != 0,
    ensures
        wire::dec_binary(wire::enc_binary(bs) + rest) == Result::<(Seq<u8>, Seq<u8>), Error>::Ok(
            (bs, rest),
        ),
{
    let b = wire::enc_binary(bs) + rest;
    wire::lemma_le32_val(0);
    wire::lemma_le32_val(bs.len() as u32);
    lemma_zero_flag();
    assert(b[0] == wire::TAG_BINARY);
    wire::lemma_skip_pad_nonzero(b);
    let n = bs.len() as int;
    let p = wire::pad4(n);
    assert(b.len() == 12 + n + p + rest.len());
    assert(b[1] == 1 && b[2] == 0);
    assert(b[4] == wire::le32(0)[0] && b[5] == wire::le32(0)[1] && b[6] == wire::le32(0)[2] && b[7] == wire::le32(0)[3]);
    assert(b[8] == wire::le32(bs.len() as u32)[0] && b[9] == wire::le32(bs.len() as u32)[1]
        && b[10] == wire::le32(bs.len() as u32)[2] && b[11] == wire::le32(bs.len() as u32)[3]);
    assert(wire::read_le32(b, 8) == bs.len() as u32);
    assert((wire::read_le32(b, 8) as int) * (b[1] as int) == n);
    assert(b.subrange(12, 12 + n) =~= bs);
    assert(b.skip(12 + n) =~= wire::zeros(p) + rest);
    wire::lemma_skip_pad_zeros(p, rest);
}

/// Decoding a value's encoding from the front of a byte sequence yields
/// the value, provided what follows does not begin with a padding byte.
proof fn lemma_dec_enc(m: ValueModel, rest: Seq<u8>, fuel: nat)
    requires
        wf(m),
        rest.len() == 0 || rest[0] != 0,
        fuel > wire::enc(m).len() + rest.len(),
    ensures
        wire::dec_value(wire::enc(m) + rest, fuel) == Result::<(ValueModel, Seq<u8>), Error>::Ok(
            (m, rest),
        ),
    decreases m,
{
    let b = wire::enc(m) + rest;
    lemma_enc_shape(m);
    assert(b[0] == wire::enc(m)[0]);
    wire::lemma_skip_pad_nonzero(b);
    match m {
        ValueModel::NoneVal => {
            assert(b[0] == wire::TAG_NONE);
            assert(b.skip(4) =~= rest);
        },
        ValueModel::Logic(v) => {
            let x: u32 = if v {
                1
            } else {
                0
            };
            wire::lemma_le32_val(x);
            assert(b[0] == wire::TAG_LOGIC && b[1] == 0 && b[2] == 0 && b[3] == 0);
            assert(b[4] == wire::le32(x)[0] && b[5] == wire::le32(x)[1] && b[6] == wire::le32(x)[2] && b[7] == wire::le32(x)[3]);
            assert(wire::read_le32(b, 4) == x);
            assert(b.skip(8) =~= rest);
        },
        ValueModel::Integer(i) => {
            let x: u32 = i as u32;
            wire::lemma_le32_val(x);
            lemma_i32_cast(i);
            assert(b[0] == wire::TAG_INTEGER && b[1] == 0 && b[2] == 0 && b[3] == 0);
            assert(b[4] == wire::le32(x)[0] && b[5] == wire::le32(x)[1] && b[6] == wire::le32(x)[2] && b[7] == wire::le32(x)[3]);
            assert(wire::read_le32(b, 4) == x);
            assert(b.skip(8) =~= rest);
        },
        ValueModel::Float(bits) => {
            let hi: u32 = (bits >> 32) as u32;
            let lo: u32 = bits as u32;
            wire::lemma_le32_val(hi);
            wire::lemma_le32_val(lo);
            wire::lemma_words_to_bits(bits);
            assert(b[0] == wire::TAG_FLOAT && b[1] == 0 && b[2] == 0 && b[3] == 0);
            assert(b[4] == wire::le32(hi)[0] && b[5] == wire::le32(hi)[1] && b[6] == wire::le32(hi)[2] && b[7] == wire::le32(hi)[3]);
            assert(b[8] == wire::le32(lo)[0] && b[9] == wire::le32(lo)[1] && b[10] == wire::le32(lo)[2] && b[11] == wire::le32(lo)[3]);
            assert(wire::read_le32(b, 4) == hi);
            assert(wire::read_le32(b, 8) == lo);
            assert(b.skip(12) =~= rest);
        },
        ValueModel::Char(c) => {
            let x: u32 = c as u32;
            wire::lemma_le32_val(x);
            char_is_scalar(c);
            char_u32_cast(c, x);
            assert(b[0] == wire::TAG_CHAR);
            assert(b[4] == wire::le32(x)[0] && b[5] == wire::le32(x)[1] && b[6] == wire::le32(x)[2] && b[7] == wire::le32(x)[3]);
            assert(wire::read_le32(b, 4) == x);
            assert(b.skip(8) =~= rest);
        },
        ValueModel::Str(s) => {
            lemma_dec_enc_string(s, rest);
        },
        ValueModel::Binary(bs) => {
            lemma_dec_enc_binary(bs, rest);
        },
        ValueModel::Block(vs) => {
            let count: u32 = vs.len() as u32;
            wire::lemma_le32_val(0);
            wire::lemma_le32_val(count);
            assert(b[0] == wire::TAG_BLOCK && b[1] == 0 && b[2] == 0 && b[3] == 0);
            assert(b[4] == wire::le32(0)[0] && b[5] == wire::le32(0)[1] && b[6] == wire::le32(0)[2] && b[7] == wire::le32(0)[3]);
            assert(b[8] == wire::le32(count)[0] && b[9] == wire::le32(count)[1] && b[10] == wire::le32(count)[2] && b[11] == wire::le32(count)[3]);
            assert(wire::read_le32(b, 8) == count);
            assert(b.skip(12) =~= wire::enc_elems(vs) + rest);
            assert(wire::dec_header(wire::TAG_BLOCK, Error::ExpectedBlock, b) == Result::<
                (u32, Seq<u8>),
                Error,
            >::Ok((count, wire::enc_elems(vs) + rest)));
            lemma_dec_enc_elems(vs, rest, (fuel - 1) as nat);
            assert(count as nat == vs.len());
        },
        ValueModel::Paren(vs) => {
            let count: u32 = vs.len() as u32;
            wire::lemma_le32_val(0);
            wire::lemma_le32_val(count);
            assert(b[0] == wire::TAG_PAREN && b[1] == 0 && b[2] == 0 && b[3] == 0);
            assert(b[4] == wire::le32(0)[0] && b[5] == wire::le32(0)[1] && b[6] == wire::le32(0)[2] && b[7] == wire::le32(0)[3]);
            assert(b[8] == wire::le32(count)[0] && b[9] == wire::le32(count)[1] && b[10] == wire::le32(count)[2] && b[11] == wire::le32(count)[3]);
            assert(wire::read_le32(b, 8) == count);
            assert(b.skip(12) =~= wire::enc_elems(vs) + rest);
            assert(wire::dec_header(wire::TAG_PAREN, Error::ExpectedParen, b) == Result::<
                (u32, Seq<u8>),
                Error,
            >::Ok((count, wire::enc_elems(vs) + rest)));
            lemma_dec_enc_elems(vs, rest, (fuel - 1) as nat);
            assert(count as nat == vs.len());
        },
    }
}

/// Decoding the concatenated encodings of a run of values yields exactly
/// those values.
proof fn lemma_dec_enc_elems(vs: Seq<ValueModel>, rest: Seq<u8>, fuel: nat)
    requires
        forall|i: int| 0 <= i < vs.len() ==> wf(#[trigger] vs[i]),
        rest.len() == 0 || rest[0] != 0,
        fuel > wire::enc_elems(vs).len() + rest.len(),
    ensures
        wire::dec_elems(wire::enc_elems(vs) + rest, vs.len(), fuel) == Result::<
            (Seq<ValueModel>, Seq<u8>),
            Error,
        >::Ok((vs, rest)),
    decreases vs,
{
    if vs.len() == 0 {
        assert(wire::enc_elems(vs) + rest =~= rest);
        assert(vs =~= Seq::<ValueModel>::empty());
    } else {
        let head = vs[0];
        let tail = vs.drop_first();
        let rest1 = wire::enc_elems(tail) + rest;
        assert(wire::enc_elems(vs) + rest =~= wire::enc(head) + rest1);
        if wire::enc_elems(tail).len() == 0 {
            assert(rest1 =~= rest);
        } else {
            assert(tail.len() > 0);
            lemma_enc_shape(tail[0]);
            assert(wire::enc_elems(tail)[0] == wire::enc(tail[0])[0]);
            assert(rest1[0] != 0);
        }
        lemma_dec_enc(head, rest1, fuel);
        assert forall|i: int| 0 <= i < tail.len() implies wf(#[trigger] tail[i]) by {
            assert(tail[i] == vs[i + 1]);
            assert(wf(vs[i + 1]));
        }
        lemma_dec_enc_elems(tail, rest, fuel);
        assert(seq![head] + tail =~= vs);
    }
}

// ---------------------------------------------------------------------------
// The laws the codec obeys.
// ---------------------------------------------------------------------------
/// Round trip: decoding what the codec encoded yields the value back, for
/// every well-formed value — every value whose strings, blobs and
/// containers fit the format's 32-bit length fields.
pub proof fn lemma_round_trip(m: ValueModel)
    requires
        wf(m),
    ensures
        wire::decode_spec(wire::encode_spec(m)) == Result::<ValueModel, Error>::Ok(m),
{
    let payload = wire::enc(m);
    let b = wire::encode_spec(m);
    wire::lemma_le32_val(1);
    wire::lemma_le32_val(payload.len() as u32);
    assert(b.len() == 16 + payload.len());
    assert(b.subrange(0, 6) =~= wire::magic());
    assert(b[6] == wire::VERSION_BYTE);
    assert(b[8] == wire::le32(1)[0] && b[9] == wire::le32(1)[1] && b[10] == wire::le32(1)[2] && b[11] == wire::le32(1)[3]);
    assert(wire::read_le32(b, 8) == 1);
    assert(b.skip(16) =~= payload);
    assert(wire::dec_envelope(b) == Result::<Seq<u8>, Error>::Ok(payload));
    lemma_dec_enc(m, Seq::<u8>::empty(), (payload.len() + 1) as nat);
    assert(payload + Seq::<u8>::empty() =~= payload);
    assert(wire::dec_top(payload) == Result::<(ValueModel, Seq<u8>), Error>::Ok(
        (m, Seq::<u8>::empty()),
    ));
}

/// Envelope invariant: the payload length field of any encoded message is
/// exactly the byte length of what follows the sixteen-byte envelope.
/// The field is 32 bits wide, so the law speaks of the payloads it can
/// measure.
pub proof fn lemma_envelope_length(m: ValueModel)
    requires
        wire::enc(m).len() <= u32::MAX,
    ensures
        wire::encode_spec(m).len() == 16 + wire::enc(m).len(),
        wire::read_le32(wire::encode_spec(m), 12) == wire::enc(m).len(),
{
    let payload = wire::enc(m);
    let b = wire::encode_spec(m);
    wire::lemma_le32_val(1);
    wire::lemma_le32_val(payload.len() as u32);
    assert(b[12] == wire::le32(payload.len() as u32)[0] && b[13] == wire::le32(
        payload.len() as u32,
    )[1] && b[14] == wire::le32(payload.len() as u32)[2] && b[15] == wire::le32(
        payload.len() as u32,
    )[3]);
    assert(wire::read_le32(b, 12) == payload.len() as u32);
}

/// Alignment invariant: every value's encoding — scalars by construction,
/// text and blobs through their trailing padding, containers element by
/// element — spans a multiple of four bytes.
pub proof fn lemma_enc_aligned(m: ValueModel)
    ensures
        wire::enc(m).len() % 4 == 0,
    decreases m,
{
    match m {
        ValueModel::Str(s) => {
            if is_ascii_chars(s) {
                let n = s.len() as int;
                assert((n + wire::pad4(n)) % 4 == 0);
            } else {
                text::lemma_ucs4le_len(s);
            }
        },
        ValueModel::Binary(bs) => {
            let n = bs.len() as int;
            assert((n + wire::pad4(n)) % 4 == 0);
        },
        ValueModel::Block(vs) => {
            lemma_enc_elems_aligned(vs);
        },
        ValueModel::Paren(vs) => {
            lemma_enc_elems_aligned(vs);
        },
        _ => {
        },
    }
}

/// The concatenated encodings of a run of values span a multiple of four
/// bytes.
proof fn lemma_enc_elems_aligned(vs: Seq<ValueModel>)
    ensures
        wire::enc_elems(vs).len() % 4 == 0,
    decreases vs,
{
    if vs.len() > 0 {
        lemma_enc_aligned(vs[0]);
        lemma_enc_elems_aligned(vs.drop_first());
    }
}

} // verus!
