use vstd::prelude::*;
use crate::error::Error;
use crate::error::IntWidth;
use crate::text::TextCodec;
use crate::text;
use crate::value::MAX_LENGTH;
use crate::value::Value;
use crate::value::ValueModel;
use crate::value::view_elems;
use crate::value::view_value;
use crate::value::wf;
use crate::wire;

verus! {

/// The encoder: a growing byte buffer, the pending element count that block
/// headers written after the fact need, and the encoding context.
pub struct Serializer {
    output: Vec<u8>,
    length: i32,
    ic: TextCodec,
}

impl Serializer {
    /// The bytes written so far.
    pub closed spec fn out(&self) -> Seq<u8> {
        self.output@
    }

    /// The element count pending for a block header written after the fact.
    pub closed spec fn pending_length(&self) -> i32 {
        self.length
    }

    /// Makes an encoder around the given encoding context.
    pub fn new_with(ic1: TextCodec) -> (s: Serializer)
        ensures
            s.out() == Seq::<u8>::empty(),
            s.pending_length() == 0,
    {
        Serializer { output: Vec::new(), length: 0, ic: ic1 }
    }

    /// Gives up the encoder and hands out its bytes.
    pub fn into_bytes(self) -> (r: Vec<u8>)
        ensures
            r@ == self.out(),
    {
        self.output
    }

    /// The element count pending for a block header written after the fact.
    pub fn current_length(&self) -> (r: i32)
        ensures
            r == self.pending_length(),
    {
        self.length
    }

    /// Counts one more element toward a block header written after the fact.
    pub fn bump_length(&mut self)
        requires
            old(self).pending_length() < i32::MAX,
        ensures
            final(self).out() == old(self).out(),
            final(self).pending_length() == old(self).pending_length() + 1,
    {
        self.length = self.length + 1;
    }

    /// Appends already-encoded bytes, as when a sub-encoder's output is
    /// folded into a container.
    pub fn append_payload(&mut self, bytes: &Vec<u8>)
        ensures
            final(self).out() == old(self).out() + bytes@,
            final(self).pending_length() == old(self).pending_length(),
    {
        let ghost base = self.output@;
        let mut i: usize = 0;
        while i < bytes.len()
            invariant
                0 <= i <= bytes@.len(),
                self.output@ == base + bytes@.take(i as int),
                self.length == old(self).length,
                self.ic == old(self).ic,
            decreases bytes@.len() - i,
        {
            self.output.push(bytes[i]);
            proof {
                assert(base + bytes@.take(i as int + 1) =~= (base + bytes@.take(i as int)).push(
                    bytes@[i as int],
                ));
            }
            i = i + 1;
        }
        proof {
            assert(bytes@.take(bytes@.len() as int) =~= bytes@);
        }
    }

    /// Appends the four little-endian bytes of a word.
    fn push_word(vec: &mut Vec<u8>, x: u32)
        ensures
            final(vec)@ == old(vec)@ + wire::le32(x),
    {
        vec.push((x & 0xFF) as u8);
        vec.push(((x >> 8) & 0xFF) as u8);
        vec.push(((x >> 16) & 0xFF) as u8);
        vec.push(((x >> 24) & 0xFF) as u8);
        proof {
            assert(vec@ =~= old(vec)@ + wire::le32(x));
        }
    }

    /// Appends a block or paren header: the tag word, a zero head position,
    /// and the element count.
    fn append_any_block_header(vec: &mut Vec<u8>, length: i32, paren: bool)
        ensures
            final(vec)@ == old(vec)@ + wire::tag_word(
                if paren {
                    wire::TAG_PAREN
                } else {
                    wire::TAG_BLOCK
                },
            ) + wire::le32(0) + wire::le32(length as u32),
    {
        let t: u8 = if paren {
            wire::TAG_PAREN
        } else {
            wire::TAG_BLOCK
        };
        vec.push(t);
        vec.push(0);
        vec.push(0);
        vec.push(0);
        let ghost mid = vec@;
        proof {
            assert(mid =~= old(vec)@ + wire::tag_word(t));
        }
        Self::push_word(vec, 0);
        Self::push_word(vec, length as u32);
        proof {
            assert(vec@ =~= old(vec)@ + wire::tag_word(t) + wire::le32(0) + wire::le32(
                length as u32,
            ));
        }
    }

    /// Appends a block header for `len` elements and records that count.
    pub fn block_header_with(&mut self, len: usize)
        requires
            len <= MAX_LENGTH,
        ensures
            final(self).out() == old(self).out() + wire::tag_word(wire::TAG_BLOCK) + wire::le32(0)
                + wire::le32(len as u32),
            final(self).pending_length() == len as i32,
    {
        Self::append_any_block_header(&mut self.output, len as i32, false);
        self.length = len as i32;
    }

    /// Appends the paren header that opens a tagged-union encoding: one
    /// element for a bare variant name, two when a payload follows.
    pub fn variant_header(&mut self, with_value: bool)
        ensures
            final(self).out() == old(self).out() + wire::tag_word(wire::TAG_PAREN) + wire::le32(0)
                + wire::le32(
                if with_value {
                    2
                } else {
                    1
                },
            ),
            final(self).pending_length() == if with_value {
                2int
            } else {
                1int
            },
    {
        let length: i32 = if with_value {
            2
        } else {
            1
        };
        Self::append_any_block_header(&mut self.output, length, true);
        self.length = length;
    }

    /// Moves a block header for the pending element count to the front of
    /// the buffer, for containers whose count is only known at their end.
    pub fn prepend_block_header(&mut self)
        ensures
            final(self).out() == wire::tag_word(wire::TAG_BLOCK) + wire::le32(0) + wire::le32(
                old(self).pending_length() as u32,
            ) + old(self).out(),
            final(self).pending_length() == old(self).pending_length(),
    {
        let mut header: Vec<u8> = Vec::new();
        Self::append_any_block_header(&mut header, self.length, false);
        proof {
            assert(Seq::<u8>::empty() + wire::tag_word(wire::TAG_BLOCK) + wire::le32(0)
                + wire::le32(old(self).pending_length() as u32) =~= wire::tag_word(wire::TAG_BLOCK)
                + wire::le32(0) + wire::le32(old(self).pending_length() as u32));
        }
        header.append(&mut self.output);
        self.output = header;
    }

    /// Appends a logic value: its tag word, then 1 or 0.
    pub fn serialize_bool(&mut self, v: bool)
        ensures
            final(self).out() == old(self).out() + wire::enc(ValueModel::Logic(v)),
            final(self).pending_length() == old(self).pending_length(),
    {
        self.output.push(wire::TAG_LOGIC);
        self.output.push(0);
        self.output.push(0);
        self.output.push(0);
        Self::push_word(
            &mut self.output,
            if v {
                1
            } else {
                0
            },
        );
        proof {
            assert(self.output@ =~= old(self).out() + wire::enc(ValueModel::Logic(v)));
        }
    }

    /// Appends an integer: its tag word, then the value little-endian.
    pub fn serialize_i32(&mut self, v: i32)
        ensures
            final(self).out() == old(self).out() + wire::enc(ValueModel::Integer(v)),
            final(self).pending_length() == old(self).pending_length(),
    {
        self.output.push(wire::TAG_INTEGER);
        self.output.push(0);
        self.output.push(0);
        self.output.push(0);
        Self::push_word(&mut self.output, v as u32);
        proof {
            assert(self.output@ =~= old(self).out() + wire::enc(ValueModel::Integer(v)));
        }
    }

    /// Appends a narrow signed integer through the shared 32-bit path.
    pub fn serialize_i8(&mut self, v: i8)
        ensures
            final(self).out() == old(self).out() + wire::enc(ValueModel::Integer(v as i32)),
            final(self).pending_length() == old(self).pending_length(),
    {
        self.serialize_i32(v as i32);
    }

    /// Appends a narrow signed integer through the shared 32-bit path.
    pub fn serialize_i16(&mut self, v: i16)
        ensures
            final(self).out() == old(self).out() + wire::enc(ValueModel::Integer(v as i32)),
            final(self).pending_length() == old(self).pending_length(),
    {
        self.serialize_i32(v as i32);
    }

    /// Appends a narrow unsigned integer through the shared 32-bit path.
    pub fn serialize_u8(&mut self, v: u8)
        ensures
            final(self).out() == old(self).out() + wire::enc(ValueModel::Integer(v as i32)),
            final(self).pending_length() == old(self).pending_length(),
    {
        self.serialize_i32(v as i32);
    }

    /// Appends a narrow unsigned integer through the shared 32-bit path.
    pub fn serialize_u16(&mut self, v: u16)
        ensures
            final(self).out() == old(self).out() + wire::enc(ValueModel::Integer(v as i32)),
            final(self).pending_length() == old(self).pending_length(),
    {
        self.serialize_i32(v as i32);
    }

    /// Appends a 64-bit signed integer when it fits the wire's 32-bit
    /// integer, and otherwise reports that the width was exceeded.
    pub fn serialize_i64(&mut self, v: i64) -> (r: Result<(), Error>)
        ensures
            i32::MIN <= v <= i32::MAX ==> r is Ok && final(self).out() == old(self).out()
                + wire::enc(ValueModel::Integer(v as i32)),
            !(i32::MIN <= v <= i32::MAX) ==> r == Result::<(), Error>::Err(
                Error::WidthExceeded(IntWidth::I32),
            ) && final(self).out() == old(self).out(),
            final(self).pending_length() == old(self).pending_length(),
    {
        if v > (i32::MAX as i64) || v < (i32::MIN as i64) {
            Err(Error::WidthExceeded(IntWidth::I32))
        } else {
            self.serialize_i32(v as i32);
            Ok(())
        }
    }

    /// Appends a 32-bit unsigned integer when it fits the wire's signed
    /// 32-bit integer, and otherwise reports that the width was exceeded.
    pub fn serialize_u32(&mut self, v: u32) -> (r: Result<(), Error>)
        ensures
            v <= i32::MAX ==> r is Ok && final(self).out() == old(self).out() + wire::enc(
                ValueModel::Integer(v as i32),
            ),
            v > i32::MAX ==> r == Result::<(), Error>::Err(Error::WidthExceeded(IntWidth::I32))
                && final(self).out() == old(self).out(),
            final(self).pending_length() == old(self).pending_length(),
    {
        if v > (i32::MAX as u32) {
            Err(Error::WidthExceeded(IntWidth::I32))
        } else {
            self.serialize_i32(v as i32);
            Ok(())
        }
    }

    /// Appends a 64-bit unsigned integer when it fits the wire's signed
    /// 32-bit integer, and otherwise reports that the width was exceeded.
    ///
    /// The two directions are deliberately asymmetric, as the producing
    /// runtime's are: decoding reads 64-bit unsigned values from an
    /// eight-byte binary blob, while encoding only writes ones small enough
    /// for the ordinary integer path.
    pub fn serialize_u64(&mut self, v: u64) -> (r: Result<(), Error>)
        ensures
            v <= i32::MAX ==> r is Ok && final(self).out() == old(self).out() + wire::enc(
                ValueModel::Integer(v as i32),
            ),
            v > i32::MAX ==> r == Result::<(), Error>::Err(Error::WidthExceeded(IntWidth::I32))
                && final(self).out() == old(self).out(),
            final(self).pending_length() == old(self).pending_length(),
    {
        if v > (i32::MAX as u64) {
            Err(Error::WidthExceeded(IntWidth::I32))
        } else {
            self.serialize_i32(v as i32);
            Ok(())
        }
    }

    /// Appends a float given as the bit pattern of its 64-bit IEEE-754
    /// representation: the tag word, then the pattern's high word before its
    /// low word, each little-endian within itself.
    pub fn serialize_f64(&mut self, bits: u64)
        ensures
            final(self).out() == old(self).out() + wire::enc(ValueModel::Float(bits)),
            final(self).pending_length() == old(self).pending_length(),
    {
        self.output.push(wire::TAG_FLOAT);
        self.output.push(0);
        self.output.push(0);
        self.output.push(0);
        Self::push_word(&mut self.output, (bits >> 32) as u32);
        Self::push_word(&mut self.output, bits as u32);
        proof {
            assert(self.output@ =~= old(self).out() + wire::enc(ValueModel::Float(bits)));
        }
    }

    /// Appends a char: the tag word, then its scalar value as one UCS-4LE
    /// code unit.
    pub fn serialize_char(&mut self, v: char)
        ensures
            final(self).out() == old(self).out() + wire::enc(ValueModel::Char(v)),
            final(self).pending_length() == old(self).pending_length(),
    {
        self.output.push(wire::TAG_CHAR);
        self.output.push(0);
        self.output.push(0);
        self.output.push(0);
        Self::push_word(&mut self.output, v as u32);
        proof {
            assert(self.output@ =~= old(self).out() + wire::enc(ValueModel::Char(v)));
        }
    }

    /// Appends the none sentinel: its tag word alone.
    pub fn serialize_none(&mut self)
        ensures
            final(self).out() == old(self).out() + wire::enc(ValueModel::NoneVal),
            final(self).pending_length() == old(self).pending_length(),
    {
        self.output.push(wire::TAG_NONE);
        self.output.push(0);
        self.output.push(0);
        self.output.push(0);
        proof {
            assert(self.output@ =~= old(self).out() + wire::enc(ValueModel::NoneVal));
        }
    }

    /// Appends a string. Text whose characters are all ASCII takes the
    /// one-byte-unit fast path, padded to a four-byte boundary; any other
    /// text is re-encoded as UCS-4LE under unit width 4.
    pub fn serialize_str(&mut self, v: &Vec<char>)
        requires
            v@.len() <= MAX_LENGTH,
        ensures
            final(self).out() == old(self).out() + wire::enc_string(v@),
            final(self).pending_length() == old(self).pending_length(),
    {
        let n: usize = v.len();
        let mut ascii = true;
        let mut i: usize = 0;
        while i < n
            invariant
                n == v@.len(),
                0 <= i <= n,
                ascii == (forall|j: int| 0 <= j < i ==> (#[trigger] v@[j] as u32) <= 0x7F),
            decreases n - i,
        {
            let cu: u32 = v[i] as u32;
            if cu > 0x7F {
                ascii = false;
            }
            i = i + 1;
        }
        proof {
            if ascii {
                assert forall|j: int| 0 <= j < v@.len() implies '\0' <= #[trigger] v@[j]
                    <= '\u{7f}' by {
                    let u = v@[j] as u32;
                    assert(u <= 0x7F);
                    vstd::utf8::char_u32_cast(v@[j], u);
                    assert(v@[j] == u as char);
                }
                assert(vstd::utf8::is_ascii_chars(v@));
            } else {
                let j = choose|j: int| 0 <= j < v@.len() && (#[trigger] v@[j] as u32) > 0x7F;
                assert(!('\0' <= v@[j] <= '\u{7f}'));
                assert(!vstd::utf8::is_ascii_chars(v@));
            }
        }
        self.output.push(wire::TAG_STRING);
        self.output.push(
            if ascii {
                1
            } else {
                4
            },
        );
        self.output.push(0);
        self.output.push(0);
        Self::push_word(&mut self.output, 0);
        Self::push_word(&mut self.output, n as u32);
        let ghost base = self.output@;
        if ascii {
            let mut k: usize = 0;
            while k < n
                invariant
                    n == v@.len(),
                    0 <= k <= n,
                    self.output@ == base + text::ascii_bytes(v@).take(k as int),
                    self.length == old(self).length,
                    self.ic == old(self).ic,
                decreases n - k,
            {
                self.output.push(v[k] as u8);
                proof {
                    assert(base + text::ascii_bytes(v@).take(k as int + 1) =~= (base
                        + text::ascii_bytes(v@).take(k as int)).push(v@[k as int] as u8));
                }
                k = k + 1;
            }
            proof {
                assert(text::ascii_bytes(v@).take(n as int) =~= text::ascii_bytes(v@));
            }
            let pad: usize = (4 - (n % 4)) % 4;
            let ghost base2 = self.output@;
            let mut p: usize = 0;
            while p < pad
                invariant
                    0 <= p <= pad,
                    self.output@ == base2 + wire::zeros(p as int),
                    self.length == old(self).length,
                    self.ic == old(self).ic,
                decreases pad - p,
            {
                self.output.push(0);
                proof {
                    assert(base2 + wire::zeros(p as int + 1) =~= (base2 + wire::zeros(
                        p as int,
                    )).push(0u8));
                }
                p = p + 1;
            }
            proof {
                assert(pad == wire::pad4(n as int));
                assert(self.output@ =~= old(self).out() + wire::enc_string(v@));
            }
        } else {
            let mut enc4 = self.ic.ucs4_encode(v);
            self.output.append(&mut enc4);
            proof {
                assert(self.output@ =~= old(self).out() + wire::enc_string(v@));
            }
        }
    }

    /// Appends a binary blob: the binary tag with unit width 1, a zero head
    /// position, the byte count, the bytes, and padding to a four-byte
    /// boundary.
    pub fn serialize_bytes(&mut self, v: &Vec<u8>)
        requires
            v@.len() <= MAX_LENGTH,
        ensures
            final(self).out() == old(self).out() + wire::enc_binary(v@),
            final(self).pending_length() == old(self).pending_length(),
    {
        let n: usize = v.len();
        self.output.push(wire::TAG_BINARY);
        self.output.push(1);
        self.output.push(0);
        self.output.push(0);
        Self::push_word(&mut self.output, 0);
        Self::push_word(&mut self.output, n as u32);
        let ghost base = self.output@;
        let mut k: usize = 0;
        while k < n
            invariant
                n == v@.len(),
                0 <= k <= n,
                self.output@ == base + v@.take(k as int),
                self.length == old(self).length,
                self.ic == old(self).ic,
            decreases n - k,
        {
            self.output.push(v[k]);
            proof {
                assert(base + v@.take(k as int + 1) =~= (base + v@.take(k as int)).push(
                    v@[k as int],
                ));
            }
            k = k + 1;
        }
        proof {
            assert(v@.take(n as int) =~= v@);
        }
        let pad: usize = (4 - (n % 4)) % 4;
        let ghost base2 = self.output@;
        let mut p: usize = 0;
        while p < pad
            invariant
                0 <= p <= pad,
                self.output@ == base2 + wire::zeros(p as int),
                self.length == old(self).length,
                self.ic == old(self).ic,
            decreases pad - p,
        {
            self.output.push(0);
            proof {
                assert(base2 + wire::zeros(p as int + 1) =~= (base2 + wire::zeros(p as int)).push(
                    0u8,
                ));
            }
            p = p + 1;
        }
        proof {
            assert(pad == wire::pad4(n as int));
            assert(self.output@ =~= old(self).out() + wire::enc_binary(v@));
        }
    }

    /// Appends one whole value tree, depth first.
    pub fn encode_value(&mut self, value: &Value)
        requires
            wf(value@),
        ensures
            final(self).out() == old(self).out() + wire::enc(value@),
            final(self).pending_length() == old(self).pending_length(),
        decreases *value, 0int,
    {
        match value {
            Value::NoneVal => self.serialize_none(),
            Value::Logic(b) => self.serialize_bool(*b),
            Value::Integer(i) => self.serialize_i32(*i),
            Value::Float(bits) => self.serialize_f64(*bits),
            Value::Char(c) => self.serialize_char(*c),
            Value::Str(s) => self.serialize_str(s),
            Value::Binary(bs) => self.serialize_bytes(bs),
            Value::Block(vs) => {
                proof {
                    crate::value::lemma_all_wf_elems(*vs);
                }
                self.encode_container(vs, false);
            },
            Value::Paren(vs) => {
                proof {
                    crate::value::lemma_all_wf_elems(*vs);
                }
                self.encode_container(vs, true);
            },
        }
    }

    /// Appends a container: its header, then each element in order.
    fn encode_container(&mut self, vs: &Vec<Value>, paren: bool)
        requires
            vs@.len() <= MAX_LENGTH,
            forall|i: int| 0 <= i < vs@.len() ==> wf(#[trigger] view_value(vs@[i])),
        ensures
            final(self).out() == old(self).out() + wire::tag_word(
                if paren {
                    wire::TAG_PAREN
                } else {
                    wire::TAG_BLOCK
                },
            ) + wire::le32(0) + wire::le32(vs@.len() as u32) + wire::enc_elems(view_elems(*vs)),
            final(self).pending_length() == old(self).pending_length(),
        decreases *vs, 1int,
    {
        let n: usize = vs.len();
        Self::append_any_block_header(&mut self.output, n as i32, paren);
        let ghost base = self.output@;
        let mut i: usize = 0;
        while i < n
            invariant
                n == vs@.len(),
                n <= MAX_LENGTH,
                0 <= i <= n,
                forall|j: int| 0 <= j < vs@.len() ==> wf(#[trigger] view_value(vs@[j])),
                self.output@ == base + wire::enc_elems(view_elems(*vs).take(i as int)),
                self.length == old(self).length,
            decreases n - i,
        {
            proof {
                assert(view_elems(*vs)[i as int] == view_value(vs@[i as int]));
            }
            self.encode_value(&vs[i]);
            proof {
                wire::lemma_enc_elems_push(
                    view_elems(*vs).take(i as int),
                    view_elems(*vs)[i as int],
                );
                assert(view_elems(*vs).take(i as int).push(view_elems(*vs)[i as int]) =~= view_elems(
                    *vs,
                ).take(i as int + 1));
            }
            i = i + 1;
        }
        proof {
            assert(view_elems(*vs).take(n as int) =~= view_elems(*vs));
        }
    }
}

/// Encodes one value as a complete wire message: the envelope, then the
/// value. Fails only on a value too large for the format's length fields.
pub fn to_bytes(value: &Value) -> (r: Result<Vec<u8>, Error>)
    ensures
        wf(value@) ==> (r matches Ok(out) && out@ == wire::encode_spec(value@)),
        !wf(value@) ==> r == Result::<Vec<u8>, Error>::Err(Error::LengthOverflow),
{
    to_bytes_with(TextCodec::new(), value)
}

/// Encodes one value as a complete wire message with a caller-supplied
/// encoding context.
pub fn to_bytes_with(ic: TextCodec, value: &Value) -> (r: Result<Vec<u8>, Error>)
    ensures
        wf(value@) ==> (r matches Ok(out) && out@ == wire::encode_spec(value@)),
        !wf(value@) ==> r == Result::<Vec<u8>, Error>::Err(Error::LengthOverflow),
{
    if !value.is_wf() {
        return Err(Error::LengthOverflow);
    }
    let mut serializer = Serializer::new_with(ic);
    serializer.encode_value(value);
    let payload = serializer.into_bytes();
    Ok(wrap_envelope(payload))
}

/// Wraps an encoded payload in the envelope: the magic bytes, the format
/// version, a zero flags byte, a record count of one, and the payload's
/// byte length.
pub fn wrap_envelope(payload: Vec<u8>) -> (r: Vec<u8>)
    ensures
        r@ == wire::envelope(payload@.len() as u32) + payload@,
{
    let mut payload = payload;
    let ghost orig = payload@;
    let mut out: Vec<u8> = Vec::new();
    out.push(0x52);
    out.push(0x45);
    out.push(0x44);
    out.push(0x42);
    out.push(0x49);
    out.push(0x4E);
    out.push(wire::VERSION_BYTE);
    out.push(0x00);
    Serializer::push_word(&mut out, 1);
    Serializer::push_word(&mut out, payload.len() as u32);
    out.append(&mut payload);
    proof {
        assert(out@ =~= wire::envelope(orig.len() as u32) + orig);
    }
    out
}

} // verus!
