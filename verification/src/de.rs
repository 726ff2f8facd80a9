use vstd::prelude::*;
use crate::error::Error;
use crate::error::IntWidth;
use crate::text::TextCodec;
use crate::value::Value;
use crate::wire;

verus! {

/// The decoder: an exclusively owned cursor over the undecoded bytes, and
/// the encoding context that turns wire text back into characters.
pub struct Deserializer {
    input: Vec<u8>,
    pos: usize,
    ic: TextCodec,
}

/// Decodes one complete wire message into a value: envelope validation, one
/// value, and an error if any bytes trail it.
pub fn from_bytes(s: &[u8]) -> (r: Result<Value, Error>)
    ensures
        (r matches Ok(v) ==> wire::decode_spec(s@) matches Ok(m) && v@ == m),
        (r matches Err(e) ==> wire::decode_spec(s@) == Result::<crate::value::ValueModel,
            Error,
        >::Err(e)),
{
    let mut deserializer = Deserializer::from_bytes(s);
    match deserializer.parse_header() {
        Err(e) => Err(e),
        Ok(_) => match deserializer.decode_value() {
            Err(e) => Err(e),
            Ok(v) => {
                if deserializer.remaining_len() == 0 {
                    Ok(v)
                } else {
                    Err(Error::TrailingBytes)
                }
            },
        },
    }
}

impl Deserializer {
    /// The bytes not yet consumed.
    pub closed spec fn remaining(&self) -> Seq<u8> {
        self.input@.skip(self.pos as int)
    }

    /// The cursor sits inside its buffer.
    pub closed spec fn wf(&self) -> bool {
        self.pos <= self.input@.len()
    }

    /// Makes a decoder over a copy of the given bytes, with its own
    /// conversion service.
    pub fn from_bytes(input: &[u8]) -> (d: Deserializer)
        ensures
            d.wf(),
            d.remaining() == input@,
    {
        let d = Deserializer { input: vstd::slice::slice_to_vec(input), pos: 0, ic: TextCodec::new() };
        proof {
            assert(d.remaining() =~= input@);
        }
        d
    }

    /// How many bytes are not yet consumed.
    pub fn remaining_len(&self) -> (n: usize)
        requires
            self.wf(),
        ensures
            n == self.remaining().len(),
    {
        self.input.len() - self.pos
    }

    /// Consumes `k` bytes.
    fn advance(&mut self, k: usize)
        requires
            old(self).wf(),
            k <= old(self).remaining().len(),
        ensures
            final(self).wf(),
            final(self).remaining() == old(self).remaining().skip(k as int),
    {
        proof {
            assert(self.input.len() == self.input@.len());
        }
        self.pos = self.pos + k;
        proof {
            assert(self.input@.skip(self.pos as int) =~= old(self).remaining().skip(k as int));
        }
    }

    /// The byte `k` places ahead of the cursor.
    fn peek(&self, k: usize) -> (b: u8)
        requires
            self.wf(),
            k < self.remaining().len(),
        ensures
            b == self.remaining()[k as int],
    {
        proof {
            assert(self.input.len() == self.input@.len());
        }
        self.input[self.pos + k]
    }

    /// The little-endian word `off` bytes ahead of the cursor.
    fn read_word(&self, off: usize) -> (x: u32)
        requires
            self.wf(),
            off + 4 <= self.remaining().len(),
        ensures
            x == wire::read_le32(self.remaining(), off as int),
    {
        proof {
            assert(self.input.len() == self.input@.len());
        }
        let b0: u8 = self.input[self.pos + off];
        let b1: u8 = self.input[self.pos + off + 1];
        let b2: u8 = self.input[self.pos + off + 2];
        let b3: u8 = self.input[self.pos + off + 3];
        (b0 as u32) | ((b1 as u32) << 8) | ((b2 as u32) << 16) | ((b3 as u32) << 24)
    }

    /// Skips the run of zero padding bytes at the cursor.
    pub fn parse_padding(&mut self)
        requires
            old(self).wf(),
        ensures
            final(self).wf(),
            final(self).remaining() == wire::skip_pad(old(self).remaining()),
    {
        while self.pos < self.input.len() && self.input[self.pos] == 0
            invariant
                self.wf(),
                wire::skip_pad(self.remaining()) == wire::skip_pad(old(self).remaining()),
                self.input@ == old(self).input@,
            decreases self.input@.len() - self.pos,
        {
            proof {
                assert(self.remaining()[0] == 0);
                assert(self.remaining().drop_first() =~= self.input@.skip(self.pos as int + 1));
            }
            self.pos = self.pos + 1;
        }
        proof {
            if self.pos < self.input@.len() {
                assert(self.remaining()[0] != 0);
            }
            wire::lemma_skip_pad_nonzero(self.remaining());
        }
    }

    /// Decodes a none sentinel.
    pub fn parse_none(&mut self) -> (r: Result<(), Error>)
        requires
            old(self).wf(),
        ensures
            final(self).wf(),
            (r matches Ok(u) ==> wire::dec_none(old(self).remaining()) matches Ok(rest)
                && rest == final(self).remaining()),
            (r matches Err(e) ==> wire::dec_none(old(self).remaining()) == Result::<
                Seq<u8>,
                Error,
            >::Err(e) && final(self).remaining() == wire::skip_pad(old(self).remaining())),
    {
        self.parse_padding();
        let n = self.remaining_len();
        if n == 0 {
            return Err(Error::Truncated);
        }
        if self.peek(0) != wire::TAG_NONE {
            return Err(Error::ExpectedNone);
        }
        if n < 4 {
            return Err(Error::Truncated);
        }
        self.advance(4);
        Ok(())
    }

    /// Decodes the shared one-word scalar shape: a full tag word, then the
    /// payload word.
    fn parse_word_scalar(&mut self, t: u8, e: Error) -> (r: Result<u32, Error>)
        requires
            old(self).wf(),
        ensures
            final(self).wf(),
            (r matches Ok(w) ==> wire::dec_word(t, e, old(self).remaining()) matches Ok(p)
                && p.0 == w && p.1 == final(self).remaining()),
            (r matches Err(e2) ==> wire::dec_word(t, e, old(self).remaining()) == Result::<
                (u32, Seq<u8>),
                Error,
            >::Err(e2) && final(self).remaining() == wire::skip_pad(old(self).remaining())),
    {
        self.parse_padding();
        let n = self.remaining_len();
        if n < 4 {
            return Err(Error::Truncated);
        }
        if !(self.peek(0) == t && self.peek(1) == 0 && self.peek(2) == 0 && self.peek(3) == 0) {
            return Err(e);
        }
        if n < 8 {
            return Err(Error::Truncated);
        }
        let w = self.read_word(4);
        self.advance(8);
        Ok(w)
    }

    /// Decodes a logic value: any nonzero payload word is true.
    pub fn parse_logic(&mut self) -> (r: Result<bool, Error>)
        requires
            old(self).wf(),
        ensures
            final(self).wf(),
            (r matches Ok(v) ==> wire::dec_logic(old(self).remaining()) matches Ok(p) && p.0 == v
                && p.1 == final(self).remaining()),
            (r matches Err(e) ==> wire::dec_logic(old(self).remaining()) == Result::<
                (bool, Seq<u8>),
                Error,
            >::Err(e) && final(self).remaining() == wire::skip_pad(old(self).remaining())),
    {
        match self.parse_word_scalar(wire::TAG_LOGIC, Error::ExpectedLogic) {
            Err(e) => Err(e),
            Ok(w) => Ok(w != 0),
        }
    }

    /// Decodes an integer: the payload word read as a signed 32-bit value.
    pub fn parse_integer(&mut self) -> (r: Result<i32, Error>)
        requires
            old(self).wf(),
        ensures
            final(self).wf(),
            (r matches Ok(v) ==> wire::dec_integer(old(self).remaining()) matches Ok(p) && p.0 == v
                && p.1 == final(self).remaining()),
            (r matches Err(e) ==> wire::dec_integer(old(self).remaining()) == Result::<
                (i32, Seq<u8>),
                Error,
            >::Err(e) && final(self).remaining() == wire::skip_pad(old(self).remaining())),
    {
        match self.parse_word_scalar(wire::TAG_INTEGER, Error::ExpectedInteger) {
            Err(e) => Err(e),
            Ok(w) => Ok(w as i32),
        }
    }

    /// Decodes a float into the bit pattern of its 64-bit IEEE-754
    /// representation, undoing the word swap: the high word is stored before
    /// the low word.
    pub fn parse_float(&mut self) -> (r: Result<u64, Error>)
        requires
            old(self).wf(),
        ensures
            final(self).wf(),
            (r matches Ok(bits) ==> wire::dec_float(old(self).remaining()) matches Ok(p) && p.0
                == bits && p.1 == final(self).remaining()),
            (r matches Err(e) ==> wire::dec_float(old(self).remaining()) == Result::<
                (u64, Seq<u8>),
                Error,
            >::Err(e) && final(self).remaining() == wire::skip_pad(old(self).remaining())),
    {
        self.parse_padding();
        let n = self.remaining_len();
        if n < 4 {
            return Err(Error::Truncated);
        }
        if !(self.peek(0) == wire::TAG_FLOAT && self.peek(1) == 0 && self.peek(2) == 0 && self.peek(
            3,
        ) == 0) {
            return Err(Error::ExpectedFloat);
        }
        if n < 12 {
            return Err(Error::Truncated);
        }
        let hi = self.read_word(4);
        let lo = self.read_word(8);
        self.advance(12);
        Ok(((hi as u64) << 32) | (lo as u64))
    }

    /// Decodes a char: one UCS-4LE code unit, which must be a Unicode
    /// scalar value.
    pub fn parse_char(&mut self) -> (r: Result<char, Error>)
        requires
            old(self).wf(),
        ensures
            final(self).wf(),
            (r matches Ok(c) ==> wire::dec_char(old(self).remaining()) matches Ok(p) && p.0 == c
                && p.1 == final(self).remaining()),
            (r matches Err(e) ==> wire::dec_char(old(self).remaining()) == Result::<
                (char, Seq<u8>),
                Error,
            >::Err(e) && final(self).remaining() == wire::skip_pad(old(self).remaining())),
    {
        self.parse_padding();
        let n = self.remaining_len();
        if n == 0 {
            return Err(Error::Truncated);
        }
        if self.peek(0) != wire::TAG_CHAR {
            return Err(Error::ExpectedChar);
        }
        if n < 8 {
            return Err(Error::Truncated);
        }
        let u = self.read_word(4);
        if !(u < 0xD800 || (0xDFFF < u && u <= 0x10FFFF)) {
            proof {
                assert(!vstd::utf8::is_scalar(u));
            }
            return Err(Error::TranscodingFailure);
        }
        proof {
            assert(vstd::utf8::is_scalar(u));
        }
        match char::from_u32(u) {
            Option::Some(c) => {
                proof {
                    vstd::utf8::char_u32_cast(c, u);
                }
                self.advance(8);
                Ok(c)
            },
            Option::None => {
                proof {
                    assert(false);
                }
                Err(Error::TranscodingFailure)
            },
        }
    }

    /// Decodes a block or paren header and returns its element count.
    pub fn parse_any_block_header(&mut self, record_type: u8) -> (r: Result<u32, Error>)
        requires
            old(self).wf(),
        ensures
            final(self).wf(),
            (r matches Ok(count) ==> wire::dec_header(
                record_type,
                if record_type == wire::TAG_PAREN {
                    Error::ExpectedParen
                } else {
                    Error::ExpectedBlock
                },
                old(self).remaining(),
            ) matches Ok(p) && p.0 == count && p.1 == final(self).remaining()),
            (r matches Err(e) ==> wire::dec_header(
                record_type,
                if record_type == wire::TAG_PAREN {
                    Error::ExpectedParen
                } else {
                    Error::ExpectedBlock
                },
                old(self).remaining(),
            ) == Result::<(u32, Seq<u8>), Error>::Err(e) && final(self).remaining()
                == wire::skip_pad(old(self).remaining())),
    {
        self.parse_padding();
        let n = self.remaining_len();
        if n < 4 {
            return Err(Error::Truncated);
        }
        if !(self.peek(0) == record_type && self.peek(1) == 0 && self.peek(2) == 0 && self.peek(3)
            == 0) {
            if record_type == wire::TAG_PAREN {
                return Err(Error::ExpectedParen);
            } else {
                return Err(Error::ExpectedBlock);
            }
        }
        if n < 12 {
            return Err(Error::Truncated);
        }
        let count = self.read_word(8);
        self.advance(12);
        Ok(count)
    }

    /// Decodes a block header.
    pub fn parse_block_header(&mut self) -> (r: Result<u32, Error>)
        requires
            old(self).wf(),
        ensures
            final(self).wf(),
            (r matches Ok(count) ==> wire::dec_header(
                wire::TAG_BLOCK,
                Error::ExpectedBlock,
                old(self).remaining(),
            ) matches Ok(p) && p.0 == count && p.1 == final(self).remaining()),
            (r matches Err(e) ==> wire::dec_header(
                wire::TAG_BLOCK,
                Error::ExpectedBlock,
                old(self).remaining(),
            ) == Result::<(u32, Seq<u8>), Error>::Err(e) && final(self).remaining()
                == wire::skip_pad(old(self).remaining())),
    {
        self.parse_any_block_header(wire::TAG_BLOCK)
    }

    /// Decodes a paren header.
    pub fn parse_paren_header(&mut self) -> (r: Result<u32, Error>)
        requires
            old(self).wf(),
        ensures
            final(self).wf(),
            (r matches Ok(count) ==> wire::dec_header(
                wire::TAG_PAREN,
                Error::ExpectedParen,
                old(self).remaining(),
            ) matches Ok(p) && p.0 == count && p.1 == final(self).remaining()),
            (r matches Err(e) ==> wire::dec_header(
                wire::TAG_PAREN,
                Error::ExpectedParen,
                old(self).remaining(),
            ) == Result::<(u32, Seq<u8>), Error>::Err(e) && final(self).remaining()
                == wire::skip_pad(old(self).remaining())),
    {
        self.parse_any_block_header(wire::TAG_PAREN)
    }

    /// Validates the envelope: the magic bytes, the format version and the
    /// record count; the flags byte and the payload length field are read
    /// but not constrained.
    pub fn parse_header(&mut self) -> (r: Result<(), Error>)
        requires
            old(self).wf(),
        ensures
            final(self).wf(),
            (r matches Ok(u) ==> wire::dec_envelope(old(self).remaining()) matches Ok(rest)
                && rest == final(self).remaining()),
            (r matches Err(e) ==> wire::dec_envelope(old(self).remaining()) == Result::<
                Seq<u8>,
                Error,
            >::Err(e) && final(self).remaining() == old(self).remaining()),
    {
        let n = self.remaining_len();
        if n < 16 {
            return Err(Error::Truncated);
        }
        if !(self.peek(0) == 0x52 && self.peek(1) == 0x45 && self.peek(2) == 0x44 && self.peek(3)
            == 0x42 && self.peek(4) == 0x49 && self.peek(5) == 0x4E) {
            proof {
                if self.remaining().subrange(0, 6) == wire::magic() {
                    assert(self.remaining()[0] == wire::magic()[0]);
                    assert(self.remaining()[1] == wire::magic()[1]);
                    assert(self.remaining()[2] == wire::magic()[2]);
                    assert(self.remaining()[3] == wire::magic()[3]);
                    assert(self.remaining()[4] == wire::magic()[4]);
                    assert(self.remaining()[5] == wire::magic()[5]);
                }
            }
            return Err(Error::BadMagic);
        }
        proof {
            assert(self.remaining().subrange(0, 6) =~= wire::magic());
        }
        if self.peek(6) != wire::VERSION_BYTE {
            return Err(Error::UnsupportedVersion);
        }
        if self.read_word(8) != 1 {
            return Err(Error::UnsupportedRecordCount);
        }
        self.advance(16);
        Ok(())
    }

    /// Decodes the shared string/binary shape and hands back the unit width
    /// and the raw payload bytes.
    fn parse_payload(&mut self, t: u8, e: Error, binary: bool) -> (r: Result<(u8, Vec<u8>), Error>)
        requires
            old(self).wf(),
        ensures
            final(self).wf(),
            (r matches Ok(p) ==> wire::dec_payload(t, e, binary, old(self).remaining()) matches Ok(
                q,
            ) && q.0 == p.0 && q.1 == p.1@ && q.2 == final(self).remaining()),
            (r matches Err(e2) ==> wire::dec_payload(t, e, binary, old(self).remaining())
                == Result::<(u8, Seq<u8>, Seq<u8>), Error>::Err(e2) && final(self).remaining()
                == wire::skip_pad(old(self).remaining())),
    {
        self.parse_padding();
        let n = self.remaining_len();
        if n == 0 {
            return Err(Error::Truncated);
        }
        if self.peek(0) != t {
            return Err(e);
        }
        if n < 12 {
            return Err(Error::Truncated);
        }
        let unit = self.peek(1);
        if self.peek(2) & wire::REFERENCE_FLAG != 0 {
            return Err(Error::UnsupportedReference);
        }
        if binary && unit != 1 {
            return Err(Error::UnsupportedUnitWidth);
        }
        if !binary && !(unit == 1 || unit == 2 || unit == 4) {
            return Err(Error::UnsupportedUnitWidth);
        }
        let length = self.read_word(8);
        let need: u64 = (length as u64) * (unit as u64);
        if need > (n - 12) as u64 {
            return Err(Error::Truncated);
        }
        let m: usize = need as usize;
        let ghost c = self.remaining();
        proof {
            assert(self.input.len() == self.input@.len());
        }
        let mut content: Vec<u8> = Vec::new();
        let mut k: usize = 0;
        while k < m
            invariant
                self.wf(),
                self.remaining() == c,
                12 + m <= c.len(),
                c.len() <= usize::MAX,
                0 <= k <= m,
                content@ == c.subrange(12, 12 + k as int),
            decreases m - k,
        {
            let b = self.peek(12 + k);
            content.push(b);
            proof {
                assert(c.subrange(12, 12 + k as int + 1) =~= c.subrange(12, 12 + k as int).push(
                    c[12 + k as int],
                ));
            }
            k = k + 1;
        }
        self.advance(12 + m);
        self.parse_padding();
        Ok((unit, content))
    }

    /// Decodes a string in whichever unit width its header declares.
    ///
    /// A transcoding error surfaces after the payload was consumed, so on an
    /// error the cursor may stand mid-value; a failed decode abandons the
    /// whole input.
    pub fn parse_string(&mut self) -> (r: Result<Vec<char>, Error>)
        requires
            old(self).wf(),
        ensures
            final(self).wf(),
            (r matches Ok(s) ==> wire::dec_string(old(self).remaining()) matches Ok(p) && p.0 == s@
                && p.1 == final(self).remaining()),
            (r matches Err(e) ==> wire::dec_string(old(self).remaining()) == Result::<
                (Seq<char>, Seq<u8>),
                Error,
            >::Err(e)),
    {
        match self.parse_payload(wire::TAG_STRING, Error::ExpectedString, false) {
            Err(e) => Err(e),
            Ok((unit, content)) => {
                let conv = if unit == 1 {
                    self.ic.utf8_decode(&content)
                } else if unit == 2 {
                    self.ic.ucs2_decode(&content)
                } else {
                    self.ic.ucs4_decode(&content)
                };
                match conv {
                    Ok(s) => Ok(s),
                    Err(e) => Err(e),
                }
            },
        }
    }

    /// Decodes a binary blob.
    pub fn parse_binary(&mut self) -> (r: Result<Vec<u8>, Error>)
        requires
            old(self).wf(),
        ensures
            final(self).wf(),
            (r matches Ok(bs) ==> wire::dec_binary(old(self).remaining()) matches Ok(p) && p.0
                == bs@ && p.1 == final(self).remaining()),
            (r matches Err(e) ==> wire::dec_binary(old(self).remaining()) == Result::<
                (Seq<u8>, Seq<u8>),
                Error,
            >::Err(e) && final(self).remaining() == wire::skip_pad(old(self).remaining())),
    {
        match self.parse_payload(wire::TAG_BINARY, Error::ExpectedBinary, true) {
            Err(e) => Err(e),
            Ok((unit, content)) => Ok(content),
        }
    }

    /// Decodes an option's front: consumes a none sentinel and reports
    /// absence, or leaves any other value in place.
    pub fn parse_option(&mut self) -> (r: Result<bool, Error>)
        requires
            old(self).wf(),
        ensures
            final(self).wf(),
            (r matches Ok(none) ==> wire::dec_option(old(self).remaining()) matches Ok(p) && p.0
                == none && p.1 == final(self).remaining()),
            (r matches Err(e) ==> wire::dec_option(old(self).remaining()) == Result::<
                (bool, Seq<u8>),
                Error,
            >::Err(e) && final(self).remaining() == wire::skip_pad(old(self).remaining())),
    {
        self.parse_padding();
        let n = self.remaining_len();
        if n == 0 {
            return Err(Error::Truncated);
        }
        if self.peek(0) == wire::TAG_NONE {
            if n < 4 {
                return Err(Error::Truncated);
            }
            self.advance(4);
            Ok(true)
        } else {
            Ok(false)
        }
    }

    /// Decodes a map's opening block header, rejecting an odd element count
    /// before any key or value is consumed.
    pub fn parse_map_header(&mut self) -> (r: Result<u32, Error>)
        requires
            old(self).wf(),
        ensures
            final(self).wf(),
            (r matches Ok(count) ==> wire::dec_map_header(old(self).remaining()) matches Ok(p)
                && p.0 == count && count % 2 == 0 && p.1 == final(self).remaining()),
            (r matches Err(e) ==> wire::dec_map_header(old(self).remaining()) == Result::<
                (u32, Seq<u8>),
                Error,
            >::Err(e)),
    {
        match self.parse_block_header() {
            Err(e) => Err(e),
            Ok(count) => {
                if count % 2 != 0 {
                    Err(Error::UnevenMapLength)
                } else {
                    Ok(count)
                }
            },
        }
    }

    /// Decodes a tagged union's opening paren header, whose element count
    /// must be 1 or 2.
    pub fn parse_enum_header(&mut self) -> (r: Result<u32, Error>)
        requires
            old(self).wf(),
        ensures
            final(self).wf(),
            (r matches Ok(count) ==> wire::dec_enum_header(old(self).remaining()) matches Ok(p)
                && p.0 == count && (count == 1 || count == 2) && p.1 == final(self).remaining()),
            (r matches Err(e) ==> wire::dec_enum_header(old(self).remaining()) == Result::<
                (u32, Seq<u8>),
                Error,
            >::Err(e)),
    {
        match self.parse_paren_header() {
            Err(e) => Err(e),
            Ok(count) => {
                if count == 1 || count == 2 {
                    Ok(count)
                } else {
                    Err(Error::MalformedEnumArity)
                }
            },
        }
    }

    /// Decodes an integer and range-checks it against the 8-bit signed
    /// width.
    pub fn parse_i8(&mut self) -> (r: Result<i8, Error>)
        requires
            old(self).wf(),
        ensures
            final(self).wf(),
            (r matches Ok(v) ==> wire::dec_integer(old(self).remaining()) matches Ok(p)
                && i8::MIN <= p.0 <= i8::MAX && v == p.0 as i8 && p.1 == final(self).remaining()),
            (r matches Err(e) ==> match wire::dec_integer(old(self).remaining()) {
                Ok(p) => !(i8::MIN <= p.0 <= i8::MAX) && e == Error::WidthExceeded(IntWidth::I8)
                    && p.1 == final(self).remaining(),
                Err(e2) => e == e2,
            }),
    {
        match self.parse_integer() {
            Err(e) => Err(e),
            Ok(v) => {
                if v > i8::MAX as i32 || v < i8::MIN as i32 {
                    Err(Error::WidthExceeded(IntWidth::I8))
                } else {
                    Ok(v as i8)
                }
            },
        }
    }

    /// Decodes an integer and range-checks it against the 16-bit signed
    /// width.
    pub fn parse_i16(&mut self) -> (r: Result<i16, Error>)
        requires
            old(self).wf(),
        ensures
            final(self).wf(),
            (r matches Ok(v) ==> wire::dec_integer(old(self).remaining()) matches Ok(p)
                && i16::MIN <= p.0 <= i16::MAX && v == p.0 as i16
                && p.1 == final(self).remaining()),
            (r matches Err(e) ==> match wire::dec_integer(old(self).remaining()) {
                Ok(p) => !(i16::MIN <= p.0 <= i16::MAX) && e == Error::WidthExceeded(IntWidth::I16)
                    && p.1 == final(self).remaining(),
                Err(e2) => e == e2,
            }),
    {
        match self.parse_integer() {
            Err(e) => Err(e),
            Ok(v) => {
                if v > i16::MAX as i32 || v < i16::MIN as i32 {
                    Err(Error::WidthExceeded(IntWidth::I16))
                } else {
                    Ok(v as i16)
                }
            },
        }
    }

    /// Decodes an integer, widened to 64 bits: every wire integer fits.
    pub fn parse_i64(&mut self) -> (r: Result<i64, Error>)
        requires
            old(self).wf(),
        ensures
            final(self).wf(),
            (r matches Ok(v) ==> wire::dec_integer(old(self).remaining()) matches Ok(p) && v == p.0
                as i64 && p.1 == final(self).remaining()),
            (r matches Err(e) ==> wire::dec_integer(old(self).remaining()) == Result::<
                (i32, Seq<u8>),
                Error,
            >::Err(e)),
    {
        match self.parse_integer() {
            Err(e) => Err(e),
            Ok(v) => Ok(v as i64),
        }
    }

    /// Decodes an integer and range-checks it against the 8-bit unsigned
    /// width.
    pub fn parse_u8(&mut self) -> (r: Result<u8, Error>)
        requires
            old(self).wf(),
        ensures
            final(self).wf(),
            (r matches Ok(v) ==> wire::dec_integer(old(self).remaining()) matches Ok(p) && 0 <= p.0
                <= u8::MAX && v == p.0 as u8 && p.1 == final(self).remaining()),
            (r matches Err(e) ==> match wire::dec_integer(old(self).remaining()) {
                Ok(p) => !(0 <= p.0 <= u8::MAX) && e == Error::WidthExceeded(IntWidth::U8) && p.1
                    == final(self).remaining(),
                Err(e2) => e == e2,
            }),
    {
        match self.parse_integer() {
            Err(e) => Err(e),
            Ok(v) => {
                if v > u8::MAX as i32 || v < 0 {
                    Err(Error::WidthExceeded(IntWidth::U8))
                } else {
                    Ok(v as u8)
                }
            },
        }
    }

    /// Decodes an integer and range-checks it against the 16-bit unsigned
    /// width.
    pub fn parse_u16(&mut self) -> (r: Result<u16, Error>)
        requires
            old(self).wf(),
        ensures
            final(self).wf(),
            (r matches Ok(v) ==> wire::dec_integer(old(self).remaining()) matches Ok(p) && 0 <= p.0
                <= u16::MAX && v == p.0 as u16 && p.1 == final(self).remaining()),
            (r matches Err(e) ==> match wire::dec_integer(old(self).remaining()) {
                Ok(p) => !(0 <= p.0 <= u16::MAX) && e == Error::WidthExceeded(IntWidth::U16) && p.1
                    == final(self).remaining(),
                Err(e2) => e == e2,
            }),
    {
        match self.parse_integer() {
            Err(e) => Err(e),
            Ok(v) => {
                if v > u16::MAX as i32 || v < 0 {
                    Err(Error::WidthExceeded(IntWidth::U16))
                } else {
                    Ok(v as u16)
                }
            },
        }
    }

    /// Decodes an integer and rejects negative values, which do not fit the
    /// 32-bit unsigned width.
    pub fn parse_u32(&mut self) -> (r: Result<u32, Error>)
        requires
            old(self).wf(),
        ensures
            final(self).wf(),
            (r matches Ok(v) ==> wire::dec_integer(old(self).remaining()) matches Ok(p) && p.0 >= 0
                && v == p.0 as u32 && p.1 == final(self).remaining()),
            (r matches Err(e) ==> match wire::dec_integer(old(self).remaining()) {
                Ok(p) => p.0 < 0 && e == Error::WidthExceeded(IntWidth::U32)
                    && p.1 == final(self).remaining(),
                Err(e2) => e == e2,
            }),
    {
        match self.parse_integer() {
            Err(e) => Err(e),
            Ok(v) => {
                if v < 0 {
                    Err(Error::WidthExceeded(IntWidth::U32))
                } else {
                    Ok(v as u32)
                }
            },
        }
    }

    /// Decodes a 64-bit unsigned integer carried as a binary blob of exactly
    /// eight little-endian bytes: the format's accommodation for values that
    /// exceed its 32-bit integer.
    pub fn parse_u64(&mut self) -> (r: Result<u64, Error>)
        requires
            old(self).wf(),
        ensures
            final(self).wf(),
            (r matches Ok(v) ==> wire::dec_binary(old(self).remaining()) matches Ok(p) && p.0.len()
                == 8 && v == wire::words_to_bits(
                wire::read_le32(p.0, 4),
                wire::read_le32(p.0, 0),
            ) && p.1 == final(self).remaining()),
            (r matches Err(e) ==> match wire::dec_binary(old(self).remaining()) {
                Ok(p) => p.0.len() != 8 && e == Error::WidthExceeded(IntWidth::U64)
                    && p.1 == final(self).remaining(),
                Err(e2) => e == e2,
            }),
    {
        match self.parse_binary() {
            Err(e) => Err(e),
            Ok(bytes) => {
                if bytes.len() != 8 {
                    return Err(Error::WidthExceeded(IntWidth::U64));
                }
                let lo: u32 = (bytes[0] as u32) | ((bytes[1] as u32) << 8) | ((bytes[2] as u32)
                    << 16) | ((bytes[3] as u32) << 24);
                let hi: u32 = (bytes[4] as u32) | ((bytes[5] as u32) << 8) | ((bytes[6] as u32)
                    << 16) | ((bytes[7] as u32) << 24);
                Ok(((hi as u64) << 32) | (lo as u64))
            },
        }
    }

    /// Decodes a UCS-4LE payload through the encoding context.
    pub fn ucs4_decode(&self, input: &Vec<u8>) -> (r: Result<Vec<char>, Error>)
        ensures
            match r {
                Ok(s) => crate::text::valid_ucs4(input@) && s@ == crate::text::ucs4_chars(input@),
                Err(e) => e == Error::TranscodingFailure && !crate::text::valid_ucs4(input@),
            },
    {
        self.ic.ucs4_decode(input)
    }

    /// Decodes a UCS-2LE payload through the encoding context.
    pub fn ucs2_decode(&self, input: &Vec<u8>) -> (r: Result<Vec<char>, Error>)
        ensures
            match r {
                Ok(s) => crate::text::valid_ucs2(input@) && s@ == crate::text::ucs2_chars(input@),
                Err(e) => e == Error::TranscodingFailure && !crate::text::valid_ucs2(input@),
            },
    {
        self.ic.ucs2_decode(input)
    }

    /// Decodes one whole value, of whatever kind its tag byte declares.
    ///
    /// On an error the cursor may stand mid-value; a failed decode abandons
    /// the whole input.
    pub fn decode_value(&mut self) -> (r: Result<Value, Error>)
        requires
            old(self).wf(),
        ensures
            final(self).wf(),
            (r matches Ok(v) ==> wire::dec_top(old(self).remaining()) matches Ok(p) && p.0 == v@
                && p.1 == final(self).remaining()),
            (r matches Err(e) ==> wire::dec_top(old(self).remaining()) == Result::<
                (crate::value::ValueModel, Seq<u8>),
                Error,
            >::Err(e)),
        decreases old(self).remaining().len(),
    {
        let ghost orig = old(self).remaining();
        let ghost fuel0 = (orig.len() + 1) as nat;
        self.parse_padding();
        let ghost c = self.remaining();
        proof {
            wire::lemma_skip_pad_head(orig);
            wire::lemma_skip_pad_nonzero(c);
            wire::lemma_skip_pad_len(orig);
        }
        let n = self.remaining_len();
        if n == 0 {
            return Err(Error::Truncated);
        }
        let t = self.peek(0);
        if t == wire::TAG_NONE {
            match self.parse_none() {
                Err(e) => Err(e),
                Ok(u) => Ok(Value::NoneVal),
            }
        } else if t == wire::TAG_LOGIC {
            match self.parse_logic() {
                Err(e) => Err(e),
                Ok(v) => Ok(Value::Logic(v)),
            }
        } else if t == wire::TAG_INTEGER {
            match self.parse_integer() {
                Err(e) => Err(e),
                Ok(v) => Ok(Value::Integer(v)),
            }
        } else if t == wire::TAG_FLOAT {
            match self.parse_float() {
                Err(e) => Err(e),
                Ok(bits) => Ok(Value::Float(bits)),
            }
        } else if t == wire::TAG_CHAR {
            match self.parse_char() {
                Err(e) => Err(e),
                Ok(v) => Ok(Value::Char(v)),
            }
        } else if t == wire::TAG_STRING {
            match self.parse_string() {
                Err(e) => Err(e),
                Ok(s) => Ok(Value::Str(s)),
            }
        } else if t == wire::TAG_BINARY {
            match self.parse_binary() {
                Err(e) => Err(e),
                Ok(bs) => Ok(Value::Binary(bs)),
            }
        } else if t == wire::TAG_BLOCK || t == wire::TAG_PAREN {
            let paren = t == wire::TAG_PAREN;
            match self.parse_any_block_header(t) {
                Err(e) => Err(e),
                Ok(count) => {
                    let ghost hdr_rest = self.remaining();
                    let ghost f = (fuel0 - 1) as nat;
                    let ghost e_choice = if paren {
                        Error::ExpectedParen
                    } else {
                        Error::ExpectedBlock
                    };
                    proof {
                        assert(wire::skip_pad(c) == c);
                        assert(wire::dec_header(t, e_choice, orig) == wire::dec_header(
                            t,
                            e_choice,
                            c,
                        ));
                        assert(hdr_rest.len() + 12 <= orig.len());
                    }
                    let mut elems: Vec<Value> = Vec::new();
                    let mut i: u32 = 0;
                    proof {
                        assert(crate::value::view_elems(elems) =~= Seq::<
                            crate::value::ValueModel,
                        >::empty());
                        let de = wire::dec_elems(hdr_rest, count as nat, f);
                        if de is Ok {
                            assert(Seq::<crate::value::ValueModel>::empty() + de->Ok_0.0
                                =~= de->Ok_0.0);
                        }
                    }
                    while i < count
                        invariant
                            self.wf(),
                            0 <= i <= count,
                            orig == old(self).remaining(),
                            fuel0 == orig.len() + 1,
                            f == orig.len(),
                            c == wire::skip_pad(orig),
                            c.len() > 0,
                            c[0] == t,
                            t == wire::TAG_BLOCK || t == wire::TAG_PAREN,
                            paren == (t == wire::TAG_PAREN),
                            e_choice == if paren {
                                Error::ExpectedParen
                            } else {
                                Error::ExpectedBlock
                            },
                            wire::dec_header(t, e_choice, orig) == Result::<(u32, Seq<u8>),
                                Error,
                            >::Ok((count, hdr_rest)),
                            self.remaining().len() <= hdr_rest.len(),
                            hdr_rest.len() + 12 <= orig.len(),
                            f > hdr_rest.len(),
                            (match wire::dec_elems(self.remaining(), (count - i) as nat, f) {
                                Ok(p) => wire::dec_elems(hdr_rest, count as nat, f) matches Ok(q)
                                    && q.0 == crate::value::view_elems(elems) + p.0 && q.1 == p.1,
                                Err(e) => wire::dec_elems(hdr_rest, count as nat, f) == Result::<
                                    (Seq<crate::value::ValueModel>, Seq<u8>),
                                    Error,
                                >::Err(e),
                            }),
                        decreases count - i,
                    {
                        let ghost cur = self.remaining();
                        match self.decode_value() {
                            Err(e) => {
                                proof {
                                    wire::lemma_dec_value_fuel(cur, f, (cur.len() + 1) as nat);
                                    assert(wire::dec_value(cur, f) == Result::<
                                        (crate::value::ValueModel, Seq<u8>),
                                        Error,
                                    >::Err(e));
                                    assert(wire::dec_elems(cur, (count - i) as nat, f) == Result::<
                                        (Seq<crate::value::ValueModel>, Seq<u8>),
                                        Error,
                                    >::Err(e));
                                    assert(wire::dec_elems(hdr_rest, count as nat, f) == Result::<
                                        (Seq<crate::value::ValueModel>, Seq<u8>),
                                        Error,
                                    >::Err(e));
                                    assert(wire::dec_top(orig) == Result::<
                                        (crate::value::ValueModel, Seq<u8>),
                                        Error,
                                    >::Err(e));
                                }
                                return Err(e);
                            },
                            Ok(v) => {
                                proof {
                                    wire::lemma_dec_value_fuel(cur, f, (cur.len() + 1) as nat);
                                    let dv = wire::dec_value(cur, f);
                                    assert(dv is Ok && dv->Ok_0.0 == v@ && dv->Ok_0.1
                                        == self.remaining());
                                    let de_next = wire::dec_elems(
                                        self.remaining(),
                                        (count - i - 1) as nat,
                                        f,
                                    );
                                    if de_next is Ok {
                                        assert(wire::dec_elems(cur, (count - i) as nat, f)
                                            matches Ok(w) && w.0 == seq![v@] + de_next->Ok_0.0
                                            && w.1 == de_next->Ok_0.1);
                                    }
                                }
                                let ghost prev_elems = elems;
                                elems.push(v);
                                proof {
                                    assert(crate::value::view_elems(elems)
                                        =~= crate::value::view_elems(prev_elems).push(v@));
                                    let de_next = wire::dec_elems(
                                        self.remaining(),
                                        (count - i - 1) as nat,
                                        f,
                                    );
                                    if de_next is Ok {
                                        assert(crate::value::view_elems(prev_elems) + (seq![v@]
                                            + de_next->Ok_0.0) =~= crate::value::view_elems(elems)
                                            + de_next->Ok_0.0);
                                    }
                                }
                                i = i + 1;
                            },
                        }
                    }
                    proof {
                        let de_done = wire::dec_elems(self.remaining(), 0, f);
                        assert(de_done == Result::<(Seq<crate::value::ValueModel>, Seq<u8>),
                            Error,
                        >::Ok((Seq::empty(), self.remaining())));
                        assert(crate::value::view_elems(elems) + Seq::<
                            crate::value::ValueModel,
                        >::empty() =~= crate::value::view_elems(elems));
                        assert(wire::dec_elems(hdr_rest, count as nat, f) == Result::<
                            (Seq<crate::value::ValueModel>, Seq<u8>),
                            Error,
                        >::Ok((crate::value::view_elems(elems), self.remaining())));
                        if paren {
                            assert(wire::dec_top(orig) == Result::<
                                (crate::value::ValueModel, Seq<u8>),
                                Error,
                            >::Ok(
                                (
                                    crate::value::ValueModel::Paren(
                                        crate::value::view_elems(elems),
                                    ),
                                    self.remaining(),
                                ),
                            ));
                        } else {
                            assert(wire::dec_top(orig) == Result::<
                                (crate::value::ValueModel, Seq<u8>),
                                Error,
                            >::Ok(
                                (
                                    crate::value::ValueModel::Block(
                                        crate::value::view_elems(elems),
                                    ),
                                    self.remaining(),
                                ),
                            ));
                        }
                    }
                    if paren {
                        Ok(Value::Paren(elems))
                    } else {
                        Ok(Value::Block(elems))
                    }
                },
            }
        } else {
            Err(Error::UnsupportedTag)
        }
    }
}

} // verus!
