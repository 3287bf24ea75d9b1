//! Per-unit transcoding: one UTF-8 sequence or one UTF-32 quad at a time.
//!
//! A UTF-8 unit is 1-4 bytes whose count is declared by the lead byte's
//! high bits. A UTF-32 quad, once normalized to big-endian and stripped
//! of leading zero bytes, leaves 1-4 significant bytes; 1-3 of them
//! re-encode as UTF-8, 4 mean the value is out of range. Continuation
//! bytes are taken as they come: only their low six bits are read, and
//! no overlong or surrogate check is made, so any 1-4 byte unit whose
//! lead byte declares its length decodes to a value.

use vstd::prelude::*;

verus! {

/// The two failure classes: a malformed UTF-8 sequence, and a UTF-32
/// quad whose value cannot be re-encoded.
#[derive(Clone, Copy, Debug, PartialEq, Eq, Structural)]
pub enum CodecError {
    InvalidUtf8,
    InvalidUtf32,
}

impl CodecError {
    /// The diagnostic line for this error class.
    pub fn message(&self) -> (s: &'static str)
        ensures
            *self == CodecError::InvalidUtf8 ==> s@ == "Invalid UTF-8"@,
            *self == CodecError::InvalidUtf32 ==> s@ == "Invalid UTF-32 input."@,
    {
        match self {
            CodecError::InvalidUtf8 => "Invalid UTF-8",
            CodecError::InvalidUtf32 => "Invalid UTF-32 input.",
        }
    }
}

/// Byte count of a UTF-8 unit, as declared by its lead byte's high
/// bits; 0 marks a byte that cannot lead a unit (a lone continuation
/// byte, or the pattern 11111xxx).
pub open spec fn utf8_seq_len(lead: u8) -> int {
    if lead & 0x80 == 0x00 {
        1
    } else if lead & 0xC0 == 0x80 {
        0
    } else if lead & 0xE0 == 0xC0 {
        2
    } else if lead & 0xF0 == 0xE0 {
        3
    } else if lead & 0xF8 == 0xF0 {
        4
    } else {
        0
    }
}

/// Code point of a two-byte unit: 5 data bits from the lead byte and 6
/// from the continuation byte.
pub open spec fn decode2(b0: u8, b1: u8) -> u32 {
    (((b0 & 0x1F) as u32) << 6) | ((b1 & 0x3F) as u32)
}

/// Code point of a three-byte unit: 4 + 6 + 6 data bits.
pub open spec fn decode3(b0: u8, b1: u8, b2: u8) -> u32 {
    (((b0 & 0x0F) as u32) << 12) | (((b1 & 0x3F) as u32) << 6) | ((b2 & 0x3F) as u32)
}

/// Code point of a four-byte unit: 3 + 6 + 6 + 6 data bits.
pub open spec fn decode4(b0: u8, b1: u8, b2: u8, b3: u8) -> u32 {
    (((b0 & 0x07) as u32) << 18) | (((b1 & 0x3F) as u32) << 12) | (((b2 & 0x3F) as u32) << 6)
        | ((b3 & 0x3F) as u32)
}

/// Code point of one UTF-8 unit. Only the declared number of bytes is
/// read, so bytes past the declared length do not matter.
pub open spec fn decode_unit(unit: Seq<u8>) -> u32
    recommends
        1 <= utf8_seq_len(unit[0]) <= unit.len(),
{
    let n = utf8_seq_len(unit[0]);
    if n == 1 {
        unit[0] as u32
    } else if n == 2 {
        decode2(unit[0], unit[1])
    } else if n == 3 {
        decode3(unit[0], unit[1], unit[2])
    } else {
        decode4(unit[0], unit[1], unit[2], unit[3])
    }
}

/// UTF-8 bytes of a code point below 0x1000000, the range that up to
/// three significant UTF-32 bytes can carry.
pub open spec fn encode_cp(cp: u32) -> Seq<u8>
    recommends
        cp < 0x1000000,
{
    if cp <= 0x7F {
        seq![cp as u8]
    } else if cp <= 0x7FF {
        seq![(0xC0 | (cp >> 6)) as u8, (0x80 | (cp & 0x3F)) as u8]
    } else if cp <= 0xFFFF {
        seq![
            (0xE0 | (cp >> 12)) as u8,
            (0x80 | ((cp >> 6) & 0x3F)) as u8,
            (0x80 | (cp & 0x3F)) as u8,
        ]
    } else {
        seq![
            (0xF0 | (cp >> 18)) as u8,
            (0x80 | ((cp >> 12) & 0x3F)) as u8,
            (0x80 | ((cp >> 6) & 0x3F)) as u8,
            (0x80 | (cp & 0x3F)) as u8,
        ]
    }
}

/// Big-endian value of the 1-3 significant bytes left of a UTF-32 quad.
pub open spec fn sig_val(sig: Seq<u8>) -> u32
    recommends
        1 <= sig.len() <= 3,
{
    if sig.len() == 1 {
        sig[0] as u32
    } else if sig.len() == 2 {
        ((sig[0] as u32) << 8) | (sig[1] as u32)
    } else {
        ((sig[0] as u32) << 16) | ((sig[1] as u32) << 8) | (sig[2] as u32)
    }
}

/// Declared length of the UTF-8 unit that starts with `lead`, or 0 when
/// `lead` cannot start a unit.
pub fn utf8_len_of(lead: u8) -> (n: usize)
    ensures
        n == utf8_seq_len(lead),
{
    if lead & 0x80 == 0x00 {
        1
    } else if lead & 0xC0 == 0x80 {
        0
    } else if lead & 0xE0 == 0xC0 {
        2
    } else if lead & 0xF0 == 0xE0 {
        3
    } else if lead & 0xF8 == 0xF0 {
        4
    } else {
        0
    }
}

/// Decodes one UTF-8 unit into its code point (the UTF-32 value).
///
/// The unit's declared length must be available in `cp`; bytes past the
/// declared length are ignored. Fails when `cp` is empty, when its
/// first byte cannot lead a unit, or when fewer bytes than declared are
/// present (a stream cut short inside a unit).
pub fn to32(cp: &Vec<u8>) -> (r: Result<u32, CodecError>)
    ensures
        match r {
            Ok(v) => 1 <= utf8_seq_len(cp@[0]) <= cp@.len() && v == decode_unit(cp@),
            Err(e) => e == CodecError::InvalidUtf8 && (cp@.len() == 0 || utf8_seq_len(cp@[0]) == 0
                || cp@.len() < utf8_seq_len(cp@[0])),
        },
{
    if cp.len() == 0 {
        return Err(CodecError::InvalidUtf8);
    }
    let b0 = cp[0];
    if b0 & 0x80 == 0x00 {
        Ok(b0 as u32)
    } else if b0 & 0xC0 == 0x80 {
        Err(CodecError::InvalidUtf8)
    } else if b0 & 0xE0 == 0xC0 {
        if cp.len() < 2 {
            return Err(CodecError::InvalidUtf8);
        }
        Ok((((b0 & 0x1F) as u32) << 6) | ((cp[1] & 0x3F) as u32))
    } else if b0 & 0xF0 == 0xE0 {
        if cp.len() < 3 {
            return Err(CodecError::InvalidUtf8);
        }
        Ok((((b0 & 0x0F) as u32) << 12) | (((cp[1] & 0x3F) as u32) << 6) | ((cp[2] & 0x3F) as u32))
    } else if b0 & 0xF8 == 0xF0 {
        if cp.len() < 4 {
            return Err(CodecError::InvalidUtf8);
        }
        Ok((((b0 & 0x07) as u32) << 18) | (((cp[1] & 0x3F) as u32) << 12)
            | (((cp[2] & 0x3F) as u32) << 6) | ((cp[3] & 0x3F) as u32))
    } else {
        Err(CodecError::InvalidUtf8)
    }
}

/// Re-encodes the significant bytes of one UTF-32 quad as UTF-8,
/// appending the result to `out`.
///
/// `cp` holds the big-endian bytes left after stripping leading zeros,
/// so a zero first byte can only stand alone. One to three bytes
/// re-encode; an empty `cp`, or four or more bytes, means the quad's
/// value is beyond what four UTF-8 bytes can carry, reported as
/// `InvalidUtf32` with `out` left as it was.
pub fn to8(cp: &Vec<u8>, out: &mut Vec<u8>) -> (r: Result<(), CodecError>)
    requires
        cp@.len() >= 2 ==> cp@[0] != 0,
    ensures
        match r {
            Ok(()) => 1 <= cp@.len() <= 3 && final(out)@ == old(out)@ + encode_cp(sig_val(cp@)),
            Err(e) => e == CodecError::InvalidUtf32 && (cp@.len() == 0 || cp@.len() > 3)
                && final(out)@ == old(out)@,
        },
{
    if cp.len() == 1 {
        let b0 = cp[0];
        if b0 > 0x7F {
            let w0: u8 = 0xC0 | ((b0 & 0xC0) >> 6);
            let w1: u8 = 0x80 | (b0 & 0x3F);
            out.push(w0);
            out.push(w1);
            proof {
                assert((b0 as u32) > 0x7F && (b0 as u32) <= 0x7FF && (0xC0u32 | ((b0 as u32)
                    >> 6)) as u8 == 0xC0 | ((b0 & 0xC0) >> 6) && (0x80u32 | ((b0 as u32)
                    & 0x3F)) as u8 == 0x80 | (b0 & 0x3F)) by (bit_vector)
                    requires
                        b0 > 0x7F,
                ;
                assert(out@ =~= old(out)@ + encode_cp(sig_val(cp@)));
            }
        } else {
            out.push(b0);
            proof {
                assert((b0 as u32) <= 0x7F && ((b0 as u32) as u8) == b0) by (bit_vector)
                    requires
                        b0 <= 0x7F,
                ;
                assert(out@ =~= old(out)@ + encode_cp(sig_val(cp@)));
            }
        }
        Ok(())
    } else if cp.len() == 2 {
        let b0 = cp[0];
        let b1 = cp[1];
        if b0 > 0x07 {
            let w0: u8 = 0xE0 | (b0 >> 4);
            let w1: u8 = 0x80 | ((b0 & 0x0F) << 2) | ((b1 & 0xC0) >> 6);
            let w2: u8 = 0x80 | (b1 & 0x3F);
            out.push(w0);
            out.push(w1);
            out.push(w2);
            proof {
                assert((((b0 as u32) << 8) | (b1 as u32)) > 0x7FF && (((b0 as u32) << 8) | (
                b1 as u32)) <= 0xFFFF && (0xE0u32 | ((((b0 as u32) << 8) | (b1 as u32))
                    >> 12)) as u8 == 0xE0 | (b0 >> 4) && (0x80u32 | (((((b0 as u32) << 8) | (
                b1 as u32)) >> 6) & 0x3F)) as u8 == 0x80 | ((b0 & 0x0F) << 2) | ((b1 & 0xC0) >> 6)
                    && (0x80u32 | ((((b0 as u32) << 8) | (b1 as u32)) & 0x3F)) as u8 == 0x80 | (b1
                    & 0x3F)) by (bit_vector)
                    requires
                        b0 > 0x07,
                ;
                assert(out@ =~= old(out)@ + encode_cp(sig_val(cp@)));
            }
        } else {
            let w0: u8 = 0xC0 | (b0 << 2) | (b1 >> 6);
            let w1: u8 = 0x80 | (b1 & 0x3F);
            out.push(w0);
            out.push(w1);
            proof {
                assert((((b0 as u32) << 8) | (b1 as u32)) > 0x7F && (((b0 as u32) << 8) | (
                b1 as u32)) <= 0x7FF && (0xC0u32 | ((((b0 as u32) << 8) | (b1 as u32))
                    >> 6)) as u8 == 0xC0 | (b0 << 2) | (b1 >> 6) && (0x80u32 | ((((b0 as u32) << 8)
                    | (b1 as u32)) & 0x3F)) as u8 == 0x80 | (b1 & 0x3F)) by (bit_vector)
                    requires
                        b0 <= 0x07 && b0 != 0,
                ;
                assert(out@ =~= old(out)@ + encode_cp(sig_val(cp@)));
            }
        }
        Ok(())
    } else if cp.len() == 3 {
        let b0 = cp[0];
        let b1 = cp[1];
        let b2 = cp[2];
        let w0: u8 = 0xF0 | (b0 >> 2);
        let w1: u8 = 0x80 | ((b0 & 0x03) << 4) | ((b1 & 0xF0) >> 4);
        let w2: u8 = 0x80 | ((b1 & 0x0F) << 2) | ((b2 & 0xC0) >> 6);
        let w3: u8 = 0x80 | (b2 & 0x3F);
        out.push(w0);
        out.push(w1);
        out.push(w2);
        out.push(w3);
        proof {
            assert((((b0 as u32) << 16) | ((b1 as u32) << 8) | (b2 as u32)) > 0xFFFF && (0xF0u32 | (
            (((b0 as u32) << 16) | ((b1 as u32) << 8) | (b2 as u32)) >> 18)) as u8 == 0xF0 | (b0
                >> 2) && (0x80u32 | (((((b0 as u32) << 16) | ((b1 as u32) << 8) | (b2 as u32))
                >> 12) & 0x3F)) as u8 == 0x80 | ((b0 & 0x03) << 4) | ((b1 & 0xF0) >> 4) && (0x80u32
                | (((((b0 as u32) << 16) | ((b1 as u32) << 8) | (b2 as u32)) >> 6) & 0x3F)) as u8
                == 0x80 | ((b1 & 0x0F) << 2) | ((b2 & 0xC0) >> 6) && (0x80u32 | ((((b0 as u32)
                << 16) | ((b1 as u32) << 8) | (b2 as u32)) & 0x3F)) as u8 == 0x80 | (b2
                & 0x3F)) by (bit_vector)
                requires
                    b0 != 0,
            ;
            assert(out@ =~= old(out)@ + encode_cp(sig_val(cp@)));
        }
        Ok(())
    } else {
        Err(CodecError::InvalidUtf32)
    }
}

/// Byte-length law: a code point in [0, 0x7F] encodes to exactly one
/// UTF-8 byte, [0x80, 0x7FF] to two, [0x800, 0xFFFF] to three, and
/// [0x10000, 0x10FFFF] to four.
pub proof fn lemma_utf8_byte_length(cp: u32)
    requires
        cp <= 0x10FFFF,
    ensures
        cp <= 0x7F ==> encode_cp(cp).len() == 1,
        0x80 <= cp <= 0x7FF ==> encode_cp(cp).len() == 2,
        0x800 <= cp <= 0xFFFF ==> encode_cp(cp).len() == 3,
        0x10000 <= cp ==> encode_cp(cp).len() == 4,
{
}

/// Unit round trip: encoding a Unicode scalar value (any code point
/// outside the surrogate range) to UTF-8 gives a unit whose lead byte
/// declares its exact length, and decoding it yields the value back.
pub proof fn lemma_unit_round_trip(cp: u32)
    requires
        cp <= 0x10FFFF,
        !(0xD800 <= cp && cp <= 0xDFFF),
    ensures
        utf8_seq_len(encode_cp(cp)[0]) == encode_cp(cp).len(),
        decode_unit(encode_cp(cp)) == cp,
{
    if cp <= 0x7F {
        assert((cp as u8) & 0x80 == 0x00 && (cp as u8) as u32 == cp) by (bit_vector)
            requires
                cp <= 0x7F,
        ;
    } else if cp <= 0x7FF {
        assert(((0xC0u32 | (cp >> 6)) as u8) & 0x80 != 0x00 && ((0xC0u32 | (cp >> 6)) as u8) & 0xC0
            != 0x80 && ((0xC0u32 | (cp >> 6)) as u8) & 0xE0 == 0xC0 && decode2(
            (0xC0u32 | (cp >> 6)) as u8,
            (0x80u32 | (cp & 0x3F)) as u8,
        ) == cp) by (bit_vector)
            requires
                0x80 <= cp && cp <= 0x7FF,
        ;
    } else if cp <= 0xFFFF {
        assert(((0xE0u32 | (cp >> 12)) as u8) & 0x80 != 0x00 && ((0xE0u32 | (cp >> 12)) as u8)
            & 0xC0 != 0x80 && ((0xE0u32 | (cp >> 12)) as u8) & 0xE0 != 0xC0 && ((0xE0u32 | (cp
            >> 12)) as u8) & 0xF0 == 0xE0 && decode3(
            (0xE0u32 | (cp >> 12)) as u8,
            (0x80u32 | ((cp >> 6) & 0x3F)) as u8,
            (0x80u32 | (cp & 0x3F)) as u8,
        ) == cp) by (bit_vector)
            requires
                0x800 <= cp && cp <= 0xFFFF,
        ;
    } else {
        assert(((0xF0u32 | (cp >> 18)) as u8) & 0x80 != 0x00 && ((0xF0u32 | (cp >> 18)) as u8)
            & 0xC0 != 0x80 && ((0xF0u32 | (cp >> 18)) as u8) & 0xE0 != 0xC0 && ((0xF0u32 | (cp
            >> 18)) as u8) & 0xF0 != 0xE0 && ((0xF0u32 | (cp >> 18)) as u8) & 0xF8 == 0xF0
            && decode4(
            (0xF0u32 | (cp >> 18)) as u8,
            (0x80u32 | ((cp >> 12) & 0x3F)) as u8,
            (0x80u32 | ((cp >> 6) & 0x3F)) as u8,
            (0x80u32 | (cp & 0x3F)) as u8,
        ) == cp) by (bit_vector)
            requires
                0x10000 <= cp && cp <= 0x10FFFF,
        ;
    }
}

} // verus!
