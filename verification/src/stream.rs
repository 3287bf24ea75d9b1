//! Whole-stream conversions built from the per-unit codec.
//!
//! Each conversion walks the input from the front, one unit at a time:
//! a 4-byte quad for UTF-32 sources, a 1-4 byte sequence for UTF-8
//! sources. A short trailing fragment of a UTF-32 stream is treated as
//! end of stream and dropped, as a failed fixed-size read would be; a
//! UTF-8 stream cut short inside a unit is an error. On any error the
//! conversion returns nothing but the error itself: output is all or
//! nothing.

use crate::codec::decode_unit;
use crate::codec::encode_cp;
use crate::codec::sig_val;
use crate::codec::to8;
use crate::codec::to32;
use crate::codec::utf8_len_of;
use crate::codec::utf8_seq_len;
use crate::codec::CodecError;
use crate::config::Mode;
use vstd::prelude::*;

verus! {

/// Big-endian value of four bytes.
pub open spec fn quad_val(b0: u8, b1: u8, b2: u8, b3: u8) -> u32 {
    ((b0 as u32) << 24) | ((b1 as u32) << 16) | ((b2 as u32) << 8) | (b3 as u32)
}

/// The four bytes of a UTF-32 value in the requested byte order: most
/// significant first for big-endian, last for little-endian.
pub open spec fn emit32(v: u32, little: bool) -> Seq<u8> {
    if little {
        seq![
            ((v & 0xFF) as u8),
            (((v >> 8) & 0xFF) as u8),
            (((v >> 16) & 0xFF) as u8),
            (((v >> 24) & 0xFF) as u8),
        ]
    } else {
        seq![
            (((v >> 24) & 0xFF) as u8),
            (((v >> 16) & 0xFF) as u8),
            (((v >> 8) & 0xFF) as u8),
            ((v & 0xFF) as u8),
        ]
    }
}

/// Each complete 4-byte quad reversed; a short trailing fragment is
/// end of stream and dropped.
pub open spec fn swap_quads(s: Seq<u8>) -> Seq<u8>
    decreases s.len(),
{
    if s.len() < 4 {
        Seq::empty()
    } else {
        seq![s[3], s[2], s[1], s[0]] + swap_quads(s.skip(4))
    }
}

/// The UTF-8 stream for a UTF-32 stream, read quad by quad in the given
/// byte order; `None` when some quad's value needs all four bytes,
/// which is beyond what UTF-8 can carry here.
pub open spec fn utf32_to_utf8_spec(s: Seq<u8>, little: bool) -> Option<Seq<u8>>
    decreases s.len(),
{
    if s.len() < 4 {
        Some(Seq::empty())
    } else {
        let v = if little {
            quad_val(s[3], s[2], s[1], s[0])
        } else {
            quad_val(s[0], s[1], s[2], s[3])
        };
        if v >= 0x1000000 {
            None
        } else {
            match utf32_to_utf8_spec(s.skip(4), little) {
                Some(rest) => Some(encode_cp(v) + rest),
                None => None,
            }
        }
    }
}

/// The UTF-32 stream, in the given byte order, for a UTF-8 stream read
/// unit by unit; `None` when a byte cannot lead a unit or the stream
/// ends inside one.
pub open spec fn utf8_to_utf32_spec(s: Seq<u8>, little: bool) -> Option<Seq<u8>>
    decreases s.len(),
{
    if s.len() == 0 {
        Some(Seq::empty())
    } else {
        let n = utf8_seq_len(s[0]);
        if n == 0 || s.len() < n {
            None
        } else {
            match utf8_to_utf32_spec(s.skip(n), little) {
                Some(rest) => Some(emit32(decode_unit(s), little) + rest),
                None => None,
            }
        }
    }
}

/// A prefix already emitted, in front of what a conversion's remainder
/// yields.
spec fn prepend(prefix: Seq<u8>, rest: Option<Seq<u8>>) -> Option<Seq<u8>> {
    match rest {
        Some(r) => Some(prefix + r),
        None => None,
    }
}

/// Appends the four bytes of `v` to `out` in the requested byte order.
fn push32(v: u32, little: bool, out: &mut Vec<u8>)
    ensures
        final(out)@ == old(out)@ + emit32(v, little),
{
    proof {
        assert((v & 0xFF) < 256 && ((v >> 8) & 0xFF) < 256 && ((v >> 16) & 0xFF) < 256 && ((v
            >> 24) & 0xFF) < 256) by (bit_vector);
    }
    if little {
        out.push((v & 0xFF) as u8);
        out.push(((v >> 8) & 0xFF) as u8);
        out.push(((v >> 16) & 0xFF) as u8);
        out.push(((v >> 24) & 0xFF) as u8);
    } else {
        out.push(((v >> 24) & 0xFF) as u8);
        out.push(((v >> 16) & 0xFF) as u8);
        out.push(((v >> 8) & 0xFF) as u8);
        out.push((v & 0xFF) as u8);
    }
    proof {
        assert(out@ =~= old(out)@ + emit32(v, little));
    }
}

/// Reverses the byte order of every complete quad of a UTF-32 stream.
/// A short trailing fragment is end of stream and dropped.
pub fn endian_swap(input: &Vec<u8>) -> (out: Vec<u8>)
    ensures
        out@ == swap_quads(input@),
{
    let mut out: Vec<u8> = Vec::new();
    let mut i: usize = 0;
    proof {
        assert(input@.skip(0) =~= input@);
    }
    while i < input.len() && input.len() - i >= 4
        invariant
            i <= input@.len(),
            swap_quads(input@) == out@ + swap_quads(input@.skip(i as int)),
        decreases input@.len() - i,
    {
        let ghost out0 = out@;
        let ghost s_i = input@.skip(i as int);
        out.push(input[i + 3]);
        out.push(input[i + 2]);
        out.push(input[i + 1]);
        out.push(input[i]);
        proof {
            assert(s_i.skip(4) =~= input@.skip(i + 4));
            assert(out@ =~= out0 + seq![s_i[3], s_i[2], s_i[1], s_i[0]]);
            assert(out0 + swap_quads(s_i) =~= out@ + swap_quads(input@.skip(i + 4)));
        }
        i = i + 4;
    }
    proof {
        assert(swap_quads(input@.skip(i as int)) =~= Seq::<u8>::empty());
        assert(out@ + Seq::<u8>::empty() =~= out@);
    }
    out
}

/// Converts a whole UTF-8 stream to UTF-32 in the given byte order.
/// One malformed unit fails the whole run: the error is `InvalidUtf8`
/// and nothing is emitted.
pub fn utf8_to_utf32(input: &Vec<u8>, little: bool) -> (r: Result<Vec<u8>, CodecError>)
    ensures
        match r {
            Ok(out) => utf8_to_utf32_spec(input@, little) == Some(out@),
            Err(e) => utf8_to_utf32_spec(input@, little) is None && e == CodecError::InvalidUtf8,
        },
{
    let mut out: Vec<u8> = Vec::new();
    let mut i: usize = 0;
    proof {
        assert(input@.skip(0) =~= input@);
    }
    while i < input.len()
        invariant
            i <= input@.len(),
            prepend(out@, utf8_to_utf32_spec(input@.skip(i as int), little)) == utf8_to_utf32_spec(
                input@,
                little,
            ),
        decreases input@.len() - i,
    {
        let ghost out0 = out@;
        let ghost s_i = input@.skip(i as int);
        let lead = input[i];
        let n = utf8_len_of(lead);
        proof {
            assert(s_i[0] == input@[i as int]);
        }
        if n == 0 {
            return Err(CodecError::InvalidUtf8);
        }
        if n > input.len() - i {
            proof {
                assert(s_i.len() < n);
            }
            return Err(CodecError::InvalidUtf8);
        }
        let mut unit: Vec<u8> = Vec::new();
        unit.push(input[i]);
        if n >= 2 {
            unit.push(input[i + 1]);
        }
        if n >= 3 {
            unit.push(input[i + 2]);
        }
        if n >= 4 {
            unit.push(input[i + 3]);
        }
        proof {
            assert(unit@ =~= input@.subrange(i as int, i + n));
            assert(forall|k: int| 0 <= k < n ==> unit@[k] == s_i[k]);
        }
        let c: u32;
        match to32(&unit) {
            Ok(v) => {
                c = v;
            },
            Err(e) => {
                proof {
                    assert(false);
                }
                return Err(e);
            },
        }
        push32(c, little, &mut out);
        proof {
            assert(decode_unit(unit@) == decode_unit(s_i));
            assert(s_i.skip(n as int) =~= input@.skip(i + n));
            let rest_opt = utf8_to_utf32_spec(input@.skip(i + n), little);
            assert(utf8_to_utf32_spec(s_i, little) == prepend(emit32(c, little), rest_opt));
            match rest_opt {
                Some(rest) => {
                    assert(out@ =~= out0 + emit32(c, little));
                    assert(out0 + (emit32(c, little) + rest) =~= out@ + rest);
                },
                None => {},
            }
        }
        i = i + n;
    }
    proof {
        assert(input@.skip(i as int) =~= Seq::<u8>::empty());
        assert(out@ + Seq::<u8>::empty() =~= out@);
    }
    Ok(out)
}

/// Converts a whole UTF-32 stream, read in the given byte order, to
/// UTF-8. A quad whose value needs all four bytes fails the whole run:
/// the error is `InvalidUtf32` and nothing is emitted. A short trailing
/// fragment is end of stream and dropped.
pub fn utf32_to_utf8(input: &Vec<u8>, little: bool) -> (r: Result<Vec<u8>, CodecError>)
    ensures
        match r {
            Ok(out) => utf32_to_utf8_spec(input@, little) == Some(out@),
            Err(e) => utf32_to_utf8_spec(input@, little) is None && e == CodecError::InvalidUtf32,
        },
{
    let mut out: Vec<u8> = Vec::new();
    let mut i: usize = 0;
    proof {
        assert(input@.skip(0) =~= input@);
    }
    while i < input.len() && input.len() - i >= 4
        invariant
            i <= input@.len(),
            prepend(out@, utf32_to_utf8_spec(input@.skip(i as int), little)) == utf32_to_utf8_spec(
                input@,
                little,
            ),
        decreases input@.len() - i,
    {
        let ghost out0 = out@;
        let ghost s_i = input@.skip(i as int);
        let (b0, b1, b2, b3) = if little {
            (input[i + 3], input[i + 2], input[i + 1], input[i])
        } else {
            (input[i], input[i + 1], input[i + 2], input[i + 3])
        };
        let ghost v = quad_val(b0, b1, b2, b3);
        proof {
            assert(s_i[0] == input@[i as int] && s_i[1] == input@[i + 1] && s_i[2] == input@[i + 2]
                && s_i[3] == input@[i + 3]);
        }
        let mut sig: Vec<u8> = Vec::new();
        if b0 != 0 {
            sig.push(b0);
        }
        if sig.len() > 0 || b1 != 0 {
            sig.push(b1);
        }
        if sig.len() > 0 || b2 != 0 {
            sig.push(b2);
        }
        sig.push(b3);
        proof {
            if b0 != 0 {
                assert(sig@ =~= seq![b0, b1, b2, b3]);
                assert((((b0 as u32) << 24) | ((b1 as u32) << 16) | ((b2 as u32) << 8) | (
                b3 as u32)) >= 0x1000000) by (bit_vector)
                    requires
                        b0 != 0,
                ;
            } else if b1 != 0 {
                assert(sig@ =~= seq![b1, b2, b3]);
                assert((((b1 as u32) << 16) | ((b2 as u32) << 8) | (b3 as u32)) == (((0u32) << 24)
                    | ((b1 as u32) << 16) | ((b2 as u32) << 8) | (b3 as u32)) && (((0u32) << 24) | (
                (b1 as u32) << 16) | ((b2 as u32) << 8) | (b3 as u32)) < 0x1000000) by (bit_vector);
            } else if b2 != 0 {
                assert(sig@ =~= seq![b2, b3]);
                assert((((b2 as u32) << 8) | (b3 as u32)) == (((0u32) << 24) | ((0u32) << 16) | ((
                b2 as u32) << 8) | (b3 as u32)) && (((0u32) << 24) | ((0u32) << 16) | ((b2 as u32)
                    << 8) | (b3 as u32)) < 0x1000000) by (bit_vector);
            } else {
                assert(sig@ =~= seq![b3]);
                assert((b3 as u32) == (((0u32) << 24) | ((0u32) << 16) | ((0u32) << 8) | (
                b3 as u32)) && (((0u32) << 24) | ((0u32) << 16) | ((0u32) << 8) | (b3 as u32))
                    < 0x1000000) by (bit_vector);
            }
            assert(b0 == 0 ==> sig_val(sig@) == v && v < 0x1000000);
        }
        match to8(&sig, &mut out) {
            Ok(()) => {
                proof {
                    assert(b0 == 0 && sig_val(sig@) == v);
                }
            },
            Err(e) => {
                proof {
                    assert(b0 != 0 && v >= 0x1000000);
                }
                return Err(e);
            },
        }
        proof {
            assert(s_i.skip(4) =~= input@.skip(i + 4));
            let rest_opt = utf32_to_utf8_spec(input@.skip(i + 4), little);
            assert(utf32_to_utf8_spec(s_i, little) == prepend(encode_cp(v), rest_opt));
            match rest_opt {
                Some(rest) => {
                    assert(out@ =~= out0 + encode_cp(v));
                    assert(out0 + (encode_cp(v) + rest) =~= out@ + rest);
                },
                None => {},
            }
        }
        i = i + 4;
    }
    proof {
        assert(utf32_to_utf8_spec(input@.skip(i as int), little) == Some(Seq::<u8>::empty()));
        assert(out@ + Seq::<u8>::empty() =~= out@);
    }
    Ok(out)
}

/// What the mode's conversion yields for a whole input stream, or
/// `None` where a malformed unit stops it.
pub open spec fn transcode_spec(mode: Mode, s: Seq<u8>) -> Option<Seq<u8>> {
    match mode {
        Mode::Utf32ToUtf8 { little } => utf32_to_utf8_spec(s, little),
        Mode::Utf8ToUtf32 { little } => utf8_to_utf32_spec(s, little),
        Mode::EndianSwap => Some(swap_quads(s)),
    }
}

/// Runs the conversion the mode selects over the whole input stream.
/// On success the whole output stream; on the first malformed unit the
/// run's error, with no output at all.
pub fn transcode(mode: Mode, input: &Vec<u8>) -> (r: Result<Vec<u8>, CodecError>)
    ensures
        match r {
            Ok(out) => transcode_spec(mode, input@) == Some(out@),
            Err(e) => transcode_spec(mode, input@) is None && ((mode is Utf32ToUtf8 && e
                == CodecError::InvalidUtf32) || (mode is Utf8ToUtf32 && e
                == CodecError::InvalidUtf8)),
        },
{
    match mode {
        Mode::Utf32ToUtf8 { little } => utf32_to_utf8(input, little),
        Mode::Utf8ToUtf32 { little } => utf8_to_utf32(input, little),
        Mode::EndianSwap => Ok(endian_swap(input)),
    }
}

/// Swap involution: reversing every quad of a UTF-32 stream twice
/// yields the original bytes exactly.
pub proof fn lemma_endian_swap_involution(s: Seq<u8>)
    requires
        s.len() % 4 == 0,
    ensures
        swap_quads(swap_quads(s)) == s,
    decreases s.len(),
{
    if s.len() == 0 {
        assert(swap_quads(s) =~= Seq::<u8>::empty());
        assert(swap_quads(swap_quads(s)) =~= s);
    } else {
        assert(s.len() >= 4);
        let t = s.skip(4);
        lemma_endian_swap_involution(t);
        let w = swap_quads(s);
        assert(w == seq![s[3], s[2], s[1], s[0]] + swap_quads(t));
        assert(w.skip(4) =~= swap_quads(t));
        assert(swap_quads(w) == seq![w[3], w[2], w[1], w[0]] + swap_quads(w.skip(4)));
        assert(seq![w[3], w[2], w[1], w[0]] + swap_quads(swap_quads(t)) =~= s);
    }
}

/// Round trip for one Unicode scalar value (any code point outside the
/// surrogate range), in either byte order: its UTF-8 unit decodes back
/// to it; as a one-unit stream, UTF-8 converts to its four UTF-32
/// bytes and those four bytes convert back to the UTF-8 unit; and
/// swapping the four bytes once yields the other byte order's form.
pub proof fn lemma_round_trip(cp: u32, little: bool)
    requires
        cp <= 0x10FFFF,
        !(0xD800 <= cp && cp <= 0xDFFF),
    ensures
        decode_unit(encode_cp(cp)) == cp,
        utf8_to_utf32_spec(encode_cp(cp), little) == Some(emit32(cp, little)),
        utf32_to_utf8_spec(emit32(cp, little), little) == Some(encode_cp(cp)),
        swap_quads(emit32(cp, little)) == emit32(cp, !little),
{
    crate::codec::lemma_unit_round_trip(cp);
    let u = encode_cp(cp);
    let n = utf8_seq_len(u[0]);
    assert(n == u.len() && 1 <= n <= 4);
    assert(u.skip(n) =~= Seq::<u8>::empty());
    assert(utf8_to_utf32_spec(Seq::<u8>::empty(), little) == Some(Seq::<u8>::empty()));
    assert(utf8_to_utf32_spec(u, little) == Some(emit32(cp, little) + Seq::<u8>::empty()));
    assert(emit32(cp, little) + Seq::<u8>::empty() =~= emit32(cp, little));
    let q = emit32(cp, little);
    assert(q.len() == 4);
    assert(quad_val(
        ((cp >> 24) & 0xFF) as u8,
        ((cp >> 16) & 0xFF) as u8,
        ((cp >> 8) & 0xFF) as u8,
        (cp & 0xFF) as u8,
    ) == cp && cp < 0x1000000) by (bit_vector)
        requires
            cp <= 0x10FFFF,
    ;
    assert(q.skip(4) =~= Seq::<u8>::empty());
    assert(utf32_to_utf8_spec(Seq::<u8>::empty(), little) == Some(Seq::<u8>::empty()));
    assert(utf32_to_utf8_spec(q, little) == Some(encode_cp(cp) + Seq::<u8>::empty()));
    assert(encode_cp(cp) + Seq::<u8>::empty() =~= encode_cp(cp));
    assert(swap_quads(q) == seq![q[3], q[2], q[1], q[0]] + swap_quads(q.skip(4)));
    assert(seq![q[3], q[2], q[1], q[0]] + swap_quads(Seq::<u8>::empty()) =~= emit32(cp, !little));
}

} // verus!
