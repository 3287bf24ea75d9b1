//! Run configuration: which conversion to perform, and in which byte
//! order to read or write UTF-32.

use vstd::prelude::*;

verus! {

/// The target encoding a run converts into.
#[derive(Clone, Copy, Debug, PartialEq, Eq, Structural)]
pub enum Target {
    Utf8,
    Utf32,
}

/// The requested UTF-32 byte order: a fixed order, or swapping the
/// order a UTF-32 stream already has.
#[derive(Clone, Copy, Debug, PartialEq, Eq, Structural)]
pub enum ByteOrder {
    Big,
    Little,
    Swap,
}

/// One of the three conversions a run can perform. For `Utf32ToUtf8`
/// the flag names the source stream's byte order; for `Utf8ToUtf32` it
/// names the order the output is written in.
#[derive(Clone, Copy, Debug, PartialEq, Eq, Structural)]
pub enum Mode {
    Utf32ToUtf8 { little: bool },
    Utf8ToUtf32 { little: bool },
    EndianSwap,
}

impl Mode {
    /// Resolves the requested target and byte order into a conversion,
    /// rejecting the one invalid pair: a UTF-8 target with the swap
    /// order, which has no meaning, is refused before any input is
    /// handled.
    pub fn new(target: Target, order: ByteOrder) -> (r: Option<Mode>)
        ensures
            r is None <==> (target == Target::Utf8 && order == ByteOrder::Swap),
            target == Target::Utf8 && order == ByteOrder::Big ==> r == Some(
                Mode::Utf32ToUtf8 { little: false },
            ),
            target == Target::Utf8 && order == ByteOrder::Little ==> r == Some(
                Mode::Utf32ToUtf8 { little: true },
            ),
            target == Target::Utf32 && order == ByteOrder::Big ==> r == Some(
                Mode::Utf8ToUtf32 { little: false },
            ),
            target == Target::Utf32 && order == ByteOrder::Little ==> r == Some(
                Mode::Utf8ToUtf32 { little: true },
            ),
            target == Target::Utf32 && order == ByteOrder::Swap ==> r == Some(Mode::EndianSwap),
    {
        match (target, order) {
            (Target::Utf8, ByteOrder::Big) => Some(Mode::Utf32ToUtf8 { little: false }),
            (Target::Utf8, ByteOrder::Little) => Some(Mode::Utf32ToUtf8 { little: true }),
            (Target::Utf8, ByteOrder::Swap) => None,
            (Target::Utf32, ByteOrder::Big) => Some(Mode::Utf8ToUtf32 { little: false }),
            (Target::Utf32, ByteOrder::Little) => Some(Mode::Utf8ToUtf32 { little: true }),
            (Target::Utf32, ByteOrder::Swap) => Some(Mode::EndianSwap),
        }
    }
}

} // verus!
