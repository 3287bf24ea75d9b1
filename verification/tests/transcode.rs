use utf_codec::codec::CodecError;
use utf_codec::codec::to32;
use utf_codec::codec::to8;
use utf_codec::codec::utf8_len_of;
use utf_codec::config::ByteOrder;
use utf_codec::config::Mode;
use utf_codec::config::Target;
use utf_codec::stream::endian_swap;
use utf_codec::stream::transcode;
use utf_codec::stream::utf32_to_utf8;
use utf_codec::stream::utf8_to_utf32;

fn be_quad(cp: u32) -> Vec<u8> {
    vec![
        (cp >> 24) as u8,
        ((cp >> 16) & 0xFF) as u8,
        ((cp >> 8) & 0xFF) as u8,
        (cp & 0xFF) as u8,
    ]
}

fn le_quad(cp: u32) -> Vec<u8> {
    let mut q = be_quad(cp);
    q.reverse();
    q
}

#[test]
fn round_trip_sample_code_points() {
    let samples: [u32; 12] = [
        0x00, 0x41, 0x7F, 0x80, 0x3A9, 0x7FF, 0x800, 0xFFFF, 0xD7FF, 0xE000, 0x10000, 0x10FFFF,
    ];
    for &cp in samples.iter() {
        let quad = be_quad(cp);
        let utf8 = utf32_to_utf8(&quad, false).unwrap();
        let back = utf8_to_utf32(&utf8, false).unwrap();
        assert_eq!(back, quad, "big-endian round trip of U+{:04X}", cp);

        let quad_le = le_quad(cp);
        let utf8_le = utf32_to_utf8(&quad_le, true).unwrap();
        assert_eq!(utf8_le, utf8);
        let back_le = utf8_to_utf32(&utf8, true).unwrap();
        assert_eq!(back_le, quad_le, "little-endian round trip of U+{:04X}", cp);
    }
}

#[test]
fn byte_length_law_samples() {
    let cases: [(u32, usize); 8] = [
        (0x00, 1),
        (0x7F, 1),
        (0x80, 2),
        (0x7FF, 2),
        (0x800, 3),
        (0xFFFF, 3),
        (0x10000, 4),
        (0x10FFFF, 4),
    ];
    for &(cp, len) in cases.iter() {
        let utf8 = utf32_to_utf8(&be_quad(cp), false).unwrap();
        assert_eq!(utf8.len(), len, "UTF-8 length of U+{:04X}", cp);
    }
}

#[test]
fn endian_swap_involution_samples() {
    let stream: Vec<u8> = vec![
        0x00, 0x00, 0x00, 0x41, 0x12, 0x34, 0x56, 0x78, 0xFF, 0x00, 0xFF, 0x00,
    ];
    let once = endian_swap(&stream);
    assert_eq!(once, vec![0x41, 0x00, 0x00, 0x00, 0x78, 0x56, 0x34, 0x12, 0x00, 0xFF, 0x00, 0xFF]);
    let twice = endian_swap(&once);
    assert_eq!(twice, stream);

    let empty: Vec<u8> = Vec::new();
    assert_eq!(endian_swap(&empty), empty);
}

#[test]
fn endian_swap_drops_trailing_fragment() {
    let stream: Vec<u8> = vec![0x00, 0x00, 0x00, 0x41, 0xAA, 0xBB];
    assert_eq!(endian_swap(&stream), vec![0x41, 0x00, 0x00, 0x00]);
}

#[test]
fn invalid_configuration_rejected() {
    assert_eq!(Mode::new(Target::Utf8, ByteOrder::Swap), None);
    assert_eq!(
        Mode::new(Target::Utf8, ByteOrder::Big),
        Some(Mode::Utf32ToUtf8 { little: false })
    );
    assert_eq!(
        Mode::new(Target::Utf8, ByteOrder::Little),
        Some(Mode::Utf32ToUtf8 { little: true })
    );
    assert_eq!(
        Mode::new(Target::Utf32, ByteOrder::Big),
        Some(Mode::Utf8ToUtf32 { little: false })
    );
    assert_eq!(
        Mode::new(Target::Utf32, ByteOrder::Little),
        Some(Mode::Utf8ToUtf32 { little: true })
    );
    assert_eq!(Mode::new(Target::Utf32, ByteOrder::Swap), Some(Mode::EndianSwap));
}

#[test]
fn lone_continuation_byte_fails() {
    let input: Vec<u8> = vec![0x80];
    let r = transcode(Mode::Utf8ToUtf32 { little: false }, &input);
    assert_eq!(r, Err(CodecError::InvalidUtf8));

    let mixed: Vec<u8> = vec![0x41, 0x80, 0x42];
    let r = transcode(Mode::Utf8ToUtf32 { little: false }, &mixed);
    assert_eq!(r, Err(CodecError::InvalidUtf8), "no partial output survives the fault");
}

#[test]
fn utf32be_letter_a_to_utf8() {
    let input: Vec<u8> = vec![0x00, 0x00, 0x00, 0x41];
    let mode = Mode::new(Target::Utf8, ByteOrder::Big).unwrap();
    assert_eq!(transcode(mode, &input), Ok(vec![0x41]));
}

#[test]
fn utf8_e_acute_to_utf32le() {
    let input: Vec<u8> = vec![0xC3, 0xA9];
    let mode = Mode::new(Target::Utf32, ByteOrder::Little).unwrap();
    assert_eq!(transcode(mode, &input), Ok(vec![0xE9, 0x00, 0x00, 0x00]));
}

#[test]
fn utf32le_letter_a_endian_swapped() {
    let input: Vec<u8> = vec![0x41, 0x00, 0x00, 0x00];
    let mode = Mode::new(Target::Utf32, ByteOrder::Swap).unwrap();
    assert_eq!(transcode(mode, &input), Ok(vec![0x00, 0x00, 0x00, 0x41]));
}

#[test]
fn utf8_len_of_lead_byte_patterns() {
    assert_eq!(utf8_len_of(0x00), 1);
    assert_eq!(utf8_len_of(0x7F), 1);
    assert_eq!(utf8_len_of(0x80), 0);
    assert_eq!(utf8_len_of(0xBF), 0);
    assert_eq!(utf8_len_of(0xC0), 2);
    assert_eq!(utf8_len_of(0xDF), 2);
    assert_eq!(utf8_len_of(0xE0), 3);
    assert_eq!(utf8_len_of(0xEF), 3);
    assert_eq!(utf8_len_of(0xF0), 4);
    assert_eq!(utf8_len_of(0xF7), 4);
    assert_eq!(utf8_len_of(0xF8), 0);
    assert_eq!(utf8_len_of(0xFF), 0);
}

#[test]
fn to32_decodes_each_length() {
    assert_eq!(to32(&vec![0x41]), Ok(0x41));
    assert_eq!(to32(&vec![0xC3, 0xA9]), Ok(0xE9));
    assert_eq!(to32(&vec![0xE2, 0x82, 0xAC]), Ok(0x20AC));
    assert_eq!(to32(&vec![0xF0, 0x9F, 0x98, 0x80]), Ok(0x1F600));
}

#[test]
fn to32_rejects_malformed_units() {
    assert_eq!(to32(&Vec::new()), Err(CodecError::InvalidUtf8));
    assert_eq!(to32(&vec![0x80]), Err(CodecError::InvalidUtf8));
    assert_eq!(to32(&vec![0xF8]), Err(CodecError::InvalidUtf8));
    assert_eq!(to32(&vec![0xC3]), Err(CodecError::InvalidUtf8), "cut short after the lead byte");
    assert_eq!(to32(&vec![0xE2, 0x82]), Err(CodecError::InvalidUtf8));
    assert_eq!(to32(&vec![0xF0, 0x9F, 0x98]), Err(CodecError::InvalidUtf8));
}

#[test]
fn to32_reads_continuation_bytes_permissively() {
    // Continuation bytes are not checked for the 10xxxxxx marker: only
    // their low six bits are read.
    assert_eq!(to32(&vec![0xC2, 0x07]), Ok(0x87));
    // An overlong two-byte form of NUL decodes to 0.
    assert_eq!(to32(&vec![0xC0, 0x80]), Ok(0x00));
}

#[test]
fn to8_encodes_each_significant_byte_count() {
    let mut out: Vec<u8> = Vec::new();
    assert_eq!(to8(&vec![0x41], &mut out), Ok(()));
    assert_eq!(out, vec![0x41]);

    let mut out: Vec<u8> = Vec::new();
    assert_eq!(to8(&vec![0xE9], &mut out), Ok(()));
    assert_eq!(out, vec![0xC3, 0xA9]);

    let mut out: Vec<u8> = Vec::new();
    assert_eq!(to8(&vec![0x07, 0xFF], &mut out), Ok(()));
    assert_eq!(out, vec![0xDF, 0xBF]);

    let mut out: Vec<u8> = Vec::new();
    assert_eq!(to8(&vec![0x20, 0xAC], &mut out), Ok(()));
    assert_eq!(out, vec![0xE2, 0x82, 0xAC]);

    let mut out: Vec<u8> = Vec::new();
    assert_eq!(to8(&vec![0x01, 0xF6, 0x00], &mut out), Ok(()));
    assert_eq!(out, vec![0xF0, 0x9F, 0x98, 0x80]);
}

#[test]
fn to8_rejects_out_of_range_quads() {
    let mut out: Vec<u8> = vec![0x41];
    assert_eq!(to8(&vec![0x01, 0x00, 0x00, 0x00], &mut out), Err(CodecError::InvalidUtf32));
    assert_eq!(out, vec![0x41], "a failed unit appends nothing");

    let mut out: Vec<u8> = Vec::new();
    assert_eq!(to8(&Vec::new(), &mut out), Err(CodecError::InvalidUtf32));
    assert_eq!(out, Vec::<u8>::new());
}

#[test]
fn utf32_to_utf8_rejects_wide_quads() {
    let input: Vec<u8> = vec![0x01, 0x00, 0x00, 0x00];
    assert_eq!(utf32_to_utf8(&input, false), Err(CodecError::InvalidUtf32));
    let input_le: Vec<u8> = vec![0x00, 0x00, 0x00, 0x01];
    assert_eq!(utf32_to_utf8(&input_le, true), Err(CodecError::InvalidUtf32));
}

#[test]
fn utf32_to_utf8_drops_trailing_fragment() {
    let input: Vec<u8> = vec![0x00, 0x00, 0x00, 0x41, 0x00, 0x00];
    assert_eq!(utf32_to_utf8(&input, false), Ok(vec![0x41]));
}

#[test]
fn utf8_to_utf32_multi_unit_stream() {
    // "Aé€😀" as UTF-8.
    let input: Vec<u8> = vec![0x41, 0xC3, 0xA9, 0xE2, 0x82, 0xAC, 0xF0, 0x9F, 0x98, 0x80];
    let be = utf8_to_utf32(&input, false).unwrap();
    assert_eq!(
        be,
        vec![
            0x00, 0x00, 0x00, 0x41, 0x00, 0x00, 0x00, 0xE9, 0x00, 0x00, 0x20, 0xAC, 0x00, 0x01,
            0xF6, 0x00,
        ]
    );
    let le = utf8_to_utf32(&input, true).unwrap();
    assert_eq!(le, endian_swap(&be));
}

#[test]
fn error_messages_name_the_class() {
    assert_eq!(CodecError::InvalidUtf8.message(), "Invalid UTF-8");
    assert_eq!(CodecError::InvalidUtf32.message(), "Invalid UTF-32 input.");
}

#[test]
fn empty_stream_converts_to_empty_stream() {
    let empty: Vec<u8> = Vec::new();
    assert_eq!(transcode(Mode::Utf32ToUtf8 { little: false }, &empty), Ok(Vec::new()));
    assert_eq!(transcode(Mode::Utf8ToUtf32 { little: true }, &empty), Ok(Vec::new()));
    assert_eq!(transcode(Mode::EndianSwap, &empty), Ok(Vec::new()));
}
