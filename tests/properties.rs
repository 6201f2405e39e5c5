use encoding_core::ascii::{ascii_to_ascii, ascii_to_basic_latin, basic_latin_to_ascii, validate_ascii, AsciiResult};
use encoding_core::big5::Big5Decoder;
use encoding_core::euc_jp::EucJpDecoder;
use encoding_core::gb18030::{Gb18030Decoder, Gb18030Encoder, Gb18030Pending};
use encoding_core::replacement::ReplacementDecoder;
use encoding_core::results::{DecoderResult, EncodeStep, EncoderResult};
use encoding_core::utf_8_core::run_utf8_validation;
use encoding_core::variant::{VariantDecoder, VariantEncoding};

/// One decoding call into a generous UTF-16 buffer.
fn call16(decoder: &mut VariantDecoder, src: &[u8], last: bool) -> (DecoderResult, usize, Vec<u16>) {
    let mut buf = [0u16; 64];
    let (result, read, written) = decoder.decode_to_utf16(src, &mut buf, last);
    (result, read, buf[..written].to_vec())
}

/// Decodes a whole stream, turning each malformed sequence into U+FFFD.
fn decode_stream(decoder: &mut VariantDecoder, src: &[u8], last: bool) -> Vec<u16> {
    let mut out = Vec::new();
    let mut pos = 0;
    loop {
        let (result, read, units) = call16(decoder, &src[pos..], last);
        out.extend_from_slice(&units);
        pos += read;
        match result {
            DecoderResult::InputEmpty => return out,
            DecoderResult::OutputFull => {}
            DecoderResult::Malformed(_, _) => out.push(0xFFFD),
        }
    }
}

fn utf16(s: &str) -> Vec<u16> {
    s.encode_utf16().collect()
}

fn encode_one(encoding: VariantEncoding, s: &str) -> (EncoderResult, Vec<u8>) {
    let mut encoder = encoding.new_encoder().unwrap();
    let mut buf = [0u8; 16];
    let (result, _, written) = encoder.encode_from_utf8(s, &mut buf, true);
    (result, buf[..written].to_vec())
}

#[test]
fn scenario_big5_single_pair() {
    let mut d = VariantEncoding::Big5.new_decoder();
    assert_eq!(call16(&mut d, &[0x87, 0x40], true), (DecoderResult::InputEmpty, 2, utf16("\u{43F0}")));
}

#[test]
fn scenario_big5_combining_pair() {
    let mut d = VariantEncoding::Big5.new_decoder();
    assert_eq!(call16(&mut d, &[0x88, 0x62], true), (DecoderResult::InputEmpty, 2, utf16("\u{00CA}\u{0304}")));
}

#[test]
fn scenario_big5_lead_across_calls() {
    let mut d = VariantEncoding::Big5.new_decoder();
    assert_eq!(call16(&mut d, &[0x87], false), (DecoderResult::InputEmpty, 1, vec![]));
    assert_eq!(call16(&mut d, &[0x40], true), (DecoderResult::InputEmpty, 1, utf16("\u{43F0}")));
    match d {
        VariantDecoder::Big5(b) => assert_eq!(b.lead, 0),
        _ => panic!("wrong variant"),
    }
}

#[test]
fn scenario_big5_lone_lead_at_end() {
    let mut d = VariantEncoding::Big5.new_decoder();
    assert_eq!(call16(&mut d, &[0x81], true), (DecoderResult::Malformed(1, 0), 1, vec![]));
}

#[test]
fn scenario_euc_jp_half_width_and_jis0212() {
    let mut d = VariantEncoding::EucJp.new_decoder();
    assert_eq!(call16(&mut d, &[0x8E, 0xA1], true), (DecoderResult::InputEmpty, 2, utf16("\u{FF61}")));
    let mut d = VariantEncoding::EucJp.new_decoder();
    assert_eq!(call16(&mut d, &[0x8F, 0xA2, 0xAF], true), (DecoderResult::InputEmpty, 3, utf16("\u{02D8}")));
}

#[test]
fn scenario_gb18030_four_byte() {
    let mut d = VariantEncoding::Gb18030.new_decoder();
    assert_eq!(call16(&mut d, &[0x81, 0x30, 0x81, 0x30], true), (DecoderResult::InputEmpty, 4, utf16("\u{0080}")));
    let mut d = VariantEncoding::Gb18030.new_decoder();
    assert_eq!(call16(&mut d, &[0x94, 0x39, 0xDA, 0x33], true), (DecoderResult::InputEmpty, 4, utf16("\u{1F4A9}")));
}

#[test]
fn scenario_gb18030_failed_four_byte_sequences() {
    let src = [0xE3u8, 0x32, 0x9A, 0x36, 0x81, 0x40];
    let mut d = VariantEncoding::Gb18030.new_decoder();
    let (r, read, out) = call16(&mut d, &src, true);
    assert_eq!((r, read, out), (DecoderResult::Malformed(1, 2), 3, vec![]));
    // 0x36 0x81 0x40 starts another four-byte sequence that fails at 0x40.
    let (r, read2, out) = call16(&mut d, &src[read..], true);
    assert_eq!((r, read2, out), (DecoderResult::Malformed(1, 2), 2, utf16("2")));
    let (r, read3, out) = call16(&mut d, &src[read + read2..], true);
    assert_eq!((r, read3, out), (DecoderResult::InputEmpty, 1, utf16("6\u{4E02}")));
    // A second digit where a third byte belongs fails after one byte.
    let mut d = VariantEncoding::Gb18030.new_decoder();
    assert_eq!(call16(&mut d, &[0x81, 0x30, 0x41], true), (DecoderResult::Malformed(1, 1), 2, vec![]));
    assert_eq!(call16(&mut d, &[0x41], true), (DecoderResult::InputEmpty, 1, utf16("0A")));
}

#[test]
fn scenario_euro_in_gbk_and_gb18030() {
    assert_eq!(encode_one(VariantEncoding::Gbk, "\u{20AC}"), (EncoderResult::InputEmpty, vec![0x80]));
    assert_eq!(encode_one(VariantEncoding::Gb18030, "\u{20AC}"), (EncoderResult::InputEmpty, vec![0xA2, 0xE3]));
    assert_eq!(
        encode_one(VariantEncoding::Gb18030, "\u{1F4A9}"),
        (EncoderResult::InputEmpty, vec![0x94, 0x39, 0xDA, 0x33])
    );
}

#[test]
fn round_trip_of_mappable_scalars() {
    let cases: [(VariantEncoding, &str); 6] = [
        (VariantEncoding::Big5, "a\u{79D4}\u{2910D}\u{3000}\u{2550}"),
        (VariantEncoding::EucJp, "a\u{3000}\u{FF61}\u{FF9F}\u{FF02}"),
        (VariantEncoding::Gb18030, "a\u{20AC}\u{4E02}\u{E4C5}\u{0080}\u{E7C7}\u{1F4A9}\u{10FFFF}"),
        (VariantEncoding::Gbk, "a\u{20AC}\u{4E02}\u{3000}"),
        (VariantEncoding::Gb18030, "\u{2603}\u{309B8}\u{FFFF}"),
        (VariantEncoding::Big5, "\u{27607}\u{FFE2}"),
    ];
    for (encoding, text) in cases.iter() {
        for ch in text.chars() {
            let s = ch.to_string();
            let (result, bytes) = encode_one(*encoding, &s);
            assert_eq!(result, EncoderResult::InputEmpty);
            let mut d = encoding.new_decoder();
            assert_eq!(call16(&mut d, &bytes, true), (DecoderResult::InputEmpty, bytes.len(), utf16(&s)));
        }
    }
}

#[test]
fn chunks_decode_like_the_whole() {
    let inputs: [(VariantEncoding, &[u8]); 3] = [
        (VariantEncoding::Gb18030, &[0x61, 0xE3, 0x32, 0x9A, 0x36, 0x81, 0x40, 0x94, 0x39, 0xDA, 0x33, 0x80, 0xFF]),
        (VariantEncoding::Big5, &[0x61, 0x88, 0x62, 0x87, 0x40, 0x81, 0x40, 0xFE, 0xFD, 0x81]),
        (VariantEncoding::EucJp, &[0x8F, 0xA2, 0xAF, 0x8E, 0xA1, 0xA1, 0x40, 0xFC, 0xFE, 0x8E]),
    ];
    for (encoding, input) in inputs.iter() {
        let mut whole = encoding.new_decoder();
        let expected = decode_stream(&mut whole, input, true);
        for cut in 0..=input.len() {
            for cut2 in cut..=input.len() {
                let mut d = encoding.new_decoder();
                let mut out = decode_stream(&mut d, &input[..cut], false);
                out.extend(decode_stream(&mut d, &input[cut..cut2], false));
                out.extend(decode_stream(&mut d, &input[cut2..], true));
                assert_eq!(out, expected);
            }
        }
    }
}

#[test]
fn counts_stay_within_buffers_and_resume_matches_fresh_decoder() {
    let src = [0xE3u8, 0x32, 0x9A, 0x36, 0x81, 0x40, 0x62];
    let mut d = VariantEncoding::Gb18030.new_decoder();
    let (r, read, out) = call16(&mut d, &src, true);
    assert!(read <= src.len() && out.len() <= 64);
    let extra = match r {
        DecoderResult::Malformed(_, e) => e as usize,
        _ => panic!("expected a malformed sequence"),
    };
    let resumed = decode_stream(&mut d, &src[read..], true);
    let mut fresh = VariantEncoding::Gb18030.new_decoder();
    let restarted = decode_stream(&mut fresh, &src[read - extra..], true);
    assert_eq!(resumed, restarted);
    assert_eq!(resumed, utf16("2\u{FFFD}6\u{4E02}b"));
}

#[test]
fn reset_decoder_behaves_like_new() {
    for encoding in [VariantEncoding::Big5, VariantEncoding::EucJp, VariantEncoding::Gb18030, VariantEncoding::Replacement].iter() {
        let input = [0x81u8, 0x30, 0x8E, 0xA1, 0x41];
        let mut used = encoding.new_decoder();
        let _ = call16(&mut used, &[0x8F, 0x81, 0x39], false);
        used.reset();
        let mut fresh = encoding.new_decoder();
        assert_eq!(decode_stream(&mut used, &input, true), decode_stream(&mut fresh, &input, true));
    }
}

#[test]
fn buffer_bounds_hold_and_have_their_values() {
    let mut big5 = VariantEncoding::Big5.new_decoder();
    assert_eq!(big5.max_utf16_buffer_length(10), 11);
    assert_eq!(big5.max_utf8_buffer_length(10), 20);
    assert_eq!(big5.max_utf8_buffer_length_with_replacement(10), 33);
    let _ = call16(&mut big5, &[0x88], false);
    assert_eq!(big5.max_utf16_buffer_length(1), 3);
    assert_eq!(big5.max_utf8_buffer_length(1), 4);
    let mut buf = [0u16; 3];
    let (_, _, written) = big5.decode_to_utf16(&[0x62], &mut buf, true);
    assert_eq!(written, 2);

    let euc = VariantEncoding::EucJp.new_decoder();
    assert_eq!(euc.max_utf16_buffer_length(4), 4);
    assert_eq!(euc.max_utf8_buffer_length(4), 6);
    assert_eq!(euc.max_utf8_buffer_length_with_replacement(4), 12);

    let gb = VariantEncoding::Gb18030.new_decoder();
    assert_eq!(gb.max_utf16_buffer_length(4), 5);
    assert_eq!(gb.max_utf8_buffer_length(4), 13);
    let mut out8 = [0u8; 13];
    let mut gb = VariantEncoding::Gb18030.new_decoder();
    let (_, _, written) = gb.decode_to_utf8(&[0x80, 0x80, 0x80, 0x80], &mut out8, true);
    assert_eq!(written, 12);

    let rep = VariantEncoding::Replacement.new_decoder();
    assert_eq!(rep.max_utf16_buffer_length(100), 1);
    assert_eq!(rep.max_utf8_buffer_length_with_replacement(100), 3);

    let gbk = VariantEncoding::Gbk.new_encoder().unwrap();
    let gb18030 = VariantEncoding::Gb18030.new_encoder().unwrap();
    assert_eq!(gbk.max_buffer_length_from_utf16(5), 10);
    assert_eq!(gb18030.max_buffer_length_from_utf16(5), 20);
    assert_eq!(gb18030.max_buffer_length_from_utf8(5), 10);
    assert_eq!(gbk.max_buffer_length_from_utf8(5), 5);
    assert_eq!(gbk.max_buffer_length_from_utf16_with_replacement_if_no_unmappables(5), 20);
    assert_eq!(gb18030.max_buffer_length_from_utf8_with_replacement_if_no_unmappables(5), 20);
}

#[test]
fn output_full_and_unmappable() {
    let mut d = VariantEncoding::Big5.new_decoder();
    let mut buf = [0u16; 1];
    // A lead needs room for two units before it is read.
    assert_eq!(d.decode_to_utf16(&[0x61, 0x87, 0x40], &mut buf, true), (DecoderResult::OutputFull, 1, 1));
    let mut gb = VariantEncoding::Gb18030.new_decoder();
    let mut empty: [u16; 0] = [];
    assert_eq!(gb.decode_to_utf16(&[0x61], &mut empty, true), (DecoderResult::OutputFull, 0, 0));

    let mut e = VariantEncoding::EucJp.new_encoder().unwrap();
    let mut out = [0u8; 8];
    assert_eq!(e.encode_from_utf8("a\u{02D8}b", &mut out, true), (EncoderResult::Unmappable(0x02D8), 3, 1));
    let mut small = [0u8; 1];
    assert_eq!(e.encode_from_utf16(&[0x3000], &mut small, true), (EncoderResult::OutputFull, 0, 0));
    // An unpaired surrogate reads as U+FFFD, which EUC-JP cannot map.
    assert_eq!(e.encode_from_utf16(&[0xD800, 0x61], &mut out, true), (EncoderResult::Unmappable(0xFFFD), 1, 0));
    assert_eq!(VariantEncoding::Replacement.new_encoder().is_none(), true);
}

#[test]
fn encode_scalar_steps() {
    let gbk = VariantEncoding::Gbk.new_encoder().unwrap();
    assert_eq!(gbk.encode_scalar(0x20AC), EncodeStep::One(0x80));
    assert_eq!(gbk.encode_scalar(0x1F4A9), EncodeStep::Unmappable);
    let gb = VariantEncoding::Gb18030.new_encoder().unwrap();
    assert_eq!(gb.encode_scalar(0xE5E5), EncodeStep::Unmappable);
    assert_eq!(gb.encode_scalar(0x1E3F), EncodeStep::Two(0xA8, 0xBC));
    match Gb18030Encoder::new(true) {
        encoding_core::variant::VariantEncoder::Gb18030(g) => assert!(g.extended),
        _ => panic!("wrong variant"),
    }
}

#[test]
fn gb18030_raw_utf8_decoding_flushes_pending_ascii() {
    let mut d = Gb18030Decoder { pending: Gb18030Pending::Empty, pending_ascii: None };
    let mut out = [0u8; 16];
    assert_eq!(d.decode_to_utf8_raw(&[0x81, 0x32, 0x41], &mut out, false), (DecoderResult::Malformed(1, 1), 2, 0));
    assert_eq!(d.pending_ascii, Some(0x32));
    assert_eq!(d.decode_to_utf8_raw(&[0x41], &mut out, true), (DecoderResult::InputEmpty, 1, 2));
    assert_eq!(&out[..2], b"2A");
    assert_eq!(d.max_utf16_buffer_length(0), 1);
}

#[test]
fn replacement_decoder_reports_once() {
    let mut r = ReplacementDecoder { emitted: false };
    let mut out16 = [0u16; 0];
    let mut out8 = [0u8; 0];
    assert_eq!(r.decode_to_utf16_raw(b"", &mut out16, false), (DecoderResult::InputEmpty, 0, 0));
    assert_eq!(r.decode_to_utf16_raw(b"AB", &mut out16, false), (DecoderResult::Malformed(1, 0), 1, 0));
    assert_eq!(r.decode_to_utf8_raw(b"B", &mut out8, true), (DecoderResult::InputEmpty, 1, 0));
    assert_eq!(r.max_utf16_buffer_length(9), 1);
    assert_eq!(r.max_utf8_buffer_length_without_replacement(9), 1);
    assert_eq!(r.max_utf8_buffer_length(9), 3);
    match ReplacementDecoder::new() {
        VariantDecoder::Replacement(d) => assert!(!d.emitted),
        _ => panic!("wrong variant"),
    }
}

#[test]
fn decoder_constructors_start_empty() {
    match Big5Decoder::new() {
        VariantDecoder::Big5(d) => assert_eq!(d.lead, 0),
        _ => panic!("wrong variant"),
    }
    match EucJpDecoder::new() {
        VariantDecoder::EucJp(d) => assert_eq!((d.lead, d.jis0212), (0, false)),
        _ => panic!("wrong variant"),
    }
    match Gb18030Decoder::new() {
        VariantDecoder::Gb18030(d) => assert!(d.pending == Gb18030Pending::Empty && d.pending_ascii.is_none()),
        _ => panic!("wrong variant"),
    }
}

#[test]
fn utf8_validation_finds_first_bad_sequence() {
    assert!(run_utf8_validation(b"plain ascii").is_ok());
    assert!(run_utf8_validation("\u{E9}\u{20AC}\u{1F4A9}".as_bytes()).is_ok());
    assert_eq!(run_utf8_validation(&[0, 159, 146, 150]).unwrap_err().valid_up_to(), 1);
    // Surrogates, overlong forms and values above U+10FFFF are refused.
    assert_eq!(run_utf8_validation(&[0x61, 0xED, 0xA0, 0x80]).unwrap_err().valid_up_to(), 1);
    assert_eq!(run_utf8_validation(&[0xE0, 0x80, 0x80]).unwrap_err().valid_up_to(), 0);
    assert_eq!(run_utf8_validation(&[0xC3, 0xA9, 0xF4, 0x90, 0x80, 0x80]).unwrap_err().valid_up_to(), 2);
    assert_eq!(run_utf8_validation(&[0x61, 0x62, 0xE2, 0x82]).unwrap_err().valid_up_to(), 2);
    assert_eq!(run_utf8_validation(&[0xC1, 0x81]).unwrap_err().valid_up_to(), 0);
}

#[test]
fn ascii_copies_stop_at_non_ascii_or_buffer_end() {
    let mut dst = [0u16; 8];
    let (r, n) = ascii_to_basic_latin(b"ab\xC3c", &mut dst);
    assert!(matches!(r, AsciiResult::NonAscii(0xC3)));
    assert_eq!((n, &dst[..2]), (2, &[0x61u16, 0x62][..]));
    let mut small = [0u8; 2];
    let (r, n) = ascii_to_ascii(b"abc", &mut small);
    assert!(matches!(r, AsciiResult::OutputFull));
    assert_eq!((n, &small[..]), (2, &b"ab"[..]));
    let mut big = [0u8; 4];
    let (r, n) = basic_latin_to_ascii(&[0x61, 0x62], &mut big);
    assert!(matches!(r, AsciiResult::InputEmpty));
    assert_eq!((n, &big[..2]), (2, &b"ab"[..]));
    assert_eq!(validate_ascii(b"abc"), None);
    assert_eq!(validate_ascii(b"a\x80"), Some((0x80, 1)));
}

#[test]
fn euc_jp_forgets_jis0212_after_an_error() {
    let mut d = VariantEncoding::EucJp.new_decoder();
    assert_eq!(decode_stream(&mut d, &[0x8F, 0xA2, 0x41, 0xA1, 0xA1], true), utf16("\u{FFFD}A\u{3000}"));
    match d {
        VariantDecoder::EucJp(e) => assert_eq!((e.lead, e.jis0212), (0, false)),
        _ => panic!("wrong variant"),
    }
}

#[test]
fn gb18030_moved_mappings() {
    let mut d = VariantEncoding::Gb18030.new_decoder();
    assert_eq!(call16(&mut d, &[0xA8, 0xBC], true), (DecoderResult::InputEmpty, 2, utf16("\u{1E3F}")));
    assert_eq!(encode_one(VariantEncoding::Gb18030, "\u{1E3F}"), (EncoderResult::InputEmpty, vec![0xA8, 0xBC]));
    assert_eq!(encode_one(VariantEncoding::Gbk, "\u{E7C7}"), (EncoderResult::Unmappable(0xE7C7), vec![]));
}

#[test]
fn gb18030_four_byte_u_ffff() {
    let bytes = [0x84u8, 0x31, 0xA4, 0x39];
    let mut d = VariantEncoding::Gb18030.new_decoder();
    assert_eq!(call16(&mut d, &bytes, true), (DecoderResult::InputEmpty, 4, vec![0xFFFF]));
    let mut d = VariantEncoding::Gb18030.new_decoder();
    let mut out8 = [0u8; 8];
    assert_eq!(d.decode_to_utf8(&bytes, &mut out8, true), (DecoderResult::InputEmpty, 4, 3));
    assert_eq!(&out8[..3], "\u{FFFF}".as_bytes());
    assert_eq!(encode_one(VariantEncoding::Gb18030, "\u{FFFF}"), (EncoderResult::InputEmpty, bytes.to_vec()));
    let mut e = VariantEncoding::Gb18030.new_encoder().unwrap();
    let mut out = [0u8; 8];
    assert_eq!(e.encode_from_utf16(&[0xFFFF], &mut out, true), (EncoderResult::InputEmpty, 1, 4));
    assert_eq!(&out[..4], &bytes[..]);
}

#[test]
fn replacement_raw_calls_leave_dst_alone() {
    let mut r = ReplacementDecoder { emitted: false };
    let mut out16 = [7u16; 2];
    let mut out8 = [9u8; 2];
    assert_eq!(r.decode_to_utf16_raw(b"xy", &mut out16, true), (DecoderResult::Malformed(1, 0), 1, 0));
    assert_eq!(r.decode_to_utf8_raw(b"y", &mut out8, true), (DecoderResult::InputEmpty, 1, 0));
    assert_eq!((out16, out8), ([7u16; 2], [9u8; 2]));
}

#[test]
fn advertised_buffers_never_run_out() {
    let inputs: [&[u8]; 4] = [b"abc", &[0x81, 0x30, 0x81], &[0x88, 0x62, 0xA1, 0xA1, 0x8E], &[0xE3, 0x32, 0x9A, 0x36, 0x81, 0x40]];
    for encoding in [VariantEncoding::Big5, VariantEncoding::EucJp, VariantEncoding::Gb18030, VariantEncoding::Replacement].iter() {
        for input in inputs.iter() {
            let mut d = encoding.new_decoder();
            let mut buf16 = vec![0u16; d.max_utf16_buffer_length(input.len())];
            let (r, _, _) = d.decode_to_utf16(input, &mut buf16, true);
            assert_ne!(r, DecoderResult::OutputFull);
            let mut d = encoding.new_decoder();
            let mut buf8 = vec![0u8; d.max_utf8_buffer_length_with_replacement(input.len())];
            let (r, _, _) = d.decode_to_utf8(input, &mut buf8, true);
            assert_ne!(r, DecoderResult::OutputFull);
        }
    }
    // The bound without replacement does not leave room for a lone Big5 lead.
    let mut d = VariantEncoding::Big5.new_decoder();
    let mut buf8 = vec![0u8; d.max_utf8_buffer_length(1)];
    assert_eq!(d.decode_to_utf8(&[0x81], &mut buf8, true), (DecoderResult::OutputFull, 0, 0));

    let text = "a\u{20AC}\u{1F4A9}\u{4E02}";
    let units: Vec<u16> = text.encode_utf16().collect();
    for encoding in [VariantEncoding::Gbk, VariantEncoding::Gb18030, VariantEncoding::Big5, VariantEncoding::EucJp].iter() {
        let mut e = encoding.new_encoder().unwrap();
        let mut out = vec![0u8; e.max_buffer_length_from_utf8(text.len())];
        let (r, _, _) = e.encode_from_utf8(text, &mut out, true);
        assert_ne!(r, EncoderResult::OutputFull);
        let mut out = vec![0u8; e.max_buffer_length_from_utf16(units.len())];
        let (r, _, _) = e.encode_from_utf16(&units, &mut out, true);
        assert_ne!(r, EncoderResult::OutputFull);
    }
}
