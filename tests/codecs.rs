use encoding_core::results::{DecoderResult, EncoderResult};
use encoding_core::variant::VariantEncoding;

/// Decodes the whole input, writing U+FFFD for each malformed sequence, once
/// into UTF-16 and once into UTF-8, and checks that both agree.
fn decode_with_replacement(encoding: VariantEncoding, bytes: &[u8]) -> String {
    let mut decoder = encoding.new_decoder();
    let mut units: Vec<u16> = Vec::new();
    let mut buf = [0u16; 64];
    let mut pos = 0;
    loop {
        let (result, read, written) = decoder.decode_to_utf16(&bytes[pos..], &mut buf, true);
        units.extend_from_slice(&buf[..written]);
        pos += read;
        match result {
            DecoderResult::InputEmpty => break,
            DecoderResult::OutputFull => {}
            DecoderResult::Malformed(_, _) => units.push(0xFFFD),
        }
    }
    let from_utf16 = String::from_utf16(&units).unwrap();

    let mut decoder = encoding.new_decoder();
    let mut out: Vec<u8> = Vec::new();
    let mut buf8 = [0u8; 64];
    let mut pos = 0;
    loop {
        let (result, read, written) = decoder.decode_to_utf8(&bytes[pos..], &mut buf8, true);
        out.extend_from_slice(&buf8[..written]);
        pos += read;
        match result {
            DecoderResult::InputEmpty => break,
            DecoderResult::OutputFull => {}
            DecoderResult::Malformed(_, _) => out.extend_from_slice("\u{FFFD}".as_bytes()),
        }
    }
    let from_utf8 = String::from_utf8(out).unwrap();
    assert_eq!(from_utf16, from_utf8);
    from_utf16
}

fn decode(encoding: VariantEncoding, bytes: &[u8], expect: &str) {
    assert_eq!(decode_with_replacement(encoding, bytes), expect);
}

/// Encodes the whole string, writing a numeric character reference for
/// each unmappable scalar, once from UTF-8 and once from UTF-16.
fn encode(encoding: VariantEncoding, string: &str, expect: &[u8]) {
    let mut encoder = encoding.new_encoder().unwrap();
    let mut out: Vec<u8> = Vec::new();
    let mut buf = [0u8; 64];
    let mut pos = 0;
    loop {
        let (result, read, written) = encoder.encode_from_utf8(&string[pos..], &mut buf, true);
        out.extend_from_slice(&buf[..written]);
        pos += read;
        match result {
            EncoderResult::InputEmpty => break,
            EncoderResult::OutputFull => {}
            EncoderResult::Unmappable(c) => out.extend_from_slice(format!("&#{};", c).as_bytes()),
        }
    }
    assert_eq!(&out[..], expect);

    let units: Vec<u16> = string.encode_utf16().collect();
    let mut out: Vec<u8> = Vec::new();
    let mut pos = 0;
    loop {
        let (result, read, written) = encoder.encode_from_utf16(&units[pos..], &mut buf, true);
        out.extend_from_slice(&buf[..written]);
        pos += read;
        match result {
            EncoderResult::InputEmpty => break,
            EncoderResult::OutputFull => {}
            EncoderResult::Unmappable(c) => out.extend_from_slice(format!("&#{};", c).as_bytes()),
        }
    }
    assert_eq!(&out[..], expect);
}

fn decode_big5(bytes: &[u8], expect: &str) {
    decode(VariantEncoding::Big5, bytes, expect);
}

fn encode_big5(string: &str, expect: &[u8]) {
    encode(VariantEncoding::Big5, string, expect);
}

fn decode_euc_jp(bytes: &[u8], expect: &str) {
    decode(VariantEncoding::EucJp, bytes, expect);
}

fn encode_euc_jp(string: &str, expect: &[u8]) {
    encode(VariantEncoding::EucJp, string, expect);
}

fn decode_gb18030(bytes: &[u8], expect: &str) {
    decode(VariantEncoding::Gb18030, bytes, expect);
}

fn encode_gb18030(string: &str, expect: &[u8]) {
    encode(VariantEncoding::Gb18030, string, expect);
}

fn encode_gbk(string: &str, expect: &[u8]) {
    encode(VariantEncoding::Gbk, string, expect);
}

fn decode_replacement(bytes: &[u8], expect: &str) {
    decode(VariantEncoding::Replacement, bytes, expect);
}

#[test]
fn test_big5_decode() {
    // Empty
    decode_big5(b"", &"");

    // ASCII
    decode_big5(&[0x61u8, 0x62u8], &"\u{0061}\u{0062}");

    // Edge cases
    decode_big5(&[0x87u8, 0x40u8], &"\u{43F0}");
    decode_big5(&[0xFEu8, 0xFEu8], &"\u{79D4}");
    decode_big5(&[0xFEu8, 0xFDu8], &"\u{2910D}");
    decode_big5(&[0x88u8, 0x62u8], &"\u{00CA}\u{0304}");
    decode_big5(&[0x88u8, 0x64u8], &"\u{00CA}\u{030C}");
    decode_big5(&[0x88u8, 0x66u8], &"\u{00CA}");
    decode_big5(&[0x88u8, 0xA3u8], &"\u{00EA}\u{0304}");
    decode_big5(&[0x88u8, 0xA5u8], &"\u{00EA}\u{030C}");
    decode_big5(&[0x88u8, 0xA7u8], &"\u{00EA}");
    decode_big5(&[0x99u8, 0xD4u8], &"\u{8991}");
    decode_big5(&[0x99u8, 0xD5u8], &"\u{27967}");
    decode_big5(&[0x99u8, 0xD6u8], &"\u{8A29}");

    // Edge cases surrounded with ASCII
    decode_big5(&[0x61u8, 0x87u8, 0x40u8, 0x62u8], &"\u{0061}\u{43F0}\u{0062}");
    decode_big5(&[0x61u8, 0xFEu8, 0xFEu8, 0x62u8], &"\u{0061}\u{79D4}\u{0062}");
    decode_big5(&[0x61u8, 0xFEu8, 0xFDu8, 0x62u8], &"\u{0061}\u{2910D}\u{0062}");
    decode_big5(&[0x61u8, 0x88u8, 0x62u8, 0x62u8], &"\u{0061}\u{00CA}\u{0304}\u{0062}");
    decode_big5(&[0x61u8, 0x88u8, 0x64u8, 0x62u8], &"\u{0061}\u{00CA}\u{030C}\u{0062}");
    decode_big5(&[0x61u8, 0x88u8, 0x66u8, 0x62u8], &"\u{0061}\u{00CA}\u{0062}");
    decode_big5(&[0x61u8, 0x88u8, 0xA3u8, 0x62u8], &"\u{0061}\u{00EA}\u{0304}\u{0062}");
    decode_big5(&[0x61u8, 0x88u8, 0xA5u8, 0x62u8], &"\u{0061}\u{00EA}\u{030C}\u{0062}");
    decode_big5(&[0x61u8, 0x88u8, 0xA7u8, 0x62u8], &"\u{0061}\u{00EA}\u{0062}");
    decode_big5(&[0x61u8, 0x99u8, 0xD4u8, 0x62u8], &"\u{0061}\u{8991}\u{0062}");
    decode_big5(&[0x61u8, 0x99u8, 0xD5u8, 0x62u8], &"\u{0061}\u{27967}\u{0062}");
    decode_big5(&[0x61u8, 0x99u8, 0xD6u8, 0x62u8], &"\u{0061}\u{8A29}\u{0062}");

    // Bad sequences
    decode_big5(&[0x80u8, 0x61u8], &"\u{FFFD}\u{0061}");
    decode_big5(&[0xFFu8, 0x61u8], &"\u{FFFD}\u{0061}");
    decode_big5(&[0xFEu8, 0x39u8], &"\u{FFFD}\u{0039}");
    decode_big5(&[0x87u8, 0x66u8], &"\u{FFFD}\u{0066}");
    decode_big5(&[0x81u8, 0x40u8], &"\u{FFFD}\u{0040}");
    decode_big5(&[0x61u8, 0x81u8], &"\u{0061}\u{FFFD}");
}

#[test]
fn test_big5_encode() {
    // Empty
    encode_big5("", b"");

    // ASCII
    encode_big5("\u{0061}\u{0062}", b"\x61\x62");

    // Edge cases
    encode_big5("\u{9EA6}\u{0061}", b"&#40614;\x61");
    encode_big5("\u{2626B}\u{0061}", b"&#156267;\x61");
    encode_big5("\u{3000}", b"\xA1\x40");
    encode_big5("\u{20AC}", b"\xA3\xE1");
    encode_big5("\u{4E00}", b"\xA4\x40");
    encode_big5("\u{27607}", b"\xC8\xA4");
    encode_big5("\u{FFE2}", b"\xC8\xCD");
    encode_big5("\u{79D4}", b"\xFE\xFE");

    // Not in index
    encode_big5("\u{2603}\u{0061}", b"&#9731;\x61");

    // duplicate low bits
    encode_big5("\u{203B5}", b"\xFD\x6A");

    // prefer last
    encode_big5("\u{2550}", b"\xF9\xF9");
}

#[test]
fn test_euc_jp_decode() {
    // ASCII
    decode_euc_jp(b"\x61\x62", "\u{0061}\u{0062}");

    // Half-width
    decode_euc_jp(b"\x8E\xA1", "\u{FF61}");
    decode_euc_jp(b"\x8E\xDF", "\u{FF9F}");
    decode_euc_jp(b"\x8E\xA0", "\u{FFFD}\u{FFFD}");
    decode_euc_jp(b"\x8E\xE0", "\u{FFFD}");
    decode_euc_jp(b"\x8E\xFF", "\u{FFFD}\u{FFFD}");

    // JIS 0212
    decode_euc_jp(b"\x8F\xA1\xA1", "\u{FFFD}");
    decode_euc_jp(b"\x8F\xA2\xAF", "\u{02D8}");
    decode_euc_jp(b"\x8F\xA2\xFF", "\u{FFFD}\u{FFFD}");

    // JIS 0208
    decode_euc_jp(b"\xA1\xA1", "\u{3000}");
    decode_euc_jp(b"\xA1\xA0", "\u{FFFD}\u{FFFD}");
    decode_euc_jp(b"\xFC\xFE", "\u{FF02}");
    decode_euc_jp(b"\xFE\xFE", "\u{FFFD}");

    // Bad leads
    decode_euc_jp(b"\xFF\xA1\xA1", "\u{FFFD}\u{3000}");
    decode_euc_jp(b"\xA0\xA1\xA1", "\u{FFFD}\u{3000}");
    decode_euc_jp(b"\x80\xA1\xA1", "\u{FFFD}\u{3000}");
    decode_euc_jp(b"\x81\xA1\xA1", "\u{FFFD}\u{3000}");
    decode_euc_jp(b"\x82\xA1\xA1", "\u{FFFD}\u{3000}");
    decode_euc_jp(b"\x83\xA1\xA1", "\u{FFFD}\u{3000}");
    decode_euc_jp(b"\x84\xA1\xA1", "\u{FFFD}\u{3000}");
    decode_euc_jp(b"\x85\xA1\xA1", "\u{FFFD}\u{3000}");
    decode_euc_jp(b"\x86\xA1\xA1", "\u{FFFD}\u{3000}");
    decode_euc_jp(b"\x87\xA1\xA1", "\u{FFFD}\u{3000}");
    decode_euc_jp(b"\x88\xA1\xA1", "\u{FFFD}\u{3000}");
    decode_euc_jp(b"\x89\xA1\xA1", "\u{FFFD}\u{3000}");
    decode_euc_jp(b"\x8A\xA1\xA1", "\u{FFFD}\u{3000}");
    decode_euc_jp(b"\x8B\xA1\xA1", "\u{FFFD}\u{3000}");
    decode_euc_jp(b"\x8C\xA1\xA1", "\u{FFFD}\u{3000}");
    decode_euc_jp(b"\x8D\xA1\xA1", "\u{FFFD}\u{3000}");

    // Bad ASCII trail
    decode_euc_jp(b"\xA1\x40", "\u{FFFD}\u{0040}");
}

#[test]
fn test_euc_jp_encode() {
    // ASCII
    encode_euc_jp("\u{0061}\u{0062}", b"\x61\x62");

    // Exceptional code points
    encode_euc_jp("\u{00A5}", b"\x5C");
    encode_euc_jp("\u{203E}", b"\x7E");
    encode_euc_jp("\u{2212}", b"\xA1\xDD");

    // Half-width
    encode_euc_jp("\u{FF61}", b"\x8E\xA1");
    encode_euc_jp("\u{FF9F}", b"\x8E\xDF");

    // JIS 0212
    encode_euc_jp("\u{02D8}", b"&#728;");

    // JIS 0208
    encode_euc_jp("\u{3000}", b"\xA1\xA1");
    encode_euc_jp("\u{FF02}", b"\xFC\xFE");
}

#[test]
fn test_gb18030_decode() {
    // Empty
    decode_gb18030(b"", &"");

    // ASCII
    decode_gb18030(b"\x61\x62", "\u{0061}\u{0062}");

    // euro
    decode_gb18030(b"\x80", "\u{20AC}");
    decode_gb18030(b"\xA2\xE3", "\u{20AC}");

    // two bytes
    decode_gb18030(b"\x81\x40", "\u{4E02}");
    decode_gb18030(b"\x81\x7E", "\u{4E8A}");
    decode_gb18030(b"\x81\x7F", "\u{FFFD}\u{007F}");
    decode_gb18030(b"\x81\x80", "\u{4E90}");
    decode_gb18030(b"\x81\xFE", "\u{4FA2}");
    decode_gb18030(b"\xFE\x40", "\u{FA0C}");
    decode_gb18030(b"\xFE\x7E", "\u{E843}");
    decode_gb18030(b"\xFE\x7F", "\u{FFFD}\u{007F}");
    decode_gb18030(b"\xFE\x80", "\u{4723}");
    decode_gb18030(b"\xFE\xFE", "\u{E4C5}");

    // The difference from the original GB18030
    decode_gb18030(b"\xA3\xA0", "\u{3000}");
    decode_gb18030(b"\xA1\xA1", "\u{3000}");

    // 0xFF
    decode_gb18030(b"\xFF\x40", "\u{FFFD}\u{0040}");

    // Four bytes
    decode_gb18030(b"\x81\x30\x81\x30", "\u{0080}");
    decode_gb18030(b"\x81\x35\xF4\x37", "\u{E7C7}");
    decode_gb18030(b"\x81\x37\xA3\x30", "\u{2603}");
    decode_gb18030(b"\x94\x39\xDA\x33", "\u{1F4A9}");
    decode_gb18030(b"\xE3\x32\x9A\x35", "\u{10FFFF}");
    decode_gb18030(b"\xE3\x32\x9A\x36\x81\x30", "\u{FFFD}\u{0032}\u{309B8}");
    decode_gb18030(
        b"\xE3\x32\x9A\x36\x81\x40",
        "\u{FFFD}\u{0032}\u{FFFD}\u{0036}\u{4E02}",
    );
    decode_gb18030(b"\xE3\x32\x9A", "\u{FFFD}"); // not \u{FFFD}\u{0032}\u{FFFD} !
}

#[test]
fn test_gb18030_encode() {
    // Empty
    encode_gb18030("", b"");

    // ASCII
    encode_gb18030("\u{0061}\u{0062}", b"\x61\x62");

    // euro
    encode_gb18030("\u{20AC}", b"\xA2\xE3");

    // two bytes
    encode_gb18030("\u{4E02}", b"\x81\x40");
    encode_gb18030("\u{4E8A}", b"\x81\x7E");
    encode_gb18030("\u{4E90}", b"\x81\x80");
    encode_gb18030("\u{4FA2}", b"\x81\xFE");
    encode_gb18030("\u{FA0C}", b"\xFE\x40");
    encode_gb18030("\u{E843}", b"\xFE\x7E");
    encode_gb18030("\u{4723}", b"\xFE\x80");
    encode_gb18030("\u{E4C5}", b"\xFE\xFE");

    // The difference from the original GB18030
    encode_gb18030("\u{E5E5}", b"&#58853;");
    encode_gb18030("\u{3000}", b"\xA1\xA1");

    // Four bytes
    encode_gb18030("\u{0080}", b"\x81\x30\x81\x30");
    encode_gb18030("\u{E7C7}", b"\x81\x35\xF4\x37");
    encode_gb18030("\u{2603}", b"\x81\x37\xA3\x30");
    encode_gb18030("\u{1F4A9}", b"\x94\x39\xDA\x33");
    encode_gb18030("\u{10FFFF}", b"\xE3\x32\x9A\x35");
}

#[test]
fn test_gbk_encode() {
    // Empty
    encode_gbk("", b"");

    // ASCII
    encode_gbk("\u{0061}\u{0062}", b"\x61\x62");

    // euro
    encode_gbk("\u{20AC}", b"\x80");

    // two bytes
    encode_gbk("\u{4E02}", b"\x81\x40");
    encode_gbk("\u{4E8A}", b"\x81\x7E");
    encode_gbk("\u{4E90}", b"\x81\x80");
    encode_gbk("\u{4FA2}", b"\x81\xFE");
    encode_gbk("\u{FA0C}", b"\xFE\x40");
    encode_gbk("\u{E843}", b"\xFE\x7E");
    encode_gbk("\u{4723}", b"\xFE\x80");
    encode_gbk("\u{E4C5}", b"\xFE\xFE");

    // The difference from the original gb18030
    encode_gbk("\u{E5E5}", b"&#58853;");
    encode_gbk("\u{3000}", b"\xA1\xA1");

    // Four bytes
    encode_gbk("\u{0080}", b"&#128;");
    encode_gbk("\u{E7C7}", b"&#59335;");
    encode_gbk("\u{2603}", b"&#9731;");
    encode_gbk("\u{1F4A9}", b"&#128169;");
    encode_gbk("\u{10FFFF}", b"&#1114111;");
}

#[test]
fn test_replacement_decode() {
    decode_replacement(b"", "");
    decode_replacement(b"A", "\u{FFFD}");
    decode_replacement(b"AB", "\u{FFFD}");
}
