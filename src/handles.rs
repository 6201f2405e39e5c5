//! Writing scalar values into caller-supplied UTF-16 and UTF-8 buffers, and
//! reading them back out of UTF-16 and UTF-8 input.
use vstd::prelude::*;

verus! {

/// A Unicode scalar value: at most U+10FFFF and not a surrogate.
pub open spec fn is_scalar(c: u32) -> bool {
    c < 0x110000 && !(0xD800 <= c && c <= 0xDFFF)
}

/// The UTF-16 code units of a scalar value.
pub open spec fn utf16_units(c: u32) -> Seq<u16> {
    if c < 0x10000 {
        seq![c as u16]
    } else {
        seq![(0xD800 + (c - 0x10000) / 0x400) as u16, (0xDC00 + (c - 0x10000) % 0x400) as u16]
    }
}

/// The UTF-8 bytes of a scalar value.
pub open spec fn utf8_units(c: u32) -> Seq<u8> {
    if c < 0x80 {
        seq![c as u8]
    } else if c < 0x800 {
        seq![(0xC0 + c / 0x40) as u8, (0x80 + c % 0x40) as u8]
    } else if c < 0x10000 {
        seq![(0xE0 + c / 0x1000) as u8, (0x80 + (c / 0x40) % 0x40) as u8, (0x80 + c % 0x40) as u8]
    } else {
        seq![
            (0xF0 + c / 0x40000) as u8,
            (0x80 + (c / 0x1000) % 0x40) as u8,
            (0x80 + (c / 0x40) % 0x40) as u8,
            (0x80 + c % 0x40) as u8,
        ]
    }
}

/// Writes the UTF-16 form of `c` at `pos` and returns how many units it took.
pub fn write_utf16(dst: &mut [u16], pos: usize, c: u32) -> (n: usize)
    requires
        c < 0x110000,
        pos + utf16_units(c).len() <= old(dst)@.len(),
    ensures
        n == utf16_units(c).len(),
        final(dst)@.len() == old(dst)@.len(),
        final(dst)@.subrange(0, pos + n) == old(dst)@.subrange(0, pos as int) + utf16_units(c),
{
    if c < 0x10000 {
        dst[pos] = c as u16;
        assert(dst@.subrange(0, pos + 1) =~= old(dst)@.subrange(0, pos as int) + utf16_units(c));
        1
    } else {
        dst[pos] = (0xD800 + (c - 0x10000) / 0x400) as u16;
        dst[pos + 1] = (0xDC00 + (c - 0x10000) % 0x400) as u16;
        assert(dst@.subrange(0, pos + 2) =~= old(dst)@.subrange(0, pos as int) + utf16_units(c));
        2
    }
}

/// Writes the UTF-8 form of `c` at `pos` and returns how many bytes it took.
pub fn write_utf8(dst: &mut [u8], pos: usize, c: u32) -> (n: usize)
    requires
        c < 0x110000,
        pos + utf8_units(c).len() <= old(dst)@.len(),
    ensures
        n == utf8_units(c).len(),
        final(dst)@.len() == old(dst)@.len(),
        final(dst)@.subrange(0, pos + n) == old(dst)@.subrange(0, pos as int) + utf8_units(c),
{
    if c < 0x80 {
        dst[pos] = c as u8;
        assert(dst@.subrange(0, pos + 1) =~= old(dst)@.subrange(0, pos as int) + utf8_units(c));
        1
    } else if c < 0x800 {
        dst[pos] = (0xC0 + c / 0x40) as u8;
        dst[pos + 1] = (0x80 + c % 0x40) as u8;
        assert(dst@.subrange(0, pos + 2) =~= old(dst)@.subrange(0, pos as int) + utf8_units(c));
        2
    } else if c < 0x10000 {
        dst[pos] = (0xE0 + c / 0x1000) as u8;
        dst[pos + 1] = (0x80 + (c / 0x40) % 0x40) as u8;
        dst[pos + 2] = (0x80 + c % 0x40) as u8;
        assert(dst@.subrange(0, pos + 3) =~= old(dst)@.subrange(0, pos as int) + utf8_units(c));
        3
    } else {
        dst[pos] = (0xF0 + c / 0x40000) as u8;
        dst[pos + 1] = (0x80 + (c / 0x1000) % 0x40) as u8;
        dst[pos + 2] = (0x80 + (c / 0x40) % 0x40) as u8;
        dst[pos + 3] = (0x80 + c % 0x40) as u8;
        assert(dst@.subrange(0, pos + 4) =~= old(dst)@.subrange(0, pos as int) + utf8_units(c));
        4
    }
}

/// The scalar value at `pos` of UTF-16 input and how many units it takes;
/// an unpaired surrogate reads as U+FFFD.
pub open spec fn utf16_scalar_at(src: Seq<u16>, pos: int) -> (u32, int) {
    let u = src[pos];
    if 0xD800 <= u && u <= 0xDBFF && pos + 1 < src.len() && 0xDC00 <= src[pos + 1] && src[pos + 1] <= 0xDFFF {
        ((0x10000 + (u - 0xD800) * 0x400 + (src[pos + 1] - 0xDC00)) as u32, 2)
    } else if 0xD800 <= u && u <= 0xDFFF {
        (0xFFFD, 1)
    } else {
        (u as u32, 1)
    }
}

/// A UTF-8 continuation byte.
pub open spec fn is_continuation(b: u8) -> bool {
    0x80 <= b && b <= 0xBF
}

/// The scalar value at `pos` of UTF-8 input and how many bytes it takes;
/// a byte that starts no complete sequence reads as U+FFFD.
pub open spec fn utf8_scalar_at(src: Seq<u8>, pos: int) -> (u32, int) {
    let b0 = src[pos];
    if b0 < 0x80 {
        (b0 as u32, 1)
    } else if 0xC0 <= b0 && b0 <= 0xDF && pos + 1 < src.len() && is_continuation(src[pos + 1]) {
        (((b0 - 0xC0) * 0x40 + (src[pos + 1] - 0x80)) as u32, 2)
    } else if 0xE0 <= b0 && b0 <= 0xEF && pos + 2 < src.len() && is_continuation(src[pos + 1])
        && is_continuation(src[pos + 2]) {
        (((b0 - 0xE0) * 0x1000 + (src[pos + 1] - 0x80) * 0x40 + (src[pos + 2] - 0x80)) as u32, 3)
    } else if 0xF0 <= b0 && b0 <= 0xF4 && pos + 3 < src.len() && is_continuation(src[pos + 1])
        && is_continuation(src[pos + 2]) && is_continuation(src[pos + 3])
        && (b0 - 0xF0) * 0x40000 + (src[pos + 1] - 0x80) * 0x1000 < 0x110000 {
        (
            ((b0 - 0xF0) * 0x40000 + (src[pos + 1] - 0x80) * 0x1000 + (src[pos + 2] - 0x80) * 0x40 + (
            src[pos + 3] - 0x80)) as u32,
            4,
        )
    } else {
        (0xFFFD, 1)
    }
}

/// Reads the scalar value at `pos` of UTF-16 input.
pub fn read_utf16(src: &[u16], pos: usize) -> (r: (u32, usize))
    requires
        pos < src@.len(),
    ensures
        (r.0, r.1 as int) == utf16_scalar_at(src@, pos as int),
        r.0 < 0x110000,
{
    let u = src[pos];
    if u >= 0xD800 && u <= 0xDBFF && src.len() - pos > 1 && src[pos + 1] >= 0xDC00 && src[pos + 1] <= 0xDFFF {
        let c = 0x10000 + (u as u32 - 0xD800) * 0x400 + (src[pos + 1] as u32 - 0xDC00);
        (c, 2)
    } else if u >= 0xD800 && u <= 0xDFFF {
        (0xFFFD, 1)
    } else {
        (u as u32, 1)
    }
}

/// Reads the scalar value at `pos` of UTF-8 input.
pub fn read_utf8(src: &[u8], pos: usize) -> (r: (u32, usize))
    requires
        pos < src@.len(),
    ensures
        (r.0, r.1 as int) == utf8_scalar_at(src@, pos as int),
        r.0 < 0x110000,
{
    let len = src.len();
    let b0 = src[pos];
    if b0 < 0x80 {
        return (b0 as u32, 1);
    }
    if b0 >= 0xC0 && b0 <= 0xDF && len - pos > 1 && src[pos + 1] >= 0x80 && src[pos + 1] <= 0xBF {
        return ((b0 as u32 - 0xC0) * 0x40 + (src[pos + 1] as u32 - 0x80), 2);
    }
    if b0 >= 0xE0 && b0 <= 0xEF && len - pos > 2 && src[pos + 1] >= 0x80 && src[pos + 1] <= 0xBF
        && src[pos + 2] >= 0x80 && src[pos + 2] <= 0xBF {
        return (
            (b0 as u32 - 0xE0) * 0x1000 + (src[pos + 1] as u32 - 0x80) * 0x40 + (src[pos + 2] as u32
                - 0x80),
            3,
        );
    }
    if b0 >= 0xF0 && b0 <= 0xF4 && len - pos > 3 && src[pos + 1] >= 0x80 && src[pos + 1] <= 0xBF
        && src[pos + 2] >= 0x80 && src[pos + 2] <= 0xBF && src[pos + 3] >= 0x80 && src[pos + 3]
        <= 0xBF && (b0 as u32 - 0xF0) * 0x40000 + (src[pos + 1] as u32 - 0x80) * 0x1000 < 0x110000 {
        return (
            (b0 as u32 - 0xF0) * 0x40000 + (src[pos + 1] as u32 - 0x80) * 0x1000 + (src[pos + 2] as u32
                - 0x80) * 0x40 + (src[pos + 3] as u32 - 0x80),
            4,
        );
    }
    (0xFFFD, 1)
}

} // verus!
