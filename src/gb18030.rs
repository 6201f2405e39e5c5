//! GBK and GB18030: one-, two- and four-byte sequences, with the four-byte
//! state kept as offsets from the bottom of each byte's range.
use vstd::prelude::*;
use crate::data::{
    gb18030_backward, gb18030_forward, gb18030_index, gb18030_pointer_of, gb18030_ranges_backward,
    gb18030_ranges_forward, gb18030_ranges_index, gb18030_ranges_pointer_of, is_mapped, NO_MAPPING,
};
use crate::handles::is_scalar;
use crate::results::{encode_step_bytes, DecodeStep, EncodeStep};
use crate::stream::{lemma_reads_back_four, lemma_reads_back_one, lemma_reads_back_two, reads_back};
use vstd::arithmetic::div_mod::{lemma_fundamental_div_mod, lemma_fundamental_div_mod_converse};
use crate::results::DecoderResult;
use crate::variant::{decode8_spec, VariantDecoder, VariantEncoder};

verus! {

/// The two-byte pointer that the Encoding Standard moved from U+E7C7 to
/// U+1E3F, after the index tables were generated.
pub const GB18030_MOVED_TWO_BYTE_POINTER: u16 = 7533;

/// The four-byte pointer that now stands for U+E7C7.
pub const GB18030_MOVED_FOUR_BYTE_POINTER: u32 = 7457;

/// The code point of a two-byte pointer.
pub open spec fn gb18030_decode_spec(pointer: int) -> u32 {
    if pointer == GB18030_MOVED_TWO_BYTE_POINTER {
        0x1E3F
    } else if 0 <= pointer < 0x10000 {
        gb18030_index(pointer as u16)
    } else {
        0xFFFF
    }
}

/// Looks up the code point of a two-byte pointer.
pub fn gb18030_decode(pointer: usize) -> (r: u32)
    ensures
        r == gb18030_decode_spec(pointer as int),
{
    if pointer == GB18030_MOVED_TWO_BYTE_POINTER as usize {
        0x1E3F
    } else if pointer < 0x10000 {
        gb18030_forward(pointer as u16)
    } else {
        0xFFFF
    }
}

/// Four-byte pointers at and above this one stand for the supplementary
/// planes, in order.
pub const GB18030_ASTRAL_POINTER_START: u32 = 189000;

/// The last four-byte pointer, that of U+10FFFF.
pub const GB18030_ASTRAL_POINTER_END: u32 = 1237575;

/// The last four-byte pointer of the BMP ranges.
pub const GB18030_BMP_POINTER_END: u32 = 39419;

/// The code point of a four-byte pointer, 0xFFFFFFFF for none.
pub open spec fn gb18030_range_decode_spec(pointer: int) -> u32 {
    if pointer == GB18030_MOVED_FOUR_BYTE_POINTER {
        0xE7C7
    } else if GB18030_ASTRAL_POINTER_START <= pointer <= GB18030_ASTRAL_POINTER_END {
        (pointer - GB18030_ASTRAL_POINTER_START + 0x10000) as u32
    } else if 0 <= pointer <= GB18030_BMP_POINTER_END {
        gb18030_ranges_index(pointer as u32)
    } else {
        0xFFFF_FFFF
    }
}

/// Looks up the code point of a four-byte pointer; supplementary-plane
/// pointers are a plain offset from the first astral scalar.
pub fn gb18030_range_decode(pointer: u32) -> (r: u32)
    ensures
        r == gb18030_range_decode_spec(pointer as int),
{
    if pointer == GB18030_MOVED_FOUR_BYTE_POINTER {
        0xE7C7
    } else if pointer >= GB18030_ASTRAL_POINTER_START && pointer <= GB18030_ASTRAL_POINTER_END {
        pointer - GB18030_ASTRAL_POINTER_START + 0x10000
    } else if pointer <= GB18030_BMP_POINTER_END {
        gb18030_ranges_forward(pointer)
    } else {
        0xFFFF_FFFF
    }
}

/// The code point of the four-byte sequence with these offsets, or
/// 0xFFFFFFFF when the fourth byte is no digit.
fn call_gb18030_range_decode(
    first_minus_offset: u8,
    second_minus_offset: u8,
    third_minus_offset: u8,
    fourth_minus_offset: u8,
) -> (r: u32)
    requires
        first_minus_offset <= 0x7D,
        second_minus_offset <= 9,
        third_minus_offset <= 0x7D,
    ensures
        fourth_minus_offset > 9 ==> r == 0xFFFF_FFFF,
        fourth_minus_offset <= 9 ==> r == gb18030_range_decode_spec(
            gb18030_four_byte_pointer(first_minus_offset, second_minus_offset, third_minus_offset, fourth_minus_offset),
        ),
{
    if fourth_minus_offset > 9 {
        return 0xFFFF_FFFF;
    }
    let pointer: u32 = first_minus_offset as u32 * (10 * 126 * 10) + second_minus_offset as u32 * (10 * 126)
        + third_minus_offset as u32 * 10 + fourth_minus_offset as u32;
    assert(pointer == gb18030_four_byte_pointer(first_minus_offset, second_minus_offset, third_minus_offset, fourth_minus_offset)) by (nonlinear_arith)
        requires
            pointer == first_minus_offset * 12600 + second_minus_offset * 1260 + third_minus_offset * 10 + fourth_minus_offset,
    ;
    gb18030_range_decode(pointer)
}

/// A four-byte lookup that found a scalar value: the ranges index says "no
/// code point" with 0xFFFFFFFF, and maps pointer 39419 to U+FFFF itself.
pub open spec fn is_range_mapped(c: u32) -> bool {
    c < 0x110000 && !(0xD800 <= c && c <= 0xDFFF)
}

/// The two-byte pointer that the encoder uses for a BMP code point, if any.
pub open spec fn gb18030_encode_spec(c: u32) -> Option<u16> {
    let p = gb18030_pointer_of(c);
    if c == 0x1E3F {
        Some(GB18030_MOVED_TWO_BYTE_POINTER)
    } else if p == NO_MAPPING || p >= 126 * 190 || p == GB18030_MOVED_TWO_BYTE_POINTER {
        None
    } else {
        Some(p)
    }
}

/// Looks up the two-byte pointer of a BMP code point.
pub fn gb18030_encode(c: u32) -> (r: Option<u16>)
    requires
        c < 0x10000,
    ensures
        r == gb18030_encode_spec(c),
        0x80 <= c && c != 0xFFFF ==> (r matches Some(p) ==> gb18030_decode_spec(p as int) == c),
{
    if c == 0x1E3F {
        return Some(GB18030_MOVED_TWO_BYTE_POINTER);
    }
    let p = gb18030_backward(c);
    if p == NO_MAPPING || p >= 126 * 190 || p == GB18030_MOVED_TWO_BYTE_POINTER {
        None
    } else {
        Some(p)
    }
}

/// The four-byte pointer of a BMP code point.
pub open spec fn gb18030_range_encode_spec(c: u32) -> u32 {
    if c == 0xE7C7 {
        GB18030_MOVED_FOUR_BYTE_POINTER
    } else {
        gb18030_ranges_pointer_of(c)
    }
}

/// Looks up the four-byte pointer of a BMP code point.
pub fn gb18030_range_encode(c: u32) -> (r: u32)
    requires
        c < 0x110000,
    ensures
        r == gb18030_range_encode_spec(c),
{
    if c == 0xE7C7 {
        GB18030_MOVED_FOUR_BYTE_POINTER
    } else {
        gb18030_ranges_backward(c)
    }
}

/// The bytes of a four-byte sequence seen so far, each as its offset from
/// the bottom of its range.
#[derive(Clone, Copy, PartialEq, Eq, Structural)]
pub enum Gb18030Pending {
    Empty,
    One(u8),
    Two(u8, u8),
    Three(u8, u8, u8),
}

impl Gb18030Pending {
    pub open spec fn count_spec(&self) -> nat {
        match self {
            Gb18030Pending::Empty => 0,
            Gb18030Pending::One(_) => 1,
            Gb18030Pending::Two(_, _) => 2,
            Gb18030Pending::Three(_, _, _) => 3,
        }
    }

    pub open spec fn wf(&self) -> bool {
        match self {
            Gb18030Pending::Empty => true,
            Gb18030Pending::One(f) => f <= 0x7D,
            Gb18030Pending::Two(f, s) => f <= 0x7D && s <= 9,
            Gb18030Pending::Three(f, s, t) => f <= 0x7D && s <= 9 && t <= 0x7D,
        }
    }

    fn is_none(&self) -> (r: bool)
        ensures
            r == (self.count_spec() == 0),
    {
        match self {
            Gb18030Pending::Empty => true,
            _ => false,
        }
    }

    fn count(&self) -> (r: usize)
        ensures
            r == self.count_spec(),
    {
        match self {
            Gb18030Pending::Empty => 0,
            Gb18030Pending::One(_) => 1,
            Gb18030Pending::Two(_, _) => 2,
            Gb18030Pending::Three(_, _, _) => 3,
        }
    }
}

/// The pointer of a four-byte sequence from its offsets.
pub open spec fn gb18030_four_byte_pointer(f: u8, s: u8, t: u8, u: u8) -> int {
    ((f * 10 + s) * 126 + t) * 10 + u
}

/// The trail offset of a two-byte sequence.
pub open spec fn gb18030_trail_offset(b: u8) -> int {
    if b < 0x7F { b - 0x40 } else { b - 0x41 }
}

/// A byte that can end a two-byte sequence.
pub open spec fn gb18030_is_trail(b: u8) -> bool {
    (0x40 <= b && b <= 0x7E) || (0x80 <= b && b <= 0xFE)
}

#[derive(Clone, Copy)]
pub struct Gb18030Decoder {
    pub pending: Gb18030Pending,
    /// An ASCII digit read as the second byte of a failed four-byte
    /// sequence, to be written before anything else.
    pub pending_ascii: Option<u8>,
}

impl Gb18030Decoder {
    pub fn new() -> (r: VariantDecoder)
        ensures
            r == VariantDecoder::Gb18030(
                Gb18030Decoder { pending: Gb18030Pending::Empty, pending_ascii: None },
            ),
    {
        VariantDecoder::Gb18030(
            Gb18030Decoder { pending: Gb18030Pending::Empty, pending_ascii: None },
        )
    }

    pub open spec fn wf(&self) -> bool {
        &&& self.pending.wf()
        &&& (self.pending_ascii matches Some(a) ==> 0x30 <= a && a <= 0x39)
    }

    /// The state after one input byte, and what that byte produced.
    pub open spec fn step_spec(&self, b: u8) -> (Gb18030Decoder, DecodeStep) {
        let pa = self.pending_ascii;
        let cleared = Gb18030Decoder { pending: Gb18030Pending::Empty, pending_ascii: pa };
        match self.pending {
            Gb18030Pending::Empty => {
                if b <= 0x7F {
                    (cleared, DecodeStep::Emit(b as u32))
                } else if b == 0x80 {
                    (cleared, DecodeStep::Emit(0x20AC))
                } else if b <= 0xFE {
                    (
                        Gb18030Decoder { pending: Gb18030Pending::One((b - 0x81) as u8), pending_ascii: pa },
                        DecodeStep::Pending,
                    )
                } else {
                    (cleared, DecodeStep::Malformed(1, 0, true))
                }
            },
            Gb18030Pending::One(f) => {
                let c = gb18030_decode_spec(f * 190 + gb18030_trail_offset(b));
                if 0x30 <= b && b <= 0x39 {
                    (
                        Gb18030Decoder { pending: Gb18030Pending::Two(f, (b - 0x30) as u8), pending_ascii: pa },
                        DecodeStep::Pending,
                    )
                } else if gb18030_is_trail(b) && is_mapped(c) {
                    (cleared, DecodeStep::Emit(c))
                } else if b <= 0x7F {
                    (cleared, DecodeStep::Malformed(1, 0, false))
                } else {
                    (cleared, DecodeStep::Malformed(2, 0, true))
                }
            },
            Gb18030Pending::Two(f, s) => {
                if 0x81 <= b && b <= 0xFE {
                    (
                        Gb18030Decoder { pending: Gb18030Pending::Three(f, s, (b - 0x81) as u8), pending_ascii: pa },
                        DecodeStep::Pending,
                    )
                } else {
                    (
                        Gb18030Decoder { pending: Gb18030Pending::Empty, pending_ascii: Some((s + 0x30) as u8) },
                        DecodeStep::Malformed(1, 1, false),
                    )
                }
            },
            Gb18030Pending::Three(f, s, t) => {
                let c = gb18030_range_decode_spec(gb18030_four_byte_pointer(f, s, t, (b - 0x30) as u8));
                if 0x30 <= b && b <= 0x39 && is_range_mapped(c) {
                    (cleared, DecodeStep::Emit(c))
                } else {
                    (
                        Gb18030Decoder { pending: Gb18030Pending::One(t), pending_ascii: Some((s + 0x30) as u8) },
                        DecodeStep::Malformed(1, 2, false),
                    )
                }
            },
        }
    }

    /// The number of bytes reported malformed at the end of the stream.
    pub open spec fn eof_spec(&self) -> u8 {
        self.pending.count_spec() as u8
    }

    pub fn step(&mut self, b: u8) -> (r: DecodeStep)
        requires
            old(self).wf(),
        ensures
            final(self).wf(),
            (*final(self), r) == old(self).step_spec(b),
    {
        match self.pending {
            Gb18030Pending::Empty => {
                if b <= 0x7F {
                    return DecodeStep::Emit(b as u32);
                }
                if b == 0x80 {
                    return DecodeStep::Emit(0x20AC);
                }
                if b <= 0xFE {
                    self.pending = Gb18030Pending::One(b - 0x81);
                    return DecodeStep::Pending;
                }
                DecodeStep::Malformed(1, 0, true)
            },
            Gb18030Pending::One(first_minus_offset) => {
                if b >= 0x30 && b <= 0x39 {
                    self.pending = Gb18030Pending::Two(first_minus_offset, b - 0x30);
                    return DecodeStep::Pending;
                }
                self.pending = Gb18030Pending::Empty;
                if (b >= 0x40 && b <= 0x7E) || (b >= 0x80 && b <= 0xFE) {
                    let trail_minus_offset: usize = if b < 0x7F { b as usize - 0x40 } else { b as usize - 0x41 };
                    let pointer = first_minus_offset as usize * 190 + trail_minus_offset;
                    let c = gb18030_decode(pointer);
                    if c != 0xFFFF && c < 0x110000 && !(c >= 0xD800 && c <= 0xDFFF) {
                        return DecodeStep::Emit(c);
                    }
                }
                if b <= 0x7F {
                    return DecodeStep::Malformed(1, 0, false);
                }
                DecodeStep::Malformed(2, 0, true)
            },
            Gb18030Pending::Two(first_minus_offset, second_minus_offset) => {
                if b >= 0x81 && b <= 0xFE {
                    self.pending = Gb18030Pending::Three(first_minus_offset, second_minus_offset, b - 0x81);
                    return DecodeStep::Pending;
                }
                // The second byte is an ASCII digit: it is written next,
                // and this byte is read again after it.
                self.pending = Gb18030Pending::Empty;
                self.pending_ascii = Some(second_minus_offset + 0x30);
                DecodeStep::Malformed(1, 1, false)
            },
            Gb18030Pending::Three(first_minus_offset, second_minus_offset, third_minus_offset) => {
                let c = call_gb18030_range_decode(
                    first_minus_offset,
                    second_minus_offset,
                    third_minus_offset,
                    b.wrapping_sub(0x30),
                );
                if c < 0x110000 && !(c >= 0xD800 && c <= 0xDFFF) {
                    self.pending = Gb18030Pending::Empty;
                    return DecodeStep::Emit(c);
                }
                // The second byte is written next as ASCII, and the third
                // starts a new sequence.
                self.pending = Gb18030Pending::One(third_minus_offset);
                self.pending_ascii = Some(second_minus_offset + 0x30);
                DecodeStep::Malformed(1, 2, false)
            },
        }
    }

    /// Ends the stream: reports the pending bytes and clears them.
    pub fn eof(&mut self) -> (r: u8)
        requires
            old(self).wf(),
        ensures
            r == old(self).eof_spec(),
            *final(self) == (Gb18030Decoder { pending: Gb18030Pending::Empty, ..*old(self) }),
    {
        if self.pending.is_none() {
            return 0;
        }
        let r = self.pending.count() as u8;
        self.pending = Gb18030Pending::Empty;
        r
    }

    /// Decodes into UTF-8 as `VariantDecoder::decode_to_utf8` does.
    pub fn decode_to_utf8_raw(&mut self, src: &[u8], dst: &mut [u8], last: bool) -> (r: (
        DecoderResult,
        usize,
        usize,
    ))
        requires
            old(self).wf(),
        ensures
            final(self).wf(),
            r.1 <= src@.len(),
            r.2 <= old(dst)@.len(),
            final(dst)@.len() == old(dst)@.len(),
            ({
                let (res, read, out, next) = decode8_spec(
                    VariantDecoder::Gb18030(*old(self)),
                    src@,
                    old(dst)@.len() as int,
                    last,
                );
                &&& r.0 == res
                &&& r.1 == read
                &&& r.2 == out.len()
                &&& final(dst)@.subrange(0, r.2 as int) == out
                &&& VariantDecoder::Gb18030(*final(self)) == next
            }),
    {
        let mut v = VariantDecoder::Gb18030(*self);
        let r = v.decode_to_utf8(src, dst, last);
        if let VariantDecoder::Gb18030(d) = v {
            *self = d;
        }
        r
    }

    /// The input length plus every byte held in the state.
    pub open spec fn extra_spec(&self, byte_length: int) -> int {
        byte_length + self.pending.count_spec() + if self.pending_ascii is Some { 1int } else { 0 }
    }

    fn extra_from_state(&self, byte_length: usize) -> (r: usize)
        requires
            byte_length + 4 <= usize::MAX,
        ensures
            r == self.extra_spec(byte_length as int),
    {
        byte_length + self.pending.count() + match self.pending_ascii {
            None => 0,
            Some(_) => 1,
        }
    }

    /// ASCII takes one unit per byte, two-byte sequences one unit, and
    /// four-byte sequences at most two.
    pub fn max_utf16_buffer_length(&self, byte_length: usize) -> (r: usize)
        requires
            byte_length + 5 <= usize::MAX,
        ensures
            r == self.extra_spec(byte_length as int) + 1,
    {
        self.extra_from_state(byte_length) + 1
    }

    /// The worst case is the single byte 0x80 becoming three bytes.
    pub fn max_utf8_buffer_length_without_replacement(&self, byte_length: usize) -> (r: usize)
        requires
            3 * (byte_length + 4) + 1 <= usize::MAX,
        ensures
            r == 3 * self.extra_spec(byte_length as int) + 1,
    {
        (self.extra_from_state(byte_length) * 3) + 1
    }

    pub fn max_utf8_buffer_length(&self, byte_length: usize) -> (r: usize)
        requires
            3 * (byte_length + 4) + 1 <= usize::MAX,
        ensures
            r == 3 * self.extra_spec(byte_length as int) + 1,
    {
        (self.extra_from_state(byte_length) * 3) + 1
    }
}

/// The four bytes of a four-byte pointer.
pub open spec fn gb18030_four_bytes(p: u32) -> EncodeStep {
    EncodeStep::Four(
        (p / 12600 + 0x81) as u8,
        ((p % 12600) / 1260 + 0x30) as u8,
        ((p % 1260) / 10 + 0x81) as u8,
        (p % 10 + 0x30) as u8,
    )
}

/// The two bytes of a two-byte pointer.
pub open spec fn gb18030_two_bytes(p: u16) -> EncodeStep {
    let trail = p % 190;
    EncodeStep::Two((p / 190 + 0x81) as u8, (trail + if trail < 0x3F { 0x40int } else { 0x41 }) as u8)
}

/// What the GBK (`extended` false) or GB18030 encoder does with a scalar.
pub open spec fn gb18030_encode_scalar_spec(extended: bool, c: u32) -> EncodeStep {
    if c <= 0x7F {
        EncodeStep::One(c as u8)
    } else if c >= 0x10000 {
        if extended {
            gb18030_four_bytes((c + 189000 - 0x10000) as u32)
        } else {
            EncodeStep::Unmappable
        }
    } else if c == 0xE5E5 {
        EncodeStep::Unmappable
    } else if c == 0x20AC && !extended {
        EncodeStep::One(0x80)
    } else {
        match gb18030_encode_spec(c) {
            Some(p) => gb18030_two_bytes(p),
            None => if extended {
                gb18030_four_bytes(gb18030_range_encode_spec(c))
            } else {
                EncodeStep::Unmappable
            },
        }
    }
}

#[derive(Clone, Copy)]
pub struct Gb18030Encoder {
    /// Whether the four-byte ranges are used (GB18030) or not (GBK).
    pub extended: bool,
}

impl Gb18030Encoder {
    pub fn new(extended_range: bool) -> (r: VariantEncoder)
        ensures
            r == VariantEncoder::Gb18030(Gb18030Encoder { extended: extended_range }),
    {
        VariantEncoder::Gb18030(Gb18030Encoder { extended: extended_range })
    }

    pub fn max_buffer_length_from_utf16_without_replacement(&self, u16_length: usize) -> (r: usize)
        requires
            4 * u16_length <= usize::MAX,
        ensures
            r == if self.extended { 4 * u16_length } else { 2 * u16_length as int },
    {
        if self.extended {
            u16_length * 4
        } else {
            u16_length * 2
        }
    }

    /// Only a two-byte UTF-8 sequence grows, into four bytes, and only in
    /// GB18030.
    pub fn max_buffer_length_from_utf8_without_replacement(&self, byte_length: usize) -> (r: usize)
        requires
            2 * byte_length <= usize::MAX,
        ensures
            r == if self.extended { 2 * byte_length } else { byte_length as int },
    {
        if self.extended {
            byte_length * 2
        } else {
            byte_length
        }
    }

    /// Encodes one scalar value; what it writes, a fresh decoder reads back
    /// as the same scalar, shown here for all but the four-byte forms of BMP
    /// code points, which rest on the ranges index.
    pub fn encode_scalar(&self, c: u32) -> (r: EncodeStep)
        requires
            c < 0x110000,
        ensures
            r == gb18030_encode_scalar_spec(self.extended, c),
            is_scalar(c) && c != 0xFFFF && !(r is Unmappable) && !(c < 0x10000 && r is Four) ==> reads_back(
                VariantDecoder::Gb18030(
                    Gb18030Decoder { pending: Gb18030Pending::Empty, pending_ascii: None },
                ),
                encode_step_bytes(r),
                c,
            ),
    {
        let ghost fresh = VariantDecoder::Gb18030(
            Gb18030Decoder { pending: Gb18030Pending::Empty, pending_ascii: None },
        );
        if c <= 0x7F {
            proof {
                lemma_reads_back_one(fresh, c as u8, c);
            }
            return EncodeStep::One(c as u8);
        }
        if c >= 0x10000 {
            if !self.extended {
                return EncodeStep::Unmappable;
            }
            let pointer = c + (GB18030_ASTRAL_POINTER_START - 0x10000);
            let r = four_bytes(pointer);
            proof {
                lemma_astral_reads_back(c);
            }
            return r;
        }
        if c == 0xE5E5 {
            return EncodeStep::Unmappable;
        }
        if c == 0x20AC && !self.extended {
            proof {
                lemma_reads_back_one(fresh, 0x80, c);
            }
            return EncodeStep::One(0x80);
        }
        match gb18030_encode(c) {
            Some(pointer) => {
                let lead = pointer / 190 + 0x81;
                let trail = pointer % 190;
                let offset: u16 = if trail < 0x3F { 0x40 } else { 0x41 };
                proof {
                    if is_scalar(c) && c != 0xFFFF {
                        assert((pointer / 190) * 190 + pointer % 190 == pointer) by (nonlinear_arith);
                        assert(pointer / 190 <= 125) by (nonlinear_arith)
                            requires
                                pointer < 126 * 190,
                        ;
                        let b = (trail + offset) as u8;
                        assert((lead - 0x81) * 190 + gb18030_trail_offset(b) == pointer);
                        lemma_reads_back_two(fresh, lead as u8, b, c);
                    }
                }
                EncodeStep::Two(lead as u8, (trail + offset) as u8)
            },
            None => {
                if !self.extended {
                    return EncodeStep::Unmappable;
                }
                four_bytes(gb18030_range_encode(c))
            },
        }
    }
}

/// The four bytes of a supplementary-plane scalar read back as that scalar.
proof fn lemma_astral_reads_back(c: u32)
    requires
        0x10000 <= c < 0x110000,
    ensures
        reads_back(
            VariantDecoder::Gb18030(Gb18030Decoder { pending: Gb18030Pending::Empty, pending_ascii: None }),
            encode_step_bytes(gb18030_four_bytes((c + (GB18030_ASTRAL_POINTER_START - 0x10000)) as u32)),
            c,
        ),
{
    let fresh = VariantDecoder::Gb18030(
        Gb18030Decoder { pending: Gb18030Pending::Empty, pending_ascii: None },
    );
    let pointer = (c + (GB18030_ASTRAL_POINTER_START - 0x10000)) as u32;
    lemma_four_byte_digits(pointer as int);
    let p = pointer as int;
    let f = (p / 12600) as u8;
    let sd = ((p % 12600) / 1260) as u8;
    let t = ((p % 1260) / 10) as u8;
    let u = (p % 10) as u8;
    assert(gb18030_four_byte_pointer(f, sd, t, u) == p);
    lemma_reads_back_four(fresh, (f + 0x81) as u8, (sd + 0x30) as u8, (t + 0x81) as u8, (u + 0x30) as u8, c);
}

/// The four offsets of a four-byte pointer give the pointer back, and each
/// lies within its byte range.
proof fn lemma_four_byte_digits(p: int)
    requires
        0 <= p < 126 * 12600,
    ensures
        ({
            let f = p / 12600;
            let s = (p % 12600) / 1260;
            let t = (p % 1260) / 10;
            let u = p % 10;
            &&& 0 <= f < 126
            &&& 0 <= s < 10
            &&& 0 <= t < 126
            &&& 0 <= u < 10
            &&& ((f * 10 + s) * 126 + t) * 10 + u == p
        }),
{
    let f = p / 12600;
    let r1 = p % 12600;
    lemma_fundamental_div_mod(p, 12600);
    let s = r1 / 1260;
    let r2 = r1 % 1260;
    lemma_fundamental_div_mod(r1, 1260);
    let t = r2 / 10;
    let u = r2 % 10;
    lemma_fundamental_div_mod(r2, 10);
    assert(p == (f * 10 + s) * 1260 + r2) by (nonlinear_arith)
        requires
            p == 12600 * f + r1,
            r1 == 1260 * s + r2,
    ;
    lemma_fundamental_div_mod_converse(p, 1260, f * 10 + s, r2);
    assert(p == ((f * 10 + s) * 126 + t) * 10 + u) by (nonlinear_arith)
        requires
            p == (f * 10 + s) * 1260 + r2,
            r2 == 10 * t + u,
    ;
    lemma_fundamental_div_mod_converse(p, 10, (f * 10 + s) * 126 + t, u);
    assert(f < 126) by (nonlinear_arith)
        requires
            p == 12600 * f + r1,
            0 <= r1,
            p < 126 * 12600,
    ;
    assert(s < 10) by (nonlinear_arith)
        requires
            r1 == 1260 * s + r2,
            0 <= r2,
            r1 < 12600,
    ;
    assert(t < 126) by (nonlinear_arith)
        requires
            r2 == 10 * t + u,
            0 <= u,
            r2 < 1260,
    ;
}

fn four_bytes(range_pointer: u32) -> (r: EncodeStep)
    ensures
        r == gb18030_four_bytes(range_pointer),
{
    let first = range_pointer / (10 * 126 * 10);
    let rem_first = range_pointer % (10 * 126 * 10);
    let second = rem_first / (10 * 126);
    let rem_second = rem_first % (10 * 126);
    let third = rem_second / 10;
    let fourth = rem_second % 10;
    proof {
        assert((range_pointer % 12600) % 1260 == range_pointer % 1260) by (nonlinear_arith);
        assert(((range_pointer % 12600) % 1260) / 10 == (range_pointer % 1260) / 10);
        assert((range_pointer % 1260) % 10 == range_pointer % 10) by (nonlinear_arith);
        assert(((range_pointer % 12600) % 1260) % 10 == range_pointer % 10);
    }
    EncodeStep::Four(
        (first + 0x81) as u8,
        (second + 0x30) as u8,
        (third + 0x81) as u8,
        (fourth + 0x30) as u8,
    )
}

} // verus!
