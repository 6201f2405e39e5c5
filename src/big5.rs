//! Big5 (with the Hong Kong extensions): the decoder's one-lead state
//! machine, the encoder, and the pointer rules between them.
use vstd::prelude::*;
use crate::data::{big5_backward, big5_forward, big5_index, big5_pointer_of, is_mapped, NO_MAPPING};
use crate::handles::is_scalar;
use crate::results::{encode_step_bytes, DecodeStep, EncodeStep};
use crate::stream::{lemma_reads_back_one, lemma_reads_back_two, reads_back};
use crate::variant::{VariantDecoder, VariantEncoder};

verus! {

/// First Big5 pointer past the Hong Kong extensions; the encoder never
/// produces a pointer below it.
pub const BIG5_ENCODE_MIN_POINTER: u16 = 5024;

/// One past the largest pointer that two Big5 bytes can express.
pub const BIG5_POINTER_END: u16 = 19782;

/// The pointer of a lead byte and a trail byte.
pub open spec fn big5_pointer(lead: u8, b: u8) -> int {
    (lead - 0x81) * 157 + (b - if b < 0x7F { 0x40int } else { 0x62int })
}

/// A byte that can follow a Big5 lead byte in a two-byte sequence.
pub open spec fn big5_is_trail(b: u8) -> bool {
    (0x40 <= b && b <= 0x7E) || (0xA1 <= b && b <= 0xFE)
}

#[derive(Clone, Copy)]
pub struct Big5Decoder {
    /// The pending lead byte, or 0 when there is none.
    pub lead: u8,
}

impl Big5Decoder {
    pub fn new() -> (r: VariantDecoder)
        ensures
            r == VariantDecoder::Big5(Big5Decoder { lead: 0 }),
    {
        VariantDecoder::Big5(Big5Decoder { lead: 0 })
    }

    pub open spec fn wf(&self) -> bool {
        self.lead == 0 || (0x81 <= self.lead && self.lead <= 0xFE)
    }

    /// The state after one input byte, and what that byte produced.
    pub open spec fn step_spec(&self, b: u8) -> (Big5Decoder, DecodeStep) {
        let cleared = Big5Decoder { lead: 0 };
        if self.lead == 0 {
            if b <= 0x7F {
                (cleared, DecodeStep::Emit(b as u32))
            } else if 0x81 <= b && b <= 0xFE {
                (Big5Decoder { lead: b }, DecodeStep::Pending)
            } else {
                (cleared, DecodeStep::Malformed(1, 0, true))
            }
        } else {
            let pointer = big5_pointer(self.lead, b);
            if big5_is_trail(b) && pointer == 1133 {
                (cleared, DecodeStep::EmitPair(0x00CA, 0x0304))
            } else if big5_is_trail(b) && pointer == 1135 {
                (cleared, DecodeStep::EmitPair(0x00CA, 0x030C))
            } else if big5_is_trail(b) && pointer == 1164 {
                (cleared, DecodeStep::EmitPair(0x00EA, 0x0304))
            } else if big5_is_trail(b) && pointer == 1166 {
                (cleared, DecodeStep::EmitPair(0x00EA, 0x030C))
            } else if big5_is_trail(b) && is_mapped(big5_index(pointer as u16)) {
                (cleared, DecodeStep::Emit(big5_index(pointer as u16)))
            } else if b <= 0x7F {
                (cleared, DecodeStep::Malformed(1, 0, false))
            } else {
                (cleared, DecodeStep::Malformed(2, 0, true))
            }
        }
    }

    /// The number of bytes reported malformed at the end of the stream.
    pub open spec fn eof_spec(&self) -> u8 {
        if self.lead != 0 { 1 } else { 0 }
    }

    pub fn step(&mut self, b: u8) -> (r: DecodeStep)
        requires
            old(self).wf(),
        ensures
            final(self).wf(),
            (*final(self), r) == old(self).step_spec(b),
    {
        if self.lead == 0 {
            if b <= 0x7F {
                return DecodeStep::Emit(b as u32);
            }
            if b >= 0x81 && b <= 0xFE {
                self.lead = b;
                return DecodeStep::Pending;
            }
            return DecodeStep::Malformed(1, 0, true);
        }
        let lead = self.lead as usize;
        self.lead = 0;
        let offset: usize = if b < 0x7F { 0x40 } else { 0x62 };
        if (b >= 0x40 && b <= 0x7E) || (b >= 0xA1 && b <= 0xFE) {
            let pointer: usize = (lead - 0x81) * 157 + (b as usize - offset);
            if pointer == 1133 {
                return DecodeStep::EmitPair(0x00CA, 0x0304);
            }
            if pointer == 1135 {
                return DecodeStep::EmitPair(0x00CA, 0x030C);
            }
            if pointer == 1164 {
                return DecodeStep::EmitPair(0x00EA, 0x0304);
            }
            if pointer == 1166 {
                return DecodeStep::EmitPair(0x00EA, 0x030C);
            }
            let c = big5_forward(pointer as u16);
            if c != 0xFFFF && c < 0x110000 && !(c >= 0xD800 && c <= 0xDFFF) {
                return DecodeStep::Emit(c);
            }
        }
        if b <= 0x7F {
            return DecodeStep::Malformed(1, 0, false);
        }
        DecodeStep::Malformed(2, 0, true)
    }

    /// Ends the stream: reports a pending lead and clears it.
    pub fn eof(&mut self) -> (r: u8)
        requires
            old(self).wf(),
        ensures
            r == old(self).eof_spec(),
            *final(self) == (Big5Decoder { lead: 0 }),
    {
        let r: u8 = if self.lead != 0 { 1 } else { 0 };
        self.lead = 0;
        r
    }

    fn plus_one_if_lead(&self, byte_length: usize) -> (r: usize)
        requires
            byte_length < usize::MAX,
        ensures
            r == byte_length + self.eof_spec(),
    {
        byte_length + if self.lead == 0 { 0 } else { 1 }
    }

    /// A malformed lead costs one unit, and the last check for space asks
    /// for one more, for an astral scalar or a combining pair.
    pub fn max_utf16_buffer_length(&self, byte_length: usize) -> (r: usize)
        requires
            byte_length + 2 <= usize::MAX,
        ensures
            r == byte_length + self.eof_spec() + 1,
    {
        self.plus_one_if_lead(byte_length) + 1
    }

    /// Without replacement characters each byte, the pending lead counted
    /// in, becomes at most two bytes.
    pub fn max_utf8_buffer_length_without_replacement(&self, byte_length: usize) -> (r: usize)
        requires
            2 * (byte_length + 1) <= usize::MAX,
        ensures
            r == 2 * (byte_length + self.eof_spec()),
    {
        self.plus_one_if_lead(byte_length) * 2
    }

    /// Every byte may become a three-byte replacement character, and the
    /// last check for space asks for three more.
    pub fn max_utf8_buffer_length(&self, byte_length: usize) -> (r: usize)
        requires
            3 * (byte_length + 1) + 3 <= usize::MAX,
        ensures
            r == 3 * (byte_length + self.eof_spec()) + 3,
    {
        3 * self.plus_one_if_lead(byte_length) + 3
    }
}

/// Code points for which the encoder takes the last of several pointers.
pub open spec fn big5_prefers_last(c: u32) -> bool {
    c == 0x2550 || c == 0x255E || c == 0x2561 || c == 0x256A || c == 0x5341 || c == 0x5345
}

/// The first pointer at or after `p` whose code point is `c`.
pub open spec fn big5_first_from(c: u32, p: int) -> Option<u16>
    decreases BIG5_POINTER_END - p,
{
    if p >= BIG5_POINTER_END || p < 0 {
        None
    } else if big5_index(p as u16) == c {
        Some(p as u16)
    } else {
        big5_first_from(c, p + 1)
    }
}

/// The last pointer before `p`, and not before the encodable range, whose
/// code point is `c`.
pub open spec fn big5_last_before(c: u32, p: int) -> Option<u16>
    decreases p,
{
    if p <= BIG5_ENCODE_MIN_POINTER || p > BIG5_POINTER_END {
        None
    } else if big5_index((p - 1) as u16) == c {
        Some((p - 1) as u16)
    } else {
        big5_last_before(c, p - 1)
    }
}

/// The pointer that the Big5 encoder uses for a non-ASCII code point: the
/// index pointer when it lies in the encodable range, else the first one
/// that does, and the last one for the few code points that prefer it.
pub open spec fn big5_pointer_spec(c: u32) -> Option<u16> {
    let first = big5_pointer_of(c);
    if first == NO_MAPPING {
        None
    } else if big5_prefers_last(c) {
        big5_last_before(c, BIG5_POINTER_END as int)
    } else if first >= BIG5_POINTER_END {
        None
    } else if first >= BIG5_ENCODE_MIN_POINTER {
        Some(first)
    } else {
        big5_first_from(c, BIG5_ENCODE_MIN_POINTER as int)
    }
}

/// Looks up the pointer that encodes the non-ASCII scalar `c`.
pub fn big5_find_pointer(c: u32) -> (r: Option<u16>)
    requires
        c < 0x110000,
    ensures
        r == big5_pointer_spec(c),
        0x80 <= c && c != 0xFFFF ==> (r matches Some(p) ==> BIG5_ENCODE_MIN_POINTER <= p
            < BIG5_POINTER_END && big5_index(p) == c),
{
    let first = big5_backward(c);
    proof {
        if 0x80 <= c && c != 0xFFFF {
            lemma_big5_pointer_in_range(c);
        }
    }
    if first == NO_MAPPING {
        return None;
    }
    if big5_prefers_last_exec(c) {
        let mut p: u16 = BIG5_POINTER_END;
        while p > BIG5_ENCODE_MIN_POINTER
            invariant
                BIG5_ENCODE_MIN_POINTER <= p <= BIG5_POINTER_END,
                big5_pointer_spec(c) == big5_last_before(c, p as int),
            decreases p,
        {
            if big5_forward(p - 1) == c {
                assert(big5_last_before(c, p as int) == Some((p - 1) as u16));
                return Some(p - 1);
            }
            p = p - 1;
        }
        return None;
    }
    if first >= BIG5_POINTER_END {
        return None;
    }
    if first >= BIG5_ENCODE_MIN_POINTER {
        return Some(first);
    }
    let mut p: u16 = BIG5_ENCODE_MIN_POINTER;
    while p < BIG5_POINTER_END
        invariant
            BIG5_ENCODE_MIN_POINTER <= p <= BIG5_POINTER_END,
            big5_pointer_spec(c) == big5_first_from(c, p as int),
        decreases BIG5_POINTER_END - p,
    {
        if big5_forward(p) == c {
            assert(big5_first_from(c, p as int) == Some(p));
            return Some(p);
        }
        p = p + 1;
    }
    None
}

fn big5_prefers_last_exec(c: u32) -> (r: bool)
    ensures
        r == big5_prefers_last(c),
{
    c == 0x2550 || c == 0x255E || c == 0x2561 || c == 0x256A || c == 0x5341 || c == 0x5345
}

/// The two bytes of a Big5 pointer.
pub open spec fn big5_bytes(p: u16) -> EncodeStep {
    let rem = p % 157;
    EncodeStep::Two(
        (p / 157 + 0x81) as u8,
        (if rem < 0x3F { rem + 0x40 } else { rem + 0x62 }) as u8,
    )
}

/// What the Big5 encoder does with a scalar value: ASCII stays, only the
/// BMP and plane 2 can be mapped, and the rest goes through the index.
pub open spec fn big5_encode_spec(c: u32) -> EncodeStep {
    if c <= 0x7F {
        EncodeStep::One(c as u8)
    } else if !(c < 0x10000 || (0x20000 <= c && c < 0x30000)) {
        EncodeStep::Unmappable
    } else {
        match big5_pointer_spec(c) {
            Some(p) => big5_bytes(p),
            None => EncodeStep::Unmappable,
        }
    }
}

#[derive(Clone, Copy)]
pub struct Big5Encoder;

impl Big5Encoder {
    pub fn new() -> (r: VariantEncoder)
        ensures
            r == VariantEncoder::Big5(Big5Encoder),
    {
        VariantEncoder::Big5(Big5Encoder)
    }

    /// ASCII takes one byte and everything else, astral scalars included,
    /// two; a UTF-16 unit therefore needs at most two bytes.
    pub fn max_buffer_length_from_utf16_without_replacement(&self, u16_length: usize) -> (r: usize)
        requires
            2 * u16_length <= usize::MAX,
        ensures
            r == 2 * u16_length,
    {
        2 * u16_length
    }

    /// No scalar takes more bytes in Big5 than in UTF-8.
    pub fn max_buffer_length_from_utf8_without_replacement(&self, byte_length: usize) -> (r: usize)
        ensures
            r == byte_length,
    {
        byte_length
    }

    /// Encodes one scalar value; what it writes, a fresh decoder reads back
    /// as the same scalar.
    pub fn encode_scalar(&self, c: u32) -> (r: EncodeStep)
        requires
            c < 0x110000,
        ensures
            r == big5_encode_spec(c),
            is_scalar(c) && c != 0xFFFF && !(r is Unmappable) ==> reads_back(
                VariantDecoder::Big5(Big5Decoder { lead: 0 }),
                encode_step_bytes(r),
                c,
            ),
    {
        let ghost fresh = VariantDecoder::Big5(Big5Decoder { lead: 0 });
        if c <= 0x7F {
            proof {
                lemma_reads_back_one(fresh, c as u8, c);
            }
            return EncodeStep::One(c as u8);
        }
        let plane = c / 0x10000;
        if plane != 0 && plane != 2 {
            return EncodeStep::Unmappable;
        }
        match big5_find_pointer(c) {
            Some(p) => {
                let lead = p / 157 + 0x81;
                let rem = p % 157;
                let trail = if rem < 0x3F { rem + 0x40 } else { rem + 0x62 };
                proof {
                    if is_scalar(c) && c != 0xFFFF {
                        assert((p / 157) * 157 + p % 157 == p) by (nonlinear_arith);
                        assert(p / 157 <= 125 && p / 157 >= 32) by (nonlinear_arith)
                            requires
                                BIG5_ENCODE_MIN_POINTER <= p < BIG5_POINTER_END,
                        ;
                        assert(big5_pointer(lead as u8, trail as u8) == p);
                        lemma_reads_back_two(fresh, lead as u8, trail as u8, c);
                    }
                }
                EncodeStep::Two(lead as u8, trail as u8)
            },
            None => EncodeStep::Unmappable,
        }
    }
}

proof fn lemma_big5_first_from(c: u32, p: int)
    ensures
        big5_first_from(c, p) matches Some(q) ==> p <= q < BIG5_POINTER_END && big5_index(q) == c,
    decreases BIG5_POINTER_END - p,
{
    if p < BIG5_POINTER_END && p >= 0 && big5_index(p as u16) != c {
        lemma_big5_first_from(c, p + 1);
    }
}

proof fn lemma_big5_last_before(c: u32, p: int)
    ensures
        big5_last_before(c, p) matches Some(q) ==> BIG5_ENCODE_MIN_POINTER <= q < p && big5_index(q) == c,
    decreases p,
{
    if p > BIG5_ENCODE_MIN_POINTER && p <= BIG5_POINTER_END && big5_index((p - 1) as u16) != c {
        lemma_big5_last_before(c, p - 1);
    }
}

/// The encoder's pointer lies where two bytes can express it, and it maps
/// back to the code point when the index pointer does.
pub proof fn lemma_big5_pointer_in_range(c: u32)
    requires
        big5_pointer_of(c) != NO_MAPPING ==> big5_index(big5_pointer_of(c)) == c,
    ensures
        big5_pointer_spec(c) matches Some(p) ==> BIG5_ENCODE_MIN_POINTER <= p < BIG5_POINTER_END
            && big5_index(p) == c,
{
    lemma_big5_first_from(c, BIG5_ENCODE_MIN_POINTER as int);
    lemma_big5_last_before(c, BIG5_POINTER_END as int);
}

} // verus!
