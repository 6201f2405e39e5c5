//! EUC-JP: JIS X 0208 two-byte sequences, half-width katakana after 0x8E,
//! and JIS X 0212 three-byte sequences after 0x8F.
use vstd::prelude::*;
use crate::data::{
    is_mapped, jis0208_backward, jis0208_forward, jis0208_index, jis0208_pointer_of,
    jis0212_forward, jis0212_index, NO_MAPPING,
};
use crate::handles::is_scalar;
use crate::results::{encode_step_bytes, DecodeStep, EncodeStep};
use crate::stream::{lemma_reads_back_one, lemma_reads_back_two, reads_back};
use crate::variant::{VariantDecoder, VariantEncoder};

verus! {

/// A byte that can start a multi-byte EUC-JP sequence.
pub open spec fn euc_jp_is_lead(b: u8) -> bool {
    (0xA1 <= b && b <= 0xFE) || b == 0x8E || b == 0x8F
}

/// A byte in the range of the JIS X 0208 and JIS X 0212 rows and cells.
pub open spec fn euc_jp_is_row_byte(b: u8) -> bool {
    0xA1 <= b && b <= 0xFE
}

#[derive(Clone, Copy)]
pub struct EucJpDecoder {
    /// The pending lead byte, or 0 when there is none.
    pub lead: u8,
    /// Whether the pending lead came after 0x8F and so reads JIS X 0212.
    pub jis0212: bool,
}

impl EucJpDecoder {
    pub fn new() -> (r: VariantDecoder)
        ensures
            r == VariantDecoder::EucJp(EucJpDecoder { lead: 0, jis0212: false }),
    {
        VariantDecoder::EucJp(EucJpDecoder { lead: 0, jis0212: false })
    }

    pub open spec fn wf(&self) -> bool {
        &&& (self.lead == 0 || euc_jp_is_lead(self.lead))
        &&& (self.jis0212 ==> euc_jp_is_row_byte(self.lead))
    }

    /// The state after one input byte, and what that byte produced.
    pub open spec fn step_spec(&self, b: u8) -> (EucJpDecoder, DecodeStep) {
        let cleared = EucJpDecoder { lead: 0, jis0212: false };
        let lead = self.lead;
        if lead == 0 {
            if b <= 0x7F {
                (cleared, DecodeStep::Emit(b as u32))
            } else if euc_jp_is_lead(b) {
                (EucJpDecoder { lead: b, jis0212: false }, DecodeStep::Pending)
            } else {
                (cleared, DecodeStep::Malformed(1, 0, true))
            }
        } else if lead == 0x8E && 0xA1 <= b && b <= 0xDF {
            (cleared, DecodeStep::Emit((0xFF61 - 0xA1 + b) as u32))
        } else if lead == 0x8F && euc_jp_is_row_byte(b) {
            (EucJpDecoder { lead: b, jis0212: true }, DecodeStep::Pending)
        } else {
            let pointer = ((lead - 0xA1) * 94 + (b - 0xA1)) as u16;
            let c = if self.jis0212 { jis0212_index(pointer) } else { jis0208_index(pointer) };
            if euc_jp_is_row_byte(b) && euc_jp_is_row_byte(lead) && is_mapped(c) && c < 0x10000 {
                (cleared, DecodeStep::Emit(c))
            } else if b < 0xA1 || b == 0xFF {
                (cleared, DecodeStep::Malformed(1, 0, false))
            } else {
                (cleared, DecodeStep::Malformed(2, 0, true))
            }
        }
    }

    /// The number of bytes reported malformed at the end of the stream.
    pub open spec fn eof_spec(&self) -> u8 {
        if self.lead != 0 { 1 } else { 0 }
    }

    pub fn step(&mut self, b: u8) -> (r: DecodeStep)
        requires
            old(self).wf(),
        ensures
            final(self).wf(),
            (*final(self), r) == old(self).step_spec(b),
    {
        if self.lead == 0 {
            if b <= 0x7F {
                return DecodeStep::Emit(b as u32);
            }
            if (b >= 0xA1 && b <= 0xFE) || b == 0x8E || b == 0x8F {
                self.lead = b;
                return DecodeStep::Pending;
            }
            return DecodeStep::Malformed(1, 0, true);
        }
        let lead = self.lead;
        let jis0212 = self.jis0212;
        self.lead = 0;
        self.jis0212 = false;
        if lead == 0x8E && (b >= 0xA1 && b <= 0xDF) {
            return DecodeStep::Emit(0xFF61 - 0xA1 + b as u32);
        }
        if lead == 0x8F && (b >= 0xA1 && b <= 0xFE) {
            self.lead = b;
            self.jis0212 = true;
            return DecodeStep::Pending;
        }
        if (b >= 0xA1 && b <= 0xFE) && (lead >= 0xA1 && lead <= 0xFE) {
            let pointer: u16 = (lead as u16 - 0xA1) * 94 + (b as u16 - 0xA1);
            let c = if jis0212 { jis0212_forward(pointer) } else { jis0208_forward(pointer) };
            if c < 0xFFFF && !(c >= 0xD800 && c <= 0xDFFF) {
                return DecodeStep::Emit(c);
            }
        }
        if b < 0xA1 || b == 0xFF {
            return DecodeStep::Malformed(1, 0, false);
        }
        DecodeStep::Malformed(2, 0, true)
    }

    /// Ends the stream: reports a pending lead and clears the state.
    pub fn eof(&mut self) -> (r: u8)
        requires
            old(self).wf(),
        ensures
            r == old(self).eof_spec(),
            *final(self) == (EucJpDecoder { lead: 0, jis0212: false }),
    {
        let r: u8 = if self.lead != 0 { 1 } else { 0 };
        self.lead = 0;
        self.jis0212 = false;
        r
    }

    fn plus_one_if_lead(&self, byte_length: usize) -> (r: usize)
        requires
            byte_length < usize::MAX,
        ensures
            r == byte_length + self.eof_spec(),
    {
        byte_length + if self.lead == 0 { 0 } else { 1 }
    }

    /// Every output unit stands for at least one input byte.
    pub fn max_utf16_buffer_length(&self, byte_length: usize) -> (r: usize)
        requires
            byte_length < usize::MAX,
        ensures
            r == byte_length + self.eof_spec(),
    {
        self.plus_one_if_lead(byte_length)
    }

    /// The worst case turns two bytes into three.
    pub fn max_utf8_buffer_length(&self, byte_length: usize) -> (r: usize)
        requires
            2 * (byte_length + 1) <= usize::MAX,
        ensures
            r == (byte_length + self.eof_spec()) + (byte_length + self.eof_spec() + 1) / 2,
    {
        let len = self.plus_one_if_lead(byte_length);
        len + (len + 1) / 2
    }

    /// Every byte may become a three-byte replacement character.
    pub fn max_utf8_buffer_length_with_replacement(&self, byte_length: usize) -> (r: usize)
        requires
            3 * (byte_length + 1) <= usize::MAX,
        ensures
            r == 3 * (byte_length + self.eof_spec()),
    {
        self.plus_one_if_lead(byte_length) * 3
    }
}

/// What the EUC-JP encoder does with a scalar value.
pub open spec fn euc_jp_encode_spec(c: u32) -> EncodeStep {
    if c <= 0x7F {
        EncodeStep::One(c as u8)
    } else if c == 0xA5 {
        EncodeStep::One(0x5C)
    } else if c == 0x203E {
        EncodeStep::One(0x7E)
    } else if 0xFF61 <= c && c <= 0xFF9F {
        EncodeStep::Two(0x8E, (c - 0xFF61 + 0xA1) as u8)
    } else if c == 0x2212 {
        EncodeStep::Two(0xA1, 0xDD)
    } else if c >= 0x10000 {
        // JIS X 0208 holds BMP characters only.
        EncodeStep::Unmappable
    } else {
        let p = jis0208_pointer_of(c);
        // Only pointers of rows 0xA1 to 0xFE have two-byte forms.
        if p == NO_MAPPING || p >= 94 * 94 {
            EncodeStep::Unmappable
        } else {
            EncodeStep::Two((p / 94 + 0xA1) as u8, (p % 94 + 0xA1) as u8)
        }
    }
}

#[derive(Clone, Copy)]
pub struct EucJpEncoder;

impl EucJpEncoder {
    pub fn new() -> (r: VariantEncoder)
        ensures
            r == VariantEncoder::EucJp(EucJpEncoder),
    {
        VariantEncoder::EucJp(EucJpEncoder)
    }

    pub fn max_buffer_length_from_utf16(&self, u16_length: usize) -> (r: usize)
        requires
            2 * u16_length <= usize::MAX,
        ensures
            r == 2 * u16_length,
    {
        u16_length * 2
    }

    pub fn max_buffer_length_from_utf8(&self, byte_length: usize) -> (r: usize)
        ensures
            r == byte_length,
    {
        byte_length
    }

    /// Encodes one scalar value; what it writes, a fresh decoder reads back
    /// as the same scalar, but for the three code points that EUC-JP folds
    /// onto others.
    pub fn encode_scalar(&self, c: u32) -> (r: EncodeStep)
        requires
            c < 0x110000,
        ensures
            r == euc_jp_encode_spec(c),
            is_scalar(c) && c != 0xFFFF && c != 0xA5 && c != 0x203E && c != 0x2212 && !(r is Unmappable)
                ==> reads_back(
                VariantDecoder::EucJp(EucJpDecoder { lead: 0, jis0212: false }),
                encode_step_bytes(r),
                c,
            ),
    {
        let ghost fresh = VariantDecoder::EucJp(EucJpDecoder { lead: 0, jis0212: false });
        if c <= 0x7F {
            proof {
                lemma_reads_back_one(fresh, c as u8, c);
            }
            return EncodeStep::One(c as u8);
        }
        if c == 0xA5 {
            return EncodeStep::One(0x5C);
        }
        if c == 0x203E {
            return EncodeStep::One(0x7E);
        }
        if c >= 0xFF61 && c <= 0xFF9F {
            proof {
                lemma_reads_back_two(fresh, 0x8E, (c - 0xFF61 + 0xA1) as u8, c);
            }
            return EncodeStep::Two(0x8E, (c - 0xFF61 + 0xA1) as u8);
        }
        if c == 0x2212 {
            return EncodeStep::Two(0xA1, 0xDD);
        }
        if c >= 0x10000 {
            return EncodeStep::Unmappable;
        }
        let pointer = jis0208_backward(c);
        if pointer == NO_MAPPING || pointer >= 94 * 94 {
            return EncodeStep::Unmappable;
        }
        let lead = pointer / 94 + 0xA1;
        let trail = pointer % 94 + 0xA1;
        proof {
            assert(((lead - 0xA1) * 94 + (trail - 0xA1)) as u16 == pointer) by (nonlinear_arith)
                requires
                    lead == pointer / 94 + 0xA1,
                    trail == pointer % 94 + 0xA1,
                    pointer < 94 * 94,
            ;
            if is_scalar(c) && c != 0xFFFF {
                lemma_reads_back_two(fresh, lead as u8, trail as u8, c);
            }
        }
        EncodeStep::Two(lead as u8, trail as u8)
    }
}

} // verus!
