//! Validation of UTF-8 against the byte ranges of RFC 3629.
use vstd::prelude::*;
use crate::ascii::validate_ascii;
use vstd::string::StringSliceAdditionalSpecFns;
use vstd::utf8::{
    codepoint_width_2, codepoint_width_3, codepoint_width_4, encode_utf8_valid_utf8,
    length_of_first_scalar, pop_first_scalar, valid_first_scalar, valid_utf8,
};

verus! {

/// A UTF-8 continuation byte.
pub open spec fn is_cont(b: u8) -> bool {
    0x80 <= b && b <= 0xBF
}

/// Whether `b` may follow the lead `lead` of a three-byte sequence: no
/// overlong forms after 0xE0 and no surrogates after 0xED.
pub open spec fn second_of_three_ok(lead: u8, b: u8) -> bool {
    if lead == 0xE0 {
        0xA0 <= b && b <= 0xBF
    } else if lead == 0xED {
        0x80 <= b && b <= 0x9F
    } else {
        is_cont(b)
    }
}

/// Whether `b` may follow the lead `lead` of a four-byte sequence: no
/// overlong forms after 0xF0 and nothing above U+10FFFF after 0xF4.
pub open spec fn second_of_four_ok(lead: u8, b: u8) -> bool {
    if lead == 0xF0 {
        0x90 <= b && b <= 0xBF
    } else if lead == 0xF4 {
        0x80 <= b && b <= 0x8F
    } else {
        is_cont(b)
    }
}

/// The length of the well-formed sequence that starts at `i`, or 0 when
/// none does.
pub open spec fn utf8_sequence_len(v: Seq<u8>, i: int) -> int {
    let n = v.len() as int;
    let b0 = v[i];
    if b0 < 0x80 {
        1
    } else if 0xC2 <= b0 && b0 <= 0xDF {
        if i + 1 < n && is_cont(v[i + 1]) { 2 } else { 0 }
    } else if 0xE0 <= b0 && b0 <= 0xEF {
        if i + 2 < n && second_of_three_ok(b0, v[i + 1]) && is_cont(v[i + 2]) { 3 } else { 0 }
    } else if 0xF0 <= b0 && b0 <= 0xF4 {
        if i + 3 < n && second_of_four_ok(b0, v[i + 1]) && is_cont(v[i + 2]) && is_cont(v[i + 3]) {
            4
        } else {
            0
        }
    } else {
        0
    }
}

/// The index of the first byte from `i` on that starts no well-formed
/// sequence, or the length when all of the rest is valid.
pub open spec fn utf8_valid_up_to(v: Seq<u8>, i: int) -> int
    decreases v.len() - i,
{
    if i >= v.len() || i < 0 {
        v.len() as int
    } else if utf8_sequence_len(v, i) == 0 {
        i
    } else {
        utf8_valid_up_to(v, i + utf8_sequence_len(v, i))
    }
}

/// The error of a failed validation.
#[derive(Clone, Copy, Debug, PartialEq, Eq, Structural)]
pub struct Utf8Error {
    valid_up_to: usize,
}

impl Utf8Error {
    pub closed spec fn spec_valid_up_to(&self) -> usize {
        self.valid_up_to
    }

    /// The length of the longest valid prefix of the input.
    pub fn valid_up_to(&self) -> (r: usize)
        ensures
            r == self.spec_valid_up_to(),
    {
        self.valid_up_to
    }
}

proof fn lemma_ascii_run(v: Seq<u8>, i: int, k: int)
    requires
        0 <= i <= k <= v.len(),
        forall|j: int| i <= j < k ==> v[j] <= 0x7F,
    ensures
        utf8_valid_up_to(v, i) == utf8_valid_up_to(v, k),
    decreases k - i,
{
    if i < k {
        lemma_ascii_run(v, i + 1, k);
    }
}

/// Checks that `v` is well-formed UTF-8; on failure the error holds the
/// length of the longest valid prefix.
pub fn run_utf8_validation(v: &[u8]) -> (r: Result<(), Utf8Error>)
    ensures
        r is Ok <==> utf8_valid_up_to(v@, 0) == v@.len(),
        r matches Err(e) ==> e.spec_valid_up_to() == utf8_valid_up_to(v@, 0),
{
    let mut offset: usize = 0;
    let len = v.len();
    while offset < len
        invariant
            len == v@.len(),
            offset <= len,
            utf8_valid_up_to(v@, 0) == utf8_valid_up_to(v@, offset as int),
        decreases len - offset,
    {
        let old_offset = offset;
        let first = v[offset];
        if first >= 128 {
            let rest = len - offset;
            let ok = if first >= 0xC2 && first <= 0xDF {
                rest > 1 && v[offset + 1] >= 0x80 && v[offset + 1] <= 0xBF
            } else if first >= 0xE0 && first <= 0xEF {
                rest > 2 && (if first == 0xE0 {
                    v[offset + 1] >= 0xA0 && v[offset + 1] <= 0xBF
                } else if first == 0xED {
                    v[offset + 1] >= 0x80 && v[offset + 1] <= 0x9F
                } else {
                    v[offset + 1] >= 0x80 && v[offset + 1] <= 0xBF
                }) && v[offset + 2] >= 0x80 && v[offset + 2] <= 0xBF
            } else if first >= 0xF0 && first <= 0xF4 {
                rest > 3 && (if first == 0xF0 {
                    v[offset + 1] >= 0x90 && v[offset + 1] <= 0xBF
                } else if first == 0xF4 {
                    v[offset + 1] >= 0x80 && v[offset + 1] <= 0x8F
                } else {
                    v[offset + 1] >= 0x80 && v[offset + 1] <= 0xBF
                }) && v[offset + 2] >= 0x80 && v[offset + 2] <= 0xBF && v[offset + 3] >= 0x80
                    && v[offset + 3] <= 0xBF
            } else {
                false
            };
            if !ok {
                return Err(Utf8Error { valid_up_to: old_offset });
            }
            let width: usize = if first <= 0xDF { 2 } else if first <= 0xEF { 3 } else { 4 };
            assert(utf8_sequence_len(v@, offset as int) == width);
            offset = offset + width;
        } else {
            // ASCII: skip the whole run at once.
            let remaining = v.split_at(offset).1;
            proof {
                assert(remaining@ =~= v@.subrange(offset as int, len as int));
            }
            match validate_ascii(remaining) {
                None => {
                    proof {
                        assert forall|j: int| offset <= j < len implies v@[j] <= 0x7F by {
                            assert(remaining@[j - offset] == v@[j]);
                        }
                        lemma_ascii_run(v@, offset as int, len as int);
                    }
                    offset = len;
                },
                Some((_, num_ascii)) => {
                    proof {
                        assert forall|j: int| offset <= j < offset + num_ascii implies v@[j] <= 0x7F by {
                            assert(remaining@[j - offset] == v@[j]);
                        }
                        lemma_ascii_run(v@, offset as int, offset + num_ascii);
                    }
                    offset = offset + num_ascii;
                },
            }
        }
    }
    Ok(())
}

/// A scalar that vstd's UTF-8 grammar accepts at the front of `w` is a
/// sequence of the byte ranges above, of the same length.
proof fn lemma_first_scalar_ranges(w: Seq<u8>)
    requires
        w.len() > 0,
        valid_first_scalar(w),
    ensures
        utf8_sequence_len(w, 0) == length_of_first_scalar(w),
{
    let b0 = w[0];
    if 0xC0 <= b0 && b0 <= 0xDF {
        let b1 = w[1];
        assert(codepoint_width_2(b0, b1) == ((((b0 & 0x1F) as u32) << 6) | ((b1 & 0x3F) as u32)));
        assert(0xC0 <= b0 && b0 <= 0xDF && ((((b0 & 0x1F) as u32) << 6) | ((b1 & 0x3F) as u32)) >= 0x80 ==> b0 >= 0xC2)
            by (bit_vector);
    } else if 0xE0 <= b0 && b0 <= 0xEF {
        let b1 = w[1];
        let b2 = w[2];
        assert(codepoint_width_3(b0, b1, b2) == ((((b0 & 0x0F) as u32) << 12) | (((b1 & 0x3F) as u32) << 6) | ((b2 & 0x3F) as u32)));
        assert(0x80 <= b1 && b1 <= 0xBF && ((((b0 & 0x0F) as u32) << 12) | (((b1 & 0x3F) as u32) << 6) | ((b2 & 0x3F) as u32)) >= 0x800 && b0 == 0xE0 ==> b1 >= 0xA0)
            by (bit_vector);
        assert(0x80 <= b1 && b1 <= 0xBF && 0x80 <= b2 && b2 <= 0xBF && b0 == 0xED
            && !(0xD800 <= ((((b0 & 0x0F) as u32) << 12) | (((b1 & 0x3F) as u32) << 6) | ((b2 & 0x3F) as u32))
            && ((((b0 & 0x0F) as u32) << 12) | (((b1 & 0x3F) as u32) << 6) | ((b2 & 0x3F) as u32)) <= 0xDFFF) ==> b1 <= 0x9F)
            by (bit_vector);
    } else if 0xF0 <= b0 && b0 <= 0xF7 {
        let b1 = w[1];
        let b2 = w[2];
        let b3 = w[3];
        assert(codepoint_width_4(b0, b1, b2, b3) == ((((b0 & 0x07) as u32) << 18) | (((b1 & 0x3F) as u32) << 12) | (((b2 & 0x3F) as u32) << 6) | ((b3 & 0x3F) as u32)));
        assert(0xF0 <= b0 && b0 <= 0xF7 && 0x80 <= b1 && b1 <= 0xBF
            && 0x10000 <= ((((b0 & 0x07) as u32) << 18) | (((b1 & 0x3F) as u32) << 12) | (((b2 & 0x3F) as u32) << 6) | ((b3 & 0x3F) as u32))
            && ((((b0 & 0x07) as u32) << 18) | (((b1 & 0x3F) as u32) << 12) | (((b2 & 0x3F) as u32) << 6) | ((b3 & 0x3F) as u32)) <= 0x10FFFF
            ==> b0 <= 0xF4 && (b0 == 0xF0 ==> b1 >= 0x90) && (b0 == 0xF4 ==> b1 <= 0x8F))
            by (bit_vector);
    }
}

proof fn lemma_valid_suffix(v: Seq<u8>, i: int)
    requires
        0 <= i <= v.len(),
        valid_utf8(v.subrange(i, v.len() as int)),
    ensures
        utf8_valid_up_to(v, i) == v.len(),
    decreases v.len() - i,
{
    if i < v.len() {
        let w = v.subrange(i, v.len() as int);
        lemma_first_scalar_ranges(w);
        let k = length_of_first_scalar(w);
        assert(w[0] == v[i]);
        assert(k >= 2 ==> w[1] == v[i + 1]);
        assert(k >= 3 ==> w[2] == v[i + 2]);
        assert(k >= 4 ==> w[3] == v[i + 3]);
        assert(utf8_sequence_len(v, i) == k);
        assert(pop_first_scalar(w) =~= v.subrange(i + k, v.len() as int));
        lemma_valid_suffix(v, i + k);
    }
}

/// Bytes that vstd's UTF-8 grammar accepts pass this validator whole.
pub proof fn lemma_valid_utf8_passes(v: Seq<u8>)
    requires
        valid_utf8(v),
    ensures
        utf8_valid_up_to(v, 0) == v.len(),
{
    assert(v.subrange(0, v.len() as int) =~= v);
    lemma_valid_suffix(v, 0);
}

/// The bytes of a string slice are valid UTF-8.
pub proof fn lemma_str_bytes_valid(s: &str)
    ensures
        utf8_valid_up_to(s.spec_bytes(), 0) == s.spec_bytes().len(),
{
    encode_utf8_valid_utf8(s@);
    lemma_valid_utf8_passes(s.spec_bytes());
}

} // verus!
