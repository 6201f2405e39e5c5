//! The replacement encoding, which decodes any input to one error.
use vstd::prelude::*;
use crate::results::DecoderResult;
use crate::variant::VariantDecoder;

verus! {

/// Decoder for the replacement encoding: any non-empty input becomes a
/// single malformed sequence, and everything after it is swallowed.
#[derive(Clone, Copy)]
pub struct ReplacementDecoder {
    pub emitted: bool,
}

/// What a replacement decoder reports for `src`, and whether it has
/// reported its single error afterwards.
pub open spec fn replacement_decode_spec(emitted: bool, src: Seq<u8>) -> (DecoderResult, usize, usize, bool) {
    if emitted || src.len() == 0 {
        (DecoderResult::InputEmpty, src.len() as usize, 0usize, emitted)
    } else {
        (DecoderResult::Malformed(1, 0), 1usize, 0usize, true)
    }
}

impl ReplacementDecoder {
    pub fn new() -> (r: VariantDecoder)
        ensures
            r == VariantDecoder::Replacement(ReplacementDecoder { emitted: false }),
    {
        VariantDecoder::Replacement(ReplacementDecoder { emitted: false })
    }

    pub fn max_utf16_buffer_length(&self, _u16_length: usize) -> (r: usize)
        ensures
            r == 1,
    {
        1
    }

    /// Really zero, but one avoids surprising callers.
    pub fn max_utf8_buffer_length_without_replacement(&self, _byte_length: usize) -> (r: usize)
        ensures
            r == 1,
    {
        1
    }

    pub fn max_utf8_buffer_length(&self, _byte_length: usize) -> (r: usize)
        ensures
            r == 3,
    {
        3
    }

    fn decode(&mut self, src: &[u8]) -> (r: (DecoderResult, usize, usize))
        ensures
            (r.0, r.1, r.2, final(self).emitted) == replacement_decode_spec(old(self).emitted, src@),
    {
        // An empty stream is not an error.
        if self.emitted || src.len() == 0 {
            (DecoderResult::InputEmpty, src.len(), 0)
        } else {
            self.emitted = true;
            (DecoderResult::Malformed(1, 0), 1, 0)
        }
    }

    pub fn decode_to_utf16_raw(&mut self, src: &[u8], _dst: &mut [u16], _last: bool) -> (r: (
        DecoderResult,
        usize,
        usize,
    ))
        ensures
            (r.0, r.1, r.2, final(self).emitted) == replacement_decode_spec(old(self).emitted, src@),
            final(_dst)@ == old(_dst)@,
    {
        self.decode(src)
    }

    pub fn decode_to_utf8_raw(&mut self, src: &[u8], _dst: &mut [u8], _last: bool) -> (r: (
        DecoderResult,
        usize,
        usize,
    ))
        ensures
            (r.0, r.1, r.2, final(self).emitted) == replacement_decode_spec(old(self).emitted, src@),
            final(_dst)@ == old(_dst)@,
    {
        self.decode(src)
    }
}

} // verus!
