//! What decoders and encoders report, per call and per unit of input.
use vstd::prelude::*;

verus! {

/// Outcome of one call into a decoder.
#[derive(Clone, Copy, Debug, PartialEq, Eq, Structural)]
pub enum DecoderResult {
    /// The whole input was consumed.
    InputEmpty,
    /// The output buffer lacks room for the next unit of work.
    OutputFull,
    /// A malformed sequence: how many bytes were bad, and how many bytes
    /// after them were read as lookahead and count as consumed.
    Malformed(u8, u8),
}

/// Outcome of one call into an encoder.
#[derive(Clone, Copy, Debug, PartialEq, Eq, Structural)]
pub enum EncoderResult {
    /// The whole input was consumed.
    InputEmpty,
    /// The output buffer lacks room for the next scalar.
    OutputFull,
    /// The scalar value has no representation in the target encoding.
    Unmappable(u32),
}

} // verus!

verus! {

/// What a decoder's state machine does with one input byte.
#[derive(Clone, Copy, Debug, PartialEq, Eq, Structural)]
pub enum DecodeStep {
    /// The byte became part of the pending state; nothing is written.
    Pending,
    /// One scalar value is written.
    Emit(u32),
    /// Two scalar values are written (a base and a combining mark).
    EmitPair(u32, u32),
    /// A malformed sequence of the given length and lookahead; the flag says
    /// whether the byte itself counts as consumed.
    Malformed(u8, u8, bool),
}

/// What an encoder does with one scalar value.
#[derive(Clone, Copy, Debug, PartialEq, Eq, Structural)]
pub enum EncodeStep {
    Unmappable,
    One(u8),
    Two(u8, u8),
    Four(u8, u8, u8, u8),
}

/// The bytes that an encoder step writes.
pub open spec fn encode_step_bytes(s: EncodeStep) -> Seq<u8> {
    match s {
        EncodeStep::Unmappable => seq![],
        EncodeStep::One(a) => seq![a],
        EncodeStep::Two(a, b) => seq![a, b],
        EncodeStep::Four(a, b, c, d) => seq![a, b, c, d],
    }
}

} // verus!
