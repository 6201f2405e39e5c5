//! The tagged unions over the decoders and encoders, and the streaming
//! drivers that run a state machine over caller-supplied buffers.
use vstd::prelude::*;
use vstd::string::StringSliceAdditionalSpecFns;
use crate::ascii::{copy_ascii_to_utf16, copy_ascii_to_utf8, widen};
use crate::big5::{Big5Decoder, Big5Encoder};
use crate::euc_jp::{EucJpDecoder, EucJpEncoder};
use crate::gb18030::{Gb18030Decoder, Gb18030Encoder, Gb18030Pending};
use crate::stream::{is_empty_state, lemma_last_call_empties, reads_back};
use crate::handles::{
    is_scalar, read_utf16, read_utf8, utf16_scalar_at, utf16_units, utf8_scalar_at, utf8_units, write_utf16,
    write_utf8,
};
use crate::replacement::ReplacementDecoder;
use crate::big5::big5_encode_spec;
use crate::euc_jp::euc_jp_encode_spec;
use crate::gb18030::gb18030_encode_scalar_spec;
use crate::results::{DecodeStep, DecoderResult, EncodeStep, EncoderResult, encode_step_bytes};

verus! {

#[derive(Clone, Copy)]
pub enum VariantDecoder {
    Big5(Big5Decoder),
    EucJp(EucJpDecoder),
    Gb18030(Gb18030Decoder),
    Replacement(ReplacementDecoder),
}

/// The UTF-16 units of what one step writes.
pub open spec fn step_units16(s: DecodeStep) -> Seq<u16> {
    match s {
        DecodeStep::Emit(c) => utf16_units(c),
        DecodeStep::EmitPair(a, b) => utf16_units(a) + utf16_units(b),
        _ => seq![],
    }
}

/// The UTF-8 bytes of what one step writes.
pub open spec fn step_units8(s: DecodeStep) -> Seq<u8> {
    match s {
        DecodeStep::Emit(c) => utf8_units(c),
        DecodeStep::EmitPair(a, b) => utf8_units(a) + utf8_units(b),
        _ => seq![],
    }
}

impl VariantDecoder {
    pub open spec fn wf(&self) -> bool {
        match self {
            VariantDecoder::Big5(d) => d.wf(),
            VariantDecoder::EucJp(d) => d.wf(),
            VariantDecoder::Gb18030(d) => d.wf(),
            VariantDecoder::Replacement(_) => true,
        }
    }

    /// The state after one input byte, and what that byte produced.
    pub open spec fn step_spec(&self, b: u8) -> (VariantDecoder, DecodeStep) {
        match self {
            VariantDecoder::Big5(d) => {
                let (n, s) = d.step_spec(b);
                (VariantDecoder::Big5(n), s)
            },
            VariantDecoder::EucJp(d) => {
                let (n, s) = d.step_spec(b);
                (VariantDecoder::EucJp(n), s)
            },
            VariantDecoder::Gb18030(d) => {
                let (n, s) = d.step_spec(b);
                (VariantDecoder::Gb18030(n), s)
            },
            VariantDecoder::Replacement(d) => {
                if d.emitted {
                    (*self, DecodeStep::Pending)
                } else {
                    (
                        VariantDecoder::Replacement(ReplacementDecoder { emitted: true }),
                        DecodeStep::Malformed(1, 0, true),
                    )
                }
            },
        }
    }

    /// How many pending bytes the end of the stream reports as malformed.
    pub open spec fn eof_spec(&self) -> u8 {
        match self {
            VariantDecoder::Big5(d) => d.eof_spec(),
            VariantDecoder::EucJp(d) => d.eof_spec(),
            VariantDecoder::Gb18030(d) => d.eof_spec(),
            VariantDecoder::Replacement(_) => 0,
        }
    }

    /// The state once the end of the stream has been reported.
    pub open spec fn after_eof(&self) -> VariantDecoder {
        match self {
            VariantDecoder::Big5(_) => VariantDecoder::Big5(Big5Decoder { lead: 0 }),
            VariantDecoder::EucJp(_) => VariantDecoder::EucJp(EucJpDecoder { lead: 0, jis0212: false }),
            VariantDecoder::Gb18030(d) => VariantDecoder::Gb18030(
                Gb18030Decoder { pending: Gb18030Pending::Empty, ..*d },
            ),
            VariantDecoder::Replacement(_) => *self,
        }
    }

    /// An ASCII byte that must be written before any further input.
    pub open spec fn pending_ascii_spec(&self) -> Option<u8> {
        match self {
            VariantDecoder::Gb18030(d) => d.pending_ascii,
            _ => None,
        }
    }

    /// The state once the pending ASCII byte has been written.
    pub open spec fn flushed(&self) -> VariantDecoder {
        match self {
            VariantDecoder::Gb18030(d) => VariantDecoder::Gb18030(
                Gb18030Decoder { pending_ascii: None, ..*d },
            ),
            _ => *self,
        }
    }

    /// Whether two decoders are of the same encoding.
    pub open spec fn same_variant(&self, other: VariantDecoder) -> bool {
        match (self, other) {
            (VariantDecoder::Big5(_), VariantDecoder::Big5(_)) => true,
            (VariantDecoder::EucJp(_), VariantDecoder::EucJp(_)) => true,
            (VariantDecoder::Gb18030(_), VariantDecoder::Gb18030(_)) => true,
            (VariantDecoder::Replacement(_), VariantDecoder::Replacement(_)) => true,
            _ => false,
        }
    }

    /// How many bytes of an unfinished sequence the state holds.
    pub open spec fn depth(&self) -> nat {
        match self {
            VariantDecoder::Big5(d) => if d.lead != 0 { 1nat } else { 0 },
            VariantDecoder::EucJp(d) => if d.lead != 0 { 1nat } else { 0 },
            VariantDecoder::Gb18030(d) => d.pending.count_spec(),
            VariantDecoder::Replacement(_) => 0,
        }
    }

    /// The freshly constructed decoder of the same encoding.
    pub open spec fn fresh(&self) -> VariantDecoder {
        match self {
            VariantDecoder::Big5(_) => VariantDecoder::Big5(Big5Decoder { lead: 0 }),
            VariantDecoder::EucJp(_) => VariantDecoder::EucJp(EucJpDecoder { lead: 0, jis0212: false }),
            VariantDecoder::Gb18030(_) => VariantDecoder::Gb18030(
                Gb18030Decoder { pending: Gb18030Pending::Empty, pending_ascii: None },
            ),
            VariantDecoder::Replacement(_) => VariantDecoder::Replacement(
                ReplacementDecoder { emitted: false },
            ),
        }
    }

    /// UTF-16 units that must be free before the next byte is read: one for
    /// ASCII outside a sequence, else as many as the longest output.
    pub open spec fn room16(&self, b: u8) -> int {
        match self {
            VariantDecoder::Replacement(_) => 0,
            VariantDecoder::EucJp(_) => 1,
            _ => if self.depth() == 0 && b <= 0x7F { 1 } else { 2 },
        }
    }

    /// UTF-8 bytes that must be free before the next byte is read.
    pub open spec fn room8(&self, b: u8) -> int {
        match self {
            VariantDecoder::Replacement(_) => 0,
            _ => if self.depth() == 0 && b <= 0x7F {
                1
            } else if self is EucJp {
                3
            } else {
                4
            },
        }
    }

    /// Goes back to the state of a freshly constructed decoder.
    pub fn reset(&mut self)
        ensures
            *final(self) == old(self).fresh(),
            final(self).wf(),
    {
        *self = match self {
            VariantDecoder::Big5(_) => VariantDecoder::Big5(Big5Decoder { lead: 0 }),
            VariantDecoder::EucJp(_) => VariantDecoder::EucJp(EucJpDecoder { lead: 0, jis0212: false }),
            VariantDecoder::Gb18030(_) => VariantDecoder::Gb18030(
                Gb18030Decoder { pending: Gb18030Pending::Empty, pending_ascii: None },
            ),
            VariantDecoder::Replacement(_) => VariantDecoder::Replacement(
                ReplacementDecoder { emitted: false },
            ),
        };
    }

    fn step(&mut self, b: u8) -> (r: DecodeStep)
        requires
            old(self).wf(),
        ensures
            final(self).same_variant(*old(self)),
            final(self).wf(),
            (*final(self), r) == old(self).step_spec(b),
            step_units16(r).len() <= old(self).room16(b),
            step_units8(r).len() <= old(self).room8(b),
            r matches DecodeStep::Emit(c) ==> c < 0x110000,
            r matches DecodeStep::EmitPair(a, c) ==> a < 0x110000 && c < 0x110000,
    {
        match self {
            VariantDecoder::Big5(d) => d.step(b),
            VariantDecoder::EucJp(d) => d.step(b),
            VariantDecoder::Gb18030(d) => d.step(b),
            VariantDecoder::Replacement(d) => {
                if d.emitted {
                    DecodeStep::Pending
                } else {
                    d.emitted = true;
                    DecodeStep::Malformed(1, 0, true)
                }
            },
        }
    }

    fn eof(&mut self) -> (r: u8)
        requires
            old(self).wf(),
        ensures
            final(self).same_variant(*old(self)),
            final(self).wf(),
            r == old(self).eof_spec(),
            *final(self) == if r > 0 { old(self).after_eof() } else { *old(self) },
    {
        match self {
            VariantDecoder::Big5(d) => d.eof(),
            VariantDecoder::EucJp(d) => d.eof(),
            VariantDecoder::Gb18030(d) => d.eof(),
            VariantDecoder::Replacement(_) => 0,
        }
    }

    fn take_pending_ascii(&mut self) -> (r: Option<u8>)
        requires
            old(self).wf(),
        ensures
            final(self).same_variant(*old(self)),
            final(self).wf(),
            r == old(self).pending_ascii_spec(),
            *final(self) == old(self).flushed(),
    {
        match self {
            VariantDecoder::Gb18030(d) => {
                let r = d.pending_ascii;
                d.pending_ascii = None;
                r
            },
            _ => None,
        }
    }
}

/// Outcome of a decoding call in spec form: the result, the bytes read, the
/// units written, and the decoder's state afterwards.
pub type DecodeOutcome<U> = (DecoderResult, int, Seq<U>, VariantDecoder);

/// Decodes `src` from `pos` on into UTF-16 after the units `out`, in a
/// buffer of `cap` units.
pub open spec fn run16(
    d: VariantDecoder,
    src: Seq<u8>,
    pos: int,
    out: Seq<u16>,
    cap: int,
    last: bool,
) -> DecodeOutcome<u16>
    decreases src.len() - pos,
{
    if pos >= src.len() {
        if last && d.eof_spec() > 0 {
            (DecoderResult::Malformed(d.eof_spec(), 0), pos, out, d.after_eof())
        } else {
            (DecoderResult::InputEmpty, pos, out, d)
        }
    } else if cap - out.len() < d.room16(src[pos]) {
        (DecoderResult::OutputFull, pos, out, d)
    } else {
        let (n, s) = d.step_spec(src[pos]);
        match s {
            DecodeStep::Malformed(bad, extra, consumed) => (
                DecoderResult::Malformed(bad, extra),
                if consumed { pos + 1 } else { pos },
                out,
                n,
            ),
            _ => run16(n, src, pos + 1, out + step_units16(s), cap, last),
        }
    }
}

/// Decodes `src` from `pos` on into UTF-8 after the bytes `out`, in a
/// buffer of `cap` bytes.
pub open spec fn run8(
    d: VariantDecoder,
    src: Seq<u8>,
    pos: int,
    out: Seq<u8>,
    cap: int,
    last: bool,
) -> DecodeOutcome<u8>
    decreases src.len() - pos,
{
    if pos >= src.len() {
        if last && d.eof_spec() > 0 {
            (DecoderResult::Malformed(d.eof_spec(), 0), pos, out, d.after_eof())
        } else {
            (DecoderResult::InputEmpty, pos, out, d)
        }
    } else if cap - out.len() < d.room8(src[pos]) {
        (DecoderResult::OutputFull, pos, out, d)
    } else {
        let (n, s) = d.step_spec(src[pos]);
        match s {
            DecodeStep::Malformed(bad, extra, consumed) => (
                DecoderResult::Malformed(bad, extra),
                if consumed { pos + 1 } else { pos },
                out,
                n,
            ),
            _ => run8(n, src, pos + 1, out + step_units8(s), cap, last),
        }
    }
}

/// One call of `decode_to_utf16`: a pending ASCII byte goes out first, then
/// the input runs until it is used up, the buffer is full, or a malformed
/// sequence is found.
pub open spec fn decode16_spec(d: VariantDecoder, src: Seq<u8>, cap: int, last: bool) -> DecodeOutcome<u16> {
    match d.pending_ascii_spec() {
        Some(a) => if cap < 1 {
            (DecoderResult::OutputFull, 0, seq![], d)
        } else {
            run16(d.flushed(), src, 0, seq![a as u16], cap, last)
        },
        None => run16(d, src, 0, seq![], cap, last),
    }
}

/// One call of `decode_to_utf8`.
pub open spec fn decode8_spec(d: VariantDecoder, src: Seq<u8>, cap: int, last: bool) -> DecodeOutcome<u8> {
    match d.pending_ascii_spec() {
        Some(a) => if cap < 1 {
            (DecoderResult::OutputFull, 0, seq![], d)
        } else {
            run8(d.flushed(), src, 0, seq![a], cap, last)
        },
        None => run8(d, src, 0, seq![], cap, last),
    }
}

/// In the ground state, an ASCII byte is written as it is and leaves the
/// state alone.
proof fn lemma_ascii_step(d: VariantDecoder, b: u8)
    requires
        d.wf(),
        d.takes_ascii_runs_spec(),
        b <= 0x7F,
    ensures
        d.step_spec(b) == (d, DecodeStep::Emit(b as u32)),
        d.room16(b) == 1,
        d.room8(b) == 1,
{
}

/// A run of ASCII bytes that fits the buffer, read in the ground state, is
/// written as it is.
proof fn lemma_run16_ascii(d: VariantDecoder, src: Seq<u8>, pos: int, out: Seq<u16>, cap: int, last: bool, n: int)
    requires
        d.wf(),
        d.takes_ascii_runs_spec(),
        0 <= n,
        0 <= pos,
        pos + n <= src.len(),
        out.len() + n <= cap,
        forall|i: int| pos <= i < pos + n ==> src[i] <= 0x7F,
    ensures
        run16(d, src, pos, out, cap, last) == run16(d, src, pos + n, out + widen(src, pos, n), cap, last),
    decreases n,
{
    if n == 0 {
        assert(out + widen(src, pos, 0) =~= out);
    } else {
        let b = src[pos];
        lemma_ascii_step(d, b);
        assert(step_units16(DecodeStep::Emit(b as u32)) =~= seq![b as u16]);
        lemma_run16_ascii(d, src, pos + 1, out + seq![b as u16], cap, last, n - 1);
        assert(out + seq![b as u16] + widen(src, pos + 1, n - 1) =~= out + widen(src, pos, n));
    }
}

/// The UTF-8 counterpart of `lemma_run16_ascii`.
proof fn lemma_run8_ascii(d: VariantDecoder, src: Seq<u8>, pos: int, out: Seq<u8>, cap: int, last: bool, n: int)
    requires
        d.wf(),
        d.takes_ascii_runs_spec(),
        0 <= n,
        0 <= pos,
        pos + n <= src.len(),
        out.len() + n <= cap,
        forall|i: int| pos <= i < pos + n ==> src[i] <= 0x7F,
    ensures
        run8(d, src, pos, out, cap, last) == run8(d, src, pos + n, out + src.subrange(pos, pos + n), cap, last),
    decreases n,
{
    if n == 0 {
        assert(out + src.subrange(pos, pos) =~= out);
    } else {
        let b = src[pos];
        lemma_ascii_step(d, b);
        assert(step_units8(DecodeStep::Emit(b as u32)) =~= seq![b]);
        lemma_run8_ascii(d, src, pos + 1, out + seq![b], cap, last, n - 1);
        assert(out + seq![b] + src.subrange(pos + 1, pos + n) =~= out + src.subrange(pos, pos + n));
    }
}

impl VariantDecoder {
    /// Decodes as much of `src` into `dst` as the two allow, stopping at the
    /// first malformed sequence. Returns the result, the bytes read and the
    /// units written.
    pub fn decode_to_utf16(&mut self, src: &[u8], dst: &mut [u16], last: bool) -> (r: (
        DecoderResult,
        usize,
        usize,
    ))
        requires
            old(self).wf(),
        ensures
            last && r.0 is InputEmpty ==> is_empty_state(*final(self)),
            final(self).same_variant(*old(self)),
            final(self).wf(),
            r.1 <= src@.len(),
            r.2 <= old(dst)@.len(),
            final(dst)@.len() == old(dst)@.len(),
            ({
                let (res, read, out, next) = decode16_spec(*old(self), src@, old(dst)@.len() as int, last);
                &&& r.0 == res
                &&& r.1 == read
                &&& r.2 == out.len()
                &&& final(dst)@.subrange(0, r.2 as int) == out
                &&& *final(self) == next
            }),
    {
        proof {
            lemma_last_call_empties(*self, src@, dst@.len() as int, last);
        }
        let saved = *self;
        let ghost d0 = *self;
        let ghost cap = dst@.len() as int;
        let mut written: usize = 0;
        match self.take_pending_ascii() {
            Some(a) => {
                if dst.len() < 1 {
                    *self = saved;
                    return (DecoderResult::OutputFull, 0, 0);
                }
                dst[0] = a as u16;
                written = 1;
                assert(dst@.subrange(0, 1) =~= seq![a as u16]);
            },
            None => {
                assert(dst@.subrange(0, 0) =~= Seq::<u16>::empty());
            },
        }
        let mut pos: usize = 0;
        loop
            invariant
                self.wf(),
                pos <= src@.len(),
                written <= dst@.len(),
                dst@.len() == cap,
                cap == old(dst)@.len(),
                d0 == *old(self),
                self.same_variant(d0),
                last && decode16_spec(d0, src@, cap, last).0 is InputEmpty ==> is_empty_state(decode16_spec(d0, src@, cap, last).3),
                decode16_spec(d0, src@, cap, last) == run16(*self, src@, pos as int, dst@.subrange(0, written as int), cap, last),
            decreases src@.len() - pos,
        {
            if pos == src.len() {
                if last {
                    let bad = self.eof();
                    if bad > 0 {
                        return (DecoderResult::Malformed(bad, 0), pos, written);
                    }
                }
                return (DecoderResult::InputEmpty, pos, written);
            }
            let b = src[pos];
            if b <= 0x7F && self.takes_ascii_runs() {
                // Copy the whole ASCII run at once.
                let ghost before = dst@.subrange(0, written as int);
                let n = copy_ascii_to_utf16(src, pos, dst, written);
                proof {
                    lemma_run16_ascii(*self, src@, pos as int, before, cap, last, n as int);
                }
                if n > 0 {
                    let dst_len = dst.len();
                    assert(written + n <= dst_len);
                    pos = pos + n;
                    written = written + n;
                    continue;
                }
                assert(dst@.subrange(0, written as int) =~= before);
            }
            let room: usize = self.room16_exec(b);
            if dst.len() - written < room {
                return (DecoderResult::OutputFull, pos, written);
            }
            let ghost before = dst@.subrange(0, written as int);
            let step = self.step(b);
            match step {
                DecodeStep::Pending => {},
                DecodeStep::Emit(c) => {
                    written = written + write_utf16(dst, written, c);
                },
                DecodeStep::EmitPair(c1, c2) => {
                    written = written + write_utf16(dst, written, c1);
                    written = written + write_utf16(dst, written, c2);
                    assert(dst@.subrange(0, written as int) =~= before + step_units16(step));
                },
                DecodeStep::Malformed(bad, extra, consumed) => {
                    return (DecoderResult::Malformed(bad, extra), if consumed { pos + 1 } else { pos }, written);
                },
            }
            pos = pos + 1;
        }
    }

    /// Decodes as much of `src` into `dst` as UTF-8 as the two allow,
    /// stopping at the first malformed sequence.
    pub fn decode_to_utf8(&mut self, src: &[u8], dst: &mut [u8], last: bool) -> (r: (
        DecoderResult,
        usize,
        usize,
    ))
        requires
            old(self).wf(),
        ensures
            last && r.0 is InputEmpty ==> is_empty_state(*final(self)),
            final(self).same_variant(*old(self)),
            final(self).wf(),
            r.1 <= src@.len(),
            r.2 <= old(dst)@.len(),
            final(dst)@.len() == old(dst)@.len(),
            ({
                let (res, read, out, next) = decode8_spec(*old(self), src@, old(dst)@.len() as int, last);
                &&& r.0 == res
                &&& r.1 == read
                &&& r.2 == out.len()
                &&& final(dst)@.subrange(0, r.2 as int) == out
                &&& *final(self) == next
            }),
    {
        proof {
            lemma_last_call_empties(*self, src@, dst@.len() as int, last);
        }
        let saved = *self;
        let ghost d0 = *self;
        let ghost cap = dst@.len() as int;
        let mut written: usize = 0;
        match self.take_pending_ascii() {
            Some(a) => {
                if dst.len() < 1 {
                    *self = saved;
                    return (DecoderResult::OutputFull, 0, 0);
                }
                dst[0] = a;
                written = 1;
                assert(dst@.subrange(0, 1) =~= seq![a]);
            },
            None => {
                assert(dst@.subrange(0, 0) =~= Seq::<u8>::empty());
            },
        }
        let mut pos: usize = 0;
        loop
            invariant
                self.wf(),
                pos <= src@.len(),
                written <= dst@.len(),
                dst@.len() == cap,
                cap == old(dst)@.len(),
                d0 == *old(self),
                self.same_variant(d0),
                last && decode8_spec(d0, src@, cap, last).0 is InputEmpty ==> is_empty_state(decode8_spec(d0, src@, cap, last).3),
                decode8_spec(d0, src@, cap, last) == run8(*self, src@, pos as int, dst@.subrange(0, written as int), cap, last),
            decreases src@.len() - pos,
        {
            if pos == src.len() {
                if last {
                    let bad = self.eof();
                    if bad > 0 {
                        return (DecoderResult::Malformed(bad, 0), pos, written);
                    }
                }
                return (DecoderResult::InputEmpty, pos, written);
            }
            let b = src[pos];
            if b <= 0x7F && self.takes_ascii_runs() {
                // Copy the whole ASCII run at once.
                let ghost before = dst@.subrange(0, written as int);
                let n = copy_ascii_to_utf8(src, pos, dst, written);
                proof {
                    lemma_run8_ascii(*self, src@, pos as int, before, cap, last, n as int);
                }
                if n > 0 {
                    let dst_len = dst.len();
                    assert(written + n <= dst_len);
                    pos = pos + n;
                    written = written + n;
                    continue;
                }
                assert(dst@.subrange(0, written as int) =~= before);
            }
            let room: usize = self.room8_exec(b);
            if dst.len() - written < room {
                return (DecoderResult::OutputFull, pos, written);
            }
            let ghost before = dst@.subrange(0, written as int);
            let step = self.step(b);
            match step {
                DecodeStep::Pending => {},
                DecodeStep::Emit(c) => {
                    written = written + write_utf8(dst, written, c);
                },
                DecodeStep::EmitPair(c1, c2) => {
                    written = written + write_utf8(dst, written, c1);
                    written = written + write_utf8(dst, written, c2);
                    assert(dst@.subrange(0, written as int) =~= before + step_units8(step));
                },
                DecodeStep::Malformed(bad, extra, consumed) => {
                    return (DecoderResult::Malformed(bad, extra), if consumed { pos + 1 } else { pos }, written);
                },
            }
            pos = pos + 1;
        }
    }

    /// The bound of `max_utf16_buffer_length`.
    pub open spec fn max_utf16_spec(&self, n: int) -> int {
        match self {
            VariantDecoder::Big5(d) => n + d.eof_spec() + 1,
            VariantDecoder::EucJp(d) => n + d.eof_spec(),
            VariantDecoder::Gb18030(d) => d.extra_spec(n) + 1,
            VariantDecoder::Replacement(_) => 1,
        }
    }

    /// The bound of `max_utf8_buffer_length`.
    pub open spec fn max_utf8_spec(&self, n: int) -> int {
        match self {
            VariantDecoder::Big5(d) => 2 * (n + d.eof_spec()),
            VariantDecoder::EucJp(d) => (n + d.eof_spec()) + (n + d.eof_spec() + 1) / 2,
            VariantDecoder::Gb18030(d) => 3 * d.extra_spec(n) + 1,
            VariantDecoder::Replacement(_) => 1,
        }
    }

    /// The bound of `max_utf8_buffer_length_with_replacement`.
    pub open spec fn max_utf8_with_replacement_spec(&self, n: int) -> int {
        match self {
            VariantDecoder::Big5(d) => 3 * (n + d.eof_spec()) + 3,
            VariantDecoder::EucJp(d) => 3 * (n + d.eof_spec()),
            VariantDecoder::Gb18030(d) => 3 * d.extra_spec(n) + 1,
            VariantDecoder::Replacement(_) => 3,
        }
    }

    /// The UTF-16 buffer length that always suffices for `byte_length`
    /// more bytes of input.
    pub fn max_utf16_buffer_length(&self, byte_length: usize) -> (r: usize)
        requires
            byte_length <= usize::MAX / 8,
        ensures
            r == self.max_utf16_spec(byte_length as int),
    {
        match self {
            VariantDecoder::Big5(v) => v.max_utf16_buffer_length(byte_length),
            VariantDecoder::EucJp(v) => v.max_utf16_buffer_length(byte_length),
            VariantDecoder::Gb18030(v) => v.max_utf16_buffer_length(byte_length),
            VariantDecoder::Replacement(v) => v.max_utf16_buffer_length(byte_length),
        }
    }

    /// The UTF-8 buffer length that always suffices for `byte_length` more
    /// bytes of input, when malformed sequences write nothing.
    pub fn max_utf8_buffer_length(&self, byte_length: usize) -> (r: usize)
        requires
            byte_length <= usize::MAX / 8,
        ensures
            r == self.max_utf8_spec(byte_length as int),
    {
        match self {
            VariantDecoder::Big5(v) => v.max_utf8_buffer_length_without_replacement(byte_length),
            VariantDecoder::EucJp(v) => v.max_utf8_buffer_length(byte_length),
            VariantDecoder::Gb18030(v) => v.max_utf8_buffer_length_without_replacement(byte_length),
            VariantDecoder::Replacement(v) => v.max_utf8_buffer_length_without_replacement(byte_length),
        }
    }

    /// The UTF-8 buffer length that always suffices for `byte_length` more
    /// bytes of input, when each malformed sequence becomes U+FFFD.
    pub fn max_utf8_buffer_length_with_replacement(&self, byte_length: usize) -> (r: usize)
        requires
            byte_length <= usize::MAX / 8,
        ensures
            r == self.max_utf8_with_replacement_spec(byte_length as int),
    {
        match self {
            VariantDecoder::Big5(v) => v.max_utf8_buffer_length(byte_length),
            VariantDecoder::EucJp(v) => v.max_utf8_buffer_length_with_replacement(byte_length),
            VariantDecoder::Gb18030(v) => v.max_utf8_buffer_length(byte_length),
            VariantDecoder::Replacement(v) => v.max_utf8_buffer_length(byte_length),
        }
    }

    /// Whether the decoder copies ASCII runs as they are: in the ground
    /// state of every encoding but the replacement one.
    pub open spec fn takes_ascii_runs_spec(&self) -> bool {
        self.depth() == 0 && !(self is Replacement)
    }

    fn takes_ascii_runs(&self) -> (r: bool)
        requires
            self.wf(),
        ensures
            r == self.takes_ascii_runs_spec(),
    {
        match self {
            VariantDecoder::Replacement(_) => false,
            _ => self.depth_exec() == 0,
        }
    }

    fn depth_exec(&self) -> (r: usize)
        requires
            self.wf(),
        ensures
            r == self.depth(),
    {
        match self {
            VariantDecoder::Big5(d) => if d.lead != 0 { 1 } else { 0 },
            VariantDecoder::EucJp(d) => if d.lead != 0 { 1 } else { 0 },
            VariantDecoder::Gb18030(d) => match d.pending {
                Gb18030Pending::Empty => 0,
                Gb18030Pending::One(_) => 1,
                Gb18030Pending::Two(_, _) => 2,
                Gb18030Pending::Three(_, _, _) => 3,
            },
            VariantDecoder::Replacement(_) => 0,
        }
    }

    fn room16_exec(&self, b: u8) -> (r: usize)
        requires
            self.wf(),
        ensures
            r == self.room16(b),
    {
        match self {
            VariantDecoder::Replacement(_) => 0,
            VariantDecoder::EucJp(_) => 1,
            _ => if self.depth_exec() == 0 && b <= 0x7F { 1 } else { 2 },
        }
    }

    fn room8_exec(&self, b: u8) -> (r: usize)
        requires
            self.wf(),
        ensures
            r == self.room8(b),
    {
        match self {
            VariantDecoder::Replacement(_) => 0,
            VariantDecoder::EucJp(_) => if self.depth_exec() == 0 && b <= 0x7F { 1 } else { 3 },
            _ => if self.depth_exec() == 0 && b <= 0x7F { 1 } else { 4 },
        }
    }
}

#[derive(Clone, Copy)]
pub enum VariantEncoder {
    Big5(Big5Encoder),
    EucJp(EucJpEncoder),
    Gb18030(Gb18030Encoder),
}

impl VariantEncoder {
    /// What the encoder does with one scalar value.
    pub open spec fn encode_spec(&self, c: u32) -> EncodeStep {
        match self {
            VariantEncoder::Big5(_) => big5_encode_spec(c),
            VariantEncoder::EucJp(_) => euc_jp_encode_spec(c),
            VariantEncoder::Gb18030(e) => gb18030_encode_scalar_spec(e.extended, c),
        }
    }

    /// Bytes that must be free before a non-ASCII scalar is encoded.
    pub open spec fn max_bytes(&self) -> int {
        match self {
            VariantEncoder::Gb18030(e) => if e.extended { 4 } else { 2 },
            _ => 2,
        }
    }

    /// The freshly constructed decoder of the encoder's encoding.
    pub open spec fn fresh_decoder(&self) -> VariantDecoder {
        match self {
            VariantEncoder::Big5(_) => VariantDecoder::Big5(Big5Decoder { lead: 0 }),
            VariantEncoder::EucJp(_) => VariantDecoder::EucJp(EucJpDecoder { lead: 0, jis0212: false }),
            VariantEncoder::Gb18030(_) => VariantDecoder::Gb18030(
                Gb18030Decoder { pending: Gb18030Pending::Empty, pending_ascii: None },
            ),
        }
    }

    /// The scalars for which reading back is not claimed: U+FFFF, which the
    /// two-byte indexes use as their "no code point" value (in GB18030 it
    /// takes the four-byte form); the three code points that EUC-JP folds
    /// onto others; and the four-byte forms of BMP code points in GB18030,
    /// which rest on the ranges index.
    pub open spec fn round_trip_exempt(&self, c: u32, r: EncodeStep) -> bool {
        c == 0xFFFF || match self {
            VariantEncoder::Big5(_) => false,
            VariantEncoder::EucJp(_) => c == 0xA5 || c == 0x203E || c == 0x2212,
            VariantEncoder::Gb18030(_) => c < 0x10000 && r is Four,
        }
    }

    /// Encodes one scalar value. Whatever bytes it gives, a fresh decoder of
    /// the same encoding reads them, as a whole stream, as that scalar
    /// alone, but for the exempt scalars above.
    pub fn encode_scalar(&self, c: u32) -> (r: EncodeStep)
        requires
            c < 0x110000,
        ensures
            r == self.encode_spec(c),
            encode_step_bytes(r).len() <= if c <= 0x7F { 1 } else { self.max_bytes() },
            is_scalar(c) && !(r is Unmappable) && !self.round_trip_exempt(c, r) ==> reads_back(
                self.fresh_decoder(),
                encode_step_bytes(r),
                c,
            ),
    {
        match self {
            VariantEncoder::Big5(e) => e.encode_scalar(c),
            VariantEncoder::EucJp(e) => e.encode_scalar(c),
            VariantEncoder::Gb18030(e) => e.encode_scalar(c),
        }
    }
}

/// Outcome of an encoding call in spec form: the result, the input units
/// read, and the bytes written.
pub type EncodeOutcome = (EncoderResult, int, Seq<u8>);

/// Encodes UTF-16 `src` from `pos` on after the bytes `out`, in a buffer of
/// `cap` bytes.
pub open spec fn run_from_utf16(e: VariantEncoder, src: Seq<u16>, pos: int, out: Seq<u8>, cap: int) -> EncodeOutcome
    decreases src.len() - pos,
{
    if pos >= src.len() {
        (EncoderResult::InputEmpty, pos, out)
    } else {
        let (c, n) = utf16_scalar_at(src, pos);
        let step = e.encode_spec(c);
        if cap - out.len() < (if c <= 0x7F { 1 } else { e.max_bytes() }) {
            (EncoderResult::OutputFull, pos, out)
        } else if step is Unmappable {
            (EncoderResult::Unmappable(c), pos + n, out)
        } else if n <= 0 {
            (EncoderResult::InputEmpty, pos, out)
        } else {
            run_from_utf16(e, src, pos + n, out + encode_step_bytes(step), cap)
        }
    }
}

/// Encodes UTF-8 `src` from `pos` on after the bytes `out`, in a buffer of
/// `cap` bytes.
pub open spec fn run_from_utf8(e: VariantEncoder, src: Seq<u8>, pos: int, out: Seq<u8>, cap: int) -> EncodeOutcome
    decreases src.len() - pos,
{
    if pos >= src.len() {
        (EncoderResult::InputEmpty, pos, out)
    } else {
        let (c, n) = utf8_scalar_at(src, pos);
        let step = e.encode_spec(c);
        if cap - out.len() < (if c <= 0x7F { 1 } else { e.max_bytes() }) {
            (EncoderResult::OutputFull, pos, out)
        } else if step is Unmappable {
            (EncoderResult::Unmappable(c), pos + n, out)
        } else if n <= 0 {
            (EncoderResult::InputEmpty, pos, out)
        } else {
            run_from_utf8(e, src, pos + n, out + encode_step_bytes(step), cap)
        }
    }
}

/// Writes the bytes of an encoder step at `pos`.
fn write_step(dst: &mut [u8], pos: usize, step: EncodeStep) -> (n: usize)
    requires
        pos + encode_step_bytes(step).len() <= old(dst)@.len(),
    ensures
        n == encode_step_bytes(step).len(),
        final(dst)@.len() == old(dst)@.len(),
        final(dst)@.subrange(0, pos + n) == old(dst)@.subrange(0, pos as int) + encode_step_bytes(step),
{
    match step {
        EncodeStep::Unmappable => {
            assert(dst@.subrange(0, pos as int) =~= old(dst)@.subrange(0, pos as int) + encode_step_bytes(step));
            0
        },
        EncodeStep::One(a) => {
            dst[pos] = a;
            assert(dst@.subrange(0, pos + 1) =~= old(dst)@.subrange(0, pos as int) + encode_step_bytes(step));
            1
        },
        EncodeStep::Two(a, b) => {
            dst[pos] = a;
            dst[pos + 1] = b;
            assert(dst@.subrange(0, pos + 2) =~= old(dst)@.subrange(0, pos as int) + encode_step_bytes(step));
            2
        },
        EncodeStep::Four(a, b, c, d) => {
            dst[pos] = a;
            dst[pos + 1] = b;
            dst[pos + 2] = c;
            dst[pos + 3] = d;
            assert(dst@.subrange(0, pos + 4) =~= old(dst)@.subrange(0, pos as int) + encode_step_bytes(step));
            4
        },
    }
}

/// Room for the longest numeric character reference, `&#1114111;`, which
/// callers write in place of an unmappable scalar.
pub const NCR_EXTRA: usize = 10;

impl VariantEncoder {
    /// Encoders keep no state between calls.
    pub fn reset(&mut self)
        ensures
            *final(self) == *old(self),
    {
    }

    /// The buffer length that always suffices for `u16_length` UTF-16 units.
    pub fn max_buffer_length_from_utf16(&self, u16_length: usize) -> (r: usize)
        requires
            u16_length <= usize::MAX / 8,
        ensures
            r == u16_length * self.max_bytes(),
    {
        match self {
            VariantEncoder::Big5(v) => v.max_buffer_length_from_utf16_without_replacement(u16_length),
            VariantEncoder::EucJp(v) => v.max_buffer_length_from_utf16(u16_length),
            VariantEncoder::Gb18030(v) => v.max_buffer_length_from_utf16_without_replacement(u16_length),
        }
    }

    /// The buffer length that always suffices for `byte_length` bytes of
    /// UTF-8.
    pub fn max_buffer_length_from_utf8(&self, byte_length: usize) -> (r: usize)
        requires
            byte_length <= usize::MAX / 8,
        ensures
            r == byte_length * self.max_bytes() / 2,
    {
        match self {
            VariantEncoder::Big5(v) => v.max_buffer_length_from_utf8_without_replacement(byte_length),
            VariantEncoder::EucJp(v) => v.max_buffer_length_from_utf8(byte_length),
            VariantEncoder::Gb18030(v) => v.max_buffer_length_from_utf8_without_replacement(byte_length),
        }
    }

    /// As `max_buffer_length_from_utf16`, plus room for one numeric
    /// character reference.
    pub fn max_buffer_length_from_utf16_with_replacement_if_no_unmappables(&self, u16_length: usize) -> (r: usize)
        requires
            u16_length <= usize::MAX / 8,
        ensures
            r == u16_length * self.max_bytes() + NCR_EXTRA,
    {
        self.max_buffer_length_from_utf16(u16_length) + NCR_EXTRA
    }

    /// As `max_buffer_length_from_utf8`, plus room for one numeric
    /// character reference.
    pub fn max_buffer_length_from_utf8_with_replacement_if_no_unmappables(&self, byte_length: usize) -> (r: usize)
        requires
            byte_length <= usize::MAX / 8,
        ensures
            r == byte_length * self.max_bytes() / 2 + NCR_EXTRA,
    {
        self.max_buffer_length_from_utf8(byte_length) + NCR_EXTRA
    }

    fn max_bytes_exec(&self) -> (r: usize)
        ensures
            r == self.max_bytes(),
    {
        match self {
            VariantEncoder::Gb18030(e) => if e.extended { 4 } else { 2 },
            _ => 2,
        }
    }

    /// Encodes as much of the UTF-16 `src` into `dst` as the two allow,
    /// stopping after the first unmappable scalar. Returns the result, the
    /// units read and the bytes written.
    pub fn encode_from_utf16(&mut self, src: &[u16], dst: &mut [u8], last: bool) -> (r: (
        EncoderResult,
        usize,
        usize,
    ))
        ensures
            *final(self) == *old(self),
            r.1 <= src@.len(),
            r.2 <= old(dst)@.len(),
            final(dst)@.len() == old(dst)@.len(),
            ({
                let (res, read, out) = run_from_utf16(*old(self), src@, 0, seq![], old(dst)@.len() as int);
                &&& r.0 == res
                &&& r.1 == read
                &&& r.2 == out.len()
                &&& final(dst)@.subrange(0, r.2 as int) == out
            }),
    {
        let ghost cap = dst@.len() as int;
        let mut pos: usize = 0;
        let mut written: usize = 0;
        assert(dst@.subrange(0, 0) =~= Seq::<u8>::empty());
        loop
            invariant
                pos <= src@.len(),
                written <= dst@.len(),
                dst@.len() == cap,
                cap == old(dst)@.len(),
                *self == *old(self),
                run_from_utf16(*self, src@, 0, seq![], cap) == run_from_utf16(*self, src@, pos as int, dst@.subrange(0, written as int), cap),
            decreases src@.len() - pos,
        {
            if pos == src.len() {
                return (EncoderResult::InputEmpty, pos, written);
            }
            let (c, n) = read_utf16(src, pos);
            let room = if c <= 0x7F { 1 } else { self.max_bytes_exec() };
            if dst.len() - written < room {
                return (EncoderResult::OutputFull, pos, written);
            }
            let step = self.encode_scalar(c);
            if let EncodeStep::Unmappable = step {
                return (EncoderResult::Unmappable(c), pos + n, written);
            }
            written = written + write_step(dst, written, step);
            pos = pos + n;
        }
    }

    /// Encodes as much of `src` into `dst` as the two allow, stopping after
    /// the first unmappable scalar. Returns the result, the bytes read and
    /// the bytes written.
    pub fn encode_from_utf8(&mut self, src: &str, dst: &mut [u8], last: bool) -> (r: (
        EncoderResult,
        usize,
        usize,
    ))
        ensures
            *final(self) == *old(self),
            r.1 <= src.spec_bytes().len(),
            r.2 <= old(dst)@.len(),
            final(dst)@.len() == old(dst)@.len(),
            ({
                let (res, read, out) = run_from_utf8(*old(self), src.spec_bytes(), 0, seq![], old(dst)@.len() as int);
                &&& r.0 == res
                &&& r.1 == read
                &&& r.2 == out.len()
                &&& final(dst)@.subrange(0, r.2 as int) == out
            }),
    {
        let bytes = src.as_bytes();
        let ghost cap = dst@.len() as int;
        let mut pos: usize = 0;
        let mut written: usize = 0;
        assert(dst@.subrange(0, 0) =~= Seq::<u8>::empty());
        loop
            invariant
                pos <= bytes@.len(),
                bytes@ == src.spec_bytes(),
                written <= dst@.len(),
                dst@.len() == cap,
                cap == old(dst)@.len(),
                *self == *old(self),
                run_from_utf8(*self, bytes@, 0, seq![], cap) == run_from_utf8(*self, bytes@, pos as int, dst@.subrange(0, written as int), cap),
            decreases bytes@.len() - pos,
        {
            if pos == bytes.len() {
                return (EncoderResult::InputEmpty, pos, written);
            }
            let (c, n) = read_utf8(bytes, pos);
            let room = if c <= 0x7F { 1 } else { self.max_bytes_exec() };
            if dst.len() - written < room {
                return (EncoderResult::OutputFull, pos, written);
            }
            let step = self.encode_scalar(c);
            if let EncodeStep::Unmappable = step {
                return (EncoderResult::Unmappable(c), pos + n, written);
            }
            written = written + write_step(dst, written, step);
            pos = pos + n;
        }
    }
}

/// The encodings whose decoders and encoders this library holds.
#[derive(Clone, Copy, PartialEq, Eq, Structural)]
pub enum VariantEncoding {
    Gbk,
    Gb18030,
    Big5,
    EucJp,
    Replacement,
}

impl VariantEncoding {
    /// The freshly constructed decoder of the encoding.
    pub open spec fn fresh_decoder(&self) -> VariantDecoder {
        match self {
            VariantEncoding::Gbk | VariantEncoding::Gb18030 => VariantDecoder::Gb18030(
                Gb18030Decoder { pending: Gb18030Pending::Empty, pending_ascii: None },
            ),
            VariantEncoding::Big5 => VariantDecoder::Big5(Big5Decoder { lead: 0 }),
            VariantEncoding::EucJp => VariantDecoder::EucJp(EucJpDecoder { lead: 0, jis0212: false }),
            VariantEncoding::Replacement => VariantDecoder::Replacement(
                ReplacementDecoder { emitted: false },
            ),
        }
    }

    /// A fresh decoder for the encoding; GBK and GB18030 decode alike.
    pub fn new_decoder(&self) -> (r: VariantDecoder)
        ensures
            r == self.fresh_decoder(),
            r.wf(),
    {
        match self {
            VariantEncoding::Gbk | VariantEncoding::Gb18030 => Gb18030Decoder::new(),
            VariantEncoding::Big5 => Big5Decoder::new(),
            VariantEncoding::EucJp => EucJpDecoder::new(),
            VariantEncoding::Replacement => ReplacementDecoder::new(),
        }
    }

    /// A fresh encoder for the encoding. The replacement encoding encodes as
    /// UTF-8, which this library does not hold, so it has none here.
    pub fn new_encoder(&self) -> (r: Option<VariantEncoder>)
        ensures
            r == match self {
                VariantEncoding::Gbk => Some(VariantEncoder::Gb18030(Gb18030Encoder { extended: false })),
                VariantEncoding::Gb18030 => Some(VariantEncoder::Gb18030(Gb18030Encoder { extended: true })),
                VariantEncoding::Big5 => Some(VariantEncoder::Big5(Big5Encoder)),
                VariantEncoding::EucJp => Some(VariantEncoder::EucJp(EucJpEncoder)),
                VariantEncoding::Replacement => None::<VariantEncoder>,
            },
    {
        match self {
            VariantEncoding::Gbk => Some(Gb18030Encoder::new(false)),
            VariantEncoding::Gb18030 => Some(Gb18030Encoder::new(true)),
            VariantEncoding::Big5 => Some(Big5Encoder::new()),
            VariantEncoding::EucJp => Some(EucJpEncoder::new()),
            VariantEncoding::Replacement => None,
        }
    }
}

} // verus!
