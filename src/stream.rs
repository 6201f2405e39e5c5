//! What a decoder makes of a whole byte stream, independent of how the
//! stream is cut into calls and buffers, and the laws that follow from it.
use vstd::prelude::*;
use crate::gb18030::{Gb18030Decoder, Gb18030Pending};
use crate::handles::{utf16_scalar_at, utf16_units, utf8_scalar_at, utf8_units};
use crate::results::{encode_step_bytes, DecodeStep, DecoderResult};
use crate::utf_8_core::{lemma_str_bytes_valid, utf8_sequence_len, utf8_valid_up_to};
use vstd::string::StringSliceAdditionalSpecFns;
use crate::variant::{
    decode16_spec, decode8_spec, run16, run8, run_from_utf16, run_from_utf8, step_units16,
    step_units8, VariantDecoder, VariantEncoder, VariantEncoding,
};

verus! {

/// One item of a decoder's output stream.
pub enum Event {
    Scalar(u32),
    Malformed(u8, u8),
}

/// The events of one step.
pub open spec fn step_events(s: DecodeStep) -> Seq<Event> {
    match s {
        DecodeStep::Pending => seq![],
        DecodeStep::Emit(c) => seq![Event::Scalar(c)],
        DecodeStep::EmitPair(a, b) => seq![Event::Scalar(a), Event::Scalar(b)],
        DecodeStep::Malformed(bad, extra, _) => seq![Event::Malformed(bad, extra)],
    }
}

/// Whether a step leaves its byte to be read again.
pub open spec fn step_rereads(s: DecodeStep) -> bool {
    s matches DecodeStep::Malformed(_, _, false)
}

/// A bound that every transition of `decode_all` lowers.
pub open spec fn stream_measure(d: VariantDecoder, len: nat) -> nat {
    len * 8 + d.depth() * 2 + if d.pending_ascii_spec() is Some { 1nat } else { 0 }
}

/// The events and the final state of decoding `input` from the state `d`,
/// as if the output buffer never ran out and each malformed sequence were
/// reported and decoding resumed.
pub open spec fn decode_all(d: VariantDecoder, input: Seq<u8>, last: bool) -> (Seq<Event>, VariantDecoder)
    decreases stream_measure(d, input.len()),
{
    if d.pending_ascii_spec() is Some {
        let a = d.pending_ascii_spec().unwrap();
        let (rest, fin) = decode_all(d.flushed(), input, last);
        (seq![Event::Scalar(a as u32)] + rest, fin)
    } else if input.len() == 0 {
        if last && d.eof_spec() > 0 {
            (seq![Event::Malformed(d.eof_spec(), 0)], d.after_eof())
        } else {
            (seq![], d)
        }
    } else {
        let (n, s) = d.step_spec(input[0]);
        let (rest, fin) = decode_all(n, if step_rereads(s) { input } else { input.drop_first() }, last);
        (step_events(s) + rest, fin)
    }
}

/// Decoding chunk after chunk, with only the last chunk marked last.
pub open spec fn decode_chunks(d: VariantDecoder, chunks: Seq<Seq<u8>>, last: bool) -> (Seq<Event>, VariantDecoder)
    decreases chunks.len(),
{
    if chunks.len() == 0 {
        decode_all(d, seq![], last)
    } else if chunks.len() == 1 {
        decode_all(d, chunks[0], last)
    } else {
        let (e1, d1) = decode_all(d, chunks[0], false);
        let (e2, d2) = decode_chunks(d1, chunks.drop_first(), last);
        (e1 + e2, d2)
    }
}

/// Splitting the input in two, with the first part not marked last, changes
/// neither the events nor the final state.
pub proof fn lemma_split_independence(d: VariantDecoder, a: Seq<u8>, b: Seq<u8>, last: bool)
    ensures
        ({
            let (e1, d1) = decode_all(d, a, false);
            let (e2, d2) = decode_all(d1, b, last);
            decode_all(d, a + b, last) == (e1 + e2, d2)
        }),
    decreases stream_measure(d, a.len()),
{
    let (e1, d1) = decode_all(d, a, false);
    let (e2, d2) = decode_all(d1, b, last);
    if d.pending_ascii_spec() is Some {
        let x = seq![Event::Scalar(d.pending_ascii_spec().unwrap() as u32)];
        lemma_split_independence(d.flushed(), a, b, last);
        let (f1, g1) = decode_all(d.flushed(), a, false);
        assert(x + (f1 + e2) =~= (x + f1) + e2);
    } else if a.len() == 0 {
        assert(a + b =~= b);
        assert(e1 + e2 =~= e2);
    } else {
        let (n, s) = d.step_spec(a[0]);
        assert((a + b)[0] == a[0]);
        if step_rereads(s) {
            lemma_split_independence(n, a, b, last);
            let (f1, g1) = decode_all(n, a, false);
            assert(step_events(s) + (f1 + e2) =~= (step_events(s) + f1) + e2);
        } else {
            assert((a + b).drop_first() =~= a.drop_first() + b);
            lemma_split_independence(n, a.drop_first(), b, last);
            let (f1, g1) = decode_all(n, a.drop_first(), false);
            assert(step_events(s) + (f1 + e2) =~= (step_events(s) + f1) + e2);
        }
    }
}

/// Chunk independence: feeding the chunks one after another, with only the
/// last one marked last, yields the events and final state of feeding
/// their concatenation at once.
pub proof fn lemma_chunk_independence(d: VariantDecoder, chunks: Seq<Seq<u8>>, last: bool)
    ensures
        decode_chunks(d, chunks, last) == decode_all(d, chunks.flatten(), last),
    decreases chunks.len(),
{
    if chunks.len() == 1 {
        assert(chunks.flatten() =~= chunks[0] + chunks.drop_first().flatten());
        assert(chunks.drop_first().flatten() =~= Seq::<u8>::empty());
        assert(chunks.flatten() =~= chunks[0]);
    } else if chunks.len() > 1 {
        let (e1, d1) = decode_all(d, chunks[0], false);
        lemma_chunk_independence(d1, chunks.drop_first(), last);
        lemma_split_independence(d, chunks[0], chunks.drop_first().flatten(), last);
    }
}

/// The bytes that a malformed verdict read as lookahead, which decoding
/// presents again: the second, or second and third, bytes of a failed
/// four-byte GB18030 sequence.
pub open spec fn lookahead_bytes(d: VariantDecoder) -> Seq<u8> {
    match d {
        VariantDecoder::Gb18030(g) => match g.pending {
            Gb18030Pending::Two(_, s) => seq![(s + 0x30) as u8],
            Gb18030Pending::Three(_, s, t) => seq![(s + 0x30) as u8, (t + 0x81) as u8],
            _ => seq![],
        },
        _ => seq![],
    }
}

/// After a malformed sequence, decoding continues exactly like a fresh
/// decoder given the lookahead bytes of that sequence once more, then the
/// rest of the input (from the byte itself when it was left unread). This
/// does not hold of the replacement decoder, which reports one error per
/// stream.
pub proof fn lemma_malformed_resume(d: VariantDecoder, b: u8, rest: Seq<u8>, last: bool)
    requires
        d.wf(),
        d.pending_ascii_spec() is None,
        d.step_spec(b).1 is Malformed,
        !(d is Replacement),
    ensures
        ({
            let (n, s) = d.step_spec(b);
            let resumed = if step_rereads(s) { seq![b] + rest } else { rest };
            &&& s matches DecodeStep::Malformed(_, extra, _) && extra as int == lookahead_bytes(d).len()
            &&& decode_all(n, resumed, last) == decode_all(d.fresh(), lookahead_bytes(d) + resumed, last)
        }),
{
    let (n, s) = d.step_spec(b);
    let resumed = if step_rereads(s) { seq![b] + rest } else { rest };
    match d {
        VariantDecoder::Gb18030(g) => {
            match g.pending {
                Gb18030Pending::Two(f, sec) => {
                    let la = lookahead_bytes(d);
                    assert((la + resumed)[0] == (sec + 0x30) as u8);
                    assert((la + resumed).drop_first() =~= resumed);
                    let (e, fin) = decode_all(d.fresh(), resumed, last);
                    assert(decode_all(d.fresh(), la + resumed, last) == (seq![Event::Scalar((sec + 0x30) as u8 as u32)] + e, fin));
                },
                Gb18030Pending::Three(f, sec, t) => {
                    let la = lookahead_bytes(d);
                    let one = VariantDecoder::Gb18030(Gb18030Decoder { pending: Gb18030Pending::One(t), pending_ascii: None });
                    assert((la + resumed)[0] == (sec + 0x30) as u8);
                    assert((la + resumed).drop_first() =~= seq![(t + 0x81) as u8] + resumed);
                    assert((seq![(t + 0x81) as u8] + resumed)[0] == (t + 0x81) as u8);
                    assert((seq![(t + 0x81) as u8] + resumed).drop_first() =~= resumed);
                    let (e, fin) = decode_all(one, resumed, last);
                    let fresh = d.fresh();
                    assert(decode_all(fresh, seq![(t + 0x81) as u8] + resumed, last) == (Seq::<Event>::empty() + e, fin));
                    assert(Seq::<Event>::empty() + e =~= e);
                    assert(decode_all(fresh, la + resumed, last) == (seq![Event::Scalar((sec + 0x30) as u8 as u32)] + e, fin));
                },
                _ => {
                    assert(lookahead_bytes(d) + resumed =~= resumed);
                },
            }
        },
        _ => {
            assert(lookahead_bytes(d) + resumed =~= resumed);
        },
    }
}

/// The UTF-16 form of the scalars among the events.
pub open spec fn events_units16(e: Seq<Event>) -> Seq<u16>
    decreases e.len(),
{
    if e.len() == 0 {
        seq![]
    } else {
        (match e[0] {
            Event::Scalar(c) => utf16_units(c),
            Event::Malformed(_, _) => seq![],
        }) + events_units16(e.drop_first())
    }
}

/// The UTF-8 form of the scalars among the events.
pub open spec fn events_units8(e: Seq<Event>) -> Seq<u8>
    decreases e.len(),
{
    if e.len() == 0 {
        seq![]
    } else {
        (match e[0] {
            Event::Scalar(c) => utf8_units(c),
            Event::Malformed(_, _) => seq![],
        }) + events_units8(e.drop_first())
    }
}

proof fn lemma_step_events_units(s: DecodeStep, rest: Seq<Event>)
    requires
        !(s is Malformed),
    ensures
        events_units16(step_events(s) + rest) == step_units16(s) + events_units16(rest),
        events_units8(step_events(s) + rest) == step_units8(s) + events_units8(rest),
{
    let e = step_events(s) + rest;
    match s {
        DecodeStep::Pending => {
            assert(step_events(s) =~= Seq::<Event>::empty());
            assert(e =~= rest);
            assert(events_units16(e) == events_units16(rest));
            assert(events_units8(e) == events_units8(rest));
            assert(step_units16(s) =~= Seq::<u16>::empty());
            assert(step_units8(s) =~= Seq::<u8>::empty());
            assert(step_units16(s) + events_units16(rest) =~= events_units16(rest));
            assert(step_units8(s) + events_units8(rest) =~= events_units8(rest));
            assert(events_units16(step_events(s) + rest) == step_units16(s) + events_units16(rest));
        },
        DecodeStep::Emit(c) => {
            assert(e[0] == Event::Scalar(c));
            assert(e.drop_first() =~= rest);
            assert(events_units16(e) == utf16_units(c) + events_units16(rest));
            assert(events_units8(e) == utf8_units(c) + events_units8(rest));
        },
        DecodeStep::EmitPair(a, b) => {
            let tail = seq![Event::Scalar(b)] + rest;
            assert(e[0] == Event::Scalar(a));
            assert(e.drop_first() =~= tail);
            assert(tail[0] == Event::Scalar(b));
            assert(tail.drop_first() =~= rest);
            assert(events_units16(tail) == utf16_units(b) + events_units16(rest));
            assert(events_units8(tail) == utf8_units(b) + events_units8(rest));
            assert(events_units16(e) == utf16_units(a) + events_units16(tail));
            assert(events_units8(e) == utf8_units(a) + events_units8(tail));
            assert(utf16_units(a) + (utf16_units(b) + events_units16(rest)) =~= (utf16_units(a) + utf16_units(b)) + events_units16(rest));
            assert(utf8_units(a) + (utf8_units(b) + events_units8(rest)) =~= (utf8_units(a) + utf8_units(b)) + events_units8(rest));
        },
        _ => {},
    }
}

/// A UTF-16 call that uses up its input writes exactly the UTF-16 form of
/// the events of decoding that input as a stream, and ends in the same
/// state; with `lemma_chunk_independence`, calls on chunks therefore write
/// what one call on the whole input writes.
pub proof fn lemma_run16_is_stream(d: VariantDecoder, src: Seq<u8>, pos: int, out: Seq<u16>, cap: int, last: bool)
    requires
        0 <= pos <= src.len(),
        d.pending_ascii_spec() is None,
    ensures
        run16(d, src, pos, out, cap, last).0 is InputEmpty ==> {
            let (e, fin) = decode_all(d, src.subrange(pos, src.len() as int), last);
            &&& run16(d, src, pos, out, cap, last).2 == out + events_units16(e)
            &&& run16(d, src, pos, out, cap, last).3 == fin
        },
    decreases src.len() - pos,
{
    let rest = src.subrange(pos, src.len() as int);
    if pos == src.len() {
        assert(out + events_units16(seq![]) =~= out);
    } else if cap - out.len() >= d.room16(src[pos]) {
        let (n, s) = d.step_spec(src[pos]);
        if !(s is Malformed) {
            assert(rest[0] == src[pos]);
            assert(rest.drop_first() =~= src.subrange(pos + 1, src.len() as int));
            lemma_run16_is_stream(n, src, pos + 1, out + step_units16(s), cap, last);
            let (e, fin) = decode_all(n, rest.drop_first(), last);
            lemma_step_events_units(s, e);
            assert(out + step_units16(s) + events_units16(e) =~= out + (step_units16(s) + events_units16(e)));
        }
    }
}

/// The UTF-8 counterpart of `lemma_run16_is_stream`.
pub proof fn lemma_run8_is_stream(d: VariantDecoder, src: Seq<u8>, pos: int, out: Seq<u8>, cap: int, last: bool)
    requires
        0 <= pos <= src.len(),
        d.pending_ascii_spec() is None,
    ensures
        run8(d, src, pos, out, cap, last).0 is InputEmpty ==> {
            let (e, fin) = decode_all(d, src.subrange(pos, src.len() as int), last);
            &&& run8(d, src, pos, out, cap, last).2 == out + events_units8(e)
            &&& run8(d, src, pos, out, cap, last).3 == fin
        },
    decreases src.len() - pos,
{
    let rest = src.subrange(pos, src.len() as int);
    if pos == src.len() {
        assert(out + events_units8(seq![]) =~= out);
    } else if cap - out.len() >= d.room8(src[pos]) {
        let (n, s) = d.step_spec(src[pos]);
        if !(s is Malformed) {
            assert(rest[0] == src[pos]);
            assert(rest.drop_first() =~= src.subrange(pos + 1, src.len() as int));
            lemma_run8_is_stream(n, src, pos + 1, out + step_units8(s), cap, last);
            let (e, fin) = decode_all(n, rest.drop_first(), last);
            lemma_step_events_units(s, e);
            assert(out + step_units8(s) + events_units8(e) =~= out + (step_units8(s) + events_units8(e)));
        }
    }
}

/// Reset: a reset decoder is a freshly constructed decoder of its encoding,
/// so the two decode every input alike, call by call and as a stream, and
/// resetting twice is resetting once.
pub proof fn lemma_reset_like_new(d: VariantDecoder, e: VariantEncoding, input: Seq<u8>, cap: int, last: bool)
    requires
        d.same_variant(e.fresh_decoder()),
    ensures
        d.fresh().fresh() == d.fresh(),
        decode_all(d.fresh(), input, last) == decode_all(e.fresh_decoder(), input, last),
        decode16_spec(d.fresh(), input, cap, last) == decode16_spec(e.fresh_decoder(), input, cap, last),
        decode8_spec(d.fresh(), input, cap, last) == decode8_spec(e.fresh_decoder(), input, cap, last),
{
}

/// Weight of an output byte in the potential that bounds UTF-8 output.
pub open spec fn utf8_out_weight(d: VariantDecoder) -> int {
    if d is EucJp { 2 } else { 1 }
}

/// Weight of an input byte, and of a pending byte, in that potential.
pub open spec fn utf8_byte_weight(d: VariantDecoder) -> int {
    match d {
        VariantDecoder::Big5(_) => 2,
        VariantDecoder::Replacement(_) => 1,
        _ => 3,
    }
}

/// A step that does not fail writes no more than the byte it reads and the
/// bytes it takes out of the pending state pay for.
proof fn lemma_step_growth(d: VariantDecoder, b: u8)
    requires
        d.wf(),
        !(d.step_spec(b).1 is Malformed),
    ensures
        ({
            let (n, s) = d.step_spec(b);
            &&& n.wf()
            &&& n.same_variant(d)
            &&& n.pending_ascii_spec() == d.pending_ascii_spec()
            &&& step_units16(s).len() + n.depth() <= 1 + d.depth()
            &&& utf8_out_weight(d) * step_units8(s).len() + utf8_byte_weight(d) * n.depth()
                <= utf8_byte_weight(d) * (1 + d.depth())
            &&& d is Replacement ==> step_units16(s).len() == 0 && step_units8(s).len() == 0
        }),
{
    let (n, s) = d.step_spec(b);
    match s {
        DecodeStep::Emit(c) => lemma_units_len(c),
        DecodeStep::EmitPair(a, c) => {
            lemma_units_len(a);
            lemma_units_len(c);
        },
        _ => {},
    }
    match d {
        VariantDecoder::Big5(x) => {
            if x.lead == 0 {
                assert(n.depth() <= 1);
            }
        },
        VariantDecoder::EucJp(x) => {},
        VariantDecoder::Gb18030(x) => {
            match x.pending {
                Gb18030Pending::Empty => {},
                Gb18030Pending::One(_) => {},
                Gb18030Pending::Two(_, _) => {},
                Gb18030Pending::Three(_, _, _) => {},
            }
        },
        VariantDecoder::Replacement(_) => {},
    }
}

/// How many units a scalar takes in each form.
proof fn lemma_units_len(c: u32)
    ensures
        utf16_units(c).len() == if c < 0x10000 { 1int } else { 2 },
        utf8_units(c).len() == if c < 0x80 { 1int } else if c < 0x800 { 2 } else if c < 0x10000 { 3 } else { 4 },
{
}

proof fn lemma_run16_len(d: VariantDecoder, src: Seq<u8>, pos: int, out: Seq<u16>, cap: int, last: bool, budget: int)
    requires
        d.wf(),
        0 <= pos <= src.len(),
        d.pending_ascii_spec() is None,
        out.len() + d.depth() <= pos + budget,
        d is Replacement ==> out.len() == 0,
    ensures
        run16(d, src, pos, out, cap, last).2.len() <= src.len() + budget,
        d is Replacement ==> run16(d, src, pos, out, cap, last).2.len() == 0,
        cap >= 0 && (d is Replacement || (src.len() > 0 ==> cap >= src.len() + budget + room16_slack(d)))
            ==> !(run16(d, src, pos, out, cap, last).0 is OutputFull),
    decreases src.len() - pos,
{
    if pos < src.len() && cap - out.len() >= d.room16(src[pos]) {
        let (n, s) = d.step_spec(src[pos]);
        if !(s is Malformed) {
            lemma_step_growth(d, src[pos]);
            lemma_run16_len(n, src, pos + 1, out + step_units16(s), cap, last, budget);
        }
    }
}

proof fn lemma_run8_len(d: VariantDecoder, src: Seq<u8>, pos: int, out: Seq<u8>, cap: int, last: bool, budget: int)
    requires
        d.wf(),
        0 <= pos <= src.len(),
        d.pending_ascii_spec() is None,
        utf8_out_weight(d) * out.len() + utf8_byte_weight(d) * d.depth() <= utf8_byte_weight(d) * (pos + budget),
        d is Replacement ==> out.len() == 0,
    ensures
        utf8_out_weight(d) * run8(d, src, pos, out, cap, last).2.len() <= utf8_byte_weight(d) * (src.len() + budget),
        d is Replacement ==> run8(d, src, pos, out, cap, last).2.len() == 0,
        cap >= 0 && (d is Replacement || (src.len() > 0 ==> utf8_out_weight(d) * cap >= utf8_byte_weight(d) * (src.len() + budget) + room8_slack(d)))
            ==> !(run8(d, src, pos, out, cap, last).0 is OutputFull),
    decreases src.len() - pos,
{
    let wo = utf8_out_weight(d);
    let wb = utf8_byte_weight(d);
    if pos < src.len() && cap >= 0 && wo * cap >= wb * (src.len() + budget) + room8_slack(d) && !(d is Replacement) {
        assert(wo * (cap - out.len()) >= wb * (1 + d.depth()) + room8_slack(d)) by (nonlinear_arith)
            requires
                wo * cap >= wb * (src.len() + budget) + room8_slack(d),
                wo * out.len() + wb * d.depth() <= wb * (pos + budget),
                pos < src.len(),
                wb >= 1,
        ;
        assert(cap - out.len() >= d.room8(src[pos])) by (nonlinear_arith)
            requires
                wo * (cap - out.len()) >= wb * (1 + d.depth()) + room8_slack(d),
                d.room8(src[pos]) <= 4,
                d is Big5 ==> wo == 1 && wb == 2 && room8_slack(d) == 2,
                d is EucJp ==> wo == 2 && wb == 3 && room8_slack(d) == 3 && d.room8(src[pos]) <= 3,
                d is Gb18030 ==> wo == 1 && wb == 3 && room8_slack(d) == 1,
                d is Big5 || d is EucJp || d is Gb18030,
                d.depth() >= 0,
        ;
    }
    assert(wb * (pos + budget) <= wb * (src.len() + budget) && wb * d.depth() >= 0) by (nonlinear_arith)
        requires
            wb >= 1,
            pos <= src.len(),
    ;
    if pos < src.len() && cap - out.len() >= d.room8(src[pos]) {
        let (n, s) = d.step_spec(src[pos]);
        if !(s is Malformed) {
            lemma_step_growth(d, src[pos]);
            assert(utf8_out_weight(n) == wo && utf8_byte_weight(n) == wb);
            let u = step_units8(s).len() as int;
            assert(wo * (out.len() + u) + wb * n.depth() <= wb * (pos + 1 + budget)) by (nonlinear_arith)
                requires
                    wo * out.len() + wb * d.depth() <= wb * (pos + budget),
                    wo * u + wb * n.depth() <= wb * (1 + d.depth()),
            ;
            lemma_run8_len(n, src, pos + 1, out + step_units8(s), cap, last, budget);
        }
    }
}

/// Free UTF-16 units, beyond one per input and pending byte, that keep a
/// call from running out of room.
pub open spec fn room16_slack(d: VariantDecoder) -> int {
    match d {
        VariantDecoder::Big5(_) | VariantDecoder::Gb18030(_) => 1,
        _ => 0,
    }
}

/// The same for UTF-8, weighted as in `utf8_byte_weight`.
pub open spec fn room8_slack(d: VariantDecoder) -> int {
    match d {
        VariantDecoder::Big5(_) => 2,
        VariantDecoder::EucJp(_) => 3,
        VariantDecoder::Gb18030(_) => 1,
        VariantDecoder::Replacement(_) => 0,
    }
}

/// A buffer of the advertised size never runs out: with at least
/// `max_utf16_buffer_length` units, or `max_utf8_buffer_length_with_replacement`
/// bytes, a call never reports `OutputFull`. For GB18030 and the
/// replacement decoder `max_utf8_buffer_length` suffices too; for Big5 and
/// EUC-JP it does not, since a lone lead byte asks for room for the longest
/// output before it is read.
pub proof fn lemma_decoder_room(d: VariantDecoder, src: Seq<u8>, cap: int, last: bool)
    requires
        d.wf(),
        cap >= 0,
    ensures
        cap >= d.max_utf16_spec(src.len() as int) ==> !(decode16_spec(d, src, cap, last).0 is OutputFull),
        cap >= d.max_utf8_with_replacement_spec(src.len() as int) ==> !(decode8_spec(d, src, cap, last).0 is OutputFull),
        (d is Gb18030 || d is Replacement) && cap >= d.max_utf8_spec(src.len() as int) ==> !(decode8_spec(d, src, cap, last).0 is OutputFull),
{
    let pa: int = if d.pending_ascii_spec() is Some { 1 } else { 0 };
    let budget = d.depth() + pa;
    let wo = utf8_out_weight(d);
    let wb = utf8_byte_weight(d);
    let n = src.len() as int;
    if n > 0 {
        match d {
            VariantDecoder::Big5(_) => {
                assert(cap >= d.max_utf8_with_replacement_spec(n) ==> cap >= 2 * (n + budget) + 2);
            },
            VariantDecoder::EucJp(_) => {
                assert(cap >= d.max_utf8_with_replacement_spec(n) ==> 2 * cap >= 3 * (n + budget) + 3);
            },
            VariantDecoder::Gb18030(_) => {
                assert(cap >= d.max_utf8_spec(n) ==> cap >= 3 * (n + budget) + 1);
                assert(cap >= d.max_utf8_with_replacement_spec(n) ==> cap >= 3 * (n + budget) + 1);
            },
            VariantDecoder::Replacement(_) => {},
        }
    }
    match d.pending_ascii_spec() {
        Some(a) => {
            if cap >= 1 {
                lemma_run16_len(d.flushed(), src, 0, seq![a as u16], cap, last, budget);
                lemma_run8_len(d.flushed(), src, 0, seq![a], cap, last, budget);
            }
        },
        None => {
            lemma_run16_len(d, src, 0, seq![], cap, last, budget);
            lemma_run8_len(d, src, 0, seq![], cap, last, budget);
        },
    }
}

/// Buffer-bound soundness of the decoders: whatever the input and however
/// large the buffer, a call writes no more units than
/// `max_utf16_buffer_length` and `max_utf8_buffer_length` give for the
/// input's length.
pub proof fn lemma_decoder_buffer_bounds(d: VariantDecoder, src: Seq<u8>, cap: int, last: bool)
    requires
        d.wf(),
    ensures
        decode16_spec(d, src, cap, last).2.len() <= d.max_utf16_spec(src.len() as int),
        decode8_spec(d, src, cap, last).2.len() <= d.max_utf8_spec(src.len() as int),
{
    let pa: int = if d.pending_ascii_spec() is Some { 1 } else { 0 };
    let budget = d.depth() + pa;
    match d.pending_ascii_spec() {
        Some(a) => {
            if cap >= 1 {
                lemma_run16_len(d.flushed(), src, 0, seq![a as u16], cap, last, budget);
                lemma_run8_len(d.flushed(), src, 0, seq![a], cap, last, budget);
            }
        },
        None => {
            lemma_run16_len(d, src, 0, seq![], cap, last, budget);
            lemma_run8_len(d, src, 0, seq![], cap, last, budget);
        },
    }
}

proof fn lemma_encode_from_utf16_len(e: VariantEncoder, src: Seq<u16>, pos: int, out: Seq<u8>, cap: int)
    requires
        0 <= pos <= src.len(),
        out.len() <= pos * e.max_bytes(),
    ensures
        run_from_utf16(e, src, pos, out, cap).2.len() <= src.len() * e.max_bytes(),
        cap >= src.len() * e.max_bytes() ==> !(run_from_utf16(e, src, pos, out, cap).0 is OutputFull),
    decreases src.len() - pos,
{
    lemma_encode_step_len(e, 0);
    assert(pos * e.max_bytes() <= src.len() * e.max_bytes()) by (nonlinear_arith)
        requires
            pos <= src.len(),
            e.max_bytes() >= 0,
    ;
    if pos < src.len() && cap >= src.len() * e.max_bytes() {
        assert(cap - out.len() >= e.max_bytes()) by (nonlinear_arith)
            requires
                cap >= src.len() * e.max_bytes(),
                out.len() <= pos * e.max_bytes(),
                pos < src.len(),
                e.max_bytes() >= 2,
        ;
    }
    if pos < src.len() {
        let (c, n) = utf16_scalar_at(src, pos);
        let step = e.encode_spec(c);
        if cap - out.len() >= (if c <= 0x7F { 1 } else { e.max_bytes() }) && !(step is Unmappable) {
            lemma_encode_step_len(e, c);
            assert((pos + n) * e.max_bytes() == pos * e.max_bytes() + n * e.max_bytes()) by (nonlinear_arith);
            assert(n * e.max_bytes() >= e.max_bytes()) by (nonlinear_arith)
                requires n >= 1, e.max_bytes() >= 2;
            lemma_encode_from_utf16_len(e, src, pos + n, out + encode_step_bytes(step), cap);
        }
    }
}

proof fn lemma_encode_step_len(e: VariantEncoder, c: u32)
    ensures
        encode_step_bytes(e.encode_spec(c)).len() <= e.max_bytes(),
        e.max_bytes() >= 2,
{
}

/// Buffer-bound soundness of the encoders from UTF-16: a call writes no
/// more bytes than `max_buffer_length_from_utf16` gives for the input's
/// length, and with that many bytes of room it never reports `OutputFull`.
pub proof fn lemma_encoder_utf16_buffer_bound(e: VariantEncoder, src: Seq<u16>, cap: int)
    ensures
        run_from_utf16(e, src, 0, seq![], cap).2.len() <= src.len() * e.max_bytes(),
        cap >= src.len() * e.max_bytes() ==> !(run_from_utf16(e, src, 0, seq![], cap).0 is OutputFull),
{
    lemma_encode_from_utf16_len(e, src, 0, seq![], cap);
}

/// Whether a decoder in state `d` reads `bytes`, as a whole stream, as the
/// single scalar `c`, and ends where it started.
pub open spec fn reads_back(d: VariantDecoder, bytes: Seq<u8>, c: u32) -> bool {
    decode_all(d, bytes, true) == (seq![Event::Scalar(c)], d)
}

/// A byte that goes into the pending state leaves the rest of the stream to
/// the new state.
pub proof fn lemma_decode_pending(d: VariantDecoder, a: u8, rest: Seq<u8>, last: bool)
    requires
        d.pending_ascii_spec() is None,
        d.step_spec(a).1 is Pending,
    ensures
        decode_all(d, seq![a] + rest, last) == decode_all(d.step_spec(a).0, rest, last),
{
    let input = seq![a] + rest;
    assert(input[0] == a);
    assert(input.drop_first() =~= rest);
    let (e, fin) = decode_all(d.step_spec(a).0, rest, last);
    assert(step_events(DecodeStep::Pending) + e =~= e);
}

/// A last byte that completes a scalar ends the stream with that scalar.
pub proof fn lemma_decode_last_byte(d: VariantDecoder, a: u8, c: u32)
    requires
        d.pending_ascii_spec() is None,
        d.step_spec(a).1 == DecodeStep::Emit(c),
        d.step_spec(a).0.pending_ascii_spec() is None,
        d.step_spec(a).0.eof_spec() == 0,
    ensures
        decode_all(d, seq![a], true) == (seq![Event::Scalar(c)], d.step_spec(a).0),
{
    let input = seq![a];
    let n = d.step_spec(a).0;
    assert(input[0] == a);
    assert(input.drop_first() =~= Seq::<u8>::empty());
    assert(decode_all(n, Seq::<u8>::empty(), true) == (Seq::<Event>::empty(), n));
    assert(step_events(DecodeStep::Emit(c)) + Seq::<Event>::empty() =~= seq![Event::Scalar(c)]);
}

/// Reading two bytes: the first pending, the second completing `c`.
pub proof fn lemma_reads_back_two(d: VariantDecoder, a: u8, b: u8, c: u32)
    requires
        d.pending_ascii_spec() is None,
        d.step_spec(a).1 is Pending,
        d.step_spec(a).0.pending_ascii_spec() is None,
        d.step_spec(a).0.step_spec(b) == (d, DecodeStep::Emit(c)),
        d.eof_spec() == 0,
    ensures
        reads_back(d, seq![a, b], c),
{
    assert(seq![a, b] =~= seq![a] + seq![b]);
    lemma_decode_pending(d, a, seq![b], true);
    lemma_decode_last_byte(d.step_spec(a).0, b, c);
}

/// Reading four bytes: three pending, the fourth completing `c`.
pub proof fn lemma_reads_back_four(d: VariantDecoder, a: u8, b: u8, x: u8, y: u8, c: u32)
    requires
        d.pending_ascii_spec() is None,
        d.step_spec(a).1 is Pending,
        d.step_spec(a).0.pending_ascii_spec() is None,
        d.step_spec(a).0.step_spec(b).1 is Pending,
        d.step_spec(a).0.step_spec(b).0.pending_ascii_spec() is None,
        d.step_spec(a).0.step_spec(b).0.step_spec(x).1 is Pending,
        d.step_spec(a).0.step_spec(b).0.step_spec(x).0.pending_ascii_spec() is None,
        d.step_spec(a).0.step_spec(b).0.step_spec(x).0.step_spec(y) == (d, DecodeStep::Emit(c)),
        d.eof_spec() == 0,
    ensures
        reads_back(d, seq![a, b, x, y], c),
{
    let d1 = d.step_spec(a).0;
    let d2 = d1.step_spec(b).0;
    let d3 = d2.step_spec(x).0;
    assert(seq![a, b, x, y] =~= seq![a] + seq![b, x, y]);
    assert(seq![b, x, y] =~= seq![b] + seq![x, y]);
    assert(seq![x, y] =~= seq![x] + seq![y]);
    lemma_decode_pending(d, a, seq![b, x, y], true);
    lemma_decode_pending(d1, b, seq![x, y], true);
    lemma_decode_pending(d2, x, seq![y], true);
    lemma_decode_last_byte(d3, y, c);
}

/// Reading one byte that is a scalar by itself.
pub proof fn lemma_reads_back_one(d: VariantDecoder, a: u8, c: u32)
    requires
        d.pending_ascii_spec() is None,
        d.step_spec(a) == (d, DecodeStep::Emit(c)),
        d.eof_spec() == 0,
    ensures
        reads_back(d, seq![a], c),
{
    lemma_decode_last_byte(d, a, c);
}

/// On valid UTF-8 the reader of the encoders takes whole sequences, and
/// every non-ASCII scalar takes at least two bytes.
proof fn lemma_valid_utf8_reads(src: Seq<u8>, pos: int)
    requires
        0 <= pos < src.len(),
        utf8_valid_up_to(src, pos) == src.len(),
    ensures
        utf8_scalar_at(src, pos).1 == utf8_sequence_len(src, pos),
        utf8_sequence_len(src, pos) >= 1,
        pos + utf8_sequence_len(src, pos) <= src.len(),
        utf8_scalar_at(src, pos).0 > 0x7F ==> utf8_scalar_at(src, pos).1 >= 2,
        utf8_valid_up_to(src, pos + utf8_sequence_len(src, pos)) == src.len(),
{
}

proof fn lemma_encode_from_utf8_len(e: VariantEncoder, src: Seq<u8>, pos: int, out: Seq<u8>, cap: int)
    requires
        0 <= pos <= src.len(),
        utf8_valid_up_to(src, pos) == src.len(),
        2 * out.len() <= pos * e.max_bytes(),
    ensures
        2 * run_from_utf8(e, src, pos, out, cap).2.len() <= src.len() * e.max_bytes(),
        2 * cap >= src.len() * e.max_bytes() ==> !(run_from_utf8(e, src, pos, out, cap).0 is OutputFull),
    decreases src.len() - pos,
{
    lemma_encode_step_len(e, 0);
    assert(pos * e.max_bytes() <= src.len() * e.max_bytes()) by (nonlinear_arith)
        requires
            pos <= src.len(),
            e.max_bytes() >= 0,
    ;
    if pos < src.len() {
        let (c, n) = utf8_scalar_at(src, pos);
        let step = e.encode_spec(c);
        lemma_valid_utf8_reads(src, pos);
        if 2 * cap >= src.len() * e.max_bytes() {
            assert(2 * (cap - out.len()) >= n * e.max_bytes()) by (nonlinear_arith)
                requires
                    2 * cap >= src.len() * e.max_bytes(),
                    2 * out.len() <= pos * e.max_bytes(),
                    pos + n <= src.len(),
                    e.max_bytes() >= 2,
            ;
            assert(cap - out.len() >= (if c <= 0x7F { 1 } else { e.max_bytes() })) by (nonlinear_arith)
                requires
                    2 * (cap - out.len()) >= n * e.max_bytes(),
                    n >= 1,
                    c > 0x7F ==> n >= 2,
                    e.max_bytes() >= 2,
            ;
        }
        if cap - out.len() >= (if c <= 0x7F { 1 } else { e.max_bytes() }) && !(step is Unmappable) {
            lemma_encode_step_len(e, c);
            let mb = e.max_bytes();
            let k = encode_step_bytes(step).len() as int;
            assert(2 * k <= n * mb) by (nonlinear_arith)
                requires
                    c <= 0x7F ==> k <= 1,
                    k <= mb,
                    mb >= 2,
                    n >= 1,
                    c > 0x7F ==> n >= 2,
            ;
            assert((pos + n) * mb == pos * mb + n * mb) by (nonlinear_arith);
            lemma_encode_from_utf8_len(e, src, pos + n, out + encode_step_bytes(step), cap);
        }
    }
}

/// Buffer-bound soundness of the encoders from UTF-8: on valid UTF-8 a
/// call writes no more bytes than `max_buffer_length_from_utf8` gives for
/// the input's length, and with that many bytes of room it never reports
/// `OutputFull`.
pub proof fn lemma_encoder_utf8_buffer_bound(e: VariantEncoder, src: Seq<u8>, cap: int)
    requires
        utf8_valid_up_to(src, 0) == src.len(),
    ensures
        run_from_utf8(e, src, 0, seq![], cap).2.len() <= src.len() * e.max_bytes() / 2,
        cap >= src.len() * e.max_bytes() / 2 ==> !(run_from_utf8(e, src, 0, seq![], cap).0 is OutputFull),
{
    lemma_encode_step_len(e, 0);
    assert(cap >= src.len() * e.max_bytes() / 2 ==> 2 * cap >= src.len() * e.max_bytes()) by (nonlinear_arith)
        requires
            e.max_bytes() == 2 || e.max_bytes() == 4,
    ;
    lemma_encode_from_utf8_len(e, src, 0, seq![], cap);
}

/// Whether the decoder holds nothing: no pending bytes, no pending ASCII.
pub open spec fn is_empty_state(d: VariantDecoder) -> bool {
    d.depth() == 0 && d.pending_ascii_spec() is None
}

proof fn lemma_run16_final_state(d: VariantDecoder, src: Seq<u8>, pos: int, out: Seq<u16>, cap: int, last: bool)
    requires
        d.wf(),
        d.pending_ascii_spec() is None,
        0 <= pos <= src.len(),
    ensures
        last && run16(d, src, pos, out, cap, last).0 is InputEmpty ==> is_empty_state(run16(d, src, pos, out, cap, last).3),
    decreases src.len() - pos,
{
    if pos < src.len() && cap - out.len() >= d.room16(src[pos]) {
        let (n, s) = d.step_spec(src[pos]);
        if !(s is Malformed) {
            lemma_step_growth(d, src[pos]);
            lemma_run16_final_state(n, src, pos + 1, out + step_units16(s), cap, last);
        }
    }
}

proof fn lemma_run8_final_state(d: VariantDecoder, src: Seq<u8>, pos: int, out: Seq<u8>, cap: int, last: bool)
    requires
        d.wf(),
        d.pending_ascii_spec() is None,
        0 <= pos <= src.len(),
    ensures
        last && run8(d, src, pos, out, cap, last).0 is InputEmpty ==> is_empty_state(run8(d, src, pos, out, cap, last).3),
    decreases src.len() - pos,
{
    if pos < src.len() && cap - out.len() >= d.room8(src[pos]) {
        let (n, s) = d.step_spec(src[pos]);
        if !(s is Malformed) {
            lemma_step_growth(d, src[pos]);
            lemma_run8_final_state(n, src, pos + 1, out + step_units8(s), cap, last);
        }
    }
}

/// A call marked last that uses up its input leaves the decoder empty.
pub proof fn lemma_last_call_empties(d: VariantDecoder, src: Seq<u8>, cap: int, last: bool)
    requires
        d.wf(),
    ensures
        last && decode16_spec(d, src, cap, last).0 is InputEmpty ==> is_empty_state(decode16_spec(d, src, cap, last).3),
        last && decode8_spec(d, src, cap, last).0 is InputEmpty ==> is_empty_state(decode8_spec(d, src, cap, last).3),
{
    match d.pending_ascii_spec() {
        Some(a) => {
            lemma_run16_final_state(d.flushed(), src, 0, seq![a as u16], cap, last);
            lemma_run8_final_state(d.flushed(), src, 0, seq![a], cap, last);
        },
        None => {
            lemma_run16_final_state(d, src, 0, seq![], cap, last);
            lemma_run8_final_state(d, src, 0, seq![], cap, last);
        },
    }
}

/// The pending bytes of a four-byte GB18030 sequence were read just before
/// `pos`, as far as `src` reaches back.
pub open spec fn pending_read_from(d: VariantDecoder, src: Seq<u8>, pos: int) -> bool {
    match d {
        VariantDecoder::Gb18030(g) => match g.pending {
            Gb18030Pending::Two(_, s) => pos >= 1 ==> src[pos - 1] == (s + 0x30) as u8,
            Gb18030Pending::Three(_, s, t) => {
                &&& pos >= 1 ==> src[pos - 1] == (t + 0x81) as u8
                &&& pos >= 2 ==> src[pos - 2] == (s + 0x30) as u8
            },
            _ => true,
        },
        _ => true,
    }
}

proof fn lemma_resume_at(d: VariantDecoder, src: Seq<u8>, pos: int, rest: Seq<u8>, last: bool)
    requires
        d.wf(),
        d.pending_ascii_spec() is None,
        !(d is Replacement),
        0 <= pos < src.len(),
        pending_read_from(d, src, pos),
        d.step_spec(src[pos]).1 is Malformed,
    ensures
        ({
            let (n, s) = d.step_spec(src[pos]);
            let r = if step_rereads(s) { pos } else { pos + 1 };
            s matches DecodeStep::Malformed(_, e, _) ==> (r >= e ==> decode_all(n, src.subrange(r, src.len() as int) + rest, last)
                == decode_all(d.fresh(), src.subrange(r - e, src.len() as int) + rest, last))
        }),
{
    let b = src[pos];
    let (n, s) = d.step_spec(b);
    let tail = src.subrange(pos + 1, src.len() as int) + rest;
    lemma_malformed_resume(d, b, tail, last);
    let la = lookahead_bytes(d);
    if let DecodeStep::Malformed(_, e, _) = s {
        if step_rereads(s) {
            assert(src.subrange(pos, src.len() as int) + rest =~= seq![b] + tail);
            if pos >= e {
                assert(src.subrange(pos - e, src.len() as int) + rest =~= la + (seq![b] + tail));
            }
        } else {
            assert(la.len() == 0);
            assert(src.subrange(pos + 1, src.len() as int) + rest =~= tail);
            assert(la + tail =~= tail);
        }
    }
}

proof fn lemma_run16_resume(d: VariantDecoder, src: Seq<u8>, pos: int, out: Seq<u16>, cap: int, last: bool, rest: Seq<u8>, last2: bool)
    requires
        d.wf(),
        d.pending_ascii_spec() is None,
        !(d is Replacement),
        0 <= pos <= src.len(),
        pending_read_from(d, src, pos),
    ensures
        ({
            let (res, r, _, n) = run16(d, src, pos, out, cap, last);
            res matches DecoderResult::Malformed(_, e) ==> (r >= e ==> decode_all(n, src.subrange(r, src.len() as int) + rest, last2)
                == decode_all(d.fresh(), src.subrange(r - e, src.len() as int) + rest, last2))
        }),
    decreases src.len() - pos,
{
    if pos < src.len() && cap - out.len() >= d.room16(src[pos]) {
        let (n, s) = d.step_spec(src[pos]);
        if s is Malformed {
            lemma_resume_at(d, src, pos, rest, last2);
        } else {
            lemma_step_growth(d, src[pos]);
            lemma_run16_resume(n, src, pos + 1, out + step_units16(s), cap, last, rest, last2);
        }
    } else if pos >= src.len() {
        assert(src.subrange(pos, src.len() as int) =~= Seq::<u8>::empty());
    }
}

proof fn lemma_run8_resume(d: VariantDecoder, src: Seq<u8>, pos: int, out: Seq<u8>, cap: int, last: bool, rest: Seq<u8>, last2: bool)
    requires
        d.wf(),
        d.pending_ascii_spec() is None,
        !(d is Replacement),
        0 <= pos <= src.len(),
        pending_read_from(d, src, pos),
    ensures
        ({
            let (res, r, _, n) = run8(d, src, pos, out, cap, last);
            res matches DecoderResult::Malformed(_, e) ==> (r >= e ==> decode_all(n, src.subrange(r, src.len() as int) + rest, last2)
                == decode_all(d.fresh(), src.subrange(r - e, src.len() as int) + rest, last2))
        }),
    decreases src.len() - pos,
{
    if pos < src.len() && cap - out.len() >= d.room8(src[pos]) {
        let (n, s) = d.step_spec(src[pos]);
        if s is Malformed {
            lemma_resume_at(d, src, pos, rest, last2);
        } else {
            lemma_step_growth(d, src[pos]);
            lemma_run8_resume(n, src, pos + 1, out + step_units8(s), cap, last, rest, last2);
        }
    } else if pos >= src.len() {
        assert(src.subrange(pos, src.len() as int) =~= Seq::<u8>::empty());
    }
}

/// Resuming after a malformed verdict of a call: when a call reports
/// `Malformed(bad, extra)` after reading `r >= extra` bytes, the decoder
/// continues on `src[r..]`, and whatever input follows, exactly as a fresh
/// decoder of its encoding does on `src[r - extra..]` and the same input.
/// This does not hold of the replacement decoder, which reports one error
/// per stream.
pub proof fn lemma_call_resume(d: VariantDecoder, src: Seq<u8>, cap: int, last: bool, rest: Seq<u8>, last2: bool)
    requires
        d.wf(),
        !(d is Replacement),
    ensures
        ({
            let (res, r, _, n) = decode16_spec(d, src, cap, last);
            res matches DecoderResult::Malformed(_, e) ==> (r >= e ==> decode_all(n, src.subrange(r, src.len() as int) + rest, last2)
                == decode_all(d.fresh(), src.subrange(r - e, src.len() as int) + rest, last2))
        }),
        ({
            let (res, r, _, n) = decode8_spec(d, src, cap, last);
            res matches DecoderResult::Malformed(_, e) ==> (r >= e ==> decode_all(n, src.subrange(r, src.len() as int) + rest, last2)
                == decode_all(d.fresh(), src.subrange(r - e, src.len() as int) + rest, last2))
        }),
{
    match d.pending_ascii_spec() {
        Some(a) => {
            lemma_run16_resume(d.flushed(), src, 0, seq![a as u16], cap, last, rest, last2);
            lemma_run8_resume(d.flushed(), src, 0, seq![a], cap, last, rest, last2);
        },
        None => {
            lemma_run16_resume(d, src, 0, seq![], cap, last, rest, last2);
            lemma_run8_resume(d, src, 0, seq![], cap, last, rest, last2);
        },
    }
}

/// An output unit, or a malformed verdict, of a UTF-16 stream, in order.
pub enum Item16 {
    Unit(u16),
    Verdict(u8, u8),
}

/// Written units as stream items.
pub open spec fn unit_items16(o: Seq<u16>) -> Seq<Item16> {
    o.map_values(|u: u16| Item16::Unit(u))
}

/// The events of a stream as units and verdicts.
pub open spec fn items16(e: Seq<Event>) -> Seq<Item16>
    decreases e.len(),
{
    if e.len() == 0 {
        seq![]
    } else {
        (match e[0] {
            Event::Scalar(c) => unit_items16(utf16_units(c)),
            Event::Malformed(b, x) => seq![Item16::Verdict(b, x)],
        }) + items16(e.drop_first())
    }
}

proof fn lemma_items16_step(s: DecodeStep, rest: Seq<Event>)
    requires
        !(s is Malformed),
    ensures
        items16(step_events(s) + rest) == unit_items16(step_units16(s)) + items16(rest),
{
    let e = step_events(s) + rest;
    match s {
        DecodeStep::Pending => {
            assert(e =~= rest);
            assert(unit_items16(step_units16(s)) + items16(rest) =~= items16(rest));
        },
        DecodeStep::Emit(c) => {
            assert(e[0] == Event::Scalar(c));
            assert(e.drop_first() =~= rest);
        },
        DecodeStep::EmitPair(a, b) => {
            let tail = seq![Event::Scalar(b)] + rest;
            assert(e[0] == Event::Scalar(a));
            assert(e.drop_first() =~= tail);
            assert(tail[0] == Event::Scalar(b));
            assert(tail.drop_first() =~= rest);
            assert(items16(tail) == unit_items16(utf16_units(b)) + items16(rest));
            assert(unit_items16(utf16_units(a) + utf16_units(b)) =~= unit_items16(utf16_units(a)) + unit_items16(utf16_units(b)));
            assert(unit_items16(utf16_units(a)) + (unit_items16(utf16_units(b)) + items16(rest)) =~= (unit_items16(utf16_units(a)) + unit_items16(utf16_units(b))) + items16(rest));
        },
        _ => {},
    }
}

/// The verdict a call reports, as stream items.
pub open spec fn verdict_items16(res: DecoderResult) -> Seq<Item16> {
    match res {
        DecoderResult::Malformed(b, x) => seq![Item16::Verdict(b, x)],
        _ => seq![],
    }
}

proof fn lemma_run16_items(d: VariantDecoder, src: Seq<u8>, pos: int, out: Seq<u16>, cap: int, last: bool)
    requires
        d.wf(),
        d.pending_ascii_spec() is None,
        0 <= pos <= src.len(),
    ensures
        ({
            let (res, r, o, n) = run16(d, src, pos, out, cap, last);
            let (e, fin) = decode_all(d, src.subrange(pos, src.len() as int), last);
            let (e2, fin2) = decode_all(n, src.subrange(r, src.len() as int), last);
            !(res is OutputFull) ==> {
                &&& unit_items16(out) + items16(e) == unit_items16(o) + verdict_items16(res) + items16(e2)
                &&& fin == fin2
            }
        }),
    decreases src.len() - pos,
{
    let here = src.subrange(pos, src.len() as int);
    if pos >= src.len() {
        assert(here =~= Seq::<u8>::empty());
        if last && d.eof_spec() > 0 {
            let e = seq![Event::Malformed(d.eof_spec(), 0)];
            assert(e.drop_first() =~= Seq::<Event>::empty());
            assert(items16(e) =~= seq![Item16::Verdict(d.eof_spec(), 0)] + items16(Seq::<Event>::empty()));
            assert(d.after_eof().eof_spec() == 0);
            assert(unit_items16(out) + items16(e) =~= unit_items16(out) + verdict_items16(run16(d, src, pos, out, cap, last).0) + Seq::<Item16>::empty());
        } else {
            let e = decode_all(d, here, last).0;
            assert(unit_items16(out) + items16(e) =~= unit_items16(out) + verdict_items16(run16(d, src, pos, out, cap, last).0) + items16(e));
        }
    } else if cap - out.len() >= d.room16(src[pos]) {
        let (n, s) = d.step_spec(src[pos]);
        assert(here[0] == src[pos]);
        assert(here.drop_first() =~= src.subrange(pos + 1, src.len() as int));
        if s is Malformed {
            let e2 = decode_all(n, if step_rereads(s) { here } else { here.drop_first() }, last).0;
            assert(items16(step_events(s) + e2) =~= verdict_items16(run16(d, src, pos, out, cap, last).0) + items16(e2)) by {
                assert((step_events(s) + e2).drop_first() =~= e2);
            }
            assert(unit_items16(out) + (verdict_items16(run16(d, src, pos, out, cap, last).0) + items16(e2)) =~= unit_items16(out) + verdict_items16(run16(d, src, pos, out, cap, last).0) + items16(e2));
        } else {
            lemma_step_growth(d, src[pos]);
            lemma_run16_items(n, src, pos + 1, out + step_units16(s), cap, last);
            let e1 = decode_all(n, here.drop_first(), last).0;
            lemma_items16_step(s, e1);
            assert(unit_items16(out + step_units16(s)) =~= unit_items16(out) + unit_items16(step_units16(s)));
            assert(unit_items16(out) + (unit_items16(step_units16(s)) + items16(e1)) =~= (unit_items16(out) + unit_items16(step_units16(s))) + items16(e1));
        }
    }
}

/// An output unit, or a malformed verdict, of a UTF-8 stream, in order.
pub enum Item8 {
    Unit(u8),
    Verdict(u8, u8),
}

/// Written units as stream items.
pub open spec fn unit_items8(o: Seq<u8>) -> Seq<Item8> {
    o.map_values(|u: u8| Item8::Unit(u))
}

/// The events of a stream as units and verdicts.
pub open spec fn items8(e: Seq<Event>) -> Seq<Item8>
    decreases e.len(),
{
    if e.len() == 0 {
        seq![]
    } else {
        (match e[0] {
            Event::Scalar(c) => unit_items8(utf8_units(c)),
            Event::Malformed(b, x) => seq![Item8::Verdict(b, x)],
        }) + items8(e.drop_first())
    }
}

proof fn lemma_items8_step(s: DecodeStep, rest: Seq<Event>)
    requires
        !(s is Malformed),
    ensures
        items8(step_events(s) + rest) == unit_items8(step_units8(s)) + items8(rest),
{
    let e = step_events(s) + rest;
    match s {
        DecodeStep::Pending => {
            assert(e =~= rest);
            assert(unit_items8(step_units8(s)) + items8(rest) =~= items8(rest));
        },
        DecodeStep::Emit(c) => {
            assert(e[0] == Event::Scalar(c));
            assert(e.drop_first() =~= rest);
        },
        DecodeStep::EmitPair(a, b) => {
            let tail = seq![Event::Scalar(b)] + rest;
            assert(e[0] == Event::Scalar(a));
            assert(e.drop_first() =~= tail);
            assert(tail[0] == Event::Scalar(b));
            assert(tail.drop_first() =~= rest);
            assert(items8(tail) == unit_items8(utf8_units(b)) + items8(rest));
            assert(unit_items8(utf8_units(a) + utf8_units(b)) =~= unit_items8(utf8_units(a)) + unit_items8(utf8_units(b)));
            assert(unit_items8(utf8_units(a)) + (unit_items8(utf8_units(b)) + items8(rest)) =~= (unit_items8(utf8_units(a)) + unit_items8(utf8_units(b))) + items8(rest));
        },
        _ => {},
    }
}

/// The verdict a call reports, as stream items.
pub open spec fn verdict_items8(res: DecoderResult) -> Seq<Item8> {
    match res {
        DecoderResult::Malformed(b, x) => seq![Item8::Verdict(b, x)],
        _ => seq![],
    }
}

proof fn lemma_run8_items(d: VariantDecoder, src: Seq<u8>, pos: int, out: Seq<u8>, cap: int, last: bool)
    requires
        d.wf(),
        d.pending_ascii_spec() is None,
        0 <= pos <= src.len(),
    ensures
        ({
            let (res, r, o, n) = run8(d, src, pos, out, cap, last);
            let (e, fin) = decode_all(d, src.subrange(pos, src.len() as int), last);
            let (e2, fin2) = decode_all(n, src.subrange(r, src.len() as int), last);
            !(res is OutputFull) ==> {
                &&& unit_items8(out) + items8(e) == unit_items8(o) + verdict_items8(res) + items8(e2)
                &&& fin == fin2
            }
        }),
    decreases src.len() - pos,
{
    let here = src.subrange(pos, src.len() as int);
    if pos >= src.len() {
        assert(here =~= Seq::<u8>::empty());
        if last && d.eof_spec() > 0 {
            let e = seq![Event::Malformed(d.eof_spec(), 0)];
            assert(e.drop_first() =~= Seq::<Event>::empty());
            assert(items8(e) =~= seq![Item8::Verdict(d.eof_spec(), 0)] + items8(Seq::<Event>::empty()));
            assert(d.after_eof().eof_spec() == 0);
            assert(unit_items8(out) + items8(e) =~= unit_items8(out) + verdict_items8(run8(d, src, pos, out, cap, last).0) + Seq::<Item8>::empty());
        } else {
            let e = decode_all(d, here, last).0;
            assert(unit_items8(out) + items8(e) =~= unit_items8(out) + verdict_items8(run8(d, src, pos, out, cap, last).0) + items8(e));
        }
    } else if cap - out.len() >= d.room8(src[pos]) {
        let (n, s) = d.step_spec(src[pos]);
        assert(here[0] == src[pos]);
        assert(here.drop_first() =~= src.subrange(pos + 1, src.len() as int));
        if s is Malformed {
            let e2 = decode_all(n, if step_rereads(s) { here } else { here.drop_first() }, last).0;
            assert(items8(step_events(s) + e2) =~= verdict_items8(run8(d, src, pos, out, cap, last).0) + items8(e2)) by {
                assert((step_events(s) + e2).drop_first() =~= e2);
            }
            assert(unit_items8(out) + (verdict_items8(run8(d, src, pos, out, cap, last).0) + items8(e2)) =~= unit_items8(out) + verdict_items8(run8(d, src, pos, out, cap, last).0) + items8(e2));
        } else {
            lemma_step_growth(d, src[pos]);
            lemma_run8_items(n, src, pos + 1, out + step_units8(s), cap, last);
            let e1 = decode_all(n, here.drop_first(), last).0;
            lemma_items8_step(s, e1);
            assert(unit_items8(out + step_units8(s)) =~= unit_items8(out) + unit_items8(step_units8(s)));
            assert(unit_items8(out) + (unit_items8(step_units8(s)) + items8(e1)) =~= (unit_items8(out) + unit_items8(step_units8(s))) + items8(e1));
        }
    }
}

/// Calls and the stream agree: the units a call writes, then the verdict
/// it reports, then the stream of the rest of its input from the state it
/// leaves, are the stream of its whole input, and end in the same state.
/// With `lemma_chunk_independence`, a run of calls over chunks, resuming
/// after each verdict at the bytes read, writes the units and reports the
/// verdicts of one pass over the concatenated input.
pub proof fn lemma_call_is_stream(d: VariantDecoder, src: Seq<u8>, cap: int, last: bool)
    requires
        d.wf(),
    ensures
        ({
            let (res, r, o, n) = decode16_spec(d, src, cap, last);
            let (e, fin) = decode_all(d, src, last);
            let (e2, fin2) = decode_all(n, src.subrange(r, src.len() as int), last);
            !(res is OutputFull) ==> items16(e) == unit_items16(o) + verdict_items16(res) + items16(e2) && fin == fin2
        }),
        ({
            let (res, r, o, n) = decode8_spec(d, src, cap, last);
            let (e, fin) = decode_all(d, src, last);
            let (e2, fin2) = decode_all(n, src.subrange(r, src.len() as int), last);
            !(res is OutputFull) ==> items8(e) == unit_items8(o) + verdict_items8(res) + items8(e2) && fin == fin2
        }),
{
    assert(src.subrange(0, src.len() as int) =~= src);
    match d.pending_ascii_spec() {
        Some(a) => {
            lemma_run16_items(d.flushed(), src, 0, seq![a as u16], cap, last);
            lemma_run8_items(d.flushed(), src, 0, seq![a], cap, last);
            let e1 = decode_all(d.flushed(), src, last).0;
            let e = decode_all(d, src, last).0;
            assert(e =~= seq![Event::Scalar(a as u32)] + e1);
            assert(e[0] == Event::Scalar(a as u32));
            assert(e.drop_first() =~= e1);
            assert(utf16_units(a as u32) =~= seq![a as u16]);
            assert(utf8_units(a as u32) =~= seq![a]);
            assert(unit_items16(seq![a as u16]) =~= seq![Item16::Unit(a as u16)]);
            assert(unit_items8(seq![a]) =~= seq![Item8::Unit(a)]);
            assert(items16(e) == unit_items16(seq![a as u16]) + items16(e1));
            assert(items8(e) == unit_items8(seq![a]) + items8(e1));
        },
        None => {
            lemma_run16_items(d, src, 0, seq![], cap, last);
            lemma_run8_items(d, src, 0, seq![], cap, last);
            assert(unit_items16(Seq::<u16>::empty()) =~= Seq::<Item16>::empty());
            assert(unit_items8(Seq::<u8>::empty()) =~= Seq::<Item8>::empty());
            let e = decode_all(d, src, last).0;
            assert(Seq::<Item16>::empty() + items16(e) =~= items16(e));
            assert(Seq::<Item8>::empty() + items8(e) =~= items8(e));
        },
    }
}

/// The UTF-8 buffer bound of the encoders holds for every string slice,
/// whose bytes are always valid UTF-8.
pub proof fn lemma_encoder_str_buffer_bound(e: VariantEncoder, src: &str, cap: int)
    ensures
        run_from_utf8(e, src.spec_bytes(), 0, seq![], cap).2.len() <= src.spec_bytes().len() * e.max_bytes() / 2,
        cap >= src.spec_bytes().len() * e.max_bytes() / 2 ==> !(run_from_utf8(e, src.spec_bytes(), 0, seq![], cap).0 is OutputFull),
{
    lemma_str_bytes_valid(src);
    lemma_encoder_utf8_buffer_bound(e, src.spec_bytes(), cap);
}

/// The UTF-8 length of a stream in which each malformed verdict is written
/// as U+FFFD, three bytes.
pub open spec fn replaced_len8(e: Seq<Event>) -> int
    decreases e.len(),
{
    if e.len() == 0 {
        0
    } else {
        (match e[0] {
            Event::Scalar(c) => utf8_units(c).len() as int,
            Event::Malformed(_, _) => 3,
        }) + replaced_len8(e.drop_first())
    }
}

/// One step, with verdicts costing three bytes, stays within three bytes
/// per byte read or taken out of the pending state.
proof fn lemma_step_replaced(d: VariantDecoder, b: u8)
    requires
        d.wf(),
        d.pending_ascii_spec() is None,
        !(d is Replacement),
    ensures
        ({
            let (n, s) = d.step_spec(b);
            let pa: int = if n.pending_ascii_spec() is Some { 1 } else { 0 };
            &&& n.wf()
            &&& !(s is Malformed) ==> step_units8(s).len() + 3 * n.depth() <= 3 + 3 * d.depth() && pa == 0
            &&& s matches DecodeStep::Malformed(_, _, true) ==> 3 + 3 * n.depth() + pa <= 3 + 3 * d.depth()
            &&& s matches DecodeStep::Malformed(_, _, false) ==> 3 + 3 * n.depth() + pa <= 3 * d.depth()
        }),
{
    let (n, s) = d.step_spec(b);
    match s {
        DecodeStep::Emit(c) => lemma_units_len(c),
        DecodeStep::EmitPair(a, c) => {
            lemma_units_len(a);
            lemma_units_len(c);
        },
        _ => {},
    }
    match d {
        VariantDecoder::Gb18030(x) => {
            match x.pending {
                Gb18030Pending::Empty => {},
                Gb18030Pending::One(_) => {},
                Gb18030Pending::Two(_, _) => {},
                Gb18030Pending::Three(_, _, _) => {},
            }
        },
        _ => {},
    }
}

proof fn lemma_replaced_events(e1: Seq<Event>, e2: Seq<Event>)
    ensures
        replaced_len8(e1 + e2) == replaced_len8(e1) + replaced_len8(e2),
    decreases e1.len(),
{
    if e1.len() == 0 {
        assert(e1 + e2 =~= e2);
    } else {
        assert((e1 + e2).drop_first() =~= e1.drop_first() + e2);
        assert((e1 + e2)[0] == e1[0]);
        lemma_replaced_events(e1.drop_first(), e2);
    }
}

proof fn lemma_replaced_step(s: DecodeStep)
    ensures
        !(s is Malformed) ==> replaced_len8(step_events(s)) == step_units8(s).len(),
        s is Malformed ==> replaced_len8(step_events(s)) == 3,
{
    let e = step_events(s);
    let empty = Seq::<Event>::empty();
    assert(replaced_len8(empty) == 0);
    match s {
        DecodeStep::Pending => {
            assert(e =~= empty);
        },
        DecodeStep::Emit(c) => {
            assert(e[0] == Event::Scalar(c));
            assert(e.drop_first() =~= empty);
            assert(replaced_len8(e) == utf8_units(c).len() + replaced_len8(empty));
        },
        DecodeStep::EmitPair(a, c) => {
            let tail = seq![Event::Scalar(c)];
            assert(e[0] == Event::Scalar(a));
            assert(e.drop_first() =~= tail);
            assert(tail[0] == Event::Scalar(c));
            assert(tail.drop_first() =~= empty);
            assert(replaced_len8(tail) == utf8_units(c).len() + replaced_len8(empty));
            assert(replaced_len8(e) == utf8_units(a).len() + replaced_len8(tail));
            assert((utf8_units(a) + utf8_units(c)).len() == utf8_units(a).len() + utf8_units(c).len());
        },
        DecodeStep::Malformed(b, x, _) => {
            assert(e[0] == Event::Malformed(b, x));
            assert(e.drop_first() =~= empty);
            assert(replaced_len8(e) == 3 + replaced_len8(empty));
        },
    }
}

proof fn lemma_replaced_bound(d: VariantDecoder, input: Seq<u8>, last: bool)
    requires
        d.wf(),
        !(d is Replacement),
    ensures
        replaced_len8(decode_all(d, input, last).0) <= 3 * input.len() + 3 * d.depth()
            + if d.pending_ascii_spec() is Some { 1int } else { 0 },
    decreases stream_measure(d, input.len()),
{
    if d.pending_ascii_spec() is Some {
        let a = d.pending_ascii_spec().unwrap();
        lemma_replaced_bound(d.flushed(), input, last);
        let rest = decode_all(d.flushed(), input, last).0;
        let head = seq![Event::Scalar(a as u32)];
        lemma_replaced_events(head, rest);
        assert(head[0] == Event::Scalar(a as u32));
        assert(head.drop_first() =~= Seq::<Event>::empty());
        assert(replaced_len8(Seq::<Event>::empty()) == 0);
        lemma_units_len(a as u32);
        assert(replaced_len8(head) == utf8_units(a as u32).len() + replaced_len8(Seq::<Event>::empty()));
    } else if input.len() == 0 {
        if last && d.eof_spec() > 0 {
            let e = seq![Event::Malformed(d.eof_spec(), 0)];
            assert(e[0] == Event::Malformed(d.eof_spec(), 0));
            assert(e.drop_first() =~= Seq::<Event>::empty());
            assert(replaced_len8(Seq::<Event>::empty()) == 0);
            assert(replaced_len8(e) == 3 + replaced_len8(Seq::<Event>::empty()));
            assert(d.depth() >= 1);
        } else {
            assert(replaced_len8(Seq::<Event>::empty()) == 0);
        }
    } else {
        let (n, s) = d.step_spec(input[0]);
        lemma_step_replaced(d, input[0]);
        lemma_replaced_step(s);
        let next = if step_rereads(s) { input } else { input.drop_first() };
        lemma_replaced_bound(n, next, last);
        lemma_replaced_events(step_events(s), decode_all(n, next, last).0);
    }
}

proof fn lemma_replacement_decoder_replaced(d: VariantDecoder, input: Seq<u8>, last: bool)
    requires
        d is Replacement,
    ensures
        replaced_len8(decode_all(d, input, last).0) <= if d->Replacement_0.emitted { 0int } else { 3 },
    decreases input.len(),
{
    if input.len() > 0 {
        let (n, s) = d.step_spec(input[0]);
        lemma_replacement_decoder_replaced(n, input.drop_first(), last);
        lemma_replaced_step(s);
        lemma_replaced_events(step_events(s), decode_all(n, input.drop_first(), last).0);
    }
}

/// Buffer-bound soundness with replacement: decoding a whole input, with
/// each malformed verdict written as U+FFFD, takes no more UTF-8 bytes than
/// `max_utf8_buffer_length_with_replacement` gives for its length.
pub proof fn lemma_replacement_buffer_bound(d: VariantDecoder, input: Seq<u8>, last: bool)
    requires
        d.wf(),
    ensures
        replaced_len8(decode_all(d, input, last).0) <= d.max_utf8_with_replacement_spec(input.len() as int),
{
    if d is Replacement {
        lemma_replacement_decoder_replaced(d, input, last);
    } else {
        lemma_replaced_bound(d, input, last);
    }
}

} // verus!
