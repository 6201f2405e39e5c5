//! Copying runs of ASCII between byte and UTF-16 buffers.
use vstd::prelude::*;

verus! {

/// Result of a (potentially partial) ASCII copy.
#[derive(Debug)]
pub enum AsciiResult<T> {
    /// Everything was ASCII and the source was not longer than the
    /// destination.
    InputEmpty,
    /// Everything was ASCII and the destination was shorter.
    OutputFull,
    /// Non-ASCII was encountered: the wrapped value is that code unit.
    NonAscii(T),
}

/// How many code units a copy between buffers of these lengths looks at.
pub open spec fn copy_length(src_len: int, dst_len: int) -> int {
    if dst_len < src_len { dst_len } else { src_len }
}

/// What a copy reports once it has copied `k` ASCII units: non-ASCII at `k`
/// if it stopped early, else which buffer ran out.
pub open spec fn ascii_copy_result<T>(src: Seq<T>, dst_len: int, k: int) -> AsciiResult<T> {
    if k < copy_length(src.len() as int, dst_len) {
        AsciiResult::NonAscii(src[k])
    } else if dst_len < src.len() {
        AsciiResult::OutputFull
    } else {
        AsciiResult::InputEmpty
    }
}

/// Copies the leading ASCII bytes of `src` into `dst`. Returns what stopped
/// the copy and the number of bytes copied.
pub fn ascii_to_ascii(src: &[u8], dst: &mut [u8]) -> (r: (AsciiResult<u8>, usize))
    ensures
        r.1 <= copy_length(src@.len() as int, old(dst)@.len() as int),
        forall|i: int| 0 <= i < r.1 ==> src@[i] <= 0x7F,
        r.1 < copy_length(src@.len() as int, old(dst)@.len() as int) ==> src@[r.1 as int] > 0x7F,
        r.0 == ascii_copy_result(src@, old(dst)@.len() as int, r.1 as int),
        final(dst)@.len() == old(dst)@.len(),
        final(dst)@.subrange(0, r.1 as int) == src@.subrange(0, r.1 as int),
        final(dst)@.subrange(r.1 as int, final(dst)@.len() as int) == old(dst)@.subrange(r.1 as int, old(dst)@.len() as int),
{
    let length = if dst.len() < src.len() { dst.len() } else { src.len() };
    let mut i: usize = 0;
    while i < length
        invariant
            length == copy_length(src@.len() as int, old(dst)@.len() as int),
            i <= length,
            dst@.len() == old(dst)@.len(),
            forall|j: int| 0 <= j < i ==> src@[j] <= 0x7F,
            forall|j: int| 0 <= j < i ==> dst@[j] == src@[j],
            forall|j: int| i <= j < dst@.len() ==> dst@[j] == old(dst)@[j],
        decreases length - i,
    {
        let unit = src[i];
        if unit > 0x7F {
            assert(dst@.subrange(0, i as int) =~= src@.subrange(0, i as int));
            assert(dst@.subrange(i as int, dst@.len() as int) =~= old(dst)@.subrange(i as int, old(dst)@.len() as int));
            return (AsciiResult::NonAscii(unit), i);
        }
        dst[i] = unit;
        i = i + 1;
    }
    assert(dst@.subrange(0, i as int) =~= src@.subrange(0, i as int));
    assert(dst@.subrange(i as int, dst@.len() as int) =~= old(dst)@.subrange(i as int, old(dst)@.len() as int));
    if dst.len() < src.len() {
        (AsciiResult::OutputFull, length)
    } else {
        (AsciiResult::InputEmpty, length)
    }
}

/// Copies the leading ASCII bytes of `src` into `dst` as UTF-16 units.
pub fn ascii_to_basic_latin(src: &[u8], dst: &mut [u16]) -> (r: (AsciiResult<u8>, usize))
    ensures
        r.1 <= copy_length(src@.len() as int, old(dst)@.len() as int),
        forall|i: int| 0 <= i < r.1 ==> src@[i] <= 0x7F,
        r.1 < copy_length(src@.len() as int, old(dst)@.len() as int) ==> src@[r.1 as int] > 0x7F,
        r.0 == ascii_copy_result(src@, old(dst)@.len() as int, r.1 as int),
        final(dst)@.len() == old(dst)@.len(),
        forall|i: int| 0 <= i < r.1 ==> final(dst)@[i] == src@[i] as u16,
        final(dst)@.subrange(r.1 as int, final(dst)@.len() as int) == old(dst)@.subrange(r.1 as int, old(dst)@.len() as int),
{
    let length = if dst.len() < src.len() { dst.len() } else { src.len() };
    let mut i: usize = 0;
    while i < length
        invariant
            length == copy_length(src@.len() as int, old(dst)@.len() as int),
            i <= length,
            dst@.len() == old(dst)@.len(),
            forall|j: int| 0 <= j < i ==> src@[j] <= 0x7F,
            forall|j: int| 0 <= j < i ==> dst@[j] == src@[j] as u16,
            forall|j: int| i <= j < dst@.len() ==> dst@[j] == old(dst)@[j],
        decreases length - i,
    {
        let unit = src[i];
        if unit > 0x7F {
            assert(dst@.subrange(i as int, dst@.len() as int) =~= old(dst)@.subrange(i as int, old(dst)@.len() as int));
            return (AsciiResult::NonAscii(unit), i);
        }
        dst[i] = unit as u16;
        i = i + 1;
    }
    assert(dst@.subrange(i as int, dst@.len() as int) =~= old(dst)@.subrange(i as int, old(dst)@.len() as int));
    if dst.len() < src.len() {
        (AsciiResult::OutputFull, length)
    } else {
        (AsciiResult::InputEmpty, length)
    }
}

/// Copies the leading Basic Latin units of `src` into `dst` as bytes.
pub fn basic_latin_to_ascii(src: &[u16], dst: &mut [u8]) -> (r: (AsciiResult<u16>, usize))
    ensures
        r.1 <= copy_length(src@.len() as int, old(dst)@.len() as int),
        forall|i: int| 0 <= i < r.1 ==> src@[i] <= 0x7F,
        r.1 < copy_length(src@.len() as int, old(dst)@.len() as int) ==> src@[r.1 as int] > 0x7F,
        r.0 == ascii_copy_result(src@, old(dst)@.len() as int, r.1 as int),
        final(dst)@.len() == old(dst)@.len(),
        forall|i: int| 0 <= i < r.1 ==> final(dst)@[i] as u16 == src@[i],
        final(dst)@.subrange(r.1 as int, final(dst)@.len() as int) == old(dst)@.subrange(r.1 as int, old(dst)@.len() as int),
{
    let length = if dst.len() < src.len() { dst.len() } else { src.len() };
    let mut i: usize = 0;
    while i < length
        invariant
            length == copy_length(src@.len() as int, old(dst)@.len() as int),
            i <= length,
            dst@.len() == old(dst)@.len(),
            forall|j: int| 0 <= j < i ==> src@[j] <= 0x7F,
            forall|j: int| 0 <= j < i ==> dst@[j] as u16 == src@[j],
            forall|j: int| i <= j < dst@.len() ==> dst@[j] == old(dst)@[j],
        decreases length - i,
    {
        let unit = src[i];
        if unit > 0x7F {
            assert(dst@.subrange(i as int, dst@.len() as int) =~= old(dst)@.subrange(i as int, old(dst)@.len() as int));
            return (AsciiResult::NonAscii(unit), i);
        }
        dst[i] = unit as u8;
        i = i + 1;
    }
    assert(dst@.subrange(i as int, dst@.len() as int) =~= old(dst)@.subrange(i as int, old(dst)@.len() as int));
    if dst.len() < src.len() {
        (AsciiResult::OutputFull, length)
    } else {
        (AsciiResult::InputEmpty, length)
    }
}

/// Finds the first non-ASCII byte: `None` when there is none, else the byte
/// and its index.
pub fn validate_ascii(slice: &[u8]) -> (r: Option<(u8, usize)>)
    ensures
        r is None ==> forall|i: int| 0 <= i < slice@.len() ==> slice@[i] <= 0x7F,
        r matches Some((b, k)) ==> {
            &&& k < slice@.len()
            &&& b == slice@[k as int]
            &&& b > 0x7F
            &&& forall|i: int| 0 <= i < k ==> slice@[i] <= 0x7F
        },
{
    let mut i: usize = 0;
    while i < slice.len()
        invariant
            i <= slice@.len(),
            forall|j: int| 0 <= j < i ==> slice@[j] <= 0x7F,
        decreases slice@.len() - i,
    {
        if slice[i] > 0x7F {
            return Some((slice[i], i));
        }
        i = i + 1;
    }
    None
}

/// The bytes `src[pos..pos + n]` as UTF-16 units.
pub open spec fn widen(src: Seq<u8>, pos: int, n: int) -> Seq<u16> {
    Seq::new(n as nat, |i: int| src[pos + i] as u16)
}

/// Copies the ASCII run that starts at `src[pos]` into `dst` from
/// `written` on, as UTF-16, until a non-ASCII byte or the end of either
/// buffer. Returns the number of units copied.
pub fn copy_ascii_to_utf16(src: &[u8], pos: usize, dst: &mut [u16], written: usize) -> (n: usize)
    requires
        pos <= src@.len(),
        written <= old(dst)@.len(),
    ensures
        n <= src@.len() - pos,
        n <= old(dst)@.len() - written,
        forall|i: int| pos <= i < pos + n ==> src@[i] <= 0x7F,
        pos + n < src@.len() && written + n < old(dst)@.len() ==> src@[pos + n] > 0x7F,
        final(dst)@.len() == old(dst)@.len(),
        final(dst)@.subrange(0, written + n) == old(dst)@.subrange(0, written as int) + widen(src@, pos as int, n as int),
{
    let mut n: usize = 0;
    while n < src.len() - pos && n < dst.len() - written && src[pos + n] <= 0x7F
        invariant
            pos <= src@.len(),
            written <= old(dst)@.len(),
            n <= src@.len() - pos,
            n <= old(dst)@.len() - written,
            dst@.len() == old(dst)@.len(),
            forall|i: int| pos <= i < pos + n ==> src@[i] <= 0x7F,
            dst@.subrange(0, written + n) == old(dst)@.subrange(0, written as int) + widen(src@, pos as int, n as int),
        decreases src@.len() - pos - n,
    {
        let ghost before = dst@;
        dst[written + n] = src[pos + n] as u16;
        assert(dst@.subrange(0, written + n + 1) =~= before.subrange(0, written + n) + seq![src@[pos + n] as u16]);
        assert(widen(src@, pos as int, n + 1) =~= widen(src@, pos as int, n as int) + seq![src@[pos + n] as u16]);
        assert(old(dst)@.subrange(0, written as int) + widen(src@, pos as int, n + 1) =~= (old(dst)@.subrange(0, written as int) + widen(src@, pos as int, n as int)) + seq![src@[pos + n] as u16]);
        n = n + 1;
    }
    n
}

/// Copies the ASCII run that starts at `src[pos]` into `dst` from
/// `written` on, until a non-ASCII byte or the end of either buffer.
/// Returns the number of bytes copied.
pub fn copy_ascii_to_utf8(src: &[u8], pos: usize, dst: &mut [u8], written: usize) -> (n: usize)
    requires
        pos <= src@.len(),
        written <= old(dst)@.len(),
    ensures
        n <= src@.len() - pos,
        n <= old(dst)@.len() - written,
        forall|i: int| pos <= i < pos + n ==> src@[i] <= 0x7F,
        pos + n < src@.len() && written + n < old(dst)@.len() ==> src@[pos + n] > 0x7F,
        final(dst)@.len() == old(dst)@.len(),
        final(dst)@.subrange(0, written + n) == old(dst)@.subrange(0, written as int) + src@.subrange(pos as int, pos + n),
{
    let mut n: usize = 0;
    while n < src.len() - pos && n < dst.len() - written && src[pos + n] <= 0x7F
        invariant
            pos <= src@.len(),
            written <= old(dst)@.len(),
            n <= src@.len() - pos,
            n <= old(dst)@.len() - written,
            dst@.len() == old(dst)@.len(),
            forall|i: int| pos <= i < pos + n ==> src@[i] <= 0x7F,
            dst@.subrange(0, written + n) == old(dst)@.subrange(0, written as int) + src@.subrange(pos as int, pos + n),
        decreases src@.len() - pos - n,
    {
        let ghost before = dst@;
        dst[written + n] = src[pos + n];
        assert(dst@.subrange(0, written + n + 1) =~= before.subrange(0, written + n) + seq![src@[pos + n]]);
        assert(src@.subrange(pos as int, pos + n + 1) =~= src@.subrange(pos as int, pos + n) + seq![src@[pos + n]]);
        assert(old(dst)@.subrange(0, written as int) + src@.subrange(pos as int, pos + n + 1) =~= (old(dst)@.subrange(0, written as int) + src@.subrange(pos as int, pos + n)) + seq![src@[pos + n]]);
        n = n + 1;
    }
    n
}

} // verus!
