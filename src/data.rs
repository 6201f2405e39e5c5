//! Access to the WHATWG index tables, which live in outside crates.
//!
//! Each table is named by an uninterpreted spec function; the wrappers below
//! state what the tables' own documentation gives: a pointer maps to one
//! code point (0xFFFF when it maps to none), and the backward lookup returns
//! a pointer whose code point is the one asked for.
use vstd::prelude::*;

verus! {

/// Code point of a pointer in the Big5 index (plane 2 included), or 0xFFFF.
pub uninterp spec fn big5_index(pointer: u16) -> u32;

/// Pointer that the Big5 index's backward lookup gives for a code point.
pub uninterp spec fn big5_pointer_of(c: u32) -> u16;

/// Code point of a pointer in the JIS X 0208 index, or 0xFFFF.
pub uninterp spec fn jis0208_index(pointer: u16) -> u32;

/// Pointer that the JIS X 0208 index's backward lookup gives for a code point.
pub uninterp spec fn jis0208_pointer_of(c: u32) -> u16;

/// Code point of a pointer in the JIS X 0212 index, or 0xFFFF.
pub uninterp spec fn jis0212_index(pointer: u16) -> u32;

/// Code point of a pointer in the two-byte GB18030 index, or 0xFFFF.
pub uninterp spec fn gb18030_index(pointer: u16) -> u32;

/// Pointer that the two-byte GB18030 index's backward lookup gives.
pub uninterp spec fn gb18030_pointer_of(c: u32) -> u16;

/// Code point of a four-byte pointer in the GB18030 ranges index.
pub uninterp spec fn gb18030_ranges_index(pointer: u32) -> u32;

/// Four-byte pointer that the GB18030 ranges index gives for a code point.
pub uninterp spec fn gb18030_ranges_pointer_of(c: u32) -> u32;

/// Sentinel of the 16-bit lookups: no code point, or no pointer.
pub const NO_MAPPING: u16 = 0xFFFF;

/// A looked-up value that stands for a Unicode scalar value.
pub open spec fn is_mapped(v: u32) -> bool {
    v != 0xFFFF && v < 0x110000 && !(0xD800 <= v && v <= 0xDFFF)
}

/// Relies on encoding_index_tradchinese::big5::forward: the index code point
/// for a pointer, 0xFFFF below pointer 942 and from pointer 19782 on.
#[verifier::external_body]
pub(crate) fn big5_forward(pointer: u16) -> (r: u32)
    ensures
        r == big5_index(pointer),
        pointer < 942 || pointer >= 19782 ==> r == 0xFFFF,
{
    encoding_index_tradchinese::big5::forward(pointer)
}

/// Relies on encoding_index_tradchinese::big5::backward: the index pointer
/// for a code point, whose forward lookup gives that code point back.
#[verifier::external_body]
pub(crate) fn big5_backward(c: u32) -> (r: u16)
    requires
        c < 0x110000,
    ensures
        r == big5_pointer_of(c),
        0x80 <= c && c != 0xFFFF && r != NO_MAPPING ==> big5_index(r) == c,
{
    encoding_index_tradchinese::big5::backward(c)
}

/// Relies on encoding_index_japanese::jis0208::forward: the index code point
/// for a pointer, read from a table of 16-bit entries.
#[verifier::external_body]
pub(crate) fn jis0208_forward(pointer: u16) -> (r: u32)
    ensures
        r == jis0208_index(pointer),
        r <= 0xFFFF,
{
    encoding_index_japanese::jis0208::forward(pointer)
}

/// Relies on encoding_index_japanese::jis0208::backward: the index pointer
/// for a code point, whose forward lookup gives that code point back.
#[verifier::external_body]
pub(crate) fn jis0208_backward(c: u32) -> (r: u16)
    requires
        c < 0x110000,
    ensures
        r == jis0208_pointer_of(c),
        0x80 <= c && c != 0xFFFF && r != NO_MAPPING ==> jis0208_index(r) == c,
{
    encoding_index_japanese::jis0208::backward(c)
}

/// Relies on encoding_index_japanese::jis0212::forward: the index code point
/// for a pointer, read from a table of 16-bit entries.
#[verifier::external_body]
pub(crate) fn jis0212_forward(pointer: u16) -> (r: u32)
    ensures
        r == jis0212_index(pointer),
        r <= 0xFFFF,
{
    encoding_index_japanese::jis0212::forward(pointer)
}

/// Relies on encoding_index_simpchinese::gb18030::forward: the index code
/// point for a two-byte pointer, read from a table of 16-bit entries.
#[verifier::external_body]
pub(crate) fn gb18030_forward(pointer: u16) -> (r: u32)
    ensures
        r == gb18030_index(pointer),
        r <= 0xFFFF,
{
    encoding_index_simpchinese::gb18030::forward(pointer)
}

/// Relies on encoding_index_simpchinese::gb18030::backward: the index pointer
/// for a code point, whose forward lookup gives that code point back.
#[verifier::external_body]
pub(crate) fn gb18030_backward(c: u32) -> (r: u16)
    requires
        c < 0x110000,
    ensures
        r == gb18030_pointer_of(c),
        0x80 <= c && c != 0xFFFF && r != NO_MAPPING ==> gb18030_index(r) == c,
{
    encoding_index_simpchinese::gb18030::backward(c)
}

/// Relies on encoding_index_simpchinese::gb18030_ranges::forward: the code
/// point for a four-byte pointer of the BMP ranges.
#[verifier::external_body]
pub(crate) fn gb18030_ranges_forward(pointer: u32) -> (r: u32)
    ensures
        r == gb18030_ranges_index(pointer),
{
    encoding_index_simpchinese::gb18030_ranges::forward(pointer)
}

/// Relies on encoding_index_simpchinese::gb18030_ranges::backward: the
/// four-byte pointer for a code point.
#[verifier::external_body]
pub(crate) fn gb18030_ranges_backward(c: u32) -> (r: u32)
    requires
        c < 0x110000,
    ensures
        r == gb18030_ranges_pointer_of(c),
{
    encoding_index_simpchinese::gb18030_ranges::backward(c)
}

} // verus!
