//! The string logic of the built-in function `substr`, on integer indices.

use vstd::prelude::*;
use vstd::string::StringSliceAdditionalSpecFns;
use vstd::utf8::{encode_utf8, is_char_boundary};
use crate::loc::str_range;

verus! {

/// Why `substr(s, start, end)` refuses its indices.
#[derive(Debug, Clone, Copy, PartialEq, Eq, Structural)]
pub enum SubstrRefusal {
    /// An index is below zero.
    NegativeIndex,
    /// The start is not below the string's length in bytes.
    StartOutOfBounds,
    /// The end is past the string's length in bytes.
    EndOutOfBounds,
    /// The end comes before the start, or an index falls inside a character.
    NotSliceable,
}

/// Whether and why `substr` refuses to take bytes `start..end` of a string whose
/// bytes are `b`; the checks come in this order.
pub open spec fn substr_refusal(b: Seq<u8>, start: int, end: int) -> Option<SubstrRefusal> {
    if start < 0 || end < 0 {
        Some(SubstrRefusal::NegativeIndex)
    } else if start >= b.len() {
        Some(SubstrRefusal::StartOutOfBounds)
    } else if end > b.len() {
        Some(SubstrRefusal::EndOutOfBounds)
    } else if start > end || !is_char_boundary(b, start) || !is_char_boundary(b, end) {
        Some(SubstrRefusal::NotSliceable)
    } else {
        None
    }
}

/// Whether and why `substr` refuses the indices `start` and `end` into `s`; see
/// [`substr_refusal`].
pub fn substr_check(s: &str, start: i64, end: i64) -> (r: Option<SubstrRefusal>)
    ensures
        r == substr_refusal(s.spec_bytes(), start as int, end as int),
{
    let n = s.as_bytes().len();
    if start < 0 || end < 0 {
        return Some(SubstrRefusal::NegativeIndex);
    }
    if start as u64 >= n as u64 {
        return Some(SubstrRefusal::StartOutOfBounds);
    }
    if end as u64 > n as u64 {
        return Some(SubstrRefusal::EndOutOfBounds);
    }
    let a = start as usize;
    let b = end as usize;
    if a > b || !s.is_char_boundary(a) || !s.is_char_boundary(b) {
        return Some(SubstrRefusal::NotSliceable);
    }
    None
}

/// The bytes `start..end` of `s` as a new string, for indices that `substr` takes.
pub fn substr(s: &str, start: usize, end: usize) -> (r: String)
    requires
        substr_refusal(s.spec_bytes(), start as int, end as int) is None,
    ensures
        encode_utf8(r@) == s.spec_bytes().subrange(start as int, end as int),
{
    let part = str_range(s, start, end);
    let r = part.to_owned();
    r
}


/// `substr` takes every range of whole characters that starts inside the string:
/// indices with `0 <= start < len`, `start <= end <= len`, both on character
/// boundaries, are not refused; and each refusal names a condition that fails.
pub proof fn law_substr_indices(b: Seq<u8>, start: int, end: int)
    ensures
        (0 <= start < b.len() && start <= end <= b.len() && is_char_boundary(b, start) && is_char_boundary(b, end))
            ==> substr_refusal(b, start, end) is None,
        substr_refusal(b, start, end) == Some(SubstrRefusal::NegativeIndex) ==> start < 0 || end < 0,
        substr_refusal(b, start, end) == Some(SubstrRefusal::StartOutOfBounds) ==> start >= b.len(),
        substr_refusal(b, start, end) == Some(SubstrRefusal::EndOutOfBounds) ==> end > b.len(),
        substr_refusal(b, start, end) == Some(SubstrRefusal::NotSliceable) ==> start > end || !is_char_boundary(b, start)
            || !is_char_boundary(b, end),
{
}

} // verus!
