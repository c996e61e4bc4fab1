//! Substring search on bytes, and the way from a byte offset to a cluster index.

use crate::segment::{byte_offset, lemma_byte_offset_increasing};
use vstd::prelude::*;
use vstd::string::StringSliceAdditionalSpecFns;

verus! {

/// `needle` stands in `haystack` at index `i`.
pub open spec fn occurs_at(haystack: Seq<u8>, needle: Seq<u8>, i: int) -> bool {
    &&& 0 <= i
    &&& i + needle.len() <= haystack.len()
    &&& haystack.subrange(i, i + needle.len()) == needle
}

/// `i` is the least index at which `needle` stands in `haystack`.
pub open spec fn is_first_occurrence(haystack: Seq<u8>, needle: Seq<u8>, i: int) -> bool {
    &&& occurs_at(haystack, needle, i)
    &&& forall|j: int| 0 <= j < i ==> !occurs_at(haystack, needle, j)
}

/// `i` is the greatest index at which `needle` stands in `haystack`.
pub open spec fn is_last_occurrence(haystack: Seq<u8>, needle: Seq<u8>, i: int) -> bool {
    &&& occurs_at(haystack, needle, i)
    &&& forall|j: int| i < j ==> !occurs_at(haystack, needle, j)
}

/// The least index at which `needle` stands in `haystack`, if there is one.
pub open spec fn first_occurrence(haystack: Seq<u8>, needle: Seq<u8>) -> Option<int> {
    if exists|i: int| occurs_at(haystack, needle, i) {
        Some(choose|i: int| is_first_occurrence(haystack, needle, i))
    } else {
        None
    }
}

/// The greatest index at which `needle` stands in `haystack`, if there is one.
pub open spec fn last_occurrence(haystack: Seq<u8>, needle: Seq<u8>) -> Option<int> {
    if exists|i: int| occurs_at(haystack, needle, i) {
        Some(choose|i: int| is_last_occurrence(haystack, needle, i))
    } else {
        None
    }
}

/// The index of the piece that starts at byte `offset`, if a piece starts
/// there.
pub open spec fn piece_starting_at(pieces: Seq<Seq<char>>, offset: int) -> Option<int> {
    if exists|j: int| 0 <= j < pieces.len() && byte_offset(pieces, j) == offset {
        Some(choose|j: int| 0 <= j < pieces.len() && byte_offset(pieces, j) == offset)
    } else {
        None
    }
}

/// Calls `str::find` with a string pattern.
///
/// Trusted: the result is the byte index of the first place where `needle`
/// stands in `haystack`, and `None` exactly when it stands nowhere.
#[verifier::external_body]
pub(crate) fn find_first(haystack: &str, needle: &str) -> (found: Option<usize>)
    ensures
        match found {
            Some(i) => is_first_occurrence(haystack.spec_bytes(), needle.spec_bytes(), i as int),
            None => forall|j: int| !occurs_at(haystack.spec_bytes(), needle.spec_bytes(), j),
        },
{
    haystack.find(needle)
}

/// Calls `str::rfind` with a string pattern.
///
/// Trusted: the result is the byte index of the last place where `needle`
/// stands in `haystack`, and `None` exactly when it stands nowhere.
#[verifier::external_body]
pub(crate) fn find_last(haystack: &str, needle: &str) -> (found: Option<usize>)
    ensures
        match found {
            Some(i) => is_last_occurrence(haystack.spec_bytes(), needle.spec_bytes(), i as int),
            None => forall|j: int| !occurs_at(haystack.spec_bytes(), needle.spec_bytes(), j),
        },
{
    haystack.rfind(needle)
}

/// The first occurrence is the only index that is a first occurrence.
pub proof fn lemma_first_occurrence_unique(haystack: Seq<u8>, needle: Seq<u8>, i: int)
    requires
        is_first_occurrence(haystack, needle, i),
    ensures
        first_occurrence(haystack, needle) == Some(i),
{
    let c = choose|c: int| is_first_occurrence(haystack, needle, c);
    assert(is_first_occurrence(haystack, needle, c));
    assert(c == i) by {
        if c < i {
            assert(occurs_at(haystack, needle, c));
        } else if i < c {
            assert(occurs_at(haystack, needle, i));
        }
    }
}

/// The last occurrence is the only index that is a last occurrence.
pub proof fn lemma_last_occurrence_unique(haystack: Seq<u8>, needle: Seq<u8>, i: int)
    requires
        is_last_occurrence(haystack, needle, i),
    ensures
        last_occurrence(haystack, needle) == Some(i),
{
    let c = choose|c: int| is_last_occurrence(haystack, needle, c);
    assert(is_last_occurrence(haystack, needle, c));
    assert(c == i) by {
        if c < i {
            assert(occurs_at(haystack, needle, i));
        } else if i < c {
            assert(occurs_at(haystack, needle, c));
        }
    }
}

/// Among non-empty pieces, the piece that starts at a byte offset is the only
/// one that starts there.
pub proof fn lemma_piece_starting_at_unique(pieces: Seq<Seq<char>>, j: int, offset: int)
    requires
        forall|k: int| 0 <= k < pieces.len() ==> (#[trigger] pieces[k]).len() > 0,
        0 <= j < pieces.len(),
        byte_offset(pieces, j) == offset,
    ensures
        piece_starting_at(pieces, offset) == Some(j),
{
    let c = choose|c: int| 0 <= c < pieces.len() && byte_offset(pieces, c) == offset;
    if c < j {
        lemma_byte_offset_increasing(pieces, c, j);
    } else if j < c {
        lemma_byte_offset_increasing(pieces, j, c);
    }
}

} // verus!
