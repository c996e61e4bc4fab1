//! Small operations on strings that the row is built from.

use crate::segment::lemma_encode_len;
use vstd::prelude::*;
use vstd::utf8::encode_utf8;

verus! {

/// Calls `String::push`.
///
/// Trusted: `c` is added after the last character of `text`, and nothing else
/// of it changes.
#[verifier::external_body]
pub(crate) fn push_char(text: &mut String, c: char)
    ensures
        final(text)@ == old(text)@.push(c),
{
    text.push(c);
}

/// The number of bytes that `text` takes in UTF-8.
pub(crate) fn byte_len(text: &str) -> (n: usize)
    ensures
        n == encode_utf8(text@).len(),
{
    text.as_bytes().len()
}

/// Shows that the characters of `text` can be counted in a `usize`: `text` is
/// stored in at least one byte for each, and the number of its bytes is a
/// `usize`.
pub(crate) fn char_count_fits(text: &str)
    ensures
        text@.len() <= usize::MAX,
{
    let bytes = byte_len(text);
    proof {
        lemma_encode_len(text@);
        assert(text@.len() <= bytes);
    }
}

/// Whether `piece` is a tab and nothing else.
pub(crate) fn is_tab(piece: &str) -> (tab: bool)
    ensures
        tab == (piece@ == seq!['\t']),
{
    if piece.unicode_len() == 1 {
        let c = piece.get_char(0);
        assert(piece@ =~= seq![c]);
        c == '\t'
    } else {
        false
    }
}

} // verus!
