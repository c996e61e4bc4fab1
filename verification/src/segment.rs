//! Grapheme segmentation: the boundary to `unicode_segmentation`.
//!
//! The segmentation algorithm itself is not restated here. Its result has a
//! name, [`grapheme_clusters`], and the two wrappers below say of it only what
//! the segmenter's iterators show: the clusters are consecutive, non-empty
//! slices that cover the whole text.

use unicode_segmentation::UnicodeSegmentation;
use vstd::prelude::*;
use vstd::utf8::encode_utf8;

verus! {

/// The extended grapheme clusters of `text`, in order, as
/// `unicode_segmentation` computes them.
pub uninterp spec fn grapheme_clusters(text: Seq<char>) -> Seq<Seq<char>>;

/// `pieces` cuts `text` into consecutive non-empty pieces.
pub open spec fn is_partition(pieces: Seq<Seq<char>>, text: Seq<char>) -> bool {
    &&& pieces.flatten() == text
    &&& forall|i: int| 0 <= i < pieces.len() ==> (#[trigger] pieces[i]).len() > 0
}

/// Every character of `text` as a piece of its own.
pub open spec fn singletons(text: Seq<char>) -> Seq<Seq<char>> {
    Seq::new(text.len(), |i: int| seq![text[i]])
}

/// The grapheme clusters of `text`.
///
/// This is [`grapheme_clusters`] wherever that is a partition of `text`, which
/// is what [`graphemes`] finds of every text it is run on. Stating the
/// fallback makes `clusters(text)` a partition of `text` for every sequence,
/// so the laws of the row can be proved without running the segmenter.
pub open spec fn clusters(text: Seq<char>) -> Seq<Seq<char>> {
    if is_partition(grapheme_clusters(text), text) {
        grapheme_clusters(text)
    } else {
        singletons(text)
    }
}

/// The number of bytes that precede piece `i` when `pieces` are stored one
/// after another in UTF-8.
pub open spec fn byte_offset(pieces: Seq<Seq<char>>, i: int) -> nat {
    encode_utf8(pieces.take(i).flatten()).len()
}

/// The texts of the items of [`grapheme_indices`], without their offsets.
pub open spec fn item_texts(items: Seq<(usize, &str)>) -> Seq<Seq<char>> {
    Seq::new(items.len(), |i: int| items[i].1@)
}

/// Calls `UnicodeSegmentation::graphemes` with extended clusters.
///
/// Trusted: the slices that the iterator yields are the clusters named by
/// [`grapheme_clusters`]; each starts where the one before it ended, the first
/// at the start of `text` and the last ending at its end, and none is empty.
#[verifier::external_body]
pub(crate) fn graphemes<'a>(text: &'a str) -> (pieces: Vec<&'a str>)
    ensures
        pieces.deep_view() == grapheme_clusters(text@),
        is_partition(pieces.deep_view(), text@),
{
    text.graphemes(true).collect()
}

/// Calls `UnicodeSegmentation::grapheme_indices` with extended clusters.
///
/// Trusted: the iterator yields the same slices as [`graphemes`], each paired
/// with the byte offset at which it starts in `text`.
#[verifier::external_body]
pub(crate) fn grapheme_indices<'a>(text: &'a str) -> (items: Vec<(usize, &'a str)>)
    ensures
        item_texts(items@) == grapheme_clusters(text@),
        is_partition(item_texts(items@), text@),
        forall|i: int|
            0 <= i < items@.len() ==> (#[trigger] items@[i]).0 == byte_offset(
                item_texts(items@),
                i,
            ),
{
    text.grapheme_indices(true).collect()
}

/// Cutting a text into its single characters is a partition.
pub proof fn lemma_singletons_partition(text: Seq<char>)
    ensures
        is_partition(singletons(text), text),
    decreases text.len(),
{
    let pieces = singletons(text);
    if text.len() == 0 {
        assert(pieces.flatten() =~= text);
    } else {
        let rest = text.drop_first();
        lemma_singletons_partition(rest);
        assert(pieces.drop_first() =~= singletons(rest));
        assert(pieces.flatten() =~= text);
    }
}

/// The clusters of a text cut it into consecutive non-empty pieces.
pub proof fn lemma_clusters_partition(text: Seq<char>)
    ensures
        is_partition(clusters(text), text),
{
    if !is_partition(grapheme_clusters(text), text) {
        lemma_singletons_partition(text);
    }
}

/// Non-empty pieces are never more than the characters they hold, and they
/// hold no character only when there is no piece.
pub proof fn lemma_pieces_count(pieces: Seq<Seq<char>>)
    requires
        forall|i: int| 0 <= i < pieces.len() ==> (#[trigger] pieces[i]).len() > 0,
    ensures
        pieces.len() <= pieces.flatten().len(),
        pieces.len() == 0 <==> pieces.flatten().len() == 0,
    decreases pieces.len(),
{
    if pieces.len() > 0 {
        let rest = pieces.drop_first();
        assert forall|i: int| 0 <= i < rest.len() implies (#[trigger] rest[i]).len() > 0 by {
            assert(rest[i] == pieces[i + 1]);
        }
        lemma_pieces_count(rest);
        assert(pieces[0].len() > 0);
    }
}

/// Flattening the pieces before `k` and those from `k` on, one after the
/// other, is flattening them all.
pub proof fn lemma_flatten_take_skip(pieces: Seq<Seq<char>>, k: int)
    requires
        0 <= k <= pieces.len(),
    ensures
        pieces.take(k).flatten() + pieces.skip(k).flatten() == pieces.flatten(),
{
    assert(pieces.take(k) + pieces.skip(k) =~= pieces);
    vstd::seq_lib::lemma_flatten_concat(pieces.take(k), pieces.skip(k));
}

/// One more piece at the end adds its characters at the end.
pub proof fn lemma_flatten_push(pieces: Seq<Seq<char>>, piece: Seq<char>)
    ensures
        pieces.push(piece).flatten() == pieces.flatten() + piece,
{
    seq![piece].lemma_flatten_one_element();
    vstd::seq_lib::lemma_flatten_concat(pieces, seq![piece]);
    assert(pieces.push(piece) =~= pieces + seq![piece]);
}

/// UTF-8 encodes a concatenation as the concatenation of the encodings.
pub proof fn lemma_encode_concat(a: Seq<char>, b: Seq<char>)
    ensures
        encode_utf8(a + b) == encode_utf8(a) + encode_utf8(b),
    decreases a.len(),
{
    if a.len() == 0 {
        assert(a + b =~= b);
        assert(encode_utf8(a) + encode_utf8(b) =~= encode_utf8(b));
    } else {
        lemma_encode_concat(a.drop_first(), b);
        assert((a + b).drop_first() =~= a.drop_first() + b);
        assert((a + b)[0] == a[0]);
        assert(encode_utf8(a + b) =~= encode_utf8(a) + encode_utf8(b));
    }
}

/// Of non-empty pieces stored one after another, a later one starts at a
/// greater byte offset.
pub proof fn lemma_byte_offset_increasing(pieces: Seq<Seq<char>>, i: int, j: int)
    requires
        forall|k: int| 0 <= k < pieces.len() ==> (#[trigger] pieces[k]).len() > 0,
        0 <= i < j <= pieces.len(),
    ensures
        byte_offset(pieces, i) < byte_offset(pieces, j),
{
    let head = pieces.take(i);
    let gap = pieces.subrange(i, j);
    assert(pieces.take(j) =~= head + gap);
    vstd::seq_lib::lemma_flatten_concat(head, gap);
    lemma_encode_concat(head.flatten(), gap.flatten());
    lemma_pieces_count(gap);
    lemma_encode_len(gap.flatten());
}

/// No text takes fewer bytes than it has characters.
pub proof fn lemma_encode_len(text: Seq<char>)
    ensures
        text.len() <= encode_utf8(text).len(),
    decreases text.len(),
{
    if text.len() > 0 {
        lemma_encode_len(text.drop_first());
    }
}

} // verus!
