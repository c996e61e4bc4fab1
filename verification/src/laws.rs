//! What holds of the row's operations taken together, proved of the model
//! that their contracts are stated in.

use crate::model::{displayed, least, RowView};
use crate::segment::{
    clusters, lemma_clusters_partition, lemma_flatten_take_skip, lemma_pieces_count,
};
use crate::SearchDirection;
use vstd::prelude::*;

verus! {

/// A row built from a text holds that text and counts its grapheme clusters.
pub proof fn lemma_built_row_is_counted(text: Seq<char>)
    ensures
        RowView::of(text).content == text,
        RowView::of(text).len == clusters(text).len(),
        RowView::of(text).counted(),
        RowView::of(text).wf(),
{
    lemma_clusters_partition(text);
    lemma_pieces_count(clusters(text));
}

/// The empty row counts its clusters: it has none.
pub proof fn lemma_empty_row_is_counted()
    ensures
        RowView::empty().counted(),
        RowView::empty().wf(),
{
    lemma_clusters_partition(Seq::<char>::empty());
    lemma_pieces_count(clusters(Seq::<char>::empty()));
}

/// Inserting a character and deleting at the same index gives the row back,
/// wherever the character comes to stand as a cluster of its own and leaves
/// the clusters around it as they were.
pub proof fn lemma_insert_then_delete(row: RowView, i: nat, c: char)
    requires
        row.counted(),
        i <= row.len,
        clusters(row.insert(i, c).content) == clusters(row.content).insert(i as int, seq![c]),
    ensures
        row.insert(i, c).delete(i) == row,
{
    let g = clusters(row.content);
    lemma_clusters_partition(row.content);
    assert(g.insert(i as int, seq![c]).remove(i as int) =~= g);
}

/// An insertion keeps the count exact wherever the character comes to stand as
/// a cluster of its own and leaves the clusters around it as they were.
pub proof fn lemma_insert_keeps_count(row: RowView, at: nat, c: char)
    requires
        row.counted(),
        clusters(row.insert(at, c).content) == clusters(row.content).insert(
            least(at, row.len) as int,
            seq![c],
        ),
    ensures
        row.insert(at, c).counted(),
{
}

/// A deletion keeps the count exact wherever the clusters that stay are still
/// the clusters of what is left.
pub proof fn lemma_delete_keeps_count(row: RowView, at: nat)
    requires
        row.counted(),
        at < row.len,
        clusters(row.delete(at).content) == clusters(row.content).remove(at as int),
    ensures
        row.delete(at).counted(),
{
}

/// Appending keeps the count exact wherever the clusters of the two texts are
/// the clusters of the joined text.
pub proof fn lemma_append_keeps_count(row: RowView, other: RowView)
    requires
        row.counted(),
        other.counted(),
        clusters(row.content + other.content) == clusters(row.content) + clusters(other.content),
    ensures
        row.append(other).counted(),
{
}

/// Splitting keeps both counts exact wherever the clusters on either side of
/// the cut are still the clusters of that side's text.
pub proof fn lemma_split_keeps_count(row: RowView, k: nat)
    requires
        clusters(row.split_kept(k).content) == clusters(row.content).take(
            least(k, clusters(row.content).len()) as int,
        ),
        clusters(row.split_off(k).content) == clusters(row.content).skip(
            least(k, clusters(row.content).len()) as int,
        ),
    ensures
        row.split_kept(k).counted(),
        row.split_off(k).counted(),
{
}

/// Every operation gives a well-formed row from well-formed rows.
pub proof fn lemma_operations_keep_wf(row: RowView, other: RowView, at: nat, c: char)
    requires
        row.wf(),
        other.wf(),
    ensures
        row.insert(at, c).wf(),
        row.delete(at).wf(),
        row.append(other).wf(),
        row.split_kept(at).wf(),
        row.split_off(at).wf(),
{
    let g = clusters(row.content);
    lemma_clusters_partition(row.content);
    lemma_pieces_count(g);
    if at < g.len() {
        let stay = g.remove(at as int);
        assert forall|i: int| 0 <= i < stay.len() implies (#[trigger] stay[i]).len() > 0 by {
            if i < at {
                assert(stay[i] == g[i]);
            } else {
                assert(stay[i] == g[i + 1]);
            }
        }
        lemma_pieces_count(stay);
        let more = g.insert(at as int, seq![c]);
        assert forall|i: int| 0 <= i < more.len() implies (#[trigger] more[i]).len() > 0 by {
            if i < at {
                assert(more[i] == g[i]);
            } else if i > at {
                assert(more[i] == g[i - 1]);
            }
        }
        lemma_pieces_count(more);
    }
    let k = least(at, g.len()) as int;
    let kept = g.take(k);
    let off = g.skip(k);
    assert forall|i: int| 0 <= i < kept.len() implies (#[trigger] kept[i]).len() > 0 by {
        assert(kept[i] == g[i]);
    }
    assert forall|i: int| 0 <= i < off.len() implies (#[trigger] off[i]).len() > 0 by {
        assert(off[i] == g[i + k]);
    }
    lemma_pieces_count(kept);
    lemma_pieces_count(off);
}

/// Splitting a row and appending what was split off gives the row back.
pub proof fn lemma_split_then_append(row: RowView, k: nat)
    requires
        row.counted(),
    ensures
        row.split_kept(k).append(row.split_off(k)) == row,
{
    let g = clusters(row.content);
    lemma_clusters_partition(row.content);
    let cut = if k <= g.len() {
        k as int
    } else {
        g.len() as int
    };
    lemma_flatten_take_skip(g, cut);
}

/// Split at the count or past it, the row stays as it is and an empty row is
/// split off.
pub proof fn lemma_split_past_end(row: RowView, k: nat)
    requires
        row.counted(),
        k >= row.len,
    ensures
        row.split_kept(k) == row,
        row.split_off(k) == RowView::empty(),
{
    let g = clusters(row.content);
    lemma_clusters_partition(row.content);
    assert(g.take(g.len() as int) =~= g);
    assert(g.skip(g.len() as int).flatten() =~= Seq::<char>::empty());
}

/// Split at the start, the row is left empty and all of it is split off.
pub proof fn lemma_split_at_start(row: RowView)
    requires
        row.counted(),
    ensures
        row.split_kept(0) == RowView::empty(),
        row.split_off(0) == row,
{
    let g = clusters(row.content);
    lemma_clusters_partition(row.content);
    assert(g.take(0).flatten() =~= Seq::<char>::empty());
    assert(g.skip(0) =~= g);
}

/// No more clusters are displayed than lie between `start` and `end`.
pub proof fn lemma_render_window_bounded(row: RowView, start: nat, end: nat)
    ensures
        row.window(start, end).len() <= if start <= end {
            end - start
        } else {
            0
        },
{
}

/// Cutting `end` down to the number of bytes of the text, and `start` down to
/// that, changes nothing of what is displayed: a text has no more clusters
/// than bytes.
pub proof fn lemma_render_byte_clamp(row: RowView, start: nat, end: nat)
    ensures
        ({
            let end_within = least(end, vstd::utf8::encode_utf8(row.content).len());
            row.render(start, end) == row.render(least(start, end_within), end_within)
        }),
{
    lemma_clusters_partition(row.content);
    lemma_pieces_count(clusters(row.content));
    crate::segment::lemma_encode_len(row.content);
    let end_within = least(end, vstd::utf8::encode_utf8(row.content).len());
    assert(row.window(start, end) =~= row.window(least(start, end_within), end_within));
}

/// What is displayed is the clusters of the window one after another, each
/// tab among them as four spaces and every other cluster unchanged.
pub proof fn lemma_render_expands_tabs(row: RowView, start: nat, end: nat)
    ensures
        ({
            let window = row.window(start, end);
            let shown = Seq::new(
                window.len(),
                |i: int|
                    if window[i] == seq!['\t'] {
                        seq![' ', ' ', ' ', ' ']
                    } else {
                        window[i]
                    },
            );
            row.render(start, end) == shown.flatten()
        }),
{
    let window = row.window(start, end);
    let shown = Seq::new(
        window.len(),
        |i: int|
            if window[i] == seq!['\t'] {
                seq![' ', ' ', ' ', ' ']
            } else {
                window[i]
            },
    );
    assert(window.map_values(|piece: Seq<char>| displayed(piece)) =~= shown);
}

/// A character of a piece is a character of the flattened pieces.
proof fn lemma_piece_within_flatten(pieces: Seq<Seq<char>>, i: int, c: char)
    requires
        0 <= i < pieces.len(),
        pieces[i].contains(c),
    ensures
        pieces.flatten().contains(c),
    decreases pieces.len(),
{
    let rest = pieces.drop_first();
    if i == 0 {
        let j = choose|j: int| 0 <= j < pieces[0].len() && pieces[0][j] == c;
        assert(pieces.flatten()[j] == c);
    } else {
        assert(rest[i - 1] == pieces[i]);
        lemma_piece_within_flatten(rest, i - 1, c);
        let j = choose|j: int| 0 <= j < rest.flatten().len() && rest.flatten()[j] == c;
        assert(pieces.flatten()[pieces[0].len() + j] == c);
    }
}

/// Displayed from its start to its count, a row without a tab is its own
/// text.
pub proof fn lemma_render_whole_row(row: RowView)
    requires
        row.counted(),
        !row.content.contains('\t'),
    ensures
        row.render(0, row.len) == row.content,
{
    let g = clusters(row.content);
    lemma_clusters_partition(row.content);
    assert(row.window(0, row.len) =~= g);
    assert forall|i: int| 0 <= i < g.len() implies displayed(#[trigger] g[i]) == g[i] by {
        if g[i] == seq!['\t'] {
            assert(g[i][0] == '\t');
            lemma_piece_within_flatten(g, i, '\t');
        }
    }
    assert(g.map_values(|piece: Seq<char>| displayed(piece)) =~= g);
}

/// Past the count, nothing is found.
pub proof fn lemma_find_past_end(
    row: RowView,
    query: Seq<char>,
    at: nat,
    direction: SearchDirection,
)
    requires
        at > row.len,
    ensures
        row.find(query, at, direction) is None,
{
}

/// A forward search finds nothing before the index it starts from.
pub proof fn lemma_find_forward_from(row: RowView, query: Seq<char>, at: nat)
    ensures
        row.find(query, at, SearchDirection::Forward) matches Some(i) ==> at <= i,
{
}

/// Deleting at the count or past it changes nothing.
pub proof fn lemma_delete_past_end(row: RowView, at: nat)
    requires
        at >= row.len,
    ensures
        row.delete(at) == row,
{
}

} // verus!
