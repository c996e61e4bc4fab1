//! One line of text, edited and searched by grapheme index.

use crate::model::{displayed, least, RowView};
use crate::search::{
    find_first, find_last, lemma_first_occurrence_unique, lemma_last_occurrence_unique,
    lemma_piece_starting_at_unique,
};
use crate::segment::{
    byte_offset, clusters, grapheme_indices, graphemes, item_texts, lemma_clusters_partition,
    lemma_encode_len, lemma_flatten_push, lemma_flatten_take_skip, lemma_pieces_count,
};
use crate::text::{byte_len, char_count_fits, is_tab, push_char};
use crate::SearchDirection;
use vstd::prelude::*;
use vstd::std_specs::convert::FromSpecImpl;
use vstd::string::StringSliceAdditionalSpecFns;

verus! {

/// One line of text with the cached number of its grapheme clusters.
pub struct Row {
    string: String,
    len: usize,
}

impl View for Row {
    type V = RowView;

    closed spec fn view(&self) -> RowView {
        RowView { content: self.string@, len: self.len as nat }
    }
}

impl Default for Row {
    /// The row that holds no text.
    fn default() -> (row: Row)
        ensures
            row@ == RowView::empty(),
            row@.wf(),
            row@.counted(),
    {
        proof {
            lemma_clusters_partition(Seq::<char>::empty());
            lemma_pieces_count(clusters(Seq::<char>::empty()));
        }
        Row { string: String::new(), len: 0 }
    }
}

impl FromSpecImpl<&str> for Row {
    open spec fn obeys_from_spec() -> bool {
        false
    }

    open spec fn from_spec(slice: &str) -> Row {
        arbitrary()
    }
}

impl From<&str> for Row {
    /// A row that holds a copy of `slice`, counted by its grapheme clusters.
    fn from(slice: &str) -> (row: Row)
        ensures
            row@ == RowView::of(slice@),
            row@.wf(),
            row@.counted(),
    {
        let pieces = graphemes(slice);
        proof {
            lemma_pieces_count(clusters(slice@));
        }
        Row { string: String::from_str(slice), len: pieces.len() }
    }
}

/// The text of the pieces with indices from `start` up to, and without, the
/// lesser of `end` and the number of pieces.
fn gather(pieces: &Vec<&str>, start: usize, end: usize) -> (text: String)
    ensures
        text@ == pieces.deep_view().subrange(
            least(start as nat, least(end as nat, pieces.len() as nat)) as int,
            least(end as nat, pieces.len() as nat) as int,
        ).flatten(),
{
    let ghost g = pieces.deep_view();
    let ghost hi = least(end as nat, pieces.len() as nat) as int;
    let ghost lo = least(start as nat, hi as nat) as int;
    let mut text = String::new();
    let mut index = start;
    proof {
        assert(g.subrange(lo, lo).flatten() =~= Seq::<char>::empty());
    }
    while index < end && index < pieces.len()
        invariant
            g == pieces.deep_view(),
            hi == least(end as nat, pieces.len() as nat),
            lo == least(start as nat, hi as nat),
            start <= index,
            index <= hi || index == start,
            text@ == g.subrange(lo, least(index as nat, hi as nat) as int).flatten(),
        decreases pieces.len() - index,
    {
        let piece = pieces[index];
        text.append(piece);
        proof {
            assert(piece@ == g[index as int]);
            lemma_flatten_push(g.subrange(lo, index as int), g[index as int]);
            assert(g.subrange(lo, index + 1) =~= g.subrange(lo, index as int).push(
                g[index as int],
            ));
        }
        index += 1;
    }
    text
}

impl Row {
    /// The cached number of grapheme clusters.
    pub fn len(&self) -> (n: usize)
        ensures
            n == self@.len,
    {
        self.len
    }

    /// Whether the cached count is zero, which for a well-formed row is
    /// whether it holds no text.
    pub fn is_empty(&self) -> (empty: bool)
        ensures
            empty == (self@.len == 0),
            self@.wf() ==> empty == (self@.content.len() == 0),
    {
        self.len == 0
    }

    /// Inserts `c` at cluster index `at`: at the end where `at` is the count
    /// or more, else in front of the cluster that has that index.
    pub fn insert(&mut self, at: usize, c: char)
        requires
            old(self)@.wf(),
        ensures
            final(self)@ == old(self)@.insert(at as nat, c),
            final(self)@.wf(),
    {
        if at >= self.len {
            push_char(&mut self.string, c);
            char_count_fits(self.string.as_str());
            self.len += 1;
            return ;
        }
        let ghost g = clusters(self.string@);
        let ghost target = g.insert(at as int, seq![c]);
        let pieces = graphemes(self.string.as_str());
        let mut result = String::new();
        let mut length: usize = 0;
        let mut index: usize = 0;
        proof {
            lemma_clusters_partition(self.string@);
            assert(g.take(0).flatten() =~= Seq::<char>::empty());
        }
        while index < pieces.len()
            invariant
                index <= pieces.len(),
                pieces.deep_view() == g,
                target == g.insert(at as int, seq![c]),
                forall|i: int| 0 <= i < g.len() ==> (#[trigger] g[i]).len() > 0,
                length <= result@.len(),
                index <= at ==> length == index && result@ == g.take(index as int).flatten(),
                index > at ==> length == index + 1 && result@ == target.take(
                    index + 1,
                ).flatten(),
            decreases pieces.len() - index,
        {
            if index == at {
                push_char(&mut result, c);
                char_count_fits(result.as_str());
                proof {
                    lemma_flatten_push(g.take(index as int), seq![c]);
                    assert(target.take(index + 1) =~= g.take(index as int).push(seq![c]));
                }
                length += 1;
            }
            let piece = pieces[index];
            result.append(piece);
            char_count_fits(result.as_str());
            proof {
                assert(piece@ == pieces.deep_view()[index as int]);
                assert(piece@.len() > 0);
                if index < at {
                    lemma_flatten_push(g.take(index as int), g[index as int]);
                    assert(g.take(index + 1) =~= g.take(index as int).push(g[index as int]));
                } else {
                    lemma_flatten_push(target.take(index + 1), g[index as int]);
                    assert(target.take(index + 2) =~= target.take(index + 1).push(
                        g[index as int],
                    ));
                }
            }
            length += 1;
            index += 1;
        }
        proof {
            if at < g.len() {
                assert(target.take(index + 1) =~= target);
            } else {
                assert(g.take(index as int) =~= g);
            }
            lemma_pieces_count(g);
        }
        self.len = length;
        self.string = result;
    }

    /// Removes the cluster with index `at`; at the count or past it, nothing.
    pub fn delete(&mut self, at: usize)
        requires
            old(self)@.wf(),
        ensures
            final(self)@ == old(self)@.delete(at as nat),
            final(self)@.wf(),
    {
        if at >= self.len {
            return ;
        }
        let ghost g = clusters(self.string@);
        let ghost target = g.remove(at as int);
        let pieces = graphemes(self.string.as_str());
        let mut result = String::new();
        let mut length: usize = 0;
        let mut index: usize = 0;
        proof {
            lemma_clusters_partition(self.string@);
            assert(g.take(0).flatten() =~= Seq::<char>::empty());
        }
        while index < pieces.len()
            invariant
                index <= pieces.len(),
                pieces.deep_view() == g,
                target == g.remove(at as int),
                index <= at ==> length == index && result@ == g.take(index as int).flatten(),
                index > at ==> length == index - 1 && result@ == target.take(
                    index - 1,
                ).flatten(),
            decreases pieces.len() - index,
        {
            if index != at {
                let piece = pieces[index];
                length += 1;
                result.append(piece);
                proof {
                    assert(piece@ == pieces.deep_view()[index as int]);
                    if index < at {
                        lemma_flatten_push(g.take(index as int), g[index as int]);
                        assert(g.take(index + 1) =~= g.take(index as int).push(
                            g[index as int],
                        ));
                    } else {
                        lemma_flatten_push(target.take(index - 1), g[index as int]);
                        assert(target.take(index as int) =~= target.take(index - 1).push(
                            g[index as int],
                        ));
                    }
                }
            } else {
                proof {
                    assert(target.take(index as int) =~= g.take(index as int));
                }
            }
            index += 1;
        }
        proof {
            if at < g.len() {
                assert(target.take(index - 1) =~= target);
                assert forall|i: int| 0 <= i < target.len() implies (#[trigger] target[i]).len()
                    > 0 by {
                    if i < at {
                        assert(target[i] == g[i]);
                    } else {
                        assert(target[i] == g[i + 1]);
                    }
                }
                lemma_pieces_count(target);
            } else {
                assert(g.take(index as int) =~= g);
                lemma_pieces_count(g);
            }
        }
        self.len = length;
        self.string = result;
    }

    /// Adds the text of `new` after the text of the row, and its count to the
    /// count.
    pub fn append(&mut self, new: &Row)
        requires
            old(self)@.wf(),
            new@.wf(),
        ensures
            final(self)@ == old(self)@.append(new@),
            final(self)@.wf(),
    {
        self.string.append(new.string.as_str());
        char_count_fits(self.string.as_str());
        self.len += new.len;
    }

    /// Cuts the row at cluster index `at`: the clusters before `at` stay, the
    /// others make the row that is returned.
    pub fn split(&mut self, at: usize) -> (rest: Row)
        ensures
            final(self)@ == old(self)@.split_kept(at as nat),
            rest@ == old(self)@.split_off(at as nat),
            final(self)@.wf(),
            rest@.wf(),
    {
        let ghost g = clusters(self.string@);
        let ghost k = least(at as nat, g.len()) as int;
        let pieces = graphemes(self.string.as_str());
        let mut row = String::new();
        let mut length: usize = 0;
        let mut splitted_row = String::new();
        let mut splitted_length: usize = 0;
        let mut index: usize = 0;
        proof {
            lemma_clusters_partition(self.string@);
            assert(g.take(0).flatten() =~= Seq::<char>::empty());
            assert(g.subrange(k, k).flatten() =~= Seq::<char>::empty());
        }
        while index < pieces.len()
            invariant
                index <= pieces.len(),
                pieces.deep_view() == g,
                k == least(at as nat, g.len()),
                length == least(index as nat, k as nat),
                splitted_length == index - length,
                row@ == g.take(length as int).flatten(),
                splitted_row@ == g.subrange(k, k + splitted_length).flatten(),
            decreases pieces.len() - index,
        {
            let piece = pieces[index];
            proof {
                assert(piece@ == pieces.deep_view()[index as int]);
            }
            if index < at {
                length += 1;
                row.append(piece);
                proof {
                    lemma_flatten_push(g.take(index as int), g[index as int]);
                    assert(g.take(index + 1) =~= g.take(index as int).push(g[index as int]));
                }
            } else {
                splitted_length += 1;
                splitted_row.append(piece);
                proof {
                    lemma_flatten_push(g.subrange(k, index as int), g[index as int]);
                    assert(g.subrange(k, index + 1) =~= g.subrange(k, index as int).push(
                        g[index as int],
                    ));
                }
            }
            index += 1;
        }
        proof {
            assert(g.subrange(k, g.len() as int) =~= g.skip(k));
            let kept = g.take(k);
            let off = g.skip(k);
            assert forall|i: int| 0 <= i < kept.len() implies (#[trigger] kept[i]).len() > 0 by {
                assert(kept[i] == g[i]);
            }
            assert forall|i: int| 0 <= i < off.len() implies (#[trigger] off[i]).len() > 0 by {
                assert(off[i] == g[i + k]);
            }
            lemma_pieces_count(kept);
            lemma_pieces_count(off);
        }
        self.string = row;
        self.len = length;
        Row { string: splitted_row, len: splitted_length }
    }

    /// What is displayed for the clusters with indices from `start` up to,
    /// and without, `end`: each cluster as it is, a tab as four spaces.
    pub fn render(&self, start: usize, end: usize) -> (text: String)
        ensures
            text@ == self@.render(start as nat, end as nat),
    {
        let ghost g = clusters(self.string@);
        let bytes = byte_len(self.string.as_str());
        let end = if end < bytes {
            end
        } else {
            bytes
        };
        let start = if start < end {
            start
        } else {
            end
        };
        let pieces = graphemes(self.string.as_str());
        let ghost hi = least(end as nat, g.len()) as int;
        let ghost lo = least(start as nat, hi as nat) as int;
        let ghost shown = |piece: Seq<char>| displayed(piece);
        proof {
            lemma_clusters_partition(self.string@);
            lemma_pieces_count(g);
            lemma_encode_len(self.string@);
            reveal_strlit("    ");
            assert("    "@ =~= crate::model::tab_stop());
            assert(g.subrange(lo, lo).map_values(shown).flatten() =~= Seq::<char>::empty());
        }
        let mut result = String::new();
        let mut index = start;
        while index < end && index < pieces.len()
            invariant
                pieces.deep_view() == g,
                hi == least(end as nat, g.len()),
                lo == least(start as nat, hi as nat),
                shown == |piece: Seq<char>| displayed(piece),
                "    "@ == crate::model::tab_stop(),
                start <= index,
                index <= hi || index == start,
                result@ == g.subrange(lo, least(index as nat, hi as nat) as int).map_values(
                    shown,
                ).flatten(),
            decreases pieces.len() - index,
        {
            let piece = pieces[index];
            if is_tab(piece) {
                result.append("    ");
            } else {
                result.append(piece);
            }
            proof {
                assert(piece@ == pieces.deep_view()[index as int]);
                let done = g.subrange(lo, index as int).map_values(shown);
                lemma_flatten_push(done, displayed(g[index as int]));
                assert(g.subrange(lo, index + 1).map_values(shown) =~= done.push(
                    displayed(g[index as int]),
                ));
            }
            index += 1;
        }
        result
    }

    /// The cluster index at which `query` is found: from `at` on towards the
    /// end, or before `at` towards the start.
    pub fn find(&self, query: &str, at: usize, direction: SearchDirection) -> (found: Option<
        usize,
    >)
        ensures
            match found {
                Some(i) => self@.find(query@, at as nat, direction) == Some(i as nat),
                None => self@.find(query@, at as nat, direction) is None,
            },
            at > self@.len ==> found is None,
    {
        if at > self.len {
            return None;
        }
        let start = match direction {
            SearchDirection::Forward => at,
            SearchDirection::Backward => 0,
        };
        let end = match direction {
            SearchDirection::Forward => self.len,
            SearchDirection::Backward => at,
        };
        let ghost g = clusters(self.string@);
        char_count_fits(self.string.as_str());
        let pieces = graphemes(self.string.as_str());
        let substring = gather(&pieces, start, end);
        let ghost w = clusters(substring@);
        proof {
            lemma_clusters_partition(self.string@);
            lemma_clusters_partition(substring@);
            assert(substring@ == self@.search_text(at as nat, direction));
        }
        let text = substring.as_str();
        let matching_byte_index = match direction {
            SearchDirection::Forward => find_first(text, query),
            SearchDirection::Backward => find_last(text, query),
        };
        proof {
            let hay = vstd::utf8::encode_utf8(substring@);
            let needle = vstd::utf8::encode_utf8(query@);
            match matching_byte_index {
                Some(i) => {
                    match direction {
                        SearchDirection::Forward => {
                            lemma_first_occurrence_unique(hay, needle, i as int);
                        },
                        SearchDirection::Backward => {
                            lemma_last_occurrence_unique(hay, needle, i as int);
                        },
                    }
                },
                None => {
                    assert(text.spec_bytes() == hay && query.spec_bytes() == needle);
                },
            }
        }
        if let Some(matching_byte_index) = matching_byte_index {
            let items = grapheme_indices(substring.as_str());
            proof {
                assert(item_texts(items@) == w);
                // The window starts at `start` clusters into the row, and no
                // cluster is empty, so what is found lies within the row.
                let hi = least(end as nat, g.len()) as int;
                let lo = least(start as nat, hi as nat) as int;
                if w.len() > 0 {
                    lemma_pieces_count(w);
                    let head = g.take(lo);
                    assert forall|i: int| 0 <= i < head.len() implies (#[trigger] head[i]).len()
                        > 0 by {
                        assert(head[i] == g[i]);
                    }
                    lemma_pieces_count(head);
                    lemma_flatten_take_skip(g, lo);
                    lemma_flatten_take_skip(g.skip(lo), hi - lo);
                    assert(g.skip(lo).take(hi - lo) =~= g.subrange(lo, hi));
                    assert(lo == start);
                    assert(start + w.len() <= self.string@.len());
                }
                assert forall|j: int|
                    0 <= j < w.len() && byte_offset(w, j) == matching_byte_index implies self@.find(
                    query@,
                    at as nat,
                    direction,
                ) == Some((start + j) as nat) by {
                    lemma_piece_starting_at_unique(w, j, matching_byte_index as int);
                }
            }
            let mut grapheme_index: usize = 0;
            while grapheme_index < items.len()
                invariant
                    grapheme_index <= items.len(),
                    items@.len() == w.len(),
                    w.len() > 0 ==> start + w.len() <= usize::MAX,
                    forall|i: int|
                        0 <= i < items@.len() ==> (#[trigger] items@[i]).0 == byte_offset(w, i),
                    forall|i: int|
                        0 <= i < grapheme_index ==> byte_offset(w, i) != matching_byte_index,
                    forall|j: int|
                        0 <= j < w.len() && byte_offset(w, j) == matching_byte_index
                            ==> self@.find(query@, at as nat, direction) == Some(
                            (start + j) as nat,
                        ),
                decreases items.len() - grapheme_index,
            {
                let byte_index = items[grapheme_index].0;
                if matching_byte_index == byte_index {
                    return Some(start + grapheme_index);
                }
                grapheme_index += 1;
            }
        }
        None
    }

    /// The text of the row in UTF-8.
    pub fn as_bytes(&self) -> (bytes: &[u8])
        ensures
            bytes@ == vstd::utf8::encode_utf8(self@.content),
    {
        self.string.as_str().as_bytes()
    }
}

} // verus!
