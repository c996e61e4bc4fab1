//! The mathematical model of a row: its text, its cached count, and what each
//! operation makes of them.

use crate::search::{first_occurrence, last_occurrence, piece_starting_at};
use crate::segment::clusters;
use crate::SearchDirection;
use vstd::prelude::*;
use vstd::utf8::encode_utf8;

verus! {

/// What a row is to its callers: the characters of the line and the number of
/// grapheme clusters that the row takes the line to have.
pub struct RowView {
    pub content: Seq<char>,
    pub len: nat,
}

/// What a tab is rendered as.
pub open spec fn tab_stop() -> Seq<char> {
    seq![' ', ' ', ' ', ' ']
}

/// A cluster as it is displayed: a tab becomes four spaces, every other
/// cluster is itself.
pub open spec fn displayed(piece: Seq<char>) -> Seq<char> {
    if piece == seq!['\t'] {
        tab_stop()
    } else {
        piece
    }
}

/// The smaller of two numbers.
pub open spec fn least(a: nat, b: nat) -> nat {
    if a <= b {
        a
    } else {
        b
    }
}

impl RowView {
    /// The row that holds no text.
    pub open spec fn empty() -> RowView {
        RowView { content: Seq::empty(), len: 0 }
    }

    /// The row built from `text`.
    pub open spec fn of(text: Seq<char>) -> RowView {
        RowView { content: text, len: clusters(text).len() }
    }

    /// What every row satisfies: the count is that of some way to cut the
    /// text into non-empty pieces. It is zero exactly for the empty text and
    /// never more than the number of characters.
    pub open spec fn wf(self) -> bool {
        &&& self.len <= self.content.len()
        &&& self.len == 0 <==> self.content.len() == 0
    }

    /// The count is the number of grapheme clusters of the text.
    pub open spec fn counted(self) -> bool {
        self.len == clusters(self.content).len()
    }

    /// The text of the clusters with indices in `[lo, hi)`, where the window
    /// is first cut down to the clusters that exist.
    pub open spec fn window(self, lo: nat, hi: nat) -> Seq<Seq<char>> {
        let g = clusters(self.content);
        let hi = least(hi, g.len());
        let lo = least(lo, hi);
        g.subrange(lo as int, hi as int)
    }

    /// What is displayed for the clusters with indices in `[start, end)`.
    pub open spec fn render(self, start: nat, end: nat) -> Seq<char> {
        self.window(start, end).map_values(|piece: Seq<char>| displayed(piece)).flatten()
    }

    /// The row after `c` was inserted at cluster index `at`.
    ///
    /// At or past the count, `c` goes to the end. Before it, `c` goes in front
    /// of the cluster with that index and the count becomes that of the
    /// clusters walked, plus one; where the count had run ahead of the
    /// clusters and no cluster has that index, nothing is inserted.
    pub open spec fn insert(self, at: nat, c: char) -> RowView {
        let g = clusters(self.content);
        if at >= self.len {
            RowView { content: self.content.push(c), len: self.len + 1 }
        } else if at < g.len() {
            RowView { content: g.insert(at as int, seq![c]).flatten(), len: g.len() + 1 }
        } else {
            RowView { content: self.content, len: g.len() }
        }
    }

    /// The row after the cluster with index `at` was removed.
    ///
    /// At or past the count nothing changes. Before it, the cluster with that
    /// index leaves, if there is one, and the count becomes that of the
    /// clusters that stay.
    pub open spec fn delete(self, at: nat) -> RowView {
        let g = clusters(self.content);
        if at >= self.len {
            self
        } else if at < g.len() {
            RowView { content: g.remove(at as int).flatten(), len: (g.len() - 1) as nat }
        } else {
            RowView { content: self.content, len: g.len() }
        }
    }

    /// The row with the text of `other` after its own.
    pub open spec fn append(self, other: RowView) -> RowView {
        RowView { content: self.content + other.content, len: self.len + other.len }
    }

    /// What stays in the row when it is split at cluster index `at`: the
    /// clusters before `at`.
    pub open spec fn split_kept(self, at: nat) -> RowView {
        let g = clusters(self.content);
        let k = least(at, g.len());
        RowView { content: g.take(k as int).flatten(), len: k }
    }

    /// What is split off the row at cluster index `at`: the clusters from
    /// `at` on.
    pub open spec fn split_off(self, at: nat) -> RowView {
        let g = clusters(self.content);
        let k = least(at, g.len());
        RowView { content: g.skip(k as int).flatten(), len: (g.len() - k) as nat }
    }

    /// The first cluster index of the window that `find` searches.
    pub open spec fn search_start(self, at: nat, direction: SearchDirection) -> nat {
        match direction {
            SearchDirection::Forward => at,
            SearchDirection::Backward => 0,
        }
    }

    /// The cluster index at which the window that `find` searches ends.
    pub open spec fn search_end(self, at: nat, direction: SearchDirection) -> nat {
        match direction {
            SearchDirection::Forward => self.len,
            SearchDirection::Backward => at,
        }
    }

    /// The text that `find` searches.
    pub open spec fn search_text(self, at: nat, direction: SearchDirection) -> Seq<char> {
        self.window(self.search_start(at, direction), self.search_end(at, direction)).flatten()
    }

    /// The byte offset in the searched text at which `query` is found: its
    /// first occurrence when searching forward, its last when searching
    /// backward.
    pub open spec fn search_hit(
        self,
        query: Seq<char>,
        at: nat,
        direction: SearchDirection,
    ) -> Option<int> {
        let text = encode_utf8(self.search_text(at, direction));
        match direction {
            SearchDirection::Forward => first_occurrence(text, encode_utf8(query)),
            SearchDirection::Backward => last_occurrence(text, encode_utf8(query)),
        }
    }

    /// The cluster index at which `query` is found from `at` in `direction`.
    ///
    /// Past the count nothing is found. Otherwise the searched text is
    /// segmented anew, and the hit counts only where one of its clusters
    /// starts at the byte of the hit; the index of that cluster is added to
    /// the index at which the window starts.
    pub open spec fn find(self, query: Seq<char>, at: nat, direction: SearchDirection) -> Option<
        nat,
    > {
        if at > self.len {
            None
        } else {
            match self.search_hit(query, at, direction) {
                None => None,
                Some(offset) => match piece_starting_at(
                    clusters(self.search_text(at, direction)),
                    offset,
                ) {
                    None => None,
                    Some(j) => Some((self.search_start(at, direction) + j) as nat),
                },
            }
        }
    }
}

} // verus!
