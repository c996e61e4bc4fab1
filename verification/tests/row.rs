use text_row::row::Row;
use text_row::SearchDirection;

fn text_of(row: &Row) -> String {
    String::from_utf8(row.as_bytes().to_vec()).unwrap()
}

#[test]
fn length_counts_ascii_characters() {
    let row = Row::from("hello");
    assert_eq!(row.len(), 5);
    assert_eq!(text_of(&row), "hello");
}

#[test]
fn length_counts_a_combining_accent_with_its_base() {
    let row = Row::from("e\u{301}a\u{310}");
    assert_eq!(row.len(), 2);
    assert_eq!(row.as_bytes().len(), 6);
}

#[test]
fn length_counts_an_emoji_sequence_once() {
    // A family joined by zero-width joiners, then a flag of two indicators.
    let row = Row::from("\u{1F468}\u{200D}\u{1F469}\u{200D}\u{1F467}\u{1F1F7}\u{1F1FA}");
    assert_eq!(row.len(), 2);
}

#[test]
fn length_counts_a_line_break_pair_once() {
    let row = Row::from("a\r\nb");
    assert_eq!(row.len(), 3);
}

#[test]
fn empty_slice_gives_an_empty_row() {
    let row = Row::from("");
    assert_eq!(row.len(), 0);
    assert!(row.is_empty());
    assert_eq!(row.as_bytes().len(), 0);
}

#[test]
fn default_row_is_empty() {
    let row = Row::default();
    assert_eq!(row.len(), 0);
    assert!(row.is_empty());
    assert_eq!(text_of(&row), "");
}

#[test]
fn non_empty_row_is_not_empty() {
    assert!(!Row::from("a").is_empty());
}

#[test]
fn as_bytes_is_the_text_in_utf8() {
    let row = Row::from("h\u{e9}");
    assert_eq!(row.as_bytes(), &[0x68, 0xc3, 0xa9]);
}

#[test]
fn insert_in_the_middle_of_accented_text() {
    let mut row = Row::from("h\u{e9}llo");
    assert_eq!(row.len(), 5);
    assert_eq!(row.as_bytes().len(), 6);
    row.insert(1, 'X');
    assert_eq!(text_of(&row), "hX\u{e9}llo");
    assert_eq!(row.len(), 6);
    row.delete(2);
    assert_eq!(text_of(&row), "hXllo");
    assert_eq!(row.len(), 5);
}

#[test]
fn insert_at_the_start() {
    let mut row = Row::from("bc");
    row.insert(0, 'a');
    assert_eq!(text_of(&row), "abc");
    assert_eq!(row.len(), 3);
}

#[test]
fn insert_at_the_count_appends() {
    let mut row = Row::from("ab");
    row.insert(2, 'c');
    assert_eq!(text_of(&row), "abc");
    assert_eq!(row.len(), 3);
}

#[test]
fn insert_far_past_the_count_appends() {
    let mut row = Row::from("ab");
    row.insert(usize::MAX, 'c');
    assert_eq!(text_of(&row), "abc");
    assert_eq!(row.len(), 3);
}

#[test]
fn insert_into_an_empty_row() {
    let mut row = Row::from("");
    row.insert(0, 'x');
    assert_eq!(text_of(&row), "x");
    assert_eq!(row.len(), 1);
    assert!(!row.is_empty());
}

#[test]
fn insert_goes_in_front_of_a_whole_cluster() {
    let mut row = Row::from("ae\u{301}z");
    row.insert(1, '-');
    assert_eq!(text_of(&row), "a-e\u{301}z");
    assert_eq!(row.len(), 4);
    row.insert(2, '+');
    assert_eq!(text_of(&row), "a-+e\u{301}z");
    assert_eq!(row.len(), 5);
}

#[test]
fn insert_then_delete_restores_the_row() {
    for i in 0..=4usize {
        let mut row = Row::from("a\u{e9}\u{1F600}z");
        row.insert(i, 'Q');
        assert_eq!(row.len(), 5);
        row.delete(i);
        assert_eq!(text_of(&row), "a\u{e9}\u{1F600}z");
        assert_eq!(row.len(), 4);
    }
}

#[test]
fn an_accent_inserted_at_the_end_joins_the_last_cluster() {
    // The count goes up by one although the text still has one cluster, so
    // deleting at that index finds no cluster to remove.
    let mut row = Row::from("e");
    row.insert(1, '\u{301}');
    assert_eq!(text_of(&row), "e\u{301}");
    assert_eq!(row.len(), 2);
    row.delete(1);
    assert_eq!(text_of(&row), "e\u{301}");
    assert_eq!(row.len(), 1);
}

#[test]
fn insert_where_the_count_ran_ahead_inserts_nothing() {
    let mut row = Row::from("e");
    row.insert(1, '\u{301}');
    assert_eq!(row.len(), 2);
    row.insert(1, 'x');
    assert_eq!(text_of(&row), "e\u{301}");
    assert_eq!(row.len(), 1);
}

#[test]
fn delete_removes_a_whole_cluster() {
    let mut row = Row::from("ae\u{301}z");
    row.delete(1);
    assert_eq!(text_of(&row), "az");
    assert_eq!(row.len(), 2);
}

#[test]
fn delete_the_first_and_the_last() {
    let mut row = Row::from("abc");
    row.delete(0);
    assert_eq!(text_of(&row), "bc");
    row.delete(1);
    assert_eq!(text_of(&row), "b");
    assert_eq!(row.len(), 1);
    row.delete(0);
    assert_eq!(text_of(&row), "");
    assert_eq!(row.len(), 0);
    assert!(row.is_empty());
}

#[test]
fn delete_past_the_end_changes_nothing() {
    let mut row = Row::from("abc");
    row.delete(3);
    assert_eq!(text_of(&row), "abc");
    assert_eq!(row.len(), 3);
    row.delete(usize::MAX);
    assert_eq!(text_of(&row), "abc");
    assert_eq!(row.len(), 3);
}

#[test]
fn delete_on_an_empty_row_changes_nothing() {
    let mut row = Row::from("");
    row.delete(0);
    assert_eq!(row.len(), 0);
    assert!(row.is_empty());
}

#[test]
fn append_joins_text_and_counts() {
    let mut row = Row::from("ab");
    let other = Row::from("c\u{e9}");
    row.append(&other);
    assert_eq!(text_of(&row), "abc\u{e9}");
    assert_eq!(row.len(), 4);
    assert_eq!(text_of(&other), "c\u{e9}");
    assert_eq!(other.len(), 2);
}

#[test]
fn append_an_empty_row() {
    let mut row = Row::from("ab");
    row.append(&Row::from(""));
    assert_eq!(text_of(&row), "ab");
    assert_eq!(row.len(), 2);
}

#[test]
fn append_to_an_empty_row() {
    let mut row = Row::default();
    row.append(&Row::from("xy"));
    assert_eq!(text_of(&row), "xy");
    assert_eq!(row.len(), 2);
}

#[test]
fn split_then_append_restores_abc() {
    let mut row = Row::from("abc");
    let rest = row.split(1);
    assert_eq!(text_of(&row), "a");
    assert_eq!(row.len(), 1);
    assert_eq!(text_of(&rest), "bc");
    assert_eq!(rest.len(), 2);
    row.append(&rest);
    assert_eq!(text_of(&row), "abc");
    assert_eq!(row.len(), 3);
}

#[test]
fn split_at_every_index_then_append_restores_the_row() {
    let text = "a\u{e9}e\u{301}\u{1F600}\tz";
    for k in 0..=6usize {
        let mut row = Row::from(text);
        assert_eq!(row.len(), 6);
        let rest = row.split(k);
        assert_eq!(row.len(), k);
        assert_eq!(rest.len(), 6 - k);
        row.append(&rest);
        assert_eq!(text_of(&row), text);
        assert_eq!(row.len(), 6);
    }
}

#[test]
fn split_at_the_start_moves_everything() {
    let mut row = Row::from("abc");
    let rest = row.split(0);
    assert_eq!(text_of(&row), "");
    assert_eq!(row.len(), 0);
    assert!(row.is_empty());
    assert_eq!(text_of(&rest), "abc");
    assert_eq!(rest.len(), 3);
}

#[test]
fn split_at_the_end_moves_nothing() {
    let mut row = Row::from("abc");
    let rest = row.split(3);
    assert_eq!(text_of(&row), "abc");
    assert_eq!(row.len(), 3);
    assert_eq!(text_of(&rest), "");
    assert_eq!(rest.len(), 0);
    assert!(rest.is_empty());
}

#[test]
fn split_past_the_end_moves_nothing() {
    let mut row = Row::from("abc");
    let rest = row.split(100);
    assert_eq!(text_of(&row), "abc");
    assert_eq!(row.len(), 3);
    assert_eq!(rest.len(), 0);
}

#[test]
fn split_keeps_clusters_whole() {
    let mut row = Row::from("e\u{301}o\u{308}");
    let rest = row.split(1);
    assert_eq!(text_of(&row), "e\u{301}");
    assert_eq!(text_of(&rest), "o\u{308}");
}

#[test]
fn render_the_whole_row() {
    let row = Row::from("h\u{e9}llo");
    assert_eq!(row.render(0, row.len()), "h\u{e9}llo");
}

#[test]
fn render_a_window() {
    let row = Row::from("abcdef");
    assert_eq!(row.render(1, 4), "bcd");
    assert_eq!(row.render(2, 3), "c");
    assert_eq!(row.render(3, 3), "");
}

#[test]
fn render_expands_a_tab_to_four_spaces() {
    let row = Row::from("a\tb");
    assert_eq!(row.render(0, 3), "a    b");
    assert_eq!(row.render(1, 2), "    ");
    assert_eq!(row.render(2, 3), "b");
}

#[test]
fn render_expands_every_tab() {
    let row = Row::from("\t\t");
    assert_eq!(row.render(0, 2), "        ");
}

#[test]
fn render_clamps_the_end() {
    let row = Row::from("abc");
    assert_eq!(row.render(0, 100), "abc");
    assert_eq!(row.render(1, usize::MAX), "bc");
}

#[test]
fn render_clamps_the_start() {
    let row = Row::from("abc");
    assert_eq!(row.render(5, 2), "");
    assert_eq!(row.render(100, 200), "");
    assert_eq!(row.render(2, 1), "");
}

#[test]
fn render_counts_clusters_not_bytes() {
    let row = Row::from("\u{e9}\u{e9}\u{e9}x");
    assert_eq!(row.render(1, 3), "\u{e9}\u{e9}");
    assert_eq!(row.render(3, 4), "x");
}

#[test]
fn render_of_an_empty_row() {
    let row = Row::from("");
    assert_eq!(row.render(0, 10), "");
}

#[test]
fn find_forward_starts_at_the_given_index() {
    let row = Row::from("ababab");
    assert_eq!(row.find("ab", 2, SearchDirection::Forward), Some(2));
    assert_eq!(row.find("ab", 0, SearchDirection::Forward), Some(0));
    assert_eq!(row.find("ab", 1, SearchDirection::Forward), Some(2));
    assert_eq!(row.find("ab", 3, SearchDirection::Forward), Some(4));
    assert_eq!(row.find("ab", 5, SearchDirection::Forward), None);
}

#[test]
fn find_backward_ends_before_the_given_index() {
    let row = Row::from("ababab");
    assert_eq!(row.find("ab", 4, SearchDirection::Backward), Some(2));
    assert_eq!(row.find("ab", 6, SearchDirection::Backward), Some(4));
    assert_eq!(row.find("ab", 3, SearchDirection::Backward), Some(0));
    assert_eq!(row.find("ab", 1, SearchDirection::Backward), None);
    assert_eq!(row.find("ab", 0, SearchDirection::Backward), None);
}

#[test]
fn find_past_the_count_finds_nothing() {
    let row = Row::from("ababab");
    assert_eq!(row.find("ab", 7, SearchDirection::Forward), None);
    assert_eq!(row.find("ab", 7, SearchDirection::Backward), None);
    assert_eq!(row.find("", 7, SearchDirection::Forward), None);
    assert_eq!(row.find("ab", usize::MAX, SearchDirection::Backward), None);
}

#[test]
fn find_at_the_count_searches_an_empty_window_forward() {
    let row = Row::from("ababab");
    assert_eq!(row.find("ab", 6, SearchDirection::Forward), None);
}

#[test]
fn find_reports_cluster_indices_not_byte_offsets() {
    let row = Row::from("\u{e9}\u{e9}ab\u{1F600}ab");
    assert_eq!(row.find("ab", 0, SearchDirection::Forward), Some(2));
    assert_eq!(row.find("ab", 3, SearchDirection::Forward), Some(5));
    assert_eq!(row.find("ab", 7, SearchDirection::Backward), Some(5));
    assert_eq!(row.find("ab", 5, SearchDirection::Backward), Some(2));
    assert_eq!(row.find("\u{1F600}", 0, SearchDirection::Forward), Some(4));
}

#[test]
fn find_a_missing_query() {
    let row = Row::from("hello");
    assert_eq!(row.find("xyz", 0, SearchDirection::Forward), None);
    assert_eq!(row.find("xyz", 5, SearchDirection::Backward), None);
}

#[test]
fn find_a_hit_inside_a_cluster_is_not_reported() {
    // The accent is found at a byte that starts no cluster.
    let row = Row::from("ae\u{301}");
    assert_eq!(row.find("\u{301}", 0, SearchDirection::Forward), None);
    assert_eq!(row.find("\u{301}", 2, SearchDirection::Backward), None);
}

#[test]
fn find_an_empty_query() {
    let row = Row::from("abc");
    assert_eq!(row.find("", 1, SearchDirection::Forward), Some(1));
    assert_eq!(row.find("", 3, SearchDirection::Forward), None);
    assert_eq!(row.find("", 2, SearchDirection::Backward), None);
}

#[test]
fn find_in_an_empty_row() {
    let row = Row::from("");
    assert_eq!(row.find("a", 0, SearchDirection::Forward), None);
    assert_eq!(row.find("a", 0, SearchDirection::Backward), None);
}

#[test]
fn search_directions_compare() {
    assert_eq!(SearchDirection::Forward, SearchDirection::Forward);
    assert_ne!(SearchDirection::Forward, SearchDirection::Backward);
}
