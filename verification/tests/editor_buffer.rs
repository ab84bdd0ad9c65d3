//! The text buffer.

use ocean_gui::shell::editor_buffer::{EditorCursor, TextBuffer, UNDO_HISTORY_LIMIT};

#[test]
fn edits_large_text_without_full_snapshot_undo() {
    let mut buffer = TextBuffer::new_saved("alpha\nbeta\ngamma");
    buffer.move_to_line_column(1, 4);

    assert!(buffer.insert_text("!"));
    assert_eq!(buffer.text(), "alpha\nbeta!\ngamma");
    assert!(buffer.is_dirty());
    assert_eq!(buffer.cursor_position(), EditorCursor { line: 1, column: 5 });

    assert!(buffer.undo());
    assert_eq!(buffer.text(), "alpha\nbeta\ngamma");
    assert!(!buffer.is_dirty());

    assert!(buffer.redo());
    assert_eq!(buffer.text(), "alpha\nbeta!\ngamma");
    assert!(buffer.is_dirty());
}

#[test]
fn selection_uses_character_offsets() {
    let mut buffer = TextBuffer::new_saved("écho beta");
    buffer.move_to_line_column(0, 0);
    for _ in 0..4 {
        buffer.extend_right();
    }

    assert_eq!(buffer.selected_text(), Some(String::from("écho")));
    assert_eq!(buffer.selected_columns_for_line(0), Some(0..4));
    assert!(buffer.insert_text("echo"));
    assert_eq!(buffer.text(), "echo beta");
}

#[test]
fn renders_line_window_without_prefix_scan_allocation() {
    let buffer = TextBuffer::new_saved("zero\none\ntwo\nthree\nfour");

    assert_eq!(
        buffer.rendered_lines_from(2, 2),
        vec![String::from("two"), String::from("three")]
    );
}

#[test]
fn line_text_returns_line_without_break() {
    let buffer = TextBuffer::new_saved("alpha\nbeta");

    assert_eq!(buffer.line_text(1), Some(String::from("beta")));
    assert_eq!(buffer.line_text(99), None);
}

#[test]
fn utf16_ranges_round_trip_surrogate_pairs() {
    let mut buffer = TextBuffer::new_saved("a🙂b");

    assert_eq!(buffer.char_range_to_utf16(&(1..2)), 1..3);
    assert_eq!(buffer.utf16_range_to_char(&(1..3)), 1..2);

    let char_range = buffer.utf16_range_to_char(&(1..3));
    assert_eq!(buffer.replace_range(char_range, "x"), Some(1..2));
    assert_eq!(buffer.text(), "axb");
}

#[test]
fn line_column_to_utf16_offset_uses_rope_without_probe_clone() {
    let buffer = TextBuffer::new_saved("a🙂b\nc🙂d");

    assert_eq!(buffer.utf16_offset_for_line_column(0, 2), 3);
    assert_eq!(buffer.utf16_offset_for_line_column(1, 2), 8);
    assert_eq!(buffer.utf16_offset_for_line_column(99, 99), 9);
}

#[test]
fn extend_to_line_column_selects_across_lines() {
    let mut buffer = TextBuffer::new_saved("alpha\nbeta\ngamma");

    buffer.move_to_line_column(0, 2);
    buffer.extend_to_line_column(1, 2);

    assert_eq!(buffer.selected_text(), Some(String::from("pha\nbe")));
}

#[test]
fn select_word_at_line_column_uses_unicode_character_offsets() {
    let mut buffer = TextBuffer::new_saved("alpha béta gamma");

    assert!(buffer.select_word_at_line_column(0, 7));

    assert_eq!(buffer.selected_text(), Some(String::from("béta")));
    assert_eq!(buffer.cursor_position(), EditorCursor { line: 0, column: 10 });
}

#[test]
fn select_word_at_line_column_clears_selection_on_separator() {
    let mut buffer = TextBuffer::new_saved("alpha beta");
    assert!(buffer.select_word_at_line_column(0, 1));

    assert!(!buffer.select_word_at_line_column(0, 5));

    assert_eq!(buffer.selected_text(), None);
    assert_eq!(buffer.cursor_position(), EditorCursor { line: 0, column: 5 });
}

#[test]
fn undo_goes_back_no_further_than_its_limit() {
    let mut buffer = TextBuffer::new_saved("");
    for _ in 0..UNDO_HISTORY_LIMIT + 5 {
        assert!(buffer.insert_text("x"));
    }
    let mut undone = 0;
    while buffer.undo() {
        undone += 1;
    }
    assert_eq!(undone, UNDO_HISTORY_LIMIT);
    assert_eq!(buffer.text(), "xxxxx");
    assert!(buffer.redo());
    assert_eq!(buffer.text(), "xxxxxx");
}

#[test]
fn every_line_break_starts_a_line() {
    let buffer = TextBuffer::new_saved("a\r\nb\u{b}c\u{c}d\u{85}e\u{2028}f\u{2029}g\rh\n");

    assert_eq!(buffer.line_count(), 9);
    assert_eq!(buffer.line_text(0), Some(String::from("a")));
    assert_eq!(buffer.line_text(7), Some(String::from("h")));
    assert_eq!(buffer.line_text(8), Some(String::new()));
    assert_eq!(buffer.all_lines().len(), 9);
}

#[test]
fn words_are_parted_by_white_space() {
    assert_eq!(TextBuffer::new_saved("  one\ttwo\nthree  ").word_count(), 3);
    assert_eq!(TextBuffer::new_saved(" \n ").word_count(), 0);
}

#[test]
fn a_clone_goes_its_own_way() {
    let mut buffer = TextBuffer::new_saved("alpha");
    buffer.move_to_end();
    buffer.insert_text("!");
    let mut copy = buffer.clone();
    assert!(copy.undo());
    assert_eq!(copy.text(), "alpha");
    assert_eq!(buffer.text(), "alpha!");
    assert!(buffer.is_dirty() && !copy.is_dirty());
}

#[test]
fn vertical_moves_keep_the_column_where_they_can() {
    let mut buffer = TextBuffer::new_saved("long line\nab\nlonger line");
    buffer.move_to_line_column(0, 5);
    buffer.move_down(false);
    assert_eq!(buffer.cursor_position(), EditorCursor { line: 1, column: 2 });
    buffer.move_down(true);
    assert_eq!(buffer.cursor_position(), EditorCursor { line: 2, column: 2 });
    assert_eq!(buffer.selected_text(), Some(String::from("\nlo")));
    buffer.move_up(false);
    buffer.move_up(false);
    buffer.move_up(false);
    assert_eq!(buffer.cursor_position().line, 0);
}

#[test]
fn marking_dirty_and_saved() {
    let mut buffer = TextBuffer::new_saved("text");
    buffer.mark_dirty();
    assert!(buffer.is_dirty());
    assert_eq!(buffer.text(), "text");
    buffer.mark_saved();
    assert!(!buffer.is_dirty());
    assert!(!buffer.delete_backward());
    assert!(buffer.delete_forward());
    assert_eq!(buffer.text(), "ext");
    assert!(!buffer.is_empty());
}

#[test]
fn words_are_counted_piece_by_piece() {
    for text in ["a".repeat(5000), "word ".repeat(3000), "one\ntwo three".repeat(400)] {
        let rope = ropey::Rope::from_str(text.as_str());
        let wanted = rope.chunks().flat_map(str::split_whitespace).count();
        assert_eq!(TextBuffer::new_saved(text.as_str()).word_count(), wanted);
        assert!(wanted >= text.split_whitespace().count());
    }
    let long = TextBuffer::new_saved("a".repeat(5000).as_str());
    assert!(long.word_count() > 1, "a word across pieces counts in each");
    assert_eq!(long.clone().word_count(), long.word_count());
    let short = TextBuffer::new_saved("a".repeat(128).as_str());
    assert_eq!(short.word_count(), 1);
}
