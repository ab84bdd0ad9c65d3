//! Lines as they are seen.

use std::ops::Range;

use ocean_gui::shell::editor_buffer::EditorCursor;
use ocean_gui::shell::editor_layout::{
    byte_offset_for_char_column, char_column_for_byte_index, wrap_boundaries, EditorLineStyle,
    EditorRenderLine, EditorVisualAnchor, EditorVisualLayout,
};

#[test]
fn char_columns_convert_through_utf8_boundaries() {
    let text = "a🙂b";

    assert_eq!(byte_offset_for_char_column(text, 0), 0);
    assert_eq!(byte_offset_for_char_column(text, 1), 1);
    assert_eq!(byte_offset_for_char_column(text, 2), 5);
    assert_eq!(byte_offset_for_char_column(text, 99), text.len());
    assert_eq!(char_column_for_byte_index(text, 0), 0);
    assert_eq!(char_column_for_byte_index(text, 1), 1);
    assert_eq!(char_column_for_byte_index(text, 3), 1);
    assert_eq!(char_column_for_byte_index(text, 5), 2);
    assert_eq!(char_column_for_byte_index(text, text.len()), 3);
}

#[test]
fn visual_layout_wraps_long_lines_by_source_columns() {
    let layout = test_layout(&[test_render_line(8, "abcdefghi", None)], vec![vec![4, 8]]);

    assert_eq!(layout.lines.len(), 3);
    assert_eq!(layout.lines[0].document_line_index, 8);
    assert_eq!(layout.lines[0].source_columns, 0..4);
    assert_eq!(layout.lines[0].text, "abcd");
    assert_eq!(layout.lines[1].source_columns, 4..8);
    assert_eq!(layout.lines[1].text, "efgh");
    assert_eq!(layout.lines[2].source_columns, 8..9);
    assert_eq!(layout.lines[2].text, "i");
    assert!(layout.lines[2].is_line_end);
}

#[test]
fn visual_layout_maps_selection_into_segment_columns() {
    let layout = test_layout(
        &[test_render_line(3, "abcdefgh", Some(2..7))],
        vec![vec![4]],
    );

    assert_eq!(layout.lines[0].selected_columns, Some(2..4));
    assert_eq!(layout.lines[1].selected_columns, Some(0..3));
}

#[test]
fn visual_layout_preserves_words_when_wrap_boundary_is_before_word() {
    let layout = test_layout(
        &[test_render_line(0, "Ocean GUI terminal workflows", None)],
        vec![vec!["Ocean GUI ".len()]],
    );

    assert_eq!(layout.lines[0].text, "Ocean GUI ");
    assert_eq!(layout.lines[1].text, "terminal workflows");
    assert!(!layout.lines.iter().any(|line| line.text == "termi"));
}

#[test]
fn visual_layout_snaps_mid_word_boundary_to_word_start() {
    let layout = test_layout(
        &[test_render_line(0, "Ocean GUI terminal workflows", None)],
        vec![vec!["Ocean GUI termi".len()]],
    );

    assert_eq!(layout.lines[0].text, "Ocean GUI ");
    assert_eq!(layout.lines[1].text, "terminal workflows");
}

#[test]
fn visual_layout_finds_cursor_row_at_wrap_boundaries() {
    let layout = test_layout(&[test_render_line(1, "abcdefgh", None)], vec![vec![4]]);

    let first = layout.visual_line_for_cursor(EditorCursor { line: 1, column: 3 });
    let boundary = layout.visual_line_for_cursor(EditorCursor { line: 1, column: 4 });
    let end = layout.visual_line_for_cursor(EditorCursor { line: 1, column: 8 });

    assert_eq!(first.map(|(row, _)| row), Some(0));
    assert_eq!(boundary.map(|(row, _)| row), Some(1));
    assert_eq!(end.map(|(row, _)| row), Some(1));
}

#[test]
fn visual_layout_moves_cursor_inside_wrapped_physical_line() {
    let layout = test_layout(&[test_render_line(1, "abcdefgh", None)], vec![vec![4]]);

    assert_eq!(
        layout.cursor_after_visual_delta(EditorCursor { line: 1, column: 1 }, 1),
        Some(EditorCursor { line: 1, column: 5 })
    );
    assert_eq!(
        layout.cursor_after_visual_delta(EditorCursor { line: 1, column: 4 }, -1),
        Some(EditorCursor { line: 1, column: 0 })
    );
}

#[test]
fn visual_layout_clamps_cursor_when_target_visual_row_is_shorter() {
    let layout = test_layout(
        &[
            test_render_line(0, "abcdefgh", None),
            test_render_line(1, "xy", None),
        ],
        vec![vec![4], vec![]],
    );

    assert_eq!(
        layout.cursor_after_visual_delta(EditorCursor { line: 0, column: 7 }, 1),
        Some(EditorCursor { line: 1, column: 2 })
    );
}

#[test]
fn visual_layout_reports_current_visual_row_start_and_end() {
    let layout = test_layout(
        &[test_render_line(1, "abcdefghijkl", None)],
        vec![vec![4, 8]],
    );

    assert_eq!(
        layout.visual_row_start_for_cursor(EditorCursor { line: 1, column: 6 }),
        Some(EditorCursor { line: 1, column: 4 })
    );
    assert_eq!(
        layout.visual_row_end_for_cursor(EditorCursor { line: 1, column: 6 }),
        Some(EditorCursor { line: 1, column: 8 })
    );
    assert_eq!(
        layout.visual_row_start_for_cursor(EditorCursor {
            line: 1,
            column: 12
        }),
        Some(EditorCursor { line: 1, column: 8 })
    );
    assert_eq!(
        layout.visual_row_end_for_cursor(EditorCursor {
            line: 1,
            column: 12
        }),
        Some(EditorCursor {
            line: 1,
            column: 12
        })
    );
}

#[test]
fn visual_layout_slices_visible_lines_from_scroll_offset() {
    let layout = test_layout(
        &[
            test_render_line(0, "zero", None),
            test_render_line(1, "one", None),
            test_render_line(2, "two", None),
            test_render_line(3, "three", None),
        ],
        vec![vec![], vec![], vec![], vec![]],
    );

    let visible = layout.visible_lines_from(1, 2);

    assert_eq!(
        visible
            .iter()
            .map(|line| line.document_line_index)
            .collect::<Vec<_>>(),
        vec![1, 2]
    );
    assert!(layout.visible_lines_from(99, 2).is_empty());
}

#[test]
fn visual_layout_clamps_scroll_row_to_full_viewport_window() {
    let layout = test_layout(
        &[
            test_render_line(0, "zero", None),
            test_render_line(1, "one", None),
            test_render_line(2, "two", None),
            test_render_line(3, "three", None),
            test_render_line(4, "four", None),
        ],
        vec![vec![], vec![], vec![], vec![], vec![]],
    );

    assert_eq!(layout.max_scroll_row(2), 3);
    assert_eq!(layout.clamp_scroll_row(99, 2), 3);
    assert_eq!(layout.clamp_scroll_row(4, 20), 0);
}

#[test]
fn visual_layout_maps_visual_rows_back_to_document_anchors() {
    let layout = test_layout(
        &[
            test_render_line(7, "abcdefghijkl", None),
            test_render_line(8, "next", None),
        ],
        vec![vec![4, 8], vec![]],
    );

    assert_eq!(
        layout.anchor_for_visual_row(1),
        Some(EditorVisualAnchor {
            document_line_index: 7,
            local_visual_row: 1
        })
    );
    assert_eq!(
        layout.anchor_for_visual_row(3),
        Some(EditorVisualAnchor {
            document_line_index: 8,
            local_visual_row: 0
        })
    );
    assert_eq!(layout.anchor_for_visual_row(99), None);
}

#[test]
fn visual_layout_computes_scroll_row_to_reveal_cursor_row() {
    let layout = test_layout(
        &[
            test_render_line(0, "zero", None),
            test_render_line(1, "one", None),
            test_render_line(2, "two", None),
            test_render_line(3, "three", None),
            test_render_line(4, "four", None),
            test_render_line(5, "five", None),
            test_render_line(6, "six", None),
            test_render_line(7, "seven", None),
        ],
        vec![
            vec![],
            vec![],
            vec![],
            vec![],
            vec![],
            vec![],
            vec![],
            vec![],
        ],
    );

    assert_eq!(layout.scroll_row_to_reveal_row(6, 0, 4, 1), 4);
    assert_eq!(layout.scroll_row_to_reveal_row(0, 4, 4, 1), 0);
    assert_eq!(layout.scroll_row_to_reveal_row(3, 1, 4, 1), 1);
}

fn test_render_line(
    document_line_index: usize,
    text: &str,
    selected_columns: Option<Range<usize>>,
) -> EditorRenderLine {
    EditorRenderLine {
        document_line_index,
        text: text.to_string(),
        selected_columns,
        style: EditorLineStyle::for_text(text),
    }
}

fn test_layout(
    render_lines: &[EditorRenderLine],
    boundaries_by_line: Vec<Vec<usize>>,
) -> EditorVisualLayout {
    EditorVisualLayout::from_render_lines_with_boundaries(render_lines, &boundaries_by_line)
}

#[test]
fn wrapped_rows_join_to_the_line() {
    let text = "Ocean GUI terminal workflows \u{1F642} and more";
    for breaks in [vec![], vec![3], vec![12, 20, 31], vec![31, 12, 500]] {
        let layout = test_layout(&[test_render_line(0, text, None)], vec![breaks]);
        let joined: String = layout.lines.iter().map(|line| line.text.as_str()).collect();
        assert_eq!(joined, text);
        assert!(layout.lines.last().expect("row").is_line_end);
    }
}

#[test]
fn empty_line_is_one_row() {
    let layout = test_layout(&[test_render_line(4, "", Some(0..0))], vec![]);
    assert_eq!(layout.lines.len(), 1);
    assert_eq!(layout.lines[0].source_columns, 0..0);
    assert!(layout.lines[0].is_line_end);
    assert_eq!(layout.lines[0].selected_columns, None);
    assert_eq!(layout.lines[0].style, EditorLineStyle::Body);
}

#[test]
fn measured_breaks_are_moved_to_characters() {
    assert_eq!(wrap_boundaries("a\u{1F642}b", &vec![0, 3, 5, 5, 99]), vec![1, 5]);
    assert_eq!(wrap_boundaries("abc", &vec![2, 1, 2]), vec![2]);
}

#[test]
fn last_row_of_a_line_is_found() {
    let layout = test_layout(
        &[test_render_line(7, "abcdefghijkl", None), test_render_line(8, "next", None)],
        vec![vec![4, 8], vec![]],
    );
    assert_eq!(layout.last_visual_row_for_document_line(7), Some(2));
    assert_eq!(layout.last_visual_row_for_document_line(8), Some(3));
    assert_eq!(layout.last_visual_row_for_document_line(9), None);
    assert_eq!(layout.visual_line_at_row(1).map(|line| line.text.as_str()), Some("efgh"));
    assert!(layout.visual_line_at_row(4).is_none());
}

#[test]
fn heading_style_follows_the_number_sign() {
    assert_eq!(EditorLineStyle::for_text("# Title"), EditorLineStyle::Heading);
    assert_eq!(EditorLineStyle::for_text(" # Title"), EditorLineStyle::Body);
}

#[test]
fn reaching_far_beyond_the_rows_finds_nothing() {
    let layout = test_layout(&[test_render_line(0, "ab", None)], vec![]);
    let cursor = EditorCursor { line: 0, column: 0 };
    assert_eq!(layout.cursor_after_visual_delta(cursor, isize::MAX), None);
    assert_eq!(layout.cursor_after_visual_delta(cursor, isize::MIN), None);
    assert_eq!(layout.cursor_after_visual_delta(cursor, 0), Some(cursor));
}
