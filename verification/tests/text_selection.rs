//! Tests of the text selection state machine and selected-text extraction.
use ade::code_review::diff_view::DiffRow;
use ade::code_review::text_selection::{copy_selected_text, TextSelection};
use ade::git::types::DiffLineType;


#[test]
fn test_text_selection_start_drag() {
    let mut sel = TextSelection::default();
    sel.start_drag(3, 5);
    assert_eq!(sel.anchor, Some((3, 5)));
    assert_eq!(sel.cursor, Some((3, 5)));
    assert!(sel.dragging);
}

#[test]
fn test_text_selection_update_drag() {
    let mut sel = TextSelection::default();
    sel.start_drag(3, 5);
    sel.update_drag(5, 10);
    assert_eq!(sel.cursor, Some((5, 10)));
    assert_eq!(sel.anchor, Some((3, 5))); // anchor unchanged
    assert!(sel.dragging);
}

#[test]
fn test_text_selection_update_drag_noop_when_not_dragging() {
    let mut sel = TextSelection::default();
    sel.update_drag(5, 10);
    assert_eq!(sel.cursor, None); // no change since not dragging
}

#[test]
fn test_text_selection_end_drag() {
    let mut sel = TextSelection::default();
    sel.start_drag(3, 5);
    sel.update_drag(7, 2);
    sel.end_drag();
    assert!(!sel.dragging);
    assert_eq!(sel.anchor, Some((3, 5)));
    assert_eq!(sel.cursor, Some((7, 2)));
}

#[test]
fn test_text_selection_clear() {
    let mut sel = TextSelection::default();
    sel.start_drag(3, 5);
    sel.update_drag(7, 2);
    sel.clear();
    assert_eq!(sel.anchor, None);
    assert_eq!(sel.cursor, None);
    assert!(!sel.dragging);
}

#[test]
fn test_text_selection_is_empty() {
    let sel = TextSelection::default();
    assert!(sel.is_empty());

    let mut sel2 = TextSelection::default();
    sel2.start_drag(1, 0);
    assert!(!sel2.is_empty());
}

#[test]
fn test_text_selection_normalized_range() {
    let mut sel = TextSelection::default();
    sel.anchor = Some((5, 3));
    sel.cursor = Some((2, 7));
    let range = sel.normalized_range().unwrap();
    assert_eq!(range, ((2, 7), (5, 3)));
}

#[test]
fn test_text_selection_normalized_same_row() {
    let mut sel = TextSelection::default();
    sel.anchor = Some((3, 10));
    sel.cursor = Some((3, 2));
    let range = sel.normalized_range().unwrap();
    assert_eq!(range, ((3, 2), (3, 10)));
}

#[test]
fn test_text_selection_normalized_range_none_when_empty() {
    let sel = TextSelection::default();
    assert!(sel.normalized_range().is_none());
}

#[test]
fn test_text_selection_row_is_selected() {
    let mut sel = TextSelection::default();
    sel.anchor = Some((2, 0));
    sel.cursor = Some((5, 10));
    assert!(!sel.row_is_selected(1));
    assert!(sel.row_is_selected(2));
    assert!(sel.row_is_selected(3));
    assert!(sel.row_is_selected(4));
    assert!(sel.row_is_selected(5));
    assert!(!sel.row_is_selected(6));
}

#[test]
fn test_text_selection_selection_for_row() {
    let mut sel = TextSelection::default();
    sel.anchor = Some((2, 5));
    sel.cursor = Some((5, 8));

    // Row before selection
    assert_eq!(sel.selection_for_row(1, 20), None);

    // First row of selection
    assert_eq!(sel.selection_for_row(2, 20), Some((5, 20)));

    // Middle row (fully selected)
    assert_eq!(sel.selection_for_row(3, 15), Some((0, 15)));

    // Last row of selection
    assert_eq!(sel.selection_for_row(5, 20), Some((0, 8)));

    // Row after selection
    assert_eq!(sel.selection_for_row(6, 20), None);
}

#[test]
fn test_text_selection_selection_for_row_single_row() {
    let mut sel = TextSelection::default();
    sel.anchor = Some((3, 2));
    sel.cursor = Some((3, 10));
    assert_eq!(sel.selection_for_row(3, 20), Some((2, 10)));
}

#[test]
fn test_copy_selected_text_single_row_partial() {
    let rows = vec![DiffRow::Line {
        old_lineno: Some(1),
        new_lineno: Some(1),
        content: "hello world".to_string(),
        line_type: DiffLineType::Context,
        highlights: vec![],
        intra_line_highlights: vec![],
    }];
    let result = copy_selected_text(&rows, (0, 6), (0, 11));
    assert_eq!(result, "world");
}

#[test]
fn test_copy_selected_text_multi_row() {
    let rows = vec![
        DiffRow::Line {
            old_lineno: Some(1),
            new_lineno: Some(1),
            content: "first line".to_string(),
            line_type: DiffLineType::Context,
            highlights: vec![],
            intra_line_highlights: vec![],
        },
        DiffRow::Line {
            old_lineno: Some(2),
            new_lineno: Some(2),
            content: "second line".to_string(),
            line_type: DiffLineType::Context,
            highlights: vec![],
            intra_line_highlights: vec![],
        },
        DiffRow::Line {
            old_lineno: Some(3),
            new_lineno: Some(3),
            content: "third line".to_string(),
            line_type: DiffLineType::Context,
            highlights: vec![],
            intra_line_highlights: vec![],
        },
    ];
    // Select from middle of first to middle of third
    let result = copy_selected_text(&rows, (0, 6), (2, 5));
    assert_eq!(result, "line\nsecond line\nthird");
}

#[test]
fn test_copy_selected_text_includes_hunk_header() {
    let rows = vec![
        DiffRow::HunkHeader("@@ -1,3 +1,4 @@".to_string()),
        DiffRow::Line {
            old_lineno: Some(1),
            new_lineno: Some(1),
            content: "context line".to_string(),
            line_type: DiffLineType::Context,
            highlights: vec![],
            intra_line_highlights: vec![],
        },
    ];
    // Select range covering both hunk header and line
    let result = copy_selected_text(&rows, (0, 0), (1, 7));
    assert_eq!(result, "@@ -1,3 +1,4 @@\ncontext");
}

#[test]
fn test_copy_selected_text_reversed_selection() {
    let rows = vec![
        DiffRow::Line {
            old_lineno: Some(1),
            new_lineno: Some(1),
            content: "first line".to_string(),
            line_type: DiffLineType::Context,
            highlights: vec![],
            intra_line_highlights: vec![],
        },
        DiffRow::Line {
            old_lineno: Some(2),
            new_lineno: Some(2),
            content: "second line".to_string(),
            line_type: DiffLineType::Context,
            highlights: vec![],
            intra_line_highlights: vec![],
        },
    ];
    // Reversed: end before start — should normalize
    let result = copy_selected_text(&rows, (1, 6), (0, 0));
    assert_eq!(result, "first line\nsecond");
}

#[test]
fn test_copy_selected_text_empty_rows() {
    let rows: Vec<DiffRow> = vec![];
    let result = copy_selected_text(&rows, (0, 0), (0, 5));
    assert_eq!(result, "");
}

// ---------------------------------------------------------------------------
// Additional cases
// ---------------------------------------------------------------------------

fn context_row(content: &str) -> DiffRow {
    DiffRow::Line {
        old_lineno: Some(1),
        new_lineno: Some(1),
        content: content.to_string(),
        line_type: DiffLineType::Context,
        highlights: vec![],
        intra_line_highlights: vec![],
    }
}

#[test]
fn test_copy_is_the_same_in_either_direction() {
    let rows = vec![context_row("alpha beta"), context_row("gamma"), context_row("delta")];
    assert_eq!(copy_selected_text(&rows, (0, 3), (2, 2)), copy_selected_text(&rows, (2, 2), (0, 3)));
    assert_eq!(copy_selected_text(&rows, (0, 3), (2, 2)), "ha beta\ngamma\nde");
}

#[test]
fn test_copy_clamps_columns_and_counts_characters() {
    let rows = vec![context_row("héllo"), context_row("wörld")];
    // Columns count characters, not bytes, and clamp to the line.
    assert_eq!(copy_selected_text(&rows, (0, 1), (0, 3)), "él");
    assert_eq!(copy_selected_text(&rows, (0, 4), (1, 99)), "o\nwörld");
    // An end row past the last row stops at the last row.
    assert_eq!(copy_selected_text(&rows, (1, 0), (7, 2)), "wörld");
}

#[test]
fn test_selection_consistent_with_rows() {
    let mut sel = TextSelection::default();
    sel.start_drag(4, 1);
    sel.update_drag(2, 3);
    sel.end_drag();
    sel.update_drag(9, 9);
    assert_eq!(sel.cursor, Some((2, 3)));
    assert_eq!(sel.normalized_range(), Some(((2, 3), (4, 1))));
    for row in 0..7 {
        assert_eq!(sel.row_is_selected(row), sel.selection_for_row(row, 10).is_some());
    }
    assert_eq!(sel.selection_for_row(2, 10), Some((3, 10)));
    assert_eq!(sel.selection_for_row(4, 10), Some((0, 1)));
    // The first row runs to the given content length, whatever the start column.
    assert_eq!(sel.selection_for_row(2, 2), Some((3, 2)));
}
