//! Tests of diff flattening, highlight preparation and image detection.
use ade::code_review::diff_view::{
    flatten_and_highlight_diff, flatten_diff, flatten_diff_for_copy, flatten_with_highlights,
    display_highlights, is_image_file, prepare_highlights, row_fully_selected, DiffRow, Highlight,
    HighlightKind,
};
use ade::git::types::{DiffHunk, DiffLine, DiffLineType, FileDiff};
use ade::syntax::engine::SyntaxHighlighter;

fn sample_file_diff() -> FileDiff {
    FileDiff {
        path: "src/main.rs".to_string(),
        additions: 2,
        deletions: 1,
        hunks: vec![DiffHunk {
            header: "@@ -1,3 +1,4 @@".to_string(),
            lines: vec![
                DiffLine {
                    line_type: DiffLineType::Context,
                    content: "use std::io;".to_string(),
                    old_lineno: Some(1),
                    new_lineno: Some(1),
                },
                DiffLine {
                    line_type: DiffLineType::Remove,
                    content: "fn old_func() {}".to_string(),
                    old_lineno: Some(2),
                    new_lineno: None,
                },
                DiffLine {
                    line_type: DiffLineType::Add,
                    content: "fn new_func() {}".to_string(),
                    old_lineno: None,
                    new_lineno: Some(2),
                },
                DiffLine {
                    line_type: DiffLineType::Add,
                    content: "fn another_func() {}".to_string(),
                    old_lineno: None,
                    new_lineno: Some(3),
                },
            ],
        }],
    }
}

const STYLE: HighlightKind = HighlightKind::Syntax(0);

#[test]
fn test_syntax_highlighter_initializes() {
    let _hl = SyntaxHighlighter::new();
}

#[test]
fn test_flatten_diff() {
    let file_diff = sample_file_diff();
    let rows = flatten_diff(&file_diff);
    // 1 hunk header + 4 lines = 5 rows
    assert_eq!(rows.len(), 5);
}

#[test]
fn test_prepare_highlights_sorts_and_deduplicates() {
    let text = "hello world test";
    let mut highlights: Vec<Highlight> = vec![
        (10..14, STYLE), // "test" (later in text)
        (0..5, STYLE),   // "hello" (earlier in text)
    ];
    prepare_highlights(text, &mut highlights);
    assert_eq!(highlights[0].0, 0..5);
    assert_eq!(highlights[1].0, 10..14);
}

#[test]
fn test_prepare_highlights_clips_overlap() {
    let text = "hello world test";
    let mut highlights: Vec<Highlight> = vec![(0..10, STYLE), (5..14, STYLE)];
    prepare_highlights(text, &mut highlights);
    assert_eq!(highlights[0].0, 0..10);
    // Second range should be clipped to start at 10
    assert_eq!(highlights[1].0, 10..14);
}

#[test]
fn test_prepare_highlights_snaps_multibyte_boundaries() {
    // Em dash is 3 bytes (E2 80 94) at bytes 5..8 in "hello\u{2014}world"
    let text = "hello\u{2014}world";
    let mut highlights: Vec<Highlight> = vec![(0..6, STYLE)];
    prepare_highlights(text, &mut highlights);
    // Should snap end backward to byte 5 (start of em dash)
    assert_eq!(highlights[0].0, 0..5);

    let mut highlights: Vec<Highlight> = vec![(6..13, STYLE)];
    prepare_highlights(text, &mut highlights);
    // Should snap start forward to byte 8 (end of em dash)
    assert_eq!(highlights[0].0, 8..13);
}

#[test]
fn test_prepare_highlights_empty_after_clip() {
    let text = "hello world";
    let mut highlights: Vec<Highlight> = vec![(0..10, STYLE), (3..7, STYLE)];
    prepare_highlights(text, &mut highlights);
    assert_eq!(highlights.len(), 1);
    assert_eq!(highlights[0].0, 0..10);
}

#[test]
fn test_prepare_highlights_empty_input() {
    let text = "hello";
    let mut highlights: Vec<Highlight> = vec![];
    prepare_highlights(text, &mut highlights);
    assert!(highlights.is_empty());
}

#[test]
fn test_prepare_highlights_exact_emdash_crash_scenario() {
    let text = "- \u{2713} Build script to produce Ade.app from cargo build output \u{2014} v1.1 Phase 6";
    let syntax_style = HighlightKind::Syntax(6);
    let intra_style = HighlightKind::AddedWord;

    let mut combined: Vec<Highlight> =
        vec![(0..62, syntax_style), (65..78, syntax_style), (30..50, intra_style)];
    prepare_highlights(text, &mut combined);

    let mut max_end = 0usize;
    for (range, _) in &combined {
        assert!(text.is_char_boundary(range.start), "start {} not a char boundary", range.start);
        assert!(text.is_char_boundary(range.end), "end {} not a char boundary", range.end);
        assert!(
            range.start >= max_end,
            "overlap: range {:?} starts before prev end {}",
            range,
            max_end
        );
        assert!(range.start < range.end, "empty range: {:?}", range);
        max_end = range.end;
    }
}

#[test]
fn test_flatten_and_highlight_preserves_content() {
    let mut hl = SyntaxHighlighter::new();
    let file_diff = FileDiff {
        path: "test.rs".to_string(),
        additions: 1,
        deletions: 0,
        hunks: vec![DiffHunk {
            header: "@@ -0,0 +1 @@".to_string(),
            lines: vec![DiffLine {
                line_type: DiffLineType::Add,
                content: "fn main() {}".to_string(),
                old_lineno: None,
                new_lineno: Some(1),
            }],
        }],
    };
    let rows = flatten_and_highlight_diff(&file_diff, &mut hl);
    assert_eq!(rows.len(), 2);
    if let DiffRow::Line { content, line_type, .. } = &rows[1] {
        assert_eq!(content, "fn main() {}");
        assert!(matches!(line_type, DiffLineType::Add));
    } else {
        panic!("Expected DiffRow::Line");
    }
}

#[test]
fn test_is_image_file_png() {
    assert!(is_image_file("photo.png"));
    assert!(is_image_file("photo.PNG"));
    assert!(is_image_file("dir/sub/photo.png"));
}

#[test]
fn test_is_image_file_various_extensions() {
    assert!(is_image_file("a.jpg"));
    assert!(is_image_file("a.jpeg"));
    assert!(is_image_file("a.gif"));
    assert!(is_image_file("a.webp"));
    assert!(is_image_file("a.svg"));
    assert!(is_image_file("a.bmp"));
    assert!(is_image_file("a.ico"));
    assert!(is_image_file("a.tiff"));
    assert!(is_image_file("a.tif"));
    assert!(is_image_file("a.avif"));
}

#[test]
fn test_is_image_file_non_image() {
    assert!(!is_image_file("code.rs"));
    assert!(!is_image_file("readme.md"));
    assert!(!is_image_file("noext"));
    assert!(!is_image_file("Makefile"));
    assert!(!is_image_file("data.json"));
}

// ---------------------------------------------------------------------------
// Additional cases
// ---------------------------------------------------------------------------

#[test]
fn test_flatten_diff_rows_exact() {
    let rows = flatten_diff(&sample_file_diff());
    match &rows[0] {
        DiffRow::HunkHeader(h) => assert_eq!(h, "@@ -1,3 +1,4 @@"),
        _ => panic!("expected a header"),
    }
    match &rows[2] {
        DiffRow::Line { old_lineno, new_lineno, content, line_type, highlights, intra_line_highlights } => {
            assert_eq!((*old_lineno, *new_lineno), (Some(2), None));
            assert_eq!(content, "fn old_func() {}");
            assert_eq!(*line_type, DiffLineType::Remove);
            assert!(highlights.is_empty() && intra_line_highlights.is_empty());
        },
        _ => panic!("expected a line"),
    }
    assert_eq!(flatten_diff_for_copy(&sample_file_diff()).len(), 5);
}

#[test]
fn test_flatten_with_highlights_places_spans_and_pairs() {
    let per_row: Vec<Vec<Highlight>> =
        vec![vec![], vec![(0..3, HighlightKind::Syntax(0))], vec![], vec![], vec![]];
    let rows = flatten_with_highlights(&sample_file_diff(), per_row);
    assert_eq!(rows.len(), 5);
    match &rows[1] {
        DiffRow::Line { highlights, intra_line_highlights, .. } => {
            assert_eq!(highlights, &vec![(0..3, HighlightKind::Syntax(0))]);
            assert!(intra_line_highlights.is_empty());
        },
        _ => panic!("expected a line"),
    }
    // The remove pairs with the first add: their changed words are marked.
    match (&rows[2], &rows[3]) {
        (
            DiffRow::Line { intra_line_highlights: removed, .. },
            DiffRow::Line { intra_line_highlights: added, .. },
        ) => {
            assert_eq!(removed, &vec![(3..11, HighlightKind::RemovedWord)]);
            assert_eq!(added, &vec![(3..11, HighlightKind::AddedWord)]);
        },
        _ => panic!("expected lines"),
    }
}

#[test]
fn test_is_image_file_uses_last_dot_only() {
    assert!(is_image_file("archive.tar.png"));
    assert!(!is_image_file("image.png.bak"));
    assert!(is_image_file(".svg"));
    // A path without a dot is taken whole as its extension.
    assert!(is_image_file("png"));
}

#[test]
fn test_display_highlights_merges_syntax_and_words() {
    let text = "let x = 1;";
    let syntax: Vec<Highlight> = vec![(0..3, HighlightKind::Syntax(3)), (8..9, HighlightKind::Syntax(7))];
    let intra: Vec<Highlight> = vec![(4..5, HighlightKind::AddedWord), (2..6, HighlightKind::RemovedWord)];
    let shown = display_highlights(text, &syntax, &intra);
    assert_eq!(
        shown,
        vec![
            (0..3, HighlightKind::Syntax(3)),
            (3..6, HighlightKind::RemovedWord),
            (8..9, HighlightKind::Syntax(7)),
        ]
    );
    assert!(display_highlights(text, &vec![], &vec![]).is_empty());
    assert_eq!(
        display_highlights("héllo", &vec![(2..4, HighlightKind::Syntax(1))], &vec![]),
        vec![(3..4, HighlightKind::Syntax(1))]
    );
}

#[test]
fn test_row_fully_selected() {
    assert!(row_fully_selected(Some((0, 5)), 5));
    assert!(row_fully_selected(Some((0, 9)), 5));
    assert!(!row_fully_selected(Some((1, 5)), 5));
    assert!(!row_fully_selected(Some((0, 4)), 5));
    assert!(!row_fully_selected(None, 5));
    assert!(row_fully_selected(Some((0, 0)), 0));
}
