//! Tests of side reconstruction and diff highlighting.
use ade::git::types::{DiffHunk, DiffLine, DiffLineType, FileDiff};
use ade::syntax::engine::{join_queries, SyntaxHighlighter};
use ade::syntax::highlighter::reconstruct_sides;


#[test]
fn test_reconstruct_new_side() {
    let file_diff = FileDiff {
        path: "test.rs".to_string(),
        additions: 1,
        deletions: 1,
        hunks: vec![DiffHunk {
            header: "@@ -1,2 +1,2 @@".to_string(),
            lines: vec![
                DiffLine {
                    line_type: DiffLineType::Context,
                    content: "use std::io;".to_string(),
                    old_lineno: Some(1),
                    new_lineno: Some(1),
                },
                DiffLine {
                    line_type: DiffLineType::Remove,
                    content: "fn old() {}".to_string(),
                    old_lineno: Some(2),
                    new_lineno: None,
                },
                DiffLine {
                    line_type: DiffLineType::Add,
                    content: "fn new() {}".to_string(),
                    old_lineno: None,
                    new_lineno: Some(2),
                },
            ],
        }],
    };

    let (new_side, new_offsets, old_side, old_offsets) = reconstruct_sides(&file_diff);

    // New side should contain Context + Add lines
    assert!(new_side.contains("use std::io;"));
    assert!(new_side.contains("fn new() {}"));
    assert!(!new_side.contains("fn old() {}"));
    assert_eq!(new_offsets.len(), 2); // context + add

    // Old side should contain Context + Remove lines
    assert!(old_side.contains("use std::io;"));
    assert!(old_side.contains("fn old() {}"));
    assert!(!old_side.contains("fn new() {}"));
    assert_eq!(old_offsets.len(), 2); // context + remove
}

#[test]
fn test_reconstruct_old_side() {
    let file_diff = FileDiff {
        path: "test.rs".to_string(),
        additions: 0,
        deletions: 2,
        hunks: vec![DiffHunk {
            header: "@@ -1,3 +1,1 @@".to_string(),
            lines: vec![
                DiffLine {
                    line_type: DiffLineType::Context,
                    content: "line1".to_string(),
                    old_lineno: Some(1),
                    new_lineno: Some(1),
                },
                DiffLine {
                    line_type: DiffLineType::Remove,
                    content: "line2".to_string(),
                    old_lineno: Some(2),
                    new_lineno: None,
                },
                DiffLine {
                    line_type: DiffLineType::Remove,
                    content: "line3".to_string(),
                    old_lineno: Some(3),
                    new_lineno: None,
                },
            ],
        }],
    };

    let (_new_side, _new_offsets, old_side, old_offsets) = reconstruct_sides(&file_diff);
    assert!(old_side.contains("line1"));
    assert!(old_side.contains("line2"));
    assert!(old_side.contains("line3"));
    assert_eq!(old_offsets.len(), 3);
}

#[test]
fn test_highlight_diff_rust_file() {
    let mut hl = SyntaxHighlighter::new();
    let file_diff = FileDiff {
        path: "src/main.rs".to_string(),
        additions: 1,
        deletions: 0,
        hunks: vec![DiffHunk {
            header: "@@ -0,0 +1 @@".to_string(),
            lines: vec![DiffLine {
                line_type: DiffLineType::Add,
                content: "fn main() { let x = 42; }".to_string(),
                old_lineno: None,
                new_lineno: Some(1),
            }],
        }],
    };

    let highlights = hl.highlight_diff(&file_diff);
    // 1 hunk header + 1 line = 2 rows
    assert_eq!(highlights.len(), 2);
    // Hunk header should have no highlights
    assert!(highlights[0].is_empty());
    // The Rust line should have some highlights
    assert!(
        !highlights[1].is_empty(),
        "Rust code should produce highlights"
    );
}

#[test]
fn test_highlight_diff_unknown_extension() {
    let mut hl = SyntaxHighlighter::new();
    let file_diff = FileDiff {
        path: "Makefile.weird_ext_xyz".to_string(),
        additions: 1,
        deletions: 0,
        hunks: vec![DiffHunk {
            header: "@@ -0,0 +1 @@".to_string(),
            lines: vec![DiffLine {
                line_type: DiffLineType::Add,
                content: "hello world".to_string(),
                old_lineno: None,
                new_lineno: Some(1),
            }],
        }],
    };

    let highlights = hl.highlight_diff(&file_diff);
    assert_eq!(highlights.len(), 2);
    // All rows should have empty highlights for unknown language
    assert!(highlights.iter().all(|h| h.is_empty()));
}

#[test]
fn test_size_guard() {
    let mut hl = SyntaxHighlighter::new();
    // Create content over 500KB
    let big_line = "fn func() { let x = 42; }\n".repeat(25_000); // ~650KB
    let file_diff = FileDiff {
        path: "big.rs".to_string(),
        additions: 25_000,
        deletions: 0,
        hunks: vec![DiffHunk {
            header: "@@ -0,0 +1,25000 @@".to_string(),
            lines: (1..=25_000)
                .map(|i| DiffLine {
                    line_type: DiffLineType::Add,
                    content: format!("fn func_{}() {{ let x = {}; }}", i, i),
                    old_lineno: None,
                    new_lineno: Some(i as u32),
                })
                .collect(),
        }],
    };

    let highlights = hl.highlight_diff(&file_diff);
    // Should return vec of empty vecs due to size guard
    assert_eq!(highlights.len(), 1 + 25_000); // 1 header + 25000 lines
    assert!(
        highlights.iter().all(|h| h.is_empty()),
        "Size guard should produce empty highlights"
    );
}

#[test]
fn test_gap_markers_at_hunk_boundaries() {
    let file_diff = FileDiff {
        path: "test.rs".to_string(),
        additions: 2,
        deletions: 0,
        hunks: vec![
            DiffHunk {
                header: "@@ -1,1 +1,2 @@".to_string(),
                lines: vec![
                    DiffLine {
                        line_type: DiffLineType::Context,
                        content: "line1".to_string(),
                        old_lineno: Some(1),
                        new_lineno: Some(1),
                    },
                    DiffLine {
                        line_type: DiffLineType::Add,
                        content: "line2".to_string(),
                        old_lineno: None,
                        new_lineno: Some(2),
                    },
                ],
            },
            DiffHunk {
                header: "@@ -10,1 +11,2 @@".to_string(),
                lines: vec![
                    DiffLine {
                        line_type: DiffLineType::Context,
                        content: "line10".to_string(),
                        old_lineno: Some(10),
                        new_lineno: Some(11),
                    },
                    DiffLine {
                        line_type: DiffLineType::Add,
                        content: "line11".to_string(),
                        old_lineno: None,
                        new_lineno: Some(12),
                    },
                ],
            },
        ],
    };

    let (new_side, _new_offsets, _old_side, _old_offsets) = reconstruct_sides(&file_diff);
    // Should contain gap marker (extra newline) between non-contiguous line numbers
    // Line 2 -> Line 11 is non-contiguous, so there should be a gap
    let lines: Vec<&str> = new_side.split('\n').collect();
    // Content should be: line1, line2, (gap), line10, line11, (trailing empty)
    assert!(
        lines.len() > 4,
        "Should have gap markers between non-contiguous hunks, got {} lines",
        lines.len()
    );
}

#[test]
fn test_html_injection_javascript() {
    let mut hl = SyntaxHighlighter::new();
    let file_diff = FileDiff {
        path: "test.html".to_string(),
        additions: 1,
        deletions: 0,
        hunks: vec![DiffHunk {
            header: "@@ -0,0 +1,5 @@".to_string(),
            lines: vec![
                DiffLine {
                    line_type: DiffLineType::Add,
                    content: "<html><body>".to_string(),
                    old_lineno: None,
                    new_lineno: Some(1),
                },
                DiffLine {
                    line_type: DiffLineType::Add,
                    content: "<script>".to_string(),
                    old_lineno: None,
                    new_lineno: Some(2),
                },
                DiffLine {
                    line_type: DiffLineType::Add,
                    content: "let x = 42;".to_string(),
                    old_lineno: None,
                    new_lineno: Some(3),
                },
                DiffLine {
                    line_type: DiffLineType::Add,
                    content: "</script>".to_string(),
                    old_lineno: None,
                    new_lineno: Some(4),
                },
                DiffLine {
                    line_type: DiffLineType::Add,
                    content: "</body></html>".to_string(),
                    old_lineno: None,
                    new_lineno: Some(5),
                },
            ],
        }],
    };

    let highlights = hl.highlight_diff(&file_diff);
    // 1 hunk header + 5 lines = 6 rows
    assert_eq!(highlights.len(), 6);
    // Row 3 (index 3) is "let x = 42;" which should have JS highlights
    assert!(
        !highlights[3].is_empty(),
        "JS content inside <script> should produce highlights"
    );
}

#[test]
fn test_html_injection_css() {
    let mut hl = SyntaxHighlighter::new();
    let file_diff = FileDiff {
        path: "test.html".to_string(),
        additions: 1,
        deletions: 0,
        hunks: vec![DiffHunk {
            header: "@@ -0,0 +1,5 @@".to_string(),
            lines: vec![
                DiffLine {
                    line_type: DiffLineType::Add,
                    content: "<html><head>".to_string(),
                    old_lineno: None,
                    new_lineno: Some(1),
                },
                DiffLine {
                    line_type: DiffLineType::Add,
                    content: "<style>".to_string(),
                    old_lineno: None,
                    new_lineno: Some(2),
                },
                DiffLine {
                    line_type: DiffLineType::Add,
                    content: "body { color: red; }".to_string(),
                    old_lineno: None,
                    new_lineno: Some(3),
                },
                DiffLine {
                    line_type: DiffLineType::Add,
                    content: "</style>".to_string(),
                    old_lineno: None,
                    new_lineno: Some(4),
                },
                DiffLine {
                    line_type: DiffLineType::Add,
                    content: "</head></html>".to_string(),
                    old_lineno: None,
                    new_lineno: Some(5),
                },
            ],
        }],
    };

    let highlights = hl.highlight_diff(&file_diff);
    assert_eq!(highlights.len(), 6);
    // Row 3 (index 3) is "body { color: red; }" which should have CSS highlights
    assert!(
        !highlights[3].is_empty(),
        "CSS content inside <style> should produce highlights"
    );
}

#[test]
fn test_injection_callback_returns_none_for_unknown() {
    let mut hl = SyntaxHighlighter::new();
    // HTML file with no script/style tags -- injection callback returns None, no crash
    let file_diff = FileDiff {
        path: "test.html".to_string(),
        additions: 1,
        deletions: 0,
        hunks: vec![DiffHunk {
            header: "@@ -0,0 +1 @@".to_string(),
            lines: vec![DiffLine {
                line_type: DiffLineType::Add,
                content: "<html><body><p>Hello</p></body></html>".to_string(),
                old_lineno: None,
                new_lineno: Some(1),
            }],
        }],
    };

    let highlights = hl.highlight_diff(&file_diff);
    assert_eq!(highlights.len(), 2);
    // Should not crash -- just produce whatever HTML highlights exist
}

#[test]
fn test_highlight_diff_multi_hunk() {
    let mut hl = SyntaxHighlighter::new();
    let file_diff = FileDiff {
        path: "test.rs".to_string(),
        additions: 2,
        deletions: 1,
        hunks: vec![
            DiffHunk {
                header: "@@ -1,2 +1,2 @@".to_string(),
                lines: vec![
                    DiffLine {
                        line_type: DiffLineType::Context,
                        content: "use std::io;".to_string(),
                        old_lineno: Some(1),
                        new_lineno: Some(1),
                    },
                    DiffLine {
                        line_type: DiffLineType::Remove,
                        content: "fn old() {}".to_string(),
                        old_lineno: Some(2),
                        new_lineno: None,
                    },
                    DiffLine {
                        line_type: DiffLineType::Add,
                        content: "fn new_func() {}".to_string(),
                        old_lineno: None,
                        new_lineno: Some(2),
                    },
                ],
            },
            DiffHunk {
                header: "@@ -10,1 +10,2 @@".to_string(),
                lines: vec![DiffLine {
                    line_type: DiffLineType::Add,
                    content: "let y = 100;".to_string(),
                    old_lineno: None,
                    new_lineno: Some(10),
                }],
            },
        ],
    };

    let highlights = hl.highlight_diff(&file_diff);
    // 2 hunk headers + 4 lines = 6 rows
    assert_eq!(highlights.len(), 6);
}

// ---------------------------------------------------------------------------
// Additional cases
// ---------------------------------------------------------------------------

fn line(t: DiffLineType, content: &str, old: Option<u32>, new: Option<u32>) -> DiffLine {
    DiffLine { line_type: t, content: content.to_string(), old_lineno: old, new_lineno: new }
}

#[test]
fn test_reconstruct_sides_exact_text_and_offsets() {
    let file_diff = FileDiff {
        path: "a.rs".to_string(),
        additions: 1,
        deletions: 1,
        hunks: vec![
            DiffHunk {
                header: "@@ -1,2 +1,2 @@".to_string(),
                lines: vec![
                    line(DiffLineType::Context, "ab", Some(1), Some(1)),
                    line(DiffLineType::Remove, "cd", Some(2), None),
                    line(DiffLineType::Add, "éf", None, Some(2)),
                ],
            },
            DiffHunk {
                header: "@@ -9 +9 @@".to_string(),
                lines: vec![line(DiffLineType::Context, "z", Some(9), Some(9))],
            },
        ],
    };
    let (new_side, new_offsets, old_side, old_offsets) = reconstruct_sides(&file_diff);
    // Rows: 0 header, 1 ab, 2 cd, 3 éf, 4 header, 5 z. A gap before line 9
    // on both sides.
    assert_eq!(new_side, "ab\néf\n\nz\n");
    assert_eq!(new_offsets, vec![(0, 2, 1), (3, 6, 3), (8, 9, 5)]);
    assert_eq!(old_side, "ab\ncd\n\nz\n");
    assert_eq!(old_offsets, vec![(0, 2, 1), (3, 5, 2), (7, 8, 5)]);
}

#[test]
fn test_highlight_diff_rows_match_flattened_rows() {
    let mut hl = SyntaxHighlighter::new();
    let file_diff = FileDiff {
        path: "src/lib.rs".to_string(),
        additions: 1,
        deletions: 1,
        hunks: vec![DiffHunk {
            header: "@@ -1 +1 @@".to_string(),
            lines: vec![
                line(DiffLineType::Remove, "const A: u32 = 1;", Some(1), None),
                line(DiffLineType::Add, "const A: u32 = 2;", None, Some(1)),
            ],
        }],
    };
    let highlights = hl.highlight_diff(&file_diff);
    assert_eq!(highlights.len(), 3);
    assert!(highlights[0].is_empty());
    for row in 1..3 {
        assert!(!highlights[row].is_empty());
        for (range, _) in &highlights[row] {
            assert!(range.start < range.end && range.end <= "const A: u32 = 1;".len());
        }
    }
}

#[test]
fn test_join_queries() {
    assert_eq!(join_queries("(a) @x", "(b) @y"), "(a) @x\n(b) @y");
    assert_eq!(join_queries("", ""), "\n");
}

#[test]
fn test_sides_hold_their_lines_at_their_offsets() {
    let file_diff = FileDiff {
        path: "a.rs".to_string(),
        additions: 1,
        deletions: 1,
        hunks: vec![
            DiffHunk {
                header: "@@ -1,2 +1,2 @@".to_string(),
                lines: vec![
                    DiffLine { line_type: DiffLineType::Context, content: "héllo".to_string(), old_lineno: Some(1), new_lineno: Some(1) },
                    DiffLine { line_type: DiffLineType::Remove, content: "old".to_string(), old_lineno: Some(2), new_lineno: None },
                    DiffLine { line_type: DiffLineType::Add, content: "new".to_string(), old_lineno: None, new_lineno: Some(2) },
                ],
            },
            DiffHunk {
                header: "@@ -9 +9 @@".to_string(),
                lines: vec![
                    DiffLine { line_type: DiffLineType::Context, content: "tail".to_string(), old_lineno: Some(9), new_lineno: Some(9) },
                ],
            },
        ],
    };
    let (new_side, new_offsets, old_side, old_offsets) = reconstruct_sides(&file_diff);
    let rows: Vec<&str> = vec!["", "héllo", "old", "new", "", "tail"];
    for (side, offsets) in [(&new_side, &new_offsets), (&old_side, &old_offsets)] {
        let mut last_row = None;
        let mut last_end = None;
        for &(s, e, k) in offsets.iter() {
            assert_eq!(&side[s..e], rows[k]);
            assert_eq!(side.as_bytes()[e], b'\n');
            if let Some(r) = last_row { assert!(r < k); }
            if let Some(x) = last_end { assert!(x < s); }
            last_row = Some(k);
            last_end = Some(e);
        }
    }
    assert_eq!(new_offsets.iter().map(|o| o.2).collect::<Vec<_>>(), vec![1, 3, 5]);
    assert_eq!(old_offsets.iter().map(|o| o.2).collect::<Vec<_>>(), vec![1, 2, 5]);
}

#[test]
fn test_highlight_diff_cpp_uses_c_and_cpp_queries() {
    let mut hl = SyntaxHighlighter::new();
    let file_diff = FileDiff {
        path: "src/widget.cpp".to_string(),
        additions: 1,
        deletions: 0,
        hunks: vec![DiffHunk {
            header: "@@ -0,0 +1 @@".to_string(),
            lines: vec![DiffLine {
                line_type: DiffLineType::Add,
                content: "class W { public: int f() { return 0; } };".to_string(),
                old_lineno: None,
                new_lineno: Some(1),
            }],
        }],
    };
    let highlights = hl.highlight_diff(&file_diff);
    assert_eq!(highlights.len(), 2);
    assert!(highlights[0].is_empty());
    assert!(!highlights[1].is_empty(), "C++ code should produce highlights");
    // Every span lies inside the line.
    for (r, _) in &highlights[1] {
        assert!(r.start < r.end && r.end <= file_diff.hunks[0].lines[0].content.len());
    }
}

#[test]
fn test_context_lines_take_new_side_colours() {
    let line = |t: DiffLineType, c: &str, o: Option<u32>, n: Option<u32>| DiffLine {
        line_type: t,
        content: c.to_string(),
        old_lineno: o,
        new_lineno: n,
    };
    // On the old side the context line sits inside an unclosed block comment.
    let with_comment = FileDiff {
        path: "lib.rs".to_string(),
        additions: 1,
        deletions: 1,
        hunks: vec![DiffHunk {
            header: "@@ -1,2 +1,2 @@".to_string(),
            lines: vec![
                line(DiffLineType::Remove, "/*", Some(1), None),
                line(DiffLineType::Add, "let a = 1;", None, Some(1)),
                line(DiffLineType::Context, "let b = 2;", Some(2), Some(2)),
            ],
        }],
    };
    let new_only = FileDiff {
        path: "lib.rs".to_string(),
        additions: 1,
        deletions: 0,
        hunks: vec![DiffHunk {
            header: "@@ -1 +1,2 @@".to_string(),
            lines: vec![
                line(DiffLineType::Add, "let a = 1;", None, Some(1)),
                line(DiffLineType::Context, "let b = 2;", Some(1), Some(2)),
            ],
        }],
    };
    let mut hl = SyntaxHighlighter::new();
    let a = hl.highlight_diff(&with_comment);
    let b = hl.highlight_diff(&new_only);
    assert_eq!(a.len(), 4);
    assert!(!a[3].is_empty());
    assert_eq!(a[3], b[2], "the context row takes the new side's spans");
    assert!(!a[1].is_empty(), "the removed row takes the old side's spans");
}

/// Per-line highlight spans of `source`, highlighted as the new side of a
/// diff that adds every line of it to a file named `file`.
fn highlight_file(hl: &mut SyntaxHighlighter, source: &str, file: &str) -> Vec<Vec<(std::ops::Range<usize>, ade::code_review::diff_view::HighlightKind)>> {
    let lines: Vec<DiffLine> = if source.is_empty() {
        Vec::new()
    } else {
        source
            .split('\n')
            .enumerate()
            .map(|(i, l)| DiffLine {
                line_type: DiffLineType::Add,
                content: l.to_string(),
                old_lineno: None,
                new_lineno: Some(i as u32 + 1),
            })
            .collect()
    };
    let hunks = if lines.is_empty() {
        Vec::new()
    } else {
        vec![DiffHunk { header: "@@ -0,0 +1 @@".to_string(), lines }]
    };
    let file_diff = FileDiff { path: file.to_string(), additions: 0, deletions: 0, hunks };
    let mut rows = hl.highlight_diff(&file_diff);
    if !rows.is_empty() {
        rows.remove(0);
    }
    rows
}

#[test]
fn test_highlight_file_rust_returns_non_empty() {
    let mut hl = SyntaxHighlighter::new();
    let source = "fn main() { let x = 42; }";
    let spans = highlight_file(&mut hl, source, "main.rs");
    assert!(!spans.is_empty(), "Should return at least one line");
    let has_highlights = spans.iter().any(|line| !line.is_empty());
    assert!(has_highlights, "Rust code should produce some highlights");
}

#[test]
fn test_highlight_file_empty_input() {
    let mut hl = SyntaxHighlighter::new();
    let spans = highlight_file(&mut hl, "", "main.rs");
    assert!(spans.is_empty(), "Empty input should return empty Vec");
}

#[test]
fn test_highlight_file_unknown_language() {
    let mut hl = SyntaxHighlighter::new();
    let spans = highlight_file(&mut hl, "some content here", "notes.unknownext");
    assert!(!spans.is_empty(), "Should return entries for each line");
    assert!(
        spans.iter().all(|line| line.is_empty()),
        "Unknown language should produce empty highlights for all lines"
    );
}

#[test]
fn test_line_byte_offsets_mapping() {
    let mut hl = SyntaxHighlighter::new();
    let source = "fn main() {\n    let x = 42;\n}";
    let spans = highlight_file(&mut hl, source, "main.rs");
    assert_eq!(spans.len(), 3, "Should have 3 lines");
    for (line_idx, line_spans) in spans.iter().enumerate() {
        let line_content = source.split('\n').nth(line_idx).unwrap();
        for (range, _style) in line_spans {
            assert!(
                range.end <= line_content.len(),
                "Range {:?} exceeds line {} length {} (content: {:?})",
                range,
                line_idx,
                line_content.len(),
                line_content
            );
        }
    }
}

#[test]
fn test_multibyte_utf8_no_panic() {
    let mut hl = SyntaxHighlighter::new();
    let source = "let emoji = \"hello\";\nlet cjk = \"test\";";
    let spans = highlight_file(&mut hl, source, "main.rs");
    assert!(!spans.is_empty());
}
