//! Tests of the word tokenizer, the word diff and intra-line pairing.
use ade::code_review::diff_view::{DiffRow, HighlightKind};
use ade::code_review::intra_line::{compute_intra_line_highlights, tokenize, word_diff};
use ade::git::types::DiffLineType;


// === Tokenizer tests ===

#[test]
fn test_tokenize_mixed() {
    let tokens = tokenize("fn foo(bar)");
    let texts: Vec<&str> = tokens.iter().map(|t| t.text).collect();
    assert_eq!(texts, vec!["fn", " ", "foo", "(", "bar", ")"]);
    // Verify byte ranges reconstruct original
    let reconstructed: String = tokens.iter().map(|t| t.text).collect();
    assert_eq!(reconstructed, "fn foo(bar)");
}

#[test]
fn test_tokenize_empty() {
    let tokens = tokenize("");
    assert!(tokens.is_empty());
}

#[test]
fn test_tokenize_single_word() {
    let tokens = tokenize("hello");
    assert_eq!(tokens.len(), 1);
    assert_eq!(tokens[0].text, "hello");
    assert_eq!(tokens[0].start, 0);
}

#[test]
fn test_tokenize_byte_ranges() {
    let tokens = tokenize("fn foo(bar)");
    // "fn" starts at 0, " " at 2, "foo" at 3, "(" at 6, "bar" at 7, ")" at 10
    assert_eq!(tokens[0].start, 0);
    assert_eq!(tokens[1].start, 2);
    assert_eq!(tokens[2].start, 3);
    assert_eq!(tokens[3].start, 6);
    assert_eq!(tokens[4].start, 7);
    assert_eq!(tokens[5].start, 10);
}

// === Word diff tests ===

#[test]
fn test_word_diff_single_change() {
    let (old_ranges, new_ranges) = word_diff("hello world", "hello earth");
    // "world" at bytes 6..11, "earth" at bytes 6..11
    assert_eq!(old_ranges.len(), 1);
    assert_eq!(old_ranges[0], 6..11);
    assert_eq!(new_ranges.len(), 1);
    assert_eq!(new_ranges[0], 6..11);
}

#[test]
fn test_word_diff_function_rename() {
    let (old_ranges, new_ranges) = word_diff("fn old_func() {}", "fn new_func() {}");
    // Only "old_func" and "new_func" should differ
    assert_eq!(old_ranges.len(), 1);
    assert_eq!(new_ranges.len(), 1);
    assert_eq!(&"fn old_func() {}"[old_ranges[0].clone()], "old_func");
    assert_eq!(&"fn new_func() {}"[new_ranges[0].clone()], "new_func");
}

#[test]
fn test_word_diff_identical() {
    let (old_ranges, new_ranges) = word_diff("identical", "identical");
    assert!(old_ranges.is_empty());
    assert!(new_ranges.is_empty());
}

#[test]
fn test_word_diff_empty_old() {
    let (old_ranges, new_ranges) = word_diff("", "new content");
    assert!(old_ranges.is_empty());
    assert!(new_ranges.is_empty());
}

#[test]
fn test_word_diff_empty_new() {
    let (old_ranges, new_ranges) = word_diff("old content", "");
    assert!(old_ranges.is_empty());
    assert!(new_ranges.is_empty());
}

#[test]
fn test_word_diff_unicode() {
    let (old_ranges, new_ranges) = word_diff("hello cafe\u{0301}", "hello world");
    // cafe\u{0301} is "cafe" + combining accent = multi-byte
    // Both sides should have changed spans
    assert!(!old_ranges.is_empty());
    assert!(!new_ranges.is_empty());
    // Verify ranges are valid byte ranges
    let old_str = "hello cafe\u{0301}";
    for r in &old_ranges {
        let _ = &old_str[r.clone()]; // should not panic
    }
}

// === Pair detection tests ===

fn make_line(line_type: DiffLineType, content: &str) -> DiffRow {
    DiffRow::Line {
        old_lineno: None,
        new_lineno: None,
        content: content.to_string(),
        line_type,
        highlights: vec![],
        intra_line_highlights: vec![],
    }
}

#[test]
fn test_pair_detection_single_pair() {
    let mut rows = vec![
        DiffRow::HunkHeader("@@ -1,1 +1,1 @@".to_string()),
        make_line(DiffLineType::Remove, "fn old_func() {}"),
        make_line(DiffLineType::Add, "fn new_func() {}"),
    ];
    compute_intra_line_highlights(&mut rows);

    // Remove line should have intra-line highlights
    if let DiffRow::Line {
        intra_line_highlights,
        ..
    } = &rows[1]
    {
        assert!(
            !intra_line_highlights.is_empty(),
            "Remove line should have intra-line highlights"
        );
    }
    // Add line should have intra-line highlights
    if let DiffRow::Line {
        intra_line_highlights,
        ..
    } = &rows[2]
    {
        assert!(
            !intra_line_highlights.is_empty(),
            "Add line should have intra-line highlights"
        );
    }
}

#[test]
fn test_pair_detection_unequal_counts() {
    // 3 Removes followed by 2 Adds: first 2 pair, 3rd Remove gets nothing
    let mut rows = vec![
        DiffRow::HunkHeader("@@ -1,3 +1,2 @@".to_string()),
        make_line(DiffLineType::Remove, "line one old"),
        make_line(DiffLineType::Remove, "line two old"),
        make_line(DiffLineType::Remove, "line three old"),
        make_line(DiffLineType::Add, "line one new"),
        make_line(DiffLineType::Add, "line two new"),
    ];
    compute_intra_line_highlights(&mut rows);

    // First 2 removes should be paired
    if let DiffRow::Line {
        intra_line_highlights,
        ..
    } = &rows[1]
    {
        assert!(
            !intra_line_highlights.is_empty(),
            "1st Remove should be paired"
        );
    }
    if let DiffRow::Line {
        intra_line_highlights,
        ..
    } = &rows[2]
    {
        assert!(
            !intra_line_highlights.is_empty(),
            "2nd Remove should be paired"
        );
    }
    // 3rd remove should NOT be paired
    if let DiffRow::Line {
        intra_line_highlights,
        ..
    } = &rows[3]
    {
        assert!(
            intra_line_highlights.is_empty(),
            "3rd Remove should NOT be paired"
        );
    }
}

#[test]
fn test_pair_detection_standalone_remove() {
    // Remove followed by Context (not Add) -- no pairing
    let mut rows = vec![
        DiffRow::HunkHeader("@@ -1,2 +1,1 @@".to_string()),
        make_line(DiffLineType::Remove, "deleted line"),
        make_line(DiffLineType::Context, "context line"),
    ];
    compute_intra_line_highlights(&mut rows);

    if let DiffRow::Line {
        intra_line_highlights,
        ..
    } = &rows[1]
    {
        assert!(
            intra_line_highlights.is_empty(),
            "Standalone Remove should have no intra-line highlights"
        );
    }
}

#[test]
fn test_pair_detection_no_cross_hunk() {
    // Hunk 1 ends with Remove, Hunk 2 starts with Add -- should NOT pair
    let mut rows = vec![
        DiffRow::HunkHeader("@@ -1,1 +1,0 @@".to_string()),
        make_line(DiffLineType::Remove, "removed in hunk 1"),
        DiffRow::HunkHeader("@@ -10,0 +10,1 @@".to_string()),
        make_line(DiffLineType::Add, "added in hunk 2"),
    ];
    compute_intra_line_highlights(&mut rows);

    if let DiffRow::Line {
        intra_line_highlights,
        ..
    } = &rows[1]
    {
        assert!(
            intra_line_highlights.is_empty(),
            "Remove in hunk 1 should NOT pair with Add in hunk 2"
        );
    }
    if let DiffRow::Line {
        intra_line_highlights,
        ..
    } = &rows[3]
    {
        assert!(
            intra_line_highlights.is_empty(),
            "Add in hunk 2 should NOT pair with Remove in hunk 1"
        );
    }
}

#[test]
fn test_compute_highlights_populates_paired_leaves_unpaired() {
    let mut rows = vec![
        DiffRow::HunkHeader("@@ -1,3 +1,3 @@".to_string()),
        make_line(DiffLineType::Context, "unchanged"),
        make_line(DiffLineType::Remove, "fn old_func() {}"),
        make_line(DiffLineType::Add, "fn new_func() {}"),
    ];
    compute_intra_line_highlights(&mut rows);

    // Context line should have no highlights
    if let DiffRow::Line {
        intra_line_highlights,
        ..
    } = &rows[1]
    {
        assert!(
            intra_line_highlights.is_empty(),
            "Context line should have no highlights"
        );
    }
    // Remove and Add should have highlights
    if let DiffRow::Line {
        intra_line_highlights,
        ..
    } = &rows[2]
    {
        assert!(!intra_line_highlights.is_empty());
        // Changed words of a removed line
        assert!(matches!(intra_line_highlights[0].1, HighlightKind::RemovedWord | HighlightKind::AddedWord));
    }
    if let DiffRow::Line {
        intra_line_highlights,
        ..
    } = &rows[3]
    {
        assert!(!intra_line_highlights.is_empty());
        // Changed words of an added line
        assert!(matches!(intra_line_highlights[0].1, HighlightKind::RemovedWord | HighlightKind::AddedWord));
    }
}

#[test]
fn test_highlight_colors_correct() {
    let mut rows = vec![
        DiffRow::HunkHeader("@@".to_string()),
        make_line(DiffLineType::Remove, "old_word"),
        make_line(DiffLineType::Add, "new_word"),
    ];
    compute_intra_line_highlights(&mut rows);

    // Remove line: removed-word spans
    if let DiffRow::Line {
        intra_line_highlights,
        ..
    } = &rows[1]
    {
        assert!(!intra_line_highlights.is_empty());
        assert_eq!(intra_line_highlights[0].1, HighlightKind::RemovedWord);
    }

    // Add line: added-word spans
    if let DiffRow::Line {
        intra_line_highlights,
        ..
    } = &rows[2]
    {
        assert!(!intra_line_highlights.is_empty());
        assert_eq!(intra_line_highlights[0].1, HighlightKind::AddedWord);
    }
}

// ---------------------------------------------------------------------------
// Additional cases
// ---------------------------------------------------------------------------

fn intra(row: &DiffRow) -> Vec<(std::ops::Range<usize>, HighlightKind)> {
    match row {
        DiffRow::Line { intra_line_highlights, .. } => intra_line_highlights.clone(),
        DiffRow::HunkHeader(_) => vec![],
    }
}

#[test]
fn test_tokenize_reconstructs_unicode_line() {
    let line = "héllo, wörld_1 + ß";
    let tokens = tokenize(line);
    let joined: String = tokens.iter().map(|t| t.text).collect();
    assert_eq!(joined, line);
    for t in &tokens {
        assert_eq!(&line[t.start..t.start + t.text.len()], t.text);
    }
    let texts: Vec<&str> = tokens.iter().map(|t| t.text).collect();
    assert_eq!(texts, vec!["héllo", ", ", "wörld_1", " + ", "ß"]);
}

#[test]
fn test_word_diff_exact_ranges() {
    let (old_ranges, new_ranges) = word_diff("let x = 1;", "let y = 2;");
    assert_eq!(old_ranges, vec![4..5, 8..9]);
    assert_eq!(new_ranges, vec![4..5, 8..9]);
    let (old_ranges, new_ranges) = word_diff("a b", "a c b");
    assert!(old_ranges.is_empty());
    assert_eq!(new_ranges, vec![1..2, 2..3]);
}

#[test]
fn test_pairing_exact_spans() {
    let mut rows = vec![
        DiffRow::HunkHeader("@@ -1 +1 @@".to_string()),
        make_line(DiffLineType::Remove, "hello world"),
        make_line(DiffLineType::Add, "hello earth"),
    ];
    compute_intra_line_highlights(&mut rows);
    assert_eq!(intra(&rows[0]), vec![]);
    assert_eq!(intra(&rows[1]), vec![(6..11, HighlightKind::RemovedWord)]);
    assert_eq!(intra(&rows[2]), vec![(6..11, HighlightKind::AddedWord)]);
}

#[test]
fn test_pairing_keeps_row_count_and_contents() {
    let mut rows = vec![
        DiffRow::HunkHeader("@@".to_string()),
        make_line(DiffLineType::Add, "only added"),
        make_line(DiffLineType::Remove, "a"),
        make_line(DiffLineType::Remove, "b"),
        make_line(DiffLineType::Add, "c"),
    ];
    compute_intra_line_highlights(&mut rows);
    assert_eq!(rows.len(), 5);
    // An add that no remove precedes is not paired.
    assert!(intra(&rows[1]).is_empty());
    // First remove pairs with the add; the second has no partner.
    assert_eq!(intra(&rows[2]), vec![(0..1, HighlightKind::RemovedWord)]);
    assert!(intra(&rows[3]).is_empty());
    assert_eq!(intra(&rows[4]), vec![(0..1, HighlightKind::AddedWord)]);
}

#[test]
fn test_word_diff_reports_tokens_outside_a_longest_common_subsequence() {
    // Seven tokens a side; a longest common subsequence has five of them.
    let (old_ranges, new_ranges) = word_diff("a b c d", "a c b d");
    assert_eq!(old_ranges.len(), 2);
    assert_eq!(new_ranges.len(), 2);
    for r in old_ranges.iter().chain(new_ranges.iter()) {
        assert!(r.start < r.end && r.end <= 7);
    }
    let (old_ranges, new_ranges) = word_diff("x", "y");
    assert_eq!(old_ranges, vec![0..1]);
    assert_eq!(new_ranges, vec![0..1]);
}
