//! Tests of the commit description lines and the commit list rows.
use ade::code_review::commit_list::{
    build_description_lines, commit_list_item_count, row_in_selected_range, BODY_ROW_HEIGHT,
    TITLE_ROW_HEIGHT,
};
use ade::git::types::CommitInfo;

fn commit_with_body(body: Option<&str>) -> CommitInfo {
    CommitInfo {
        oid: "abc1234def5678".to_string(),
        summary: "Test commit".to_string(),
        body: body.map(|b| b.to_string()),
        author_name: "Alice".to_string(),
        author_email: "alice@example.com".to_string(),
        time_seconds: 1000,
        time_offset: 0,
        decorations: vec![],
        is_ahead: false,
    }
}

#[test]
fn test_build_description_lines_no_body() {
    let commit = commit_with_body(None);
    let lines = build_description_lines(&commit);
    assert_eq!(lines.len(), 1); // summary only (metadata bar is separate)
    assert_eq!(lines[0].text, "Test commit");
}

#[test]
fn test_build_description_lines_with_body() {
    let commit = commit_with_body(Some("Line one\nLine two"));
    let lines = build_description_lines(&commit);
    assert_eq!(lines.len(), 3); // summary + 2 body (metadata bar is separate)
    assert_eq!(lines[0].text, "Test commit");
    assert_eq!(lines[1].text, "Line one");
    assert_eq!(lines[2].text, "Line two");
}

// ---------------------------------------------------------------------------
// Additional cases
// ---------------------------------------------------------------------------

#[test]
fn test_build_description_lines_blank_body_and_crlf() {
    let lines = build_description_lines(&commit_with_body(Some(" \n\t ")));
    assert_eq!(lines.len(), 1);
    let lines = build_description_lines(&commit_with_body(Some("a\r\n\nb\n")));
    let texts: Vec<&str> = lines.iter().map(|l| l.text.as_str()).collect();
    assert_eq!(texts, vec!["Test commit", "a", "", "b"]);
    assert_eq!(lines[0].row_height, TITLE_ROW_HEIGHT);
    assert!(lines[1..].iter().all(|l| l.row_height == BODY_ROW_HEIGHT));
}

#[test]
fn test_commit_list_item_count() {
    assert_eq!(commit_list_item_count(10, false, false), 10);
    assert_eq!(commit_list_item_count(10, true, false), 11);
    assert_eq!(commit_list_item_count(10, true, true), 10);
}

#[test]
fn test_row_in_selected_range_either_direction() {
    assert!(row_in_selected_range(3, (Some(2), Some(5))));
    assert!(row_in_selected_range(3, (Some(5), Some(2))));
    assert!(!row_in_selected_range(6, (Some(5), Some(2))));
    assert!(!row_in_selected_range(3, (Some(3), None)));
}
