//! Tests of the git data types and relative-time labels.
use ade::git::types::{
    format_relative_time, relative_time_label, BranchStatus, CommitInfo, Decoration, DiffData,
    DiffHunk, DiffLine, DiffLineType, FileChange, FileDiff,
};


#[test]
fn test_commit_info_construction() {
    let commit = CommitInfo {
        oid: "abc1234".to_string(),
        summary: "Initial commit".to_string(),
        body: Some("Extended description".to_string()),
        author_name: "Test Author".to_string(),
        author_email: "test@example.com".to_string(),
        time_seconds: 1700000000,
        time_offset: 0,
        decorations: vec![
            Decoration::Branch {
                name: "main".to_string(),
            },
            Decoration::Tag {
                name: "v1.0".to_string(),
            },
        ],
        is_ahead: false,
    };

    assert_eq!(commit.oid, "abc1234");
    assert_eq!(commit.summary, "Initial commit");
    assert_eq!(commit.body, Some("Extended description".to_string()));
    assert_eq!(commit.author_name, "Test Author");
    assert_eq!(commit.author_email, "test@example.com");
    assert_eq!(commit.time_seconds, 1700000000);
    assert_eq!(commit.time_offset, 0);
    assert_eq!(commit.decorations.len(), 2);
}

#[test]
fn test_branch_status_construction() {
    let status = BranchStatus {
        branch_name: "main".to_string(),
        is_dirty: true,
    };
    assert_eq!(status.branch_name, "main");
    assert!(status.is_dirty);
}

#[test]
fn test_file_change_construction() {
    let change = FileChange {
        path: "src/main.rs".to_string(),
        status_char: 'M',
        additions: 10,
        deletions: 3,
        staging_state: None,
    };
    assert_eq!(change.path, "src/main.rs");
    assert_eq!(change.status_char, 'M');
    assert_eq!(change.additions, 10);
    assert_eq!(change.deletions, 3);
}

#[test]
fn test_diff_line_types() {
    let add = DiffLine {
        line_type: DiffLineType::Add,
        content: "+new line".to_string(),
        old_lineno: None,
        new_lineno: Some(5),
    };
    assert_eq!(add.line_type, DiffLineType::Add);
    assert_eq!(add.old_lineno, None);
    assert_eq!(add.new_lineno, Some(5));

    let remove = DiffLine {
        line_type: DiffLineType::Remove,
        content: "-old line".to_string(),
        old_lineno: Some(3),
        new_lineno: None,
    };
    assert_eq!(remove.line_type, DiffLineType::Remove);
}

#[test]
fn test_diff_data_construction() {
    let diff = DiffData {
        files: vec![FileChange {
            path: "hello.txt".to_string(),
            status_char: 'A',
            additions: 1,
            deletions: 0,
            staging_state: None,
        }],
        file_diffs: vec![FileDiff {
            path: "hello.txt".to_string(),
            additions: 1,
            deletions: 0,
            hunks: vec![DiffHunk {
                header: "@@ -0,0 +1 @@".to_string(),
                lines: vec![DiffLine {
                    line_type: DiffLineType::Add,
                    content: "hello world".to_string(),
                    old_lineno: None,
                    new_lineno: Some(1),
                }],
            }],
        }],
    };
    assert_eq!(diff.files.len(), 1);
    assert_eq!(diff.file_diffs.len(), 1);
    assert_eq!(diff.file_diffs[0].hunks.len(), 1);
    assert_eq!(diff.file_diffs[0].hunks[0].lines.len(), 1);
}

#[test]
fn test_format_relative_time_just_now() {
    let now = chrono::Utc::now().timestamp();
    assert_eq!(format_relative_time(now, 0, now), "just now");
}

#[test]
fn test_format_relative_time_minutes() {
    let now = chrono::Utc::now().timestamp();
    assert_eq!(format_relative_time(now - 60, 0, now), "1 minute ago");
    assert_eq!(format_relative_time(now - 300, 0, now), "5 minutes ago");
}

#[test]
fn test_format_relative_time_hours() {
    let now = chrono::Utc::now().timestamp();
    assert_eq!(format_relative_time(now - 3600, 0, now), "1 hour ago");
    assert_eq!(format_relative_time(now - 10800, 0, now), "3 hours ago");
}

#[test]
fn test_format_relative_time_days() {
    let now = chrono::Utc::now().timestamp();
    assert_eq!(format_relative_time(now - 86400, 0, now), "1 day ago");
    assert_eq!(format_relative_time(now - 172800, 0, now), "2 days ago");
}

#[test]
fn test_format_relative_time_months() {
    let now = chrono::Utc::now().timestamp();
    assert_eq!(format_relative_time(now - 2592000, 0, now), "1 month ago");
}

#[test]
fn test_format_relative_time_years() {
    let now = chrono::Utc::now().timestamp();
    assert_eq!(format_relative_time(now - 31536000, 0, now), "1 year ago");
    assert_eq!(format_relative_time(now - 63072000, 0, now), "2 years ago");
}

#[test]
fn test_decoration_variants() {
    let branch = Decoration::Branch {
        name: "main".to_string(),
    };
    let tag = Decoration::Tag {
        name: "v1.0".to_string(),
    };

    match &branch {
        Decoration::Branch { name } => assert_eq!(name, "main"),
        _ => panic!("Expected Branch"),
    }
    match &tag {
        Decoration::Tag { name } => assert_eq!(name, "v1.0"),
        _ => panic!("Expected Tag"),
    }
}

// ---------------------------------------------------------------------------
// Additional cases
// ---------------------------------------------------------------------------

#[test]
fn test_relative_time_label_boundaries() {
    assert_eq!(relative_time_label(-5), "just now");
    assert_eq!(relative_time_label(59), "just now");
    assert_eq!(relative_time_label(60), "1 minute ago");
    assert_eq!(relative_time_label(3599), "59 minutes ago");
    assert_eq!(relative_time_label(3600), "1 hour ago");
    assert_eq!(relative_time_label(86399), "23 hours ago");
    assert_eq!(relative_time_label(86400), "1 day ago");
    assert_eq!(relative_time_label(2591999), "29 days ago");
    assert_eq!(relative_time_label(2592000), "1 month ago");
    assert_eq!(relative_time_label(31535999), "12 months ago");
    assert_eq!(relative_time_label(31536000), "1 year ago");
    assert_eq!(relative_time_label(315360000), "10 years ago");
}

#[test]
fn test_format_relative_time_future_commit_is_just_now() {
    let now = chrono::Utc::now().timestamp();
    assert_eq!(format_relative_time(now + 3600, 0, now), "just now");
}
