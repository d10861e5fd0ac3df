//! Tests of the git worker's decisions: history paging, diff building,
//! working tree states, branch labels and image decoding.
use ade::git::provider::{
    blob_too_large, branch_label, decode_image_bytes, files_from_deltas, is_dirty, line_text_of,
    line_type_of, mark_ahead_commits, rgba_to_bgra, staging_state_of, status_char,
    trim_end_text, DeltaStatus, DiffBuilder, HeadInfo, LineCounter, LogPager,
    MAX_COMMITS, MAX_DIFF_FILES, MAX_IMAGE_BLOB_SIZE, MAX_LINE_LENGTH,
};
use ade::git::types::{CommitInfo, DiffLineType, FileChange, StagingState};
use image::{ImageBuffer, Rgba};

fn commit(oid: &str) -> CommitInfo {
    CommitInfo {
        oid: oid.to_string(),
        summary: format!("commit {}", oid),
        body: None,
        author_name: "A".to_string(),
        author_email: "a@b".to_string(),
        time_seconds: 1000,
        time_offset: 0,
        decorations: vec![],
        is_ahead: false,
    }
}

#[test]
fn test_commit_cap_arithmetic() {
    let max_commits: usize = MAX_COMMITS;
    assert_eq!(max_commits, 50_000);

    // Case 1: No commits loaded yet -- full budget available
    let mut pager = LogPager::new();
    pager.total_loaded = 0;
    assert_eq!(pager.remaining(), 50_000);

    // Case 2: Some commits loaded -- partial budget
    pager.total_loaded = 49_990;
    let remaining = pager.remaining();
    assert_eq!(remaining, 10);
    pager.active = true;
    let effective_batch = pager.next_batch(500).unwrap();
    assert_eq!(effective_batch, 10, "Should clamp batch to remaining budget");

    // Case 3: Exactly at cap -- zero remaining
    pager.total_loaded = 50_000;
    assert_eq!(pager.remaining(), 0);

    // Case 4: Over cap (safety) -- saturating, so 0
    pager.total_loaded = 50_001;
    assert_eq!(pager.remaining(), 0);

    // Case 5: Initial count clamped to MAX_COMMITS
    let mut pager = LogPager::new();
    let capped_count = pager.start_log(100_000);
    assert_eq!(capped_count, 50_000, "Should clamp initial count to MAX_COMMITS");

    // Case 6: Initial count under cap -- no change
    let capped_count = pager.start_log(200);
    assert_eq!(capped_count, 200, "Should not clamp when under MAX_COMMITS");
}

#[test]
fn test_commit_info_construction_with_is_ahead() {
    let ahead_commit = CommitInfo {
        oid: "abc".to_string(),
        summary: "ahead".to_string(),
        body: None,
        author_name: "A".to_string(),
        author_email: "a@b".to_string(),
        time_seconds: 1000,
        time_offset: 0,
        decorations: vec![],
        is_ahead: true,
    };
    assert!(ahead_commit.is_ahead);

    let behind_commit = CommitInfo {
        oid: "def".to_string(),
        summary: "behind".to_string(),
        body: None,
        author_name: "A".to_string(),
        author_email: "a@b".to_string(),
        time_seconds: 999,
        time_offset: 0,
        decorations: vec![],
        is_ahead: false,
    };
    assert!(!behind_commit.is_ahead);
}

#[test]
fn test_mark_ahead_commits_no_upstream() {
    // Without an upstream the ahead count is zero: nothing is marked.
    let mut commits = vec![commit("b"), commit("a")];
    mark_ahead_commits(&mut commits, 0);
    for c in &commits {
        assert!(!c.is_ahead, "No commits should be marked ahead without upstream");
    }
}

#[test]
fn test_mark_ahead_commits_with_upstream() {
    // One commit ahead of the upstream: only the newest is marked.
    let mut commits = vec![commit("new"), commit("old")];
    mark_ahead_commits(&mut commits, 1);
    assert_eq!(commits.len(), 2, "Should have 2 commits total");
    assert!(commits[0].is_ahead, "First (newest) commit should be ahead");
    assert!(!commits[1].is_ahead, "Second (oldest) commit should NOT be ahead");
}

#[test]
fn test_decode_image_bytes_valid_png() {
    let mut img_buf: ImageBuffer<Rgba<u8>, Vec<u8>> = ImageBuffer::new(2, 2);
    img_buf.put_pixel(0, 0, Rgba([255, 0, 0, 255]));
    img_buf.put_pixel(1, 0, Rgba([0, 255, 0, 255]));
    img_buf.put_pixel(0, 1, Rgba([0, 0, 255, 255]));
    img_buf.put_pixel(1, 1, Rgba([255, 255, 255, 255]));

    let mut png_bytes: Vec<u8> = Vec::new();
    let encoder = image::codecs::png::PngEncoder::new(&mut png_bytes);
    image::ImageEncoder::write_image(
        encoder,
        img_buf.as_raw(),
        2,
        2,
        image::ExtendedColorType::Rgba8,
    )
    .unwrap();

    let render_image = decode_image_bytes(&png_bytes);
    assert!(render_image.is_ok(), "decode_image_bytes should succeed for valid PNG");
    let img = render_image.unwrap();
    assert_eq!((img.width, img.height), (2, 2));
    // Red and blue swapped: BGRA.
    assert_eq!(
        img.bgra,
        vec![0, 0, 255, 255, 0, 255, 0, 255, 255, 0, 0, 255, 255, 255, 255, 255]
    );
}

#[test]
fn test_decode_image_bytes_invalid_data() {
    let garbage = b"this is not an image";
    let result = decode_image_bytes(garbage);
    assert!(result.is_err(), "decode_image_bytes should fail for non-image data");
    assert!(result.unwrap_err().starts_with("Image decode error: "));
}

// ---------------------------------------------------------------------------
// Additional cases
// ---------------------------------------------------------------------------

#[test]
fn test_log_pager_batches() {
    let mut pager = LogPager::new();
    // No walk yet: nothing more to load.
    assert_eq!(pager.next_batch(500), None);
    let asked = pager.start_log(200);
    pager.first_batch_loaded(asked, 200, 3);
    assert!(pager.active && !pager.exhausted);
    assert_eq!(pager.next_batch(500), Some(500));

    // A further batch: the first of the ahead window is past, none marked.
    let mut batch = vec![commit("x"), commit("y")];
    let exhausted = pager.more_batch_loaded(500, &mut batch);
    assert!(exhausted, "fewer commits than asked ends the walk");
    assert_eq!(pager.total_loaded, 202);
    assert!(batch.iter().all(|c| !c.is_ahead));
    assert_eq!(pager.next_batch(500), None);
}

#[test]
fn test_log_pager_marks_ahead_across_batches() {
    let mut pager = LogPager::new();
    pager.first_batch_loaded(2, 2, 3);
    let mut batch = vec![commit("c"), commit("d")];
    let exhausted = pager.more_batch_loaded(2, &mut batch);
    assert!(!exhausted);
    // Three ahead in all, two in the first batch: one more here.
    assert!(batch[0].is_ahead);
    assert!(!batch[1].is_ahead);
}

#[test]
fn test_diff_builder_builds_files_hunks_and_counts() {
    let b = DiffBuilder::new();
    let (b, ok) = b.on_file("src/a.rs");
    assert!(ok);
    let (b, _) = b.on_hunk(Some("@@ -1,2 +1,2 @@\n"));
    let (b, _) = b.on_line(' ', Some("keep\n"), Some(1), Some(1));
    let (b, _) = b.on_line('-', Some("old\n"), Some(2), None);
    let (b, _) = b.on_line('+', Some("new\n"), None, Some(2));
    let (b, _) = b.on_file("b.txt");
    let (b, _) = b.on_hunk(Some("@@ -0,0 +1 @@"));
    let (b, _) = b.on_line('+', Some("hello"), None, Some(1));
    let files = vec![
        FileChange {
            path: "src/a.rs".to_string(),
            status_char: 'M',
            additions: 0,
            deletions: 0,
            staging_state: None,
        },
        FileChange {
            path: "b.txt".to_string(),
            status_char: 'A',
            additions: 0,
            deletions: 0,
            staging_state: None,
        },
    ];
    let data = b.finish(files);
    assert_eq!(data.file_diffs.len(), 2);
    let a = &data.file_diffs[0];
    assert_eq!(a.path, "src/a.rs");
    assert_eq!((a.additions, a.deletions), (1, 1));
    assert_eq!(a.hunks.len(), 1);
    assert_eq!(a.hunks[0].header, "@@ -1,2 +1,2 @@");
    assert_eq!(a.hunks[0].lines.len(), 3);
    assert_eq!(a.hunks[0].lines[1].line_type, DiffLineType::Remove);
    assert_eq!(a.hunks[0].lines[1].content, "old\n");
    assert_eq!(a.hunks[0].lines[2].new_lineno, Some(2));
    assert_eq!((data.files[0].additions, data.files[0].deletions), (1, 1));
    assert_eq!((data.files[1].additions, data.files[1].deletions), (1, 0));
}

#[test]
fn test_diff_builder_refuses_files_past_limit() {
    let mut b = DiffBuilder::new();
    for i in 0..MAX_DIFF_FILES {
        let (nb, ok) = b.on_file(&format!("f{}", i));
        assert!(ok);
        b = nb;
    }
    let (b, ok) = b.on_file("one-too-many");
    assert!(!ok);
    let data = b.finish(vec![]);
    assert_eq!(data.file_diffs.len(), MAX_DIFF_FILES);
}

#[test]
fn test_line_text_truncates_long_lines() {
    let long = "x".repeat(MAX_LINE_LENGTH + 5);
    let text = line_text_of(Some(&long));
    assert_eq!(text, format!("{}... (truncated)", "x".repeat(MAX_LINE_LENGTH)));
    assert_eq!(line_text_of(Some("short")), "short");
    assert_eq!(line_text_of(None), "");
}

#[test]
fn test_line_type_and_trim() {
    assert_eq!(line_type_of('+'), DiffLineType::Add);
    assert_eq!(line_type_of('-'), DiffLineType::Remove);
    assert_eq!(line_type_of('H'), DiffLineType::HunkHeader);
    assert_eq!(line_type_of('F'), DiffLineType::HunkHeader);
    assert_eq!(line_type_of(' '), DiffLineType::Context);
    assert_eq!(trim_end_text("@@ -1 +1 @@ fn x()\r\n \t"), "@@ -1 +1 @@ fn x()");
}

#[test]
fn test_files_from_deltas_with_staging() {
    let deltas = vec![
        ("a.rs".to_string(), DeltaStatus::Modified),
        ("new.rs".to_string(), DeltaStatus::Untracked),
        ("gone.rs".to_string(), DeltaStatus::Deleted),
    ];
    let staging = vec![
        ("a.rs".to_string(), StagingState::Partial),
        ("gone.rs".to_string(), StagingState::Staged),
    ];
    let files = files_from_deltas(&deltas, &staging);
    assert_eq!(files.len(), 3);
    assert_eq!((files[0].path.as_str(), files[0].status_char), ("a.rs", 'M'));
    assert_eq!(files[0].staging_state, Some(StagingState::Partial));
    assert_eq!(files[1].status_char, '?');
    assert_eq!(files[1].staging_state, None);
    assert_eq!(files[2].status_char, 'D');
    assert_eq!(files[2].staging_state, Some(StagingState::Staged));
    assert_eq!(status_char(DeltaStatus::Renamed), 'R');
    assert_eq!(status_char(DeltaStatus::Copied), 'C');
    assert_eq!(status_char(DeltaStatus::Added), 'A');
}

#[test]
fn test_staging_state_of() {
    assert_eq!(staging_state_of(true, false), Some(StagingState::Staged));
    assert_eq!(staging_state_of(false, true), Some(StagingState::Unstaged));
    assert_eq!(staging_state_of(true, true), Some(StagingState::Partial));
    assert_eq!(staging_state_of(false, false), None);
}

#[test]
fn test_line_counter_counts_per_file() {
    let c = LineCounter::new(2);
    let (c, _) = c.on_file();
    let (c, _) = c.on_line('+');
    let (c, _) = c.on_line('+');
    let (c, _) = c.on_line('-');
    let (c, _) = c.on_line(' ');
    let (c, _) = c.on_file();
    let (c, _) = c.on_line('-');
    let mut files = vec![
        FileChange {
            path: "a".to_string(),
            status_char: 'M',
            additions: 0,
            deletions: 0,
            staging_state: None,
        },
        FileChange {
            path: "b".to_string(),
            status_char: 'M',
            additions: 0,
            deletions: 0,
            staging_state: Some(StagingState::Unstaged),
        },
    ];
    c.apply(&mut files);
    assert_eq!((files[0].additions, files[0].deletions), (2, 1));
    assert_eq!((files[1].additions, files[1].deletions), (0, 1));
    assert_eq!(files[1].staging_state, Some(StagingState::Unstaged));
}

#[test]
fn test_branch_labels() {
    assert_eq!(branch_label(&HeadInfo::Branch(Some("main".to_string()))), "main");
    assert_eq!(branch_label(&HeadInfo::Branch(None)), "HEAD");
    assert_eq!(
        branch_label(&HeadInfo::Detached(Some("0123456789abcdef".to_string()))),
        "0123456"
    );
    assert_eq!(branch_label(&HeadInfo::Detached(None)), "(detached)");
    assert_eq!(branch_label(&HeadInfo::Unborn), "(no commits)");
    assert_eq!(branch_label(&HeadInfo::Missing), "(detached)");
}

#[test]
fn test_is_dirty() {
    assert!(!is_dirty(&vec![]));
    assert!(!is_dirty(&vec![true, true]));
    assert!(is_dirty(&vec![true, false]));
}

#[test]
fn test_rgba_to_bgra_and_blob_limit() {
    let mut px = vec![1, 2, 3, 4, 5, 6, 7, 8, 9];
    rgba_to_bgra(&mut px, 2);
    assert_eq!(px, vec![3, 2, 1, 4, 7, 6, 5, 8, 9]);
    assert!(!blob_too_large(MAX_IMAGE_BLOB_SIZE));
    assert!(blob_too_large(MAX_IMAGE_BLOB_SIZE + 1));
}
