use bb_cli::diff::{
    extract_filename_from_diff_line, filenames_only, filter_diff, line_style, styled_lines,
    LineStyle,
};

#[test]
fn test_extract_filename_valid() {
    let line = "diff --git a/src/main.rs b/src/main.rs";
    let filename = extract_filename_from_diff_line(line);
    assert_eq!(filename, Some("src/main.rs".to_string()));
}

#[test]
fn test_extract_filename_invalid_prefix() {
    let line = "something else";
    let filename = extract_filename_from_diff_line(line);
    assert_eq!(filename, None);
}

#[test]
fn test_extract_filename_invalid_format() {
    let line = "diff --git just_one_path";
    let filename = extract_filename_from_diff_line(line);
    assert_eq!(filename, None);
}

#[test]
fn test_filter_diff_pattern() {
    let diff = "diff --git a/file1.rs b/file1.rs\nindex 123..456 100644\n--- a/file1.rs\n+++ b/file1.rs\n@@ -1 +1 @@\n-old\n+new\ndiff --git a/file2.txt b/file2.txt\nindex 789..012 100644\n--- a/file2.txt\n+++ b/file2.txt\n@@ -1 +1 @@\n-foo\n+bar\n";
    let patterns = vec!["*.rs".to_string()];
    let filtered = filter_diff(diff, &patterns, None);
    assert!(filtered.contains("file1.rs"));
    assert!(!filtered.contains("file2.txt"));
}

#[test]
fn test_filter_diff_size() {
    let diff = "diff --git a/large.rs b/large.rs\nline1\nline2\nline3\nline4\nline5\n";
    let patterns = vec![];
    let filtered = filter_diff(diff, &patterns, Some(3));
    assert!(filtered.contains("skipped: diff too large"));
}

fn two_file_diff() -> String {
    let mut d = String::from("diff --git a/a.rs b/a.rs\n");
    for i in 0..9 {
        d.push_str(&format!("+a line {}\n", i));
    }
    d.push_str("diff --git a/b.txt b/b.txt\n");
    for i in 0..4 {
        d.push_str(&format!("+b line {}\n", i));
    }
    d
}

#[test]
fn filter_keeps_only_matching_file_segment() {
    let d = two_file_diff();
    let out = filter_diff(&d, &vec!["*.rs".to_string()], None);
    let mut expected = String::from("diff --git a/a.rs b/a.rs\n");
    for i in 0..9 {
        expected.push_str(&format!("+a line {}\n", i));
    }
    assert_eq!(out, expected);
}

#[test]
fn filter_replaces_large_segments_with_notices() {
    let d = two_file_diff();
    let out = filter_diff(&d, &[], Some(3));
    let expected = "diff --git a/a.rs b/a.rs\n\
--- a.rs (skipped: diff too large, 10 lines)\n\
+++ a.rs (skipped: diff too large, 10 lines)\n\
diff --git a/b.txt b/b.txt\n\
--- b.txt (skipped: diff too large, 5 lines)\n\
+++ b.txt (skipped: diff too large, 5 lines)\n";
    assert_eq!(out, expected);
}

#[test]
fn filter_without_patterns_or_limit_is_identity() {
    let d = "preamble\r\ndiff --git a/x b/x\n+1\nno newline at end";
    assert_eq!(filter_diff(d, &[], None), d);
    assert_eq!(filter_diff("", &[], None), "");
}

#[test]
fn filter_with_only_invalid_patterns_keeps_every_file() {
    let d = two_file_diff();
    let out = filter_diff(&d, &vec!["[".to_string()], Some(100));
    assert_eq!(out, d);
}

#[test]
fn filter_keeps_preamble_and_limit_boundary() {
    let d = "header text\ndiff --git a/x.rs b/x.rs\n+1\n+2\n";
    assert_eq!(filter_diff(d, &[], Some(3)), d);
    let out = filter_diff(d, &vec!["*.md".to_string()], None);
    assert_eq!(out, "header text\n");
}

#[test]
fn filenames_only_lists_matching_files_in_order() {
    let d = two_file_diff();
    assert_eq!(filenames_only(&d, &[]), vec!["a.rs".to_string(), "b.txt".to_string()]);
    assert_eq!(filenames_only(&d, &vec!["*.txt".to_string()]), vec!["b.txt".to_string()]);
}

#[test]
fn line_styles_follow_prefixes() {
    assert_eq!(line_style("+++ b/x"), LineStyle::FileHeader);
    assert_eq!(line_style("--- a/x"), LineStyle::FileHeader);
    assert_eq!(line_style("@@ -1 +1 @@"), LineStyle::Hunk);
    assert_eq!(line_style("+added"), LineStyle::Addition);
    assert_eq!(line_style("-removed"), LineStyle::Deletion);
    assert_eq!(line_style("diff --git a/x b/x"), LineStyle::Meta);
    assert_eq!(line_style("index 1..2"), LineStyle::Meta);
    assert_eq!(line_style(" context"), LineStyle::Context);
    let styled = styled_lines("+a\n b\r\n");
    assert_eq!(
        styled,
        vec![(LineStyle::Addition, "+a".to_string()), (LineStyle::Context, " b".to_string())]
    );
}
