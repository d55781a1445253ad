use repodiff::error::RepoDiffError;
use repodiff::filters::filter_manager::FilterManager;
use repodiff::utils::config_manager::FilterRule;
use repodiff::utils::diff_parser::{parse_decimal, DiffParser, Hunk, PatchDict};

#[test]
fn test_parse_unified_diff_empty() {
    let diff_output = "";
    let result = DiffParser::parse_unified_diff(diff_output).unwrap();
    assert!(result.is_empty());
}

#[test]
fn test_parse_unified_diff_single_file() {
    let diff_output = "diff --git a/file1.txt b/file1.txt
--- a/file1.txt
+++ b/file1.txt
@@ -1,3 +1,3 @@
 line1
-line2
+line2_modified
 line3";

    let result = DiffParser::parse_unified_diff(diff_output).unwrap();

    assert_eq!(result.len(), 1);
    assert!(result.contains_key("file1.txt"));
    assert_eq!(result.get("file1.txt").unwrap().len(), 1);

    let hunk = &result.get("file1.txt").unwrap()[0];
    assert_eq!(hunk.old_start, 1);
    assert_eq!(hunk.old_count, 3);
    assert_eq!(hunk.new_start, 1);
    assert_eq!(hunk.new_count, 3);
    assert_eq!(hunk.lines, vec![" line1", "-line2", "+line2_modified", " line3"]);
}

#[test]
fn test_parse_unified_diff_multiple_files() {
    let diff_output = "diff --git a/file1.txt b/file1.txt
--- a/file1.txt
+++ b/file1.txt
@@ -1,3 +1,3 @@
 line1
-line2
+line2_modified
 line3
diff --git a/file2.txt b/file2.txt
--- a/file2.txt
+++ b/file2.txt
@@ -1,2 +1,3 @@
 line1
+line2_added
 line3";

    let result = DiffParser::parse_unified_diff(diff_output).unwrap();

    assert_eq!(result.len(), 2);
    assert!(result.contains_key("file1.txt"));
    assert!(result.contains_key("file2.txt"));

    assert_eq!(result.get("file1.txt").unwrap().len(), 1);
    assert_eq!(
        result.get("file1.txt").unwrap()[0].lines,
        vec![" line1", "-line2", "+line2_modified", " line3"]
    );

    assert_eq!(result.get("file2.txt").unwrap().len(), 1);
    assert_eq!(
        result.get("file2.txt").unwrap()[0].lines,
        vec![" line1", "+line2_added", " line3"]
    );
}

#[test]
fn test_parse_unified_diff_multiple_hunks() {
    let diff_output = "diff --git a/file1.txt b/file1.txt
--- a/file1.txt
+++ b/file1.txt
@@ -1,3 +1,3 @@
 line1
-line2
+line2_modified
 line3
@@ -10,2 +10,3 @@
 line10
+line11_added
 line12";

    let result = DiffParser::parse_unified_diff(diff_output).unwrap();

    assert_eq!(result.len(), 1);
    assert!(result.contains_key("file1.txt"));
    let hunks = result.get("file1.txt").unwrap();
    assert_eq!(hunks.len(), 2);

    assert_eq!(hunks[0].old_start, 1);
    assert_eq!(hunks[0].old_count, 3);
    assert_eq!(hunks[0].lines, vec![" line1", "-line2", "+line2_modified", " line3"]);

    assert_eq!(hunks[1].old_start, 10);
    assert_eq!(hunks[1].old_count, 2);
    assert_eq!(hunks[1].lines, vec![" line10", "+line11_added", " line12"]);
}

#[test]
fn test_parse_unified_diff_with_rename() {
    let diff_output = "diff --git a/old_file.txt b/new_file.txt
similarity index 90%
rename from old_file.txt
rename to new_file.txt
--- a/old_file.txt
+++ b/new_file.txt
@@ -1,3 +1,3 @@
 line1
-line2
+line2_modified
 line3";

    let result = DiffParser::parse_unified_diff(diff_output).unwrap();

    assert_eq!(result.len(), 1);
    assert!(result.contains_key("new_file.txt"));

    let hunk = &result.get("new_file.txt").unwrap()[0];
    assert!(hunk.is_rename);
    assert_eq!(hunk.rename_from.as_ref().unwrap(), "old_file.txt");
    assert_eq!(hunk.rename_to.as_ref().unwrap(), "new_file.txt");
    assert_eq!(hunk.similarity_index.as_ref().unwrap(), "similarity index 90%");
}

#[test]
fn test_reconstruct_patch_empty() {
    let patch_dict = PatchDict::new();
    let result = DiffParser::reconstruct_patch(&patch_dict);
    assert_eq!(result, "");
}

#[test]
fn test_filter_hunk_context_lines() {
    let hunk = Hunk {
        header: "@@ -1,10 +1,10 @@".to_string(),
        old_start: 1,
        old_count: 10,
        new_start: 1,
        new_count: 10,
        lines: vec![
            " line1".to_string(),
            " line2".to_string(),
            " line3".to_string(),
            "-line4".to_string(),
            "+line4_modified".to_string(),
            " line5".to_string(),
            " line6".to_string(),
            " line7".to_string(),
            " line8".to_string(),
            " line9".to_string(),
            " line10".to_string(),
        ],
        is_rename: false,
        rename_from: None,
        rename_to: None,
        similarity_index: None,
    };

    let hunks = vec![hunk];

    let filter_rules = vec![FilterRule {
        file_pattern: "*".to_string(),
        context_lines: 2,
        include_method_body: false,
        include_signatures: false,
    }];
    let mut filter_manager = FilterManager::new(&filter_rules);

    let mut patch_dict = PatchDict::new();
    patch_dict.insert("test.txt".to_string(), hunks);
    let filtered_hunks = filter_manager.post_process_files(&patch_dict);

    let left = filtered_hunks.get("test.txt").unwrap();
    assert_eq!(left.len(), 1);
    assert_eq!(left[0].lines.len(), 6);
    assert_eq!(
        left[0].lines,
        vec![
            " line2".to_string(),
            " line3".to_string(),
            "-line4".to_string(),
            "+line4_modified".to_string(),
            " line5".to_string(),
            " line6".to_string(),
        ]
    );
    assert_eq!(left[0].new_count, 5);
    assert_eq!(left[0].old_count, 5);
    assert_eq!(left[0].new_start, 1);
}

#[test]
fn parse_keeps_files_in_order_of_appearance() {
    let raw = "diff --git a/b.txt b/b.txt\n--- a/b.txt\n+++ b/b.txt\n@@ -1 +1 @@\n-x\n+y\ndiff --git a/a.txt b/a.txt\n--- a/a.txt\n+++ b/a.txt\n@@ -2,2 +2 @@\n z\n-w\n";
    let result = DiffParser::parse_unified_diff(raw).unwrap();
    let names: Vec<&str> = result.entries().iter().map(|e| e.name.as_str()).collect();
    assert_eq!(names, vec!["b.txt", "a.txt"]);
    let first = &result.get("b.txt").unwrap()[0];
    assert_eq!((first.old_start, first.old_count, first.new_start, first.new_count), (1, 1, 1, 1));
    assert_eq!(first.header, "@@ -1 +1 @@");
    let second = &result.get("a.txt").unwrap()[0];
    assert_eq!((second.old_start, second.old_count, second.new_start, second.new_count), (2, 2, 2, 1));
    assert_eq!(second.lines, vec![" z", "-w"]);
}

#[test]
fn parse_strips_carriage_returns_before_line_feeds() {
    let raw = "diff --git a/f b/f\r\n--- a/f\r\n+++ b/f\r\n@@ -1,2 +1,2 @@\r\n a\r\n-b\r\n+c\r";
    let result = DiffParser::parse_unified_diff(raw).unwrap();
    let hunk = &result.get("f").unwrap()[0];
    assert_eq!(hunk.lines, vec![" a", "-b", "+c\r"]);
}

#[test]
fn parse_drops_lines_outside_hunks_and_bad_headers() {
    let raw = "garbage\ndiff --git a/f b/f\nindex 123..456\n--- a/f\n+++ b/f\nstray\n@@ nonsense @@\nmore\n@@ -3,4 +5,6 @@ fn main()\n keep\n";
    let result = DiffParser::parse_unified_diff(raw).unwrap();
    assert_eq!(result.len(), 1);
    let hunks = result.get("f").unwrap();
    assert_eq!(hunks.len(), 1);
    assert_eq!(hunks[0].header, "@@ -3,4 +5,6 @@ fn main()");
    assert_eq!((hunks[0].old_start, hunks[0].old_count, hunks[0].new_start, hunks[0].new_count), (3, 4, 5, 6));
    assert_eq!(hunks[0].lines, vec![" keep"]);
}

#[test]
fn parse_ignores_header_whose_start_is_too_large() {
    let raw = "diff --git a/f b/f\n+++ b/f\n@@ -99999999999999999999999999,1 +1,1 @@\n x\n";
    let result = DiffParser::parse_unified_diff(raw).unwrap();
    assert_eq!(result.get("f").unwrap().len(), 0);
}

#[test]
fn parse_repeated_file_overwrites_earlier_hunks() {
    let raw = "diff --git a/f b/f\n+++ b/f\n@@ -1 +1 @@\n-a\ndiff --git a/g b/g\n+++ b/g\n@@ -1 +1 @@\n-b\ndiff --git a/f b/f\n+++ b/f\n@@ -7 +7 @@\n-c\n";
    let result = DiffParser::parse_unified_diff(raw).unwrap();
    assert_eq!(result.len(), 2);
    let f = result.get("f").unwrap();
    assert_eq!(f.len(), 1);
    assert_eq!(f[0].old_start, 7);
    assert_eq!(f[0].lines, vec!["-c"]);
    let names: Vec<&str> = result.entries().iter().map(|e| e.name.as_str()).collect();
    assert_eq!(names, vec!["f", "g"]);
}

#[test]
fn parse_with_failed_pattern_reports_regex_error() {
    assert!(regex::Regex::new("(").is_err());
    let result = DiffParser::parse_with_pattern("diff --git a/f b/f", "(");
    assert!(matches!(result, Err(RepoDiffError::RegexError(_))));
    assert!(matches!(DiffParser::parse_with_pattern("", "("), Err(RepoDiffError::RegexError(_))));
}

#[test]
fn parse_with_other_pattern_uses_its_groups() {
    let raw = "diff --git a/f b/f\n+++ b/f\n@@ 4 5 6 7\n+x\n@@ -1,2 +3,4 @@\n+y\n";
    let result = DiffParser::parse_with_pattern(raw, "@@ (\\d+) (\\d+) (\\d+) (\\d+)").unwrap();
    let hunks = result.get("f").unwrap();
    assert_eq!(hunks.len(), 1);
    assert_eq!((hunks[0].old_start, hunks[0].old_count, hunks[0].new_start, hunks[0].new_count), (4, 5, 6, 7));
    assert_eq!(hunks[0].lines, vec!["+x", "+y"]);
}

#[test]
fn parse_decimal_reads_digits_only() {
    assert_eq!(parse_decimal("0"), Some(0));
    assert_eq!(parse_decimal("007"), Some(7));
    assert_eq!(parse_decimal("1234567890"), Some(1234567890));
    assert_eq!(parse_decimal(""), None);
    assert_eq!(parse_decimal("+5"), None);
    assert_eq!(parse_decimal("12a"), None);
    assert_eq!(parse_decimal(&usize::MAX.to_string()), Some(usize::MAX));
    assert_eq!(parse_decimal(&format!("{}0", usize::MAX)), None);
    assert_eq!(parse_decimal("99999999999999999999999999999999999999999"), None);
}

fn hunk_of(lines: &[&str], rename: Option<(&str, &str, Option<&str>)>) -> Hunk {
    Hunk {
        header: "@@ -1 +1 @@".to_string(),
        old_start: 1,
        old_count: 1,
        new_start: 1,
        new_count: 1,
        lines: lines.iter().map(|l| l.to_string()).collect(),
        is_rename: rename.is_some(),
        rename_from: rename.map(|r| r.0.to_string()),
        rename_to: rename.map(|r| r.1.to_string()),
        similarity_index: rename.and_then(|r| r.2.map(|s| s.to_string())),
    }
}

#[test]
fn reconstruct_writes_plain_block_without_hunk_headers() {
    let mut d = PatchDict::new();
    d.insert("src/a.rs".to_string(), vec![hunk_of(&[" x", "-y"], None), hunk_of(&["+z"], None)]);
    d.insert("b.txt".to_string(), vec![]);
    let text = DiffParser::reconstruct_patch(&d);
    assert_eq!(
        text,
        "diff --git a/src/a.rs b/src/a.rs\n--- a/src/a.rs\n+++ b/src/a.rs\n x\n-y\n+z\ndiff --git a/b.txt b/b.txt\n--- a/b.txt\n+++ b/b.txt"
    );
}

#[test]
fn reconstruct_writes_rename_block() {
    let mut d = PatchDict::new();
    d.insert(
        "new.txt".to_string(),
        vec![hunk_of(&["-a", "+b"], Some(("old.txt", "new.txt", Some("similarity index 90%"))))],
    );
    let text = DiffParser::reconstruct_patch(&d);
    assert_eq!(
        text,
        "diff --git a/old.txt b/new.txt\nsimilarity index 90%\nrename from old.txt\nrename to new.txt\n--- a/old.txt\n+++ b/new.txt\n-a\n+b"
    );
    let mut e = PatchDict::new();
    e.insert("n".to_string(), vec![hunk_of(&["+b"], Some(("o", "n", None)))]);
    assert_eq!(
        DiffParser::reconstruct_patch(&e),
        "diff --git a/o b/n\nrename from o\nrename to n\n--- a/o\n+++ b/n\n+b"
    );
}

#[test]
fn reparsing_reconstructed_text_keeps_files_but_no_hunks() {
    let raw = "diff --git a/f b/f\n--- a/f\n+++ b/f\n@@ -1,2 +1,2 @@\n a\n b\n";
    let first = DiffParser::parse_unified_diff(raw).unwrap();
    let text = DiffParser::reconstruct_patch(&first);
    assert_eq!(text, "diff --git a/f b/f\n--- a/f\n+++ b/f\n a\n b");
    let second = DiffParser::parse_unified_diff(&text).unwrap();
    assert!(second.contains_key("f"));
    assert_eq!(second.get("f").unwrap().len(), 0);
}

#[test]
fn patch_dict_insert_get_and_overwrite() {
    let mut d = PatchDict::new();
    assert!(d.is_empty());
    assert!(d.get("a").is_none());
    d.insert("a".to_string(), vec![hunk_of(&["+1"], None)]);
    d.insert("b".to_string(), vec![]);
    d.insert("a".to_string(), vec![hunk_of(&["+2"], None), hunk_of(&["+3"], None)]);
    assert_eq!(d.len(), 2);
    assert!(d.contains_key("a") && d.contains_key("b") && !d.contains_key("c"));
    assert_eq!(d.get("a").unwrap().len(), 2);
    assert_eq!(d.get("a").unwrap()[0].lines, vec!["+2"]);
    assert_eq!(d.entries()[0].name, "a");
    assert_eq!(d.entries()[1].name, "b");
}

#[test]
fn with_lines_recomputes_both_counts() {
    let h = hunk_of(&[" a"], None);
    let r = h.with_lines(vec![" a".to_string(), "-b".to_string(), "+c".to_string(), "+d".to_string(), String::new()]);
    assert_eq!(r.new_count, 4);
    assert_eq!(r.old_count, 3);
    assert_eq!(r.header, "@@ -1 +1 @@");
    assert_eq!(r.lines.len(), 5);
}

#[test]
fn parse_marks_rename_without_similarity_line() {
    let raw = "diff --git a/old.txt b/new.txt\nrename from old.txt\nrename to new.txt\n--- a/old.txt\n+++ b/new.txt\n@@ -1 +1 @@\n-a\n+b\n@@ -9,2 +9,2 @@\n c\n";
    let result = DiffParser::parse_unified_diff(raw).unwrap();
    assert_eq!(result.len(), 1);
    assert!(result.contains_key("new.txt"));
    assert!(!result.contains_key("old.txt"));
    let hunks = result.get("new.txt").unwrap();
    assert_eq!(hunks.len(), 2);
    assert_eq!(hunks[0].header, "@@ -1 +1 @@");
    assert_eq!(hunks[1].header, "@@ -9,2 +9,2 @@");
    for h in hunks {
        assert!(h.is_rename);
        assert_eq!(h.rename_from.as_deref(), Some("old.txt"));
        assert_eq!(h.rename_to.as_deref(), Some("new.txt"));
        assert_eq!(h.similarity_index, None);
    }
}

#[test]
fn parse_keys_rename_under_target_whatever_the_new_file_line_says() {
    let raw = "diff --git a/x b/y\nsimilarity index 70%\nrename from x\nrename to y\n+++ b/z\n@@ -1 +1 @@\n+b\n";
    let result = DiffParser::parse_unified_diff(raw).unwrap();
    assert_eq!(result.len(), 1);
    let h = &result.get("y").unwrap()[0];
    assert!(h.is_rename);
    assert_eq!(h.similarity_index.as_deref(), Some("similarity index 70%"));
}

#[test]
fn parse_does_not_mark_rename_without_both_paths() {
    let raw = "diff --git a/x b/x\nsimilarity index 70%\nrename from x\n+++ b/x\n@@ -1 +1 @@\n+b\n";
    let result = DiffParser::parse_unified_diff(raw).unwrap();
    let h = &result.get("x").unwrap()[0];
    assert!(!h.is_rename);
    assert_eq!(h.rename_from.as_deref(), Some("x"));
    assert_eq!(h.rename_to, None);
    assert_eq!(h.similarity_index.as_deref(), Some("similarity index 70%"));
}

#[test]
fn reconstruct_takes_rename_header_from_first_hunk_with_both_paths() {
    let mut d = PatchDict::new();
    d.insert(
        "y".to_string(),
        vec![hunk_of(&["+a"], None), hunk_of(&["+b"], Some(("x", "y", None)))],
    );
    assert_eq!(
        DiffParser::reconstruct_patch(&d),
        "diff --git a/x b/y\nrename from x\nrename to y\n--- a/x\n+++ b/y\n+a\n+b"
    );
}

#[test]
fn reconstruct_writes_plain_header_where_no_hunk_has_both_paths() {
    let mut marked = hunk_of(&["+a"], None);
    marked.is_rename = true;
    marked.rename_from = Some("x".to_string());
    let mut d = PatchDict::new();
    d.insert("y".to_string(), vec![marked]);
    assert_eq!(
        DiffParser::reconstruct_patch(&d),
        "diff --git a/y b/y\n--- a/y\n+++ b/y\n+a"
    );
}
