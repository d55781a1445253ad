use repodiff::filters::csharp_parser::{
    extract_entities, hunk_contains_changes, CSharpFile, CSharpMethod, CSharpParser, SyntaxNode,
};
use repodiff::filters::filter_manager::FilterManager;
use repodiff::filters::line_window::{filter_hunk, filter_hunks};
use repodiff::filters::structural::filter_hunk_structural;
use repodiff::utils::config_manager::{Config, ConfigManager, FilterRule};
use repodiff::utils::diff_parser::{DiffParser, Hunk, PatchDict};

fn hunk_at(new_start: usize, lines: &[&str]) -> Hunk {
    Hunk {
        header: "@@ -1,1 +1,1 @@".to_string(),
        old_start: new_start,
        old_count: 99,
        new_start,
        new_count: 99,
        lines: lines.iter().map(|l| l.to_string()).collect(),
        is_rename: false,
        rename_from: None,
        rename_to: None,
        similarity_index: None,
    }
}

fn rule(pattern: &str, context_lines: usize, body: bool, signatures: bool) -> FilterRule {
    FilterRule {
        file_pattern: pattern.to_string(),
        context_lines,
        include_method_body: body,
        include_signatures: signatures,
    }
}

fn method(start: usize, end: usize, signature: usize, has_changes: bool) -> CSharpMethod {
    CSharpMethod {
        start_line: start,
        end_line: end,
        signature_line: signature,
        text: String::new(),
        has_changes,
    }
}

fn file_of(methods: Vec<CSharpMethod>) -> CSharpFile {
    CSharpFile {
        methods,
        using_statements: vec![],
        class_declarations: vec![],
        namespace_declarations: vec![],
    }
}

#[test]
fn window_of_two_keeps_lines_near_the_changed_pair() {
    let hunk = hunk_at(1, &[" a", " b", " c", "-d", "+d2", " e", " f"]);
    let out = filter_hunk(&hunk, 2).unwrap();
    assert_eq!(out.lines, vec![" b", " c", "-d", "+d2", " e", " f"]);
    assert_eq!(out.new_count, 5);
    assert_eq!(out.old_count, 5);
    assert_eq!(out.new_start, 1);
    assert_eq!(out.header, "@@ -1,1 +1,1 @@");
}

#[test]
fn window_drops_hunk_without_change() {
    let hunk = hunk_at(1, &[" a", " b", "", "x"]);
    assert!(filter_hunk(&hunk, 0).is_none());
    assert!(filter_hunk(&hunk, 3).is_none());
    assert!(filter_hunk(&hunk, usize::MAX).is_none());
    assert!(filter_hunk(&hunk_at(1, &[]), 5).is_none());
}

#[test]
fn window_of_zero_keeps_changes_only() {
    let hunk = hunk_at(1, &[" a", "+b", " c", " d", "-e", " f"]);
    let out = filter_hunk(&hunk, 0).unwrap();
    assert_eq!(out.lines, vec!["+b", "-e"]);
    assert_eq!(out.new_count, 1);
    assert_eq!(out.old_count, 1);
}

#[test]
fn window_larger_than_hunk_keeps_everything() {
    let hunk = hunk_at(1, &[" a", " b", " c", "+d"]);
    let out = filter_hunk(&hunk, usize::MAX).unwrap();
    assert_eq!(out.lines, vec![" a", " b", " c", "+d"]);
}

#[test]
fn window_keeps_no_line_farther_than_n_from_a_change() {
    let lines = [" 0", " 1", " 2", "+3", " 4", " 5", " 6", " 7", " 8", "-9", " 10", " 11", " 12"];
    let hunk = hunk_at(1, &lines);
    let out = filter_hunk(&hunk, 1).unwrap();
    assert_eq!(out.lines, vec![" 2", "+3", " 4", " 8", "-9", " 10"]);
}

#[test]
fn window_filters_each_hunk_and_keeps_order() {
    let hunks = vec![
        hunk_at(1, &[" a", "+b"]),
        hunk_at(10, &[" c", " d"]),
        hunk_at(20, &["-e", " f", " g"]),
    ];
    let out = filter_hunks(&hunks, 1);
    assert_eq!(out.len(), 2);
    assert_eq!(out[0].lines, vec![" a", "+b"]);
    assert_eq!(out[1].lines, vec!["-e", " f"]);
    assert_eq!(out[1].new_start, 20);
}

#[test]
fn structural_keeps_whole_changed_method_and_drops_far_lines() {
    let hunk = hunk_at(1, &[" 1", " 2", " 3", " 4", " 5", "-6", "+6", " 7", " 8", " 9", " 10", " 11", " 12"]);
    let file = file_of(vec![method(3, 9, 3, true), method(11, 12, 11, false)]);
    let out = filter_hunk_structural(&hunk, &rule("*.cs", 1, true, false), &file).unwrap();
    assert_eq!(out.lines, vec![" 3", " 4", " 5", "-6", "+6", " 7", " 8", " 9"]);
    assert_eq!(out.new_count, 7);
    assert_eq!(out.old_count, 7);
}

#[test]
fn structural_folds_suppressed_body_into_one_placeholder() {
    let hunk = hunk_at(1, &[" 1", " 2", " 3", " 4", " 5", " 6", "+7", " 8", " 9", " 10"]);
    let file = file_of(vec![method(2, 10, 2, true)]);
    let out = filter_hunk_structural(&hunk, &rule("*.cs", 0, false, true), &file).unwrap();
    assert_eq!(out.lines, vec![" 2", " \u{22ee}----", "+7", " \u{22ee}----"]);
}

#[test]
fn structural_single_suppressed_line_gets_a_placeholder() {
    let hunk = hunk_at(1, &[" 1", " 2", "+3"]);
    let file = file_of(vec![method(1, 3, 1, true)]);
    let out = filter_hunk_structural(&hunk, &rule("*.cs", 0, false, true), &file).unwrap();
    assert_eq!(out.lines, vec![" 1", " \u{22ee}----", "+3"]);
}

#[test]
fn structural_never_writes_two_placeholders_in_a_row() {
    let hunk = hunk_at(1, &["+1", " 2", " 3", " 4", " 5", " 6", " 7"]);
    let file = CSharpFile {
        methods: vec![method(1, 3, 1, true), method(5, 7, 7, true)],
        using_statements: vec![],
        class_declarations: vec![],
        namespace_declarations: vec![],
    };
    let out = filter_hunk_structural(&hunk, &rule("*.cs", 0, false, true), &file).unwrap();
    assert_eq!(out.lines, vec!["+1", " \u{22ee}----", " 7"]);
}

#[test]
fn structural_contextual_method_keeps_signature_and_context() {
    let hunk = hunk_at(1, &["+1", " 2", " 3", " 4", " 5", " 6"]);
    let file = file_of(vec![method(2, 3, 3, false), method(5, 6, 5, false)]);
    let with = filter_hunk_structural(&hunk, &rule("*.cs", 1, false, true), &file).unwrap();
    assert_eq!(with.lines, vec!["+1", " 2", " 3"]);
    let without = filter_hunk_structural(&hunk, &rule("*.cs", 1, true, false), &file).unwrap();
    assert_eq!(without.lines, vec!["+1", " 2"]);
}

#[test]
fn structural_keeps_opening_line_of_enclosing_class_and_namespace() {
    let hunk = hunk_at(1, &[" 1", " 2", " 3", " 4", " 5", "+6", " 7"]);
    let mut file = file_of(vec![method(5, 7, 5, true)]);
    file.namespace_declarations.push((1, 9));
    file.class_declarations.push((2, 8));
    file.class_declarations.push((3, 4));
    let with = filter_hunk_structural(&hunk, &rule("*.cs", 0, true, true), &file).unwrap();
    assert_eq!(with.lines, vec![" 1", " 2", " 5", "+6", " 7"]);
    let without = filter_hunk_structural(&hunk, &rule("*.cs", 0, true, false), &file).unwrap();
    assert_eq!(without.lines, vec![" 1", " 2", " 5", "+6", " 7"]);
    let unchanged = file_of(vec![method(5, 7, 5, false)]);
    let mut around = unchanged;
    around.class_declarations.push((2, 8));
    let none = filter_hunk_structural(&hunk, &rule("*.cs", 0, true, true), &around).unwrap();
    assert_eq!(none.lines, vec![" 5", "+6", " \u{22ee}----"]);
}

#[test]
fn structural_removed_lines_stand_on_the_next_kept_line() {
    let hunk = hunk_at(10, &[" a", "-b", "-c", " d", " e"]);
    assert!(hunk_contains_changes(&hunk, 11, 11));
    assert!(!hunk_contains_changes(&hunk, 10, 10));
    assert!(!hunk_contains_changes(&hunk, 12, 20));
    let parser = CSharpParser::new();
    assert!(parser.node_contains_changes(1, 11, &vec![hunk_at(1, &[" x"]), hunk]));
}

#[test]
fn structural_drops_hunk_of_which_nothing_is_left() {
    let hunk = hunk_at(1, &[" 1", " 2"]);
    let file = file_of(vec![]);
    assert!(filter_hunk_structural(&hunk, &rule("*.cs", 3, true, true), &file).is_none());
}

#[test]
fn structural_line_near_usize_max_does_not_overflow() {
    let hunk = hunk_at(usize::MAX, &[" a", "+b", " c"]);
    let file = file_of(vec![method(usize::MAX, usize::MAX, usize::MAX, false)]);
    let out = filter_hunk_structural(&hunk, &rule("*.cs", usize::MAX, true, true), &file).unwrap();
    assert_eq!(out.lines, vec![" a", "+b", " c"]);
}

fn node(kind: &str, start_row: usize, end_row: usize, child_count: usize) -> SyntaxNode {
    SyntaxNode {
        kind: kind.to_string(),
        start_row,
        end_row,
        name_row: None,
        value_kind: None,
        text: kind.to_string(),
        child_count,
    }
}

#[test]
fn extract_lists_entities_in_source_order() {
    let mut arrow = node("property_declaration", 20, 20, 1);
    arrow.value_kind = Some("arrow_expression_clause".to_string());
    let mut headed = node("method_declaration", 30, 35, 0);
    headed.name_row = Some(31);
    let nodes = vec![
        node("compilation_unit", 0, 40, 2),
        node("using_directive", 0, 0, 0),
        node("namespace_declaration", 2, 40, 1),
        node("class_declaration", 3, 39, 5),
        node("method_declaration", 4, 8, 0),
        node("property_declaration", 10, 18, 1),
        node("accessor_list", 11, 18, 2),
        node("accessor_declaration", 12, 13, 0),
        node("accessor_declaration", 14, 17, 0),
        arrow,
        node("accessor_declaration", 20, 20, 0),
        headed,
        node("accessor_declaration", 36, 37, 0),
    ];
    let file = extract_entities(&nodes);
    let spans: Vec<(usize, usize, usize)> =
        file.methods.iter().map(|m| (m.start_line, m.end_line, m.signature_line)).collect();
    assert_eq!(
        spans,
        vec![(5, 9, 5), (11, 19, 11), (13, 14, 13), (15, 18, 15), (21, 21, 21), (31, 36, 32)]
    );
    assert!(file.methods.iter().all(|m| !m.has_changes));
    assert_eq!(file.methods[0].text, "method_declaration");
    assert_eq!(file.using_statements, vec![(1, 1)]);
    assert_eq!(file.namespace_declarations, vec![(3, 41)]);
    assert_eq!(file.class_declarations, vec![(4, 40)]);
}

#[test]
fn file_of_nodes_marks_entities_with_changes() {
    let nodes = vec![node("method_declaration", 0, 2, 0), node("method_declaration", 4, 6, 0)];
    let hunks = vec![hunk_at(1, &[" a", " b", " c", " d", " e", "+f", " g"])];
    let file = CSharpParser::new().file_of_nodes(&nodes, &hunks);
    assert!(!file.methods[0].has_changes);
    assert!(file.methods[1].has_changes);
}

#[test]
fn parse_file_finds_the_declarations_of_a_source() {
    let code = "using System;\nnamespace N {\n    class C {\n        [Obsolete]\n        void M() {\n        }\n        int P => 1;\n        int Q {\n            get { return 1; }\n            set { }\n        }\n    }\n}\n";
    let hunks = vec![hunk_at(9, &[" x", "+y"])];
    let file = CSharpParser::new().parse_file(code, &hunks).unwrap();
    assert_eq!(file.using_statements, vec![(1, 1)]);
    assert_eq!(file.namespace_declarations, vec![(2, 13)]);
    assert_eq!(file.class_declarations, vec![(3, 12)]);
    let spans: Vec<(usize, usize, bool)> =
        file.methods.iter().map(|m| (m.start_line, m.end_line, m.has_changes)).collect();
    assert_eq!(
        spans,
        vec![(4, 6, false), (7, 7, false), (8, 11, true), (9, 9, false), (10, 10, true)]
    );
    assert!(file.methods[1].text.starts_with("int P"));
    let signatures: Vec<usize> = file.methods.iter().map(|m| m.signature_line).collect();
    assert_eq!(signatures, vec![5, 7, 8, 9, 10]);
}

#[test]
fn rule_resolution_takes_first_match_or_default() {
    let manager = FilterManager::new(&[
        rule("*.cs", 10, true, false),
        rule("*Test*.cs", 5, false, false),
        rule("[", 7, false, false),
        rule("*.xml", 2, false, true),
    ]);
    let cs = manager.find_matching_rule("MyTest.cs");
    assert_eq!((cs.file_pattern.as_str(), cs.context_lines, cs.include_method_body), ("*.cs", 10, true));
    let xml = manager.find_matching_rule("config.xml");
    assert_eq!((xml.context_lines, xml.include_signatures), (2, true));
    let refused = FilterManager::new(&[rule("[", 7, false, false), rule("*", 1, false, false)]);
    assert_eq!(refused.find_matching_rule("[").context_lines, 1);
    let md = manager.find_matching_rule("[");
    assert_eq!(md.file_pattern, "*");
    assert_eq!(md.context_lines, 3);
    assert!(!md.include_method_body && !md.include_signatures);
    let none = FilterManager::new(&[]).find_matching_rule("anything");
    assert_eq!((none.file_pattern.as_str(), none.context_lines), ("*", 3));
}

#[test]
fn file_content_skips_removed_lines_and_strips_plus() {
    let manager = FilterManager::new(&[]);
    let hunks = vec![hunk_at(1, &[" a", "-b", "+c", ""]), hunk_at(9, &["+", "d"])];
    assert_eq!(manager.reconstruct_file_content(&hunks), " a\nc\n\n\nd\n");
}

#[test]
fn post_process_uses_window_when_rule_is_not_structural() {
    let mut manager = FilterManager::new(&[rule("*.cs", 1, false, false)]);
    let mut d = PatchDict::new();
    d.insert(
        "A.cs".to_string(),
        vec![hunk_at(1, &[" class A {", " void M() {", " int x;", "+int y;", " }", " }"])],
    );
    d.insert("b.txt".to_string(), vec![hunk_at(1, &[" only context"])]);
    let out = manager.post_process_files(&d);
    assert_eq!(out.len(), 2);
    assert_eq!(out.get("A.cs").unwrap()[0].lines, vec![" int x;", "+int y;", " }"]);
    assert_eq!(out.get("b.txt").unwrap().len(), 0);
}

#[test]
fn config_manager_holds_stored_or_default_configuration() {
    let default = ConfigManager::new(None);
    assert_eq!(default.get_tiktoken_model(), "gpt-4o");
    assert_eq!(default.get_filters().len(), 1);
    assert_eq!(default.get_filters()[0].file_pattern, "*");
    assert_eq!(default.get_filters()[0].context_lines, 3);
    let stored = ConfigManager::new(Some(Config {
        tiktoken_model: "test-model".to_string(),
        filters: vec![rule("*.test", 5, false, true)],
    }));
    assert_eq!(stored.get_tiktoken_model(), "test-model");
    assert_eq!(stored.get_filters().len(), 1);
    assert_eq!(stored.get_filters()[0].file_pattern, "*.test");
    assert_eq!(stored.get_filters()[0].context_lines, 5);
    assert!(stored.get_filters()[0].include_signatures);
    let c = Config::default();
    assert_eq!(c.tiktoken_model, "gpt-4o");
}

#[test]
fn whole_pipeline_on_a_csharp_diff() {
    let raw = "diff --git a/A.cs b/A.cs\n--- a/A.cs\n+++ b/A.cs\n@@ -1,13 +1,13 @@\n namespace N {\n class C {\n   void M1() {\n     int a = 1;\n-    int b = 2;\n+    int b = 3;\n   }\n   void M2() {\n     int c = 1;\n     int d = 2;\n     int e = 3;\n   }\n }\n }\n";
    let parsed = DiffParser::parse_unified_diff(raw).unwrap();
    let mut manager = FilterManager::new(&[rule("*.cs", 1, true, true)]);
    let left = manager.post_process_files(&parsed);
    let hunk = &left.get("A.cs").unwrap()[0];
    assert_eq!((hunk.old_count, hunk.new_count), (6, 6));
    assert_eq!(
        DiffParser::reconstruct_patch(&left),
        "diff --git a/A.cs b/A.cs\n--- a/A.cs\n+++ b/A.cs\n namespace N {\n class C {\n   void M1() {\n     int a = 1;\n-    int b = 2;\n+    int b = 3;\n   }"
    );

    let mut bare = FilterManager::new(&[rule("*.cs", 1, false, false)]);
    let windowed = bare.post_process_files(&parsed);
    assert_eq!(
        windowed.get("A.cs").unwrap()[0].lines,
        vec!["     int a = 1;", "-    int b = 2;", "+    int b = 3;", "   }"]
    );

    let mut signatures = FilterManager::new(&[rule("*.cs", 2, false, true)]);
    let folded = signatures.post_process_files(&parsed);
    assert_eq!(
        folded.get("A.cs").unwrap()[0].lines,
        vec![
            " namespace N {",
            " class C {",
            "   void M1() {",
            " \u{22ee}----",
            "-    int b = 2;",
            "+    int b = 3;",
            " \u{22ee}----",
            "   void M2() {",
            " \u{22ee}----",
        ]
    );
}
