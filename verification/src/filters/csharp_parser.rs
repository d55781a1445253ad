//! The structural extractor for C# sources: methods, properties, accessors,
//! using directives, classes and namespaces, each with its span of lines.

use crate::filters::line_window::{changed_at, line_is_changed, line_is_removed};
use crate::utils::diff_parser::{count_new, hunks_view, Hunk, HunkView};
use vstd::prelude::*;
use vstd::string::*;

verus! {

/// A method, property or accessor of a C# source.
#[derive(Debug, PartialEq)]
pub struct CSharpMethod {
    /// First line of the declaration (1-indexed).
    pub start_line: usize,
    /// Last line of the declaration (1-indexed).
    pub end_line: usize,
    /// Line of the signature.
    pub signature_line: usize,
    /// The text of the declaration.
    pub text: String,
    /// Whether a changed line falls inside the declaration.
    pub has_changes: bool,
}

/// The mathematical value of a method.
pub struct MethodView {
    pub start_line: nat,
    pub end_line: nat,
    pub signature_line: nat,
    pub text: Seq<char>,
    pub has_changes: bool,
}

impl View for CSharpMethod {
    type V = MethodView;

    open spec fn view(&self) -> MethodView {
        MethodView {
            start_line: self.start_line as nat,
            end_line: self.end_line as nat,
            signature_line: self.signature_line as nat,
            text: self.text@,
            has_changes: self.has_changes,
        }
    }
}

/// The structure of a C# source.
#[derive(Debug)]
pub struct CSharpFile {
    /// Methods, properties and accessors, in source order.
    pub methods: Vec<CSharpMethod>,
    /// Spans of the using directives.
    pub using_statements: Vec<(usize, usize)>,
    /// Spans of the class declarations.
    pub class_declarations: Vec<(usize, usize)>,
    /// Spans of the namespace declarations.
    pub namespace_declarations: Vec<(usize, usize)>,
}

/// The mathematical value of a source's structure.
pub struct FileView {
    pub methods: Seq<MethodView>,
    pub using_statements: Seq<(usize, usize)>,
    pub class_declarations: Seq<(usize, usize)>,
    pub namespace_declarations: Seq<(usize, usize)>,
}

/// The values of a vector of methods.
pub open spec fn methods_view(v: Seq<CSharpMethod>) -> Seq<MethodView> {
    Seq::new(v.len(), |i: int| v[i]@)
}

impl View for CSharpFile {
    type V = FileView;

    open spec fn view(&self) -> FileView {
        FileView {
            methods: methods_view(self.methods@),
            using_statements: self.using_statements@,
            class_declarations: self.class_declarations@,
            namespace_declarations: self.namespace_declarations@,
        }
    }
}

/// One node of a syntax tree. A tree is held as the list of its nodes in
/// pre-order; `child_count` tells where the subtrees end.
#[derive(Debug, Clone)]
pub struct SyntaxNode {
    /// The node's kind, as the grammar names it.
    pub kind: String,
    /// Row of the node's first character (0-indexed).
    pub start_row: usize,
    /// Row of the node's last character (0-indexed).
    pub end_row: usize,
    /// Row at which the child in the field `name` starts, if there is one.
    pub name_row: Option<usize>,
    /// Kind of the child in the field `value`, if there is one.
    pub value_kind: Option<String>,
    /// The source text the node spans.
    pub text: String,
    /// Number of children.
    pub child_count: usize,
}

/// The mathematical value of a node.
pub struct NodeView {
    pub kind: Seq<char>,
    pub start_row: nat,
    pub end_row: nat,
    pub name_row: Option<nat>,
    pub value_kind: Option<Seq<char>>,
    pub text: Seq<char>,
    pub child_count: nat,
}

impl View for SyntaxNode {
    type V = NodeView;

    open spec fn view(&self) -> NodeView {
        NodeView {
            kind: self.kind@,
            start_row: self.start_row as nat,
            end_row: self.end_row as nat,
            name_row: match self.name_row {
                Some(r) => Some(r as nat),
                None => None,
            },
            value_kind: match self.value_kind {
                Some(k) => Some(k@),
                None => None,
            },
            text: self.text@,
            child_count: self.child_count as nat,
        }
    }
}

/// The values of a list of nodes.
pub open spec fn nodes_view(v: Seq<SyntaxNode>) -> Seq<NodeView> {
    Seq::new(v.len(), |i: int| v[i]@)
}

/// The values of an optional list of nodes.
pub open spec fn tree_view(t: Option<Vec<SyntaxNode>>) -> Option<Seq<NodeView>> {
    match t {
        Some(v) => Some(nodes_view(v@)),
        None => None,
    }
}

/// `tree_sitter::Node`: a node of a syntax tree. Carried, never read.
#[verifier::external_type_specification]
#[verifier::external_body]
pub struct ExNode<'a>(tree_sitter::Node<'a>);

/// The syntax tree that the C# grammar gives a source text, as the list of
/// its nodes in pre-order; `None` where the parser gives no tree.
pub uninterp spec fn syntax_nodes(code: Seq<char>) -> Option<Seq<NodeView>>;

/// `tree_sitter::Parser::parse` with the grammar of `tree_sitter_c_sharp`:
/// parses `code` with a fresh parser and lists the nodes of the tree.
#[verifier::external_body]
pub(crate) fn parse_source(code: &str) -> (r: Option<Vec<SyntaxNode>>)
    ensures
        tree_view(r) == syntax_nodes(code@),
{
    let mut parser = tree_sitter::Parser::new();
    parser.set_language(tree_sitter_c_sharp::language()).ok()?;
    let tree = parser.parse(code, None)?;
    let mut out = Vec::new();
    collect_nodes(tree.root_node(), code, &mut out);
    Some(out)
}

/// `tree_sitter::Node`: appends the node and then its descendants, each
/// with its kind, rows, the fields `name` and `value` and its text.
#[verifier::external_body]
fn collect_nodes(node: tree_sitter::Node, code: &str, out: &mut Vec<SyntaxNode>) {
    out.push(SyntaxNode {
        kind: node.kind().to_string(),
        start_row: node.start_position().row,
        end_row: node.end_position().row,
        name_row: node.child_by_field_name("name").map(|n| n.start_position().row),
        value_kind: node.child_by_field_name("value").map(|n| n.kind().to_string()),
        text: node.utf8_text(code.as_bytes()).unwrap_or_default().to_string(),
        child_count: node.child_count(),
    });
    let mut cursor = node.walk();
    for child in node.children(&mut cursor) {
        collect_nodes(child, code, out);
    }
}

/// The 1-indexed line of a 0-indexed row.
pub open spec fn line_of(row: nat) -> nat {
    if row < usize::MAX {
        row + 1
    } else {
        row
    }
}

/// Index after the last node of the subtrees that start at `j`, where
/// `pending` subtrees are still to be passed.
pub open spec fn subtree_end(nodes: Seq<NodeView>, j: int, pending: nat) -> int
    decreases nodes.len() - j,
{
    if pending == 0 || j < 0 || j >= nodes.len() {
        j
    } else {
        subtree_end(nodes, j + 1, (pending - 1 + nodes[j].child_count) as nat)
    }
}

/// The line of a declaration's signature: the line of its name where the
/// node has one, which lies below the first line after attributes; else the
/// first line.
pub open spec fn signature_of(node: NodeView) -> nat {
    match node.name_row {
        Some(r) => line_of(r),
        None => line_of(node.start_row),
    }
}

/// The entity that a node gives.
pub open spec fn entity_of(node: NodeView) -> MethodView {
    MethodView {
        start_line: line_of(node.start_row),
        end_line: line_of(node.end_row),
        signature_line: signature_of(node),
        text: node.text,
        has_changes: false,
    }
}

/// The span of lines of a node.
pub open spec fn span_of(node: NodeView) -> (usize, usize) {
    (line_of(node.start_row) as usize, line_of(node.end_row) as usize)
}

/// A property whose value is an arrow expression.
pub open spec fn is_arrow_property(node: NodeView) -> bool {
    node.value_kind == Some("arrow_expression_clause"@)
}

/// The entities of the accessors among the nodes from `from` up to `k`.
pub open spec fn accessors_upto(nodes: Seq<NodeView>, from: int, k: int) -> Seq<MethodView>
    decreases k - from,
{
    if k <= from {
        Seq::empty()
    } else if nodes[k - 1].kind == "accessor_declaration"@ {
        accessors_upto(nodes, from, k - 1).push(entity_of(nodes[k - 1]))
    } else {
        accessors_upto(nodes, from, k - 1)
    }
}

/// Nothing extracted yet.
pub open spec fn empty_file() -> FileView {
    FileView {
        methods: Seq::empty(),
        using_statements: Seq::empty(),
        class_declarations: Seq::empty(),
        namespace_declarations: Seq::empty(),
    }
}

/// What node `i` adds to the structure gathered so far. A method gives an
/// entity. A property gives an entity for the whole declaration; unless its
/// value is an arrow expression, each accessor inside it gives one more.
/// Using directives, classes and namespaces give their spans.
pub open spec fn add_node(f: FileView, nodes: Seq<NodeView>, i: int) -> FileView
    recommends
        0 <= i < nodes.len(),
{
    let node = nodes[i];
    if node.kind == "method_declaration"@ {
        FileView { methods: f.methods.push(entity_of(node)), ..f }
    } else if node.kind == "property_declaration"@ {
        let own = f.methods.push(entity_of(node));
        if is_arrow_property(node) {
            FileView { methods: own, ..f }
        } else {
            FileView {
                methods: own + accessors_upto(nodes, i + 1, subtree_end(nodes, i, 1)),
                ..f
            }
        }
    } else if node.kind == "using_directive"@ {
        FileView { using_statements: f.using_statements.push(span_of(node)), ..f }
    } else if node.kind == "namespace_declaration"@ {
        FileView { namespace_declarations: f.namespace_declarations.push(span_of(node)), ..f }
    } else if node.kind == "class_declaration"@ {
        FileView { class_declarations: f.class_declarations.push(span_of(node)), ..f }
    } else {
        f
    }
}

/// The structure that the first `k` nodes give.
pub open spec fn extract_upto(nodes: Seq<NodeView>, k: int) -> FileView
    decreases k,
{
    if k <= 0 {
        empty_file()
    } else {
        add_node(extract_upto(nodes, k - 1), nodes, k - 1)
    }
}

/// The structure of a tree.
pub open spec fn extract(nodes: Seq<NodeView>) -> FileView {
    extract_upto(nodes, nodes.len() as int)
}

/// Line number, in the new file, of line `i` of a hunk: removed lines stand
/// on the line of the next line that is kept.
pub open spec fn line_no(h: HunkView, i: int) -> int {
    (h.new_start + count_new(h.lines.subrange(0, i))) as int
}

/// A changed line of the hunk falls on a line from `start` to `end`.
pub open spec fn hunk_touches(h: HunkView, start: int, end: int) -> bool {
    exists|i: int| changed_at(h.lines, i) && start <= line_no(h, i) <= end
}

/// A changed line of one of the hunks falls on a line from `start` to `end`.
pub open spec fn span_has_change(hunks: Seq<HunkView>, start: int, end: int) -> bool {
    exists|k: int| 0 <= k < hunks.len() && hunk_touches(#[trigger] hunks[k], start, end)
}

/// The methods with `has_changes` set where a changed line falls inside.
pub open spec fn mark_changes(methods: Seq<MethodView>, hunks: Seq<HunkView>) -> Seq<MethodView> {
    Seq::new(
        methods.len(),
        |i: int|
            MethodView {
                has_changes: span_has_change(
                    hunks,
                    methods[i].start_line as int,
                    methods[i].end_line as int,
                ),
                ..methods[i]
            },
    )
}

/// The structure of a tree, with the changes of `hunks` marked.
pub open spec fn parse_nodes(nodes: Seq<NodeView>, hunks: Seq<HunkView>) -> FileView {
    let f = extract(nodes);
    FileView { methods: mark_changes(f.methods, hunks), ..f }
}

/// Where as many subtrees are pending as nodes are left, they take all the
/// nodes.
pub proof fn lemma_subtree_end_full(nodes: Seq<NodeView>, j: int, pending: nat)
    requires
        0 <= j <= nodes.len(),
        pending >= nodes.len() - j,
    ensures
        subtree_end(nodes, j, pending) == nodes.len(),
    decreases nodes.len() - j,
{
    if pending > 0 && j < nodes.len() {
        lemma_subtree_end_full(nodes, j + 1, (pending - 1 + nodes[j].child_count) as nat);
    }
}

/// The subtrees that start at `j` end between `j` and the end of the list.
pub proof fn lemma_subtree_end_bounds(nodes: Seq<NodeView>, j: int, pending: nat)
    requires
        0 <= j <= nodes.len(),
    ensures
        j <= subtree_end(nodes, j, pending) <= nodes.len(),
    decreases nodes.len() - j,
{
    if pending > 0 && j < nodes.len() {
        lemma_subtree_end_bounds(nodes, j + 1, (pending - 1 + nodes[j].child_count) as nat);
    }
}

/// The line of a row.
fn row_line(row: usize) -> (l: usize)
    ensures
        l == line_of(row as nat),
{
    if row < usize::MAX {
        row + 1
    } else {
        row
    }
}

/// Whether a string holds the characters of `word`.
fn is_word(s: &String, word: &str) -> (b: bool)
    ensures
        b == (s@ == word@),
{
    let w = word.to_owned();
    *s == w
}

/// Index after the last node of the subtree that starts at `start`.
fn end_of_subtree(nodes: &Vec<SyntaxNode>, start: usize) -> (end: usize)
    requires
        start < nodes.len(),
    ensures
        end == subtree_end(nodes_view(nodes@), start as int, 1),
        start < end <= nodes.len(),
{
    let ghost nv = nodes_view(nodes@);
    let len = nodes.len();
    let mut j: usize = start;
    let mut pending: usize = 1;
    proof {
        lemma_subtree_end_bounds(nv, start + 1, (0 + nv[start as int].child_count) as nat);
    }
    while pending > 0 && j < len
        invariant
            len == nodes.len(),
            nv == nodes_view(nodes@),
            start <= j <= len,
            pending <= len - j,
            subtree_end(nv, start as int, 1) == subtree_end(nv, j as int, pending as nat),
        decreases len - j,
    {
        let cc = nodes[j].child_count;
        assert(nv[j as int].child_count == cc);
        if cc > len - j - pending {
            proof {
                lemma_subtree_end_full(nv, j + 1, (pending - 1 + cc) as nat);
            }
            return len;
        }
        pending = pending - 1 + cc;
        j += 1;
    }
    j
}

/// Appends the entity of a node.
fn push_entity(methods: &mut Vec<CSharpMethod>, node: &SyntaxNode)
    ensures
        methods_view(final(methods)@) == methods_view(old(methods)@).push(entity_of(node@)),
{
    let ghost before = methods_view(methods@);
    let signature_line = match node.name_row {
        Some(r) => row_line(r),
        None => row_line(node.start_row),
    };
    methods.push(
        CSharpMethod {
            start_line: row_line(node.start_row),
            end_line: row_line(node.end_row),
            signature_line,
            text: node.text.clone(),
            has_changes: false,
        },
    );
    assert(methods_view(methods@) =~= before.push(entity_of(node@)));
}

/// The structure of a tree given as its nodes in pre-order.
pub fn extract_entities(nodes: &Vec<SyntaxNode>) -> (file: CSharpFile)
    ensures
        file@ == extract(nodes_view(nodes@)),
{
    let ghost nv = nodes_view(nodes@);
    let mut file = CSharpFile {
        methods: Vec::new(),
        using_statements: Vec::new(),
        class_declarations: Vec::new(),
        namespace_declarations: Vec::new(),
    };
    assert(file@.methods =~= Seq::<MethodView>::empty());
    let mut i: usize = 0;
    while i < nodes.len()
        invariant
            i <= nodes.len(),
            nv == nodes_view(nodes@),
            file@ == extract_upto(nv, i as int),
        decreases nodes.len() - i,
    {
        let node = &nodes[i];
        assert(nv[i as int] == node@);
        let ghost before = file@;
        if is_word(&node.kind, "method_declaration") {
            push_entity(&mut file.methods, node);
        } else if is_word(&node.kind, "property_declaration") {
            push_entity(&mut file.methods, node);
            let arrow = match &node.value_kind {
                Some(k) => is_word(k, "arrow_expression_clause"),
                None => false,
            };
            if !arrow {
                let end = end_of_subtree(nodes, i);
                let ghost own = methods_view(file.methods@);
                let mut j: usize = i + 1;
                assert(own + accessors_upto(nv, i + 1, i + 1) =~= own);
                while j < end
                    invariant
                        i + 1 <= j <= end <= nodes.len(),
                        nv == nodes_view(nodes@),
                        methods_view(file.methods@) == own + accessors_upto(
                            nv,
                            i + 1,
                            j as int,
                        ),
                        file@.using_statements == before.using_statements,
                        file@.class_declarations == before.class_declarations,
                        file@.namespace_declarations == before.namespace_declarations,
                    decreases end - j,
                {
                    let inner = &nodes[j];
                    assert(nv[j as int] == inner@);
                    if is_word(&inner.kind, "accessor_declaration") {
                        push_entity(&mut file.methods, inner);
                        assert(own + accessors_upto(nv, i + 1, j as int).push(entity_of(inner@))
                            =~= own + accessors_upto(nv, i + 1, j + 1));
                    }
                    j += 1;
                }
            }
        } else if is_word(&node.kind, "using_directive") {
            file.using_statements.push((row_line(node.start_row), row_line(node.end_row)));
        } else if is_word(&node.kind, "namespace_declaration") {
            file.namespace_declarations.push((row_line(node.start_row), row_line(node.end_row)));
        } else if is_word(&node.kind, "class_declaration") {
            file.class_declarations.push((row_line(node.start_row), row_line(node.end_row)));
        }
        assert(file@ == add_node(before, nv, i as int));
        i += 1;
    }
    file
}

/// Parser of C# sources.
pub struct CSharpParser;

impl CSharpParser {
    /// A parser.
    pub fn new() -> (p: CSharpParser) {
        CSharpParser
    }

    /// The structure of `code`, with the changes of `hunks` marked; `None`
    /// where the source gives no syntax tree.
    pub fn parse_file(&mut self, code: &str, hunks: &Vec<Hunk>) -> (r: Option<CSharpFile>)
        ensures
            match r {
                Some(f) => syntax_nodes(code@) matches Some(nodes) && f@ == parse_nodes(
                    nodes,
                    hunks_view(hunks@),
                ),
                None => syntax_nodes(code@) is None,
            },
    {
        match parse_source(code) {
            Some(nodes) => Some(self.file_of_nodes(&nodes, hunks)),
            None => None,
        }
    }

    /// The structure of a tree given as its nodes in pre-order, with the
    /// changes of `hunks` marked.
    pub fn file_of_nodes(&self, nodes: &Vec<SyntaxNode>, hunks: &Vec<Hunk>) -> (f: CSharpFile)
        ensures
            f@ == parse_nodes(nodes_view(nodes@), hunks_view(hunks@)),
    {
        let mut file = extract_entities(nodes);
        let ghost plain = file@;
        let ghost hv = hunks_view(hunks@);
        let mut marked: Vec<CSharpMethod> = Vec::new();
        let mut i: usize = 0;
        while i < file.methods.len()
            invariant
                i <= file.methods.len(),
                file@ == plain,
                hv == hunks_view(hunks@),
                marked@.len() == i,
                forall|k: int| 0 <= k < i ==> marked@[k]@ == mark_changes(plain.methods, hv)[k],
            decreases file.methods.len() - i,
        {
            let m = &file.methods[i];
            assert(plain.methods[i as int] == m@);
            let has_changes = self.node_contains_changes(m.start_line, m.end_line, hunks);
            marked.push(
                CSharpMethod {
                    start_line: m.start_line,
                    end_line: m.end_line,
                    signature_line: m.signature_line,
                    text: m.text.clone(),
                    has_changes,
                },
            );
            i += 1;
        }
        assert(methods_view(marked@) =~= mark_changes(plain.methods, hv));
        file.methods = marked;
        file
    }

    /// Whether a changed line of one of the hunks falls on a line from
    /// `start_line` to `end_line`.
    pub fn node_contains_changes(&self, start_line: usize, end_line: usize, hunks: &Vec<Hunk>) -> (b:
        bool)
        ensures
            b == span_has_change(hunks_view(hunks@), start_line as int, end_line as int),
    {
        let ghost hv = hunks_view(hunks@);
        let mut k: usize = 0;
        while k < hunks.len()
            invariant
                k <= hunks.len(),
                hv == hunks_view(hunks@),
                forall|m: int|
                    0 <= m < k ==> !hunk_touches(#[trigger] hv[m], start_line as int, end_line as int),
            decreases hunks.len() - k,
        {
            assert(hv[k as int] == hunks@[k as int]@);
            if hunk_contains_changes(&hunks[k], start_line, end_line) {
                return true;
            }
            k += 1;
        }
        false
    }
}

/// Whether a changed line of the hunk falls on a line from `start_line` to
/// `end_line`.
pub fn hunk_contains_changes(hunk: &Hunk, start_line: usize, end_line: usize) -> (b: bool)
    ensures
        b == hunk_touches(hunk@, start_line as int, end_line as int),
{
    let ghost h = hunk@;
    let mut current: u128 = hunk.new_start as u128;
    let mut i: usize = 0;
    assert(h.lines.subrange(0, 0) =~= Seq::<Seq<char>>::empty());
    while i < hunk.lines.len()
        invariant
            i <= hunk.lines.len(),
            h == hunk@,
            current == line_no(h, i as int),
            current <= hunk.new_start + i,
            forall|m: int|
                0 <= m < i ==> !(changed_at(h.lines, m) && start_line <= line_no(h, m)
                    <= end_line),
        decreases hunk.lines.len() - i,
    {
        let line = &hunk.lines[i];
        assert(h.lines[i as int] == line@);
        if current >= start_line as u128 && current <= end_line as u128 && line_is_changed(line) {
            assert(changed_at(h.lines, i as int));
            return true;
        }
        proof {
            assert(h.lines.subrange(0, i + 1).drop_last() =~= h.lines.subrange(0, i as int));
            assert(h.lines.subrange(0, i + 1).last() == line@);
        }
        if !line_is_removed(line) {
            current += 1;
        }
        i += 1;
    }
    false
}

/// From one line of a hunk to a later one the line number grows, and by no
/// more than the number of lines between them.
pub proof fn lemma_line_no_close(h: HunkView, i: int, j: int)
    requires
        0 <= i <= j <= h.lines.len(),
    ensures
        0 <= line_no(h, j) - line_no(h, i) <= j - i,
    decreases j - i,
{
    if i < j {
        lemma_line_no_close(h, i, j - 1);
        assert(h.lines.subrange(0, j).drop_last() =~= h.lines.subrange(0, j - 1));
    }
}

} // verus!
