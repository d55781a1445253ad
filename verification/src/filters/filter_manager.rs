//! Chooses, file by file, the rule and the filter, and gathers what the
//! filters leave.

use crate::filters::csharp_parser::{
    lemma_line_no_close, line_no, parse_nodes, syntax_nodes, CSharpFile, CSharpParser, FileView,
};
use crate::filters::line_window::{
    changed_at, filter_hunks, line_is_added, line_is_removed, near_change, window_hunks,
    window_hunks_come_from, window_hunks_preserve_changes, window_keeps_near_lines,
};
use crate::filters::structural::{
    filter_hunk_structural, in_context, structural_hunk, structural_lines,
    structural_preserves_changes,
};
use crate::pattern::{glob_matches, glob_regex, regex_is_match};
use crate::text::{has_suffix, lines_view, to_chars};
use crate::utils::config_manager::{default_rule_view, rules_view, FilterRule, FilterRuleView};
use crate::utils::diff_parser::{
    distinct_names, files_view, hunks_view, insert_entry, is_added, is_removed, lemma_position,
    lemma_position_at, position, FilePatchView, Hunk, HunkView, PatchDict,
};
use crate::utils::diff_theory::{
    changed_in_hunks, changed_lines_of, changed_of, lemma_changed_hunks_push,
    lemma_position_by_names,
};
use vstd::prelude::*;
use vstd::string::*;

verus! {

/// Whether the glob of a rule selects a path. A glob that is refused
/// selects nothing.
pub open spec fn rule_matches(rule: FilterRuleView, path: Seq<char>) -> bool {
    match glob_regex(rule.file_pattern) {
        Some(re) => regex_is_match(re, path),
        None => false,
    }
}

/// The first rule from index `i` on that selects the path, or the default
/// rule.
pub open spec fn resolve_from(rules: Seq<FilterRuleView>, path: Seq<char>, i: int) -> FilterRuleView
    decreases rules.len() - i,
{
    if i < 0 || i >= rules.len() {
        default_rule_view()
    } else if rule_matches(rules[i], path) {
        rules[i]
    } else {
        resolve_from(rules, path, i + 1)
    }
}

/// The rule for a path: the first that selects it, or the default rule.
pub open spec fn resolve(rules: Seq<FilterRuleView>, path: Seq<char>) -> FilterRuleView {
    resolve_from(rules, path, 0)
}

/// What the structural filter makes of the first `k` hunks.
pub open spec fn structural_hunks_upto(
    hunks: Seq<HunkView>,
    rule: FilterRuleView,
    f: FileView,
    k: int,
) -> Seq<HunkView>
    decreases k,
{
    if k <= 0 {
        Seq::empty()
    } else {
        match structural_hunk(hunks[k - 1], rule, f) {
            Some(h) => structural_hunks_upto(hunks, rule, f, k - 1).push(h),
            None => structural_hunks_upto(hunks, rule, f, k - 1),
        }
    }
}

/// What the structural filter makes of a list of hunks.
pub open spec fn structural_hunks(hunks: Seq<HunkView>, rule: FilterRuleView, f: FileView) -> Seq<
    HunkView,
> {
    structural_hunks_upto(hunks, rule, f, hunks.len() as int)
}

/// What a line of a hunk gives of the new file's text: nothing where it is
/// removed, else the line and a line feed, an added line without its sign.
pub open spec fn content_of_line(l: Seq<char>) -> Seq<char> {
    if is_removed(l) {
        Seq::empty()
    } else if is_added(l) {
        l.subrange(1, l.len() as int).push('\n')
    } else {
        l.push('\n')
    }
}

/// The text that the first `k` lines give.
pub open spec fn content_of_lines(lines: Seq<Seq<char>>, k: int) -> Seq<char>
    decreases k,
{
    if k <= 0 {
        Seq::empty()
    } else {
        content_of_lines(lines, k - 1) + content_of_line(lines[k - 1])
    }
}

/// The text that the first `k` hunks give.
pub open spec fn content_upto(hunks: Seq<HunkView>, k: int) -> Seq<char>
    decreases k,
{
    if k <= 0 {
        Seq::empty()
    } else {
        content_upto(hunks, k - 1) + content_of_lines(
            hunks[k - 1].lines,
            hunks[k - 1].lines.len() as int,
        )
    }
}

/// The new file's text as far as the hunks show it.
pub open spec fn file_content(hunks: Seq<HunkView>) -> Seq<char> {
    content_upto(hunks, hunks.len() as int)
}

/// Whether a rule asks for structural filtering.
pub open spec fn is_structural(rule: FilterRuleView) -> bool {
    rule.include_method_body || rule.include_signatures
}

/// What is left of the hunks of a C# source whose text is `code`: the
/// line window where the rule asks for nothing structural or the text gives
/// no syntax tree, else the structural filter over the tree's entities.
pub open spec fn process_csharp(hunks: Seq<HunkView>, rule: FilterRuleView, code: Seq<char>) -> Seq<
    HunkView,
> {
    if !is_structural(rule) {
        window_hunks(hunks, rule.context_lines)
    } else {
        match syntax_nodes(code) {
            Some(nodes) => structural_hunks(hunks, rule, parse_nodes(nodes, hunks)),
            None => window_hunks(hunks, rule.context_lines),
        }
    }
}

/// What is left of the hunks of a file.
pub open spec fn process_file(entry: FilePatchView, rules: Seq<FilterRuleView>) -> Seq<HunkView> {
    let rule = resolve(rules, entry.name);
    if ".cs"@.is_suffix_of(entry.name) && is_structural(rule) {
        process_csharp(entry.hunks, rule, file_content(entry.hunks))
    } else {
        window_hunks(entry.hunks, rule.context_lines)
    }
}

/// What is left of the first `k` files.
pub open spec fn process_upto(files: Seq<FilePatchView>, rules: Seq<FilterRuleView>, k: int) -> Seq<
    FilePatchView,
>
    decreases k,
{
    if k <= 0 {
        Seq::empty()
    } else {
        insert_entry(
            process_upto(files, rules, k - 1),
            files[k - 1].name,
            process_file(files[k - 1], rules),
        )
    }
}

/// The rules in force where `given` were configured: the default rule alone
/// where none was.
pub open spec fn rules_in_force(given: Seq<FilterRuleView>) -> Seq<FilterRuleView> {
    if given.len() == 0 {
        seq![default_rule_view()]
    } else {
        given
    }
}

/// Holds the rules and filters the hunks of each file by its rule.
pub struct FilterManager {
    filters: Vec<FilterRule>,
    csharp_parser: CSharpParser,
}

/// Appends the characters of `line` from index `from` on, then a line feed.
fn append_line(content: &mut String, line: &String, from: usize)
    requires
        from <= line@.len(),
    ensures
        final(content)@ == old(content)@ + line@.subrange(from as int, line@.len() as int).push(
            '\n',
        ),
{
    let ghost before = content@;
    let chars = to_chars(line.as_str());
    let mut i: usize = from;
    assert(before + chars@.subrange(from as int, from as int) =~= before);
    while i < chars.len()
        invariant
            from <= i <= chars.len(),
            chars@ == line@,
            content@ == before + chars@.subrange(from as int, i as int),
        decreases chars.len() - i,
    {
        let ghost prev = content@;
        content.push(chars[i]);
        assert(prev.push(chars@[i as int]) =~= before + chars@.subrange(from as int, i + 1));
        i += 1;
    }
    let ghost prev = content@;
    content.push('\n');
    assert(prev.push('\n') =~= before + line@.subrange(from as int, line@.len() as int).push('\n'));
}

impl FilterManager {
    /// The rules in force.
    pub closed spec fn rules(&self) -> Seq<FilterRuleView> {
        rules_view(self.filters@)
    }

    /// A manager for the given rules, or for the default rule where none
    /// is given.
    pub fn new(filters: &[FilterRule]) -> (m: FilterManager)
        ensures
            m.rules() == rules_in_force(rules_view(filters@)),
    {
        let mut own: Vec<FilterRule> = Vec::new();
        if filters.len() == 0 {
            own.push(FilterRule::catch_all());
            assert(rules_view(own@) =~= seq![default_rule_view()]);
        } else {
            let mut i: usize = 0;
            while i < filters.len()
                invariant
                    i <= filters.len(),
                    own@.len() == i,
                    forall|k: int| 0 <= k < i ==> own@[k]@ == filters@[k]@,
                decreases filters.len() - i,
            {
                own.push(filters[i].duplicate());
                i += 1;
            }
            assert(rules_view(own@) =~= rules_view(filters@));
        }
        FilterManager { filters: own, csharp_parser: CSharpParser::new() }
    }

    /// The rule for a file: the first rule whose glob selects the path, or
    /// the default rule.
    pub fn find_matching_rule(&self, filename: &str) -> (rule: FilterRule)
        ensures
            rule@ == resolve(self.rules(), filename@),
    {
        let ghost rules = self.rules();
        let mut i: usize = 0;
        while i < self.filters.len()
            invariant
                i <= self.filters.len(),
                rules == rules_view(self.filters@),
                resolve(rules, filename@) == resolve_from(rules, filename@, i as int),
            decreases self.filters.len() - i,
        {
            let candidate = &self.filters[i];
            assert(rules[i as int] == candidate@);
            match glob_matches(candidate.file_pattern.as_str(), filename) {
                Some(true) => {
                    return candidate.duplicate();
                },
                _ => {},
            }
            i += 1;
        }
        FilterRule::catch_all()
    }

    /// Reduces each hunk to the lines within `context_lines` of a change
    /// and leaves out the hunks without a change.
    pub fn apply_context_filter(&self, hunks: &Vec<Hunk>, context_lines: usize) -> (out: Vec<Hunk>)
        ensures
            hunks_view(out@) == window_hunks(hunks_view(hunks@), context_lines as nat),
    {
        filter_hunks(hunks, context_lines)
    }

    /// Reduces each hunk by the structure `file` of its source and leaves
    /// out the hunks of which nothing is left.
    pub fn apply_structural_filter(
        &self,
        hunks: &Vec<Hunk>,
        rule: &FilterRule,
        file: &CSharpFile,
    ) -> (out: Vec<Hunk>)
        ensures
            hunks_view(out@) == structural_hunks(hunks_view(hunks@), rule@, file@),
    {
        let ghost hv = hunks_view(hunks@);
        let mut out: Vec<Hunk> = Vec::new();
        let mut i: usize = 0;
        assert(hunks_view(out@) =~= structural_hunks_upto(hv, rule@, file@, 0));
        while i < hunks.len()
            invariant
                i <= hunks.len(),
                hv == hunks_view(hunks@),
                hunks_view(out@) == structural_hunks_upto(hv, rule@, file@, i as int),
            decreases hunks.len() - i,
        {
            assert(hv[i as int] == hunks@[i as int]@);
            let ghost before = hunks_view(out@);
            match filter_hunk_structural(&hunks[i], rule, file) {
                Some(h) => {
                    out.push(h);
                    assert(hunks_view(out@) =~= before.push(h@));
                },
                None => {},
            }
            i += 1;
        }
        out
    }

    /// Filters the hunks of a C# source whose text is `code`.
    pub fn process_csharp_file(&mut self, hunks: &Vec<Hunk>, rule: &FilterRule, code: &str) -> (out:
        Vec<Hunk>)
        ensures
            hunks_view(out@) == process_csharp(hunks_view(hunks@), rule@, code@),
            final(self).rules() == old(self).rules(),
    {
        if !rule.include_method_body && !rule.include_signatures {
            return self.apply_context_filter(hunks, rule.context_lines);
        }
        match self.csharp_parser.parse_file(code, hunks) {
            Some(file) => self.apply_structural_filter(hunks, rule, &file),
            None => self.apply_context_filter(hunks, rule.context_lines),
        }
    }

    /// The new file's text as far as the hunks show it.
    pub fn reconstruct_file_content(&self, hunks: &Vec<Hunk>) -> (content: String)
        ensures
            content@ == file_content(hunks_view(hunks@)),
    {
        let ghost hv = hunks_view(hunks@);
        let mut content = String::new();
        let mut k: usize = 0;
        while k < hunks.len()
            invariant
                k <= hunks.len(),
                hv == hunks_view(hunks@),
                content@ == content_upto(hv, k as int),
            decreases hunks.len() - k,
        {
            let hunk = &hunks[k];
            assert(hv[k as int] == hunk@);
            let ghost ls = lines_view(hunk.lines@);
            let ghost before = content@;
            let mut i: usize = 0;
            assert(before + content_of_lines(ls, 0) =~= before);
            while i < hunk.lines.len()
                invariant
                    i <= hunk.lines.len(),
                    ls == lines_view(hunk.lines@),
                    content@ == before + content_of_lines(ls, i as int),
                decreases hunk.lines.len() - i,
            {
                let line = &hunk.lines[i];
                assert(ls[i as int] == line@);
                let ghost prev = content@;
                if line_is_removed(line) {
                } else if line_is_added(line) {
                    append_line(&mut content, line, 1);
                } else {
                    append_line(&mut content, line, 0);
                    assert(line@.subrange(0, line@.len() as int) =~= line@);
                }
                assert(content@ =~= before + (content_of_lines(ls, i as int) + content_of_line(
                    line@,
                )));
                i += 1;
            }
            k += 1;
        }
        content
    }

    /// Filters the hunks of every file by the rule that its path selects:
    /// structurally for a C# source whose rule asks for it, else by the
    /// line window.
    pub fn post_process_files(&mut self, patch_dict: &PatchDict) -> (result: PatchDict)
        ensures
            result.wf(),
            result@ == process_upto(patch_dict@, old(self).rules(), patch_dict@.len() as int),
            final(self).rules() == old(self).rules(),
    {
        let entries = patch_dict.entries();
        let ghost files = patch_dict@;
        let ghost rules = self.rules();
        let suffix = to_chars(".cs");
        let mut result = PatchDict::new();
        let mut i: usize = 0;
        while i < entries.len()
            invariant
                i <= entries.len(),
                files == files_view(entries@),
                rules == self.rules(),
                suffix@ == ".cs"@,
                result.wf(),
                result@ == process_upto(files, rules, i as int),
            decreases entries.len() - i,
        {
            let entry = &entries[i];
            assert(files[i as int] == entry@);
            let rule = self.find_matching_rule(entry.name.as_str());
            let path = to_chars(entry.name.as_str());
            let left = if has_suffix(&path, &suffix) && (rule.include_method_body
                || rule.include_signatures) {
                let code = self.reconstruct_file_content(&entry.hunks);
                self.process_csharp_file(&entry.hunks, &rule, code.as_str())
            } else {
                self.apply_context_filter(&entry.hunks, rule.context_lines)
            };
            assert(hunks_view(left@) == process_file(files[i as int], rules));
            result.insert(entry.name.clone(), left);
            i += 1;
        }
        result
    }
}


/// The structural filter keeps the changed lines of a list of hunks, each
/// as often as it occurs, and adds none.
pub proof fn structural_hunks_preserve_changes(
    hunks: Seq<HunkView>,
    rule: FilterRuleView,
    f: FileView,
    k: int,
)
    requires
        0 <= k <= hunks.len(),
    ensures
        changed_in_hunks(
            structural_hunks_upto(hunks, rule, f, k),
            structural_hunks_upto(hunks, rule, f, k).len() as int,
        ) == changed_in_hunks(hunks, k),
    decreases k,
{
    if k > 0 {
        structural_hunks_preserve_changes(hunks, rule, f, k - 1);
        let h = hunks[k - 1];
        let prev = structural_hunks_upto(hunks, rule, f, k - 1);
        structural_preserves_changes(h, rule, f, h.lines.len() as int);
        let left = structural_lines(h, rule, f);
        match structural_hunk(h, rule, f) {
            Some(x) => {
                assert(x.lines == left);
                lemma_changed_hunks_push(prev, x);
            },
            None => {
                assert(changed_of(left) =~= vstd::multiset::Multiset::<Seq<char>>::empty());
                assert(changed_in_hunks(hunks, k) =~= changed_in_hunks(hunks, k - 1));
            },
        }
    }
}

/// What is left of a file holds the changed lines of the file, each as
/// often as it occurs, and no other.
pub proof fn process_file_preserves_changes(entry: FilePatchView, rules: Seq<FilterRuleView>)
    ensures
        changed_in_hunks(
            process_file(entry, rules),
            process_file(entry, rules).len() as int,
        ) == changed_in_hunks(entry.hunks, entry.hunks.len() as int),
{
    let rule = resolve(rules, entry.name);
    let hunks = entry.hunks;
    window_hunks_preserve_changes(hunks, rule.context_lines, hunks.len() as int);
    if ".cs"@.is_suffix_of(entry.name) && is_structural(rule) {
        match syntax_nodes(file_content(hunks)) {
            Some(nodes) => {
                structural_hunks_preserve_changes(
                    hunks,
                    rule,
                    parse_nodes(nodes, hunks),
                    hunks.len() as int,
                );
            },
            None => {},
        }
    }
}

/// The files that are left, one by one: each file of the input with what is
/// left of its hunks.
pub open spec fn processed(files: Seq<FilePatchView>, rules: Seq<FilterRuleView>, k: int) -> Seq<
    FilePatchView,
> {
    Seq::new(
        k as nat,
        |i: int| FilePatchView { name: files[i].name, hunks: process_file(files[i], rules) },
    )
}

/// For files of distinct names the result holds the same files in the same
/// order.
pub proof fn lemma_process_upto(files: Seq<FilePatchView>, rules: Seq<FilterRuleView>, k: int)
    requires
        0 <= k <= files.len(),
        distinct_names(files),
    ensures
        process_upto(files, rules, k) == processed(files, rules, k),
    decreases k,
{
    if k > 0 {
        lemma_process_upto(files, rules, k - 1);
        let prev = processed(files, rules, k - 1);
        let name = files[k - 1].name;
        assert forall|j: int| 0 <= j < prev.len() implies prev[j].name != name by {
            assert(files[j].name != files[k - 1].name);
        }
        lemma_position_at(prev, name, prev.len() as int);
        assert(process_upto(files, rules, k) =~= processed(files, rules, k));
    } else {
        assert(process_upto(files, rules, k) =~= processed(files, rules, k));
    }
}

/// Filtering keeps, file by file, the changed lines of a diff, each as
/// often as it occurs, and adds none.
pub proof fn filtering_preserves_changes(
    files: Seq<FilePatchView>,
    rules: Seq<FilterRuleView>,
    name: Seq<char>,
)
    requires
        distinct_names(files),
    ensures
        changed_lines_of(process_upto(files, rules, files.len() as int), name) == changed_lines_of(
            files,
            name,
        ),
{
    let out = process_upto(files, rules, files.len() as int);
    lemma_process_upto(files, rules, files.len() as int);
    lemma_position_by_names(out, files, name);
    lemma_position(files, name);
    let p = position(files, name);
    if p < files.len() {
        process_file_preserves_changes(files[p], rules);
    }
}

/// Where neither bodies nor signatures are asked for, what is left of the
/// hunks of a C# source holds nothing but lines of the input that lie, by
/// their line numbers, within `context_lines` lines of a changed line of
/// their hunk (a changed line is its own context): no placeholder and no
/// other line stands there.
pub proof fn bare_csharp_output_is_windowed(
    hunks: Seq<HunkView>,
    rule: FilterRuleView,
    code: Seq<char>,
    m: int,
    q: int,
)
    requires
        !is_structural(rule),
        0 <= m < process_csharp(hunks, rule, code).len(),
        0 <= q < process_csharp(hunks, rule, code)[m].lines.len(),
    ensures
        exists|k: int, i: int|
            0 <= k < hunks.len() && 0 <= i < hunks[k].lines.len() && process_csharp(
                hunks,
                rule,
                code,
            )[m].lines[q] == #[trigger] hunks[k].lines[i] && in_context(
                hunks[k],
                rule.context_lines,
                line_no(hunks[k], i),
            ),
{
    let n = rule.context_lines;
    let k = window_hunks_come_from(hunks, n, hunks.len() as int, m);
    let h = hunks[k];
    let src = window_keeps_near_lines(h.lines, n, h.lines.len() as int);
    let i = src[q];
    assert(near_change(h.lines, n, i));
    let j = choose|j: int| changed_at(h.lines, j) && i - n <= j <= i + n;
    if j <= i {
        lemma_line_no_close(h, j, i);
    } else {
        lemma_line_no_close(h, i, j);
    }
    assert(changed_at(h.lines, j) && line_no(h, i) - n <= line_no(h, j) <= line_no(h, i) + n);
    assert(in_context(h, n, line_no(h, i)));
    assert(process_csharp(hunks, rule, code)[m].lines[q] == hunks[k].lines[i]);
}

} // verus!
