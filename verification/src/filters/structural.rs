//! The structural filter: decides for each line of a hunk, from the
//! entities of the source, whether it is kept, folded into a placeholder
//! or dropped.

use crate::filters::csharp_parser::{line_no, CSharpFile, FileView, MethodView};
use crate::filters::line_window::{changed_at, line_is_changed, line_is_removed, with_lines};
use crate::text::lines_view;
use crate::utils::config_manager::{FilterRule, FilterRuleView};
use crate::utils::diff_parser::{is_changed, Hunk, HunkView};
use crate::utils::diff_theory::{changed_in_lines, changed_of, lemma_changed_push};
use vstd::prelude::*;
use vstd::string::*;

verus! {

/// How an entity relates to the changes of a hunk.
#[derive(Debug, Clone, Copy)]
pub enum EntityClass {
    /// A changed line falls inside the entity.
    Changed,
    /// No change inside, but the entity reaches into the context of one.
    Contextual,
    /// Neither.
    Unrelated,
}

/// What becomes of a line of the hunk.
pub enum LineAction {
    /// The line is kept as it is.
    Keep,
    /// The line is part of an entity's body that is not shown.
    Suppress,
    /// The line is left out without a trace.
    Drop,
}

/// One line of the output: line `i` of the hunk, or a placeholder.
pub enum Emit {
    Line(int),
    Placeholder,
}

/// The line that stands for a run of suppressed lines.
pub open spec fn placeholder() -> Seq<char> {
    " \u{22ee}----"@
}

/// Line `l` of the new file is at most `n` lines away from a change of the
/// hunk.
pub open spec fn in_context(h: HunkView, n: nat, l: int) -> bool {
    exists|i: int| changed_at(h.lines, i) && l - n <= line_no(h, i) <= l + n
}

/// Some line from `start` to `end` is in the context of a change.
pub open spec fn span_in_context(h: HunkView, n: nat, start: int, end: int) -> bool {
    exists|l: int| start <= l <= end && in_context(h, n, l)
}

/// Line `l` lies inside the entity.
pub open spec fn contains_line(m: MethodView, l: int) -> bool {
    m.start_line <= l <= m.end_line
}

/// The class of an entity: changed where a change falls inside; else, where
/// signatures are asked for, contextual where its signature or any of its
/// lines is in the context of a change; else unrelated.
pub open spec fn classify(m: MethodView, h: HunkView, rule: FilterRuleView) -> EntityClass {
    if m.has_changes {
        EntityClass::Changed
    } else if rule.include_signatures && (in_context(
        h,
        rule.context_lines,
        m.signature_line as int,
    ) || span_in_context(h, rule.context_lines, m.start_line as int, m.end_line as int)) {
        EntityClass::Contextual
    } else {
        EntityClass::Unrelated
    }
}

/// Index of the first entity from `from` on that has the class `class` and
/// contains line `l`.
pub open spec fn first_of_class(
    methods: Seq<MethodView>,
    h: HunkView,
    rule: FilterRuleView,
    class: EntityClass,
    l: int,
    from: int,
) -> Option<int>
    decreases methods.len() - from,
{
    if from < 0 || from >= methods.len() {
        None
    } else if classify(methods[from], h, rule) == class && contains_line(methods[from], l) {
        Some(from)
    } else {
        first_of_class(methods, h, rule, class, l, from + 1)
    }
}

/// A changed entity lies inside the span `d`.
pub open spec fn encloses_change(methods: Seq<MethodView>, d: (usize, usize)) -> bool {
    exists|k: int|
        0 <= k < methods.len() && (#[trigger] methods[k]).has_changes && methods[k].start_line
            >= d.0 && methods[k].end_line <= d.1
}

/// One of the spans opens on line `l` and has a changed entity inside.
pub open spec fn opens_enclosing_in(
    spans: Seq<(usize, usize)>,
    methods: Seq<MethodView>,
    l: int,
) -> bool {
    exists|k: int|
        0 <= k < spans.len() && (#[trigger] spans[k]).0 == l && encloses_change(methods, spans[k])
}

/// Line `l` opens a namespace or a class that has a changed entity inside.
pub open spec fn opens_enclosing(f: FileView, l: int) -> bool {
    opens_enclosing_in(f.namespace_declarations, f.methods, l) || opens_enclosing_in(
        f.class_declarations,
        f.methods,
        l,
    )
}

/// What becomes of line `i` of the hunk. A changed line is kept. A line of
/// a changed entity is kept where whole bodies are asked for or where it is
/// the signature, else suppressed. A line of a contextual entity is kept
/// where it is the signature or in the context of a change, else
/// suppressed. Any other line is kept where it is in the context of a
/// change or opens a namespace or class around a changed entity; else it
/// is dropped.
pub open spec fn line_action(h: HunkView, rule: FilterRuleView, f: FileView, i: int) -> LineAction
    recommends
        0 <= i < h.lines.len(),
{
    let l = line_no(h, i);
    if is_changed(h.lines[i]) {
        LineAction::Keep
    } else {
        match first_of_class(f.methods, h, rule, EntityClass::Changed, l, 0) {
            Some(k) => if rule.include_method_body || l == f.methods[k].signature_line {
                LineAction::Keep
            } else {
                LineAction::Suppress
            },
            None => match first_of_class(f.methods, h, rule, EntityClass::Contextual, l, 0) {
                Some(k) => if l == f.methods[k].signature_line || in_context(
                    h,
                    rule.context_lines,
                    l,
                ) {
                    LineAction::Keep
                } else {
                    LineAction::Suppress
                },
                None => if in_context(h, rule.context_lines, l) || opens_enclosing(f, l) {
                    LineAction::Keep
                } else {
                    LineAction::Drop
                },
            },
        }
    }
}

/// The output after `e`, once the line `i` was treated as `action` says: a
/// suppressed line adds a placeholder unless one was written last.
pub open spec fn emit_line(e: Seq<Emit>, action: LineAction, i: int) -> Seq<Emit> {
    match action {
        LineAction::Keep => e.push(Emit::Line(i)),
        LineAction::Suppress => if e.len() > 0 && e.last() is Placeholder {
            e
        } else {
            e.push(Emit::Placeholder)
        },
        LineAction::Drop => e,
    }
}

/// The output for the first `k` lines of the hunk.
pub open spec fn emit_upto(h: HunkView, rule: FilterRuleView, f: FileView, k: int) -> Seq<Emit>
    decreases k,
{
    if k <= 0 {
        Seq::empty()
    } else {
        emit_line(emit_upto(h, rule, f, k - 1), line_action(h, rule, f, k - 1), k - 1)
    }
}

/// The text of an output.
pub open spec fn render(e: Seq<Emit>, lines: Seq<Seq<char>>) -> Seq<Seq<char>> {
    Seq::new(
        e.len(),
        |m: int|
            match e[m] {
                Emit::Line(i) => lines[i],
                Emit::Placeholder => placeholder(),
            },
    )
}

/// The lines that the structural filter leaves of a hunk.
pub open spec fn structural_lines(h: HunkView, rule: FilterRuleView, f: FileView) -> Seq<
    Seq<char>,
> {
    render(emit_upto(h, rule, f, h.lines.len() as int), h.lines)
}

/// What the structural filter makes of a hunk: the hunk with the lines it
/// leaves and the counts taken from them, or nothing where no line is left.
pub open spec fn structural_hunk(h: HunkView, rule: FilterRuleView, f: FileView) -> Option<
    HunkView,
> {
    let lines = structural_lines(h, rule, f);
    if lines.len() == 0 {
        None
    } else {
        Some(with_lines(h, lines))
    }
}

/// A span reaches into the context of a change exactly where it is not
/// empty and some change lies within `n` lines of its ends.
pub proof fn lemma_span_in_context(h: HunkView, n: nat, start: int, end: int)
    ensures
        span_in_context(h, n, start, end) == (start <= end && exists|i: int|
            changed_at(h.lines, i) && start - n <= line_no(h, i) <= end + n),
{
    if span_in_context(h, n, start, end) {
        let l = choose|l: int| start <= l <= end && in_context(h, n, l);
        let i = choose|i: int| changed_at(h.lines, i) && l - n <= line_no(h, i) <= l + n;
        assert(changed_at(h.lines, i) && start - n <= line_no(h, i) <= end + n);
    }
    if start <= end && exists|i: int|
        changed_at(h.lines, i) && start - n <= line_no(h, i) <= end + n {
        let i = choose|i: int| changed_at(h.lines, i) && start - n <= line_no(h, i) <= end + n;
        let c = line_no(h, i);
        let l = if c < start {
            start
        } else if c > end {
            end
        } else {
            c
        };
        assert(changed_at(h.lines, i) && l - n <= line_no(h, i) <= l + n);
        assert(start <= l <= end && in_context(h, n, l));
    }
}

/// The line number of each line of a hunk, and whether the line is changed.
fn number_lines(hunk: &Hunk) -> (r: (Vec<u128>, Vec<bool>))
    ensures
        r.0@.len() == hunk@.lines.len(),
        r.1@.len() == hunk@.lines.len(),
        forall|i: int| 0 <= i < r.0@.len() ==> r.0@[i] == line_no(hunk@, i),
        forall|i: int| 0 <= i < r.1@.len() ==> r.1@[i] == is_changed(hunk@.lines[i]),
{
    let ghost h = hunk@;
    let mut nums: Vec<u128> = Vec::new();
    let mut changed: Vec<bool> = Vec::new();
    let mut current: u128 = hunk.new_start as u128;
    let mut i: usize = 0;
    assert(h.lines.subrange(0, 0) =~= Seq::<Seq<char>>::empty());
    while i < hunk.lines.len()
        invariant
            i <= hunk.lines.len(),
            h == hunk@,
            nums@.len() == i,
            changed@.len() == i,
            current == line_no(h, i as int),
            current <= hunk.new_start + i,
            forall|k: int| 0 <= k < i ==> nums@[k] == line_no(h, k),
            forall|k: int| 0 <= k < i ==> changed@[k] == is_changed(h.lines[k]),
        decreases hunk.lines.len() - i,
    {
        let line = &hunk.lines[i];
        assert(h.lines[i as int] == line@);
        nums.push(current);
        changed.push(line_is_changed(line));
        proof {
            assert(h.lines.subrange(0, i + 1).drop_last() =~= h.lines.subrange(0, i as int));
            assert(h.lines.subrange(0, i + 1).last() == line@);
        }
        if !line_is_removed(line) {
            current += 1;
        }
        i += 1;
    }
    (nums, changed)
}

/// Whether a change lies on a line from `lo - n` to `hi + n`.
fn change_within(nums: &Vec<u128>, changed: &Vec<bool>, n: usize, lo: u128, hi: u128) -> (b: bool)
    requires
        nums@.len() == changed@.len(),
        hi <= u128::MAX - n,
    ensures
        b == exists|i: int|
            0 <= i < nums@.len() && changed@[i] && lo - n <= #[trigger] nums@[i] <= hi + n,
{
    let mut i: usize = 0;
    while i < nums.len()
        invariant
            i <= nums.len(),
            nums@.len() == changed@.len(),
            hi <= u128::MAX - n,
            forall|k: int|
                0 <= k < i ==> !(changed@[k] && lo - n <= #[trigger] nums@[k] <= hi + n),
        decreases nums.len() - i,
    {
        let c = nums[i];
        if changed[i] && c <= hi + n as u128 && (c >= lo || lo - c <= n as u128) {
            return true;
        }
        i += 1;
    }
    false
}

/// The class of each entity.
fn classify_all(
    hunk: &Hunk,
    rule: &FilterRule,
    file: &CSharpFile,
    nums: &Vec<u128>,
    changed: &Vec<bool>,
) -> (classes: Vec<EntityClass>)
    requires
        nums@.len() == hunk@.lines.len(),
        changed@.len() == hunk@.lines.len(),
        forall|i: int| 0 <= i < nums@.len() ==> nums@[i] == line_no(hunk@, i),
        forall|i: int| 0 <= i < changed@.len() ==> changed@[i] == is_changed(hunk@.lines[i]),
    ensures
        classes@.len() == file@.methods.len(),
        forall|k: int|
            0 <= k < classes@.len() ==> classes@[k] == classify(file@.methods[k], hunk@, rule@),
{
    let ghost h = hunk@;
    let ghost n = rule.context_lines as nat;
    let mut classes: Vec<EntityClass> = Vec::new();
    let mut k: usize = 0;
    while k < file.methods.len()
        invariant
            k <= file.methods.len(),
            h == hunk@,
            n == rule.context_lines as nat,
            nums@.len() == h.lines.len(),
            changed@.len() == h.lines.len(),
            forall|i: int| 0 <= i < nums@.len() ==> nums@[i] == line_no(h, i),
            forall|i: int| 0 <= i < changed@.len() ==> changed@[i] == is_changed(h.lines[i]),
            classes@.len() == k,
            forall|j: int| 0 <= j < k ==> classes@[j] == classify(file@.methods[j], h, rule@),
        decreases file.methods.len() - k,
    {
        let m = &file.methods[k];
        assert(file@.methods[k as int] == m@);
        let class = if m.has_changes {
            EntityClass::Changed
        } else if !rule.include_signatures {
            EntityClass::Unrelated
        } else {
            let sig = m.signature_line as u128;
            let near_sig = change_within(nums, changed, rule.context_lines, sig, sig);
            let near_span = m.start_line <= m.end_line && change_within(
                nums,
                changed,
                rule.context_lines,
                m.start_line as u128,
                m.end_line as u128,
            );
            proof {
                lemma_span_in_context(h, n, m.start_line as int, m.end_line as int);
                lemma_in_context(h, n, sig as int, nums@, changed@);
                lemma_within(h, n, m.start_line as int, m.end_line as int, nums@, changed@);
            }
            if near_sig || near_span {
                EntityClass::Contextual
            } else {
                EntityClass::Unrelated
            }
        };
        classes.push(class);
        k += 1;
    }
    classes
}

/// A change within the numbered lines is a change of the hunk.
proof fn lemma_within(
    h: HunkView,
    n: nat,
    lo: int,
    hi: int,
    nums: Seq<u128>,
    changed: Seq<bool>,
)
    requires
        nums.len() == h.lines.len(),
        changed.len() == h.lines.len(),
        forall|i: int| 0 <= i < nums.len() ==> nums[i] == line_no(h, i),
        forall|i: int| 0 <= i < changed.len() ==> changed[i] == is_changed(h.lines[i]),
    ensures
        (exists|i: int| 0 <= i < nums.len() && changed[i] && lo - n <= #[trigger] nums[i] <= hi + n)
            == (exists|i: int| changed_at(h.lines, i) && lo - n <= line_no(h, i) <= hi + n),
{
    if exists|i: int| 0 <= i < nums.len() && changed[i] && lo - n <= #[trigger] nums[i] <= hi + n {
        let i = choose|i: int|
            0 <= i < nums.len() && changed[i] && lo - n <= #[trigger] nums[i] <= hi + n;
        assert(changed_at(h.lines, i) && lo - n <= line_no(h, i) <= hi + n);
    }
    if exists|i: int| changed_at(h.lines, i) && lo - n <= line_no(h, i) <= hi + n {
        let i = choose|i: int| changed_at(h.lines, i) && lo - n <= line_no(h, i) <= hi + n;
        assert(0 <= i < nums.len() && changed[i] && lo - n <= nums[i] <= hi + n);
    }
}

/// A change within `n` lines of `l` among the numbered lines puts `l` in
/// the context of a change.
proof fn lemma_in_context(h: HunkView, n: nat, l: int, nums: Seq<u128>, changed: Seq<bool>)
    requires
        nums.len() == h.lines.len(),
        changed.len() == h.lines.len(),
        forall|i: int| 0 <= i < nums.len() ==> nums[i] == line_no(h, i),
        forall|i: int| 0 <= i < changed.len() ==> changed[i] == is_changed(h.lines[i]),
    ensures
        (exists|i: int| 0 <= i < nums.len() && changed[i] && l - n <= #[trigger] nums[i] <= l + n)
            == in_context(h, n, l),
{
    lemma_within(h, n, l, l, nums, changed);
}

/// Index of the first entity of the wanted class that contains line `l`.
fn find_entity(
    file: &CSharpFile,
    classes: &Vec<EntityClass>,
    want_changed: bool,
    l: u128,
    Ghost(h): Ghost<HunkView>,
    Ghost(rule): Ghost<FilterRuleView>,
) -> (r: Option<usize>)
    requires
        classes@.len() == file@.methods.len(),
        forall|k: int| 0 <= k < classes@.len() ==> classes@[k] == classify(file@.methods[k], h, rule),
    ensures
        match r {
            Some(k) => first_of_class(
                file@.methods,
                h,
                rule,
                if want_changed {
                    EntityClass::Changed
                } else {
                    EntityClass::Contextual
                },
                l as int,
                0,
            ) == Some(k as int) && k < file.methods@.len(),
            None => first_of_class(
                file@.methods,
                h,
                rule,
                if want_changed {
                    EntityClass::Changed
                } else {
                    EntityClass::Contextual
                },
                l as int,
                0,
            ) is None,
        },
{
    let ghost want = if want_changed {
        EntityClass::Changed
    } else {
        EntityClass::Contextual
    };
    let ghost ms = file@.methods;
    let mut k: usize = 0;
    while k < file.methods.len()
        invariant
            k <= file.methods.len(),
            ms == file@.methods,
            classes@.len() == ms.len(),
            forall|j: int| 0 <= j < classes@.len() ==> classes@[j] == classify(ms[j], h, rule),
            want == (if want_changed {
                EntityClass::Changed
            } else {
                EntityClass::Contextual
            }),
            first_of_class(ms, h, rule, want, l as int, 0) == first_of_class(
                ms,
                h,
                rule,
                want,
                l as int,
                k as int,
            ),
        decreases file.methods.len() - k,
    {
        let m = &file.methods[k];
        assert(ms[k as int] == m@);
        let right_class = match classes[k] {
            EntityClass::Changed => want_changed,
            EntityClass::Contextual => !want_changed,
            EntityClass::Unrelated => false,
        };
        if right_class && m.start_line as u128 <= l && l <= m.end_line as u128 {
            return Some(k);
        }
        k += 1;
    }
    None
}

/// Whether a changed entity lies inside the span.
fn span_encloses_change(file: &CSharpFile, d: (usize, usize)) -> (b: bool)
    ensures
        b == encloses_change(file@.methods, d),
{
    let ghost ms = file@.methods;
    let mut k: usize = 0;
    while k < file.methods.len()
        invariant
            k <= file.methods.len(),
            ms == file@.methods,
            forall|j: int|
                0 <= j < k ==> !((#[trigger] ms[j]).has_changes && ms[j].start_line >= d.0
                    && ms[j].end_line <= d.1),
        decreases file.methods.len() - k,
    {
        let m = &file.methods[k];
        assert(ms[k as int] == m@);
        if m.has_changes && m.start_line >= d.0 && m.end_line <= d.1 {
            return true;
        }
        k += 1;
    }
    false
}

/// Whether one of the spans opens on line `l` around a changed entity.
fn opens_one_of(spans: &Vec<(usize, usize)>, file: &CSharpFile, l: u128) -> (b: bool)
    ensures
        b == opens_enclosing_in(spans@, file@.methods, l as int),
{
    let mut k: usize = 0;
    while k < spans.len()
        invariant
            k <= spans.len(),
            forall|j: int|
                0 <= j < k ==> !((#[trigger] spans@[j]).0 == l && encloses_change(
                    file@.methods,
                    spans@[j],
                )),
        decreases spans.len() - k,
    {
        let d = spans[k];
        if d.0 as u128 == l && span_encloses_change(file, d) {
            return true;
        }
        k += 1;
    }
    false
}

/// Reduces a hunk by the structure of its source: the lines are decided
/// one by one as `line_action` says, runs of suppressed lines leave one
/// placeholder each, and both counts are taken from what is left. A hunk of
/// which nothing is left is dropped.
pub fn filter_hunk_structural(hunk: &Hunk, rule: &FilterRule, file: &CSharpFile) -> (r: Option<
    Hunk,
>)
    ensures
        match r {
            Some(x) => structural_hunk(hunk@, rule@, file@) == Some(x@),
            None => structural_hunk(hunk@, rule@, file@) is None,
        },
{
    let ghost h = hunk@;
    let ghost rv = rule@;
    let ghost fv = file@;
    let ghost n = rule.context_lines as nat;
    let (nums, changed) = number_lines(hunk);
    let classes = classify_all(hunk, rule, file, &nums, &changed);
    let mut out: Vec<String> = Vec::new();
    let ghost mut emitted: Seq<Emit> = Seq::empty();
    let mut after_placeholder = false;
    let mut i: usize = 0;
    assert(lines_view(out@) =~= render(emitted, h.lines));
    while i < hunk.lines.len()
        invariant
            i <= hunk.lines.len(),
            h == hunk@,
            rv == rule@,
            fv == file@,
            n == rule.context_lines as nat,
            nums@.len() == h.lines.len(),
            changed@.len() == h.lines.len(),
            forall|k: int| 0 <= k < nums@.len() ==> nums@[k] == line_no(h, k),
            forall|k: int| 0 <= k < changed@.len() ==> changed@[k] == is_changed(h.lines[k]),
            classes@.len() == fv.methods.len(),
            forall|k: int| 0 <= k < classes@.len() ==> classes@[k] == classify(fv.methods[k], h, rv),
            emitted == emit_upto(h, rv, fv, i as int),
            lines_view(out@) == render(emitted, h.lines),
            after_placeholder == (emitted.len() > 0 && emitted.last() is Placeholder),
            forall|m: int| 0 <= m < emitted.len() ==> (#[trigger] emitted[m] matches Emit::Line(j)
                ==> 0 <= j < i),
        decreases hunk.lines.len() - i,
    {
        let line = &hunk.lines[i];
        assert(h.lines[i as int] == line@);
        let l = nums[i];
        proof {
            lemma_span_in_context(h, n, l as int, l as int);
            lemma_in_context(h, n, l as int, nums@, changed@);
            crate::utils::diff_parser::lemma_count_bounds(h.lines.subrange(0, i as int));
        }
        let keep: bool;
        let suppress: bool;
        if changed[i] {
            keep = true;
            suppress = false;
        } else {
            let near = change_within(&nums, &changed, rule.context_lines, l, l);
            match find_entity(file, &classes, true, l, Ghost(h), Ghost(rv)) {
                Some(k) => {
                    assert(fv.methods[k as int] == file.methods@[k as int]@);
                    keep = rule.include_method_body || l == file.methods[k].signature_line as u128;
                    suppress = !keep;
                },
                None => match find_entity(file, &classes, false, l, Ghost(h), Ghost(rv)) {
                    Some(k) => {
                        assert(fv.methods[k as int] == file.methods@[k as int]@);
                        keep = l == file.methods[k].signature_line as u128 || near;
                        suppress = !keep;
                    },
                    None => {
                        keep = near || opens_one_of(&file.namespace_declarations, file, l)
                            || opens_one_of(&file.class_declarations, file, l);
                        suppress = false;
                    },
                },
            }
        }
        let ghost action = line_action(h, rv, fv, i as int);
        assert(keep == (action is Keep));
        assert(suppress == (action is Suppress));
        let ghost before = emitted;
        let ghost text_before = lines_view(out@);
        if keep {
            out.push(line.clone());
            after_placeholder = false;
            proof {
                emitted = emitted.push(Emit::Line(i as int));
                assert(lines_view(out@) =~= text_before.push(line@));
                assert(render(emitted, h.lines) =~= render(before, h.lines).push(line@));
            }
        } else if suppress && !after_placeholder {
            out.push(" \u{22ee}----".to_owned());
            after_placeholder = true;
            proof {
                emitted = emitted.push(Emit::Placeholder);
                assert(lines_view(out@) =~= text_before.push(placeholder()));
                assert(render(emitted, h.lines) =~= render(before, h.lines).push(placeholder()));
            }
        }
        assert(emitted == emit_line(before, action, i as int));
        i += 1;
    }
    assert(lines_view(out@) == structural_lines(h, rv, fv));
    if out.len() == 0 {
        None
    } else {
        Some(hunk.with_lines(out))
    }
}


/// What `first_of_class` finds is an entity of the class that contains the
/// line, and it finds one wherever there is one.
pub proof fn lemma_first_of_class(
    methods: Seq<MethodView>,
    h: HunkView,
    rule: FilterRuleView,
    class: EntityClass,
    l: int,
    from: int,
)
    requires
        0 <= from,
    ensures
        match first_of_class(methods, h, rule, class, l, from) {
            Some(k) => from <= k < methods.len() && classify(methods[k], h, rule) == class
                && contains_line(methods[k], l),
            None => forall|k: int|
                from <= k < methods.len() ==> !(classify(#[trigger] methods[k], h, rule) == class
                    && contains_line(methods[k], l)),
        },
    decreases methods.len() - from,
{
    if from < methods.len() && !(classify(methods[from], h, rule) == class && contains_line(
        methods[from],
        l,
    )) {
        lemma_first_of_class(methods, h, rule, class, l, from + 1);
    }
}

/// The output for the first `k` lines holds exactly the kept lines among
/// them, and never two placeholders side by side.
pub proof fn lemma_emit_upto(h: HunkView, rule: FilterRuleView, f: FileView, k: int)
    requires
        0 <= k <= h.lines.len(),
    ensures
        forall|m: int|
            0 <= m < emit_upto(h, rule, f, k).len() ==> (#[trigger] emit_upto(h, rule, f, k)[m]
                matches Emit::Line(i) ==> 0 <= i < k && line_action(h, rule, f, i) is Keep),
        forall|i: int|
            0 <= i < k && #[trigger] line_action(h, rule, f, i) is Keep ==> emit_upto(
                h,
                rule,
                f,
                k,
            ).contains(Emit::Line(i)),
        forall|m: int|
            0 <= m < emit_upto(h, rule, f, k).len() - 1 ==> !(#[trigger] emit_upto(h, rule, f, k)[m]
                is Placeholder && emit_upto(h, rule, f, k)[m + 1] is Placeholder),
    decreases k,
{
    if k > 0 {
        lemma_emit_upto(h, rule, f, k - 1);
        let prev = emit_upto(h, rule, f, k - 1);
        let e = emit_upto(h, rule, f, k);
        let action = line_action(h, rule, f, k - 1);
        assert(e == emit_line(prev, action, k - 1));
        assert forall|i: int| 0 <= i < k && #[trigger] line_action(
            h,
            rule,
            f,
            i,
        ) is Keep implies e.contains(Emit::Line(i)) by {
            if i < k - 1 {
                assert(prev.contains(Emit::Line(i)));
                let m = choose|m: int| 0 <= m < prev.len() && prev[m] == Emit::Line(i);
                assert(e[m] == Emit::Line(i));
            } else {
                assert(e[e.len() - 1] == Emit::Line(i));
            }
        }
        assert forall|m: int| 0 <= m < e.len() implies (#[trigger] e[m] matches Emit::Line(i) ==> 0
            <= i < k && line_action(h, rule, f, i) is Keep) by {
            if m < prev.len() {
                assert(e[m] == prev[m]);
            }
        }
        assert forall|m: int| 0 <= m < e.len() - 1 implies !(#[trigger] e[m] is Placeholder && e[m
            + 1] is Placeholder) by {
            if m < prev.len() - 1 {
                assert(e[m] == prev[m] && e[m + 1] == prev[m + 1]);
            }
        }
    }
}

/// What was written for the first `k` lines stays in the output.
pub proof fn lemma_emit_grows(h: HunkView, rule: FilterRuleView, f: FileView, k: int, n: int)
    requires
        0 <= k <= n,
    ensures
        emit_upto(h, rule, f, k).is_prefix_of(emit_upto(h, rule, f, n)),
    decreases n - k,
{
    if k < n {
        lemma_emit_grows(h, rule, f, k, n - 1);
        let prev = emit_upto(h, rule, f, n - 1);
        let e = emit_upto(h, rule, f, n);
        assert(prev.is_prefix_of(e));
    }
}

/// With whole bodies asked for, every line of the hunk that lies inside an
/// entity with a change is part of the output.
pub proof fn changed_entity_is_kept_whole(
    h: HunkView,
    rule: FilterRuleView,
    f: FileView,
    i: int,
    k: int,
)
    requires
        rule.include_method_body,
        0 <= i < h.lines.len(),
        0 <= k < f.methods.len(),
        f.methods[k].has_changes,
        contains_line(f.methods[k], line_no(h, i)),
    ensures
        emit_upto(h, rule, f, h.lines.len() as int).contains(Emit::Line(i)),
        structural_lines(h, rule, f).contains(h.lines[i]),
{
    let l = line_no(h, i);
    lemma_first_of_class(f.methods, h, rule, EntityClass::Changed, l, 0);
    assert(classify(f.methods[k], h, rule) == EntityClass::Changed);
    assert(line_action(h, rule, f, i) is Keep);
    lemma_emit_upto(h, rule, f, h.lines.len() as int);
    let e = emit_upto(h, rule, f, h.lines.len() as int);
    let m = choose|m: int| 0 <= m < e.len() && e[m] == Emit::Line(i);
    assert(structural_lines(h, rule, f)[m] == h.lines[i]);
}

/// An unchanged line that lies in no changed and no contextual entity,
/// outside the context of every change, and that opens no namespace or
/// class around a changed entity, is not part of the output: so no line of
/// an unrelated entity's body is, unless one of these holds of it.
pub proof fn unrelated_line_is_left_out(h: HunkView, rule: FilterRuleView, f: FileView, i: int)
    requires
        0 <= i < h.lines.len(),
        !is_changed(h.lines[i]),
        forall|k: int|
            0 <= k < f.methods.len() && contains_line(#[trigger] f.methods[k], line_no(h, i))
                ==> classify(f.methods[k], h, rule) is Unrelated,
        !in_context(h, rule.context_lines, line_no(h, i)),
        !opens_enclosing(f, line_no(h, i)),
    ensures
        !emit_upto(h, rule, f, h.lines.len() as int).contains(Emit::Line(i)),
{
    let l = line_no(h, i);
    lemma_first_of_class(f.methods, h, rule, EntityClass::Changed, l, 0);
    lemma_first_of_class(f.methods, h, rule, EntityClass::Contextual, l, 0);
    assert(line_action(h, rule, f, i) is Drop);
    lemma_emit_upto(h, rule, f, h.lines.len() as int);
}

/// The output never holds two placeholders side by side.
pub proof fn no_adjacent_placeholders(h: HunkView, rule: FilterRuleView, f: FileView, m: int)
    requires
        0 <= m < emit_upto(h, rule, f, h.lines.len() as int).len() - 1,
    ensures
        !(emit_upto(h, rule, f, h.lines.len() as int)[m] is Placeholder && emit_upto(
            h,
            rule,
            f,
            h.lines.len() as int,
        )[m + 1] is Placeholder),
{
    lemma_emit_upto(h, rule, f, h.lines.len() as int);
}

/// A suppressed line is stood for by a placeholder: once the line is
/// treated, the output ends in one, which the suppressed lines that follow
/// it directly share.
pub proof fn suppressed_line_leaves_placeholder(
    h: HunkView,
    rule: FilterRuleView,
    f: FileView,
    i: int,
)
    requires
        0 <= i < h.lines.len(),
        line_action(h, rule, f, i) is Suppress,
    ensures
        emit_upto(h, rule, f, i + 1).len() > 0,
        emit_upto(h, rule, f, i + 1).last() is Placeholder,
        emit_upto(h, rule, f, i + 1).is_prefix_of(emit_upto(h, rule, f, h.lines.len() as int)),
        i > 0 && line_action(h, rule, f, i - 1) is Suppress ==> emit_upto(h, rule, f, i + 1)
            == emit_upto(h, rule, f, i),
{
    lemma_emit_grows(h, rule, f, i + 1, h.lines.len() as int);
    if i > 0 && line_action(h, rule, f, i - 1) is Suppress {
        assert(emit_upto(h, rule, f, i) == emit_line(
            emit_upto(h, rule, f, i - 1),
            line_action(h, rule, f, i - 1),
            i - 1,
        ));
    }
}

/// Where whole bodies are not asked for, the output holds, besides
/// placeholders, only changed lines, signature lines of changed or
/// contextual entities, lines in the context of a change and lines that
/// open a namespace or class around a changed entity.
pub proof fn output_without_bodies_holds_marked_lines(
    h: HunkView,
    rule: FilterRuleView,
    f: FileView,
    m: int,
)
    requires
        !rule.include_method_body,
        0 <= m < emit_upto(h, rule, f, h.lines.len() as int).len(),
    ensures
        emit_upto(h, rule, f, h.lines.len() as int)[m] matches Emit::Line(i) ==> 0 <= i
            < h.lines.len() && (is_changed(h.lines[i]) || in_context(
            h,
            rule.context_lines,
            line_no(h, i),
        ) || opens_enclosing(f, line_no(h, i)) || exists|k: int|
            0 <= k < f.methods.len() && !(classify(#[trigger] f.methods[k], h, rule) is Unrelated)
                && contains_line(f.methods[k], line_no(h, i)) && line_no(h, i)
                == f.methods[k].signature_line),
{
    lemma_emit_upto(h, rule, f, h.lines.len() as int);
    let e = emit_upto(h, rule, f, h.lines.len() as int);
    if let Emit::Line(i) = e[m] {
        let l = line_no(h, i);
        assert(line_action(h, rule, f, i) is Keep);
        lemma_first_of_class(f.methods, h, rule, EntityClass::Changed, l, 0);
        lemma_first_of_class(f.methods, h, rule, EntityClass::Contextual, l, 0);
        if !is_changed(h.lines[i]) {
            match first_of_class(f.methods, h, rule, EntityClass::Changed, l, 0) {
                Some(k) => {
                    assert(classify(f.methods[k], h, rule) is Changed);
                },
                None => {
                    match first_of_class(f.methods, h, rule, EntityClass::Contextual, l, 0) {
                        Some(k) => {
                            assert(classify(f.methods[k], h, rule) is Contextual);
                        },
                        None => {},
                    }
                },
            }
        }
    }
}

/// The structural filter keeps the changed lines of a hunk, each as often
/// as it occurs, and adds none: a placeholder is no changed line.
pub proof fn structural_preserves_changes(h: HunkView, rule: FilterRuleView, f: FileView, k: int)
    requires
        0 <= k <= h.lines.len(),
    ensures
        changed_of(render(emit_upto(h, rule, f, k), h.lines)) == changed_in_lines(h.lines, k),
    decreases k,
{
    if k > 0 {
        structural_preserves_changes(h, rule, f, k - 1);
        let prev = emit_upto(h, rule, f, k - 1);
        let e = emit_upto(h, rule, f, k);
        let x = h.lines[k - 1];
        match line_action(h, rule, f, k - 1) {
            LineAction::Keep => {
                assert(render(e, h.lines) =~= render(prev, h.lines).push(x));
                lemma_changed_push(render(prev, h.lines), x);
            },
            LineAction::Suppress => {
                if !(prev.len() > 0 && prev.last() is Placeholder) {
                    reveal_strlit(" \u{22ee}----");
                    assert(render(e, h.lines) =~= render(prev, h.lines).push(placeholder()));
                    lemma_changed_push(render(prev, h.lines), placeholder());
                }
            },
            LineAction::Drop => {},
        }
    } else {
        assert(render(emit_upto(h, rule, f, k), h.lines) =~= Seq::<Seq<char>>::empty());
    }
}

} // verus!
