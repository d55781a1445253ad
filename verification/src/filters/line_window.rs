//! The line-window filter: keeps the lines of a hunk that lie within a given
//! number of lines of a change.

use crate::text::{first_char, lines_view};
use crate::utils::diff_parser::{
    count_new, count_old, hunks_view, is_added, is_changed, is_removed, Hunk, HunkView,
};
use crate::utils::diff_theory::{
    changed_in_hunks, changed_in_lines, changed_of, lemma_changed_hunks_push, lemma_changed_push,
};
use vstd::prelude::*;

verus! {

/// Line `j` exists and records a change.
pub open spec fn changed_at(lines: Seq<Seq<char>>, j: int) -> bool {
    0 <= j < lines.len() && is_changed(lines[j])
}

/// Some line records a change.
pub open spec fn has_change(lines: Seq<Seq<char>>) -> bool {
    exists|j: int| changed_at(lines, j)
}

/// Index `i` is at most `n` lines away from a changed line.
pub open spec fn near_change(lines: Seq<Seq<char>>, n: nat, i: int) -> bool {
    exists|j: int| changed_at(lines, j) && i - n <= j <= i + n
}

/// A changed line stands at or before `i`, at most `n` lines away.
pub open spec fn near_left(lines: Seq<Seq<char>>, n: nat, i: int) -> bool {
    exists|j: int| changed_at(lines, j) && i - n <= j <= i
}

/// A changed line stands at or after `i`, at most `n` lines away.
pub open spec fn near_right(lines: Seq<Seq<char>>, n: nat, i: int) -> bool {
    exists|j: int| changed_at(lines, j) && i <= j <= i + n
}

/// Of the first `k` lines, those near a change, in order.
pub open spec fn window_upto(lines: Seq<Seq<char>>, n: nat, k: int) -> Seq<Seq<char>>
    decreases k,
{
    if k <= 0 {
        Seq::empty()
    } else if near_change(lines, n, k - 1) {
        window_upto(lines, n, k - 1).push(lines[k - 1])
    } else {
        window_upto(lines, n, k - 1)
    }
}

/// The lines of a hunk that the window of `n` lines keeps.
pub open spec fn window_lines(lines: Seq<Seq<char>>, n: nat) -> Seq<Seq<char>> {
    window_upto(lines, n, lines.len() as int)
}

/// A hunk with other lines, both counts taken from those lines.
pub open spec fn with_lines(h: HunkView, lines: Seq<Seq<char>>) -> HunkView {
    HunkView { lines, new_count: count_new(lines), old_count: count_old(lines), ..h }
}

/// What the window makes of a hunk: nothing where no line records a change,
/// else the hunk reduced to the lines near a change.
pub open spec fn window_hunk(h: HunkView, n: nat) -> Option<HunkView> {
    if has_change(h.lines) {
        Some(with_lines(h, window_lines(h.lines, n)))
    } else {
        None
    }
}

/// What the window makes of the first `k` hunks: the reduced hunks, in order.
pub open spec fn window_hunks_upto(hunks: Seq<HunkView>, n: nat, k: int) -> Seq<HunkView>
    decreases k,
{
    if k <= 0 {
        Seq::empty()
    } else {
        match window_hunk(hunks[k - 1], n) {
            Some(h) => window_hunks_upto(hunks, n, k - 1).push(h),
            None => window_hunks_upto(hunks, n, k - 1),
        }
    }
}

/// What the window makes of a list of hunks.
pub open spec fn window_hunks(hunks: Seq<HunkView>, n: nat) -> Seq<HunkView> {
    window_hunks_upto(hunks, n, hunks.len() as int)
}

/// Whether a line records a change.
pub fn line_is_changed(line: &String) -> (b: bool)
    ensures
        b == is_changed(line@),
{
    let c = first_char(line.as_str());
    c == Some('+') || c == Some('-')
}

/// Whether a line is a removed line.
pub fn line_is_removed(line: &String) -> (b: bool)
    ensures
        b == is_removed(line@),
{
    first_char(line.as_str()) == Some('-')
}

/// Whether a line is an added line.
pub fn line_is_added(line: &String) -> (b: bool)
    ensures
        b == is_added(line@),
{
    first_char(line.as_str()) == Some('+')
}

/// For each line, whether it lies within `n` lines of a change.
fn mark_window(lines: &Vec<String>, n: usize) -> (keep: Vec<bool>)
    ensures
        keep@.len() == lines@.len(),
        forall|i: int|
            0 <= i < keep@.len() ==> keep@[i] == near_change(lines_view(lines@), n as nat, i),
        (exists|i: int| 0 <= i < keep@.len() && keep@[i]) == has_change(lines_view(lines@)),
{
    let ghost ls = lines_view(lines@);
    let len = lines.len();
    let mut keep: Vec<bool> = Vec::new();
    let mut last: Option<usize> = None;
    let mut i: usize = 0;
    while i < len
        invariant
            i <= len,
            len == lines.len(),
            ls == lines_view(lines@),
            keep@.len() == i,
            forall|k: int| 0 <= k < i ==> keep@[k] == near_left(ls, n as nat, k),
            match last {
                Some(j) => j < i && changed_at(ls, j as int) && forall|m: int|
                    j < m < i ==> !changed_at(ls, m),
                None => forall|m: int| 0 <= m < i ==> !changed_at(ls, m),
            },
        decreases len - i,
    {
        assert(ls[i as int] == lines@[i as int]@);
        if line_is_changed(&lines[i]) {
            last = Some(i);
        }
        let near = match last {
            Some(j) => i - j <= n,
            None => false,
        };
        proof {
            if near {
                assert(changed_at(ls, last->0 as int));
            }
            if near_left(ls, n as nat, i as int) {
                let w = choose|j: int| changed_at(ls, j) && i - n <= j <= i;
                assert(last is Some);
                assert(w <= last->0);
            }
        }
        keep.push(near);
        i += 1;
    }
    let mut next: Option<usize> = None;
    let mut any = false;
    while i > 0
        invariant
            i <= len,
            len == lines.len(),
            ls == lines_view(lines@),
            keep@.len() == len,
            forall|k: int| 0 <= k < i ==> keep@[k] == near_left(ls, n as nat, k),
            forall|k: int| i <= k < len ==> keep@[k] == near_change(ls, n as nat, k),
            match next {
                Some(j) => i <= j < len && changed_at(ls, j as int) && forall|m: int|
                    i <= m < j ==> !changed_at(ls, m),
                None => forall|m: int| i <= m < len ==> !changed_at(ls, m),
            },
            any == (next is Some),
        decreases i,
    {
        i -= 1;
        assert(ls[i as int] == lines@[i as int]@);
        if line_is_changed(&lines[i]) {
            next = Some(i);
            any = true;
        }
        let near = match next {
            Some(j) => j - i <= n,
            None => false,
        };
        proof {
            if near {
                assert(changed_at(ls, next->0 as int));
            }
            if near_right(ls, n as nat, i as int) {
                let w = choose|j: int| changed_at(ls, j) && i <= j <= i + n;
                assert(next is Some);
                assert(next->0 <= w);
            }
            assert(near == near_right(ls, n as nat, i as int));
            if near_change(ls, n as nat, i as int) {
                let w = choose|j: int| changed_at(ls, j) && i - n <= j <= i + n;
                if w <= i {
                    assert(near_left(ls, n as nat, i as int));
                } else {
                    assert(near_right(ls, n as nat, i as int));
                }
            }
            if near_left(ls, n as nat, i as int) {
                let w = choose|j: int| changed_at(ls, j) && i - n <= j <= i;
                assert(near_change(ls, n as nat, i as int));
            }
            if near_right(ls, n as nat, i as int) {
                let w = choose|j: int| changed_at(ls, j) && i <= j <= i + n;
                assert(near_change(ls, n as nat, i as int));
            }
        }
        let both = keep[i] || near;
        keep.set(i, both);
    }
    proof {
        if has_change(ls) {
            let w = choose|j: int| changed_at(ls, j);
            assert(near_change(ls, n as nat, w));
            assert(keep@[w]);
        }
        if exists|k: int| 0 <= k < keep@.len() && keep@[k] {
            let k = choose|k: int| 0 <= k < keep@.len() && keep@[k];
            let w = choose|j: int| changed_at(ls, j) && k - n <= j <= k + n;
            assert(changed_at(ls, w));
        }
    }
    keep
}

/// Reduces a hunk to the lines within `context_lines` of a change, with
/// both counts taken from the lines that stay. A hunk without a change is
/// dropped.
pub fn filter_hunk(hunk: &Hunk, context_lines: usize) -> (r: Option<Hunk>)
    ensures
        match r {
            Some(h) => window_hunk(hunk@, context_lines as nat) == Some(h@),
            None => window_hunk(hunk@, context_lines as nat) is None,
        },
        r is None <==> !has_change(hunk@.lines),
{
    let keep = mark_window(&hunk.lines, context_lines);
    let ghost ls = lines_view(hunk.lines@);
    let ghost n = context_lines as nat;
    let mut out: Vec<String> = Vec::new();
    let mut any = false;
    let mut i: usize = 0;
    assert(lines_view(out@) =~= window_upto(ls, n, 0));
    while i < hunk.lines.len()
        invariant
            i <= hunk.lines.len(),
            ls == lines_view(hunk.lines@),
            n == context_lines as nat,
            keep@.len() == hunk.lines@.len(),
            forall|k: int| 0 <= k < keep@.len() ==> keep@[k] == near_change(ls, n, k),
            lines_view(out@) == window_upto(ls, n, i as int),
            any == (exists|k: int| 0 <= k < i && keep@[k]),
        decreases hunk.lines.len() - i,
    {
        if keep[i] {
            let ghost before = lines_view(out@);
            out.push(hunk.lines[i].clone());
            assert(lines_view(out@) =~= before.push(ls[i as int]));
            any = true;
        }
        i += 1;
    }
    if any {
        Some(hunk.with_lines(out))
    } else {
        None
    }
}

/// Reduces each hunk of a list, and leaves out those without a change.
pub fn filter_hunks(hunks: &Vec<Hunk>, context_lines: usize) -> (out: Vec<Hunk>)
    ensures
        hunks_view(out@) == window_hunks(hunks_view(hunks@), context_lines as nat),
{
    let ghost hv = hunks_view(hunks@);
    let ghost n = context_lines as nat;
    let mut out: Vec<Hunk> = Vec::new();
    let mut i: usize = 0;
    assert(hunks_view(out@) =~= window_hunks_upto(hv, n, 0));
    while i < hunks.len()
        invariant
            i <= hunks.len(),
            hv == hunks_view(hunks@),
            n == context_lines as nat,
            hunks_view(out@) == window_hunks_upto(hv, n, i as int),
        decreases hunks.len() - i,
    {
        assert(hv[i as int] == hunks@[i as int]@);
        let ghost before = hunks_view(out@);
        let r = filter_hunk(&hunks[i], context_lines);
        match r {
            Some(h) => {
                assert(window_hunk(hv[i as int], n) == Some(h@));
                out.push(h);
                assert(hunks_view(out@) =~= before.push(h@));
            },
            None => {
                assert(window_hunk(hv[i as int], n) is None);
            },
        }
        i += 1;
    }
    out
}

/// What the window keeps of the first `k` lines are exactly those within
/// `n` lines of a changed line, in their old order: `src` gives, for each
/// kept line, its index in the hunk.
pub proof fn window_keeps_near_lines(lines: Seq<Seq<char>>, n: nat, k: int) -> (src: Seq<int>)
    requires
        0 <= k <= lines.len(),
    ensures
        src.len() == window_upto(lines, n, k).len(),
        forall|m: int|
            0 <= m < src.len() ==> 0 <= #[trigger] src[m] < k && near_change(lines, n, src[m])
                && window_upto(lines, n, k)[m] == lines[src[m]],
        forall|a: int, b: int| 0 <= a < b < src.len() ==> src[a] < src[b],
        forall|i: int| 0 <= i < k && #[trigger] near_change(lines, n, i) ==> src.contains(i),
    decreases k,
{
    if k <= 0 {
        Seq::empty()
    } else {
        let prev = window_keeps_near_lines(lines, n, k - 1);
        if near_change(lines, n, k - 1) {
            let src = prev.push(k - 1);
            assert forall|i: int| 0 <= i < k && #[trigger] near_change(
                lines,
                n,
                i,
            ) implies src.contains(i) by {
                if i < k - 1 {
                    assert(prev.contains(i));
                    let m = choose|m: int| 0 <= m < prev.len() && prev[m] == i;
                    assert(src[m] == i);
                } else {
                    assert(src[src.len() - 1] == i);
                }
            }
            src
        } else {
            prev
        }
    }
}

/// A line that records a change is kept by every window.
pub proof fn window_keeps_changes(lines: Seq<Seq<char>>, n: nat, j: int)
    requires
        changed_at(lines, j),
    ensures
        window_lines(lines, n).contains(lines[j]),
{
    let src = window_keeps_near_lines(lines, n, lines.len() as int);
    assert(near_change(lines, n, j));
    assert(src.contains(j));
    let m = choose|m: int| 0 <= m < src.len() && src[m] == j;
    assert(window_lines(lines, n)[m] == lines[j]);
}


/// The window keeps the changed lines of a hunk, each as often as it
/// occurs, and adds none.
pub proof fn window_preserves_changes(lines: Seq<Seq<char>>, n: nat, k: int)
    requires
        0 <= k <= lines.len(),
    ensures
        changed_of(window_upto(lines, n, k)) == changed_in_lines(lines, k),
    decreases k,
{
    if k > 0 {
        window_preserves_changes(lines, n, k - 1);
        let x = lines[k - 1];
        if near_change(lines, n, k - 1) {
            lemma_changed_push(window_upto(lines, n, k - 1), x);
        } else if is_changed(x) {
            assert(changed_at(lines, k - 1));
        }
    }
}


/// Lines of which none is changed hold no changed line.
pub proof fn lemma_no_change_no_lines(lines: Seq<Seq<char>>, k: int)
    requires
        0 <= k <= lines.len(),
        !has_change(lines),
    ensures
        changed_in_lines(lines, k) == vstd::multiset::Multiset::<Seq<char>>::empty(),
    decreases k,
{
    if k > 0 {
        lemma_no_change_no_lines(lines, k - 1);
        assert(!changed_at(lines, k - 1));
    }
}

/// The window keeps the changed lines of a list of hunks, each as often as
/// it occurs, and adds none.
pub proof fn window_hunks_preserve_changes(hunks: Seq<HunkView>, n: nat, k: int)
    requires
        0 <= k <= hunks.len(),
    ensures
        changed_in_hunks(
            window_hunks_upto(hunks, n, k),
            window_hunks_upto(hunks, n, k).len() as int,
        ) == changed_in_hunks(hunks, k),
    decreases k,
{
    if k > 0 {
        window_hunks_preserve_changes(hunks, n, k - 1);
        let h = hunks[k - 1];
        let prev = window_hunks_upto(hunks, n, k - 1);
        if has_change(h.lines) {
            window_preserves_changes(h.lines, n, h.lines.len() as int);
            lemma_changed_hunks_push(prev, with_lines(h, window_lines(h.lines, n)));
        } else {
            lemma_no_change_no_lines(h.lines, h.lines.len() as int);
            assert(changed_in_hunks(hunks, k) =~= changed_in_hunks(hunks, k - 1));
        }
    }
}

/// Each hunk that the window leaves is a hunk of the input that holds a
/// change, reduced to its lines near a change: `src` is its index.
pub proof fn window_hunks_come_from(hunks: Seq<HunkView>, n: nat, k: int, m: int) -> (src: int)
    requires
        0 <= k <= hunks.len(),
        0 <= m < window_hunks_upto(hunks, n, k).len(),
    ensures
        0 <= src < k,
        has_change(hunks[src].lines),
        window_hunks_upto(hunks, n, k)[m] == with_lines(
            hunks[src],
            window_lines(hunks[src].lines, n),
        ),
    decreases k,
{
    let prev = window_hunks_upto(hunks, n, k - 1);
    if m < prev.len() {
        window_hunks_come_from(hunks, n, k - 1, m)
    } else {
        k - 1
    }
}

} // verus!
