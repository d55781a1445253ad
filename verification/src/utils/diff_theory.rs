//! What holds of the parser and the writer of diffs, beyond the contract of
//! each.

use crate::text::{
    first_newline, join_lines, lemma_first_newline_at, lemma_first_newline_bounds, split_lines,
    strip_cr,
};
use crate::utils::diff_parser::{
    block_header, header_numbers, hunk_lines_upto, initial_state, insert_entry, is_changed,
    is_file_header, lemma_position, lemma_rename_index, no_rename, note_rename, parse_from,
    parse_lines, patch_lines, patch_lines_upto, plain_header, position, rename_header,
    rename_index, scan_rename, step, FilePatchView, HunkView, ParseView, RenameView,
};
use crate::pattern::regex_captures;
use vstd::multiset::Multiset;
use vstd::prelude::*;

verus! {

/// Every hunk belongs to the rename of `x` to `y`.
pub open spec fn hunks_carry(hunks: Seq<HunkView>, x: Seq<char>, y: Seq<char>) -> bool {
    forall|k: int|
        0 <= k < hunks.len() ==> (#[trigger] hunks[k]).is_rename && hunks[k].rename_from == Some(x)
            && hunks[k].rename_to == Some(y)
}

/// The lines are one block of a diff: they open with a file header and hold
/// no other; and the block renames `x` to `y`: its last `rename from` line
/// names `x` and its last `rename to` line `y`. A similarity line may be
/// there or not.
pub open spec fn renamed_block(lines: Seq<Seq<char>>, x: Seq<char>, y: Seq<char>) -> bool {
    &&& lines.len() > 0
    &&& is_file_header(lines[0])
    &&& forall|j: int| 1 <= j < lines.len() ==> !is_file_header(#[trigger] lines[j])
    &&& scan_rename(lines, 1, no_rename()).from == Some(x)
    &&& scan_rename(lines, 1, no_rename()).to == Some(y)
}

/// Line `j` names the new file: it begins with `+++ b/`.
pub open spec fn names_file(lines: Seq<Seq<char>>, j: int) -> bool {
    0 <= j < lines.len() && "+++ b/"@.is_prefix_of(lines[j])
}

/// A line from `j` on names the new file.
pub open spec fn names_file_from(lines: Seq<Seq<char>>, j: int) -> bool {
    exists|m: int| j <= m && names_file(lines, m)
}

/// Line `j` opens a hunk: it begins with `@@` and the pattern finds the
/// numbers of a hunk header in it.
pub open spec fn opens_new_hunk(lines: Seq<Seq<char>>, pattern: Seq<char>, j: int) -> bool {
    0 <= j < lines.len() && "@@"@.is_prefix_of(lines[j]) && header_numbers(
        regex_captures(pattern, lines[j]),
    ) is Some
}

/// The lines from `j` on that open a hunk, in order.
pub open spec fn opened_headers(lines: Seq<Seq<char>>, pattern: Seq<char>, j: int) -> Seq<
    Seq<char>,
>
    decreases lines.len() - j,
{
    if j < 0 || j >= lines.len() {
        Seq::empty()
    } else if opens_new_hunk(lines, pattern, j) {
        seq![lines[j]] + opened_headers(lines, pattern, j + 1)
    } else {
        opened_headers(lines, pattern, j + 1)
    }
}

/// The header lines of a list of hunks.
pub open spec fn headers_of(hunks: Seq<HunkView>) -> Seq<Seq<char>> {
    Seq::new(hunks.len(), |i: int| hunks[i].header)
}

/// What holds of the parser's state inside a block that renames `x` to `y`.
pub open spec fn in_renamed_block(st: ParseView, info: RenameView, x: Seq<char>, y: Seq<char>) -> bool {
    &&& st.files.len() == 0
    &&& st.rename == info
    &&& (st.current_file is None || st.current_file == Some(y))
    &&& hunks_carry(st.hunks, x, y)
}

/// The rename information marks a rename exactly where it names both
/// paths.
pub proof fn lemma_scan_flag(lines: Seq<Seq<char>>, j: int, acc: RenameView)
    requires
        acc.is_rename == (acc.from is Some && acc.to is Some),
    ensures
        scan_rename(lines, j, acc).is_rename == (scan_rename(lines, j, acc).from is Some
            && scan_rename(lines, j, acc).to is Some),
    decreases lines.len() - j,
{
    if 0 <= j < lines.len() && !is_file_header(lines[j]) {
        lemma_scan_flag(lines, j + 1, note_rename(acc, lines[j]));
    }
}

/// A line begins with at most one of the words by which the parser tells
/// the lines apart.
pub proof fn lemma_kinds_apart(l: Seq<char>)
    ensures
        "@@"@.is_prefix_of(l) ==> !is_file_header(l) && !"--- a/"@.is_prefix_of(l)
            && !"+++ b/"@.is_prefix_of(l),
        "+++ b/"@.is_prefix_of(l) ==> !is_file_header(l) && !"--- a/"@.is_prefix_of(l),
        "--- a/"@.is_prefix_of(l) ==> !is_file_header(l),
{
    reveal_strlit("@@");
    reveal_strlit("diff --git");
    reveal_strlit("--- a/");
    reveal_strlit("+++ b/");
    if "@@"@.is_prefix_of(l) {
        assert(l.subrange(0, 2)[0] == '@');
    }
    if "+++ b/"@.is_prefix_of(l) {
        assert(l.subrange(0, 6)[0] == '+');
    }
    if "--- a/"@.is_prefix_of(l) {
        assert(l.subrange(0, 6)[0] == '-');
    }
    if is_file_header(l) {
        assert(l.subrange(0, 10)[0] == 'd');
    }
}

proof fn lemma_renamed_block(
    lines: Seq<Seq<char>>,
    pattern: Seq<char>,
    j: int,
    st: ParseView,
    x: Seq<char>,
    y: Seq<char>,
)
    requires
        renamed_block(lines, x, y),
        scan_rename(lines, 1, no_rename()).is_rename,
        1 <= j <= lines.len(),
        in_renamed_block(st, scan_rename(lines, 1, no_rename()), x, y),
    ensures
        in_renamed_block(
            parse_from(lines, pattern, j, st),
            scan_rename(lines, 1, no_rename()),
            x,
            y,
        ),
        headers_of(parse_from(lines, pattern, j, st).hunks) == headers_of(st.hunks)
            + opened_headers(lines, pattern, j),
        parse_from(lines, pattern, j, st).current_file is Some <==> st.current_file is Some
            || names_file_from(lines, j),
    decreases lines.len() - j,
{
    if j < lines.len() {
        let l = lines[j];
        let next = step(st, lines, pattern, j);
        let last = parse_from(lines, pattern, j, st);
        assert(!is_file_header(l));
        lemma_kinds_apart(l);
        assert(hunks_carry(next.hunks, x, y)) by {
            assert forall|k: int| 0 <= k < next.hunks.len() implies (#[trigger] next.hunks[k]).is_rename
                && next.hunks[k].rename_from == Some(x) && next.hunks[k].rename_to == Some(y) by {
                if k < st.hunks.len() {
                    assert(st.hunks[k].is_rename);
                }
            }
        }
        lemma_renamed_block(lines, pattern, j + 1, next, x, y);
        assert(headers_of(next.hunks) =~= headers_of(st.hunks) + (if opens_new_hunk(
            lines,
            pattern,
            j,
        ) {
            seq![l]
        } else {
            Seq::empty()
        }));
        assert(headers_of(last.hunks) =~= headers_of(st.hunks) + opened_headers(lines, pattern, j));
        assert(next.current_file is Some <==> st.current_file is Some || names_file(lines, j));
        if names_file_from(lines, j) {
            let m = choose|m: int| j <= m && names_file(lines, m);
            if m > j {
                assert(names_file_from(lines, j + 1));
            }
        }
        if names_file_from(lines, j + 1) {
            let m = choose|m: int| j + 1 <= m && names_file(lines, m);
            assert(j <= m && names_file(lines, m));
        }
    } else {
        assert(headers_of(st.hunks) + opened_headers(lines, pattern, j) =~= headers_of(st.hunks));
    }
}

/// A diff of one block that renames `x` to `y`, with or without a
/// similarity line: if a line names the new file, the diff is keyed under
/// `y` and under nothing else, else it holds no file; the file holds the
/// hunks that the block opens, in their order, and each is marked as a
/// rename from `x` to `y`.
pub proof fn rename_is_keyed_under_target(
    raw: Seq<char>,
    pattern: Seq<char>,
    x: Seq<char>,
    y: Seq<char>,
)
    requires
        renamed_block(split_lines(raw), x, y),
    ensures
        parse_lines(split_lines(raw), pattern).len() == (if names_file_from(split_lines(raw), 1) {
            1nat
        } else {
            0nat
        }),
        forall|k: int|
            0 <= k < parse_lines(split_lines(raw), pattern).len() ==> {
                let file = #[trigger] parse_lines(split_lines(raw), pattern)[k];
                &&& file.name == y
                &&& hunks_carry(file.hunks, x, y)
                &&& headers_of(file.hunks) == opened_headers(split_lines(raw), pattern, 1)
            },
        x != y ==> position(parse_lines(split_lines(raw), pattern), x) == parse_lines(
            split_lines(raw),
            pattern,
        ).len(),
{
    let lines = split_lines(raw);
    lemma_scan_flag(lines, 1, no_rename());
    let first = step(initial_state(), lines, pattern, 0);
    lemma_renamed_block(lines, pattern, 1, first, x, y);
    let last = parse_from(lines, pattern, 1, first);
    assert(parse_from(lines, pattern, 0, initial_state()) == last);
    assert(headers_of(first.hunks) + opened_headers(lines, pattern, 1) =~= opened_headers(
        lines,
        pattern,
        1,
    ));
    lemma_position(last.files, y);
    let files = parse_lines(lines, pattern);
    lemma_position(files, x);
}

/// The changed lines among the first `k` lines, each as often as it occurs.
pub open spec fn changed_in_lines(lines: Seq<Seq<char>>, k: int) -> Multiset<Seq<char>>
    decreases k,
{
    if k <= 0 {
        Multiset::empty()
    } else if is_changed(lines[k - 1]) {
        changed_in_lines(lines, k - 1).insert(lines[k - 1])
    } else {
        changed_in_lines(lines, k - 1)
    }
}

/// The changed lines among all the lines.
pub open spec fn changed_of(lines: Seq<Seq<char>>) -> Multiset<Seq<char>> {
    changed_in_lines(lines, lines.len() as int)
}

/// The changed lines among the first `k` lines depend on those lines only.
pub proof fn lemma_changed_prefix(a: Seq<Seq<char>>, b: Seq<Seq<char>>, k: int)
    requires
        0 <= k <= a.len(),
        k <= b.len(),
        forall|i: int| 0 <= i < k ==> a[i] == b[i],
    ensures
        changed_in_lines(a, k) == changed_in_lines(b, k),
    decreases k,
{
    if k > 0 {
        lemma_changed_prefix(a, b, k - 1);
    }
}

/// One more line adds itself to the changed lines where it is changed.
pub proof fn lemma_changed_push(s: Seq<Seq<char>>, x: Seq<char>)
    ensures
        changed_of(s.push(x)) == if is_changed(x) {
            changed_of(s).insert(x)
        } else {
            changed_of(s)
        },
{
    lemma_changed_prefix(s.push(x), s, s.len() as int);
}

/// The changed lines of the first `k` hunks.
pub open spec fn changed_in_hunks(hunks: Seq<HunkView>, k: int) -> Multiset<Seq<char>>
    decreases k,
{
    if k <= 0 {
        Multiset::empty()
    } else {
        changed_in_hunks(hunks, k - 1).add(
            changed_in_lines(hunks[k - 1].lines, hunks[k - 1].lines.len() as int),
        )
    }
}

/// The changed lines stored under `name`; none where no file is.
pub open spec fn changed_lines_of(files: Seq<FilePatchView>, name: Seq<char>) -> Multiset<
    Seq<char>,
> {
    let p = position(files, name);
    if 0 <= p < files.len() {
        changed_in_hunks(files[p].hunks, files[p].hunks.len() as int)
    } else {
        Multiset::empty()
    }
}

/// No file holds a changed line.
pub open spec fn holds_no_change(files: Seq<FilePatchView>) -> bool {
    forall|n: Seq<char>| #[trigger] changed_lines_of(files, n) == Multiset::<Seq<char>>::empty()
}

/// A text without a line feed.
pub open spec fn no_feed(s: Seq<char>) -> bool {
    forall|i: int| 0 <= i < s.len() ==> s[i] != '\n'
}

/// A line that begins like a hunk header.
pub open spec fn opens_hunk(l: Seq<char>) -> bool {
    "@@"@.is_prefix_of(l)
}

/// A line that the writer can put out and the parser reads back as one line
/// that opens no hunk.
pub open spec fn tame(l: Seq<char>) -> bool {
    no_feed(l) && !opens_hunk(l)
}

/// A text, if there is one, without a line feed.
pub open spec fn opt_no_feed(o: Option<Seq<char>>) -> bool {
    o matches Some(s) ==> no_feed(s)
}

/// A line, if there is one, that is tame.
pub open spec fn opt_tame(o: Option<Seq<char>>) -> bool {
    o matches Some(s) ==> tame(s)
}

/// Rename information whose paths hold no line feed and whose similarity
/// line is tame.
pub open spec fn rename_tame(r: RenameView) -> bool {
    opt_no_feed(r.from) && opt_no_feed(r.to) && opt_tame(r.similarity)
}

/// A hunk whose lines and similarity line are tame and whose paths hold no
/// line feed.
pub open spec fn hunk_tame(h: HunkView) -> bool {
    &&& forall|i: int| 0 <= i < h.lines.len() ==> tame(#[trigger] h.lines[i])
    &&& opt_no_feed(h.rename_from)
    &&& opt_no_feed(h.rename_to)
    &&& opt_tame(h.similarity_index)
}

/// Every hunk is tame.
pub open spec fn hunks_tame(hunks: Seq<HunkView>) -> bool {
    forall|m: int| 0 <= m < hunks.len() ==> hunk_tame(#[trigger] hunks[m])
}

/// Every file has a name without a line feed and tame hunks.
pub open spec fn files_tame(files: Seq<FilePatchView>) -> bool {
    forall|k: int|
        0 <= k < files.len() ==> no_feed((#[trigger] files[k]).name) && hunks_tame(files[k].hunks)
}

/// A state of the parser that holds tame files, hunks and rename
/// information.
pub open spec fn state_tame(st: ParseView) -> bool {
    files_tame(st.files) && opt_no_feed(st.current_file) && hunks_tame(st.hunks) && rename_tame(
        st.rename,
    )
}

/// No line holds a line feed.
pub open spec fn lines_no_feed(lines: Seq<Seq<char>>) -> bool {
    forall|j: int| 0 <= j < lines.len() ==> no_feed(#[trigger] lines[j])
}

/// Every line is tame.
pub open spec fn lines_tame(lines: Seq<Seq<char>>) -> bool {
    forall|j: int| 0 <= j < lines.len() ==> tame(#[trigger] lines[j])
}

/// No file has a hunk.
pub open spec fn no_hunks(files: Seq<FilePatchView>) -> bool {
    forall|k: int| 0 <= k < files.len() ==> (#[trigger] files[k]).hunks.len() == 0
}

/// No line of a text holds a line feed.
pub proof fn lemma_split_no_feed(t: Seq<char>)
    ensures
        lines_no_feed(split_lines(t)),
    decreases t.len(),
{
    if t.len() > 0 {
        lemma_first_newline_bounds(t);
        let k = first_newline(t);
        if k < t.len() {
            let rest = t.subrange(k + 1, t.len() as int);
            lemma_split_no_feed(rest);
            let head = strip_cr(t.subrange(0, k));
            assert(no_feed(head)) by {
                assert forall|i: int| 0 <= i < head.len() implies head[i] != '\n' by {
                    assert(head[i] == t[i]);
                }
            }
            assert forall|j: int| 0 <= j < split_lines(t).len() implies no_feed(
                #[trigger] split_lines(t)[j],
            ) by {
                if j > 0 {
                    assert(split_lines(t)[j] == split_lines(rest)[j - 1]);
                }
            }
        }
    }
}

/// Joined lines begin with the first line and a line feed.
pub proof fn lemma_join_forward(ls: Seq<Seq<char>>)
    requires
        ls.len() >= 2,
    ensures
        join_lines(ls) == ls[0] + seq!['\n'] + join_lines(ls.drop_first()),
    decreases ls.len(),
{
    let tail = ls.drop_first();
    if ls.len() == 2 {
        assert(ls.drop_last().len() == 1);
        assert(join_lines(ls.drop_last()) == ls[0]);
        assert(join_lines(tail) == ls[1]);
    } else {
        let a = ls.drop_last();
        lemma_join_forward(a);
        assert(tail.drop_last() =~= a.drop_first());
        assert(join_lines(tail) == join_lines(a.drop_first()) + seq!['\n'] + ls.last());
        assert(join_lines(ls) =~= ls[0] + seq!['\n'] + join_lines(tail));
    }
}

/// The lines of a text that begins with a line and a line feed.
pub proof fn lemma_split_head(u: Seq<char>, v: Seq<char>)
    requires
        no_feed(u),
    ensures
        split_lines(u + seq!['\n'] + v) == seq![strip_cr(u)] + split_lines(v),
{
    let t = u + seq!['\n'] + v;
    lemma_first_newline_at(t, u.len() as int);
    assert(t.subrange(0, u.len() as int) =~= u);
    assert(t.subrange(u.len() as int + 1, t.len() as int) =~= v);
}

/// Each line read back from joined lines is the beginning of one of them.
pub proof fn lemma_read_back(ls: Seq<Seq<char>>)
    requires
        lines_no_feed(ls),
    ensures
        forall|j: int|
            0 <= j < split_lines(join_lines(ls)).len() ==> exists|m: int|
                0 <= m < ls.len() && (#[trigger] split_lines(join_lines(ls))[j]).is_prefix_of(
                    #[trigger] ls[m],
                ),
    decreases ls.len(),
{
    let back = split_lines(join_lines(ls));
    if ls.len() == 1 {
        let t = ls[0];
        assert(no_feed(t));
        if t.len() > 0 {
            lemma_first_newline_at(t, t.len() as int);
            assert(back =~= seq![t]);
            assert(t.is_prefix_of(ls[0]));
        }
    } else if ls.len() >= 2 {
        let rest = ls.drop_first();
        lemma_join_forward(ls);
        assert(no_feed(ls[0]));
        lemma_split_head(ls[0], join_lines(rest));
        assert(lines_no_feed(rest)) by {
            assert forall|j: int| 0 <= j < rest.len() implies no_feed(#[trigger] rest[j]) by {
                assert(rest[j] == ls[j + 1]);
            }
        }
        lemma_read_back(rest);
        let back_rest = split_lines(join_lines(rest));
        assert forall|j: int| 0 <= j < back.len() implies exists|m: int|
            0 <= m < ls.len() && (#[trigger] back[j]).is_prefix_of(#[trigger] ls[m]) by {
            if j == 0 {
                assert(back[0] == strip_cr(ls[0]));
                assert(back[0].is_prefix_of(ls[0]));
            } else {
                assert(back[j] == back_rest[j - 1]);
                let m = choose|m: int|
                    0 <= m < rest.len() && back_rest[j - 1].is_prefix_of(#[trigger] rest[m]);
                assert(rest[m] == ls[m + 1]);
                assert(back[j].is_prefix_of(ls[m + 1]));
            }
        }
    }
}

/// Tame lines are read back as lines that open no hunk.
pub proof fn lemma_read_back_opens_no_hunk(ls: Seq<Seq<char>>)
    requires
        lines_tame(ls),
    ensures
        forall|j: int|
            0 <= j < split_lines(join_lines(ls)).len() ==> !opens_hunk(
                #[trigger] split_lines(join_lines(ls))[j],
            ),
{
    let back = split_lines(join_lines(ls));
    assert(lines_no_feed(ls)) by {
        assert forall|j: int| 0 <= j < ls.len() implies no_feed(#[trigger] ls[j]) by {
            assert(tame(ls[j]));
        }
    }
    lemma_read_back(ls);
    assert forall|j: int| 0 <= j < back.len() implies !opens_hunk(#[trigger] back[j]) by {
        let m = choose|m: int| 0 <= m < ls.len() && back[j].is_prefix_of(#[trigger] ls[m]);
        assert(tame(ls[m]));
        if opens_hunk(back[j]) {
            let p = "@@"@;
            assert(ls[m].subrange(0, p.len() as int) =~= back[j].subrange(0, p.len() as int));
        }
    }
}

/// Storing a file without hunks among files without hunks leaves no hunk.
pub proof fn lemma_insert_no_hunks(files: Seq<FilePatchView>, name: Seq<char>)
    requires
        no_hunks(files),
    ensures
        no_hunks(insert_entry(files, name, Seq::empty())),
{
    lemma_position(files, name);
    let out = insert_entry(files, name, Seq::empty());
    assert forall|k: int| 0 <= k < out.len() implies (#[trigger] out[k]).hunks.len() == 0 by {
        if k < files.len() && k != position(files, name) {
            assert(out[k] == files[k]);
        }
    }
}

/// Lines of which none opens a hunk give files without hunks.
pub proof fn lemma_no_hunks(lines: Seq<Seq<char>>, pattern: Seq<char>, j: int, st: ParseView)
    requires
        0 <= j <= lines.len(),
        forall|m: int| 0 <= m < lines.len() ==> !opens_hunk(#[trigger] lines[m]),
        st.hunks.len() == 0,
        no_hunks(st.files),
    ensures
        parse_from(lines, pattern, j, st).hunks.len() == 0,
        no_hunks(parse_from(lines, pattern, j, st).files),
    decreases lines.len() - j,
{
    if j < lines.len() {
        let next = step(st, lines, pattern, j);
        assert(!opens_hunk(lines[j]));
        if is_file_header(lines[j]) && st.current_file is Some {
            lemma_insert_no_hunks(st.files, st.current_file->0);
            assert(st.hunks =~= Seq::<HunkView>::empty());
        }
        lemma_no_hunks(lines, pattern, j + 1, next);
    }
}

/// The first characters of the words that the writer and the parser use.
pub proof fn lemma_words()
    ensures
        "@@"@.len() == 2 && "@@"@[0] == '@',
        no_feed("diff --git a/"@) && "diff --git a/"@.len() > 0 && "diff --git a/"@[0] == 'd',
        no_feed(" b/"@),
        no_feed("--- a/"@) && "--- a/"@.len() > 0 && "--- a/"@[0] == '-',
        no_feed("+++ b/"@) && "+++ b/"@.len() > 0 && "+++ b/"@[0] == '+',
        no_feed("rename from "@) && "rename from "@.len() > 0 && "rename from "@[0] == 'r',
        no_feed("rename to "@) && "rename to "@.len() > 0 && "rename to "@[0] == 'r',
        "similarity index "@.len() > 0 && "similarity index "@[0] == 's',
{
    reveal_strlit("@@");
    reveal_strlit("diff --git a/");
    reveal_strlit(" b/");
    reveal_strlit("--- a/");
    reveal_strlit("+++ b/");
    reveal_strlit("rename from ");
    reveal_strlit("rename to ");
    reveal_strlit("similarity index ");
}

/// A word that begins otherwise than a hunk header, followed by a text
/// without a line feed, is a tame line.
pub proof fn lemma_worded_line(word: Seq<char>, rest: Seq<char>)
    requires
        no_feed(word),
        no_feed(rest),
        word.len() > 0,
        word[0] != '@',
    ensures
        tame(word + rest),
{
    lemma_words();
    let l = word + rest;
    assert(l[0] == word[0]);
    if opens_hunk(l) {
        assert(l.subrange(0, 2)[0] == "@@"@[0]);
    }
}

/// What a line adds to tame rename information is tame.
pub proof fn lemma_note_tame(acc: RenameView, l: Seq<char>)
    requires
        rename_tame(acc),
        no_feed(l),
    ensures
        rename_tame(note_rename(acc, l)),
{
    lemma_words();
    if "similarity index "@.is_prefix_of(l) {
        let w = "similarity index "@;
        assert(l.subrange(0, w.len() as int)[0] == w[0]);
        if opens_hunk(l) {
            assert(l.subrange(0, 2)[0] == "@@"@[0]);
        }
    }
}

/// The rename information gathered from lines without line feeds is tame.
pub proof fn lemma_scan_tame(lines: Seq<Seq<char>>, j: int, acc: RenameView)
    requires
        lines_no_feed(lines),
        rename_tame(acc),
    ensures
        rename_tame(scan_rename(lines, j, acc)),
    decreases lines.len() - j,
{
    if 0 <= j < lines.len() && !is_file_header(lines[j]) {
        lemma_note_tame(acc, lines[j]);
        lemma_scan_tame(lines, j + 1, note_rename(acc, lines[j]));
    }
}

/// Storing a tame file among tame files leaves them tame.
pub proof fn lemma_insert_tame(files: Seq<FilePatchView>, name: Seq<char>, hunks: Seq<HunkView>)
    requires
        files_tame(files),
        no_feed(name),
        hunks_tame(hunks),
    ensures
        files_tame(insert_entry(files, name, hunks)),
{
    lemma_position(files, name);
    let out = insert_entry(files, name, hunks);
    assert forall|k: int| 0 <= k < out.len() implies no_feed((#[trigger] out[k]).name)
        && hunks_tame(out[k].hunks) by {
        if k < files.len() && k != position(files, name) {
            assert(out[k] == files[k]);
        }
    }
}

/// One line of input without a line feed keeps the parser's state tame.
pub proof fn lemma_step_tame(st: ParseView, lines: Seq<Seq<char>>, pattern: Seq<char>, i: int)
    requires
        0 <= i < lines.len(),
        lines_no_feed(lines),
        state_tame(st),
    ensures
        state_tame(step(st, lines, pattern, i)),
{
    let l = lines[i];
    let next = step(st, lines, pattern, i);
    assert(no_feed(l));
    if is_file_header(l) {
        lemma_scan_tame(lines, i + 1, no_rename());
        if st.current_file is Some {
            lemma_insert_tame(st.files, st.current_file->0, st.hunks);
        }
    } else if "--- a/"@.is_prefix_of(l) {
    } else if "+++ b/"@.is_prefix_of(l) {
    } else if "@@"@.is_prefix_of(l) {
        assert(hunks_tame(next.hunks)) by {
            assert forall|m: int| 0 <= m < next.hunks.len() implies hunk_tame(
                #[trigger] next.hunks[m],
            ) by {
                if m < st.hunks.len() {
                    assert(hunk_tame(st.hunks[m]));
                }
            }
        }
    } else if st.current_file is Some && st.hunks.len() > 0 {
        let last = st.hunks.last();
        assert(hunk_tame(last));
        assert(tame(l));
        assert(hunks_tame(next.hunks)) by {
            assert forall|m: int| 0 <= m < next.hunks.len() implies hunk_tame(
                #[trigger] next.hunks[m],
            ) by {
                if m < st.hunks.len() - 1 {
                    assert(hunk_tame(st.hunks[m]));
                } else {
                    let h = next.hunks[m];
                    assert forall|k: int| 0 <= k < h.lines.len() implies tame(
                        #[trigger] h.lines[k],
                    ) by {
                        if k < last.lines.len() {
                            assert(tame(last.lines[k]));
                        }
                    }
                }
            }
        }
    }
}

/// Lines without line feeds keep the parser's state tame to the end.
pub proof fn lemma_parse_tame(lines: Seq<Seq<char>>, pattern: Seq<char>, j: int, st: ParseView)
    requires
        0 <= j <= lines.len(),
        lines_no_feed(lines),
        state_tame(st),
    ensures
        state_tame(parse_from(lines, pattern, j, st)),
    decreases lines.len() - j,
{
    if j < lines.len() {
        lemma_step_tame(st, lines, pattern, j);
        lemma_parse_tame(lines, pattern, j + 1, step(st, lines, pattern, j));
    }
}

/// The files parsed from a text are tame.
pub proof fn lemma_parsed_files_tame(raw: Seq<char>, pattern: Seq<char>)
    ensures
        files_tame(parse_lines(split_lines(raw), pattern)),
{
    let lines = split_lines(raw);
    lemma_split_no_feed(raw);
    lemma_parse_tame(lines, pattern, 0, initial_state());
    let last = parse_from(lines, pattern, 0, initial_state());
    if last.current_file is Some {
        lemma_insert_tame(last.files, last.current_file->0, last.hunks);
    }
}

/// The lines of tame hunks are tame.
pub proof fn lemma_hunk_lines_tame(hunks: Seq<HunkView>, k: int)
    requires
        0 <= k <= hunks.len(),
        hunks_tame(hunks),
    ensures
        lines_tame(hunk_lines_upto(hunks, k)),
    decreases k,
{
    if k > 0 {
        lemma_hunk_lines_tame(hunks, k - 1);
        let prev = hunk_lines_upto(hunks, k - 1);
        let all = hunk_lines_upto(hunks, k);
        assert(hunk_tame(hunks[k - 1]));
        assert forall|j: int| 0 <= j < all.len() implies tame(#[trigger] all[j]) by {
            if j < prev.len() {
                assert(all[j] == prev[j]);
            } else {
                assert(all[j] == hunks[k - 1].lines[j - prev.len()]);
            }
        }
    }
}

/// The header written for a tame file holds tame lines.
pub proof fn lemma_header_tame(entry: FilePatchView)
    requires
        no_feed(entry.name),
        hunks_tame(entry.hunks),
    ensures
        lines_tame(block_header(entry)),
{
    lemma_words();
    lemma_rename_index(entry.hunks);
    let head = block_header(entry);
    let p = rename_index(entry.hunks);
    if p < entry.hunks.len() {
        let h = entry.hunks[p];
        assert(hunk_tame(h));
        let from = h.rename_from->0;
        let to = h.rename_to->0;
        lemma_worded_line("diff --git a/"@, from + " b/"@ + to);
        assert("diff --git a/"@ + from + " b/"@ + to =~= "diff --git a/"@ + (from + " b/"@ + to));
        lemma_worded_line("rename from "@, from);
        lemma_worded_line("rename to "@, to);
        lemma_worded_line("--- a/"@, from);
        lemma_worded_line("+++ b/"@, to);
        assert(head == rename_header(from, to, h.similarity_index));
        assert forall|j: int| 0 <= j < head.len() implies tame(#[trigger] head[j]) by {
            match h.similarity_index {
                Some(s) => {
                    assert(tame(s));
                    assert(head =~= seq![
                        "diff --git a/"@ + from + " b/"@ + to,
                        s,
                        "rename from "@ + from,
                        "rename to "@ + to,
                        "--- a/"@ + from,
                        "+++ b/"@ + to,
                    ]);
                },
                None => {
                    assert(head =~= seq![
                        "diff --git a/"@ + from + " b/"@ + to,
                        "rename from "@ + from,
                        "rename to "@ + to,
                        "--- a/"@ + from,
                        "+++ b/"@ + to,
                    ]);
                },
            }
        }
    } else {
        let name = entry.name;
        lemma_worded_line("diff --git a/"@, name + " b/"@ + name);
        assert("diff --git a/"@ + name + " b/"@ + name =~= "diff --git a/"@ + (name + " b/"@ + name));
        lemma_worded_line("--- a/"@, name);
        lemma_worded_line("+++ b/"@, name);
        assert(head == plain_header(name));
    }
}

/// The lines written for tame files are tame.
pub proof fn lemma_patch_lines_tame(files: Seq<FilePatchView>, k: int)
    requires
        0 <= k <= files.len(),
        files_tame(files),
    ensures
        lines_tame(patch_lines_upto(files, k)),
    decreases k,
{
    if k > 0 {
        lemma_patch_lines_tame(files, k - 1);
        let entry = files[k - 1];
        lemma_header_tame(entry);
        lemma_hunk_lines_tame(entry.hunks, entry.hunks.len() as int);
        let prev = patch_lines_upto(files, k - 1);
        let head = block_header(entry);
        let body = hunk_lines_upto(entry.hunks, entry.hunks.len() as int);
        let all = patch_lines_upto(files, k);
        assert(all == prev + (head + body));
        assert forall|j: int| 0 <= j < all.len() implies tame(#[trigger] all[j]) by {
            if j < prev.len() {
                assert(all[j] == prev[j]);
            } else if j < prev.len() + head.len() {
                assert(all[j] == head[j - prev.len()]);
            } else {
                assert(all[j] == body[j - prev.len() - head.len()]);
            }
        }
    }
}

/// What is parsed from the text written for a parsed diff holds no hunk:
/// the writer leaves the hunk headers out, and nothing else opens a hunk.
pub proof fn reparsed_text_has_no_hunks(raw: Seq<char>, pattern: Seq<char>)
    ensures
        no_hunks(
            parse_lines(
                split_lines(join_lines(patch_lines(parse_lines(split_lines(raw), pattern)))),
                pattern,
            ),
        ),
{
    let first = parse_lines(split_lines(raw), pattern);
    lemma_parsed_files_tame(raw, pattern);
    lemma_patch_lines_tame(first, first.len() as int);
    let written = patch_lines(first);
    lemma_read_back_opens_no_hunk(written);
    let back = split_lines(join_lines(written));
    lemma_no_hunks(back, pattern, 0, initial_state());
    let last = parse_from(back, pattern, 0, initial_state());
    if last.current_file is Some {
        lemma_insert_no_hunks(last.files, last.current_file->0);
        assert(last.hunks =~= Seq::<HunkView>::empty());
    }
}

/// Parsing, writing and parsing again keeps, file by file, the changed
/// lines with their number of occurrences, for a diff in which no file
/// holds a changed line. (The writer leaves the hunk headers out, so what
/// is parsed again holds no hunk: a diff with a changed line loses it.)
pub proof fn reparse_keeps_changed_lines(raw: Seq<char>, pattern: Seq<char>, name: Seq<char>)
    requires
        holds_no_change(parse_lines(split_lines(raw), pattern)),
    ensures
        changed_lines_of(
            parse_lines(
                split_lines(join_lines(patch_lines(parse_lines(split_lines(raw), pattern)))),
                pattern,
            ),
            name,
        ) == changed_lines_of(parse_lines(split_lines(raw), pattern), name),
{
    reparsed_text_has_no_hunks(raw, pattern);
    let first = parse_lines(split_lines(raw), pattern);
    let second = parse_lines(split_lines(join_lines(patch_lines(first))), pattern);
    lemma_position(second, name);
    assert(changed_lines_of(first, name) == Multiset::<Seq<char>>::empty());
}


/// The changed lines of the first `k` hunks depend on those hunks only.
pub proof fn lemma_changed_hunks_prefix(a: Seq<HunkView>, b: Seq<HunkView>, k: int)
    requires
        0 <= k <= a.len(),
        k <= b.len(),
        forall|i: int| 0 <= i < k ==> a[i] == b[i],
    ensures
        changed_in_hunks(a, k) == changed_in_hunks(b, k),
    decreases k,
{
    if k > 0 {
        lemma_changed_hunks_prefix(a, b, k - 1);
    }
}

/// One more hunk adds its changed lines.
pub proof fn lemma_changed_hunks_push(hunks: Seq<HunkView>, h: HunkView)
    ensures
        changed_in_hunks(hunks.push(h), hunks.len() as int + 1) == changed_in_hunks(
            hunks,
            hunks.len() as int,
        ).add(changed_of(h.lines)),
{
    lemma_changed_hunks_prefix(hunks.push(h), hunks, hunks.len() as int);
}

/// Where two lists of files agree on the names, a name stands at the same
/// place in both.
pub proof fn lemma_position_by_names(a: Seq<FilePatchView>, b: Seq<FilePatchView>, name: Seq<char>)
    requires
        a.len() == b.len(),
        forall|i: int| 0 <= i < a.len() ==> (#[trigger] a[i]).name == b[i].name,
    ensures
        position(a, name) == position(b, name),
    decreases a.len(),
{
    if a.len() > 0 {
        assert(a[0].name == b[0].name);
        if a[0].name != name {
            let ra = a.drop_first();
            let rb = b.drop_first();
            assert forall|i: int| 0 <= i < ra.len() implies (#[trigger] ra[i]).name
                == rb[i].name by {
                assert(a[i + 1].name == b[i + 1].name);
            }
            lemma_position_by_names(ra, rb, name);
        }
    }
}

} // verus!
