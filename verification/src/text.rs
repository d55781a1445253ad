//! Character-level helpers shared by the diff parser and the filters.

use vstd::prelude::*;
use vstd::string::*;

verus! {

/// The lines of a vector of strings, each taken by its view.
pub open spec fn lines_view(v: Seq<String>) -> Seq<Seq<char>> {
    Seq::new(v.len(), |i: int| v[i]@)
}

/// The views of a vector of character vectors.
pub open spec fn rows_view(v: Seq<Vec<char>>) -> Seq<Seq<char>> {
    Seq::new(v.len(), |i: int| v[i]@)
}

/// The view of an optional string.
pub open spec fn opt_view(o: Option<String>) -> Option<Seq<char>> {
    match o {
        Some(s) => Some(s@),
        None => None,
    }
}

/// Index of the first line feed in `t`, or `t.len()` when there is none.
pub open spec fn first_newline(t: Seq<char>) -> int
    decreases t.len(),
{
    if t.len() == 0 {
        0
    } else if t[0] == '\n' {
        0
    } else {
        1 + first_newline(t.drop_first())
    }
}

/// A line without the carriage return that preceded its line feed.
pub open spec fn strip_cr(l: Seq<char>) -> Seq<char> {
    if l.len() > 0 && l.last() == '\r' {
        l.drop_last()
    } else {
        l
    }
}

/// The lines of a text. Lines end at a line feed, or at a carriage return
/// directly followed by one; a last line needs no terminator and keeps a bare
/// carriage return; an empty last line is not a line.
pub open spec fn split_lines(t: Seq<char>) -> Seq<Seq<char>>
    decreases t.len(),
{
    if t.len() == 0 {
        Seq::empty()
    } else {
        let k = first_newline(t);
        if k < 0 || k >= t.len() {
            seq![t]
        } else {
            seq![strip_cr(t.subrange(0, k))] + split_lines(t.subrange(k + 1, t.len() as int))
        }
    }
}

/// The first line feed lies inside the text or at its end, and no line feed
/// stands before it.
pub proof fn lemma_first_newline_bounds(t: Seq<char>)
    ensures
        0 <= first_newline(t) <= t.len(),
        first_newline(t) < t.len() ==> t[first_newline(t)] == '\n',
        forall|j: int| 0 <= j < first_newline(t) ==> t[j] != '\n',
    decreases t.len(),
{
    if t.len() > 0 && t[0] != '\n' {
        let r = t.drop_first();
        lemma_first_newline_bounds(r);
        assert forall|j: int| 0 <= j < first_newline(t) implies t[j] != '\n' by {
            if j > 0 {
                assert(t[j] == r[j - 1]);
            }
        }
    }
}

/// The first line feed is where a scan that met none before finds one.
pub proof fn lemma_first_newline_at(t: Seq<char>, k: int)
    requires
        0 <= k <= t.len(),
        forall|j: int| 0 <= j < k ==> t[j] != '\n',
        k < t.len() ==> t[k] == '\n',
    ensures
        first_newline(t) == k,
{
    lemma_first_newline_bounds(t);
    let f = first_newline(t);
    if f < k {
        assert(t[f] == '\n');
    }
}

/// The first character of a string, if it has one.
pub fn first_char(s: &str) -> (r: Option<char>)
    ensures
        r == (if s@.len() > 0 { Some(s@[0]) } else { None }),
{
    if s.is_empty() {
        None
    } else {
        Some(s.get_char(0))
    }
}

/// The characters of a string.
pub fn to_chars(s: &str) -> (v: Vec<char>)
    ensures
        v@ == s@,
{
    let mut v: Vec<char> = Vec::new();
    for c in it: s.chars()
        invariant
            v@ == it.seq().subrange(0, it.index() as int),
            it.seq() == s@,
    {
        v.push(c);
    }
    v
}

/// The string made of the characters of `v` from index `from` on.
pub fn string_from(v: &Vec<char>, from: usize) -> (s: String)
    requires
        from <= v.len(),
    ensures
        s@ == v@.subrange(from as int, v.len() as int),
{
    let mut s = String::new();
    let mut i: usize = from;
    while i < v.len()
        invariant
            from <= i <= v.len(),
            s@ == v@.subrange(from as int, i as int),
        decreases v.len() - i,
    {
        s.push(v[i]);
        i += 1;
    }
    s
}

/// Whether `line` begins with the characters of `prefix`.
pub fn has_prefix(line: &Vec<char>, prefix: &Vec<char>) -> (b: bool)
    ensures
        b == prefix@.is_prefix_of(line@),
{
    if prefix.len() > line.len() {
        return false;
    }
    let mut i: usize = 0;
    while i < prefix.len()
        invariant
            i <= prefix.len() <= line.len(),
            forall|j: int| 0 <= j < i ==> line@[j] == prefix@[j],
        decreases prefix.len() - i,
    {
        if line[i] != prefix[i] {
            assert(line@.subrange(0, prefix@.len() as int)[i as int] != prefix@[i as int]);
            return false;
        }
        i += 1;
    }
    assert(line@.subrange(0, prefix@.len() as int) =~= prefix@);
    true
}

/// Whether `path` ends with the characters of `suffix`.
pub fn has_suffix(path: &Vec<char>, suffix: &Vec<char>) -> (b: bool)
    ensures
        b == suffix@.is_suffix_of(path@),
{
    if suffix.len() > path.len() {
        return false;
    }
    let off: usize = path.len() - suffix.len();
    let mut i: usize = 0;
    while i < suffix.len()
        invariant
            i <= suffix.len() <= path.len(),
            off == path.len() - suffix.len(),
            forall|j: int| 0 <= j < i ==> path@[off + j] == suffix@[j],
        decreases suffix.len() - i,
    {
        if path[off + i] != suffix[i] {
            assert(path@.subrange(off as int, path@.len() as int)[i as int] != suffix@[i as int]);
            return false;
        }
        i += 1;
    }
    assert(path@.subrange(off as int, path@.len() as int) =~= suffix@);
    true
}

/// Splits a text into its lines.
pub fn lines_of(text: &str) -> (out: Vec<Vec<char>>)
    ensures
        rows_view(out@) == split_lines(text@),
{
    let chars = to_chars(text);
    let n = chars.len();
    let mut out: Vec<Vec<char>> = Vec::new();
    let mut cur: Vec<char> = Vec::new();
    let mut start: usize = 0;
    let mut i: usize = 0;
    proof {
        assert(chars@.subrange(0, n as int) == chars@);
        assert(rows_view(out@) =~= Seq::<Seq<char>>::empty());
    }
    while i < n
        invariant
            n == chars.len(),
            chars@ == text@,
            start <= i <= n,
            cur@ == chars@.subrange(start as int, i as int),
            forall|j: int| start <= j < i ==> chars@[j] != '\n',
            split_lines(chars@) == rows_view(out@) + split_lines(
                chars@.subrange(start as int, n as int),
            ),
        decreases n - i,
    {
        let c = chars[i];
        if c == '\n' {
            proof {
                let rest = chars@.subrange(start as int, n as int);
                assert forall|j: int| 0 <= j < i - start implies rest[j] != '\n' by {
                    assert(rest[j] == chars@[start + j]);
                }
                lemma_first_newline_at(rest, i - start);
                assert(rest.subrange(0, i - start) =~= cur@);
                assert(rest.subrange(i - start + 1, rest.len() as int) =~= chars@.subrange(
                    i + 1,
                    n as int,
                ));
            }
            let ghost line = cur@;
            if cur.len() > 0 && cur[cur.len() - 1] == '\r' {
                cur.pop();
            }
            assert(cur@ =~= strip_cr(line));
            let ghost before = rows_view(out@);
            out.push(cur);
            assert(rows_view(out@) =~= before + seq![strip_cr(line)]);
            cur = Vec::new();
            start = i + 1;
            i += 1;
            assert(cur@ =~= chars@.subrange(start as int, i as int));
        } else {
            cur.push(c);
            i += 1;
            assert(cur@ =~= chars@.subrange(start as int, i as int));
        }
    }
    proof {
        let rest = chars@.subrange(start as int, n as int);
        assert(rest =~= cur@);
        if rest.len() > 0 {
            lemma_first_newline_at(rest, rest.len() as int);
        }
    }
    if cur.len() > 0 {
        let ghost before = rows_view(out@);
        let ghost line = cur@;
        out.push(cur);
        assert(rows_view(out@) =~= before + seq![line]);
    } else {
        assert(rows_view(out@) + Seq::<Seq<char>>::empty() =~= rows_view(out@));
    }
    out
}

/// Lines joined by single line feeds.
pub open spec fn join_lines(ls: Seq<Seq<char>>) -> Seq<char>
    decreases ls.len(),
{
    if ls.len() == 0 {
        Seq::empty()
    } else if ls.len() == 1 {
        ls[0]
    } else {
        join_lines(ls.drop_last()) + seq!['\n'] + ls.last()
    }
}

/// Joins lines with line feeds.
pub fn join(lines: &Vec<String>) -> (s: String)
    ensures
        s@ == join_lines(lines_view(lines@)),
{
    let mut s = String::new();
    let mut i: usize = 0;
    while i < lines.len()
        invariant
            i <= lines.len(),
            s@ == join_lines(lines_view(lines@).subrange(0, i as int)),
        decreases lines.len() - i,
    {
        let ghost all = lines_view(lines@);
        let ghost next = all.subrange(0, i + 1);
        proof {
            assert(next.drop_last() =~= all.subrange(0, i as int));
            assert(next.last() == lines@[i as int]@);
        }
        if i > 0 {
            s.push('\n');
        }
        s.append(lines[i].as_str());
        proof {
            if i == 0 {
                assert(s@ =~= next[0]);
            }
        }
        i += 1;
    }
    assert(lines_view(lines@).subrange(0, lines.len() as int) =~= lines_view(lines@));
    s
}

/// `String::push`: appends one character to the string.
pub assume_specification[ String::push ](s: &mut String, c: char)
    ensures
        final(s)@ == old(s)@.push(c),
;

} // verus!
