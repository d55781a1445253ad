//! The diff model: hunks, the per-file map of hunks, the parser of unified
//! diffs and the writer that turns filtered hunks back into text.

use crate::error::RepoDiffError;
use crate::pattern::{captures, check_pattern, groups_view, regex_captures, regex_compiles};
use crate::text::{
    has_prefix, join, join_lines, lines_of, lines_view, opt_view, rows_view, split_lines,
    string_from, to_chars,
};
use vstd::prelude::*;
use vstd::string::*;

verus! {

/// A contiguous block of a diff.
#[derive(Debug, Clone)]
pub struct Hunk {
    /// The hunk header as it stood in the diff.
    pub header: String,
    /// First line of the block in the old file.
    pub old_start: usize,
    /// Number of lines the block covers in the old file.
    pub old_count: usize,
    /// First line of the block in the new file.
    pub new_start: usize,
    /// Number of lines the block covers in the new file.
    pub new_count: usize,
    /// The lines of the block, prefix character included.
    pub lines: Vec<String>,
    /// Whether the file was renamed.
    pub is_rename: bool,
    /// The path renamed from.
    pub rename_from: Option<String>,
    /// The path renamed to.
    pub rename_to: Option<String>,
    /// The similarity line of a rename.
    pub similarity_index: Option<String>,
}

/// The mathematical value of a hunk.
pub struct HunkView {
    pub header: Seq<char>,
    pub old_start: nat,
    pub old_count: nat,
    pub new_start: nat,
    pub new_count: nat,
    pub lines: Seq<Seq<char>>,
    pub is_rename: bool,
    pub rename_from: Option<Seq<char>>,
    pub rename_to: Option<Seq<char>>,
    pub similarity_index: Option<Seq<char>>,
}

impl View for Hunk {
    type V = HunkView;

    open spec fn view(&self) -> HunkView {
        HunkView {
            header: self.header@,
            old_start: self.old_start as nat,
            old_count: self.old_count as nat,
            new_start: self.new_start as nat,
            new_count: self.new_count as nat,
            lines: lines_view(self.lines@),
            is_rename: self.is_rename,
            rename_from: opt_view(self.rename_from),
            rename_to: opt_view(self.rename_to),
            similarity_index: opt_view(self.similarity_index),
        }
    }
}

/// The values of a vector of hunks.
pub open spec fn hunks_view(v: Seq<Hunk>) -> Seq<HunkView> {
    Seq::new(v.len(), |i: int| v[i]@)
}

/// A line that the new file gained.
pub open spec fn is_added(l: Seq<char>) -> bool {
    l.len() > 0 && l[0] == '+'
}

/// A line that the old file lost.
pub open spec fn is_removed(l: Seq<char>) -> bool {
    l.len() > 0 && l[0] == '-'
}

/// A line that records a change.
pub open spec fn is_changed(l: Seq<char>) -> bool {
    is_added(l) || is_removed(l)
}

/// How many of the lines are not removed lines: the extent in the new file.
pub open spec fn count_new(lines: Seq<Seq<char>>) -> nat
    decreases lines.len(),
{
    if lines.len() == 0 {
        0
    } else {
        count_new(lines.drop_last()) + if is_removed(lines.last()) {
            0nat
        } else {
            1nat
        }
    }
}

/// How many of the lines are not added lines: the extent in the old file.
pub open spec fn count_old(lines: Seq<Seq<char>>) -> nat
    decreases lines.len(),
{
    if lines.len() == 0 {
        0
    } else {
        count_old(lines.drop_last()) + if is_added(lines.last()) {
            0nat
        } else {
            1nat
        }
    }
}

/// Neither count exceeds the number of lines.
pub proof fn lemma_count_bounds(lines: Seq<Seq<char>>)
    ensures
        count_new(lines) <= lines.len(),
        count_old(lines) <= lines.len(),
    decreases lines.len(),
{
    if lines.len() > 0 {
        lemma_count_bounds(lines.drop_last());
    }
}

/// A copy of an optional string.
pub fn clone_opt(o: &Option<String>) -> (r: Option<String>)
    ensures
        opt_view(r) == opt_view(*o),
{
    match o {
        Some(s) => Some(s.clone()),
        None => None,
    }
}

impl Hunk {
    /// A copy of the hunk that holds other lines, with both counts taken
    /// from those lines.
    pub fn with_lines(&self, lines: Vec<String>) -> (r: Hunk)
        ensures
            r@ == (HunkView {
                lines: lines_view(lines@),
                new_count: count_new(lines_view(lines@)),
                old_count: count_old(lines_view(lines@)),
                ..self@
            }),
    {
        let mut new_count: usize = 0;
        let mut old_count: usize = 0;
        let mut i: usize = 0;
        let ghost ls = lines_view(lines@);
        while i < lines.len()
            invariant
                i <= lines.len(),
                ls == lines_view(lines@),
                new_count == count_new(ls.subrange(0, i as int)),
                old_count == count_old(ls.subrange(0, i as int)),
                new_count <= i,
                old_count <= i,
            decreases lines.len() - i,
        {
            let c = crate::text::first_char(lines[i].as_str());
            proof {
                assert(ls.subrange(0, i + 1).drop_last() =~= ls.subrange(0, i as int));
                assert(ls.subrange(0, i + 1).last() == lines@[i as int]@);
            }
            if c != Some('-') {
                new_count += 1;
            }
            if c != Some('+') {
                old_count += 1;
            }
            i += 1;
        }
        assert(ls.subrange(0, lines.len() as int) =~= ls);
        Hunk {
            header: self.header.clone(),
            old_start: self.old_start,
            old_count,
            new_start: self.new_start,
            new_count,
            lines,
            is_rename: self.is_rename,
            rename_from: clone_opt(&self.rename_from),
            rename_to: clone_opt(&self.rename_to),
            similarity_index: clone_opt(&self.similarity_index),
        }
    }
}

/// The hunks of one file.
#[derive(Debug, Clone)]
pub struct FilePatch {
    /// The path the hunks are keyed under.
    pub name: String,
    /// The hunks, in the order of the diff.
    pub hunks: Vec<Hunk>,
}

/// The mathematical value of a file's hunks.
pub struct FilePatchView {
    pub name: Seq<char>,
    pub hunks: Seq<HunkView>,
}

impl View for FilePatch {
    type V = FilePatchView;

    open spec fn view(&self) -> FilePatchView {
        FilePatchView { name: self.name@, hunks: hunks_view(self.hunks@) }
    }
}

/// The values of a vector of file entries.
pub open spec fn files_view(v: Seq<FilePatch>) -> Seq<FilePatchView> {
    Seq::new(v.len(), |i: int| v[i]@)
}

/// Index of the first entry under `name`, or `files.len()` when there is none.
pub open spec fn position(files: Seq<FilePatchView>, name: Seq<char>) -> int
    decreases files.len(),
{
    if files.len() == 0 {
        0
    } else if files[0].name == name {
        0
    } else {
        1 + position(files.drop_first(), name)
    }
}

/// The entries after `hunks` were stored under `name`: an entry already
/// under that name is overwritten where it stands, a new one goes last.
pub open spec fn insert_entry(
    files: Seq<FilePatchView>,
    name: Seq<char>,
    hunks: Seq<HunkView>,
) -> Seq<FilePatchView> {
    let p = position(files, name);
    let entry = FilePatchView { name, hunks };
    if 0 <= p < files.len() {
        files.update(p, entry)
    } else {
        files.push(entry)
    }
}

/// No two entries share a name.
pub open spec fn distinct_names(files: Seq<FilePatchView>) -> bool {
    forall|i: int, j: int| 0 <= i < j < files.len() ==> files[i].name != files[j].name
}

/// The place of a name lies inside the list or at its end; the entry there
/// carries the name, and none before it does.
pub proof fn lemma_position(files: Seq<FilePatchView>, name: Seq<char>)
    ensures
        0 <= position(files, name) <= files.len(),
        position(files, name) < files.len() ==> files[position(files, name)].name == name,
        forall|j: int| 0 <= j < position(files, name) ==> files[j].name != name,
    decreases files.len(),
{
    if files.len() > 0 && files[0].name != name {
        let r = files.drop_first();
        lemma_position(r, name);
        assert forall|j: int| 0 <= j < position(files, name) implies files[j].name != name by {
            if j > 0 {
                assert(files[j] == r[j - 1]);
            }
        }
    }
}

/// A name stands where a search that met it nowhere before finds it.
pub proof fn lemma_position_at(files: Seq<FilePatchView>, name: Seq<char>, k: int)
    requires
        0 <= k <= files.len(),
        forall|j: int| 0 <= j < k ==> files[j].name != name,
        k < files.len() ==> files[k].name == name,
    ensures
        position(files, name) == k,
{
    lemma_position(files, name);
    let p = position(files, name);
    if p < k {
        assert(files[p].name == name);
    }
}

/// Storing an entry keeps the names distinct.
pub proof fn lemma_insert_distinct(files: Seq<FilePatchView>, name: Seq<char>, hunks: Seq<HunkView>)
    requires
        distinct_names(files),
    ensures
        distinct_names(insert_entry(files, name, hunks)),
{
    lemma_position(files, name);
    let p = position(files, name);
    let out = insert_entry(files, name, hunks);
    assert forall|i: int, j: int| 0 <= i < j < out.len() implies out[i].name != out[j].name by {
        if p < files.len() {
            assert(out[i].name == files[i].name);
            assert(out[j].name == files[j].name);
        } else if j == files.len() {
            assert(out[i].name == files[i].name);
        }
    }
}

/// The hunks of a diff, file by file. No path occurs twice; the files keep
/// the order in which they were first stored.
#[derive(Debug, Clone)]
pub struct PatchDict {
    entries: Vec<FilePatch>,
}

impl View for PatchDict {
    type V = Seq<FilePatchView>;

    closed spec fn view(&self) -> Seq<FilePatchView> {
        files_view(self.entries@)
    }
}

impl PatchDict {
    /// The invariant of the map: every path is the key of one entry.
    pub open spec fn wf(&self) -> bool {
        distinct_names(self@)
    }

    /// A map without files.
    pub fn new() -> (d: PatchDict)
        ensures
            d@ == Seq::<FilePatchView>::empty(),
            d.wf(),
    {
        let d = PatchDict { entries: Vec::new() };
        assert(d@ =~= Seq::<FilePatchView>::empty());
        d
    }

    /// Number of files.
    pub fn len(&self) -> (n: usize)
        ensures
            n == self@.len(),
    {
        self.entries.len()
    }

    /// Whether the map holds no file.
    pub fn is_empty(&self) -> (b: bool)
        ensures
            b == (self@.len() == 0),
    {
        self.entries.len() == 0
    }

    /// The entries in order.
    pub fn entries(&self) -> (r: &Vec<FilePatch>)
        ensures
            files_view(r@) == self@,
    {
        &self.entries
    }

    fn find(&self, name: &String) -> (p: usize)
        ensures
            p == position(self@, name@),
            p <= self.entries@.len(),
    {
        let mut i: usize = 0;
        while i < self.entries.len()
            invariant
                i <= self.entries.len(),
                forall|j: int| 0 <= j < i ==> self@[j].name != name@,
            decreases self.entries.len() - i,
        {
            if self.entries[i].name == *name {
                proof {
                    lemma_position_at(self@, name@, i as int);
                }
                return i;
            }
            i += 1;
        }
        proof {
            lemma_position_at(self@, name@, i as int);
        }
        i
    }

    /// Whether a file is stored under `name`.
    pub fn contains_key(&self, name: &str) -> (b: bool)
        ensures
            b == (position(self@, name@) < self@.len()),
    {
        let key = name.to_owned();
        self.find(&key) < self.entries.len()
    }

    /// The hunks stored under `name`.
    pub fn get(&self, name: &str) -> (r: Option<&Vec<Hunk>>)
        ensures
            match r {
                Some(h) => position(self@, name@) < self@.len() && hunks_view(h@)
                    == self@[position(self@, name@)].hunks,
                None => position(self@, name@) == self@.len(),
            },
    {
        let key = name.to_owned();
        let p = self.find(&key);
        if p < self.entries.len() {
            Some(&self.entries[p].hunks)
        } else {
            None
        }
    }

    /// Stores `hunks` under `name`, in place of what was stored there.
    pub fn insert(&mut self, name: String, hunks: Vec<Hunk>)
        ensures
            final(self)@ == insert_entry(old(self)@, name@, hunks_view(hunks@)),
            old(self).wf() ==> final(self).wf(),
    {
        let p = self.find(&name);
        let ghost before = self@;
        let ghost entry = (FilePatchView { name: name@, hunks: hunks_view(hunks@) });
        if p < self.entries.len() {
            self.entries.set(p, FilePatch { name, hunks });
            assert(self@ =~= before.update(p as int, entry));
        } else {
            self.entries.push(FilePatch { name, hunks });
            assert(self@ =~= before.push(entry));
        }
        proof {
            if distinct_names(before) {
                lemma_insert_distinct(before, entry.name, entry.hunks);
            }
        }
    }
}


/// The pattern that a hunk header is matched against.
pub const HUNK_HEADER_PATTERN: &'static str = "@@ -(\\d+),?(\\d+)? \\+(\\d+),?(\\d+)? @@";

/// Whether every character is an ASCII digit.
pub open spec fn all_digits(s: Seq<char>) -> bool {
    forall|i: int| 0 <= i < s.len() ==> '0' <= #[trigger] s[i] <= '9'
}

/// The number that a string of digits writes in base ten.
pub open spec fn decimal_value(s: Seq<char>) -> nat
    decreases s.len(),
{
    if s.len() == 0 {
        0
    } else {
        (decimal_value(s.drop_last()) * 10 + (s.last() as nat - '0' as nat)) as nat
    }
}

/// The number a string writes, where it is a number of the machine's size.
pub open spec fn decimal(s: Seq<char>) -> Option<nat> {
    if s.len() > 0 && all_digits(s) && decimal_value(s) <= usize::MAX {
        Some(decimal_value(s))
    } else {
        None
    }
}

/// A number is at least the number its leading digits write.
pub proof fn lemma_decimal_prefix(s: Seq<char>, k: int)
    requires
        0 <= k <= s.len(),
        all_digits(s),
    ensures
        decimal_value(s.subrange(0, k)) <= decimal_value(s),
    decreases s.len() - k,
{
    if k < s.len() {
        lemma_decimal_prefix(s, k + 1);
        assert(s.subrange(0, k + 1).drop_last() =~= s.subrange(0, k));
        assert('0' <= s[k] <= '9');
    } else {
        assert(s.subrange(0, k) =~= s);
    }
}

/// Reads a number of the machine's size from a string of ASCII digits.
pub fn parse_decimal(s: &str) -> (r: Option<usize>)
    ensures
        r matches Some(n) ==> decimal(s@) == Some(n as nat),
        r is None ==> decimal(s@) is None,
{
    let chars = to_chars(s);
    if chars.len() == 0 {
        return None;
    }
    let mut acc: usize = 0;
    let mut i: usize = 0;
    while i < chars.len()
        invariant
            i <= chars.len(),
            chars@ == s@,
            all_digits(chars@.subrange(0, i as int)),
            acc == decimal_value(chars@.subrange(0, i as int)),
        decreases chars.len() - i,
    {
        let c = chars[i];
        if c < '0' || c > '9' {
            return None;
        }
        let d: usize = (c as u32 - '0' as u32) as usize;
        proof {
            assert(chars@.subrange(0, i + 1).drop_last() =~= chars@.subrange(0, i as int));
            assert(chars@.subrange(0, i + 1).last() == c);
            assert(all_digits(chars@.subrange(0, i + 1))) by {
                assert forall|j: int| 0 <= j < i + 1 implies '0' <= #[trigger] chars@.subrange(
                    0,
                    i + 1,
                )[j] <= '9' by {
                    if j < i {
                        assert(chars@.subrange(0, i as int)[j] == chars@[j]);
                    }
                }
            }
        }
        if acc > (usize::MAX - d) / 10 {
            proof {
                assert(decimal_value(chars@.subrange(0, i + 1)) > usize::MAX);
                if all_digits(chars@) {
                    lemma_decimal_prefix(chars@, i + 1);
                }
            }
            return None;
        }
        acc = acc * 10 + d;
        i += 1;
    }
    assert(chars@.subrange(0, chars.len() as int) =~= chars@);
    Some(acc)
}

/// What the lines after a file header say of a rename.
pub struct RenameView {
    pub is_rename: bool,
    pub from: Option<Seq<char>>,
    pub to: Option<Seq<char>>,
    pub similarity: Option<Seq<char>>,
}

/// The state of the parser between two lines.
pub struct ParseView {
    pub files: Seq<FilePatchView>,
    pub current_file: Option<Seq<char>>,
    pub hunks: Seq<HunkView>,
    pub rename: RenameView,
}

/// No rename information.
pub open spec fn no_rename() -> RenameView {
    RenameView { is_rename: false, from: None, to: None, similarity: None }
}

/// The state before the first line.
pub open spec fn initial_state() -> ParseView {
    ParseView {
        files: Seq::empty(),
        current_file: None,
        hunks: Seq::empty(),
        rename: no_rename(),
    }
}

/// A line that opens the block of a file.
pub open spec fn is_file_header(l: Seq<char>) -> bool {
    "diff --git"@.is_prefix_of(l)
}

/// What `l` adds to the paths and the similarity line gathered so far.
pub open spec fn note_line(acc: RenameView, l: Seq<char>) -> RenameView {
    if "similarity index "@.is_prefix_of(l) {
        RenameView { similarity: Some(l), ..acc }
    } else if "rename from "@.is_prefix_of(l) {
        RenameView { from: Some(l.subrange("rename from "@.len() as int, l.len() as int)), ..acc }
    } else if "rename to "@.is_prefix_of(l) {
        RenameView { to: Some(l.subrange("rename to "@.len() as int, l.len() as int)), ..acc }
    } else {
        acc
    }
}

/// What `l` adds to the rename information gathered so far. The block is a
/// rename once it has named both paths; the similarity line is optional.
pub open spec fn note_rename(acc: RenameView, l: Seq<char>) -> RenameView {
    let next = note_line(acc, l);
    RenameView { is_rename: next.from is Some && next.to is Some, ..next }
}

/// The rename information of the lines from index `j` up to the next file
/// header, added to `acc`.
pub open spec fn scan_rename(lines: Seq<Seq<char>>, j: int, acc: RenameView) -> RenameView
    decreases lines.len() - j,
{
    if j < 0 || j >= lines.len() || is_file_header(lines[j]) {
        acc
    } else {
        scan_rename(lines, j + 1, note_rename(acc, lines[j]))
    }
}

/// One capture group read as a count: a group that is absent or writes no
/// number of the machine's size counts as one line.
pub open spec fn count_or_one(g: Option<Seq<char>>) -> nat {
    match g {
        Some(s) => match decimal(s) {
            Some(n) => n,
            None => 1,
        },
        None => 1,
    }
}

/// The four numbers of a hunk header, from the capture groups of its match:
/// old start, old count, new start, new count. Both starts must be numbers
/// of the machine's size.
pub open spec fn header_numbers(groups: Option<Seq<Option<Seq<char>>>>) -> Option<
    (nat, nat, nat, nat),
> {
    match groups {
        Some(g) => if g.len() >= 5 && g[1] is Some && g[3] is Some && decimal(g[1]->0) is Some
            && decimal(g[3]->0) is Some {
            Some(
                (
                    decimal(g[1]->0)->0,
                    count_or_one(g[2]),
                    decimal(g[3]->0)->0,
                    count_or_one(g[4]),
                ),
            )
        } else {
            None
        },
        None => None,
    }
}

/// The hunk that a header line opens.
pub open spec fn opened_hunk(line: Seq<char>, n: (nat, nat, nat, nat), rename: RenameView) -> HunkView {
    HunkView {
        header: line,
        old_start: n.0,
        old_count: n.1,
        new_start: n.2,
        new_count: n.3,
        lines: Seq::empty(),
        is_rename: rename.is_rename,
        rename_from: rename.from,
        rename_to: rename.to,
        similarity_index: rename.similarity,
    }
}

/// The files after the open file, if there is one, was stored with its hunks.
pub open spec fn flushed(st: ParseView) -> Seq<FilePatchView> {
    match st.current_file {
        Some(f) => insert_entry(st.files, f, st.hunks),
        None => st.files,
    }
}

/// The state after line `i`.
pub open spec fn step(st: ParseView, lines: Seq<Seq<char>>, pattern: Seq<char>, i: int) -> ParseView
    recommends
        0 <= i < lines.len(),
{
    let l = lines[i];
    if is_file_header(l) {
        ParseView {
            files: flushed(st),
            current_file: None,
            hunks: if st.current_file is Some {
                Seq::empty()
            } else {
                st.hunks
            },
            rename: scan_rename(lines, i + 1, no_rename()),
        }
    } else if "--- a/"@.is_prefix_of(l) {
        st
    } else if "+++ b/"@.is_prefix_of(l) {
        if st.rename.is_rename && st.rename.from is Some && st.rename.to is Some {
            ParseView { current_file: st.rename.to, ..st }
        } else {
            ParseView {
                current_file: Some(l.subrange("+++ b/"@.len() as int, l.len() as int)),
                ..st
            }
        }
    } else if "@@"@.is_prefix_of(l) {
        match header_numbers(regex_captures(pattern, l)) {
            Some(n) => ParseView { hunks: st.hunks.push(opened_hunk(l, n, st.rename)), ..st },
            None => st,
        }
    } else if st.current_file is Some && st.hunks.len() > 0 {
        let last = st.hunks.last();
        ParseView {
            hunks: st.hunks.update(
                st.hunks.len() - 1,
                HunkView { lines: last.lines.push(l), ..last },
            ),
            ..st
        }
    } else {
        st
    }
}

/// The state after the last line, starting in state `st` before line `i`.
pub open spec fn parse_from(
    lines: Seq<Seq<char>>,
    pattern: Seq<char>,
    i: int,
    st: ParseView,
) -> ParseView
    decreases lines.len() - i,
{
    if i < 0 || i >= lines.len() {
        st
    } else {
        parse_from(lines, pattern, i + 1, step(st, lines, pattern, i))
    }
}

/// The files of a diff given as lines, with hunk headers matched by `pattern`.
pub open spec fn parse_lines(lines: Seq<Seq<char>>, pattern: Seq<char>) -> Seq<FilePatchView> {
    flushed(parse_from(lines, pattern, 0, initial_state()))
}

/// Parser of unified diffs and writer of filtered ones.
pub struct DiffParser;

/// The rename information the parser carries.
struct RenameInfo {
    is_rename: bool,
    from: Option<String>,
    to: Option<String>,
    similarity: Option<String>,
}

impl View for RenameInfo {
    type V = RenameView;

    closed spec fn view(&self) -> RenameView {
        RenameView {
            is_rename: self.is_rename,
            from: opt_view(self.from),
            to: opt_view(self.to),
            similarity: opt_view(self.similarity),
        }
    }
}

/// Gathers the rename information of the lines from `start` up to the next
/// file header.
fn look_ahead(lines: &Vec<Vec<char>>, start: usize) -> (r: RenameInfo)
    requires
        start <= lines.len(),
    ensures
        r@ == scan_rename(rows_view(lines@), start as int, no_rename()),
{
    let p_diff = to_chars("diff --git");
    let p_sim = to_chars("similarity index ");
    let p_from = to_chars("rename from ");
    let p_to = to_chars("rename to ");
    let ghost ls = rows_view(lines@);
    let mut info = RenameInfo { is_rename: false, from: None, to: None, similarity: None };
    let mut j: usize = start;
    while j < lines.len() && !has_prefix(&lines[j], &p_diff)
        invariant
            start <= j <= lines.len(),
            ls == rows_view(lines@),
            p_diff@ == "diff --git"@,
            p_sim@ == "similarity index "@,
            p_from@ == "rename from "@,
            p_to@ == "rename to "@,
            scan_rename(ls, start as int, no_rename()) == scan_rename(ls, j as int, info@),
        decreases lines.len() - j,
    {
        let line = &lines[j];
        assert(ls[j as int] == line@);
        if has_prefix(line, &p_sim) {
            info.similarity = Some(string_from(line, 0));
            assert(line@.subrange(0, line@.len() as int) =~= line@);
        } else if has_prefix(line, &p_from) {
            info.from = Some(string_from(line, p_from.len()));
        } else if has_prefix(line, &p_to) {
            info.to = Some(string_from(line, p_to.len()));
        }
        info.is_rename = info.from.is_some() && info.to.is_some();
        j += 1;
    }
    assert(j < lines.len() ==> ls[j as int] == lines@[j as int]@);
    info
}

/// Reads the numbers of a hunk header from the capture groups of its match.
pub fn read_header_numbers(groups: &Option<Vec<Option<String>>>) -> (r: Option<
    (usize, usize, usize, usize),
>)
    ensures
        match r {
            Some(n) => header_numbers(groups_view(*groups)) == Some(
                (n.0 as nat, n.1 as nat, n.2 as nat, n.3 as nat),
            ),
            None => header_numbers(groups_view(*groups)) is None,
        },
{
    match groups {
        Some(g) => {
            if g.len() < 5 {
                return None;
            }
            let ghost gv = groups_view(*groups)->0;
            assert(gv[1] == opt_view(g@[1]) && gv[2] == opt_view(g@[2]) && gv[3] == opt_view(
                g@[3],
            ) && gv[4] == opt_view(g@[4]));
            let old_start = match &g[1] {
                Some(s) => match parse_decimal(s.as_str()) {
                    Some(n) => n,
                    None => {
                        return None;
                    },
                },
                None => {
                    return None;
                },
            };
            let new_start = match &g[3] {
                Some(s) => match parse_decimal(s.as_str()) {
                    Some(n) => n,
                    None => {
                        return None;
                    },
                },
                None => {
                    return None;
                },
            };
            let old_count = read_count(&g[2]);
            let new_count = read_count(&g[4]);
            Some((old_start, old_count, new_start, new_count))
        },
        None => None,
    }
}

fn read_count(g: &Option<String>) -> (n: usize)
    ensures
        n == count_or_one(opt_view(*g)),
{
    match g {
        Some(s) => match parse_decimal(s.as_str()) {
            Some(n) => n,
            None => 1,
        },
        None => 1,
    }
}

/// A hunk that carries rename metadata: the path renamed from and the
/// path renamed to.
pub open spec fn carries_rename(h: HunkView) -> bool {
    h.rename_from is Some && h.rename_to is Some
}

/// Index of the first hunk that carries rename metadata, or `hunks.len()`
/// when none does.
pub open spec fn rename_index(hunks: Seq<HunkView>) -> int
    decreases hunks.len(),
{
    if hunks.len() == 0 {
        0
    } else if carries_rename(hunks[0]) {
        0
    } else {
        1 + rename_index(hunks.drop_first())
    }
}

/// The first hunk with rename metadata lies inside the list or at its end;
/// the hunk there carries the metadata, and none before it does.
pub proof fn lemma_rename_index(hunks: Seq<HunkView>)
    ensures
        0 <= rename_index(hunks) <= hunks.len(),
        rename_index(hunks) < hunks.len() ==> carries_rename(hunks[rename_index(hunks)]),
        forall|j: int| 0 <= j < rename_index(hunks) ==> !carries_rename(#[trigger] hunks[j]),
    decreases hunks.len(),
{
    if hunks.len() > 0 && !carries_rename(hunks[0]) {
        let r = hunks.drop_first();
        lemma_rename_index(r);
        assert forall|j: int| 0 <= j < rename_index(hunks) implies !carries_rename(
            #[trigger] hunks[j],
        ) by {
            if j > 0 {
                assert(hunks[j] == r[j - 1]);
            }
        }
    }
}

/// The first hunk with rename metadata stands where a search that met none
/// before finds one.
pub proof fn lemma_rename_index_at(hunks: Seq<HunkView>, k: int)
    requires
        0 <= k <= hunks.len(),
        forall|j: int| 0 <= j < k ==> !carries_rename(#[trigger] hunks[j]),
        k < hunks.len() ==> carries_rename(hunks[k]),
    ensures
        rename_index(hunks) == k,
{
    lemma_rename_index(hunks);
    let p = rename_index(hunks);
    if p < k {
        assert(carries_rename(hunks[p]));
    }
}

/// The header lines written for a plain change of the file `name`.
pub open spec fn plain_header(name: Seq<char>) -> Seq<Seq<char>> {
    seq![
        "diff --git a/"@ + name + " b/"@ + name,
        "--- a/"@ + name,
        "+++ b/"@ + name,
    ]
}

/// The header lines written for a rename.
pub open spec fn rename_header(
    from: Seq<char>,
    to: Seq<char>,
    similarity: Option<Seq<char>>,
) -> Seq<Seq<char>> {
    seq!["diff --git a/"@ + from + " b/"@ + to] + (match similarity {
        Some(s) => seq![s],
        None => Seq::empty(),
    }) + seq!["rename from "@ + from, "rename to "@ + to, "--- a/"@ + from, "+++ b/"@ + to]
}

/// The header lines written for a file: the rename block where one of its
/// hunks carries rename metadata, with the paths and the similarity line of
/// the first such hunk; else the plain block.
pub open spec fn block_header(entry: FilePatchView) -> Seq<Seq<char>> {
    let p = rename_index(entry.hunks);
    if 0 <= p < entry.hunks.len() {
        let h = entry.hunks[p];
        rename_header(h.rename_from->0, h.rename_to->0, h.similarity_index)
    } else {
        plain_header(entry.name)
    }
}

/// The lines of the first `k` hunks, in order.
pub open spec fn hunk_lines_upto(hunks: Seq<HunkView>, k: int) -> Seq<Seq<char>>
    decreases k,
{
    if k <= 0 {
        Seq::empty()
    } else {
        hunk_lines_upto(hunks, k - 1) + hunks[k - 1].lines
    }
}

/// The lines written for a file: its header, then the lines of its hunks.
pub open spec fn block_lines(entry: FilePatchView) -> Seq<Seq<char>> {
    block_header(entry) + hunk_lines_upto(entry.hunks, entry.hunks.len() as int)
}

/// The lines written for the first `k` files.
pub open spec fn patch_lines_upto(files: Seq<FilePatchView>, k: int) -> Seq<Seq<char>>
    decreases k,
{
    if k <= 0 {
        Seq::empty()
    } else {
        patch_lines_upto(files, k - 1) + block_lines(files[k - 1])
    }
}

/// The lines written for a diff.
pub open spec fn patch_lines(files: Seq<FilePatchView>) -> Seq<Seq<char>> {
    patch_lines_upto(files, files.len() as int)
}

/// Appends copies of `lines` to `out`.
fn push_all(out: &mut Vec<String>, lines: &Vec<String>)
    ensures
        lines_view(final(out)@) == lines_view(old(out)@) + lines_view(lines@),
{
    let ghost before = lines_view(out@);
    let mut i: usize = 0;
    assert(before + lines_view(lines@).subrange(0, 0) =~= before);
    while i < lines.len()
        invariant
            i <= lines.len(),
            lines_view(out@) == before + lines_view(lines@).subrange(0, i as int),
        decreases lines.len() - i,
    {
        let ghost prev = lines_view(out@);
        out.push(lines[i].clone());
        assert(lines_view(out@) =~= prev.push(lines@[i as int]@));
        assert(prev.push(lines@[i as int]@) =~= before + lines_view(lines@).subrange(0, i + 1));
        i += 1;
    }
    assert(lines_view(lines@).subrange(0, lines.len() as int) =~= lines_view(lines@));
}

/// Appends the line `a` followed by `b`.
fn push_pair(out: &mut Vec<String>, a: &str, b: &str)
    ensures
        lines_view(final(out)@) == lines_view(old(out)@).push(a@ + b@),
{
    let ghost before = lines_view(out@);
    let mut s = a.to_owned();
    s.append(b);
    out.push(s);
    assert(lines_view(out@) =~= before.push(a@ + b@));
}

/// Appends the line that opens a block: `diff --git a/<from> b/<to>`.
fn push_opening(out: &mut Vec<String>, from: &str, to: &str)
    ensures
        lines_view(final(out)@) == lines_view(old(out)@).push(
            "diff --git a/"@ + from@ + " b/"@ + to@,
        ),
{
    let ghost before = lines_view(out@);
    let mut s = "diff --git a/".to_owned();
    s.append(from);
    s.append(" b/");
    s.append(to);
    out.push(s);
    assert(lines_view(out@) =~= before.push("diff --git a/"@ + from@ + " b/"@ + to@));
}

/// Index of the first hunk that carries rename metadata, or the number of
/// hunks when none does.
fn find_rename(hunks: &Vec<Hunk>) -> (p: usize)
    ensures
        p == rename_index(hunks_view(hunks@)),
        p <= hunks@.len(),
{
    let ghost hv = hunks_view(hunks@);
    let mut i: usize = 0;
    while i < hunks.len()
        invariant
            i <= hunks.len(),
            hv == hunks_view(hunks@),
            forall|j: int| 0 <= j < i ==> !carries_rename(#[trigger] hv[j]),
        decreases hunks.len() - i,
    {
        assert(hv[i as int] == hunks@[i as int]@);
        if hunks[i].rename_from.is_some() && hunks[i].rename_to.is_some() {
            proof {
                lemma_rename_index_at(hv, i as int);
            }
            return i;
        }
        i += 1;
    }
    proof {
        lemma_rename_index_at(hv, i as int);
    }
    i
}

/// Appends the lines written for one file.
fn push_block(out: &mut Vec<String>, entry: &FilePatch)
    ensures
        lines_view(final(out)@) == lines_view(old(out)@) + block_lines(entry@),
{
    let ghost before = lines_view(out@);
    let ghost hv = hunks_view(entry.hunks@);
    let p = find_rename(&entry.hunks);
    if p < entry.hunks.len() {
        let first = &entry.hunks[p];
        assert(hv[p as int] == first@);
        proof {
            lemma_rename_index(hv);
        }
        match (&first.rename_from, &first.rename_to) {
            (Some(from), Some(to)) => {
                push_opening(out, from.as_str(), to.as_str());
                match &first.similarity_index {
                    Some(s) => {
                        let ghost prev = lines_view(out@);
                        out.push(s.clone());
                        assert(lines_view(out@) =~= prev.push(s@));
                    },
                    None => {},
                }
                push_pair(out, "rename from ", from.as_str());
                push_pair(out, "rename to ", to.as_str());
                push_pair(out, "--- a/", from.as_str());
                push_pair(out, "+++ b/", to.as_str());
                assert(lines_view(out@) =~= before + rename_header(
                    from@,
                    to@,
                    opt_view(first.similarity_index),
                ));
            },
            _ => {},
        }
    } else {
        push_opening(out, entry.name.as_str(), entry.name.as_str());
        push_pair(out, "--- a/", entry.name.as_str());
        push_pair(out, "+++ b/", entry.name.as_str());
        assert(lines_view(out@) =~= before + plain_header(entry.name@));
    }
    let ghost headed = lines_view(out@);
    assert(headed == before + block_header(entry@));
    let mut i: usize = 0;
    assert(headed + hunk_lines_upto(hv, 0) =~= headed);
    while i < entry.hunks.len()
        invariant
            i <= entry.hunks.len(),
            hv == hunks_view(entry.hunks@),
            lines_view(out@) == headed + hunk_lines_upto(hv, i as int),
        decreases entry.hunks.len() - i,
    {
        push_all(out, &entry.hunks[i].lines);
        assert(hv[i as int].lines == lines_view(entry.hunks@[i as int].lines@));
        assert(headed + hunk_lines_upto(hv, i as int) + hv[i as int].lines =~= headed
            + hunk_lines_upto(hv, i + 1));
        i += 1;
    }
    assert(lines_view(out@) =~= before + block_lines(entry@));
}

impl DiffParser {
    /// Parses a unified diff into the hunks of each file. Fails only where
    /// the hunk-header pattern does not compile.
    pub fn parse_unified_diff(diff_output: &str) -> (r: Result<PatchDict, RepoDiffError>)
        ensures
            r is Ok <==> regex_compiles(HUNK_HEADER_PATTERN@),
            match r {
                Ok(d) => d.wf() && d@ == parse_lines(
                    split_lines(diff_output@),
                    HUNK_HEADER_PATTERN@,
                ),
                Err(e) => e is RegexError,
            },
    {
        Self::parse_with_pattern(diff_output, HUNK_HEADER_PATTERN)
    }

    /// Parses a unified diff whose hunk headers are recognized by the
    /// regular expression `pattern`. Fails where `pattern` does not compile,
    /// and only there.
    pub fn parse_with_pattern(diff_output: &str, pattern: &str) -> (r: Result<
        PatchDict,
        RepoDiffError,
    >)
        ensures
            r is Ok <==> regex_compiles(pattern@),
            match r {
                Ok(d) => d.wf() && d@ == parse_lines(split_lines(diff_output@), pattern@),
                Err(e) => e is RegexError,
            },
    {
        match check_pattern(pattern) {
            Ok(_) => {},
            Err(e) => {
                return Err(RepoDiffError::RegexError(e));
            },
        }
        let lines = lines_of(diff_output);
        let ghost ls = split_lines(diff_output@);
        let ghost pat = pattern@;
        let p_diff = to_chars("diff --git");
        let p_old = to_chars("--- a/");
        let p_new = to_chars("+++ b/");
        let p_hunk = to_chars("@@");
        let mut files = PatchDict::new();
        let mut current_file: Option<String> = None;
        let mut hunks: Vec<Hunk> = Vec::new();
        let mut rename = RenameInfo { is_rename: false, from: None, to: None, similarity: None };
        let mut i: usize = 0;
        assert(hunks_view(hunks@) =~= Seq::<HunkView>::empty());
        while i < lines.len()
            invariant
                i <= lines.len(),
                ls == rows_view(lines@),
                pat == pattern@,
                regex_compiles(pat),
                p_diff@ == "diff --git"@,
                p_old@ == "--- a/"@,
                p_new@ == "+++ b/"@,
                p_hunk@ == "@@"@,
                files.wf(),
                parse_from(ls, pat, 0, initial_state()) == parse_from(
                    ls,
                    pat,
                    i as int,
                    ParseView {
                        files: files@,
                        current_file: opt_view(current_file),
                        hunks: hunks_view(hunks@),
                        rename: rename@,
                    },
                ),
            decreases lines.len() - i,
        {
            let line = &lines[i];
            assert(ls[i as int] == line@);
            let ghost st = ParseView {
                files: files@,
                current_file: opt_view(current_file),
                hunks: hunks_view(hunks@),
                rename: rename@,
            };
            if has_prefix(line, &p_diff) {
                match current_file {
                    Some(f) => {
                        files.insert(f, hunks);
                        hunks = Vec::new();
                        assert(hunks_view(hunks@) =~= Seq::<HunkView>::empty());
                    },
                    None => {},
                }
                current_file = None;
                rename = look_ahead(&lines, i + 1);
            } else if has_prefix(line, &p_old) {
            } else if has_prefix(line, &p_new) {
                if rename.is_rename && rename.from.is_some() && rename.to.is_some() {
                    current_file = clone_opt(&rename.to);
                } else {
                    current_file = Some(string_from(line, p_new.len()));
                }
            } else if has_prefix(line, &p_hunk) {
                let text = string_from(line, 0);
                assert(line@.subrange(0, line@.len() as int) =~= line@);
                let groups = captures(pattern, text.as_str());
                match read_header_numbers(&groups) {
                    Some(n) => {
                        let ghost before = hunks_view(hunks@);
                        let hunk = Hunk {
                            header: text,
                            old_start: n.0,
                            old_count: n.1,
                            new_start: n.2,
                            new_count: n.3,
                            lines: Vec::new(),
                            is_rename: rename.is_rename,
                            rename_from: clone_opt(&rename.from),
                            rename_to: clone_opt(&rename.to),
                            similarity_index: clone_opt(&rename.similarity),
                        };
                        assert(hunk@.lines =~= Seq::<Seq<char>>::empty());
                        assert(hunk@ == opened_hunk(
                            line@,
                            (n.0 as nat, n.1 as nat, n.2 as nat, n.3 as nat),
                            rename@,
                        ));
                        hunks.push(hunk);
                        assert(hunks_view(hunks@) =~= before.push(hunk@));
                    },
                    None => {},
                }
            } else if current_file.is_some() && hunks.len() > 0 {
                let ghost before = hunks_view(hunks@);
                let mut last = hunks.pop().unwrap();
                let ghost last_before = last@;
                let ghost lines_before = lines_view(last.lines@);
                let text = string_from(line, 0);
                assert(line@.subrange(0, line@.len() as int) =~= line@);
                last.lines.push(text);
                assert(lines_view(last.lines@) =~= lines_before.push(line@));
                assert(last@ == (HunkView { lines: last_before.lines.push(line@), ..last_before }));
                hunks.push(last);
                assert(hunks_view(hunks@) =~= before.update(before.len() - 1, last@));
            }
            assert(ParseView {
                files: files@,
                current_file: opt_view(current_file),
                hunks: hunks_view(hunks@),
                rename: rename@,
            } == step(st, ls, pat, i as int));
            i += 1;
        }
        match current_file {
            Some(f) => {
                files.insert(f, hunks);
            },
            None => {},
        }
        Ok(files)
    }

    /// Writes the hunks of each file back as text: for each file a header,
    /// then the lines of its hunks without their `@@` lines; lines are
    /// joined by line feeds.
    pub fn reconstruct_patch(patch_dict: &PatchDict) -> (text: String)
        ensures
            text@ == join_lines(patch_lines(patch_dict@)),
    {
        let entries = patch_dict.entries();
        let ghost files = patch_dict@;
        let mut out: Vec<String> = Vec::new();
        let mut i: usize = 0;
        assert(lines_view(out@) =~= patch_lines_upto(files, 0));
        while i < entries.len()
            invariant
                i <= entries.len(),
                files == files_view(entries@),
                lines_view(out@) == patch_lines_upto(files, i as int),
            decreases entries.len() - i,
        {
            push_block(&mut out, &entries[i]);
            assert(files[i as int] == entries@[i as int]@);
            i += 1;
        }
        join(&out)
    }
}

} // verus!
