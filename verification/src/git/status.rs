//! The status of a working tree.

use vstd::prelude::*;
use vstd::slice::slice_subrange;
use vstd::string::*;
use vstd::utf8::{encode_scalar, encode_utf8};

use crate::git::plan::{in_dir, Args};
use crate::git::query::{step_views, Ending, EndingView, Policy, Query, QueryStep};
use crate::git::query::{QueryView, StepView};
use crate::json::{fields, no_fields, object_view, Fields, Json, JsonView};
use crate::text::{
    after_prefix, chars_of, contains, cutting_in_three, decimal, find, find_last, first_place,
    is_digit, is_space, last_place, lemma_decimal, lines, numbers_are_read_back, parse_u32,
    position, position_of, read_unsigned, same, slices, split, split_at_char, split_lines, splitn,
    splitn_at_char, stands_at, starts_with, string_of, texts, trim, trim_start_char, trimmed,
    trimmed_start_char, trimming_leaves_the_rest,
};
use crate::textmap::TextMap;

verus! {

/// How many lines of a file were added and taken away.
#[derive(Debug, Clone, Copy, PartialEq, Eq, Structural)]
pub struct GitFileStat {
    pub insertions: u32,
    pub deletions: u32,
}

/// The status of a working tree.
#[derive(Debug, PartialEq)]
pub struct GitStatus {
    pub branch: String,
    pub ahead: u32,
    pub behind: u32,
    pub modified: Vec<String>,
    pub staged: Vec<String>,
    pub untracked: Vec<String>,
    pub deleted: Vec<String>,
    /// The letter of each staged file: A, M, D, R, C or T.
    pub staged_details: TextMap<char>,
    /// The letter of each file in the working tree: M, D or U.
    pub worktree_details: TextMap<char>,
    /// The files with a conflict.
    pub unmerged: Vec<String>,
    /// The lines of each file that are not staged.
    pub worktree_stats: TextMap<GitFileStat>,
    /// The lines of each file that are staged.
    pub staged_stats: TextMap<GitFileStat>,
}

/// What a status stands for.
pub struct StatusView {
    pub branch: Seq<char>,
    pub ahead: int,
    pub behind: int,
    pub modified: Seq<Seq<char>>,
    pub staged: Seq<Seq<char>>,
    pub untracked: Seq<Seq<char>>,
    pub deleted: Seq<Seq<char>>,
    pub staged_details: Map<Seq<char>, char>,
    pub worktree_details: Map<Seq<char>, char>,
    pub unmerged: Seq<Seq<char>>,
    pub worktree_stats: Map<Seq<char>, GitFileStat>,
    pub staged_stats: Map<Seq<char>, GitFileStat>,
}

impl View for GitStatus {
    type V = StatusView;

    open spec fn view(&self) -> StatusView {
        StatusView {
            branch: self.branch@,
            ahead: self.ahead as int,
            behind: self.behind as int,
            modified: texts(self.modified@),
            staged: texts(self.staged@),
            untracked: texts(self.untracked@),
            deleted: texts(self.deleted@),
            staged_details: self.staged_details@,
            worktree_details: self.worktree_details@,
            unmerged: texts(self.unmerged@),
            worktree_stats: self.worktree_stats@,
            staged_stats: self.staged_stats@,
        }
    }
}

/// A number, or zero when the text is none.
pub open spec fn count_of(s: Seq<char>) -> int {
    match read_unsigned(s, u32::MAX as int) {
        Some(n) => n,
        None => 0,
    }
}

fn read_count(s: &[char]) -> (r: u32)
    ensures
        r == count_of(s@),
{
    match parse_u32(s) {
        Some(n) => n,
        None => 0,
    }
}

/// The lines of each file, as a list of changes tells them, up to the line at
/// `n`.
pub open spec fn stats_of(all: Seq<Seq<char>>, n: nat) -> Map<Seq<char>, GitFileStat>
    decreases n,
{
    if n == 0 {
        Map::empty()
    } else {
        let before = stats_of(all, (n - 1) as nat);
        let parts = splitn(all[n - 1], '\t', 3);
        if parts.len() == 3 {
            before.insert(
                trim(parts[2]),
                GitFileStat {
                    insertions: count_of(parts[0]) as u32,
                    deletions: count_of(parts[1]) as u32,
                },
            )
        } else {
            before
        }
    }
}

/// Reads the lines of each file out of a list of changes.
pub fn parse_numstat(output: &str) -> (r: TextMap<GitFileStat>)
    ensures
        r.wf(),
        r@ == stats_of(lines(output@), lines(output@).len()),
{
    let chars = chars_of(output);
    let all = split_lines(chars.as_slice());
    let ghost told = lines(output@);
    let mut map: TextMap<GitFileStat> = TextMap::new();
    let mut i: usize = 0;
    while i < all.len()
        invariant
            i <= all@.len(),
            told == slices(all@),
            map.wf(),
            map@ == stats_of(told, i as nat),
        decreases all@.len() - i,
    {
        assert(told[i as int] == all@[i as int]@);
        let parts = splitn_at_char(all[i], '\t', 3);
        let ghost views = splitn(told[i as int], '\t', 3);
        assert(slices(parts@) == views);
        if parts.len() == 3 {
            assert(views[0] == parts@[0]@);
            assert(views[1] == parts@[1]@);
            assert(views[2] == parts@[2]@);
            let stat = GitFileStat {
                insertions: read_count(parts[0]),
                deletions: read_count(parts[1]),
            };
            map.insert(string_of(trimmed(parts[2])), stat);
        }
        i += 1;
    }
    map
}

/// What the first line of a status tells: the branch, and by how many commits it
/// is ahead and behind.
pub struct HeadView {
    pub branch: Seq<char>,
    pub ahead: int,
    pub behind: int,
}

/// What the line says, without its marks.
pub open spec fn head_info(head: Seq<char>) -> Seq<char> {
    trim(trim_start_char(head, '#'))
}

/// Where a text stands first in another, or the length of that.
pub open spec fn place_of(s: Seq<char>, p: Seq<char>) -> int {
    if contains(s, p) {
        choose|i: int| first_place(s, p, i)
    } else {
        s.len() as int
    }
}

/// What follows the last mention of a text in another, or all of that.
pub open spec fn after_last(s: Seq<char>, p: Seq<char>) -> Seq<char> {
    if contains(s, p) {
        s.skip((choose|i: int| last_place(s, p, i)) + p.len())
    } else {
        s
    }
}

/// The counts that some parts name, up to the part at `n`; a later one counts.
pub open spec fn counts_of(parts: Seq<Seq<char>>, n: nat) -> (int, int)
    decreases n,
{
    if n == 0 {
        (0, 0)
    } else {
        let (ahead, behind) = counts_of(parts, (n - 1) as nat);
        let p = trim(parts[n - 1]);
        if starts_with(p, "ahead "@) {
            (count_of(p.skip("ahead "@.len() as int)), behind)
        } else if starts_with(p, "behind "@) {
            (ahead, count_of(p.skip("behind "@.len() as int)))
        } else {
            (ahead, behind)
        }
    }
}

/// Tells whether the brackets of a line, when it has both, stand in their order.
pub open spec fn brackets_in_order(info: Seq<char>) -> bool {
    info.contains('[') && info.contains(']') ==> position(info, '[') < position(info, ']')
}

/// What the first line of a status tells.
pub open spec fn head_of(head: Seq<char>) -> HeadView {
    let info = head_info(head);
    if starts_with(info, "No commits yet"@) {
        HeadView { branch: after_last(info, "on "@), ahead: 0, behind: 0 }
    } else {
        let (ahead, behind) = if info.contains('[') && info.contains(']') {
            let parts = split(
                info.subrange(position(info, '[') + 1, position(info, ']')),
                ',',
            );
            counts_of(parts, parts.len())
        } else {
            (0, 0)
        };
        HeadView { branch: trim(info.take(place_of(info, "..."@))), ahead, behind }
    }
}

/// Tells whether the first line of a status can be read.
pub open spec fn head_readable(head: Seq<char>) -> bool {
    starts_with(head_info(head), "No commits yet"@) || brackets_in_order(head_info(head))
}

/// Tells whether the first line of a status can be read.
pub fn can_read_head(head: &str) -> (r: bool)
    ensures
        r == head_readable(head@),
{
    let chars = chars_of(head);
    let info = trimmed(trimmed_start_char(chars.as_slice(), '#'));
    let open = position_of(info, '[');
    let close = position_of(info, ']');
    proof {
        crate::text::lemma_position(info@, '[');
        crate::text::lemma_position(info@, ']');
    }
    crate::text::begins_text(info, "No commits yet") || open == info.len() || close == info.len()
        || open < close
}

/// Reads the first line of a status.
pub fn parse_branch_head(head: &str) -> (r: (String, u32, u32))
    requires
        head_readable(head@),
    ensures
        ({
            let h = head_of(head@);
            r.0@ == h.branch && r.1 == h.ahead && r.2 == h.behind
        }),
{
    let chars = chars_of(head);
    let info = trimmed(trimmed_start_char(chars.as_slice(), '#'));
    let ghost said = head_info(head@);
    if crate::text::begins_text(info, "No commits yet") {
        let on = chars_of("on ");
        let branch = match find_last(info, on.as_slice()) {
            Some(i) => {
                proof {
                    assert(stands_at(said, "on "@, i as int));
                    assert(contains(said, "on "@));
                    let j = choose|j: int| last_place(said, "on "@, j);
                    assert(last_place(said, "on "@, i as int));
                    assert(i == j);
                }
                assert(i + on@.len() <= info@.len());
                assert(info@.len() == info.len());
                let rest = slice_subrange(info, i + on.len(), info.len());
                assert(rest@ =~= said.skip(i + on@.len()));
                string_of(rest)
            },
            None => string_of(info),
        };
        return (branch, 0, 0);
    }
    let dots = chars_of("...");
    let upto = match find(info, dots.as_slice()) {
        Some(i) => {
            proof {
                assert(stands_at(said, "..."@, i as int));
                assert(contains(said, "..."@));
                let j = choose|j: int| first_place(said, "..."@, j);
                assert(first_place(said, "..."@, i as int));
                assert(i == j);
            }
            i
        },
        None => info.len(),
    };
    let front = slice_subrange(info, 0, upto);
    assert(front@ =~= said.take(place_of(said, "..."@)));
    let branch = string_of(trimmed(front));
    let open = position_of(info, '[');
    let close = position_of(info, ']');
    proof {
        crate::text::lemma_position(info@, '[');
        crate::text::lemma_position(info@, ']');
    }
    let mut ahead: u32 = 0;
    let mut behind: u32 = 0;
    if open < info.len() && close < info.len() {
        let inner = slice_subrange(info, open + 1, close);
        let parts = split_at_char(inner, ',');
        let ghost told = split(inner@, ',');
        let mut i: usize = 0;
        while i < parts.len()
            invariant
                i <= parts@.len(),
                told == slices(parts@),
                (ahead as int, behind as int) == counts_of(told, i as nat),
            decreases parts@.len() - i,
        {
            assert(told[i as int] == parts@[i as int]@);
            let p = trimmed(parts[i]);
            match after_prefix(p, "ahead ") {
                Some(n) => {
                    ahead = read_count(n);
                },
                None => match after_prefix(p, "behind ") {
                    Some(n) => {
                        behind = read_count(n);
                    },
                    None => {},
                },
            }
            i += 1;
        }
    }
    (branch, ahead, behind)
}

/// The texts of some lines that are not blank, without the white space around
/// them, up to the line at `n`.
pub open spec fn names_of(all: Seq<Seq<char>>, n: nat) -> Seq<Seq<char>>
    decreases n,
{
    if n == 0 {
        Seq::empty()
    } else {
        let front = names_of(all, (n - 1) as nat);
        let t = trim(all[n - 1]);
        if t.len() > 0 {
            front.push(t)
        } else {
            front
        }
    }
}

/// The lines of an output that are not blank, without the white space around
/// them.
pub fn list_names(output: &str) -> (r: Vec<String>)
    ensures
        texts(r@) == names_of(lines(output@), lines(output@).len()),
{
    let chars = chars_of(output);
    let all = split_lines(chars.as_slice());
    let ghost told = lines(output@);
    let mut out: Vec<String> = Vec::new();
    let mut i: usize = 0;
    assert(texts(out@) =~= Seq::empty());
    while i < all.len()
        invariant
            i <= all@.len(),
            told == slices(all@),
            texts(out@) == names_of(told, i as nat),
        decreases all@.len() - i,
    {
        let ghost before = texts(out@);
        assert(told[i as int] == all@[i as int]@);
        let t = trimmed(all[i]);
        if t.len() > 0 {
            let s = string_of(t);
            out.push(s);
            assert(texts(out@) =~= before.push(s@));
        }
        i += 1;
    }
    out
}

/// How many characters of a line make up its first three bytes, from `k` on, or
/// -1 when no number does.
pub open spec fn three_bytes(line: Seq<char>, k: int) -> int
    decreases 4 - k,
{
    if k > 3 || k > line.len() {
        -1
    } else if encode_utf8(line.take(k)).len() == 3 {
        k
    } else {
        three_bytes(line, k + 1)
    }
}

/// Tells whether a line of a status can be read: its first three bytes are whole
/// characters, or it is too short to count.
pub open spec fn line_readable(line: Seq<char>) -> bool {
    encode_utf8(line).len() < 4 || three_bytes(line, 0) >= 0
}

/// Tells whether a status can be read.
pub open spec fn status_readable(output: Seq<char>) -> bool {
    let all = lines(output);
    &&& head_readable(
        if all.len() > 0 {
            all[0]
        } else {
            Seq::empty()
        },
    )
    &&& forall|i: int| 1 <= i < all.len() ==> line_readable(#[trigger] all[i])
}

/// The files of a status, by what has become of them.
#[verifier::ext_equal]
pub struct Filed {
    pub staged: Seq<Seq<char>>,
    pub modified: Seq<Seq<char>>,
    pub untracked: Seq<Seq<char>>,
    pub deleted: Seq<Seq<char>>,
    pub staged_details: Map<Seq<char>, char>,
    pub worktree_details: Map<Seq<char>, char>,
}

/// The letter under which a staged file is told.
pub open spec fn staged_letter(x: char) -> char {
    if x == 'A' || x == 'D' || x == 'R' || x == 'C' || x == 'T' {
        x
    } else {
        'M'
    }
}

/// The letter under which a file with a conflict is told in the working tree.
pub open spec fn conflict_letter(y: char) -> char {
    if y == 'D' || y == 'U' {
        y
    } else {
        'M'
    }
}

fn letter_in_index(x: char) -> (r: char)
    ensures
        r == staged_letter(x),
{
    if x == 'A' || x == 'D' || x == 'R' || x == 'C' || x == 'T' {
        x
    } else {
        'M'
    }
}

impl Filed {
    /// No files.
    pub open spec fn none() -> Filed {
        Filed {
            staged: Seq::empty(),
            modified: Seq::empty(),
            untracked: Seq::empty(),
            deleted: Seq::empty(),
            staged_details: Map::empty(),
            worktree_details: Map::empty(),
        }
    }

    /// The files with a conflict are told by their letters alone.
    pub open spec fn conflict(self, x: char, y: char, file: Seq<char>) -> Filed {
        Filed {
            staged_details: self.staged_details.insert(file, staged_letter(x)),
            worktree_details: self.worktree_details.insert(file, conflict_letter(y)),
            ..self
        }
    }

    /// A file that git does not know.
    pub open spec fn unknown(self, file: Seq<char>) -> Filed {
        Filed {
            untracked: self.untracked.push(file),
            worktree_details: self.worktree_details.insert(file, 'U'),
            ..self
        }
    }

    /// What is staged of a file.
    pub open spec fn in_index(self, x: char, file: Seq<char>) -> Filed {
        if x == ' ' {
            self
        } else {
            Filed {
                staged: self.staged.push(file),
                staged_details: self.staged_details.insert(file, staged_letter(x)),
                deleted: if x == 'D' {
                    self.deleted.push(file)
                } else {
                    self.deleted
                },
                ..self
            }
        }
    }

    /// What is not staged of a file.
    pub open spec fn in_worktree(self, y: char, file: Seq<char>) -> Filed {
        if y == ' ' {
            self
        } else if y == 'D' {
            Filed {
                deleted: self.deleted.push(file),
                worktree_details: self.worktree_details.insert(file, 'D'),
                ..self
            }
        } else {
            Filed {
                modified: self.modified.push(file),
                worktree_details: self.worktree_details.insert(file, 'M'),
                ..self
            }
        }
    }

    /// The files with one more line of the status.
    pub open spec fn with(self, line: Seq<char>, unmerged: Seq<Seq<char>>) -> Filed {
        let bytes = encode_utf8(line);
        if bytes.len() < 4 {
            self
        } else {
            let x = bytes[0] as char;
            let y = bytes[1] as char;
            let file = line.skip(three_bytes(line, 0));
            if unmerged.contains(file) {
                self.conflict(x, y, file)
            } else if x == '?' && y == '?' {
                self.unknown(file)
            } else {
                self.in_index(x, file).in_worktree(y, file)
            }
        }
    }
}

/// The files that the lines of a status tell of, from the second line up to the
/// one at `n`.
pub open spec fn filed(all: Seq<Seq<char>>, n: int, unmerged: Seq<Seq<char>>) -> Filed
    decreases n,
{
    if n <= 1 {
        Filed::none()
    } else {
        filed(all, n - 1, unmerged).with(all[n - 1], unmerged)
    }
}

/// The status that the outputs of the runs tell: the second is the status
/// itself, the third lists the conflicts, and the last two the lines.
pub open spec fn status_of(outputs: Seq<Seq<char>>) -> StatusView {
    let all = lines(outputs[1]);
    let head = head_of(
        if all.len() > 0 {
            all[0]
        } else {
            Seq::empty()
        },
    );
    let unmerged = names_of(lines(outputs[2]), lines(outputs[2]).len());
    let f = filed(all, all.len() as int, unmerged);
    StatusView {
        branch: head.branch,
        ahead: head.ahead,
        behind: head.behind,
        modified: f.modified,
        staged: f.staged,
        untracked: f.untracked,
        deleted: f.deleted,
        staged_details: f.staged_details,
        worktree_details: f.worktree_details,
        unmerged,
        worktree_stats: stats_of(lines(outputs[3]), lines(outputs[3]).len()),
        staged_stats: stats_of(lines(outputs[4]), lines(outputs[4]).len()),
    }
}

fn cut_three(line: &[char]) -> (r: Option<usize>)
    ensures
        match r {
            Some(k) => three_bytes(line@, 0) == k && k <= line@.len(),
            None => three_bytes(line@, 0) == -1,
        },
{
    let mut k: usize = 0;
    while k <= 3 && k <= line.len()
        invariant
            k <= 4,
            three_bytes(line@, 0) == three_bytes(line@, k as int),
        decreases 4 - k,
    {
        let front = slice_subrange(line, 0, k);
        assert(front@ =~= line@.take(k as int));
        let bytes = string_of(front).as_str().as_bytes_vec();
        if bytes.len() == 3 {
            return Some(k);
        }
        k += 1;
    }
    None
}

/// Tells whether a status can be read.
pub fn can_read_status(output: &str) -> (r: bool)
    ensures
        r == status_readable(output@),
{
    let chars = chars_of(output);
    let all = split_lines(chars.as_slice());
    let ghost told = lines(output@);
    let head = if all.len() > 0 {
        string_of(all[0])
    } else {
        proof {
            reveal_strlit("");
            assert(""@ =~= Seq::<char>::empty());
        }
        "".to_owned()
    };
    assert(told.len() > 0 ==> head@ == told[0]);
    if !can_read_head(head.as_str()) {
        return false;
    }
    let mut i: usize = 1;
    while i < all.len()
        invariant
            1 <= i,
            told == slices(all@),
            told == lines(output@),
            forall|j: int| 1 <= j < i && j < told.len() ==> line_readable(#[trigger] told[j]),
        decreases all@.len() - i,
    {
        assert(told[i as int] == all@[i as int]@);
        let bytes = string_of(all[i]).as_str().as_bytes_vec();
        if bytes.len() >= 4 {
            match cut_three(all[i]) {
                Some(_) => {},
                None => {
                    assert(!line_readable(told[i as int]));
                    return false;
                },
            }
        }
        i += 1;
    }
    true
}

/// The files of a status while they are gathered.
struct Filing {
    staged: Vec<String>,
    modified: Vec<String>,
    untracked: Vec<String>,
    deleted: Vec<String>,
    staged_details: TextMap<char>,
    worktree_details: TextMap<char>,
}

impl Filing {
    spec fn wf(&self) -> bool {
        self.staged_details.wf() && self.worktree_details.wf()
    }

    spec fn value(&self) -> Filed {
        Filed {
            staged: texts(self.staged@),
            modified: texts(self.modified@),
            untracked: texts(self.untracked@),
            deleted: texts(self.deleted@),
            staged_details: self.staged_details@,
            worktree_details: self.worktree_details@,
        }
    }

    fn new() -> (r: Self)
        ensures
            r.wf(),
            r.value() == Filed::none(),
    {
        let r = Filing {
            staged: Vec::new(),
            modified: Vec::new(),
            untracked: Vec::new(),
            deleted: Vec::new(),
            staged_details: TextMap::new(),
            worktree_details: TextMap::new(),
        };
        assert(r.value() =~= Filed::none());
        r
    }

    fn conflict(&mut self, x: char, y: char, file: String)
        requires
            old(self).wf(),
        ensures
            final(self).wf(),
            final(self).value() == old(self).value().conflict(x, y, file@),
    {
        self.staged_details.insert(file.clone(), letter_in_index(x));
        let letter = if y == 'D' || y == 'U' {
            y
        } else {
            'M'
        };
        self.worktree_details.insert(file, letter);
    }

    fn unknown(&mut self, file: String)
        requires
            old(self).wf(),
        ensures
            final(self).wf(),
            final(self).value() == old(self).value().unknown(file@),
    {
        let ghost before = self.value();
        self.untracked.push(file.clone());
        assert(texts(self.untracked@) =~= before.untracked.push(file@));
        self.worktree_details.insert(file, 'U');
    }

    fn in_index(&mut self, x: char, file: &str)
        requires
            old(self).wf(),
        ensures
            final(self).wf(),
            final(self).value() == old(self).value().in_index(x, file@),
    {
        let ghost before = self.value();
        if x != ' ' {
            self.staged.push(file.to_owned());
            assert(texts(self.staged@) =~= before.staged.push(file@));
            self.staged_details.insert(file.to_owned(), letter_in_index(x));
            if x == 'D' {
                self.deleted.push(file.to_owned());
                assert(texts(self.deleted@) =~= before.deleted.push(file@));
            }
        }
    }

    fn in_worktree(&mut self, y: char, file: String)
        requires
            old(self).wf(),
        ensures
            final(self).wf(),
            final(self).value() == old(self).value().in_worktree(y, file@),
    {
        let ghost before = self.value();
        if y != ' ' {
            if y == 'D' {
                self.deleted.push(file.clone());
                assert(texts(self.deleted@) =~= before.deleted.push(file@));
                self.worktree_details.insert(file, 'D');
            } else {
                self.modified.push(file.clone());
                assert(texts(self.modified@) =~= before.modified.push(file@));
                self.worktree_details.insert(file, 'M');
            }
        }
    }
}

fn listed(v: &Vec<String>, file: &str) -> (r: bool)
    ensures
        r == texts(v@).contains(file@),
{
    let mut i: usize = 0;
    while i < v.len()
        invariant
            i <= v@.len(),
            forall|j: int| 0 <= j < i ==> (#[trigger] v@[j])@ != file@,
        decreases v@.len() - i,
    {
        if same(v[i].as_str(), file) {
            assert(texts(v@)[i as int] == file@);
            return true;
        }
        i += 1;
    }
    proof {
        if texts(v@).contains(file@) {
            let j = choose|j: int| 0 <= j < texts(v@).len() && texts(v@)[j] == file@;
            assert(v@[j]@ == file@);
        }
    }
    false
}

/// Reads a status out of the outputs of the runs.
pub fn read_status(outputs: &Vec<String>) -> (r: GitStatus)
    requires
        outputs@.len() == 5,
        status_readable(outputs@[1]@),
    ensures
        r@ == status_of(texts(outputs@)),
        r.staged_details.wf(),
        r.worktree_details.wf(),
        r.worktree_stats.wf(),
        r.staged_stats.wf(),
{
    let ghost given = texts(outputs@);
    let chars = chars_of(outputs[1].as_str());
    let all = split_lines(chars.as_slice());
    let ghost told = lines(given[1]);
    assert(told == slices(all@));
    let head = if all.len() > 0 {
        string_of(all[0])
    } else {
        proof {
            reveal_strlit("");
            assert(""@ =~= Seq::<char>::empty());
        }
        "".to_owned()
    };
    assert(told.len() > 0 ==> head@ == told[0]);
    let (branch, ahead, behind) = parse_branch_head(head.as_str());
    let unmerged = list_names(outputs[2].as_str());
    let ghost conflicts = texts(unmerged@);
    let mut f = Filing::new();
    let mut i: usize = 1;
    while i < all.len()
        invariant
            1 <= i,
            i <= all@.len() || i == 1,
            told == slices(all@),
            conflicts == texts(unmerged@),
            forall|j: int| 1 <= j < told.len() ==> line_readable(#[trigger] told[j]),
            f.wf(),
            f.value() == filed(told, i as int, conflicts),
        decreases all@.len() - i,
    {
        let ghost line = told[i as int];
        assert(line == all@[i as int]@);
        let bytes = string_of(all[i]).as_str().as_bytes_vec();
        if bytes.len() >= 4 {
            let x = bytes[0] as char;
            let y = bytes[1] as char;
            match cut_three(all[i]) {
                Some(k) => {
                    let rest = slice_subrange(all[i], k, all[i].len());
                    assert(rest@ =~= line.skip(k as int));
                    let file = string_of(rest);
                    if listed(&unmerged, file.as_str()) {
                        f.conflict(x, y, file);
                    } else if x == '?' && y == '?' {
                        f.unknown(file);
                    } else {
                        f.in_index(x, file.as_str());
                        f.in_worktree(y, file);
                    }
                },
                None => {
                    assert(false);
                },
            }
        }
        assert(f.value() == filed(told, i as int, conflicts).with(line, conflicts));
        i += 1;
    }
    assert(filed(told, i as int, conflicts) == filed(told, told.len() as int, conflicts));
    let worktree_stats = parse_numstat(outputs[3].as_str());
    let staged_stats = parse_numstat(outputs[4].as_str());
    GitStatus {
        branch,
        ahead,
        behind,
        modified: f.modified,
        staged: f.staged,
        untracked: f.untracked,
        deleted: f.deleted,
        staged_details: f.staged_details,
        worktree_details: f.worktree_details,
        unmerged,
        worktree_stats,
        staged_stats,
    }
}

/// The runs that tell the status of a working tree.
pub open spec fn status_steps(path: Seq<char>) -> Seq<StepView> {
    seq![
        (in_dir(path, seq!["rev-parse"@, "--is-inside-work-tree"@]), Policy::Probe),
        (in_dir(path, seq!["status"@, "-b"@, "--porcelain"@]), Policy::Need),
        (in_dir(path, seq!["diff"@, "--name-only"@, "--diff-filter=U"@]), Policy::Wish),
        (in_dir(path, seq!["diff"@, "--numstat"@]), Policy::Wish),
        (in_dir(path, seq!["diff"@, "--cached"@, "--numstat"@]), Policy::Wish),
    ]
}

/// Asks for the status of a working tree.
pub fn get_git_status(path: &str) -> (r: Query)
    ensures
        r@ == QueryView::start(status_steps(path@)),
{
    let a = Args::in_dir(path).arg("rev-parse").arg("--is-inside-work-tree");
    assert(a@ =~= in_dir(path@, seq!["rev-parse"@, "--is-inside-work-tree"@]));
    let b = Args::in_dir(path).arg("status").arg("-b").arg("--porcelain");
    assert(b@ =~= in_dir(path@, seq!["status"@, "-b"@, "--porcelain"@]));
    let c = Args::in_dir(path).arg("diff").arg("--name-only").arg("--diff-filter=U");
    assert(c@ =~= in_dir(path@, seq!["diff"@, "--name-only"@, "--diff-filter=U"@]));
    let d = Args::in_dir(path).arg("diff").arg("--numstat");
    assert(d@ =~= in_dir(path@, seq!["diff"@, "--numstat"@]));
    let e = Args::in_dir(path).arg("diff").arg("--cached").arg("--numstat");
    assert(e@ =~= in_dir(path@, seq!["diff"@, "--cached"@, "--numstat"@]));
    let mut steps: Vec<QueryStep> = Vec::new();
    steps.push(QueryStep { args: a.done(), policy: Policy::Probe });
    steps.push(QueryStep { args: b.done(), policy: Policy::Need });
    steps.push(QueryStep { args: c.done(), policy: Policy::Wish });
    steps.push(QueryStep { args: d.done(), policy: Policy::Wish });
    steps.push(QueryStep { args: e.done(), policy: Policy::Wish });
    assert(step_views(steps@) =~= status_steps(path@));
    Query::new(steps)
}

/// The letters of some files as a JSON object.
pub open spec fn letters_json(m: TextMap<char>) -> JsonView {
    JsonView::Object(
        Seq::new(
            m.list().len(),
            |i: int| (m.list()[i].0@, JsonView::Str(seq![m.list()[i].1])),
        ),
    )
}

/// The lines of some files as a JSON object.
pub open spec fn stats_json(m: TextMap<GitFileStat>) -> JsonView {
    JsonView::Object(
        Seq::new(
            m.list().len(),
            |i: int|
                (
                    m.list()[i].0@,
                    JsonView::Object(
                        no_fields().push(
                            ("insertions"@, JsonView::Unsigned(m.list()[i].1.insertions as u64)),
                        ).push(
                            ("deletions"@, JsonView::Unsigned(m.list()[i].1.deletions as u64)),
                        ),
                    ),
                ),
        ),
    )
}

fn letters(m: &TextMap<char>) -> (r: Json)
    ensures
        r@ == letters_json(*m),
{
    let list = m.entries();
    let mut out: Vec<(String, Json)> = Vec::new();
    let mut i: usize = 0;
    while i < list.len()
        invariant
            i <= list@.len(),
            list@ == m.list(),
            out@.len() == i,
            forall|j: int|
                0 <= j < i ==> (#[trigger] out@[j]).0@ == list@[j].0@ && out@[j].1@
                    == JsonView::Str(seq![list@[j].1]),
        decreases list@.len() - i,
    {
        let mut letter: Vec<char> = Vec::new();
        letter.push(list[i].1);
        assert(letter@ =~= seq![list@[i as int].1]);
        let name = list[i].0.clone();
        out.push((name, Json::Str(string_of(letter.as_slice()))));
        i += 1;
    }
    proof {
        object_view(out);
        assert(fields(out@) =~= letters_json(*m)->Object_0);
    }
    Json::Object(out)
}

fn line_counts(m: &TextMap<GitFileStat>) -> (r: Json)
    ensures
        r@ == stats_json(*m),
{
    let list = m.entries();
    let mut out: Vec<(String, Json)> = Vec::new();
    let mut i: usize = 0;
    while i < list.len()
        invariant
            i <= list@.len(),
            list@ == m.list(),
            out@.len() == i,
            forall|j: int|
                0 <= j < i ==> ((#[trigger] out@[j]).0@, out@[j].1@) == stats_json(*m)->Object_0[j],
        decreases list@.len() - i,
    {
        let stat = list[i].1;
        let value = Fields::new().number("insertions", stat.insertions as u64).number(
            "deletions",
            stat.deletions as u64,
        ).object();
        let name = list[i].0.clone();
        out.push((name, value));
        i += 1;
    }
    proof {
        object_view(out);
        assert(fields(out@) =~= stats_json(*m)->Object_0);
    }
    Json::Object(out)
}

/// A list of texts as a JSON array.
pub open spec fn texts_json(v: Seq<Seq<char>>) -> JsonView {
    JsonView::Array(Seq::new(v.len(), |i: int| JsonView::Str(v[i])))
}

fn list_json(v: &Vec<String>) -> (r: Json)
    ensures
        r@ == texts_json(texts(v@)),
{
    let r = Json::of_texts(v);
    assert(r@->Array_0 =~= texts_json(texts(v@))->Array_0);
    r
}

/// A status as a client is told it.
pub open spec fn status_json(s: GitStatus) -> JsonView {
    JsonView::Object(
        no_fields().push(("branch"@, JsonView::Str(s.branch@))).push(
            ("ahead"@, JsonView::Unsigned(s.ahead as u64)),
        ).push(("behind"@, JsonView::Unsigned(s.behind as u64))).push(
            ("modified"@, texts_json(texts(s.modified@))),
        ).push(("staged"@, texts_json(texts(s.staged@)))).push(
            ("untracked"@, texts_json(texts(s.untracked@))),
        ).push(("deleted"@, texts_json(texts(s.deleted@)))).push(
            ("stagedDetails"@, letters_json(s.staged_details)),
        ).push(("worktreeDetails"@, letters_json(s.worktree_details))).push(
            ("unmerged"@, texts_json(texts(s.unmerged@))),
        ).push(("worktreeStats"@, stats_json(s.worktree_stats))).push(
            ("stagedStats"@, stats_json(s.staged_stats)),
        ),
    )
}

/// The status as a client is told it.
pub fn status_to_json(s: &GitStatus) -> (r: Json)
    ensures
        r@ == status_json(*s),
{
    Fields::new().text("branch", s.branch.as_str()).number("ahead", s.ahead as u64).number(
        "behind",
        s.behind as u64,
    ).with("modified", list_json(&s.modified)).with("staged", list_json(&s.staged)).with(
        "untracked",
        list_json(&s.untracked),
    ).with("deleted", list_json(&s.deleted)).with(
        "stagedDetails",
        letters(&s.staged_details),
    ).with("worktreeDetails", letters(&s.worktree_details)).with(
        "unmerged",
        list_json(&s.unmerged),
    ).with("worktreeStats", line_counts(&s.worktree_stats)).with(
        "stagedStats",
        line_counts(&s.staged_stats),
    ).object()
}

/// A file with a conflict is told as such, and not as one that is staged,
/// changed, unknown or deleted as well.
pub proof fn conflicts_are_told_apart(
    all: Seq<Seq<char>>,
    n: int,
    unmerged: Seq<Seq<char>>,
    file: Seq<char>,
)
    requires
        unmerged.contains(file),
    ensures
        !filed(all, n, unmerged).staged.contains(file),
        !filed(all, n, unmerged).modified.contains(file),
        !filed(all, n, unmerged).untracked.contains(file),
        !filed(all, n, unmerged).deleted.contains(file),
    decreases n,
{
    if n > 1 {
        conflicts_are_told_apart(all, n - 1, unmerged, file);
        let f = filed(all, n - 1, unmerged);
        let g = filed(all, n, unmerged);
        let line = all[n - 1];
        let other = line.skip(three_bytes(line, 0));
        lemma_not_added(f.staged, g.staged, other, file);
        lemma_not_added(f.modified, g.modified, other, file);
        lemma_not_added(f.untracked, g.untracked, other, file);
        if other == file {
            assert(g.deleted == f.deleted);
            assert(g.deleted.len() < f.deleted.push(other).push(other).len());
        }
        if g.deleted == f.deleted.push(other).push(other) {
            lemma_not_added(f.deleted, f.deleted.push(other), other, file);
            lemma_not_added(f.deleted.push(other), g.deleted, other, file);
        } else {
            lemma_not_added(f.deleted, g.deleted, other, file);
        }
    }
}

/// Tells whether a letter is one under which a staged file is told.
pub open spec fn is_staged_letter(c: char) -> bool {
    c == 'A' || c == 'M' || c == 'D' || c == 'R' || c == 'C' || c == 'T'
}

/// Tells whether a letter is one under which a file in the working tree is told.
pub open spec fn is_worktree_letter(c: char) -> bool {
    c == 'M' || c == 'D' || c == 'U'
}

/// The letter of a staged file is one of A, M, D, R, C and T, and that of a file
/// in the working tree one of M, D and U.
pub proof fn letters_are_known(
    all: Seq<Seq<char>>,
    n: int,
    unmerged: Seq<Seq<char>>,
    file: Seq<char>,
)
    ensures
        ({
            let f = filed(all, n, unmerged);
            &&& f.staged_details.contains_key(file) ==> is_staged_letter(f.staged_details[file])
            &&& f.worktree_details.contains_key(file) ==> is_worktree_letter(
                f.worktree_details[file],
            )
        }),
    decreases n,
{
    if n > 1 {
        letters_are_known(all, n - 1, unmerged, file);
    }
}

/// A list that grew by another file does not hold this one.
proof fn lemma_not_added(
    before: Seq<Seq<char>>,
    after: Seq<Seq<char>>,
    other: Seq<char>,
    file: Seq<char>,
)
    requires
        !before.contains(file),
        after == before || (after == before.push(other) && other != file),
    ensures
        !after.contains(file),
{
    if after.contains(file) {
        let i = choose|i: int| 0 <= i < after.len() && after[i] == file;
        assert(before[i] == file);
    }
}

/// What a question for the status came to.
pub fn finish_status(q: &Query) -> (r: Result<GitStatus, String>)
    requires
        !q@.waiting(),
        q@.steps.len() == 5,
        q@.outputs.len() <= 5,
        q@.ended is None ==> status_readable(q@.outputs[1]),
    ensures
        match q@.ended {
            Some(EndingView::Refused(e)) => r matches Err(t) && t@ == e,
            Some(EndingView::Empty) => r matches Err(t) && t@ == Seq::<char>::empty(),
            None => r matches Ok(s) && s@ == status_of(q@.outputs),
        },
{
    match q.ended() {
        Some(Ending::Refused(e)) => Err(e.clone()),
        Some(Ending::Empty) => {
            proof {
                reveal_strlit("");
                assert(""@ =~= Seq::<char>::empty());
            }
            Err("".to_owned())
        },
        None => {
            let outputs = q.outputs();
            assert(texts(outputs@)[1] == outputs@[1]@);
            Ok(read_status(outputs))
        },
    }
}

/// Tells whether a line of a status is one as git prints it: two letters, a blank and a
/// file.
pub open spec fn is_status_line(line: Seq<char>) -> bool {
    &&& line.len() >= 4
    &&& (line[0] as u32) < 0x80
    &&& (line[1] as u32) < 0x80
    &&& line[2] == ' '
}

/// The file of a line of a status.
pub open spec fn file_in(line: Seq<char>) -> Seq<char> {
    line.skip(3)
}

/// Both letters say that git does not know the file.
pub open spec fn not_known() -> spec_fn(char, char) -> bool {
    |x: char, y: char| x == '?' && y == '?'
}

/// The first letter says that something of the file is staged.
pub open spec fn has_staged() -> spec_fn(char, char) -> bool {
    |x: char, y: char| !(x == '?' && y == '?') && x != ' '
}

/// The second letter says that the file was changed since, and is still there.
pub open spec fn has_changed() -> spec_fn(char, char) -> bool {
    |x: char, y: char| !(x == '?' && y == '?') && y != ' ' && y != 'D'
}

/// The files of the lines from the second one up to the one at `n` whose letters are as
/// wanted, but for those with a conflict.
pub open spec fn files_where(
    all: Seq<Seq<char>>,
    n: int,
    conflicts: Seq<Seq<char>>,
    wanted: spec_fn(char, char) -> bool,
) -> Seq<Seq<char>> {
    all.subrange(1, n).filter(
        |l: Seq<char>| !conflicts.contains(file_in(l)) && wanted(l[0], l[1]),
    ).map_values(|l: Seq<char>| file_in(l))
}

/// A line as git prints it is read as its letters and its file.
proof fn lemma_status_line(line: Seq<char>)
    requires
        is_status_line(line),
    ensures
        encode_utf8(line).len() >= 4,
        encode_utf8(line)[0] as char == line[0],
        encode_utf8(line)[1] as char == line[1],
        three_bytes(line, 0) == 3,
        line.skip(three_bytes(line, 0)) == file_in(line),
{
    reveal_with_fuel(encode_utf8, 5);
    reveal_with_fuel(three_bytes, 5);
    let one = line.drop_first();
    let two = one.drop_first();
    let three = two.drop_first();
    assert(one[0] == line[1] && two[0] == line[2] && three[0] == line[3]);
    assert(encode_utf8(line) == encode_scalar(line[0] as u32) + encode_utf8(one));
    assert(encode_utf8(one) == encode_scalar(line[1] as u32) + encode_utf8(two));
    assert(encode_utf8(two) == encode_scalar(line[2] as u32) + encode_utf8(three));
    assert(encode_utf8(three) == encode_scalar(line[3] as u32) + encode_utf8(
        three.drop_first(),
    ));
    assert(encode_scalar(line[3] as u32).len() >= 1);
    let t1 = line.take(1);
    let t2 = line.take(2);
    let t3 = line.take(3);
    assert(line.take(0) =~= Seq::<char>::empty());
    assert(t1.drop_first() =~= Seq::<char>::empty());
    assert(t2.drop_first() =~= seq![line[1]]);
    assert(seq![line[1]].drop_first() =~= Seq::<char>::empty());
    assert(t3.drop_first() =~= seq![line[1], line[2]]);
    assert(seq![line[1], line[2]].drop_first() =~= seq![line[2]]);
    assert(seq![line[2]].drop_first() =~= Seq::<char>::empty());
    assert(encode_utf8(t1).len() == 1);
    assert(encode_utf8(t2).len() == 2);
    assert(encode_utf8(t3).len() == 3);
    lemma_ascii(line[0]);
    lemma_ascii(line[1]);
    assert(encode_utf8(line)[1] == encode_utf8(one)[0]);
}

/// A character of ASCII is its own byte.
proof fn lemma_ascii(c: char)
    requires
        (c as u32) < 0x80,
    ensures
        encode_scalar(c as u32) == seq![c as u8],
        c as u8 as char == c,
{
    let n = c as u32;
    assert(n & 0x7f == n) by (bit_vector)
        requires
            n < 0x80u32,
    ;
}

/// One more line adds its file to the files that are wanted, or not.
proof fn lemma_files_where(
    all: Seq<Seq<char>>,
    n: int,
    conflicts: Seq<Seq<char>>,
    wanted: spec_fn(char, char) -> bool,
)
    requires
        2 <= n <= all.len(),
    ensures
        files_where(all, n, conflicts, wanted) == (if !conflicts.contains(file_in(all[n - 1]))
            && wanted(all[n - 1][0], all[n - 1][1]) {
            files_where(all, n - 1, conflicts, wanted).push(file_in(all[n - 1]))
        } else {
            files_where(all, n - 1, conflicts, wanted)
        }),
{
    reveal(Seq::filter);
    let keep = |l: Seq<char>| !conflicts.contains(file_in(l)) && wanted(l[0], l[1]);
    let long = all.subrange(1, n);
    let short = all.subrange(1, n - 1);
    assert(long.drop_last() =~= short);
    assert(long.last() == all[n - 1]);
    assert(files_where(all, n, conflicts, wanted) =~= (if keep(all[n - 1]) {
        files_where(all, n - 1, conflicts, wanted).push(file_in(all[n - 1]))
    } else {
        files_where(all, n - 1, conflicts, wanted)
    }));
}

proof fn lemma_filed(all: Seq<Seq<char>>, n: int, conflicts: Seq<Seq<char>>)
    requires
        1 <= n <= all.len(),
        forall|i: int| 1 <= i < all.len() ==> is_status_line(#[trigger] all[i]),
    ensures
        filed(all, n, conflicts).untracked == files_where(all, n, conflicts, not_known()),
        filed(all, n, conflicts).staged == files_where(all, n, conflicts, has_staged()),
        filed(all, n, conflicts).modified == files_where(all, n, conflicts, has_changed()),
    decreases n,
{
    if n == 1 {
        reveal(Seq::filter);
        assert(all.subrange(1, 1) =~= Seq::<Seq<char>>::empty());
        assert(files_where(all, 1, conflicts, not_known()) =~= Seq::empty());
        assert(files_where(all, 1, conflicts, has_staged()) =~= Seq::empty());
        assert(files_where(all, 1, conflicts, has_changed()) =~= Seq::empty());
    } else {
        lemma_filed(all, n - 1, conflicts);
        assert(is_status_line(all[n - 1]));
        lemma_status_line(all[n - 1]);
        lemma_files_where(all, n, conflicts, not_known());
        lemma_files_where(all, n, conflicts, has_staged());
        lemma_files_where(all, n, conflicts, has_changed());
    }
}

/// Of the lines of a status, the files without a conflict are told apart by their two
/// letters, in the order of the lines. Git does not know those with two question marks. Of
/// the others something is staged where the first letter is no blank, and something was
/// changed since where the second is neither a blank nor a D.
pub proof fn files_are_told_apart_by_their_letters(outputs: Seq<Seq<char>>)
    requires
        lines(outputs[1]).len() > 0,
        forall|i: int|
            1 <= i < lines(outputs[1]).len() ==> is_status_line(#[trigger] lines(outputs[1])[i]),
    ensures
        ({
            let s = status_of(outputs);
            let all = lines(outputs[1]);
            let n = all.len() as int;
            &&& s.untracked == files_where(all, n, s.unmerged, not_known())
            &&& s.staged == files_where(all, n, s.unmerged, has_staged())
            &&& s.modified == files_where(all, n, s.unmerged, has_changed())
        }),
{
    let all = lines(outputs[1]);
    lemma_filed(all, all.len() as int, status_of(outputs).unmerged);
}

/// Tells whether a line says that its file is gone, in the stage or in the working tree.
pub open spec fn says_deleted(line: Seq<char>, file: Seq<char>) -> bool {
    file_in(line) == file && !(line[0] == '?' && line[1] == '?') && (line[0] == 'D' || line[1]
        == 'D')
}

/// A file without a conflict is told as deleted just where a line says so, in the stage or
/// in the working tree.
pub proof fn deleted_files_are_told(
    all: Seq<Seq<char>>,
    n: int,
    conflicts: Seq<Seq<char>>,
    file: Seq<char>,
)
    requires
        1 <= n <= all.len(),
        forall|i: int| 1 <= i < all.len() ==> is_status_line(#[trigger] all[i]),
        !conflicts.contains(file),
    ensures
        filed(all, n, conflicts).deleted.contains(file) <==> exists|i: int|
            1 <= i < n && says_deleted(#[trigger] all[i], file),
    decreases n,
{
    if n > 1 {
        deleted_files_are_told(all, n - 1, conflicts, file);
        let line = all[n - 1];
        assert(is_status_line(line));
        lemma_status_line(line);
        let before = filed(all, n - 1, conflicts).deleted;
        let after = filed(all, n, conflicts).deleted;
        let other = file_in(line);
        assert(before.len() <= after.len() && after.take(before.len() as int) =~= before);
        if before.contains(file) {
            let k = choose|k: int| 0 <= k < before.len() && before[k] == file;
            assert(after.take(before.len() as int)[k] == after[k]);
            assert(after[k] == file);
            let i = choose|i: int| 1 <= i < n - 1 && says_deleted(#[trigger] all[i], file);
            assert(says_deleted(all[i], file));
        }
        if says_deleted(line, file) {
            assert(after[after.len() - 1] == file);
            assert(says_deleted(all[n - 1], file));
        }
        if after.contains(file) && !before.contains(file) {
            let k = choose|k: int| 0 <= k < after.len() && after[k] == file;
            if k < before.len() {
                assert(after.take(before.len() as int)[k] == before[k]);
            }
            assert(after[k] == other);
            assert(says_deleted(all[n - 1], file));
        }
    }
}

/// The letters of a file are those of its line: of one without a conflict the first is told
/// in the stage, where an M stands for any that is none of A, D, R, C and T, and the second in
/// the working tree, as D or as M, or as U where git does not know the file. A blank is not
/// told. Of one with a conflict both are told.
pub proof fn letters_are_those_of_the_line(
    all: Seq<Seq<char>>,
    n: int,
    conflicts: Seq<Seq<char>>,
    i: int,
)
    requires
        1 <= i < n <= all.len(),
        forall|j: int| 1 <= j < all.len() ==> is_status_line(#[trigger] all[j]),
        forall|j: int|
            1 <= j < all.len() && j != i ==> file_in(#[trigger] all[j]) != file_in(all[i]),
    ensures
        ({
            let f = filed(all, n, conflicts);
            let file = file_in(all[i]);
            let x = all[i][0];
            let y = all[i][1];
            let staged = if x == 'A' || x == 'D' || x == 'R' || x == 'C' || x == 'T' {
                x
            } else {
                'M'
            };
            if conflicts.contains(file) {
                &&& f.staged_details.contains_key(file) && f.staged_details[file] == staged
                &&& f.worktree_details.contains_key(file)
                &&& f.worktree_details[file] == (if y == 'D' || y == 'U' {
                    y
                } else {
                    'M'
                })
            } else if x == '?' && y == '?' {
                &&& !f.staged_details.contains_key(file)
                &&& f.worktree_details.contains_key(file) && f.worktree_details[file] == 'U'
            } else {
                &&& f.staged_details.contains_key(file) <==> x != ' '
                &&& x != ' ' ==> f.staged_details[file] == staged
                &&& f.worktree_details.contains_key(file) <==> y != ' '
                &&& y == 'D' ==> f.worktree_details[file] == 'D'
                &&& y != ' ' && y != 'D' ==> f.worktree_details[file] == 'M'
            }
        }),
    decreases n,
{
    let file = file_in(all[i]);
    assert(is_status_line(all[n - 1]));
    lemma_status_line(all[n - 1]);
    if i < n - 1 {
        letters_are_those_of_the_line(all, n - 1, conflicts, i);
        assert(file_in(all[n - 1]) != file);
    } else {
        lemma_no_letters(all, i, conflicts, file);
    }
}

/// A file that no line tells of has no letters.
proof fn lemma_no_letters(all: Seq<Seq<char>>, n: int, conflicts: Seq<Seq<char>>, file: Seq<char>)
    requires
        1 <= n <= all.len(),
        forall|j: int| 1 <= j < all.len() ==> is_status_line(#[trigger] all[j]),
        forall|j: int| 1 <= j < n ==> file_in(#[trigger] all[j]) != file,
    ensures
        !filed(all, n, conflicts).staged_details.contains_key(file),
        !filed(all, n, conflicts).worktree_details.contains_key(file),
    decreases n,
{
    if n > 1 {
        lemma_no_letters(all, n - 1, conflicts, file);
        assert(is_status_line(all[n - 1]));
        lemma_status_line(all[n - 1]);
        assert(file_in(all[n - 1]) != file);
    }
}

/// A status is told to a client under the names of what it holds.
pub proof fn a_status_is_told_by_name(s: GitStatus)
    ensures
        status_json(s).says("branch"@, JsonView::Str(s.branch@)),
        status_json(s).says("ahead"@, JsonView::Unsigned(s.ahead as u64)),
        status_json(s).says("behind"@, JsonView::Unsigned(s.behind as u64)),
        status_json(s).says("modified"@, list_of_texts(texts(s.modified@))),
        status_json(s).says("staged"@, list_of_texts(texts(s.staged@))),
        status_json(s).says("untracked"@, list_of_texts(texts(s.untracked@))),
        status_json(s).says("deleted"@, list_of_texts(texts(s.deleted@))),
        status_json(s).says("unmerged"@, list_of_texts(texts(s.unmerged@))),
        status_json(s).says("stagedDetails"@, letters_json(s.staged_details)),
        status_json(s).says("worktreeDetails"@, letters_json(s.worktree_details)),
        status_json(s).says("worktreeStats"@, stats_json(s.worktree_stats)),
        status_json(s).says("stagedStats"@, stats_json(s.staged_stats)),
{
    let f = status_json(s)->Object_0;
    assert(f[0].0 == "branch"@ && f[1].0 == "ahead"@ && f[2].0 == "behind"@);
    assert(f[3].0 == "modified"@ && f[4].0 == "staged"@ && f[5].0 == "untracked"@);
    assert(f[6].0 == "deleted"@ && f[7].0 == "stagedDetails"@ && f[8].0 == "worktreeDetails"@);
    assert(f[9].0 == "unmerged"@ && f[10].0 == "worktreeStats"@ && f[11].0 == "stagedStats"@);
    assert(list_of_texts(texts(s.modified@))->Array_0 =~= f[3].1->Array_0);
    assert(list_of_texts(texts(s.staged@))->Array_0 =~= f[4].1->Array_0);
    assert(list_of_texts(texts(s.untracked@))->Array_0 =~= f[5].1->Array_0);
    assert(list_of_texts(texts(s.deleted@))->Array_0 =~= f[6].1->Array_0);
    assert(list_of_texts(texts(s.unmerged@))->Array_0 =~= f[9].1->Array_0);
}

/// A list of texts as a JSON value.
pub open spec fn list_of_texts(v: Seq<Seq<char>>) -> JsonView {
    JsonView::Array(v.map_values(|t: Seq<char>| JsonView::Str(t)))
}

/// The letters and the lines of each file are told under its name.
pub proof fn details_are_told_by_file(
    letters: TextMap<char>,
    stats: TextMap<GitFileStat>,
    i: int,
)
    ensures
        0 <= i < letters.list().len() ==> letters_json(letters).says(
            letters.list()[i].0@,
            JsonView::Str(seq![letters.list()[i].1]),
        ),
        0 <= i < stats.list().len() ==> exists|v: JsonView|
            stats_json(stats).says(stats.list()[i].0@, v) && #[trigger] v.says(
                "insertions"@,
                JsonView::Unsigned(stats.list()[i].1.insertions as u64),
            ) && v.says(
                "deletions"@,
                JsonView::Unsigned(stats.list()[i].1.deletions as u64),
            ),
{
    if 0 <= i < letters.list().len() {
        let f = letters_json(letters)->Object_0;
        assert(f.contains(f[i]));
    }
    if 0 <= i < stats.list().len() {
        let f = stats_json(stats)->Object_0;
        assert(f.contains(f[i]));
        let v = f[i].1;
        let g = v->Object_0;
        assert(g[0].0 == "insertions"@ && g[1].0 == "deletions"@);
        assert(g.contains(g[0]) && g.contains(g[1]));
        assert(v.says(
            "insertions"@,
            JsonView::Unsigned(stats.list()[i].1.insertions as u64),
        ));
    }
}

/// A line of a list of changes, as git prints it: the lines that were added, those that were
/// taken away, and the file.
pub open spec fn change_line(insertions: u32, deletions: u32, file: Seq<char>) -> Seq<char> {
    decimal(insertions as nat).push('\t') + decimal(deletions as nat).push('\t') + file
}

/// A number that git printed is read as itself.
pub proof fn counts_are_read(n: u32)
    ensures
        count_of(decimal(n as nat)) == n,
        !decimal(n as nat).contains('\t'),
{
    numbers_are_read_back(n as nat, u32::MAX as int);
    lemma_decimal(n as nat);
    let d = decimal(n as nat);
    if d.contains('\t') {
        let i = choose|i: int| 0 <= i < d.len() && d[i] == '\t';
        assert(is_digit(d[i]));
    }
}

/// A line of a list of changes sets what it says of its file, and leaves all others.
pub proof fn changes_are_told_by_file(
    all: Seq<Seq<char>>,
    n: nat,
    insertions: u32,
    deletions: u32,
    file: Seq<char>,
)
    requires
        0 < n <= all.len(),
        all[n - 1] == change_line(insertions, deletions, file),
        file.len() > 0,
        !is_space(file[0]),
        !is_space(file.last()),
    ensures
        ({
            let before = stats_of(all, (n - 1) as nat);
            let after = stats_of(all, n);
            &&& after.contains_key(file)
            &&& after[file] == (GitFileStat { insertions, deletions })
            &&& forall|other: Seq<char>|
                other != file ==> (#[trigger] after.contains_key(other) <==> before.contains_key(
                    other,
                ))
            &&& forall|other: Seq<char>|
                other != file && before.contains_key(other) ==> #[trigger] after[other]
                    == before[other]
        }),
{
    counts_are_read(insertions);
    counts_are_read(deletions);
    cutting_in_three(decimal(insertions as nat), decimal(deletions as nat), file, '\t');
    trimming_leaves_the_rest(Seq::empty(), file, Seq::empty());
    assert(Seq::<char>::empty() + file + Seq::<char>::empty() =~= file);
}

/// The names in an output are its lines without the white space around them, but for those
/// that are blank.
pub proof fn names_are_the_lines_that_are_not_blank(all: Seq<Seq<char>>, n: nat)
    requires
        n <= all.len(),
    ensures
        names_of(all, n) == all.take(n as int).map_values(|l: Seq<char>| trim(l)).filter(
            |t: Seq<char>| t.len() > 0,
        ),
    decreases n,
{
    reveal(Seq::filter);
    let kept = |t: Seq<char>| t.len() > 0;
    let cut = |l: Seq<char>| trim(l);
    let long = all.take(n as int).map_values(cut);
    if n > 0 {
        names_are_the_lines_that_are_not_blank(all, (n - 1) as nat);
        assert(long.drop_last() =~= all.take(n - 1).map_values(cut));
        assert(long.last() == trim(all[n - 1]));
    } else {
        assert(long =~= Seq::empty());
    }
}

/// The files with a conflict and the lines of each file are told from the outputs of their
/// own runs.
pub proof fn outputs_are_told_apart(outputs: Seq<Seq<char>>)
    ensures
        ({
            let s = status_of(outputs);
            let conflicts = lines(outputs[2]);
            let changes = lines(outputs[3]);
            let staged = lines(outputs[4]);
            &&& s.unmerged == names_of(conflicts, conflicts.len())
            &&& s.worktree_stats == stats_of(changes, changes.len())
            &&& s.staged_stats == stats_of(staged, staged.len())
        }),
{
}

/// The deleted files and the letters of a status are those of its lines.
pub proof fn details_are_those_of_the_lines(outputs: Seq<Seq<char>>, i: int)
    requires
        1 <= i < lines(outputs[1]).len(),
        forall|j: int|
            1 <= j < lines(outputs[1]).len() ==> is_status_line(#[trigger] lines(outputs[1])[j]),
        forall|j: int|
            1 <= j < lines(outputs[1]).len() && j != i ==> file_in(
                #[trigger] lines(outputs[1])[j],
            ) != file_in(lines(outputs[1])[i]),
        !status_of(outputs).unmerged.contains(file_in(lines(outputs[1])[i])),
    ensures
        ({
            let s = status_of(outputs);
            let line = lines(outputs[1])[i];
            let file = file_in(line);
            let x = line[0];
            let y = line[1];
            &&& s.deleted.contains(file) <==> x == 'D' || y == 'D'
            &&& s.staged_details.contains_key(file) <==> x != ' ' && !(x == '?' && y == '?')
            &&& s.worktree_details.contains_key(file) <==> y != ' '
            &&& (x == 'A' || x == 'D' || x == 'R' || x == 'C' || x == 'T') ==>
                s.staged_details[file] == x
            &&& x == 'M' ==> s.staged_details[file] == 'M'
            &&& y == 'D' ==> s.worktree_details[file] == 'D'
            &&& y == 'M' ==> s.worktree_details[file] == 'M'
            &&& x == '?' && y == '?' ==> s.worktree_details[file] == 'U'
        }),
{
    let all = lines(outputs[1]);
    let c = status_of(outputs).unmerged;
    let file = file_in(all[i]);
    letters_are_those_of_the_line(all, all.len() as int, c, i);
    deleted_files_are_told(all, all.len() as int, c, file);
    if all[i][0] == 'D' || all[i][1] == 'D' {
        assert(says_deleted(all[i], file));
    }
}

/// The first line of a status as git prints it: the branch, the one that it follows, and by
/// how many commits it is ahead and behind.
pub open spec fn head_line(
    branch: Seq<char>,
    upstream: Seq<char>,
    ahead: u32,
    behind: u32,
) -> Seq<char> {
    "## "@ + branch + "..."@ + upstream + " [ahead "@ + decimal(ahead as nat) + ", behind "@
        + decimal(behind as nat) + "]"@
}

/// Tells whether a name is one that a branch can have: it is not empty, holds no white space
/// and no bracket, and does not run into the dots that follow it.
pub open spec fn is_branch_name(name: Seq<char>) -> bool {
    &&& name.len() > 0
    &&& forall|i: int|
        0 <= i < name.len() ==> !is_space(#[trigger] name[i]) && name[i] != '[' && name[i] != ']'
    &&& !contains(name + ".."@, "..."@)
}

/// The first line of a status tells its branch, and by how many commits it is ahead and behind.
pub proof fn heads_tell_their_branch(
    branch: Seq<char>,
    upstream: Seq<char>,
    ahead: u32,
    behind: u32,
)
    requires
        is_branch_name(branch),
        is_branch_name(upstream),
    ensures
        ({
            let h = head_of(head_line(branch, upstream, ahead, behind));
            h.branch == branch && h.ahead == ahead && h.behind == behind
        }),
{
    reveal_strlit("## ");
    reveal_strlit("...");
    reveal_strlit("..");
    reveal_strlit(" [ahead ");
    reveal_strlit(", behind ");
    reveal_strlit("]");
    reveal_strlit("No commits yet");
    let a = decimal(ahead as nat);
    let b = decimal(behind as nat);
    lemma_decimal(ahead as nat);
    lemma_decimal(behind as nat);
    let head = head_line(branch, upstream, ahead, behind);
    let info = branch + "..."@ + upstream + " [ahead "@ + a + ", behind "@ + b + "]"@;
    let inner = "ahead "@ + a + ", behind "@ + b;
    let m = branch.len() as int + 3 + upstream.len();
    assert(head =~= "## "@ + info);
    assert(info[0] == branch[0] && info.last() == ']');
    lemma_head_info(head, info);
    // The branch ends where the dots stand.
    assert(info[2] != ' ') by {
        if branch.len() > 2 {
            assert(info[2] == branch[2]);
            assert(!is_space(branch[2]));
        } else {
            assert(info[2] == '.');
        }
    }
    assert(!starts_with(info, "No commits yet"@)) by {
        if starts_with(info, "No commits yet"@) {
            assert(info.take("No commits yet"@.len() as int)[2] == info[2]);
        }
    }
    assert(info.take(branch.len() as int + 3) =~= branch + "..."@);
    lemma_dots(branch, info);
    assert(info.take(branch.len() as int) =~= branch);
    assert(!is_space(branch[0]) && !is_space(branch.last()));
    trimming_leaves_the_rest(Seq::empty(), branch, Seq::empty());
    assert(Seq::<char>::empty() + branch + Seq::<char>::empty() =~= branch);
    // What stands between the brackets.
    reveal_strlit("ahead ");
    assert(info[m + 1] == '[');
    assert(info.last() == ']');
    assert forall|i: int| 0 <= i <= m implies info[i] != '[' && info[i] != ']' by {
        if i < branch.len() {
            assert(info[i] == branch[i]);
        } else if branch.len() + 3 <= i < m {
            assert(info[i] == upstream[i - branch.len() - 3]);
        }
    }
    let from = m + 2;
    let upto = info.len() - 1;
    assert(info.subrange(from, upto) =~= inner);
    lemma_plain(a);
    lemma_plain(b);
    assert forall|i: int| 0 <= i < inner.len() implies inner[i] != ']' by {
        lemma_in_inner(a, b, i);
    }
    crate::text::lemma_position(info, '[');
    crate::text::lemma_position(info, ']');
    assert(position(info, '[') == m + 1);
    assert(position(info, ']') == upto) by {
        let q = position(info, ']');
        if q < upto {
            if q >= from {
                assert(info[q] == inner[q - from]);
            }
        }
    }
    lemma_counts(ahead, behind);
}

/// What the first line says stands after its marks.
proof fn lemma_head_info(head: Seq<char>, info: Seq<char>)
    requires
        head == "## "@ + info,
        info.len() > 0,
        !is_space(info[0]),
        !is_space(info.last()),
    ensures
        head_info(head) == info,
{
    reveal_strlit("## ");
    let one = head.drop_first();
    let two = one.drop_first();
    assert(one[0] == '#' && two[0] == ' ');
    assert(trim_start_char(head, '#') == trim_start_char(one, '#'));
    assert(trim_start_char(one, '#') == trim_start_char(two, '#'));
    assert(trim_start_char(two, '#') == two);
    trimming_leaves_the_rest(seq![' '], info, Seq::empty());
    assert(two =~= seq![' '] + info + Seq::<char>::empty());
}

/// The dots stand first right after the branch.
proof fn lemma_dots(branch: Seq<char>, info: Seq<char>)
    requires
        !contains(branch + ".."@, "..."@),
        info.len() >= branch.len() + 3,
        info.take(branch.len() as int + 3) == branch + "..."@,
    ensures
        place_of(info, "..."@) == branch.len(),
{
    reveal_strlit("..");
    reveal_strlit("...");
    let dots = "..."@;
    let n = branch.len() as int;
    let front = info.take(n + 3);
    assert forall|i: int| 0 <= i < n + 3 implies info[i] == (branch + dots)[i] by {
        assert(front[i] == info[i]);
    }
    assert(info.subrange(n, n + 3) =~= dots);
    assert(stands_at(info, dots, n));
    assert forall|j: int| 0 <= j < n implies !stands_at(info, dots, j) by {
        if stands_at(info, dots, j) {
            let t = branch + ".."@;
            assert(info.subrange(j, j + 3) == dots);
            assert forall|k: int| 0 <= k < 3 implies t[j + k] == dots[k] by {
                assert(info.subrange(j, j + 3)[k] == info[j + k]);
            }
            assert(t.subrange(j, j + 3) =~= dots);
            assert(stands_at(t, dots, j));
        }
    }
    assert(first_place(info, dots, n));
    let p = choose|p: int| first_place(info, dots, p);
    assert(first_place(info, dots, p));
    assert(p == n);
}

/// A number in decimal holds no mark.
proof fn lemma_plain(d: Seq<char>)
    requires
        forall|i: int| 0 <= i < d.len() ==> is_digit(#[trigger] d[i]),
    ensures
        forall|i: int|
            0 <= i < d.len() ==> !is_space(#[trigger] d[i]) && d[i] != ']' && d[i] != ',',
{
    assert forall|i: int| 0 <= i < d.len() implies !is_space(#[trigger] d[i]) && d[i] != ']' && d[i]
        != ',' by {
        assert(is_digit(d[i]));
    }
}

proof fn lemma_in_inner(a: Seq<char>, b: Seq<char>, i: int)
    requires
        forall|i: int| 0 <= i < a.len() ==> #[trigger] a[i] != ']',
        forall|i: int| 0 <= i < b.len() ==> #[trigger] b[i] != ']',
        0 <= i < ("ahead "@ + a + ", behind "@ + b).len(),
    ensures
        ("ahead "@ + a + ", behind "@ + b)[i] != ']',
{
    reveal_strlit("ahead ");
    reveal_strlit(", behind ");
    let n = a.len() as int;
    let inner = "ahead "@ + a + ", behind "@ + b;
    if 6 <= i < 6 + n {
        assert(inner[i] == a[i - 6]);
    } else if i >= 15 + n {
        assert(inner[i] == b[i - 15 - n]);
    }
}

/// The counts of a line are those that its parts name.
proof fn lemma_counts(ahead: u32, behind: u32)
    ensures
        ({
            let inner = "ahead "@ + decimal(ahead as nat) + ", behind "@ + decimal(behind as nat);
            let parts = split(inner, ',');
            counts_of(parts, parts.len()) == (ahead as int, behind as int)
        }),
{
    reveal_strlit("ahead ");
    reveal_strlit("behind ");
    reveal_strlit(", behind ");
    let a = decimal(ahead as nat);
    let b = decimal(behind as nat);
    lemma_decimal(ahead as nat);
    lemma_decimal(behind as nat);
    lemma_plain(a);
    lemma_plain(b);
    let one = "ahead "@ + a;
    let word = "behind "@ + b;
    let two = seq![' '] + word;
    let inner = one + ", behind "@ + b;
    assert(inner =~= one.push(',') + two);
    assert(!one.contains(',')) by {
        if one.contains(',') {
            let i = choose|i: int| 0 <= i < one.len() && one[i] == ',';
            if i >= 6 {
                assert(one[i] == a[i - 6]);
            }
        }
    }
    assert(!two.contains(',')) by {
        if two.contains(',') {
            let i = choose|i: int| 0 <= i < two.len() && two[i] == ',';
            if i >= 8 {
                assert(two[i] == b[i - 8]);
            }
        }
    }
    crate::text::lemma_split_last(one, two, ',');
    crate::text::lemma_position(one, ',');
    let parts = split(inner, ',');
    assert(parts =~= seq![one, two]);
    assert(one.last() == a.last() && !is_space(a.last()));
    assert(word.last() == b.last() && !is_space(b.last()));
    trimming_leaves_the_rest(Seq::empty(), one, Seq::empty());
    assert(Seq::<char>::empty() + one + Seq::<char>::empty() =~= one);
    trimming_leaves_the_rest(seq![' '], word, Seq::empty());
    assert(seq![' '] + word + Seq::<char>::empty() =~= two);
    assert(one.take(6) =~= "ahead "@);
    assert(one.skip(6) =~= a);
    assert(word.take(7) =~= "behind "@);
    assert(word.skip(7) =~= b);
    assert(!starts_with(word, "ahead "@)) by {
        if starts_with(word, "ahead "@) {
            assert(word.take(6)[0] == "ahead "@[0]);
        }
    }
    counts_are_read(ahead);
    counts_are_read(behind);
    reveal_with_fuel(counts_of, 3);
}

/// The first line of a status of a branch that follows no other tells just the branch.
pub proof fn plain_heads_tell_their_branch(branch: Seq<char>)
    requires
        is_branch_name(branch),
        !contains(branch, "..."@),
    ensures
        ({
            let h = head_of("## "@ + branch);
            h.branch == branch && h.ahead == 0 && h.behind == 0
        }),
        head_readable("## "@ + branch),
{
    reveal_strlit("No commits yet");
    lemma_head_info("## "@ + branch, branch);
    assert(!is_space(branch[0]) && !is_space(branch.last()));
    assert(!starts_with(branch, "No commits yet"@)) by {
        if starts_with(branch, "No commits yet"@) {
            assert(branch.take("No commits yet"@.len() as int)[2] == branch[2]);
            assert(!is_space(branch[2]));
        }
    }
    assert(!branch.contains('[')) by {
        if branch.contains('[') {
            let i = choose|i: int| 0 <= i < branch.len() && branch[i] == '[';
            assert(!is_space(branch[i]) && branch[i] != '[');
        }
    }
    assert(branch.take(branch.len() as int) =~= branch);
    trimming_leaves_the_rest(Seq::empty(), branch, Seq::empty());
    assert(Seq::<char>::empty() + branch + Seq::<char>::empty() =~= branch);
}

/// The first line of a status without a commit tells the branch that there will be.
pub proof fn heads_without_a_commit_tell_their_branch(branch: Seq<char>)
    requires
        branch.len() > 0,
        forall|i: int| 0 <= i < branch.len() ==> !is_space(#[trigger] branch[i]),
    ensures
        ({
            let h = head_of("## No commits yet on "@ + branch);
            h.branch == branch && h.ahead == 0 && h.behind == 0
        }),
        head_readable("## No commits yet on "@ + branch),
{
    reveal_strlit("## No commits yet on ");
    reveal_strlit("## ");
    reveal_strlit("No commits yet");
    reveal_strlit("on ");
    let all = "## No commits yet on "@ + branch;
    let info = all.skip(3);
    let n: int = 18;
    assert(all =~= "## "@ + info);
    assert(info.last() == branch.last() && !is_space(branch.last()));
    assert(info[0] == 'N');
    lemma_head_info(all, info);
    assert(info.take(14) =~= "No commits yet"@);
    assert(info.subrange(n - 3, n) =~= "on "@);
    assert(stands_at(info, "on "@, n - 3));
    assert forall|j: int| n - 3 < j implies !stands_at(info, "on "@, j) by {
        if stands_at(info, "on "@, j) {
            let t = info.subrange(j, j + 3);
            assert(t[0] == info[j] && t[2] == info[j + 2]);
            assert("on "@[0] == 'o' && "on "@[2] == ' ');
            if j + 2 >= n {
                assert(info[j + 2] == branch[j + 2 - n]);
                assert(!is_space(branch[j + 2 - n]));
            }
        }
    }
    assert(last_place(info, "on "@, n - 3));
    let p = choose|p: int| last_place(info, "on "@, p);
    assert(last_place(info, "on "@, p));
    assert(p == n - 3);
    assert(info.skip(n) =~= branch);
}

/// A status as git prints it can be read.
pub proof fn printed_lines_can_be_read(line: Seq<char>)
    requires
        is_status_line(line),
    ensures
        line_readable(line),
{
    lemma_status_line(line);
}

/// A line that names no file tells of no changes, and one that git prints for a file that is no
/// text tells of none of its lines.
pub proof fn other_lines_tell_of_no_changes(all: Seq<Seq<char>>, n: nat, file: Seq<char>)
    requires
        0 < n <= all.len(),
        file.len() > 0,
        !is_space(file[0]),
        !is_space(file.last()),
    ensures
        !all[n - 1].contains('\t') ==> stats_of(all, n) == stats_of(all, (n - 1) as nat),
        all[n - 1] == seq!['-', '\t', '-', '\t'] + file ==> stats_of(all, n).contains_key(file)
            && stats_of(all, n)[file] == (GitFileStat { insertions: 0, deletions: 0 }),
{
    let line = all[n - 1];
    if !line.contains('\t') {
        crate::text::lemma_position(line, '\t');
        assert(splitn(line, '\t', 3) =~= seq![line]);
    }
    if line == seq!['-', '\t', '-', '\t'] + file {
        let dash = seq!['-'];
        assert(dash[0] == '-' && !is_digit('-'));
        assert(count_of(dash) == 0);
        cutting_in_three(dash, dash, file, '\t');
        assert(line =~= dash.push('\t') + dash.push('\t') + file);
        trimming_leaves_the_rest(Seq::empty(), file, Seq::empty());
        assert(Seq::<char>::empty() + file + Seq::<char>::empty() =~= file);
    }
}

/// A line that is too short to tell of a file changes nothing.
pub proof fn short_lines_tell_of_no_file(all: Seq<Seq<char>>, n: int, conflicts: Seq<Seq<char>>)
    requires
        1 < n <= all.len(),
        encode_utf8(all[n - 1]).len() < 4,
    ensures
        filed(all, n, conflicts) == filed(all, n - 1, conflicts),
{
}

} // verus!
