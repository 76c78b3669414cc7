//! Commits, stashes and branches.

use vstd::prelude::*;
use vstd::slice::slice_subrange;
use vstd::string::*;

use crate::git::plan::{in_dir, Args};
use crate::git::query::{
    step_views, Ending, EndingView, Policy, Query, QueryStep, QueryView, StepView,
};
use crate::git::status::{
    change_line, count_of, counts_are_read, list_names, names_of, texts_json,
};
use crate::json::{array_view, no_fields, values, Fields, Json, JsonView};
use crate::text::{
    cat2, chars_of, cutting_in_three, decimal, decimal_int, ends_text, ends_with, is_digit, joined,
    joined_parts_are_split, lemma_decimal, lines, parse_i64, parse_u32, read_i64,
    signed_numbers_are_read_back, slices, split, split_at_char, split_lines, splitn,
    splitn_at_char, string_of, texts, trim, trim_text, write_number,
};

verus! {

/// A commit.
#[derive(Debug, PartialEq)]
pub struct GitCommitInfo {
    pub hash: String,
    pub short_hash: String,
    pub message: String,
    pub author: String,
    /// When it was made, in seconds.
    pub time: i64,
    pub insertions: u32,
    pub deletions: u32,
}

/// What a commit stands for.
pub struct CommitView {
    pub hash: Seq<char>,
    pub short_hash: Seq<char>,
    pub message: Seq<char>,
    pub author: Seq<char>,
    pub time: int,
    pub insertions: int,
    pub deletions: int,
}

impl View for GitCommitInfo {
    type V = CommitView;

    open spec fn view(&self) -> CommitView {
        CommitView {
            hash: self.hash@,
            short_hash: self.short_hash@,
            message: self.message@,
            author: self.author@,
            time: self.time as int,
            insertions: self.insertions as int,
            deletions: self.deletions as int,
        }
    }
}

/// The views of a list of commits.
pub open spec fn commit_views(v: Seq<GitCommitInfo>) -> Seq<CommitView> {
    Seq::new(v.len(), |i: int| v[i]@)
}

/// A time, or zero when the text is none.
pub open spec fn time_of(s: Seq<char>) -> int {
    match read_i64(s) {
        Some(n) => n,
        None => 0,
    }
}

fn read_time(s: &[char]) -> (r: i64)
    ensures
        r == time_of(s@),
{
    match parse_i64(s) {
        Some(n) => n,
        None => 0,
    }
}

fn read_lines(s: &[char]) -> (r: u32)
    ensures
        r == count_of(s@),
{
    match parse_u32(s) {
        Some(n) => n,
        None => 0,
    }
}

/// The character that stands between the parts of a line.
pub open spec fn unit_mark() -> char {
    '\u{1f}'
}

/// The commits with one more line of the log: a line that begins with `@` begins
/// a commit, and one with the lines of a file counts for the last commit.
pub open spec fn logged(before: Seq<CommitView>, line: Seq<char>) -> Seq<CommitView> {
    if line.len() > 0 && line[0] == '@' {
        let f = split(line.skip(1), unit_mark());
        if f.len() >= 5 {
            before.push(
                CommitView {
                    hash: f[0],
                    short_hash: f[1],
                    author: f[2],
                    time: time_of(f[3]),
                    message: f[4],
                    insertions: 0,
                    deletions: 0,
                },
            )
        } else {
            before
        }
    } else {
        let parts = splitn(line, '\t', 3);
        if parts.len() == 3 && before.len() > 0 {
            let c = before.last();
            before.drop_last().push(
                CommitView {
                    insertions: (c.insertions + count_of(parts[0])) % 0x1_0000_0000,
                    deletions: (c.deletions + count_of(parts[1])) % 0x1_0000_0000,
                    ..c
                },
            )
        } else {
            before
        }
    }
}

/// The commits that the lines of a log tell of, up to the line at `n`.
pub open spec fn commits_of(all: Seq<Seq<char>>, n: nat) -> Seq<CommitView>
    decreases n,
{
    if n == 0 {
        Seq::empty()
    } else {
        logged(commits_of(all, (n - 1) as nat), all[n - 1])
    }
}

/// Reads the commits out of a log.
pub fn read_log(output: &str) -> (r: Vec<GitCommitInfo>)
    ensures
        commit_views(r@) == commits_of(lines(output@), lines(output@).len()),
{
    let chars = chars_of(output);
    let all = split_lines(chars.as_slice());
    let ghost told = lines(output@);
    let mut out: Vec<GitCommitInfo> = Vec::new();
    let mut i: usize = 0;
    assert(commit_views(out@) =~= Seq::empty());
    while i < all.len()
        invariant
            i <= all@.len(),
            told == slices(all@),
            commit_views(out@) == commits_of(told, i as nat),
        decreases all@.len() - i,
    {
        let line = all[i];
        let ghost before = commit_views(out@);
        assert(told[i as int] == line@);
        if line.len() > 0 && line[0] == '@' {
            let rest = slice_subrange(line, 1, line.len());
            assert(rest@ =~= line@.skip(1));
            let f = split_at_char(rest, '\u{1f}');
            let ghost views = split(rest@, unit_mark());
            assert(slices(f@) == views);
            if f.len() >= 5 {
                assert(views[0] == f@[0]@);
                assert(views[1] == f@[1]@);
                assert(views[2] == f@[2]@);
                assert(views[3] == f@[3]@);
                assert(views[4] == f@[4]@);
                let c = GitCommitInfo {
                    hash: string_of(f[0]),
                    short_hash: string_of(f[1]),
                    author: string_of(f[2]),
                    time: read_time(f[3]),
                    message: string_of(f[4]),
                    insertions: 0,
                    deletions: 0,
                };
                out.push(c);
                assert(commit_views(out@) =~= before.push(c@));
            }
        } else {
            let parts = splitn_at_char(line, '\t', 3);
            let ghost views = splitn(line@, '\t', 3);
            assert(slices(parts@) == views);
            if parts.len() == 3 && out.len() > 0 {
                assert(views[0] == parts@[0]@);
                assert(views[1] == parts@[1]@);
                match out.pop() {
                    Some(mut c) => {
                        let ghost old = c@;
                        assert(before.last() == old);
                        c.insertions = c.insertions.wrapping_add(read_lines(parts[0]));
                        c.deletions = c.deletions.wrapping_add(read_lines(parts[1]));
                        assert(c@.insertions == (old.insertions + count_of(views[0]))
                            % 0x1_0000_0000);
                        assert(c@.deletions == (old.deletions + count_of(views[1]))
                            % 0x1_0000_0000);
                        out.push(c);
                        assert(commit_views(out@) =~= before.drop_last().push(c@));
                    },
                    None => {},
                }
            }
        }
        assert(commit_views(out@) == logged(before, told[i as int]));
        i += 1;
    }
    out
}

/// The runs that tell the last commits.
pub open spec fn log_steps(path: Seq<char>, limit: Option<usize>) -> Seq<StepView> {
    let n = match limit {
        Some(n) => n,
        None => 50,
    };
    seq![
        (
            in_dir(path, seq!["rev-parse"@, "--verify"@, "--quiet"@, "HEAD"@]),
            Policy::Gate,
        ),
        (
            in_dir(
                path,
                seq![
                    "log"@,
                    "--no-color"@,
                    "-"@ + decimal(n as nat),
                    "--pretty=format:@%H\u{1f}%h\u{1f}%an\u{1f}%at\u{1f}%s"@,
                    "--numstat"@,
                ],
            ),
            Policy::Need,
        ),
    ]
}

/// Asks for the last commits. Where there is no commit yet, there is nothing to
/// tell.
pub fn git_log(path: &str, limit: Option<usize>) -> (r: Query)
    ensures
        r@ == QueryView::start(log_steps(path@, limit)),
{
    let n: usize = match limit {
        Some(n) => n,
        None => 50,
    };
    let number = write_number(n as u64);
    let count = cat2("-", number.as_str());
    let a = Args::in_dir(path).arg("rev-parse").arg("--verify").arg("--quiet").arg("HEAD");
    assert(a@ =~= in_dir(path@, seq!["rev-parse"@, "--verify"@, "--quiet"@, "HEAD"@]));
    let b = Args::in_dir(path).arg("log").arg("--no-color").arg(count.as_str()).arg(
        "--pretty=format:@%H\u{1f}%h\u{1f}%an\u{1f}%at\u{1f}%s",
    ).arg("--numstat");
    assert(b@ =~= log_steps(path@, limit)[1].0);
    let mut steps: Vec<QueryStep> = Vec::new();
    steps.push(QueryStep { args: a.done(), policy: Policy::Gate });
    steps.push(QueryStep { args: b.done(), policy: Policy::Need });
    assert(step_views(steps@) =~= log_steps(path@, limit));
    Query::new(steps)
}

/// A number as a JSON value.
fn signed(n: i64) -> (r: Json)
    ensures
        r@ == signed_json(n),
{
    if n >= 0 {
        Json::Unsigned(n as u64)
    } else {
        Json::Negative(n)
    }
}

/// A number as a JSON value.
pub open spec fn signed_json(n: i64) -> JsonView {
    if n >= 0 {
        JsonView::Unsigned(n as u64)
    } else {
        JsonView::Negative(n)
    }
}

/// A commit as a client is told it.
pub open spec fn commit_json(c: GitCommitInfo) -> JsonView {
    JsonView::Object(
        no_fields().push(("hash"@, JsonView::Str(c.hash@))).push(
            ("shortHash"@, JsonView::Str(c.short_hash@)),
        ).push(("message"@, JsonView::Str(c.message@))).push(
            ("author"@, JsonView::Str(c.author@)),
        ).push(("time"@, signed_json(c.time))).push(
            ("insertions"@, JsonView::Unsigned(c.insertions as u64)),
        ).push(("deletions"@, JsonView::Unsigned(c.deletions as u64))),
    )
}

/// The commits as a client is told them.
pub fn log_to_json(commits: &Vec<GitCommitInfo>) -> (r: Json)
    ensures
        r@ == JsonView::Array(
            Seq::new(commits@.len(), |i: int| commit_json(commits@[i])),
        ),
{
    let mut out: Vec<Json> = Vec::new();
    let mut i: usize = 0;
    while i < commits.len()
        invariant
            i <= commits@.len(),
            out@.len() == i,
            forall|j: int| 0 <= j < i ==> (#[trigger] out@[j])@ == commit_json(commits@[j]),
        decreases commits@.len() - i,
    {
        let c = &commits[i];
        let v = Fields::new().text("hash", c.hash.as_str()).text(
            "shortHash",
            c.short_hash.as_str(),
        ).text("message", c.message.as_str()).text("author", c.author.as_str()).with(
            "time",
            signed(c.time),
        ).number("insertions", c.insertions as u64).number(
            "deletions",
            c.deletions as u64,
        ).object();
        out.push(v);
        i += 1;
    }
    proof {
        array_view(out);
        assert(values(out@) =~= Seq::new(commits@.len(), |i: int| commit_json(commits@[i])));
    }
    Json::Array(out)
}

/// A stash.
#[derive(Debug, PartialEq)]
pub struct GitStashInfo {
    pub reference: String,
    pub message: String,
    /// When it was made, in seconds.
    pub time: i64,
}

/// What a stash stands for.
pub struct StashView {
    pub reference: Seq<char>,
    pub message: Seq<char>,
    pub time: int,
}

impl View for GitStashInfo {
    type V = StashView;

    open spec fn view(&self) -> StashView {
        StashView { reference: self.reference@, message: self.message@, time: self.time as int }
    }
}

/// The views of a list of stashes.
pub open spec fn stash_views(v: Seq<GitStashInfo>) -> Seq<StashView> {
    Seq::new(v.len(), |i: int| v[i]@)
}

/// The stashes that some lines tell of, up to the line at `n`.
pub open spec fn stashes_of(all: Seq<Seq<char>>, n: nat) -> Seq<StashView>
    decreases n,
{
    if n == 0 {
        Seq::empty()
    } else {
        let before = stashes_of(all, (n - 1) as nat);
        let f = split(all[n - 1], unit_mark());
        if f.len() >= 3 {
            before.push(StashView { reference: f[0], time: time_of(f[1]), message: f[2] })
        } else {
            before
        }
    }
}

/// Reads the stashes out of a list.
pub fn read_stashes(output: &str) -> (r: Vec<GitStashInfo>)
    ensures
        stash_views(r@) == stashes_of(lines(output@), lines(output@).len()),
{
    let chars = chars_of(output);
    let all = split_lines(chars.as_slice());
    let ghost told = lines(output@);
    let mut out: Vec<GitStashInfo> = Vec::new();
    let mut i: usize = 0;
    assert(stash_views(out@) =~= Seq::empty());
    while i < all.len()
        invariant
            i <= all@.len(),
            told == slices(all@),
            stash_views(out@) == stashes_of(told, i as nat),
        decreases all@.len() - i,
    {
        let ghost before = stash_views(out@);
        assert(told[i as int] == all@[i as int]@);
        let f = split_at_char(all[i], '\u{1f}');
        let ghost views = split(told[i as int], unit_mark());
        assert(slices(f@) == views);
        if f.len() >= 3 {
            assert(views[0] == f@[0]@);
            assert(views[1] == f@[1]@);
            assert(views[2] == f@[2]@);
            let s = GitStashInfo {
                reference: string_of(f[0]),
                message: string_of(f[2]),
                time: read_time(f[1]),
            };
            out.push(s);
            assert(stash_views(out@) =~= before.push(s@));
        }
        i += 1;
    }
    out
}

/// The run that tells the stashes.
pub open spec fn stash_steps(path: Seq<char>) -> Seq<StepView> {
    seq![
        (
            in_dir(path, seq!["stash"@, "list"@, "--format=%gd\u{1f}%at\u{1f}%gs"@]),
            Policy::Wish,
        ),
    ]
}

/// Asks for the stashes.
pub fn git_stash_list(path: &str) -> (r: Query)
    ensures
        r@ == QueryView::start(stash_steps(path@)),
{
    let a = Args::in_dir(path).arg("stash").arg("list").arg(
        "--format=%gd\u{1f}%at\u{1f}%gs",
    );
    assert(a@ =~= stash_steps(path@)[0].0);
    let mut steps: Vec<QueryStep> = Vec::new();
    steps.push(QueryStep { args: a.done(), policy: Policy::Wish });
    assert(step_views(steps@) =~= stash_steps(path@));
    Query::new(steps)
}

/// A stash as a client is told it.
pub open spec fn stash_json(s: GitStashInfo) -> JsonView {
    JsonView::Object(
        no_fields().push(("ref"@, JsonView::Str(s.reference@))).push(
            ("message"@, JsonView::Str(s.message@)),
        ).push(("time"@, signed_json(s.time))),
    )
}

/// The stashes as a client is told them.
pub fn stashes_to_json(stashes: &Vec<GitStashInfo>) -> (r: Json)
    ensures
        r@ == JsonView::Array(
            Seq::new(stashes@.len(), |i: int| stash_json(stashes@[i])),
        ),
{
    let mut out: Vec<Json> = Vec::new();
    let mut i: usize = 0;
    while i < stashes.len()
        invariant
            i <= stashes@.len(),
            out@.len() == i,
            forall|j: int| 0 <= j < i ==> (#[trigger] out@[j])@ == stash_json(stashes@[j]),
        decreases stashes@.len() - i,
    {
        let s = &stashes[i];
        let v = Fields::new().text("ref", s.reference.as_str()).text(
            "message",
            s.message.as_str(),
        ).with("time", signed(s.time)).object();
        out.push(v);
        i += 1;
    }
    proof {
        array_view(out);
        assert(values(out@) =~= Seq::new(stashes@.len(), |i: int| stash_json(stashes@[i])));
    }
    Json::Array(out)
}

/// The branches of a repository.
#[derive(Debug, PartialEq)]
pub struct GitBranches {
    pub current: String,
    pub branches: Vec<String>,
    pub remotes: Vec<String>,
}

/// The runs that tell the branches.
pub open spec fn branch_steps(path: Seq<char>) -> Seq<StepView> {
    seq![
        (
            in_dir(path, seq!["for-each-ref"@, "--format=%(refname:short)"@, "refs/heads"@]),
            Policy::Need,
        ),
        (
            in_dir(path, seq!["for-each-ref"@, "--format=%(refname:short)"@, "refs/remotes"@]),
            Policy::Wish,
        ),
        (in_dir(path, seq!["rev-parse"@, "--abbrev-ref"@, "HEAD"@]), Policy::Need),
    ]
}

/// Asks for the branches.
pub fn git_branch_list(path: &str) -> (r: Query)
    ensures
        r@ == QueryView::start(branch_steps(path@)),
{
    let a = Args::in_dir(path).arg("for-each-ref").arg("--format=%(refname:short)").arg(
        "refs/heads",
    );
    assert(a@ =~= branch_steps(path@)[0].0);
    let b = Args::in_dir(path).arg("for-each-ref").arg("--format=%(refname:short)").arg(
        "refs/remotes",
    );
    assert(b@ =~= branch_steps(path@)[1].0);
    let c = Args::in_dir(path).arg("rev-parse").arg("--abbrev-ref").arg("HEAD");
    assert(c@ =~= branch_steps(path@)[2].0);
    let mut steps: Vec<QueryStep> = Vec::new();
    steps.push(QueryStep { args: a.done(), policy: Policy::Need });
    steps.push(QueryStep { args: b.done(), policy: Policy::Wish });
    steps.push(QueryStep { args: c.done(), policy: Policy::Need });
    assert(step_views(steps@) =~= branch_steps(path@));
    Query::new(steps)
}

/// The names but for those of the places to which a remote points, up to the
/// name at `n`.
pub open spec fn real_remotes(names: Seq<Seq<char>>, n: nat) -> Seq<Seq<char>>
    decreases n,
{
    if n == 0 {
        Seq::empty()
    } else {
        let front = real_remotes(names, (n - 1) as nat);
        if ends_with(names[n - 1], "/HEAD"@) {
            front
        } else {
            front.push(names[n - 1])
        }
    }
}

/// Reads the branches out of the outputs of the runs.
pub fn read_branches(outputs: &Vec<String>) -> (r: GitBranches)
    requires
        outputs@.len() == 3,
    ensures
        ({
            let local = lines(outputs@[0]@);
            let remote = lines(outputs@[1]@);
            let names = names_of(remote, remote.len());
            &&& r.current@ == trim(outputs@[2]@)
            &&& texts(r.branches@) == names_of(local, local.len())
            &&& texts(r.remotes@) == real_remotes(names, names.len())
        }),
{
    let branches = list_names(outputs[0].as_str());
    let all = list_names(outputs[1].as_str());
    let ghost names = texts(all@);
    let mut remotes: Vec<String> = Vec::new();
    let mut i: usize = 0;
    assert(texts(remotes@) =~= Seq::empty());
    while i < all.len()
        invariant
            i <= all@.len(),
            names == texts(all@),
            texts(remotes@) == real_remotes(names, i as nat),
        decreases all@.len() - i,
    {
        let ghost before = texts(remotes@);
        let chars = chars_of(all[i].as_str());
        assert(names[i as int] == all@[i as int]@);
        if !ends_text(chars.as_slice(), "/HEAD") {
            let name = all[i].clone();
            remotes.push(name);
            assert(texts(remotes@) =~= before.push(name@));
        }
        i += 1;
    }
    GitBranches { current: trim_text(outputs[2].as_str()), branches, remotes }
}

/// The branches as a client is told them.
pub fn branches_to_json(b: &GitBranches) -> (r: Json)
    ensures
        r@ == JsonView::Object(
            no_fields().push(("current"@, JsonView::Str(b.current@))).push(
                ("branches"@, texts_json(texts(b.branches@))),
            ).push(("remotes"@, texts_json(texts(b.remotes@)))),
        ),
{
    let local = Json::of_texts(&b.branches);
    assert(local@->Array_0 =~= texts_json(texts(b.branches@))->Array_0);
    let remote = Json::of_texts(&b.remotes);
    assert(remote@->Array_0 =~= texts_json(texts(b.remotes@))->Array_0);
    Fields::new().text("current", b.current.as_str()).with("branches", local).with(
        "remotes",
        remote,
    ).object()
}

/// What a question for the last commits came to.
pub fn finish_log(q: &Query) -> (r: Result<Vec<GitCommitInfo>, String>)
    requires
        !q@.waiting(),
        q@.steps.len() == 2,
        q@.outputs.len() <= 2,
    ensures
        match q@.ended {
            Some(EndingView::Refused(e)) => r matches Err(t) && t@ == e,
            Some(EndingView::Empty) => r matches Ok(v) && v@.len() == 0,
            None => r matches Ok(v) && commit_views(v@) == commits_of(
                lines(q@.outputs[1]),
                lines(q@.outputs[1]).len(),
            ),
        },
{
    match q.ended() {
        Some(Ending::Refused(e)) => Err(e.clone()),
        Some(Ending::Empty) => Ok(Vec::new()),
        None => {
            let outputs = q.outputs();
            assert(texts(outputs@)[1] == outputs@[1]@);
            Ok(read_log(outputs[1].as_str()))
        },
    }
}

/// What a question for the stashes came to.
pub fn finish_stashes(q: &Query) -> (r: Result<Vec<GitStashInfo>, String>)
    requires
        !q@.waiting(),
        q@.steps.len() == 1,
        q@.outputs.len() <= 1,
    ensures
        match q@.ended {
            Some(EndingView::Refused(e)) => r matches Err(t) && t@ == e,
            Some(EndingView::Empty) => r matches Ok(v) && v@.len() == 0,
            None => r matches Ok(v) && stash_views(v@) == stashes_of(
                lines(q@.outputs[0]),
                lines(q@.outputs[0]).len(),
            ),
        },
{
    match q.ended() {
        Some(Ending::Refused(e)) => Err(e.clone()),
        Some(Ending::Empty) => Ok(Vec::new()),
        None => {
            let outputs = q.outputs();
            assert(texts(outputs@)[0] == outputs@[0]@);
            Ok(read_stashes(outputs[0].as_str()))
        },
    }
}

/// What a question for the branches came to.
pub fn finish_branches(q: &Query) -> (r: Result<GitBranches, String>)
    requires
        !q@.waiting(),
        q@.ended !is Some || q@.ended->0 !is Empty,
        q@.steps.len() == 3,
        q@.outputs.len() <= 3,
    ensures
        match q@.ended {
            Some(EndingView::Refused(e)) => r matches Err(t) && t@ == e,
            Some(EndingView::Empty) => true,
            None => r matches Ok(b) && {
                let local = lines(q@.outputs[0]);
                let remote = lines(q@.outputs[1]);
                let names = names_of(remote, remote.len());
                &&& b.current@ == trim(q@.outputs[2])
                &&& texts(b.branches@) == names_of(local, local.len())
                &&& texts(b.remotes@) == real_remotes(names, names.len())
            },
        },
{
    match q.ended() {
        Some(Ending::Refused(e)) => Err(e.clone()),
        Some(Ending::Empty) => Err("".to_owned()),
        None => {
            let outputs = q.outputs();
            assert(texts(outputs@)[0] == outputs@[0]@);
            assert(texts(outputs@)[1] == outputs@[1]@);
            assert(texts(outputs@)[2] == outputs@[2]@);
            Ok(read_branches(outputs))
        },
    }
}

/// The line of a commit, as git prints it in the form that is asked for.
pub open spec fn commit_line(
    hash: Seq<char>,
    short_hash: Seq<char>,
    author: Seq<char>,
    time: i64,
    message: Seq<char>,
) -> Seq<char> {
    seq!['@'] + joined(
        seq![hash, short_hash, author, decimal_int(time as int), message],
        seq!['\u{1f}'],
    )
}

/// The line of a commit adds that commit, with each part in its own place and no lines yet.
pub proof fn commits_are_read_from_their_lines(
    all: Seq<Seq<char>>,
    n: nat,
    hash: Seq<char>,
    short_hash: Seq<char>,
    author: Seq<char>,
    time: i64,
    message: Seq<char>,
)
    requires
        0 < n <= all.len(),
        all[n - 1] == commit_line(hash, short_hash, author, time, message),
        !hash.contains('\u{1f}'),
        !short_hash.contains('\u{1f}'),
        !author.contains('\u{1f}'),
        !message.contains('\u{1f}'),
    ensures
        ({
            let after = commits_of(all, n);
            let c = after.last();
            &&& after.len() > 0
            &&& after.drop_last() == commits_of(all, (n - 1) as nat)
            &&& c.hash == hash
            &&& c.short_hash == short_hash
            &&& c.author == author
            &&& c.time == time
            &&& c.message == message
            &&& c.insertions == 0
            &&& c.deletions == 0
        }),
{
    let parts = seq![hash, short_hash, author, decimal_int(time as int), message];
    let line = all[n - 1];
    lemma_time(time);
    joined_parts_are_split(parts, '\u{1f}');
    assert(line.skip(1) =~= joined(parts, seq!['\u{1f}']));
    assert(commits_of(all, n).drop_last() =~= commits_of(all, (n - 1) as nat));
}

/// A time that was written is read as itself.
proof fn lemma_time(time: i64)
    ensures
        time_of(decimal_int(time as int)) == time,
        !decimal_int(time as int).contains('\u{1f}'),
{
    signed_numbers_are_read_back(time);
    let d = decimal_int(time as int);
    let m: nat = if time < 0 {
        (-time) as nat
    } else {
        time as nat
    };
    lemma_decimal(m);
    if d.contains('\u{1f}') {
        let i = choose|i: int| 0 <= i < d.len() && d[i] == '\u{1f}';
        if time < 0 {
            if i > 0 {
                assert(d[i] == decimal(m)[i - 1]);
                assert(is_digit(decimal(m)[i - 1]));
            }
        } else {
            assert(is_digit(decimal(m)[i]));
        }
    }
}

/// A line with the lines of a file counts for the commit that was told last, and for no other.
pub proof fn lines_count_for_the_last_commit(
    all: Seq<Seq<char>>,
    n: nat,
    insertions: u32,
    deletions: u32,
    file: Seq<char>,
)
    requires
        0 < n <= all.len(),
        all[n - 1] == change_line(insertions, deletions, file),
    ensures
        ({
            let before = commits_of(all, (n - 1) as nat);
            let after = commits_of(all, n);
            let c = before.last();
            let d = after.last();
            &&& after.len() == before.len()
            &&& before.len() > 0 ==> {
                &&& after.drop_last() == before.drop_last()
                &&& d.insertions == (c.insertions + insertions) % 0x1_0000_0000
                &&& d.deletions == (c.deletions + deletions) % 0x1_0000_0000
                &&& d.hash == c.hash && d.short_hash == c.short_hash
                &&& d.author == c.author && d.time == c.time && d.message == c.message
            }
        }),
{
    counts_are_read(insertions);
    counts_are_read(deletions);
    cutting_in_three(decimal(insertions as nat), decimal(deletions as nat), file, '\t');
    lemma_decimal(insertions as nat);
    assert(all[n - 1][0] == decimal(insertions as nat)[0]);
    assert(is_digit(decimal(insertions as nat)[0]));
    let before = commits_of(all, (n - 1) as nat);
    if before.len() > 0 {
        assert(commits_of(all, n).drop_last() =~= before.drop_last());
    }
}

/// The line of a stash adds that stash, with each part in its own place.
pub proof fn stashes_are_read_from_their_lines(
    all: Seq<Seq<char>>,
    n: nat,
    reference: Seq<char>,
    time: i64,
    message: Seq<char>,
)
    requires
        0 < n <= all.len(),
        all[n - 1] == joined(
            seq![reference, decimal_int(time as int), message],
            seq!['\u{1f}'],
        ),
        !reference.contains('\u{1f}'),
        !message.contains('\u{1f}'),
    ensures
        ({
            let after = stashes_of(all, n);
            let s = after.last();
            &&& after.len() > 0
            &&& after.drop_last() == stashes_of(all, (n - 1) as nat)
            &&& s.reference == reference
            &&& s.time == time
            &&& s.message == message
        }),
{
    lemma_time(time);
    joined_parts_are_split(seq![reference, decimal_int(time as int), message], '\u{1f}');
    assert(stashes_of(all, n).drop_last() =~= stashes_of(all, (n - 1) as nat));
}

/// The remote branches are those that are listed, in their order, but for the one to which a
/// remote points.
pub proof fn remotes_are_those_listed(names: Seq<Seq<char>>, n: nat)
    requires
        n <= names.len(),
    ensures
        real_remotes(names, n) == names.take(n as int).filter(
            |name: Seq<char>| !(name.len() >= 5 && name.skip(name.len() - 5) == "/HEAD"@),
        ),
    decreases n,
{
    reveal(Seq::filter);
    reveal_strlit("/HEAD");
    assert("/HEAD"@.len() == 5);
    if n > 0 {
        remotes_are_those_listed(names, (n - 1) as nat);
        assert(names.take(n as int).drop_last() =~= names.take(n - 1));
        assert(names.take(n as int).last() == names[n - 1]);
    }
}

/// A commit is told to a client under the names of what it holds.
pub proof fn commits_are_told_by_name(c: GitCommitInfo)
    ensures
        commit_json(c).says("hash"@, JsonView::Str(c.hash@)),
        commit_json(c).says("shortHash"@, JsonView::Str(c.short_hash@)),
        commit_json(c).says("message"@, JsonView::Str(c.message@)),
        commit_json(c).says("author"@, JsonView::Str(c.author@)),
        commit_json(c).says("insertions"@, JsonView::Unsigned(c.insertions as u64)),
        commit_json(c).says("deletions"@, JsonView::Unsigned(c.deletions as u64)),
        c.time >= 0 ==> commit_json(c).says("time"@, JsonView::Unsigned(c.time as u64)),
        c.time < 0 ==> commit_json(c).says("time"@, JsonView::Negative(c.time)),
{
    let f = commit_json(c)->Object_0;
    assert(f[0].0 == "hash"@ && f[1].0 == "shortHash"@ && f[2].0 == "message"@);
    assert(f[3].0 == "author"@ && f[4].0 == "time"@);
    assert(f[5].0 == "insertions"@ && f[6].0 == "deletions"@);
    assert(f.contains(f[4]));
}

/// A stash is told to a client under the names of what it holds.
pub proof fn stashes_are_told_by_name(s: GitStashInfo)
    ensures
        stash_json(s).says("ref"@, JsonView::Str(s.reference@)),
        stash_json(s).says("message"@, JsonView::Str(s.message@)),
        s.time >= 0 ==> stash_json(s).says("time"@, JsonView::Unsigned(s.time as u64)),
        s.time < 0 ==> stash_json(s).says("time"@, JsonView::Negative(s.time)),
{
    let f = stash_json(s)->Object_0;
    assert(f[0].0 == "ref"@ && f[1].0 == "message"@ && f[2].0 == "time"@);
    assert(f.contains(f[2]));
}

/// A line that is neither that of a commit nor tells of a file changes nothing.
pub proof fn other_lines_tell_of_no_commit(all: Seq<Seq<char>>, n: nat)
    requires
        0 < n <= all.len(),
        !all[n - 1].contains('\t'),
        !all[n - 1].contains('\u{1f}'),
    ensures
        commits_of(all, n) == commits_of(all, (n - 1) as nat),
        stashes_of(all, n) == stashes_of(all, (n - 1) as nat),
{
    let line = all[n - 1];
    crate::text::lemma_position(line, '\t');
    crate::text::lemma_position(line, '\u{1f}');
    assert(splitn(line, '\t', 3) =~= seq![line]);
    assert(split(line, '\u{1f}') =~= seq![line]);
    if line.len() > 0 {
        let rest = line.skip(1);
        crate::text::lemma_position(rest, '\u{1f}');
        if rest.contains('\u{1f}') {
            let i = choose|i: int| 0 <= i < rest.len() && rest[i] == '\u{1f}';
            assert(line[i + 1] == '\u{1f}');
        }
        assert(split(rest, '\u{1f}') =~= seq![rest]);
    }
}

/// What is no number is no time, and counts as the beginning of time.
pub proof fn other_texts_are_no_times(s: Seq<char>)
    requires
        read_i64(s) is None,
    ensures
        time_of(s) == 0,
{
}

} // verus!
