//! Git commands as plans: which runs of git follow on which, and what comes of
//! them.

use vstd::prelude::*;
use vstd::string::*;

use crate::git::run::{git_result, lenient_result, run_git, run_git_lenient};
use crate::path::{join, join_path, Platform};
use crate::process::{OutcomeView, ProcessOutcome};
use crate::text::{
    blank, cat2, cat4, chars_of, contains, ends_text, ends_with, has_char, holds, position,
    position_of, same, string_of, texts, trim, trim_text,
};
use vstd::slice::slice_subrange;

verus! {

/// A plan of runs of git.
#[derive(Debug, PartialEq)]
pub enum Plan {
    /// The result is this text.
    Text(String),
    /// The result is this error.
    Refusal(String),
    /// The result is what the last run printed.
    Output,
    /// The result is what the last run complained of.
    Error,
    /// The result is the complaint that was kept.
    Kept,
    /// What the path names is deleted.
    Delete { dir: String, file: String },
    /// Git is run, and the plan goes on by whether it complains.
    Run {
        args: Vec<String>,
        /// Whether the exit code of the run does not matter.
        lenient: bool,
        /// Whether the complaint of the run is kept.
        keep: bool,
        ok: Box<Plan>,
        err: Box<Plan>,
    },
}

/// What a plan stands for.
pub enum PlanView {
    Text(Seq<char>),
    Refusal(Seq<char>),
    Output,
    Error,
    Kept,
    Delete { dir: Seq<char>, file: Seq<char> },
    Run {
        args: Seq<Seq<char>>,
        lenient: bool,
        keep: bool,
        ok: Box<PlanView>,
        err: Box<PlanView>,
    },
}

impl Plan {
    /// What the plan stands for.
    pub open spec fn meaning(self) -> PlanView
        decreases self,
    {
        match self {
            Plan::Text(t) => PlanView::Text(t@),
            Plan::Refusal(t) => PlanView::Refusal(t@),
            Plan::Output => PlanView::Output,
            Plan::Error => PlanView::Error,
            Plan::Kept => PlanView::Kept,
            Plan::Delete { dir, file } => PlanView::Delete { dir: dir@, file: file@ },
            Plan::Run { args, lenient, keep, ok, err } => PlanView::Run {
                args: texts(args@),
                lenient,
                keep,
                ok: Box::new(ok.meaning()),
                err: Box::new(err.meaning()),
            },
        }
    }
}

impl View for Plan {
    type V = PlanView;

    open spec fn view(&self) -> PlanView {
        self.meaning()
    }
}

/// What a run of a plan comes to.
pub open spec fn outcome_result(lenient: bool, o: OutcomeView) -> Result<Seq<char>, Seq<char>> {
    if lenient {
        lenient_result(o)
    } else {
        git_result(o)
    }
}

/// A plan that is given what the last run came to.
pub open spec fn settled(
    p: PlanView,
    last: Result<Seq<char>, Seq<char>>,
    kept: Seq<char>,
) -> PlanView {
    match p {
        PlanView::Output => match last {
            Ok(t) => PlanView::Text(t),
            Err(e) => PlanView::Refusal(e),
        },
        PlanView::Error => match last {
            Ok(t) => PlanView::Text(t),
            Err(e) => PlanView::Refusal(e),
        },
        PlanView::Kept => PlanView::Refusal(kept),
        _ => p,
    }
}

/// The complaint that is kept after a run.
pub open spec fn kept_after(
    keep: bool,
    last: Result<Seq<char>, Seq<char>>,
    kept: Seq<char>,
) -> Seq<char> {
    match last {
        Err(e) => if keep {
            e
        } else {
            kept
        },
        Ok(_) => kept,
    }
}

/// What is left of a plan after its next run, and the complaint that is kept.
pub open spec fn resumed(p: PlanView, kept: Seq<char>, o: OutcomeView) -> (PlanView, Seq<char>) {
    match p {
        PlanView::Run { args, lenient, keep, ok, err } => {
            let last = outcome_result(lenient, o);
            let k = kept_after(keep, last, kept);
            (
                settled(
                    if last is Ok {
                        *ok
                    } else {
                        *err
                    },
                    last,
                    k,
                ),
                k,
            )
        },
        _ => (p, kept),
    }
}

/// Goes on with a plan after its next run.
pub fn resume(plan: Plan, kept: String, outcome: &ProcessOutcome) -> (r: (Plan, String))
    ensures
        (r.0@, r.1@) == resumed(plan@, kept@, outcome@),
{
    proof {
        reveal_with_fuel(Plan::meaning, 2);
    }
    match plan {
        Plan::Run { args, lenient, keep, ok, err } => {
            let last = if lenient {
                run_git_lenient(outcome)
            } else {
                run_git(outcome)
            };
            match last {
                Ok(t) => {
                    let next = match *ok {
                        Plan::Output => Plan::Text(t),
                        Plan::Error => Plan::Text(t),
                        Plan::Kept => Plan::Refusal(kept.clone()),
                        p => p,
                    };
                    (next, kept)
                },
                Err(e) => {
                    let k = if keep {
                        e.clone()
                    } else {
                        kept
                    };
                    let next = match *err {
                        Plan::Output => Plan::Refusal(e),
                        Plan::Error => Plan::Refusal(e),
                        Plan::Kept => Plan::Refusal(k.clone()),
                        p => p,
                    };
                    (next, k)
                },
            }
        },
        p => (p, kept),
    }
}

/// What a plan comes to on a host: `host(n, args)` is what the n-th run comes
/// to. A plan that ends in a deletion comes to nothing here.
pub open spec fn played(
    p: PlanView,
    kept: Seq<char>,
    n: nat,
    host: spec_fn(nat, Seq<Seq<char>>) -> OutcomeView,
) -> Option<Result<Seq<char>, Seq<char>>>
    decreases p,
{
    match p {
        PlanView::Text(t) => Some(Ok(t)),
        PlanView::Refusal(e) => Some(Err(e)),
        PlanView::Run { args, lenient, keep, ok, err } => {
            let last = outcome_result(lenient, host(n, args));
            let k = kept_after(keep, last, kept);
            let branch = if last is Ok {
                *ok
            } else {
                *err
            };
            match branch {
                PlanView::Output => Some(last),
                PlanView::Error => Some(last),
                PlanView::Kept => Some(Err(k)),
                _ => if last is Ok {
                    played(*ok, k, n + 1, host)
                } else {
                    played(*err, k, n + 1, host)
                },
            }
        },
        _ => None,
    }
}

/// Going on with a plan after what the host answers comes to what the plan comes
/// to on that host.
pub proof fn resuming_plays_on(
    p: PlanView,
    kept: Seq<char>,
    n: nat,
    host: spec_fn(nat, Seq<Seq<char>>) -> OutcomeView,
)
    requires
        p is Run,
    ensures
        ({
            let (q, k) = resumed(p, kept, host(n, p->args));
            played(q, k, n + 1, host) == played(p, kept, n, host)
        }),
{
    reveal_with_fuel(played, 2);
}

/// How many runs a plan has at most.
pub open spec fn most_runs(p: PlanView) -> nat
    decreases p,
{
    match p {
        PlanView::Run { args, lenient, keep, ok, err } => {
            let a = most_runs(*ok);
            let b = most_runs(*err);
            1 + (if a >= b {
                a
            } else {
                b
            })
        },
        _ => 0,
    }
}

/// Every run brings a plan closer to its end.
pub proof fn plans_end(p: PlanView, kept: Seq<char>, o: OutcomeView)
    requires
        p is Run,
    ensures
        most_runs(resumed(p, kept, o).0) < most_runs(p),
{
    reveal_with_fuel(most_runs, 2);
}

/// A run of git in a directory.
pub open spec fn in_dir(path: Seq<char>, args: Seq<Seq<char>>) -> Seq<Seq<char>> {
    seq!["-C"@, path] + args
}

/// A run whose result is the plan's.
pub open spec fn only(args: Seq<Seq<char>>) -> PlanView {
    PlanView::Run {
        args,
        lenient: false,
        keep: false,
        ok: Box::new(PlanView::Output),
        err: Box::new(PlanView::Error),
    }
}

/// A run after which the plan goes on either way.
pub open spec fn either(args: Seq<Seq<char>>, ok: PlanView, err: PlanView) -> PlanView {
    PlanView::Run { args, lenient: false, keep: false, ok: Box::new(ok), err: Box::new(err) }
}

/// A run after which the plan goes on unless there is a complaint.
pub open spec fn then_run(args: Seq<Seq<char>>, next: PlanView) -> PlanView {
    either(args, next, PlanView::Error)
}

/// The arguments of a run of git in a directory.
pub struct Args {
    list: Vec<String>,
}

impl View for Args {
    type V = Seq<Seq<char>>;

    closed spec fn view(&self) -> Seq<Seq<char>> {
        texts(self.list@)
    }
}

impl Args {
    /// The arguments that choose the directory.
    pub fn in_dir(path: &str) -> (r: Self)
        ensures
            r@ == in_dir(path@, seq![]),
    {
        let mut list: Vec<String> = Vec::new();
        list.push("-C".to_owned());
        list.push(path.to_owned());
        assert(texts(list@) =~= in_dir(path@, seq![]));
        Args { list }
    }

    /// One more argument.
    pub fn arg(self, a: &str) -> (r: Self)
        ensures
            r@ == self@.push(a@),
    {
        let ghost before = texts(self.list@);
        let mut list = self.list;
        list.push(a.to_owned());
        assert(texts(list@) =~= before.push(a@));
        Args { list }
    }

    /// The arguments.
    pub fn done(self) -> (r: Vec<String>)
        ensures
            texts(r@) == self@,
    {
        self.list
    }
}

fn run_only(args: Args) -> (r: Plan)
    ensures
        r@ == only(args@),
{
    run_either(args, Plan::Output, Plan::Error)
}

fn run_either(args: Args, ok: Plan, err: Plan) -> (r: Plan)
    ensures
        r@ == either(args@, ok@, err@),
{
    let r = Plan::Run {
        args: args.done(),
        lenient: false,
        keep: false,
        ok: Box::new(ok),
        err: Box::new(err),
    };
    proof {
        reveal_with_fuel(Plan::meaning, 2);
    }
    r
}

fn run_keeping(args: Args, ok: Plan, err: Plan) -> (r: Plan)
    ensures
        r@ == (PlanView::Run {
            args: args@,
            lenient: false,
            keep: true,
            ok: Box::new(ok@),
            err: Box::new(err@),
        }),
{
    let r = Plan::Run {
        args: args.done(),
        lenient: false,
        keep: true,
        ok: Box::new(ok),
        err: Box::new(err),
    };
    proof {
        reveal_with_fuel(Plan::meaning, 2);
    }
    r
}

/// The plan of `git_init`.
pub open spec fn init_plan(path: Seq<char>) -> PlanView {
    only(in_dir(path, seq!["init"@]))
}

/// Makes a directory a repository.
pub fn git_init(path: &str) -> (r: Plan)
    ensures
        r@ == init_plan(path@),
{
    let a = Args::in_dir(path).arg("init");
    assert(a@ =~= in_dir(path@, seq!["init"@]));
    run_only(a)
}

/// The plan of `get_git_diff`.
pub open spec fn diff_plan(path: Seq<char>, file: Seq<char>) -> PlanView {
    only(in_dir(path, seq!["diff"@, "--no-color"@, "--"@, file]))
}

/// The changes of a file that are not staged.
pub fn get_git_diff(path: &str, file: &str) -> (r: Plan)
    ensures
        r@ == diff_plan(path@, file@),
{
    let a = Args::in_dir(path).arg("diff").arg("--no-color").arg("--").arg(file);
    assert(a@ =~= in_dir(path@, seq!["diff"@, "--no-color"@, "--"@, file@]));
    run_only(a)
}

/// The plan of `get_git_staged_diff`.
pub open spec fn staged_diff_plan(path: Seq<char>, file: Seq<char>) -> PlanView {
    only(in_dir(path, seq!["diff"@, "--cached"@, "--no-color"@, "--"@, file]))
}

/// The changes of a file that are staged.
pub fn get_git_staged_diff(path: &str, file: &str) -> (r: Plan)
    ensures
        r@ == staged_diff_plan(path@, file@),
{
    let a = Args::in_dir(path).arg("diff").arg("--cached").arg("--no-color").arg("--").arg(file);
    assert(a@ =~= in_dir(path@, seq!["diff"@, "--cached"@, "--no-color"@, "--"@, file@]));
    run_only(a)
}

/// The plan of `get_git_head_file`.
pub open spec fn head_file_plan(path: Seq<char>, file: Seq<char>) -> PlanView {
    only(in_dir(path, seq!["show"@, "HEAD:"@ + file]))
}

/// A file as it is in the last commit.
pub fn get_git_head_file(path: &str, file: &str) -> (r: Plan)
    ensures
        r@ == head_file_plan(path@, file@),
{
    let name = cat2("HEAD:", file);
    let a = Args::in_dir(path).arg("show").arg(name.as_str());
    assert(a@ =~= in_dir(path@, seq!["show"@, "HEAD:"@ + file@]));
    run_only(a)
}

/// The plan of `git_show_index`.
pub open spec fn show_index_plan(path: Seq<char>, file: Seq<char>) -> PlanView {
    either(
        in_dir(path, seq!["show"@, ":"@ + file]),
        PlanView::Output,
        PlanView::Text(""@),
    )
}

/// A file as it is staged. One that is not gives an empty text.
pub fn git_show_index(path: &str, file: &str) -> (r: Plan)
    ensures
        r@ == show_index_plan(path@, file@),
{
    let name = cat2(":", file);
    let a = Args::in_dir(path).arg("show").arg(name.as_str());
    assert(a@ =~= in_dir(path@, seq!["show"@, ":"@ + file@]));
    run_either(a, Plan::Output, Plan::Text("".to_owned()))
}

/// The plan of `git_add`.
pub open spec fn add_plan(path: Seq<char>, file: Seq<char>) -> PlanView {
    only(in_dir(path, seq!["add"@, "--"@, file]))
}

/// Stages a file.
pub fn git_add(path: &str, file: &str) -> (r: Plan)
    ensures
        r@ == add_plan(path@, file@),
{
    let a = Args::in_dir(path).arg("add").arg("--").arg(file);
    assert(a@ =~= in_dir(path@, seq!["add"@, "--"@, file@]));
    run_only(a)
}

/// The plan of `git_stage_all`.
pub open spec fn stage_all_plan(path: Seq<char>) -> PlanView {
    only(in_dir(path, seq!["add"@, "-A"@, "."@]))
}

/// Stages everything.
pub fn git_stage_all(path: &str) -> (r: Plan)
    ensures
        r@ == stage_all_plan(path@),
{
    let a = Args::in_dir(path).arg("add").arg("-A").arg(".");
    assert(a@ =~= in_dir(path@, seq!["add"@, "-A"@, "."@]));
    run_only(a)
}

/// The plan of `git_unstage`.
pub open spec fn unstage_plan(path: Seq<char>, file: Seq<char>) -> PlanView {
    either(
        in_dir(path, seq!["reset"@, "HEAD"@, "--"@, file]),
        PlanView::Output,
        only(in_dir(path, seq!["rm"@, "--cached"@, "--"@, file])),
    )
}

/// Takes a file off the stage. Where there is no commit to go back to, it is
/// taken out of the index.
pub fn git_unstage(path: &str, file: &str) -> (r: Plan)
    ensures
        r@ == unstage_plan(path@, file@),
{
    let a = Args::in_dir(path).arg("reset").arg("HEAD").arg("--").arg(file);
    assert(a@ =~= in_dir(path@, seq!["reset"@, "HEAD"@, "--"@, file@]));
    let b = Args::in_dir(path).arg("rm").arg("--cached").arg("--").arg(file);
    assert(b@ =~= in_dir(path@, seq!["rm"@, "--cached"@, "--"@, file@]));
    run_either(a, Plan::Output, run_only(b))
}

/// The plan of `git_unstage_all`.
pub open spec fn unstage_all_plan(path: Seq<char>) -> PlanView {
    either(
        in_dir(path, seq!["reset"@, "HEAD"@]),
        PlanView::Output,
        only(in_dir(path, seq!["rm"@, "-r"@, "--cached"@, "."@])),
    )
}

/// Takes everything off the stage.
pub fn git_unstage_all(path: &str) -> (r: Plan)
    ensures
        r@ == unstage_all_plan(path@),
{
    let a = Args::in_dir(path).arg("reset").arg("HEAD");
    assert(a@ =~= in_dir(path@, seq!["reset"@, "HEAD"@]));
    let b = Args::in_dir(path).arg("rm").arg("-r").arg("--cached").arg(".");
    assert(b@ =~= in_dir(path@, seq!["rm"@, "-r"@, "--cached"@, "."@]));
    run_either(a, Plan::Output, run_only(b))
}

/// The plan of `git_discard`.
pub open spec fn discard_plan(path: Seq<char>, file: Seq<char>) -> PlanView {
    either(
        in_dir(path, seq!["ls-files"@, "--error-unmatch"@, "--"@, file]),
        only(in_dir(path, seq!["checkout"@, "--"@, file])),
        PlanView::Delete { dir: path, file },
    )
}

/// Discards the changes of a file: one that git knows is checked out, another is
/// deleted.
pub fn git_discard(path: &str, file: &str) -> (r: Plan)
    ensures
        r@ == discard_plan(path@, file@),
{
    let a = Args::in_dir(path).arg("ls-files").arg("--error-unmatch").arg("--").arg(file);
    assert(a@ =~= in_dir(path@, seq!["ls-files"@, "--error-unmatch"@, "--"@, file@]));
    let b = Args::in_dir(path).arg("checkout").arg("--").arg(file);
    assert(b@ =~= in_dir(path@, seq!["checkout"@, "--"@, file@]));
    let delete = Plan::Delete { dir: path.to_owned(), file: file.to_owned() };
    run_either(a, run_only(b), delete)
}

/// Where a file that is to be deleted lies.
pub fn discard_path(os: Platform, dir: &str, file: &str) -> (r: String)
    ensures
        r@ == join(os, dir@, file@),
{
    join_path(os, dir, file)
}

/// How something is deleted.
#[derive(Debug, Clone, Copy, PartialEq, Eq, Structural)]
pub enum Removal {
    /// With all that is in it.
    Tree,
    File,
    /// There is nothing to delete.
    Nothing,
}

/// Decides how a file that git does not know is deleted.
pub fn discard_removal(file: &str, is_dir: bool, is_file: bool) -> (r: Removal)
    ensures
        r == (if ends_with(file@, seq!['/']) || is_dir {
            Removal::Tree
        } else if is_file {
            Removal::File
        } else {
            Removal::Nothing
        }),
{
    let chars = chars_of(file);
    proof {
        reveal_strlit("/");
        assert("/"@ =~= seq!['/']);
    }
    if ends_text(chars.as_slice(), "/") || is_dir {
        Removal::Tree
    } else if is_file {
        Removal::File
    } else {
        Removal::Nothing
    }
}

/// What is said when a file could not be deleted.
pub fn discard_failure(file: &str, e: &str) -> (r: String)
    ensures
        r@ == "Failed to delete "@ + file@ + ": "@ + e@,
{
    cat4("Failed to delete ", file, ": ", e)
}

/// The plan of `git_discard_all`.
pub open spec fn discard_all_plan(path: Seq<char>) -> PlanView {
    let clean = only(in_dir(path, seq!["clean"@, "-fd"@]));
    let reset = in_dir(path, seq!["reset"@]);
    either(
        in_dir(path, seq!["rev-parse"@, "--verify"@, "--quiet"@, "HEAD"@]),
        then_run(
            reset,
            then_run(in_dir(path, seq!["reset"@, "--hard"@, "HEAD"@]), clean),
        ),
        then_run(reset, clean),
    )
}

/// Discards all changes: everything is taken off the stage, put back to the last
/// commit where there is one, and what git does not know is deleted.
pub fn git_discard_all(path: &str) -> (r: Plan)
    ensures
        r@ == discard_all_plan(path@),
{
    let probe = Args::in_dir(path).arg("rev-parse").arg("--verify").arg("--quiet").arg("HEAD");
    assert(probe@ =~= in_dir(path@, seq!["rev-parse"@, "--verify"@, "--quiet"@, "HEAD"@]));
    let reset1 = Args::in_dir(path).arg("reset");
    assert(reset1@ =~= in_dir(path@, seq!["reset"@]));
    let reset2 = Args::in_dir(path).arg("reset");
    assert(reset2@ =~= in_dir(path@, seq!["reset"@]));
    let hard = Args::in_dir(path).arg("reset").arg("--hard").arg("HEAD");
    assert(hard@ =~= in_dir(path@, seq!["reset"@, "--hard"@, "HEAD"@]));
    let clean1 = Args::in_dir(path).arg("clean").arg("-fd");
    assert(clean1@ =~= in_dir(path@, seq!["clean"@, "-fd"@]));
    let clean2 = Args::in_dir(path).arg("clean").arg("-fd");
    assert(clean2@ =~= in_dir(path@, seq!["clean"@, "-fd"@]));
    let with_head = run_either(
        reset1,
        run_either(hard, run_only(clean1), Plan::Error),
        Plan::Error,
    );
    let without_head = run_either(reset2, run_only(clean2), Plan::Error);
    run_either(probe, with_head, without_head)
}

/// The arguments of a commit.
pub open spec fn commit_args(message: Seq<char>, amend: Option<bool>) -> Seq<Seq<char>> {
    if amend == Some(true) {
        if trim(message).len() == 0 {
            seq!["commit"@, "--amend"@, "--no-edit"@]
        } else {
            seq!["commit"@, "--amend"@, "-m"@, message]
        }
    } else {
        seq!["commit"@, "-m"@, message]
    }
}

/// The plan of `git_commit`.
pub open spec fn commit_plan(path: Seq<char>, message: Seq<char>, amend: Option<bool>) -> PlanView {
    only(in_dir(path, commit_args(message, amend)))
}

/// Commits what is staged. An amended commit keeps its message when there is no
/// other.
pub fn git_commit(path: &str, message: &str, amend: Option<bool>) -> (r: Plan)
    ensures
        r@ == commit_plan(path@, message@, amend),
{
    let amended = match amend {
        Some(b) => b,
        None => false,
    };
    let start = Args::in_dir(path).arg("commit");
    let a = if amended {
        if blank(message) {
            start.arg("--amend").arg("--no-edit")
        } else {
            start.arg("--amend").arg("-m").arg(message)
        }
    } else {
        start.arg("-m").arg(message)
    };
    assert(a@ =~= in_dir(path@, commit_args(message@, amend)));
    run_only(a)
}

/// The plan of `git_undo_commit`.
pub open spec fn undo_commit_plan(path: Seq<char>) -> PlanView {
    only(in_dir(path, seq!["reset"@, "--soft"@, "HEAD~1"@]))
}

/// Undoes the last commit and keeps its changes staged.
pub fn git_undo_commit(path: &str) -> (r: Plan)
    ensures
        r@ == undo_commit_plan(path@),
{
    let a = Args::in_dir(path).arg("reset").arg("--soft").arg("HEAD~1");
    assert(a@ =~= in_dir(path@, seq!["reset"@, "--soft"@, "HEAD~1"@]));
    run_only(a)
}

/// The plan of `git_commit_diff`.
pub open spec fn commit_diff_plan(path: Seq<char>, commit: Seq<char>) -> PlanView {
    if trim(commit).len() == 0 || trim(commit)[0] == '-' {
        PlanView::Refusal("Invalid commit"@)
    } else {
        only(in_dir(path, seq!["show"@, "--no-color"@, "--no-ext-diff"@, trim(commit)]))
    }
}

/// The difference that a commit makes. What could be an option is refused.
pub fn git_commit_diff(path: &str, commit: &str) -> (r: Plan)
    ensures
        r@ == commit_diff_plan(path@, commit@),
{
    let name = trim_text(commit);
    let chars = chars_of(name.as_str());
    if chars.len() == 0 || chars[0] == '-' {
        return Plan::Refusal("Invalid commit".to_owned());
    }
    let a = Args::in_dir(path).arg("show").arg("--no-color").arg("--no-ext-diff").arg(
        name.as_str(),
    );
    assert(a@ =~= in_dir(
        path@,
        seq!["show"@, "--no-color"@, "--no-ext-diff"@, trim(commit@)],
    ));
    run_only(a)
}

/// The plan of `git_stash`.
pub open spec fn stash_plan(path: Seq<char>) -> PlanView {
    only(in_dir(path, seq!["stash"@, "push"@, "-u"@, "-m"@, "WIP from NoIDE"@]))
}

/// Stashes all changes, with the files that git does not know.
pub fn git_stash(path: &str) -> (r: Plan)
    ensures
        r@ == stash_plan(path@),
{
    let a = Args::in_dir(path).arg("stash").arg("push").arg("-u").arg("-m").arg("WIP from NoIDE");
    assert(a@ =~= in_dir(path@, seq!["stash"@, "push"@, "-u"@, "-m"@, "WIP from NoIDE"@]));
    run_only(a)
}

/// The plan of `git_stash_pop`.
pub open spec fn stash_pop_plan(path: Seq<char>) -> PlanView {
    only(in_dir(path, seq!["stash"@, "pop"@]))
}

/// Brings back what was stashed last.
pub fn git_stash_pop(path: &str) -> (r: Plan)
    ensures
        r@ == stash_pop_plan(path@),
{
    let a = Args::in_dir(path).arg("stash").arg("pop");
    assert(a@ =~= in_dir(path@, seq!["stash"@, "pop"@]));
    run_only(a)
}

/// The plan of `git_push`.
pub open spec fn push_plan(path: Seq<char>) -> PlanView {
    only(in_dir(path, seq!["push"@]))
}

/// Pushes the branch.
pub fn git_push(path: &str) -> (r: Plan)
    ensures
        r@ == push_plan(path@),
{
    let a = Args::in_dir(path).arg("push");
    assert(a@ =~= in_dir(path@, seq!["push"@]));
    run_only(a)
}

/// The plan of `git_fetch`.
pub open spec fn fetch_plan(path: Seq<char>) -> PlanView {
    only(in_dir(path, seq!["fetch"@, "--all"@, "--prune"@]))
}

/// Fetches from every remote.
pub fn git_fetch(path: &str) -> (r: Plan)
    ensures
        r@ == fetch_plan(path@),
{
    let a = Args::in_dir(path).arg("fetch").arg("--all").arg("--prune");
    assert(a@ =~= in_dir(path@, seq!["fetch"@, "--all"@, "--prune"@]));
    run_only(a)
}

/// The plan of `git_pull`.
pub open spec fn pull_plan(path: Seq<char>) -> PlanView {
    only(in_dir(path, seq!["pull"@]))
}

/// Pulls the branch.
pub fn git_pull(path: &str) -> (r: Plan)
    ensures
        r@ == pull_plan(path@),
{
    let a = Args::in_dir(path).arg("pull");
    assert(a@ =~= in_dir(path@, seq!["pull"@]));
    run_only(a)
}

/// The plan of `git_revert`.
pub open spec fn revert_plan(path: Seq<char>, commit: Seq<char>) -> PlanView {
    only(in_dir(path, seq!["revert"@, "--no-edit"@, commit]))
}

/// Reverts a commit.
pub fn git_revert(path: &str, commit: &str) -> (r: Plan)
    ensures
        r@ == revert_plan(path@, commit@),
{
    let a = Args::in_dir(path).arg("revert").arg("--no-edit").arg(commit);
    assert(a@ =~= in_dir(path@, seq!["revert"@, "--no-edit"@, commit@]));
    run_only(a)
}

/// The plan of `git_merge`.
pub open spec fn merge_plan(path: Seq<char>, from_ref: Seq<char>) -> PlanView {
    PlanView::Run {
        args: in_dir(path, seq!["merge"@, "--no-edit"@, from_ref]),
        lenient: true,
        keep: false,
        ok: Box::new(PlanView::Output),
        err: Box::new(PlanView::Error),
    }
}

/// Merges another branch. Conflicts are no error: all that git prints is the
/// result either way.
pub fn git_merge(path: &str, from_ref: &str) -> (r: Plan)
    ensures
        r@ == merge_plan(path@, from_ref@),
{
    let a = Args::in_dir(path).arg("merge").arg("--no-edit").arg(from_ref);
    assert(a@ =~= in_dir(path@, seq!["merge"@, "--no-edit"@, from_ref@]));
    let r = Plan::Run {
        args: a.done(),
        lenient: true,
        keep: false,
        ok: Box::new(Plan::Output),
        err: Box::new(Plan::Error),
    };
    proof {
        reveal_with_fuel(Plan::meaning, 2);
    }
    r
}

/// The plan of `git_merge_abort`.
pub open spec fn merge_abort_plan(path: Seq<char>) -> PlanView {
    only(in_dir(path, seq!["merge"@, "--abort"@]))
}

/// Gives up a merge.
pub fn git_merge_abort(path: &str) -> (r: Plan)
    ensures
        r@ == merge_abort_plan(path@),
{
    let a = Args::in_dir(path).arg("merge").arg("--abort");
    assert(a@ =~= in_dir(path@, seq!["merge"@, "--abort"@]));
    run_only(a)
}

/// The option that takes one side of a conflict.
pub open spec fn side_flag(side: Seq<char>) -> Seq<char> {
    if side == "theirs"@ {
        "--theirs"@
    } else {
        "--ours"@
    }
}

/// The plan of `git_resolve_conflict`.
pub open spec fn resolve_conflict_plan(path: Seq<char>, file: Seq<char>, side: Seq<char>) -> PlanView {
    then_run(
        in_dir(path, seq!["checkout"@, side_flag(side), "--"@, file]),
        only(in_dir(path, seq!["add"@, "--"@, file])),
    )
}

/// Takes one side of a conflict and stages it.
pub fn git_resolve_conflict(path: &str, file: &str, side: &str) -> (r: Plan)
    ensures
        r@ == resolve_conflict_plan(path@, file@, side@),
{
    let flag = if same(side, "theirs") {
        "--theirs"
    } else {
        "--ours"
    };
    let a = Args::in_dir(path).arg("checkout").arg(flag).arg("--").arg(file);
    assert(a@ =~= in_dir(path@, seq!["checkout"@, side_flag(side@), "--"@, file@]));
    run_either(a, git_add(path, file), Plan::Error)
}

/// The probe whether a name is a commit.
pub open spec fn verify_args(path: Seq<char>, name: Seq<char>) -> Seq<Seq<char>> {
    in_dir(path, seq!["rev-parse"@, "--verify"@, "--quiet"@, name + "^{commit}"@])
}

/// A new branch that begins at another one: with tracking where that can be set
/// up, else without. When neither can be made, the first complaint counts.
pub open spec fn track_plan(path: Seq<char>, local: Seq<char>, start: Seq<char>) -> PlanView {
    PlanView::Run {
        args: in_dir(path, seq!["checkout"@, "-b"@, local, "--track"@, start]),
        lenient: false,
        keep: true,
        ok: Box::new(PlanView::Output),
        err: Box::new(
            either(
                in_dir(path, seq!["checkout"@, "-b"@, local, start]),
                PlanView::Output,
                PlanView::Kept,
            ),
        ),
    }
}

/// The probes of the branches that may be meant, from the one at `i` on; the
/// complaint that was kept counts when none is there.
pub open spec fn try_remotes(
    path: Seq<char>,
    name: Seq<char>,
    candidates: Seq<Seq<char>>,
    i: int,
) -> PlanView
    decreases candidates.len() - i,
{
    if i < 0 || i >= candidates.len() {
        PlanView::Kept
    } else {
        either(
            verify_args(path, candidates[i]),
            track_plan(path, name, candidates[i]),
            try_remotes(path, name, candidates, i + 1),
        )
    }
}

/// The remote branches that may be meant by a name.
pub open spec fn remote_candidates(name: Seq<char>) -> Seq<Seq<char>> {
    let origin = "origin/"@ + name;
    if name.contains('/') {
        seq![name, origin]
    } else {
        seq![origin]
    }
}

/// The plain switch to a branch, and what is tried when it fails.
pub open spec fn plain_plan(path: Seq<char>, name: Seq<char>) -> PlanView {
    PlanView::Run {
        args: in_dir(path, seq!["checkout"@, name]),
        lenient: false,
        keep: true,
        ok: Box::new(PlanView::Output),
        err: Box::new(try_remotes(path, name, remote_candidates(name), 0)),
    }
}

/// What follows the first slash of a name.
pub open spec fn after_slash(name: Seq<char>) -> Seq<char> {
    name.skip(position(name, '/') + 1)
}

/// The switch to a branch.
pub open spec fn checkout_plan(path: Seq<char>, name: Seq<char>, create: Option<bool>) -> PlanView {
    if name.len() == 0 || contains(name, ".."@) || name[0] == '-' {
        PlanView::Refusal("Invalid branch name"@)
    } else if create == Some(true) {
        only(in_dir(path, seq!["checkout"@, "-b"@, name]))
    } else if name.contains('/') && after_slash(name).len() > 0 {
        either(
            verify_args(path, "refs/remotes/"@ + name),
            track_plan(path, after_slash(name), name),
            plain_plan(path, name),
        )
    } else if name.contains('/') {
        either(
            verify_args(path, "refs/remotes/"@ + name),
            plain_plan(path, name),
            plain_plan(path, name),
        )
    } else {
        plain_plan(path, name)
    }
}

fn verify_run(path: &str, name: &str) -> (r: Args)
    ensures
        r@ == verify_args(path@, name@),
{
    let commit = cat2(name, "^{commit}");
    let a = Args::in_dir(path).arg("rev-parse").arg("--verify").arg("--quiet").arg(
        commit.as_str(),
    );
    assert(a@ =~= verify_args(path@, name@));
    a
}

fn track_from(path: &str, local: &str, start: &str) -> (r: Plan)
    ensures
        r@ == track_plan(path@, local@, start@),
{
    let a = Args::in_dir(path).arg("checkout").arg("-b").arg(local).arg("--track").arg(start);
    assert(a@ =~= in_dir(path@, seq!["checkout"@, "-b"@, local@, "--track"@, start@]));
    let b = Args::in_dir(path).arg("checkout").arg("-b").arg(local).arg(start);
    assert(b@ =~= in_dir(path@, seq!["checkout"@, "-b"@, local@, start@]));
    run_keeping(a, Plan::Output, run_either(b, Plan::Output, Plan::Kept))
}

fn plain_checkout(path: &str, name: &str) -> (r: Plan)
    ensures
        r@ == plain_plan(path@, name@),
{
    let chars = chars_of(name);
    let origin = cat2("origin/", name);
    let last = run_either(
        verify_run(path, origin.as_str()),
        track_from(path, name, origin.as_str()),
        Plan::Kept,
    );
    let ghost c = remote_candidates(name@);
    let tried = if has_char(chars.as_slice(), '/') {
        proof {
            assert(try_remotes(path@, name@, c, 2) == PlanView::Kept);
            assert(try_remotes(path@, name@, c, 1) == last@);
        }
        run_either(verify_run(path, name), track_from(path, name, name), last)
    } else {
        proof {
            assert(try_remotes(path@, name@, c, 1) == PlanView::Kept);
        }
        last
    };
    assert(tried@ == try_remotes(path@, name@, c, 0));
    let a = Args::in_dir(path).arg("checkout").arg(name);
    assert(a@ =~= in_dir(path@, seq!["checkout"@, name@]));
    run_keeping(a, Plan::Output, tried)
}

/// Switches to a branch, or makes it. The name of a remote branch makes a local
/// one that tracks it.
pub fn git_checkout_branch(path: &str, name: &str, create: Option<bool>) -> (r: Plan)
    ensures
        r@ == checkout_plan(path@, trim(name@), create),
{
    let name = trim_text(name);
    let chars = chars_of(name.as_str());
    if chars.len() == 0 || holds(chars.as_slice(), "..") || chars[0] == '-' {
        return Plan::Refusal("Invalid branch name".to_owned());
    }
    let made = match create {
        Some(b) => b,
        None => false,
    };
    if made {
        let a = Args::in_dir(path).arg("checkout").arg("-b").arg(name.as_str());
        assert(a@ =~= in_dir(path@, seq!["checkout"@, "-b"@, name@]));
        return run_only(a);
    }
    if has_char(chars.as_slice(), '/') {
        let full = cat2("refs/remotes/", name.as_str());
        let at = position_of(chars.as_slice(), '/');
        proof {
            crate::text::lemma_position(name@, '/');
        }
        let rest = slice_subrange(chars.as_slice(), at + 1, chars.len());
        assert(rest@ =~= after_slash(name@));
        if rest.len() > 0 {
            let local = string_of(rest);
            return run_either(
                verify_run(path, full.as_str()),
                track_from(path, local.as_str(), name.as_str()),
                plain_checkout(path, name.as_str()),
            );
        }
        return run_either(
            verify_run(path, full.as_str()),
            plain_checkout(path, name.as_str()),
            plain_checkout(path, name.as_str()),
        );
    }
    plain_checkout(path, name.as_str())
}

/// A run whose result is the plan's comes to what it printed where git exits well, or where
/// that does not matter, and else to what it complained of.
pub proof fn runs_end_plans_with_their_result(args: Seq<Seq<char>>, kept: Seq<char>, o: OutcomeView)
    ensures
        match git_result(o) {
            Ok(t) => resumed(only(args), kept, o).0 == PlanView::Text(t),
            Err(e) => resumed(only(args), kept, o).0 == PlanView::Refusal(e),
        },
        resumed(only(args), kept, o).1 == kept,
{
}

/// A plan goes on by whether its run complains. A complaint is kept only where that is asked
/// for, and a plan that ends with the complaint that was kept is refused for that.
pub proof fn plans_go_on_by_their_runs(
    args: Seq<Seq<char>>,
    lenient: bool,
    keep: bool,
    ok: PlanView,
    err: PlanView,
    kept: Seq<char>,
    o: OutcomeView,
)
    ensures
        ({
            let p = PlanView::Run { args, lenient, keep, ok: Box::new(ok), err: Box::new(err) };
            let (q, k) = resumed(p, kept, o);
            let result = if lenient {
                lenient_result(o)
            } else {
                git_result(o)
            };
            match result {
                Ok(t) => {
                    &&& k == kept
                    &&& ok is Run || ok is Text || ok is Refusal || ok is Delete ==> q == ok
                    &&& ok is Output || ok is Error ==> q == PlanView::Text(t)
                    &&& ok is Kept ==> q == PlanView::Refusal(kept)
                },
                Err(e) => {
                    &&& keep ==> k == e
                    &&& !keep ==> k == kept
                    &&& err is Run || err is Text || err is Refusal || err is Delete ==> q == err
                    &&& err is Output || err is Error ==> q == PlanView::Refusal(e)
                    &&& err is Kept ==> q == PlanView::Refusal(k)
                },
            }
        }),
{
}

} // verus!
