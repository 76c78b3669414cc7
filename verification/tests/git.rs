use noide::git::log::{
    branches_to_json, finish_branches, finish_log, finish_stashes, git_branch_list, git_log,
    git_stash_list, log_to_json, read_branches, read_log, read_stashes, stashes_to_json,
    GitBranches, GitCommitInfo, GitStashInfo,
};
use noide::git::plan::{
    discard_failure, discard_path, discard_removal, get_git_diff, get_git_head_file,
    get_git_staged_diff,
    git_add, git_checkout_branch, git_commit, git_commit_diff, git_discard, git_discard_all,
    git_fetch, git_init, git_merge, git_merge_abort, git_pull, git_push, git_resolve_conflict,
    git_revert, git_show_index, git_stage_all, git_stash, git_stash_pop, git_undo_commit,
    git_unstage, git_unstage_all, resume, Plan, Removal,
};
use noide::git::query::{Ending, Query};
use noide::git::run::{run_command, run_git, run_git_lenient};
use noide::git::status::{
    can_read_head, can_read_status, finish_status, get_git_status, parse_branch_head,
    parse_numstat, read_status, status_to_json, GitFileStat,
};
use noide::json::{Fields, Json};
use noide::path::Platform;
use noide::process::ProcessOutcome;

fn exited(success: bool, out: &str, err: &str) -> ProcessOutcome {
    ProcessOutcome::Exited {
        success,
        code: Some(if success { 0 } else { 1 }),
        stdout: out.as_bytes().to_vec(),
        stderr: err.as_bytes().to_vec(),
    }
}

fn ok(out: &str) -> ProcessOutcome {
    exited(true, out, "")
}

fn bad(err: &str) -> ProcessOutcome {
    exited(false, "", err)
}

fn texts(v: &[&str]) -> Vec<String> {
    v.iter().map(|s| s.to_string()).collect()
}

/// The arguments of the next run of a plan, without those that choose the
/// directory.
fn args(plan: &Plan) -> Vec<String> {
    match plan {
        Plan::Run { args, .. } => {
            assert_eq!(args[..2].to_vec(), texts(&["-C", "/r"]));
            args[2..].to_vec()
        }
        other => panic!("{:?}", other),
    }
}

/// Plays a plan with the given outcomes, and gives the runs that were made and
/// what it came to.
fn play(plan: Plan, outcomes: Vec<ProcessOutcome>) -> (Vec<String>, Plan) {
    let mut runs = Vec::new();
    let mut plan = plan;
    let mut kept = String::new();
    for o in outcomes {
        runs.push(args(&plan).join(" "));
        let (next, k) = resume(plan, kept, &o);
        plan = next;
        kept = k;
    }
    (runs, plan)
}

fn text(s: &str) -> Plan {
    Plan::Text(s.to_string())
}

fn refusal(s: &str) -> Plan {
    Plan::Refusal(s.to_string())
}

#[test]
fn runs_of_git_are_read() {
    assert_eq!(run_git(&exited(true, " a\n", "b \n")), Ok("a\nb".to_string()));
    assert_eq!(run_git(&exited(false, "out", " err \n")), Err("err".to_string()));
    assert_eq!(run_git(&exited(false, " out ", "")), Err("out".to_string()));
    let missing = "Failed to run git: gone".to_string();
    assert_eq!(run_git(&ProcessOutcome::NotFound("gone".to_string())), Err(missing.clone()));
    assert_eq!(run_git(&ProcessOutcome::Failed("gone".to_string())), Err(missing.clone()));
    assert_eq!(run_git_lenient(&exited(false, "a", "b")), Ok("ab".to_string()));
    assert_eq!(run_git_lenient(&ProcessOutcome::Failed("gone".to_string())), Err(missing));
}

#[test]
fn runs_of_a_command_line_are_read() {
    assert_eq!(run_command(&exited(false, "a\n", "")), Ok("a\n".to_string()));
    assert_eq!(run_command(&exited(true, "a", "b")), Ok("a\nb".to_string()));
    assert_eq!(
        run_command(&ProcessOutcome::NotFound("x".to_string())),
        Err("Failed to execute command: x".to_string())
    );
    let raw = ProcessOutcome::Exited {
        success: true,
        code: Some(0),
        stdout: vec![0xc3, 40],
        stderr: vec![],
    };
    assert_eq!(run_command(&raw), Ok("\u{fffd}(".to_string()));
}

#[test]
fn simple_commands_are_one_run() {
    let run = |p: Plan| args(&p).join(" ");
    assert_eq!(run(git_init("/r")), "init");
    assert_eq!(run(get_git_diff("/r", "f")), "diff --no-color -- f");
    assert_eq!(run(get_git_staged_diff("/r", "f")), "diff --cached --no-color -- f");
    assert_eq!(run(get_git_head_file("/r", "f")), "show HEAD:f");
    assert_eq!(run(git_add("/r", "f")), "add -- f");
    assert_eq!(run(git_stage_all("/r")), "add -A .");
    assert_eq!(run(git_undo_commit("/r")), "reset --soft HEAD~1");
    assert_eq!(run(git_stash("/r")), "stash push -u -m WIP from NoIDE");
    assert_eq!(run(git_stash_pop("/r")), "stash pop");
    assert_eq!(run(git_push("/r")), "push");
    assert_eq!(run(git_fetch("/r")), "fetch --all --prune");
    assert_eq!(run(git_pull("/r")), "pull");
    assert_eq!(run(git_revert("/r", "c")), "revert --no-edit c");
    assert_eq!(run(git_merge_abort("/r")), "merge --abort");
    assert_eq!(play(git_push("/r"), vec![ok("done")]).1, text("done"));
    assert_eq!(play(git_push("/r"), vec![bad("no")]).1, refusal("no"));
}

#[test]
fn an_unstaged_file_reads_as_empty() {
    let (runs, end) = play(git_show_index("/r", "f"), vec![bad("fatal")]);
    assert_eq!(runs, texts(&["show :f"]));
    assert_eq!(end, text(""));
    assert_eq!(play(git_show_index("/r", "f"), vec![ok("x")]).1, text("x"));
}

#[test]
fn unstaging_falls_back_where_there_is_no_commit() {
    let (runs, end) = play(git_unstage("/r", "f"), vec![bad("no HEAD"), ok("rm f")]);
    assert_eq!(runs, texts(&["reset HEAD -- f", "rm --cached -- f"]));
    assert_eq!(end, text("rm f"));
    let (runs, end) = play(git_unstage_all("/r"), vec![bad("no HEAD"), bad("none")]);
    assert_eq!(runs, texts(&["reset HEAD", "rm -r --cached ."]));
    assert_eq!(end, refusal("none"));
    assert_eq!(play(git_unstage_all("/r"), vec![ok("")]).1, text(""));
}

#[test]
fn discarding_checks_out_or_deletes() {
    let (runs, end) = play(git_discard("/r", "f"), vec![ok("f"), ok("done")]);
    assert_eq!(runs, texts(&["ls-files --error-unmatch -- f", "checkout -- f"]));
    assert_eq!(end, text("done"));
    let (_, end) = play(git_discard("/r", "d/f"), vec![bad("unknown")]);
    assert_eq!(end, Plan::Delete { dir: "/r".to_string(), file: "d/f".to_string() });
    assert_eq!(discard_path(Platform::Unix, "/r", "d/f"), "/r/d/f");
    assert_eq!(discard_path(Platform::Windows, r"C:\r", "d/f"), r"C:\r\d/f");
    assert_eq!(discard_removal("d/", false, false), Removal::Tree);
    assert_eq!(discard_removal("d", true, false), Removal::Tree);
    assert_eq!(discard_removal("f", false, true), Removal::File);
    assert_eq!(discard_removal("f", false, false), Removal::Nothing);
    assert_eq!(discard_failure("f", "busy"), "Failed to delete f: busy");
}

#[test]
fn discarding_everything_depends_on_a_commit() {
    let (runs, end) =
        play(git_discard_all("/r"), vec![ok("x"), ok(""), ok(""), ok("Removing a")]);
    assert_eq!(
        runs,
        texts(&["rev-parse --verify --quiet HEAD", "reset", "reset --hard HEAD", "clean -fd"])
    );
    assert_eq!(end, text("Removing a"));
    let (runs, end) = play(git_discard_all("/r"), vec![bad(""), ok(""), ok("")]);
    assert_eq!(runs, texts(&["rev-parse --verify --quiet HEAD", "reset", "clean -fd"]));
    assert_eq!(end, text(""));
    assert_eq!(play(git_discard_all("/r"), vec![ok(""), bad("locked")]).1, refusal("locked"));
}

#[test]
fn a_commit_may_be_amended() {
    let run = |m: &str, a| args(&git_commit("/r", m, a));
    assert_eq!(run("m s", None), texts(&["commit", "-m", "m s"]));
    assert_eq!(run("m", Some(false)), texts(&["commit", "-m", "m"]));
    assert_eq!(run("m", Some(true)), texts(&["commit", "--amend", "-m", "m"]));
    assert_eq!(run(" ", Some(true)), texts(&["commit", "--amend", "--no-edit"]));
}

#[test]
fn what_could_be_an_option_is_no_commit() {
    assert_eq!(git_commit_diff("/r", " -x "), refusal("Invalid commit"));
    assert_eq!(git_commit_diff("/r", "  "), refusal("Invalid commit"));
    assert_eq!(
        args(&git_commit_diff("/r", " abc ")),
        texts(&["show", "--no-color", "--no-ext-diff", "abc"])
    );
}

#[test]
fn conflicts_of_a_merge_are_no_error() {
    let (runs, end) = play(git_merge("/r", "dev"), vec![exited(false, "CONFLICT", " f\n")]);
    assert_eq!(runs, texts(&["merge --no-edit dev"]));
    assert_eq!(end, text("CONFLICT f"));
}

#[test]
fn a_side_of_a_conflict_is_taken_and_staged() {
    let (runs, _) = play(git_resolve_conflict("/r", "f", "theirs"), vec![ok(""), ok("")]);
    assert_eq!(runs, texts(&["checkout --theirs -- f", "add -- f"]));
    let (runs, end) = play(git_resolve_conflict("/r", "f", "other"), vec![bad("no")]);
    assert_eq!(runs, texts(&["checkout --ours -- f"]));
    assert_eq!(end, refusal("no"));
}

#[test]
fn branch_names_are_checked() {
    for name in ["", "  ", "a..b", "-f"] {
        assert_eq!(git_checkout_branch("/r", name, None), refusal("Invalid branch name"));
    }
    assert_eq!(
        args(&git_checkout_branch("/r", " new ", Some(true))),
        texts(&["checkout", "-b", "new"])
    );
}

#[test]
fn a_plain_branch_is_switched_to() {
    let (runs, end) = play(git_checkout_branch("/r", "dev", None), vec![ok("Switched")]);
    assert_eq!(runs, texts(&["checkout dev"]));
    assert_eq!(end, text("Switched"));
}

#[test]
fn a_branch_of_the_remote_is_tracked() {
    let (runs, end) =
        play(git_checkout_branch("/r", "dev", Some(false)), vec![bad("nope"), ok("1"), ok("T")]);
    assert_eq!(
        runs,
        texts(&[
            "checkout dev",
            "rev-parse --verify --quiet origin/dev^{commit}",
            "checkout -b dev --track origin/dev",
        ])
    );
    assert_eq!(end, text("T"));
    let (_, end) = play(git_checkout_branch("/r", "dev", None), vec![bad("nope"), bad("")]);
    assert_eq!(end, refusal("nope"));
}

#[test]
fn a_remote_branch_makes_a_local_one() {
    let (runs, end) =
        play(git_checkout_branch("/r", "origin/a/b", None), vec![ok("1"), bad("t"), bad("u")]);
    assert_eq!(
        runs,
        texts(&[
            "rev-parse --verify --quiet refs/remotes/origin/a/b^{commit}",
            "checkout -b a/b --track origin/a/b",
            "checkout -b a/b origin/a/b",
        ])
    );
    assert_eq!(end, refusal("t"));
}

#[test]
fn a_name_with_a_slash_may_be_local() {
    let (runs, end) = play(
        git_checkout_branch("/r", "x/y", None),
        vec![bad(""), bad("plain"), bad(""), ok("1"), ok("made")],
    );
    assert_eq!(
        runs,
        texts(&[
            "rev-parse --verify --quiet refs/remotes/x/y^{commit}",
            "checkout x/y",
            "rev-parse --verify --quiet x/y^{commit}",
            "rev-parse --verify --quiet origin/x/y^{commit}",
            "checkout -b x/y --track origin/x/y",
        ])
    );
    assert_eq!(end, text("made"));
    let (runs, _) = play(git_checkout_branch("/r", "x/", None), vec![ok(""), ok("")]);
    assert_eq!(runs[1], "checkout x/");
}

#[test]
fn heads_of_a_status_are_read() {
    let head = |s: &str| parse_branch_head(s);
    assert_eq!(head("## main"), ("main".to_string(), 0, 0));
    assert_eq!(
        head("## main...origin/main [ahead 2, behind 13]"),
        ("main".to_string(), 2, 13)
    );
    assert_eq!(head("## main...origin/main [gone]"), ("main".to_string(), 0, 0));
    assert_eq!(head("## No commits yet on trunk"), ("trunk".to_string(), 0, 0));
    assert_eq!(head("## x [behind z]"), ("x [behind z]".to_string(), 0, 0));
    assert_eq!(head(""), (String::new(), 0, 0));
    assert!(can_read_head("## a [b]"));
    assert!(!can_read_head("## a ]b["));
}

#[test]
fn line_counts_are_read() {
    let m = parse_numstat("1\t2\ta\n-\t-\tb.png\nx\n3\t4\tc d \n5\t6\ta\n");
    assert_eq!(m.len(), 3);
    assert_eq!(m.get("a"), Some(&GitFileStat { insertions: 5, deletions: 6 }));
    assert_eq!(m.get("b.png"), Some(&GitFileStat { insertions: 0, deletions: 0 }));
    assert_eq!(m.get("c d"), Some(&GitFileStat { insertions: 3, deletions: 4 }));
}

fn outputs(status: &str, unmerged: &str) -> Vec<String> {
    texts(&["true", status, unmerged, "1\t0\tm", "0\t9\ts"])
}

#[test]
fn a_status_sorts_its_files() {
    let s = read_status(&outputs(
        "## main...o/main [ahead 1]\nM  s\n M m\nMM both\n?? new\n D gone\nD  out\nAD odd\nR  a -> b\nxx\nUU c\n",
        "c\n\n",
    ));
    assert_eq!(s.branch, "main");
    assert_eq!((s.ahead, s.behind), (1, 0));
    assert_eq!(s.staged, texts(&["s", "both", "out", "odd", "a -> b"]));
    assert_eq!(s.modified, texts(&["m", "both"]));
    assert_eq!(s.untracked, texts(&["new"]));
    assert_eq!(s.deleted, texts(&["gone", "out", "odd"]));
    assert_eq!(s.unmerged, texts(&["c"]));
    assert_eq!(s.staged_details.get("a -> b"), Some(&'R'));
    assert_eq!(s.staged_details.get("s"), Some(&'M'));
    assert_eq!(s.staged_details.get("c"), Some(&'M'));
    assert_eq!(s.worktree_details.get("c"), Some(&'U'));
    assert_eq!(s.worktree_details.get("new"), Some(&'U'));
    assert_eq!(s.worktree_details.get("odd"), Some(&'D'));
    assert_eq!(s.worktree_details.get("m"), Some(&'M'));
    assert_eq!(s.worktree_stats.get("m"), Some(&GitFileStat { insertions: 1, deletions: 0 }));
    assert_eq!(s.staged_stats.get("s"), Some(&GitFileStat { insertions: 0, deletions: 9 }));
}

#[test]
fn conflicts_are_not_told_twice() {
    let s = read_status(&outputs("## m\nUU c\nAA d\n", "c\nd"));
    assert!(s.staged.is_empty());
    assert!(s.modified.is_empty());
    assert!(s.untracked.is_empty());
    assert!(s.deleted.is_empty());
    assert_eq!(s.unmerged, texts(&["c", "d"]));
}

#[test]
fn a_status_that_cannot_be_cut_is_found_out() {
    assert!(can_read_status("## main\n M \u{e9}"));
    assert!(!can_read_status("## main\nab\u{e9}x"));
    assert!(can_read_status("## main\n\u{e9}x"));
    assert!(can_read_status(""));
}

fn ask(mut q: Query, answers: Vec<ProcessOutcome>) -> (Vec<String>, Query) {
    let mut runs = Vec::new();
    for a in answers {
        runs.push(q.next().unwrap()[2..].join(" "));
        q.answer(&a);
    }
    (runs, q)
}

#[test]
fn the_status_takes_five_runs() {
    let (runs, q) = ask(
        get_git_status("/r"),
        vec![ok("true"), ok("## main\n?? x"), bad("e"), ok(""), ok("")],
    );
    assert_eq!(
        runs,
        texts(&[
            "rev-parse --is-inside-work-tree",
            "status -b --porcelain",
            "diff --name-only --diff-filter=U",
            "diff --numstat",
            "diff --cached --numstat",
        ])
    );
    assert!(q.next().is_none());
    assert_eq!(q.outputs()[2], "");
    let s = finish_status(&q).unwrap();
    assert_eq!(s.untracked, texts(&["x"]));
    let v = status_to_json(&s);
    assert_eq!(v.get("branch"), Some(&Json::Str("main".to_string())));
    assert_eq!(v.get("untracked"), Some(&Json::Array(vec![Json::Str("x".to_string())])));
    assert_eq!(
        v.get("worktreeDetails"),
        Some(&Fields::new().text("x", "U").object())
    );
}

#[test]
fn a_status_needs_a_repository() {
    let (_, q) = ask(get_git_status("/r"), vec![bad("fatal: not a repo")]);
    assert_eq!(q.ended(), &Some(Ending::Refused("not a git repository".to_string())));
    assert_eq!(finish_status(&q), Err("not a git repository".to_string()));
    let (_, q) = ask(get_git_status("/r"), vec![ProcessOutcome::NotFound("x".to_string())]);
    assert_eq!(finish_status(&q), Err("Failed to run git: x".to_string()));
    let (_, q) = ask(get_git_status("/r"), vec![ok("true"), bad("broken")]);
    assert_eq!(finish_status(&q), Err("broken".to_string()));
}

#[test]
fn commits_are_read_with_their_lines() {
    let log = "@h1\u{1f}s1\u{1f}Ann\u{1f}100\u{1f}first @ all\n1\t2\ta\n-\t-\tb\n3\t0\tc\n\n@h2\u{1f}s2\u{1f}Bob\u{1f}x\u{1f}second\n@broken\n";
    let commits = read_log(log);
    assert_eq!(
        commits,
        vec![
            GitCommitInfo {
                hash: "h1".to_string(),
                short_hash: "s1".to_string(),
                message: "first @ all".to_string(),
                author: "Ann".to_string(),
                time: 100,
                insertions: 4,
                deletions: 2,
            },
            GitCommitInfo {
                hash: "h2".to_string(),
                short_hash: "s2".to_string(),
                message: "second".to_string(),
                author: "Bob".to_string(),
                time: 0,
                insertions: 0,
                deletions: 0,
            },
        ]
    );
    match log_to_json(&commits) {
        Json::Array(v) => {
            assert_eq!(v.len(), 2);
            assert_eq!(v[0].get("shortHash"), Some(&Json::Str("s1".to_string())));
            assert_eq!(v[0].get("insertions"), Some(&Json::Unsigned(4)));
        }
        other => panic!("{:?}", other),
    }
    assert!(read_log("1\t2\tx").is_empty());
}

#[test]
fn the_log_is_empty_where_there_is_no_commit() {
    let (runs, q) = ask(git_log("/r", None), vec![bad("")]);
    assert_eq!(runs, texts(&["rev-parse --verify --quiet HEAD"]));
    assert_eq!(finish_log(&q), Ok(vec![]));
    let (runs, q) = ask(git_log("/r", Some(3)), vec![ok("1"), ok("@h\u{1f}s\u{1f}a\u{1f}1\u{1f}m")]);
    assert!(runs[1].starts_with("log --no-color -3 --pretty=format:@%H\u{1f}%h"));
    assert_eq!(finish_log(&q).unwrap().len(), 1);
    let (runs, q) = ask(git_log("/r", None), vec![ok("1"), bad("broken")]);
    assert!(runs[1].starts_with("log --no-color -50 "));
    assert_eq!(finish_log(&q), Err("broken".to_string()));
}

#[test]
fn stashes_are_read() {
    let all = read_stashes("stash@{0}\u{1f}7\u{1f}WIP\nx\n");
    assert_eq!(
        all,
        vec![GitStashInfo {
            reference: "stash@{0}".to_string(),
            message: "WIP".to_string(),
            time: 7,
        }]
    );
    let one = Fields::new().text("ref", "stash@{0}").text("message", "WIP").number("time", 7);
    assert_eq!(stashes_to_json(&all), Json::Array(vec![one.object()]));
    let (_, q) = ask(git_stash_list("/r"), vec![bad("e")]);
    assert_eq!(finish_stashes(&q), Ok(vec![]));
}

#[test]
fn branches_are_read() {
    let b = read_branches(&texts(&["main\n dev \n\n", "origin/HEAD\norigin/main", " main\n"]));
    assert_eq!(
        b,
        GitBranches {
            current: "main".to_string(),
            branches: texts(&["main", "dev"]),
            remotes: texts(&["origin/main"]),
        }
    );
    assert_eq!(branches_to_json(&b).get("current"), Some(&Json::Str("main".to_string())));
    let (runs, q) = ask(git_branch_list("/r"), vec![ok("a"), bad(""), ok("a")]);
    assert_eq!(runs[1], "for-each-ref --format=%(refname:short) refs/remotes");
    assert_eq!(finish_branches(&q).unwrap().branches, texts(&["a"]));
    let (_, q) = ask(git_branch_list("/r"), vec![bad("no")]);
    assert_eq!(finish_branches(&q), Err("no".to_string()));
}
