use noide::git::log::{git_branch_list, git_log, git_stash_list};
use noide::git::plan::{
    get_git_diff, get_git_head_file, get_git_staged_diff, git_add, git_checkout_branch, git_commit,
    git_commit_diff, git_discard, git_discard_all, git_fetch, git_init, git_merge,
    git_merge_abort, git_pull, git_push, git_resolve_conflict, git_revert, git_show_index,
    git_stage_all, git_stash, git_stash_pop, git_undo_commit, git_unstage, git_unstage_all,
};
use noide::git::status::get_git_status;
use noide::json::{Fields, Json};
use noide::pty::manager::PtyManager;
use noide::ws::connection::{Action, Connection};
use noide::ws::dispatch::decode;
use noide::ws::task::{task, Task};
use noide::ws::tracker::ChatProcessTracker;

fn asked(command: &str, args: Fields) -> Task {
    task(&decode(command, &args.object()).unwrap())
}

fn none() -> Fields {
    Fields::new()
}

fn at(path: &str) -> Fields {
    Fields::new().text("path", path)
}

fn own(s: &str) -> String {
    s.to_string()
}

#[test]
fn commands_on_a_repository_run_their_plan() {
    assert_eq!(asked("git_init", at("/r")), Task::Git(git_init("/r")));
    assert_eq!(asked("git_stage_all", at("/r")), Task::Git(git_stage_all("/r")));
    assert_eq!(asked("git_unstage_all", at("/r")), Task::Git(git_unstage_all("/r")));
    assert_eq!(asked("git_discard_all", at("/r")), Task::Git(git_discard_all("/r")));
    assert_eq!(asked("git_undo_commit", at("/r")), Task::Git(git_undo_commit("/r")));
    assert_eq!(asked("git_stash", at("/r")), Task::Git(git_stash("/r")));
    assert_eq!(asked("git_stash_pop", at("/r")), Task::Git(git_stash_pop("/r")));
    assert_eq!(asked("git_push", at("/r")), Task::Git(git_push("/r")));
    assert_eq!(asked("git_fetch", at("/r")), Task::Git(git_fetch("/r")));
    assert_eq!(asked("git_pull", at("/r")), Task::Git(git_pull("/r")));
    assert_eq!(asked("git_merge_abort", at("/r")), Task::Git(git_merge_abort("/r")));
}

#[test]
fn commands_on_a_file_run_their_plan() {
    let f = || at("/r").text("file", "f");
    assert_eq!(asked("get_git_diff", f()), Task::Git(get_git_diff("/r", "f")));
    assert_eq!(asked("get_git_staged_diff", f()), Task::Git(get_git_staged_diff("/r", "f")));
    assert_eq!(asked("get_git_head_file", f()), Task::Git(get_git_head_file("/r", "f")));
    assert_eq!(asked("git_show_index", f()), Task::Git(git_show_index("/r", "f")));
    assert_eq!(asked("git_add", f()), Task::Git(git_add("/r", "f")));
    assert_eq!(asked("git_unstage", f()), Task::Git(git_unstage("/r", "f")));
    assert_eq!(asked("git_discard", f()), Task::Git(git_discard("/r", "f")));
    assert_eq!(
        asked("git_resolve_conflict", f().text("side", "theirs")),
        Task::Git(git_resolve_conflict("/r", "f", "theirs"))
    );
}

#[test]
fn commands_on_commits_and_branches_run_their_plan() {
    assert_eq!(
        asked("git_commit", at("/r").text("message", "m").flag("amend", true)),
        Task::Git(git_commit("/r", "m", Some(true)))
    );
    assert_eq!(
        asked("git_commit", at("/r").text("message", "m")),
        Task::Git(git_commit("/r", "m", None))
    );
    assert_eq!(
        asked("git_commit_diff", at("/r").text("commit", "abc")),
        Task::Git(git_commit_diff("/r", "abc"))
    );
    assert_eq!(
        asked("git_revert", at("/r").text("commit", "abc")),
        Task::Git(git_revert("/r", "abc"))
    );
    assert_eq!(
        asked("git_merge", at("/r").text("fromRef", "dev")),
        Task::Git(git_merge("/r", "dev"))
    );
    assert_eq!(
        asked("git_checkout_branch", at("/r").text("name", " dev ").flag("create", true)),
        Task::Git(git_checkout_branch("/r", "dev", Some(true)))
    );
}

#[test]
fn questions_to_git_are_asked() {
    assert_eq!(asked("get_git_status", at("/r")), Task::Status(get_git_status("/r")));
    assert_eq!(asked("git_log", at("/r")), Task::Log(git_log("/r", None)));
    assert_eq!(asked("git_log", at("/r").number("limit", 3)), Task::Log(git_log("/r", Some(3))));
    assert_eq!(asked("git_stash_list", at("/r")), Task::Stashes(git_stash_list("/r")));
    assert_eq!(asked("git_branch_list", at("/r")), Task::Branches(git_branch_list("/r")));
}

#[test]
fn commands_on_files_are_passed_on() {
    let fc = || at("/f").text("content", "c");
    let ft = || none().text("from", "a").text("to", "b");
    assert_eq!(asked("get_cwd", none()), Task::GetCwd);
    assert_eq!(asked("read_file", at("/f")), Task::ReadFile(own("/f")));
    assert_eq!(asked("read_file_base64", at("/f")), Task::ReadFileBase64(own("/f")));
    assert_eq!(asked("download_file", at("/f")), Task::DownloadFile(own("/f")));
    assert_eq!(asked("file_exists", at("/f")), Task::FileExists(own("/f")));
    assert_eq!(asked("list_files", at("/f")), Task::ListFiles(own("/f")));
    assert_eq!(
        asked("write_file", fc()),
        Task::WriteFile { path: own("/f"), content: own("c") }
    );
    assert_eq!(
        asked("upload_file", fc()),
        Task::UploadFile { path: own("/f"), content: own("c") }
    );
    assert_eq!(
        asked("create_file", at("/f")),
        Task::CreateFile { path: own("/f"), content: own("") }
    );
    assert_eq!(asked("create_directory", at("/f")), Task::CreateDirectory(own("/f")));
    assert_eq!(asked("rename_entry", ft()), Task::RenameEntry { from: own("a"), to: own("b") });
    assert_eq!(asked("copy_entry", ft()), Task::CopyEntry { from: own("a"), to: own("b") });
    assert_eq!(asked("delete_entry", at("/f")), Task::DeleteEntry(own("/f")));
    assert_eq!(
        asked("read_directory", at("/f").number("maxDepth", 2)),
        Task::ReadDirectory { path: own("/f"), max_depth: Some(2) }
    );
    assert_eq!(
        asked("extract_zip", none().text("zipContent", "z").text("destDir", "d")),
        Task::ExtractZip { content: own("z"), dest: own("d") }
    );
    assert_eq!(
        asked("search_in_files", at("/f").text("query", "q").flag("regex", true)),
        Task::SearchInFiles {
            path: own("/f"),
            query: own("q"),
            case_sensitive: None,
            whole_word: None,
            regex: Some(true),
        }
    );
}

#[test]
fn other_commands_are_passed_on() {
    assert_eq!(
        asked("run_command", none().text("command", "ls")),
        Task::RunCommand(own("ls"))
    );
    assert_eq!(
        asked("chat_models", none().text("agent", "kilo")),
        Task::ChatModels { agent: own("kilo"), api_key: own("") }
    );
    assert_eq!(
        asked("chat_check_install", none().text("command", "kilo")),
        Task::CheckInstall(own("kilo"))
    );
}

#[test]
fn a_connection_leaves_tasks_to_others() {
    let mut c = Connection::new();
    let mut mgr = PtyManager::new();
    let mut tracker = ChatProcessTracker::new();
    let call = decode("read_file", &at("/f").object()).unwrap();
    let action = c.handle(&call, 1, &mut mgr, &mut tracker, 0);
    assert_eq!(action, Action::Run { task: Task::ReadFile(own("/f")), reply: None });
    let call = decode("ping", &Json::Null).unwrap();
    let action = c.handle(&call, 2, &mut mgr, &mut tracker, 0);
    assert_eq!(action, Action::Reply(Fields::new().flag("pong", true).object()));
}
