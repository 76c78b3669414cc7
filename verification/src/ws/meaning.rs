//! What requests come to, told from the fields of their arguments.

use vstd::prelude::*;
use vstd::utf8::encode_utf8;

use crate::chat::attachments::{described_attachments, AttachmentView};
use crate::git::log::log_steps;
use crate::git::plan::{try_remotes, PlanView};
use crate::git::query::{Policy, QueryView};
use crate::json::JsonView;
use crate::text::{contains, decimal, position, trim};
use crate::ws::connection::{ActionView, World};
use crate::ws::dispatch::{call_of, op_named, read_params, Op};
use crate::ws::task::TaskView;

verus! {

/// The text in a field, when there is one.
pub open spec fn text_in(args: JsonView, key: Seq<char>) -> Option<Seq<char>> {
    match args.get(key) {
        Some(JsonView::Str(s)) => Some(s),
        _ => None,
    }
}

/// The number in a field, when there is one that is not negative and at most
/// `max`.
pub open spec fn number_in(args: JsonView, key: Seq<char>, max: u64) -> Option<u64> {
    match args.get(key) {
        Some(JsonView::Unsigned(n)) => if n <= max {
            Some(n)
        } else {
            None
        },
        _ => None,
    }
}

/// The flag in a field, when there is one.
pub open spec fn flag_in(args: JsonView, key: Seq<char>) -> Option<bool> {
    match args.get(key) {
        Some(JsonView::Bool(b)) => Some(b),
        _ => None,
    }
}

/// How many commits are asked for.
pub open spec fn limit_in(args: JsonView) -> nat {
    match number_in(args, "limit"@, usize::MAX as u64) {
        Some(n) => n as nat,
        None => 50,
    }
}

/// What is to be done for a request with a command and its arguments, unless it
/// is refused for them.
pub open spec fn asked(w: World, command: Seq<char>, args: JsonView, request: u64) -> Option<
    ActionView,
> {
    match call_of(command, args) {
        Ok(c) => Some(w.action(c, request)),
        Err(_) => None,
    }
}

/// The world after a request with a command and its arguments.
pub open spec fn asked_after(w: World, command: Seq<char>, args: JsonView, now: u64) -> World {
    match call_of(command, args) {
        Ok(c) => w.after(c, now),
        Err(_) => w,
    }
}

/// A task of which the client is told what it gives.
pub open spec fn telling(task: TaskView) -> Option<ActionView> {
    Some(ActionView::Run { task, reply: None })
}

/// A task of which the client is told nothing but that it is done.
pub open spec fn doing(task: TaskView) -> Option<ActionView> {
    Some(ActionView::Run { task, reply: Some(JsonView::Null) })
}

/// The arguments of git in a directory.
pub open spec fn at(path: Seq<char>, args: Seq<Seq<char>>) -> Seq<Seq<char>> {
    seq!["-C"@, path] + args
}

/// A run of git whose complaint fails it, after which it goes on either way.
pub open spec fn git_run(args: Seq<Seq<char>>, ok: PlanView, err: PlanView) -> PlanView {
    PlanView::Run { args, lenient: false, keep: false, ok: Box::new(ok), err: Box::new(err) }
}

/// A run of git that gives what it prints.
pub open spec fn git_only(args: Seq<Seq<char>>) -> PlanView {
    git_run(args, PlanView::Output, PlanView::Error)
}

/// A task that is one run of git and gives what that prints.
pub open spec fn git(args: Seq<Seq<char>>) -> Option<ActionView> {
    telling(TaskView::Git(git_only(args)))
}


proof fn lemma_name_lengths()
    ensures
        "pty_spawn"@.len() == 9,
        "pty_attach"@.len() == 10,
        "pty_write"@.len() == 9,
        "pty_resize"@.len() == 10,
        "pty_kill"@.len() == 8,
        "pty_detach"@.len() == 10,
        "ping"@.len() == 4,
        "connection_stats"@.len() == 16,
        "run_command"@.len() == 11,
        "get_git_status"@.len() == 14,
        "git_undo_commit"@.len() == 15,
        "git_stash_list"@.len() == 14,
        "git_stash"@.len() == 9,
        "git_stash_pop"@.len() == 13,
        "git_push"@.len() == 8,
        "git_fetch"@.len() == 9,
        "git_pull"@.len() == 8,
        "git_init"@.len() == 8,
        "git_stage_all"@.len() == 13,
        "git_unstage_all"@.len() == 15,
        "git_discard_all"@.len() == 15,
        "git_branch_list"@.len() == 15,
        "git_merge_abort"@.len() == 15,
        "get_git_diff"@.len() == 12,
        "get_git_staged_diff"@.len() == 19,
        "get_git_head_file"@.len() == 17,
        "git_show_index"@.len() == 14,
        "git_add"@.len() == 7,
        "git_unstage"@.len() == 11,
        "git_discard"@.len() == 11,
        "git_commit"@.len() == 10,
        "git_log"@.len() == 7,
        "git_commit_diff"@.len() == 15,
        "git_revert"@.len() == 10,
        "git_checkout_branch"@.len() == 19,
        "git_merge"@.len() == 9,
        "git_resolve_conflict"@.len() == 20,
        "get_cwd"@.len() == 7,
        "read_file"@.len() == 9,
        "read_file_base64"@.len() == 16,
        "file_exists"@.len() == 11,
        "create_directory"@.len() == 16,
        "delete_entry"@.len() == 12,
        "download_file"@.len() == 13,
        "list_files"@.len() == 10,
        "write_file"@.len() == 10,
        "upload_file"@.len() == 11,
        "read_directory"@.len() == 14,
        "create_file"@.len() == 11,
        "rename_entry"@.len() == 12,
        "copy_entry"@.len() == 10,
        "extract_zip"@.len() == 11,
        "search_in_files"@.len() == 15,
        "chat_stream"@.len() == 11,
        "chat_cancel"@.len() == 11,
        "chat_models"@.len() == 11,
        "chat_check_install"@.len() == 18,
{
    reveal_strlit("pty_spawn");
    reveal_strlit("pty_attach");
    reveal_strlit("pty_write");
    reveal_strlit("pty_resize");
    reveal_strlit("pty_kill");
    reveal_strlit("pty_detach");
    reveal_strlit("ping");
    reveal_strlit("connection_stats");
    reveal_strlit("run_command");
    reveal_strlit("get_git_status");
    reveal_strlit("git_undo_commit");
    reveal_strlit("git_stash_list");
    reveal_strlit("git_stash");
    reveal_strlit("git_stash_pop");
    reveal_strlit("git_push");
    reveal_strlit("git_fetch");
    reveal_strlit("git_pull");
    reveal_strlit("git_init");
    reveal_strlit("git_stage_all");
    reveal_strlit("git_unstage_all");
    reveal_strlit("git_discard_all");
    reveal_strlit("git_branch_list");
    reveal_strlit("git_merge_abort");
    reveal_strlit("get_git_diff");
    reveal_strlit("get_git_staged_diff");
    reveal_strlit("get_git_head_file");
    reveal_strlit("git_show_index");
    reveal_strlit("git_add");
    reveal_strlit("git_unstage");
    reveal_strlit("git_discard");
    reveal_strlit("git_commit");
    reveal_strlit("git_log");
    reveal_strlit("git_commit_diff");
    reveal_strlit("git_revert");
    reveal_strlit("git_checkout_branch");
    reveal_strlit("git_merge");
    reveal_strlit("git_resolve_conflict");
    reveal_strlit("get_cwd");
    reveal_strlit("read_file");
    reveal_strlit("read_file_base64");
    reveal_strlit("file_exists");
    reveal_strlit("create_directory");
    reveal_strlit("delete_entry");
    reveal_strlit("download_file");
    reveal_strlit("list_files");
    reveal_strlit("write_file");
    reveal_strlit("upload_file");
    reveal_strlit("read_directory");
    reveal_strlit("create_file");
    reveal_strlit("rename_entry");
    reveal_strlit("copy_entry");
    reveal_strlit("extract_zip");
    reveal_strlit("search_in_files");
    reveal_strlit("chat_stream");
    reveal_strlit("chat_cancel");
    reveal_strlit("chat_models");
    reveal_strlit("chat_check_install");
}

/// No two commands have the same name.
proof fn lemma_names_differ()
    ensures
        "git_add"@ != "git_log"@,
        "git_add"@ != "get_cwd"@,
        "git_log"@ != "get_cwd"@,
        "pty_kill"@ != "git_push"@,
        "pty_kill"@ != "git_pull"@,
        "pty_kill"@ != "git_init"@,
        "git_push"@ != "git_pull"@,
        "git_push"@ != "git_init"@,
        "git_pull"@ != "git_init"@,
        "pty_spawn"@ != "pty_write"@,
        "pty_spawn"@ != "git_stash"@,
        "pty_spawn"@ != "git_fetch"@,
        "pty_spawn"@ != "git_merge"@,
        "pty_spawn"@ != "read_file"@,
        "pty_write"@ != "git_stash"@,
        "pty_write"@ != "git_fetch"@,
        "pty_write"@ != "git_merge"@,
        "pty_write"@ != "read_file"@,
        "git_stash"@ != "git_fetch"@,
        "git_stash"@ != "git_merge"@,
        "git_stash"@ != "read_file"@,
        "git_fetch"@ != "git_merge"@,
        "git_fetch"@ != "read_file"@,
        "git_merge"@ != "read_file"@,
        "pty_attach"@ != "pty_resize"@,
        "pty_attach"@ != "pty_detach"@,
        "pty_attach"@ != "git_commit"@,
        "pty_attach"@ != "git_revert"@,
        "pty_attach"@ != "list_files"@,
        "pty_attach"@ != "write_file"@,
        "pty_attach"@ != "copy_entry"@,
        "pty_resize"@ != "pty_detach"@,
        "pty_resize"@ != "git_commit"@,
        "pty_resize"@ != "git_revert"@,
        "pty_resize"@ != "list_files"@,
        "pty_resize"@ != "write_file"@,
        "pty_resize"@ != "copy_entry"@,
        "pty_detach"@ != "git_commit"@,
        "pty_detach"@ != "git_revert"@,
        "pty_detach"@ != "list_files"@,
        "pty_detach"@ != "write_file"@,
        "pty_detach"@ != "copy_entry"@,
        "git_commit"@ != "git_revert"@,
        "git_commit"@ != "list_files"@,
        "git_commit"@ != "write_file"@,
        "git_commit"@ != "copy_entry"@,
        "git_revert"@ != "list_files"@,
        "git_revert"@ != "write_file"@,
        "git_revert"@ != "copy_entry"@,
        "list_files"@ != "write_file"@,
        "list_files"@ != "copy_entry"@,
        "write_file"@ != "copy_entry"@,
        "run_command"@ != "git_unstage"@,
        "run_command"@ != "git_discard"@,
        "run_command"@ != "file_exists"@,
        "run_command"@ != "upload_file"@,
        "run_command"@ != "create_file"@,
        "run_command"@ != "extract_zip"@,
        "run_command"@ != "chat_stream"@,
        "run_command"@ != "chat_cancel"@,
        "run_command"@ != "chat_models"@,
        "git_unstage"@ != "git_discard"@,
        "git_unstage"@ != "file_exists"@,
        "git_unstage"@ != "upload_file"@,
        "git_unstage"@ != "create_file"@,
        "git_unstage"@ != "extract_zip"@,
        "git_unstage"@ != "chat_stream"@,
        "git_unstage"@ != "chat_cancel"@,
        "git_unstage"@ != "chat_models"@,
        "git_discard"@ != "file_exists"@,
        "git_discard"@ != "upload_file"@,
        "git_discard"@ != "create_file"@,
        "git_discard"@ != "extract_zip"@,
        "git_discard"@ != "chat_stream"@,
        "git_discard"@ != "chat_cancel"@,
        "git_discard"@ != "chat_models"@,
        "file_exists"@ != "upload_file"@,
        "file_exists"@ != "create_file"@,
        "file_exists"@ != "extract_zip"@,
        "file_exists"@ != "chat_stream"@,
        "file_exists"@ != "chat_cancel"@,
        "file_exists"@ != "chat_models"@,
        "upload_file"@ != "create_file"@,
        "upload_file"@ != "extract_zip"@,
        "upload_file"@ != "chat_stream"@,
        "upload_file"@ != "chat_cancel"@,
        "upload_file"@ != "chat_models"@,
        "create_file"@ != "extract_zip"@,
        "create_file"@ != "chat_stream"@,
        "create_file"@ != "chat_cancel"@,
        "create_file"@ != "chat_models"@,
        "extract_zip"@ != "chat_stream"@,
        "extract_zip"@ != "chat_cancel"@,
        "extract_zip"@ != "chat_models"@,
        "chat_stream"@ != "chat_cancel"@,
        "chat_stream"@ != "chat_models"@,
        "chat_cancel"@ != "chat_models"@,
        "get_git_diff"@ != "delete_entry"@,
        "get_git_diff"@ != "rename_entry"@,
        "delete_entry"@ != "rename_entry"@,
        "git_stash_pop"@ != "git_stage_all"@,
        "git_stash_pop"@ != "download_file"@,
        "git_stage_all"@ != "download_file"@,
        "get_git_status"@ != "git_stash_list"@,
        "get_git_status"@ != "git_show_index"@,
        "get_git_status"@ != "read_directory"@,
        "git_stash_list"@ != "git_show_index"@,
        "git_stash_list"@ != "read_directory"@,
        "git_show_index"@ != "read_directory"@,
        "git_undo_commit"@ != "git_unstage_all"@,
        "git_undo_commit"@ != "git_discard_all"@,
        "git_undo_commit"@ != "git_branch_list"@,
        "git_undo_commit"@ != "git_merge_abort"@,
        "git_undo_commit"@ != "git_commit_diff"@,
        "git_undo_commit"@ != "search_in_files"@,
        "git_unstage_all"@ != "git_discard_all"@,
        "git_unstage_all"@ != "git_branch_list"@,
        "git_unstage_all"@ != "git_merge_abort"@,
        "git_unstage_all"@ != "git_commit_diff"@,
        "git_unstage_all"@ != "search_in_files"@,
        "git_discard_all"@ != "git_branch_list"@,
        "git_discard_all"@ != "git_merge_abort"@,
        "git_discard_all"@ != "git_commit_diff"@,
        "git_discard_all"@ != "search_in_files"@,
        "git_branch_list"@ != "git_merge_abort"@,
        "git_branch_list"@ != "git_commit_diff"@,
        "git_branch_list"@ != "search_in_files"@,
        "git_merge_abort"@ != "git_commit_diff"@,
        "git_merge_abort"@ != "search_in_files"@,
        "git_commit_diff"@ != "search_in_files"@,
        "connection_stats"@ != "read_file_base64"@,
        "connection_stats"@ != "create_directory"@,
        "read_file_base64"@ != "create_directory"@,
        "get_git_staged_diff"@ != "git_checkout_branch"@,
{
    reveal_strlit("git_add");
    assert("git_add"@[1] == 'i');
    assert("git_add"@[4] == 'a');
    reveal_strlit("git_log");
    assert("git_log"@[1] == 'i');
    assert("git_log"@[4] == 'l');
    reveal_strlit("get_cwd");
    assert("get_cwd"@[1] == 'e');
    reveal_strlit("pty_kill");
    assert("pty_kill"@[0] == 'p');
    reveal_strlit("git_push");
    assert("git_push"@[0] == 'g');
    assert("git_push"@[4] == 'p');
    assert("git_push"@[6] == 's');
    reveal_strlit("git_pull");
    assert("git_pull"@[0] == 'g');
    assert("git_pull"@[4] == 'p');
    assert("git_pull"@[6] == 'l');
    reveal_strlit("git_init");
    assert("git_init"@[0] == 'g');
    assert("git_init"@[4] == 'i');
    reveal_strlit("pty_spawn");
    assert("pty_spawn"@[0] == 'p');
    assert("pty_spawn"@[4] == 's');
    reveal_strlit("pty_write");
    assert("pty_write"@[0] == 'p');
    assert("pty_write"@[4] == 'w');
    reveal_strlit("git_stash");
    assert("git_stash"@[0] == 'g');
    assert("git_stash"@[4] == 's');
    reveal_strlit("git_fetch");
    assert("git_fetch"@[0] == 'g');
    assert("git_fetch"@[4] == 'f');
    reveal_strlit("git_merge");
    assert("git_merge"@[0] == 'g');
    assert("git_merge"@[4] == 'm');
    reveal_strlit("read_file");
    assert("read_file"@[0] == 'r');
    reveal_strlit("pty_attach");
    assert("pty_attach"@[0] == 'p');
    assert("pty_attach"@[4] == 'a');
    reveal_strlit("pty_resize");
    assert("pty_resize"@[0] == 'p');
    assert("pty_resize"@[4] == 'r');
    reveal_strlit("pty_detach");
    assert("pty_detach"@[0] == 'p');
    assert("pty_detach"@[4] == 'd');
    reveal_strlit("git_commit");
    assert("git_commit"@[0] == 'g');
    assert("git_commit"@[4] == 'c');
    reveal_strlit("git_revert");
    assert("git_revert"@[0] == 'g');
    assert("git_revert"@[4] == 'r');
    reveal_strlit("list_files");
    assert("list_files"@[0] == 'l');
    reveal_strlit("write_file");
    assert("write_file"@[0] == 'w');
    reveal_strlit("copy_entry");
    assert("copy_entry"@[0] == 'c');
    reveal_strlit("run_command");
    assert("run_command"@[0] == 'r');
    reveal_strlit("git_unstage");
    assert("git_unstage"@[0] == 'g');
    assert("git_unstage"@[4] == 'u');
    reveal_strlit("git_discard");
    assert("git_discard"@[0] == 'g');
    assert("git_discard"@[4] == 'd');
    reveal_strlit("file_exists");
    assert("file_exists"@[0] == 'f');
    reveal_strlit("upload_file");
    assert("upload_file"@[0] == 'u');
    reveal_strlit("create_file");
    assert("create_file"@[0] == 'c');
    assert("create_file"@[1] == 'r');
    reveal_strlit("extract_zip");
    assert("extract_zip"@[0] == 'e');
    reveal_strlit("chat_stream");
    assert("chat_stream"@[0] == 'c');
    assert("chat_stream"@[1] == 'h');
    assert("chat_stream"@[5] == 's');
    reveal_strlit("chat_cancel");
    assert("chat_cancel"@[0] == 'c');
    assert("chat_cancel"@[1] == 'h');
    assert("chat_cancel"@[5] == 'c');
    reveal_strlit("chat_models");
    assert("chat_models"@[0] == 'c');
    assert("chat_models"@[1] == 'h');
    assert("chat_models"@[5] == 'm');
    reveal_strlit("get_git_diff");
    assert("get_git_diff"@[0] == 'g');
    reveal_strlit("delete_entry");
    assert("delete_entry"@[0] == 'd');
    reveal_strlit("rename_entry");
    assert("rename_entry"@[0] == 'r');
    reveal_strlit("git_stash_pop");
    assert("git_stash_pop"@[0] == 'g');
    assert("git_stash_pop"@[7] == 's');
    reveal_strlit("git_stage_all");
    assert("git_stage_all"@[0] == 'g');
    assert("git_stage_all"@[7] == 'g');
    reveal_strlit("download_file");
    assert("download_file"@[0] == 'd');
    reveal_strlit("get_git_status");
    assert("get_git_status"@[0] == 'g');
    assert("get_git_status"@[1] == 'e');
    reveal_strlit("git_stash_list");
    assert("git_stash_list"@[0] == 'g');
    assert("git_stash_list"@[1] == 'i');
    assert("git_stash_list"@[5] == 't');
    reveal_strlit("git_show_index");
    assert("git_show_index"@[0] == 'g');
    assert("git_show_index"@[1] == 'i');
    assert("git_show_index"@[5] == 'h');
    reveal_strlit("read_directory");
    assert("read_directory"@[0] == 'r');
    reveal_strlit("git_undo_commit");
    assert("git_undo_commit"@[0] == 'g');
    assert("git_undo_commit"@[4] == 'u');
    assert("git_undo_commit"@[6] == 'd');
    reveal_strlit("git_unstage_all");
    assert("git_unstage_all"@[0] == 'g');
    assert("git_unstage_all"@[4] == 'u');
    assert("git_unstage_all"@[6] == 's');
    reveal_strlit("git_discard_all");
    assert("git_discard_all"@[0] == 'g');
    assert("git_discard_all"@[4] == 'd');
    reveal_strlit("git_branch_list");
    assert("git_branch_list"@[0] == 'g');
    assert("git_branch_list"@[4] == 'b');
    reveal_strlit("git_merge_abort");
    assert("git_merge_abort"@[0] == 'g');
    assert("git_merge_abort"@[4] == 'm');
    reveal_strlit("git_commit_diff");
    assert("git_commit_diff"@[0] == 'g');
    assert("git_commit_diff"@[4] == 'c');
    reveal_strlit("search_in_files");
    assert("search_in_files"@[0] == 's');
    reveal_strlit("connection_stats");
    assert("connection_stats"@[0] == 'c');
    assert("connection_stats"@[1] == 'o');
    reveal_strlit("read_file_base64");
    assert("read_file_base64"@[0] == 'r');
    reveal_strlit("create_directory");
    assert("create_directory"@[0] == 'c');
    assert("create_directory"@[1] == 'r');
    reveal_strlit("get_git_staged_diff");
    assert("get_git_staged_diff"@[1] == 'e');
    reveal_strlit("git_checkout_branch");
    assert("git_checkout_branch"@[1] == 'i');
}

/// Every command is known by its own name.
pub proof fn commands_are_known_by_name()
    ensures
        op_named("pty_spawn"@) == Some(Op::PtySpawn),
        op_named("pty_attach"@) == Some(Op::PtyAttach),
        op_named("pty_write"@) == Some(Op::PtyWrite),
        op_named("pty_resize"@) == Some(Op::PtyResize),
        op_named("pty_kill"@) == Some(Op::PtyKill),
        op_named("pty_detach"@) == Some(Op::PtyDetach),
        op_named("ping"@) == Some(Op::Ping),
        op_named("connection_stats"@) == Some(Op::ConnectionStats),
        op_named("run_command"@) == Some(Op::RunCommand),
        op_named("get_git_status"@) == Some(Op::GetGitStatus),
        op_named("git_undo_commit"@) == Some(Op::GitUndoCommit),
        op_named("git_stash_list"@) == Some(Op::GitStashList),
        op_named("git_stash"@) == Some(Op::GitStash),
        op_named("git_stash_pop"@) == Some(Op::GitStashPop),
        op_named("git_push"@) == Some(Op::GitPush),
        op_named("git_fetch"@) == Some(Op::GitFetch),
        op_named("git_pull"@) == Some(Op::GitPull),
        op_named("git_init"@) == Some(Op::GitInit),
        op_named("git_stage_all"@) == Some(Op::GitStageAll),
        op_named("git_unstage_all"@) == Some(Op::GitUnstageAll),
        op_named("git_discard_all"@) == Some(Op::GitDiscardAll),
        op_named("git_branch_list"@) == Some(Op::GitBranchList),
        op_named("git_merge_abort"@) == Some(Op::GitMergeAbort),
        op_named("get_git_diff"@) == Some(Op::GetGitDiff),
        op_named("get_git_staged_diff"@) == Some(Op::GetGitStagedDiff),
        op_named("get_git_head_file"@) == Some(Op::GetGitHeadFile),
        op_named("git_show_index"@) == Some(Op::GitShowIndex),
        op_named("git_add"@) == Some(Op::GitAdd),
        op_named("git_unstage"@) == Some(Op::GitUnstage),
        op_named("git_discard"@) == Some(Op::GitDiscard),
        op_named("git_commit"@) == Some(Op::GitCommit),
        op_named("git_log"@) == Some(Op::GitLog),
        op_named("git_commit_diff"@) == Some(Op::GitCommitDiff),
        op_named("git_revert"@) == Some(Op::GitRevert),
        op_named("git_checkout_branch"@) == Some(Op::GitCheckoutBranch),
        op_named("git_merge"@) == Some(Op::GitMerge),
        op_named("git_resolve_conflict"@) == Some(Op::GitResolveConflict),
        op_named("get_cwd"@) == Some(Op::GetCwd),
        op_named("read_file"@) == Some(Op::ReadFile),
        op_named("read_file_base64"@) == Some(Op::ReadFileBase64),
        op_named("file_exists"@) == Some(Op::FileExists),
        op_named("create_directory"@) == Some(Op::CreateDirectory),
        op_named("delete_entry"@) == Some(Op::DeleteEntry),
        op_named("download_file"@) == Some(Op::DownloadFile),
        op_named("list_files"@) == Some(Op::ListFiles),
        op_named("write_file"@) == Some(Op::WriteFile),
        op_named("upload_file"@) == Some(Op::UploadFile),
        op_named("read_directory"@) == Some(Op::ReadDirectory),
        op_named("create_file"@) == Some(Op::CreateFile),
        op_named("rename_entry"@) == Some(Op::RenameEntry),
        op_named("copy_entry"@) == Some(Op::CopyEntry),
        op_named("extract_zip"@) == Some(Op::ExtractZip),
        op_named("search_in_files"@) == Some(Op::SearchInFiles),
        op_named("chat_stream"@) == Some(Op::ChatStream),
        op_named("chat_cancel"@) == Some(Op::ChatCancel),
        op_named("chat_models"@) == Some(Op::ChatModels),
        op_named("chat_check_install"@) == Some(Op::ChatCheckInstall),
{
    lemma_name_lengths();
    lemma_names_differ();
}

/// A shell is started as wide and as high as the fields `cols` and `rows` say,
/// which is 80 and 24 where they say nothing that fits. It is the one that the
/// field `shell` names, in the directory that the field `cwd` names.
pub proof fn shells_are_started_as_asked(w: World, args: JsonView, request: u64)
    ensures
        match text_in(args, "sessionId"@) {
            Some(id) => asked(w, "pty_spawn"@, args, request) matches Some(
                ActionView::Spawn { session_id, shell, cwd, cols, rows },
            ) && {
                &&& session_id == id
                &&& shell == text_in(args, "shell"@)
                &&& cwd == text_in(args, "cwd"@)
                &&& cols == (match number_in(args, "cols"@, u32::MAX as u64) {
                    Some(n) => n as int,
                    None => 80,
                })
                &&& rows == (match number_in(args, "rows"@, u32::MAX as u64) {
                    Some(n) => n as int,
                    None => 24,
                })
            },
            None => asked(w, "pty_spawn"@, args, request) is None,
        },
{
    commands_are_known_by_name();
    reveal_with_fuel(read_params, 8);
}

/// What is typed goes to the session that the field `sessionId` names, as the
/// bytes of the field `data`.
pub proof fn keys_go_to_their_session(w: World, args: JsonView, request: u64)
    ensures
        match (text_in(args, "sessionId"@), text_in(args, "data"@)) {
            (Some(id), Some(typed)) => if w.sessions.contains_key(id) {
                asked(w, "pty_write"@, args, request) == Some(
                    ActionView::Write {
                        session_id: id,
                        data: encode_utf8(typed),
                        reply: JsonView::Null,
                    },
                )
            } else {
                asked(w, "pty_write"@, args, request) == Some(
                    ActionView::Refuse("Session "@ + id + " not found"@),
                )
            },
            _ => asked(w, "pty_write"@, args, request) is None,
        },
{
    commands_are_known_by_name();
    reveal_with_fuel(read_params, 8);
}

/// A terminal gets as wide and as high as the fields `cols` and `rows` say, as far
/// as a terminal can.
pub proof fn terminals_get_the_size_asked_for(w: World, args: JsonView, request: u64)
    ensures
        match (
            text_in(args, "sessionId"@),
            number_in(args, "cols"@, u32::MAX as u64),
            number_in(args, "rows"@, u32::MAX as u64),
        ) {
            (Some(id), Some(wide), Some(high)) => if w.sessions.contains_key(id) {
                asked(w, "pty_resize"@, args, request) matches Some(
                    ActionView::Resize { session_id, size, reply },
                ) && {
                    &&& session_id == id
                    &&& reply == JsonView::Null
                    &&& 1 <= wide <= u16::MAX ==> size.cols == wide
                    &&& 1 <= high <= u16::MAX ==> size.rows == high
                    &&& wide == 0 ==> size.cols == 1
                    &&& high == 0 ==> size.rows == 1
                }
            } else {
                asked(w, "pty_resize"@, args, request) == Some(
                    ActionView::Refuse("Session "@ + id + " not found"@),
                )
            },
            _ => asked(w, "pty_resize"@, args, request) is None,
        },
{
    commands_are_known_by_name();
    reveal_with_fuel(read_params, 8);
}

/// The output of a session is sent from the offset that the field `from` names,
/// or from the oldest byte that is retained where it names none or an older one.
/// The answer names the shell's process, that offset and the end of the output, and
/// says whether bytes that were asked for are gone.
pub proof fn sessions_are_attached_to_as_asked(w: World, args: JsonView, request: u64, now: u64)
    ensures
        match text_in(args, "sessionId"@) {
            Some(id) => if !w.sessions.contains_key(id) {
                asked(w, "pty_attach"@, args, request) == Some(
                    ActionView::Refuse("Session "@ + id + " not found"@),
                )
            } else if w.sessions[id].stream.state.exited {
                asked(w, "pty_attach"@, args, request) == Some(
                    ActionView::Refuse("Session "@ + id + " has exited"@),
                )
            } else {
                let oldest = w.sessions[id].stream.state.ring_start as u64;
                let end = w.sessions[id].stream.state.total as u64;
                0 <= w.sessions[id].stream.state.ring_start <= u64::MAX ==> (asked(
                    w,
                    "pty_attach"@,
                    args,
                    request,
                ) matches Some(ActionView::Stream { session_id, from, reply }) && {
                    let wanted = number_in(args, "from"@, u64::MAX);
                    &&& session_id == id
                    &&& from == (match wanted {
                        Some(n) => if n >= oldest {
                            n
                        } else {
                            oldest
                        },
                        None => oldest,
                    })
                    &&& reply.says("pid"@, JsonView::Unsigned(w.sessions[id].pid as u64))
                    &&& reply.says("from"@, JsonView::Unsigned(from))
                    &&& reply.says("end"@, JsonView::Unsigned(end))
                    &&& reply.says(
                        "truncated"@,
                        JsonView::Bool(wanted matches Some(n) && n < oldest),
                    )
                    &&& asked_after(w, "pty_attach"@, args, now).conn.subscribed.contains(id)
                })
            },
            None => asked(w, "pty_attach"@, args, request) is None,
        },
{
    commands_are_known_by_name();
    reveal_with_fuel(read_params, 8);
    match asked(w, "pty_attach"@, args, request) {
        Some(ActionView::Stream { session_id, from, reply }) => {
            let f = reply->Object_0;
            assert(f[0].0 == "pid"@ && f[1].0 == "from"@ && f[2].0 == "end"@ && f[3].0
                == "truncated"@);
            assert(f.contains(f[0]) && f.contains(f[1]) && f.contains(f[2]) && f.contains(f[3]));
        },
        _ => {},
    }
}

/// Killing a session kills the process group of its shell, and the session is not
/// known any more. Detaching from one leaves it and its shell as they are.
pub proof fn sessions_are_left_as_asked(w: World, args: JsonView, request: u64, now: u64)
    ensures
        match text_in(args, "sessionId"@) {
            Some(id) => {
                let killed = asked_after(w, "pty_kill"@, args, now);
                let left = asked_after(w, "pty_detach"@, args, now);
                &&& asked(w, "pty_kill"@, args, request) == Some(
                    if w.sessions.contains_key(id) {
                        ActionView::End {
                            session_id: id,
                            pid: w.sessions[id].pid,
                            reply: JsonView::Null,
                        }
                    } else {
                        ActionView::Refuse("Session "@ + id + " not found"@)
                    },
                )
                &&& !killed.sessions.contains_key(id)
                &&& !killed.conn.subscribed.contains(id)
                &&& forall|other: Seq<char>| #![auto]
                    other != id && w.sessions.contains_key(other)
                        ==> killed.sessions.contains_key(other) && killed.sessions[other]
                        == w.sessions[other]
                &&& asked(w, "pty_detach"@, args, request) == Some(
                    ActionView::Detach { session_id: id, reply: JsonView::Null },
                )
                &&& left.sessions.dom() == w.sessions.dom()
                &&& !left.conn.subscribed.contains(id)
                &&& w.sessions.contains_key(id) ==> {
                    &&& left.sessions[id].pid == w.sessions[id].pid
                    &&& left.sessions[id].stream.state.ring == w.sessions[id].stream.state.ring
                    &&& left.sessions[id].stream.state.total == w.sessions[id].stream.state.total
                    &&& left.sessions[id].stream.state.exited
                        == w.sessions[id].stream.state.exited
                }
            },
            None => asked(w, "pty_kill"@, args, request) is None && asked(
                w,
                "pty_detach"@,
                args,
                request,
            ) is None,
        },
{
    commands_are_known_by_name();
    reveal_with_fuel(read_params, 8);
    match text_in(args, "sessionId"@) {
        Some(id) => {
            let left = asked_after(w, "pty_detach"@, args, now);
            assert(left.sessions.dom() =~= w.sessions.dom());
        },
        None => {},
    }
}

/// The texts in a field that is a list of texts, or none.
pub open spec fn texts_in(args: JsonView, key: Seq<char>) -> Seq<Seq<char>> {
    match args.get(key) {
        Some(JsonView::Array(v)) => if forall|i: int|
            0 <= i < v.len() ==> (#[trigger] v[i]) is Str {
            Seq::new(v.len(), |i: int| v[i]->Str_0)
        } else {
            Seq::empty()
        },
        _ => Seq::empty(),
    }
}

/// A turn of a chat is one of the agent that the field `command` names, with the
/// arguments, the directory, the key, the mode and the attachments of the fields of
/// those names. The client knows it by the field `requestId`, or else by the number
/// of the request.
pub proof fn chats_are_begun_as_asked(w: World, args: JsonView, request: u64)
    ensures
        match text_in(args, "command"@) {
            Some(agent) => asked(w, "chat_stream"@, args, request) matches Some(
                ActionView::Chat { turn, attachments, reply },
            ) && {
                &&& reply == JsonView::Null
                &&& turn.command == agent
                &&& turn.args == texts_in(args, "args"@)
                &&& turn.cwd == text_in(args, "cwd"@)
                &&& turn.mode == text_in(args, "mode"@)
                &&& turn.api_key == (match text_in(args, "apiKey"@) {
                    Some(key) => key,
                    None => Seq::empty(),
                })
                &&& turn.rid == (match text_in(args, "requestId"@) {
                    Some(id) => id,
                    None => decimal(request as nat),
                })
                &&& attachments == (match args.get("attachments"@) {
                    Some(v) => match described_attachments(v) {
                        Some(l) => l,
                        None => Seq::empty(),
                    },
                    None => Seq::empty(),
                })
            },
            None => asked(w, "chat_stream"@, args, request) is None,
        },
{
    commands_are_known_by_name();
    reveal_with_fuel(read_params, 8);
    assert(Seq::<AttachmentView>::empty() =~= Seq::empty());
}

/// Cancelling a chat kills the process of the turn that the field `id` names, and
/// takes it off the list; where there is none, nothing is killed.
pub proof fn chats_are_cancelled_as_asked(w: World, args: JsonView, request: u64, now: u64)
    ensures
        match text_in(args, "id"@) {
            Some(id) => if w.conn.processes.contains_key(id) {
                &&& asked(w, "chat_cancel"@, args, request) matches Some(
                    ActionView::Kill { pid, reply },
                ) && pid == w.conn.processes[id] && reply.says("cancelled"@, JsonView::Bool(true))
                &&& asked_after(w, "chat_cancel"@, args, now).owned == w.owned.remove(
                    w.conn.processes[id],
                )
            } else {
                &&& asked(w, "chat_cancel"@, args, request) matches Some(
                    ActionView::Reply(reply),
                ) && reply.says("cancelled"@, JsonView::Bool(false))
                &&& asked_after(w, "chat_cancel"@, args, now) == w
            },
            None => asked(w, "chat_cancel"@, args, request) is None,
        },
{
    commands_are_known_by_name();
    reveal_with_fuel(read_params, 8);
    match asked(w, "chat_cancel"@, args, request) {
        Some(ActionView::Kill { pid, reply }) => {
            assert(reply->Object_0[0].0 == "cancelled"@);
            assert(reply->Object_0.contains(reply->Object_0[0]));
        },
        Some(ActionView::Reply(reply)) => {
            assert(reply->Object_0[0].0 == "cancelled"@);
            assert(reply->Object_0.contains(reply->Object_0[0]));
        },
        _ => {},
    }
}

/// Files and directories are read where the field `path` says, a directory as deep
/// as the field `maxDepth` says.
pub proof fn files_are_asked_for_by_their_path(w: World, args: JsonView, request: u64)
    ensures
        match text_in(args, "path"@) {
            Some(path) => asked(w, "read_file"@, args, request) == telling(
                TaskView::ReadFile(path),
            ),
            _ => asked(w, "read_file"@, args, request) is None,
        },
        match text_in(args, "path"@) {
            Some(path) => asked(w, "read_file_base64"@, args, request) == telling(
                TaskView::ReadFileBase64(path),
            ),
            _ => asked(w, "read_file_base64"@, args, request) is None,
        },
        match text_in(args, "path"@) {
            Some(path) => asked(w, "download_file"@, args, request) == telling(
                TaskView::DownloadFile(path),
            ),
            _ => asked(w, "download_file"@, args, request) is None,
        },
        match text_in(args, "path"@) {
            Some(path) => asked(w, "file_exists"@, args, request) == telling(
                TaskView::FileExists(path),
            ),
            _ => asked(w, "file_exists"@, args, request) is None,
        },
        match text_in(args, "path"@) {
            Some(path) => asked(w, "list_files"@, args, request) == telling(
                TaskView::ListFiles(path),
            ),
            _ => asked(w, "list_files"@, args, request) is None,
        },
        asked(w, "get_cwd"@, args, request) == telling(TaskView::GetCwd),
        match text_in(args, "path"@) {
            Some(path) => asked(w, "read_directory"@, args, request) == telling(
                TaskView::ReadDirectory {
                    path,
                    max_depth: match number_in(args, "maxDepth"@, u32::MAX as u64) {
                        Some(n) => Some(n as u32),
                        None => None,
                    },
                },
            ),
            _ => asked(w, "read_directory"@, args, request) is None,
        },
{
    commands_are_known_by_name();
    reveal_with_fuel(read_params, 8);
}

/// What is written goes to the field `path` and is the field `content`; what is moved
/// or copied goes from the field `from` to the field `to`; and what is unpacked is the
/// field `zipContent` and goes to the field `destDir`. None of these tells more than
/// that it is done, but for the paths of what was unpacked.
pub proof fn files_are_changed_as_asked(w: World, args: JsonView, request: u64)
    ensures
        match (text_in(args, "path"@), text_in(args, "content"@)) {
            (Some(path), Some(content)) => asked(w, "write_file"@, args, request) == doing(
                TaskView::WriteFile { path, content },
            ),
            _ => asked(w, "write_file"@, args, request) is None,
        },
        match (text_in(args, "path"@), text_in(args, "content"@)) {
            (Some(path), Some(content)) => asked(w, "upload_file"@, args, request) == doing(
                TaskView::UploadFile { path, content },
            ),
            _ => asked(w, "upload_file"@, args, request) is None,
        },
        match text_in(args, "path"@) {
            Some(path) => asked(w, "create_directory"@, args, request) == doing(
                TaskView::CreateDirectory(path),
            ),
            _ => asked(w, "create_directory"@, args, request) is None,
        },
        match text_in(args, "path"@) {
            Some(path) => asked(w, "delete_entry"@, args, request) == doing(
                TaskView::DeleteEntry(path),
            ),
            _ => asked(w, "delete_entry"@, args, request) is None,
        },
        match (text_in(args, "from"@), text_in(args, "to"@)) {
            (Some(from), Some(to)) => asked(w, "rename_entry"@, args, request) == doing(
                TaskView::RenameEntry { from, to },
            ),
            _ => asked(w, "rename_entry"@, args, request) is None,
        },
        match (text_in(args, "from"@), text_in(args, "to"@)) {
            (Some(from), Some(to)) => asked(w, "copy_entry"@, args, request) == doing(
                TaskView::CopyEntry { from, to },
            ),
            _ => asked(w, "copy_entry"@, args, request) is None,
        },
        match (text_in(args, "zipContent"@), text_in(args, "destDir"@)) {
            (Some(content), Some(dest)) => asked(w, "extract_zip"@, args, request) == telling(
                TaskView::ExtractZip { content, dest },
            ),
            _ => asked(w, "extract_zip"@, args, request) is None,
        },
        match text_in(args, "path"@) {
            Some(path) => asked(w, "create_file"@, args, request) == doing(
                TaskView::CreateFile {
                    path,
                    content: match text_in(args, "content"@) {
                        Some(content) => content,
                        None => Seq::empty(),
                    },
                },
            ),
            _ => asked(w, "create_file"@, args, request) is None,
        },
{
    commands_are_known_by_name();
    reveal_with_fuel(read_params, 8);
}

/// A search is one for the field `query` below the field `path`, with each option out
/// of the field of its name.
pub proof fn searches_heed_their_options(w: World, args: JsonView, request: u64)
    ensures
        match (text_in(args, "path"@), text_in(args, "query"@)) {
            (Some(path), Some(query)) => asked(w, "search_in_files"@, args, request) == telling(
                TaskView::SearchInFiles {
                    path,
                    query,
                    case_sensitive: flag_in(args, "caseSensitive"@),
                    whole_word: flag_in(args, "wholeWord"@),
                    regex: flag_in(args, "regex"@),
                },
            ),
            _ => asked(w, "search_in_files"@, args, request) is None,
        },
{
    commands_are_known_by_name();
    reveal_with_fuel(read_params, 8);
}

/// A line is run that is the field `command`, an agent is looked for by that field,
/// and models are asked for of the field `agent` with the field `apiKey`.
pub proof fn other_tasks_are_done_as_asked(w: World, args: JsonView, request: u64)
    ensures
        match text_in(args, "command"@) {
            Some(line) => asked(w, "run_command"@, args, request) == telling(
                TaskView::RunCommand(line),
            ),
            _ => asked(w, "run_command"@, args, request) is None,
        },
        match text_in(args, "command"@) {
            Some(agent) => asked(w, "chat_check_install"@, args, request) == telling(
                TaskView::CheckInstall(agent),
            ),
            _ => asked(w, "chat_check_install"@, args, request) is None,
        },
        match text_in(args, "agent"@) {
            Some(agent) => asked(w, "chat_models"@, args, request) == telling(
                TaskView::ChatModels {
                    agent,
                    api_key: match text_in(args, "apiKey"@) {
                        Some(key) => key,
                        None => Seq::empty(),
                    },
                },
            ),
            _ => asked(w, "chat_models"@, args, request) is None,
        },
{
    commands_are_known_by_name();
    reveal_with_fuel(read_params, 8);
}

/// Git is run in the directory that the field `path` names: to make it a repository, to
/// stage everything, to undo the last commit, to stash and to bring back, to push, fetch
/// and pull, and to give up a merge.
pub proof fn git_is_run_in_the_directory_asked_for(w: World, args: JsonView, request: u64)
    ensures
        match text_in(args, "path"@) {
            Some(path) => asked(w, "git_init"@, args, request) == git(at(path, seq!["init"@])),
            _ => asked(w, "git_init"@, args, request) is None,
        },
        match text_in(args, "path"@) {
            Some(path) => asked(w, "git_stage_all"@, args, request) == git(
                at(path, seq!["add"@, "-A"@, "."@]),
            ),
            _ => asked(w, "git_stage_all"@, args, request) is None,
        },
        match text_in(args, "path"@) {
            Some(path) => asked(w, "git_undo_commit"@, args, request) == git(
                at(path, seq!["reset"@, "--soft"@, "HEAD~1"@]),
            ),
            _ => asked(w, "git_undo_commit"@, args, request) is None,
        },
        match text_in(args, "path"@) {
            Some(path) => asked(w, "git_stash"@, args, request) == git(
                at(path, seq!["stash"@, "push"@, "-u"@, "-m"@, "WIP from NoIDE"@]),
            ),
            _ => asked(w, "git_stash"@, args, request) is None,
        },
        match text_in(args, "path"@) {
            Some(path) => asked(w, "git_stash_pop"@, args, request) == git(
                at(path, seq!["stash"@, "pop"@]),
            ),
            _ => asked(w, "git_stash_pop"@, args, request) is None,
        },
        match text_in(args, "path"@) {
            Some(path) => asked(w, "git_push"@, args, request) == git(at(path, seq!["push"@])),
            _ => asked(w, "git_push"@, args, request) is None,
        },
        match text_in(args, "path"@) {
            Some(path) => asked(w, "git_fetch"@, args, request) == git(
                at(path, seq!["fetch"@, "--all"@, "--prune"@]),
            ),
            _ => asked(w, "git_fetch"@, args, request) is None,
        },
        match text_in(args, "path"@) {
            Some(path) => asked(w, "git_pull"@, args, request) == git(at(path, seq!["pull"@])),
            _ => asked(w, "git_pull"@, args, request) is None,
        },
        match text_in(args, "path"@) {
            Some(path) => asked(w, "git_merge_abort"@, args, request) == git(
                at(path, seq!["merge"@, "--abort"@]),
            ),
            _ => asked(w, "git_merge_abort"@, args, request) is None,
        },
{
    commands_are_known_by_name();
    reveal_with_fuel(read_params, 8);
}

/// Git is run on the file that the field `file` names: to show what is not staged of it
/// and what is, to show it as it was committed and as it is staged, and to stage it. What
/// is not staged at all is shown as nothing.
pub proof fn git_is_run_on_the_file_asked_for(w: World, args: JsonView, request: u64)
    ensures
        match (text_in(args, "path"@), text_in(args, "file"@)) {
            (Some(path), Some(file)) => asked(w, "get_git_diff"@, args, request) == git(
                at(path, seq!["diff"@, "--no-color"@, "--"@, file]),
            ),
            _ => asked(w, "get_git_diff"@, args, request) is None,
        },
        match (text_in(args, "path"@), text_in(args, "file"@)) {
            (Some(path), Some(file)) => asked(w, "get_git_staged_diff"@, args, request) == git(
                at(path, seq!["diff"@, "--cached"@, "--no-color"@, "--"@, file]),
            ),
            _ => asked(w, "get_git_staged_diff"@, args, request) is None,
        },
        match (text_in(args, "path"@), text_in(args, "file"@)) {
            (Some(path), Some(file)) => asked(w, "get_git_head_file"@, args, request) == git(
                at(path, seq!["show"@, "HEAD:"@ + file]),
            ),
            _ => asked(w, "get_git_head_file"@, args, request) is None,
        },
        match (text_in(args, "path"@), text_in(args, "file"@)) {
            (Some(path), Some(file)) => asked(w, "git_show_index"@, args, request) == telling(
                TaskView::Git(
                    git_run(
                        at(path, seq!["show"@, ":"@ + file]),
                        PlanView::Output,
                        PlanView::Text(""@),
                    ),
                ),
            ),
            _ => asked(w, "git_show_index"@, args, request) is None,
        },
        match (text_in(args, "path"@), text_in(args, "file"@)) {
            (Some(path), Some(file)) => asked(w, "git_add"@, args, request) == git(
                at(path, seq!["add"@, "--"@, file]),
            ),
            _ => asked(w, "git_add"@, args, request) is None,
        },
{
    commands_are_known_by_name();
    reveal_with_fuel(read_params, 8);
}

/// A file is taken off the stage by going back to the last commit, or where there is
/// none by taking it out of the index; and so is everything.
pub proof fn staging_is_taken_back_as_asked(w: World, args: JsonView, request: u64)
    ensures
        match (text_in(args, "path"@), text_in(args, "file"@)) {
            (Some(path), Some(file)) => asked(w, "git_unstage"@, args, request) == telling(
                TaskView::Git(
                    git_run(
                        at(path, seq!["reset"@, "HEAD"@, "--"@, file]),
                        PlanView::Output,
                        git_only(at(path, seq!["rm"@, "--cached"@, "--"@, file])),
                    ),
                ),
            ),
            _ => asked(w, "git_unstage"@, args, request) is None,
        },
        match text_in(args, "path"@) {
            Some(path) => asked(w, "git_unstage_all"@, args, request) == telling(
                TaskView::Git(
                    git_run(
                        at(path, seq!["reset"@, "HEAD"@]),
                        PlanView::Output,
                        git_only(at(path, seq!["rm"@, "-r"@, "--cached"@, "."@])),
                    ),
                ),
            ),
            _ => asked(w, "git_unstage_all"@, args, request) is None,
        },
{
    commands_are_known_by_name();
    reveal_with_fuel(read_params, 8);
}

/// The changes of a file that git knows are discarded by checking it out, and one that git
/// does not know is deleted. All changes are discarded by taking everything off the
/// stage, putting it back to the last commit where there is one, and deleting what git
/// does not know; a run that fails ends that.
pub proof fn changes_are_discarded_as_asked(w: World, args: JsonView, request: u64)
    ensures
        match (text_in(args, "path"@), text_in(args, "file"@)) {
            (Some(path), Some(file)) => asked(w, "git_discard"@, args, request) == telling(
                TaskView::Git(
                    git_run(
                        at(path, seq!["ls-files"@, "--error-unmatch"@, "--"@, file]),
                        git_only(at(path, seq!["checkout"@, "--"@, file])),
                        PlanView::Delete { dir: path, file },
                    ),
                ),
            ),
            _ => asked(w, "git_discard"@, args, request) is None,
        },
        match text_in(args, "path"@) {
            Some(path) => asked(w, "git_discard_all"@, args, request) == telling(
                TaskView::Git(
                    git_run(
                        at(path, seq!["rev-parse"@, "--verify"@, "--quiet"@, "HEAD"@]),
                        git_run(
                            at(path, seq!["reset"@]),
                            git_run(
                                at(path, seq!["reset"@, "--hard"@, "HEAD"@]),
                                git_only(at(path, seq!["clean"@, "-fd"@])),
                                PlanView::Error,
                            ),
                            PlanView::Error,
                        ),
                        git_run(
                            at(path, seq!["reset"@]),
                            git_only(at(path, seq!["clean"@, "-fd"@])),
                            PlanView::Error,
                        ),
                    ),
                ),
            ),
            _ => asked(w, "git_discard_all"@, args, request) is None,
        },
{
    commands_are_known_by_name();
    reveal_with_fuel(read_params, 8);
}

/// A commit gets the field `message` for its message. Where the field `amend` says so, it
/// takes the place of the last one, whose message it keeps when there is no other. A
/// commit is shown or reverted by the field `commit`, but not shown where that is blank or
/// could be taken for an option.
pub proof fn commits_are_made_as_asked(w: World, args: JsonView, request: u64)
    ensures
        match (text_in(args, "path"@), text_in(args, "message"@)) {
            (Some(path), Some(message)) => asked(w, "git_commit"@, args, request) == git(
                if flag_in(args, "amend"@) != Some(true) {
                    at(path, seq!["commit"@, "-m"@, message])
                } else if trim(message).len() > 0 {
                    at(path, seq!["commit"@, "--amend"@, "-m"@, message])
                } else {
                    at(path, seq!["commit"@, "--amend"@, "--no-edit"@])
                },
            ),
            _ => asked(w, "git_commit"@, args, request) is None,
        },
        match (text_in(args, "path"@), text_in(args, "commit"@)) {
            (Some(path), Some(commit)) => asked(w, "git_commit_diff"@, args, request) == if trim(
                commit,
            ).len() == 0 || trim(commit)[0] == '-' {
                telling(TaskView::Git(PlanView::Refusal("Invalid commit"@)))
            } else {
                git(at(path, seq!["show"@, "--no-color"@, "--no-ext-diff"@, trim(commit)]))
            },
            _ => asked(w, "git_commit_diff"@, args, request) is None,
        },
        match (text_in(args, "path"@), text_in(args, "commit"@)) {
            (Some(path), Some(commit)) => asked(w, "git_revert"@, args, request) == git(
                at(path, seq!["revert"@, "--no-edit"@, commit]),
            ),
            _ => asked(w, "git_revert"@, args, request) is None,
        },
{
    commands_are_known_by_name();
    reveal_with_fuel(read_params, 8);
}

/// A merge is one of the field `fromRef`, and gives all that git prints, conflicts as
/// well. A conflict is resolved with the side that the field `side` names, and the file is
/// then staged.
pub proof fn merges_are_made_as_asked(w: World, args: JsonView, request: u64)
    ensures
        match (text_in(args, "path"@), text_in(args, "fromRef"@)) {
            (Some(path), Some(other)) => asked(w, "git_merge"@, args, request) == telling(
                TaskView::Git(
                    PlanView::Run {
                        args: at(path, seq!["merge"@, "--no-edit"@, other]),
                        lenient: true,
                        keep: false,
                        ok: Box::new(PlanView::Output),
                        err: Box::new(PlanView::Error),
                    },
                ),
            ),
            _ => asked(w, "git_merge"@, args, request) is None,
        },
        match (text_in(args, "path"@), text_in(args, "file"@), text_in(args, "side"@)) {
            (Some(path), Some(file), Some(side)) => asked(
                w,
                "git_resolve_conflict"@,
                args,
                request,
            ) == telling(
                TaskView::Git(
                    git_run(
                        at(
                            path,
                            seq![
                                "checkout"@,
                                if side == "theirs"@ {
                                    "--theirs"@
                                } else {
                                    "--ours"@
                                },
                                "--"@,
                                file,
                            ],
                        ),
                        git_only(at(path, seq!["add"@, "--"@, file])),
                        PlanView::Error,
                    ),
                ),
            ),
            _ => asked(w, "git_resolve_conflict"@, args, request) is None,
        },
{
    commands_are_known_by_name();
    reveal_with_fuel(read_params, 8);
}

/// The status of the directory that the field `path` names is asked for with its branch,
/// its conflicts and the lines that were changed, staged or not; and of its log as many
/// commits as the field `limit` says, or fifty. So are its stashes and its branches.
pub proof fn git_is_asked_in_the_directory_asked_for(w: World, args: JsonView, request: u64)
    ensures
        match text_in(args, "path"@) {
            Some(path) => asked(w, "get_git_status"@, args, request) == telling(
                TaskView::Status(
                    QueryView {
                        steps: seq![
                            (at(path, seq!["rev-parse"@, "--is-inside-work-tree"@]), Policy::Probe),
                            (at(path, seq!["status"@, "-b"@, "--porcelain"@]), Policy::Need),
                            (
                                at(path, seq!["diff"@, "--name-only"@, "--diff-filter=U"@]),
                                Policy::Wish,
                            ),
                            (at(path, seq!["diff"@, "--numstat"@]), Policy::Wish),
                            (at(path, seq!["diff"@, "--cached"@, "--numstat"@]), Policy::Wish),
                        ],
                        outputs: Seq::empty(),
                        ended: None,
                    },
                ),
            ),
            _ => asked(w, "get_git_status"@, args, request) is None,
        },
        match text_in(args, "path"@) {
            Some(path) => asked(w, "git_log"@, args, request) == telling(
                TaskView::Log(
                    QueryView {
                        steps: seq![
                            (
                                at(path, seq!["rev-parse"@, "--verify"@, "--quiet"@, "HEAD"@]),
                                Policy::Gate,
                            ),
                            (at(
                                path,
                                seq![
                                    "log"@,
                                    "--no-color"@,
                                    "-"@ + decimal(limit_in(args)),
                                    "--pretty=format:@%H\u{1f}%h\u{1f}%an\u{1f}%at\u{1f}%s"@,
                                    "--numstat"@,
                                ],
                            ), Policy::Need),
                        ],
                        outputs: Seq::empty(),
                        ended: None,
                    },
                ),
            ),
            _ => asked(w, "git_log"@, args, request) is None,
        },
        match text_in(args, "path"@) {
            Some(path) => asked(w, "git_stash_list"@, args, request) == telling(
                TaskView::Stashes(
                    QueryView {
                        steps: seq![
                            (
                                at(
                                    path,
                                    seq!["stash"@, "list"@, "--format=%gd\u{1f}%at\u{1f}%gs"@],
                                ),
                                Policy::Wish,
                            ),
                        ],
                        outputs: Seq::empty(),
                        ended: None,
                    },
                ),
            ),
            _ => asked(w, "git_stash_list"@, args, request) is None,
        },
        match text_in(args, "path"@) {
            Some(path) => asked(w, "git_branch_list"@, args, request) == telling(
                TaskView::Branches(
                    QueryView {
                        steps: seq![
                            (
                                at(
                                    path,
                                    seq![
                                        "for-each-ref"@,
                                        "--format=%(refname:short)"@,
                                        "refs/heads"@,
                                    ],
                                ),
                                Policy::Need,
                            ),
                            (
                                at(
                                    path,
                                    seq![
                                        "for-each-ref"@,
                                        "--format=%(refname:short)"@,
                                        "refs/remotes"@,
                                    ],
                                ),
                                Policy::Wish,
                            ),
                            (at(path, seq!["rev-parse"@, "--abbrev-ref"@, "HEAD"@]), Policy::Need),
                        ],
                        outputs: Seq::empty(),
                        ended: None,
                    },
                ),
            ),
            _ => asked(w, "git_branch_list"@, args, request) is None,
        },
{
    commands_are_known_by_name();
    reveal_with_fuel(read_params, 8);
    match text_in(args, "path"@) {
        Some(path) => {
            let limit = match number_in(args, "limit"@, usize::MAX as u64) {
                Some(n) => Some(n as usize),
                None => None,
            };
            assert(asked(w, "git_log"@, args, request) == telling(
                TaskView::Log(QueryView::start(log_steps(path, limit))),
            ));
            assert(limit_in(args) == (match limit {
                Some(n) => n as nat,
                None => 50,
            }));
        },
        None => {},
    }
}

/// The switch to a branch that is there, or else to one of a remote under the same
/// name.
pub open spec fn switches_to(p: PlanView, path: Seq<char>, name: Seq<char>) -> bool {
    p matches PlanView::Run { args, lenient, keep, ok, err } && {
        &&& args == at(path, seq!["checkout"@, name])
        &&& !lenient
        &&& keep
        &&& *ok == PlanView::Output
        &&& !name.contains('/') ==> tries(*err, path, name, "origin/"@ + name) && *(
        *err)->err == PlanView::Kept
        &&& name.contains('/') ==> tries(*err, path, name, name) && tries(
            *(*err)->err,
            path,
            name,
            "origin/"@ + name,
        )
    }
}

/// The look whether a branch is there, and the local branch that is made to follow
/// it, with tracking where that can be set up.
pub open spec fn tries(p: PlanView, path: Seq<char>, local: Seq<char>, start: Seq<char>) -> bool {
    p matches PlanView::Run { args, lenient, keep, ok, err } && {
        &&& args == at(
            path,
            seq!["rev-parse"@, "--verify"@, "--quiet"@, start + "^{commit}"@],
        )
        &&& !lenient
        &&& follows(*ok, path, local, start)
    }
}

/// A local branch that is made to follow another.
pub open spec fn follows(p: PlanView, path: Seq<char>, local: Seq<char>, start: Seq<char>) -> bool {
    p == (PlanView::Run {
        args: at(path, seq!["checkout"@, "-b"@, local, "--track"@, start]),
        lenient: false,
        keep: true,
        ok: Box::new(PlanView::Output),
        err: Box::new(
            git_run(
                at(path, seq!["checkout"@, "-b"@, local, start]),
                PlanView::Output,
                PlanView::Kept,
            ),
        ),
    })
}

/// A branch is switched to by the field `name`, or made where the field `create` says
/// so. The name of a branch of a remote makes a local one, without the name of the
/// remote, that follows it. A name that is blank, holds two dots in a row or could be
/// taken for an option is refused.
pub proof fn branches_are_switched_as_asked(w: World, args: JsonView, request: u64)
    ensures
        match (text_in(args, "path"@), text_in(args, "name"@)) {
            (Some(path), Some(given)) => asked(
                w,
                "git_checkout_branch"@,
                args,
                request,
            ) matches Some(
                ActionView::Run { task: TaskView::Git(p), reply: None },
            ) && {
                let name = trim(given);
                if name.len() == 0 || contains(name, ".."@) || name[0] == '-' {
                    p == PlanView::Refusal("Invalid branch name"@)
                } else if flag_in(args, "create"@) == Some(true) {
                    p == git_only(at(path, seq!["checkout"@, "-b"@, name]))
                } else if !name.contains('/') {
                    switches_to(p, path, name)
                } else {
                    let local = name.skip(position(name, '/') + 1);
                    p matches PlanView::Run { args: probe, ok, err, .. } && {
                        &&& probe == at(
                            path,
                            seq![
                                "rev-parse"@,
                                "--verify"@,
                                "--quiet"@,
                                "refs/remotes/"@ + name + "^{commit}"@,
                            ],
                        )
                        &&& switches_to(*err, path, name)
                        &&& local.len() > 0 ==> follows(*ok, path, local, name)
                        &&& local.len() == 0 ==> switches_to(*ok, path, name)
                    }
                }
            },
            _ => asked(w, "git_checkout_branch"@, args, request) is None,
        },
{
    commands_are_known_by_name();
    reveal_with_fuel(read_params, 8);
    reveal_with_fuel(try_remotes, 4);
}

} // verus!
