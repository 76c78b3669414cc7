//! What a command has to do.

use vstd::prelude::*;

use crate::git::log::{branch_steps, git_branch_list, git_log, git_stash_list, log_steps};
use crate::git::log::stash_steps;
use crate::git::plan::{
    add_plan, checkout_plan, commit_diff_plan, commit_plan, diff_plan, discard_all_plan,
    discard_plan, fetch_plan, head_file_plan, init_plan, merge_abort_plan, merge_plan, pull_plan,
    push_plan, resolve_conflict_plan, revert_plan, show_index_plan, stage_all_plan,
    staged_diff_plan, stash_plan, stash_pop_plan, undo_commit_plan, unstage_all_plan,
    unstage_plan, get_git_diff, get_git_head_file, get_git_staged_diff, git_add,
    git_checkout_branch, git_commit, git_commit_diff, git_discard, git_discard_all, git_fetch,
    git_init, git_merge, git_merge_abort, git_pull, git_push, git_resolve_conflict, git_revert,
    git_show_index, git_stage_all, git_stash, git_stash_pop, git_undo_commit, git_unstage,
    git_unstage_all, Plan, PlanView,
};
use crate::git::query::{Query, QueryView};
use crate::git::status::{get_git_status, status_steps};
use crate::text::trim;
use crate::ws::args::{
    flag_at, size_at, small_at, take_flag, take_size, take_small, take_text_or_empty,
    text_or_empty,
};
use crate::ws::dispatch::{Call, CallView, Op};

verus! {

/// What a command has to do that no session, chat or connection takes part in.
#[derive(Debug, PartialEq)]
pub enum Task {
    /// Run a line in a shell.
    RunCommand(String),
    /// Carry out a plan of runs of git.
    Git(Plan),
    /// Ask git about the state of a repository.
    Status(Query),
    Log(Query),
    Stashes(Query),
    Branches(Query),
    GetCwd,
    ReadFile(String),
    ReadFileBase64(String),
    DownloadFile(String),
    FileExists(String),
    ListFiles(String),
    ReadDirectory { path: String, max_depth: Option<u32> },
    WriteFile { path: String, content: String },
    UploadFile { path: String, content: String },
    CreateFile { path: String, content: String },
    CreateDirectory(String),
    RenameEntry { from: String, to: String },
    CopyEntry { from: String, to: String },
    DeleteEntry(String),
    ExtractZip { content: String, dest: String },
    SearchInFiles {
        path: String,
        query: String,
        case_sensitive: Option<bool>,
        whole_word: Option<bool>,
        regex: Option<bool>,
    },
    ChatModels { agent: String, api_key: String },
    CheckInstall(String),
}

/// What a task stands for.
pub enum TaskView {
    RunCommand(Seq<char>),
    Git(PlanView),
    Status(QueryView),
    Log(QueryView),
    Stashes(QueryView),
    Branches(QueryView),
    GetCwd,
    ReadFile(Seq<char>),
    ReadFileBase64(Seq<char>),
    DownloadFile(Seq<char>),
    FileExists(Seq<char>),
    ListFiles(Seq<char>),
    ReadDirectory { path: Seq<char>, max_depth: Option<u32> },
    WriteFile { path: Seq<char>, content: Seq<char> },
    UploadFile { path: Seq<char>, content: Seq<char> },
    CreateFile { path: Seq<char>, content: Seq<char> },
    CreateDirectory(Seq<char>),
    RenameEntry { from: Seq<char>, to: Seq<char> },
    CopyEntry { from: Seq<char>, to: Seq<char> },
    DeleteEntry(Seq<char>),
    ExtractZip { content: Seq<char>, dest: Seq<char> },
    SearchInFiles {
        path: Seq<char>,
        query: Seq<char>,
        case_sensitive: Option<bool>,
        whole_word: Option<bool>,
        regex: Option<bool>,
    },
    ChatModels { agent: Seq<char>, api_key: Seq<char> },
    CheckInstall(Seq<char>),
}

/// Tells whether a task only changes something, so that there is nothing to tell
/// once it is done.
pub open spec fn only_acts(t: TaskView) -> bool {
    match t {
        TaskView::WriteFile { .. } => true,
        TaskView::UploadFile { .. } => true,
        TaskView::CreateFile { .. } => true,
        TaskView::CreateDirectory(_) => true,
        TaskView::RenameEntry { .. } => true,
        TaskView::CopyEntry { .. } => true,
        TaskView::DeleteEntry(_) => true,
        _ => false,
    }
}

/// Tells whether there is nothing to tell of a task once it is done.
pub fn gives_nothing(t: &Task) -> (r: bool)
    ensures
        r == only_acts(t@),
{
    match t {
        Task::WriteFile { .. } => true,
        Task::UploadFile { .. } => true,
        Task::CreateFile { .. } => true,
        Task::CreateDirectory(_) => true,
        Task::RenameEntry { .. } => true,
        Task::CopyEntry { .. } => true,
        Task::DeleteEntry(_) => true,
        _ => false,
    }
}

impl View for Task {
    type V = TaskView;

    open spec fn view(&self) -> TaskView {
        match self {
            Task::RunCommand(c) => TaskView::RunCommand(c@),
            Task::Git(p) => TaskView::Git(p@),
            Task::Status(q) => TaskView::Status(q@),
            Task::Log(q) => TaskView::Log(q@),
            Task::Stashes(q) => TaskView::Stashes(q@),
            Task::Branches(q) => TaskView::Branches(q@),
            Task::GetCwd => TaskView::GetCwd,
            Task::ReadFile(p) => TaskView::ReadFile(p@),
            Task::ReadFileBase64(p) => TaskView::ReadFileBase64(p@),
            Task::DownloadFile(p) => TaskView::DownloadFile(p@),
            Task::FileExists(p) => TaskView::FileExists(p@),
            Task::ListFiles(p) => TaskView::ListFiles(p@),
            Task::ReadDirectory { path, max_depth } => TaskView::ReadDirectory {
                path: path@,
                max_depth: *max_depth,
            },
            Task::WriteFile { path, content } => TaskView::WriteFile {
                path: path@,
                content: content@,
            },
            Task::UploadFile { path, content } => TaskView::UploadFile {
                path: path@,
                content: content@,
            },
            Task::CreateFile { path, content } => TaskView::CreateFile {
                path: path@,
                content: content@,
            },
            Task::CreateDirectory(p) => TaskView::CreateDirectory(p@),
            Task::RenameEntry { from, to } => TaskView::RenameEntry { from: from@, to: to@ },
            Task::CopyEntry { from, to } => TaskView::CopyEntry { from: from@, to: to@ },
            Task::DeleteEntry(p) => TaskView::DeleteEntry(p@),
            Task::ExtractZip { content, dest } => TaskView::ExtractZip {
                content: content@,
                dest: dest@,
            },
            Task::SearchInFiles { path, query, case_sensitive, whole_word, regex } => {
                TaskView::SearchInFiles {
                    path: path@,
                    query: query@,
                    case_sensitive: *case_sensitive,
                    whole_word: *whole_word,
                    regex: *regex,
                }
            },
            Task::ChatModels { agent, api_key } => TaskView::ChatModels {
                agent: agent@,
                api_key: api_key@,
            },
            Task::CheckInstall(c) => TaskView::CheckInstall(c@),
        }
    }
}

/// Tells whether a command is a task; the others have to do with sessions, chats
/// or the connection.
pub open spec fn is_task(op: Op) -> bool {
    match op {
        Op::PtySpawn | Op::PtyAttach | Op::PtyWrite | Op::PtyResize | Op::PtyKill => false,
        Op::PtyDetach | Op::Ping | Op::ConnectionStats | Op::ChatStream => false,
        Op::ChatCancel => false,
        _ => true,
    }
}

/// The task of a command.
pub open spec fn task_of(c: CallView) -> TaskView {
    let a = text_or_empty(c.args, 0);
    let b = text_or_empty(c.args, 1);
    match c.op {
        Op::RunCommand => TaskView::RunCommand(a),
        Op::GetGitStatus => TaskView::Status(QueryView::start(status_steps(a))),
        Op::GitLog => TaskView::Log(QueryView::start(log_steps(a, size_at(c.args, 1)))),
        Op::GitStashList => TaskView::Stashes(QueryView::start(stash_steps(a))),
        Op::GitBranchList => TaskView::Branches(QueryView::start(branch_steps(a))),
        Op::GitUndoCommit => TaskView::Git(undo_commit_plan(a)),
        Op::GitStash => TaskView::Git(stash_plan(a)),
        Op::GitStashPop => TaskView::Git(stash_pop_plan(a)),
        Op::GitPush => TaskView::Git(push_plan(a)),
        Op::GitFetch => TaskView::Git(fetch_plan(a)),
        Op::GitPull => TaskView::Git(pull_plan(a)),
        Op::GitInit => TaskView::Git(init_plan(a)),
        Op::GitStageAll => TaskView::Git(stage_all_plan(a)),
        Op::GitUnstageAll => TaskView::Git(unstage_all_plan(a)),
        Op::GitDiscardAll => TaskView::Git(discard_all_plan(a)),
        Op::GitMergeAbort => TaskView::Git(merge_abort_plan(a)),
        Op::GetGitDiff => TaskView::Git(diff_plan(a, b)),
        Op::GetGitStagedDiff => TaskView::Git(staged_diff_plan(a, b)),
        Op::GetGitHeadFile => TaskView::Git(head_file_plan(a, b)),
        Op::GitShowIndex => TaskView::Git(show_index_plan(a, b)),
        Op::GitAdd => TaskView::Git(add_plan(a, b)),
        Op::GitUnstage => TaskView::Git(unstage_plan(a, b)),
        Op::GitDiscard => TaskView::Git(discard_plan(a, b)),
        Op::GitCommitDiff => TaskView::Git(commit_diff_plan(a, b)),
        Op::GitRevert => TaskView::Git(revert_plan(a, b)),
        Op::GitMerge => TaskView::Git(merge_plan(a, b)),
        Op::GitCommit => TaskView::Git(commit_plan(a, b, flag_at(c.args, 2))),
        Op::GitCheckoutBranch => TaskView::Git(checkout_plan(a, trim(b), flag_at(c.args, 2))),
        Op::GitResolveConflict => TaskView::Git(
            resolve_conflict_plan(a, b, text_or_empty(c.args, 2)),
        ),
        Op::ReadFile => TaskView::ReadFile(a),
        Op::ReadFileBase64 => TaskView::ReadFileBase64(a),
        Op::DownloadFile => TaskView::DownloadFile(a),
        Op::FileExists => TaskView::FileExists(a),
        Op::ListFiles => TaskView::ListFiles(a),
        Op::ReadDirectory => TaskView::ReadDirectory { path: a, max_depth: small_at(c.args, 1) },
        Op::WriteFile => TaskView::WriteFile { path: a, content: b },
        Op::UploadFile => TaskView::UploadFile { path: a, content: b },
        Op::CreateFile => TaskView::CreateFile { path: a, content: b },
        Op::CreateDirectory => TaskView::CreateDirectory(a),
        Op::RenameEntry => TaskView::RenameEntry { from: a, to: b },
        Op::CopyEntry => TaskView::CopyEntry { from: a, to: b },
        Op::DeleteEntry => TaskView::DeleteEntry(a),
        Op::ExtractZip => TaskView::ExtractZip { content: a, dest: b },
        Op::SearchInFiles => TaskView::SearchInFiles {
            path: a,
            query: b,
            case_sensitive: flag_at(c.args, 2),
            whole_word: flag_at(c.args, 3),
            regex: flag_at(c.args, 4),
        },
        Op::ChatModels => TaskView::ChatModels { agent: a, api_key: b },
        Op::ChatCheckInstall => TaskView::CheckInstall(a),
        _ => TaskView::GetCwd,
    }
}

/// The task of a command.
pub fn task(call: &Call) -> (r: Task)
    requires
        is_task(call@.op),
    ensures
        r@ == task_of(call@),
{
    let a = take_text_or_empty(call, 0);
    let b = take_text_or_empty(call, 1);
    match call.op {
        Op::RunCommand => Task::RunCommand(a),
        Op::GetGitStatus => Task::Status(get_git_status(a.as_str())),
        Op::GitLog => Task::Log(git_log(a.as_str(), take_size(call, 1))),
        Op::GitStashList => Task::Stashes(git_stash_list(a.as_str())),
        Op::GitBranchList => Task::Branches(git_branch_list(a.as_str())),
        Op::GitUndoCommit => Task::Git(git_undo_commit(a.as_str())),
        Op::GitStash => Task::Git(git_stash(a.as_str())),
        Op::GitStashPop => Task::Git(git_stash_pop(a.as_str())),
        Op::GitPush => Task::Git(git_push(a.as_str())),
        Op::GitFetch => Task::Git(git_fetch(a.as_str())),
        Op::GitPull => Task::Git(git_pull(a.as_str())),
        Op::GitInit => Task::Git(git_init(a.as_str())),
        Op::GitStageAll => Task::Git(git_stage_all(a.as_str())),
        Op::GitUnstageAll => Task::Git(git_unstage_all(a.as_str())),
        Op::GitDiscardAll => Task::Git(git_discard_all(a.as_str())),
        Op::GitMergeAbort => Task::Git(git_merge_abort(a.as_str())),
        Op::GetGitDiff => Task::Git(get_git_diff(a.as_str(), b.as_str())),
        Op::GetGitStagedDiff => Task::Git(get_git_staged_diff(a.as_str(), b.as_str())),
        Op::GetGitHeadFile => Task::Git(get_git_head_file(a.as_str(), b.as_str())),
        Op::GitShowIndex => Task::Git(git_show_index(a.as_str(), b.as_str())),
        Op::GitAdd => Task::Git(git_add(a.as_str(), b.as_str())),
        Op::GitUnstage => Task::Git(git_unstage(a.as_str(), b.as_str())),
        Op::GitDiscard => Task::Git(git_discard(a.as_str(), b.as_str())),
        Op::GitCommitDiff => Task::Git(git_commit_diff(a.as_str(), b.as_str())),
        Op::GitRevert => Task::Git(git_revert(a.as_str(), b.as_str())),
        Op::GitMerge => Task::Git(git_merge(a.as_str(), b.as_str())),
        Op::GitCommit => Task::Git(git_commit(a.as_str(), b.as_str(), take_flag(call, 2))),
        Op::GitCheckoutBranch => Task::Git(
            git_checkout_branch(a.as_str(), b.as_str(), take_flag(call, 2)),
        ),
        Op::GitResolveConflict => {
            let side = take_text_or_empty(call, 2);
            Task::Git(git_resolve_conflict(a.as_str(), b.as_str(), side.as_str()))
        },
        Op::ReadFile => Task::ReadFile(a),
        Op::ReadFileBase64 => Task::ReadFileBase64(a),
        Op::DownloadFile => Task::DownloadFile(a),
        Op::FileExists => Task::FileExists(a),
        Op::ListFiles => Task::ListFiles(a),
        Op::ReadDirectory => Task::ReadDirectory { path: a, max_depth: take_small(call, 1) },
        Op::WriteFile => Task::WriteFile { path: a, content: b },
        Op::UploadFile => Task::UploadFile { path: a, content: b },
        Op::CreateFile => Task::CreateFile { path: a, content: b },
        Op::CreateDirectory => Task::CreateDirectory(a),
        Op::RenameEntry => Task::RenameEntry { from: a, to: b },
        Op::CopyEntry => Task::CopyEntry { from: a, to: b },
        Op::DeleteEntry => Task::DeleteEntry(a),
        Op::ExtractZip => Task::ExtractZip { content: a, dest: b },
        Op::SearchInFiles => Task::SearchInFiles {
            path: a,
            query: b,
            case_sensitive: take_flag(call, 2),
            whole_word: take_flag(call, 3),
            regex: take_flag(call, 4),
        },
        Op::ChatModels => Task::ChatModels { agent: a, api_key: b },
        Op::ChatCheckInstall => Task::CheckInstall(a),
        _ => Task::GetCwd,
    }
}

/// A task tells nothing just where all it does is to change a file or a directory.
pub proof fn changes_have_nothing_to_tell(t: TaskView)
    ensures
        only_acts(t) <==> t is WriteFile || t is UploadFile || t is CreateFile
            || t is CreateDirectory || t is RenameEntry || t is CopyEntry || t is DeleteEntry,
{
}

} // verus!
