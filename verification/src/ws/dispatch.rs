//! The commands that a client can ask for, and how their arguments are read.

use vstd::prelude::*;
use vstd::string::*;

use crate::chat::attachments::{
    attachment_views, described_attachments, read_attachments, AttachmentView, ChatAttachmentInput,
};
use crate::json::{described, wrong_type, wrong_value, Json, JsonView};
use crate::text::{cat2, cat4, same, texts};

verus! {

/// What a client can ask for.
#[derive(Debug, Clone, Copy, PartialEq, Eq, Structural)]
pub enum Op {
    PtySpawn,
    PtyAttach,
    PtyWrite,
    PtyResize,
    PtyKill,
    PtyDetach,
    Ping,
    ConnectionStats,
    RunCommand,
    GetGitStatus,
    GitUndoCommit,
    GitStashList,
    GitStash,
    GitStashPop,
    GitPush,
    GitFetch,
    GitPull,
    GitInit,
    GitStageAll,
    GitUnstageAll,
    GitDiscardAll,
    GitBranchList,
    GitMergeAbort,
    GetGitDiff,
    GetGitStagedDiff,
    GetGitHeadFile,
    GitShowIndex,
    GitAdd,
    GitUnstage,
    GitDiscard,
    GitCommit,
    GitLog,
    GitCommitDiff,
    GitRevert,
    GitCheckoutBranch,
    GitMerge,
    GitResolveConflict,
    GetCwd,
    ReadFile,
    ReadFileBase64,
    FileExists,
    CreateDirectory,
    DeleteEntry,
    DownloadFile,
    ListFiles,
    WriteFile,
    UploadFile,
    ReadDirectory,
    CreateFile,
    RenameEntry,
    CopyEntry,
    ExtractZip,
    SearchInFiles,
    ChatStream,
    ChatCancel,
    ChatModels,
    ChatCheckInstall,
}

/// The command of that name.
pub open spec fn op_named(name: Seq<char>) -> Option<Op> {
    if name == "pty_spawn"@ {
        Some(Op::PtySpawn)
    } else if name == "pty_attach"@ {
        Some(Op::PtyAttach)
    } else if name == "pty_write"@ {
        Some(Op::PtyWrite)
    } else if name == "pty_resize"@ {
        Some(Op::PtyResize)
    } else if name == "pty_kill"@ {
        Some(Op::PtyKill)
    } else if name == "pty_detach"@ {
        Some(Op::PtyDetach)
    } else if name == "ping"@ {
        Some(Op::Ping)
    } else if name == "connection_stats"@ {
        Some(Op::ConnectionStats)
    } else if name == "run_command"@ {
        Some(Op::RunCommand)
    } else if name == "get_git_status"@ {
        Some(Op::GetGitStatus)
    } else if name == "git_undo_commit"@ {
        Some(Op::GitUndoCommit)
    } else if name == "git_stash_list"@ {
        Some(Op::GitStashList)
    } else if name == "git_stash"@ {
        Some(Op::GitStash)
    } else if name == "git_stash_pop"@ {
        Some(Op::GitStashPop)
    } else if name == "git_push"@ {
        Some(Op::GitPush)
    } else if name == "git_fetch"@ {
        Some(Op::GitFetch)
    } else if name == "git_pull"@ {
        Some(Op::GitPull)
    } else if name == "git_init"@ {
        Some(Op::GitInit)
    } else if name == "git_stage_all"@ {
        Some(Op::GitStageAll)
    } else if name == "git_unstage_all"@ {
        Some(Op::GitUnstageAll)
    } else if name == "git_discard_all"@ {
        Some(Op::GitDiscardAll)
    } else if name == "git_branch_list"@ {
        Some(Op::GitBranchList)
    } else if name == "git_merge_abort"@ {
        Some(Op::GitMergeAbort)
    } else if name == "get_git_diff"@ {
        Some(Op::GetGitDiff)
    } else if name == "get_git_staged_diff"@ {
        Some(Op::GetGitStagedDiff)
    } else if name == "get_git_head_file"@ {
        Some(Op::GetGitHeadFile)
    } else if name == "git_show_index"@ {
        Some(Op::GitShowIndex)
    } else if name == "git_add"@ {
        Some(Op::GitAdd)
    } else if name == "git_unstage"@ {
        Some(Op::GitUnstage)
    } else if name == "git_discard"@ {
        Some(Op::GitDiscard)
    } else if name == "git_commit"@ {
        Some(Op::GitCommit)
    } else if name == "git_log"@ {
        Some(Op::GitLog)
    } else if name == "git_commit_diff"@ {
        Some(Op::GitCommitDiff)
    } else if name == "git_revert"@ {
        Some(Op::GitRevert)
    } else if name == "git_checkout_branch"@ {
        Some(Op::GitCheckoutBranch)
    } else if name == "git_merge"@ {
        Some(Op::GitMerge)
    } else if name == "git_resolve_conflict"@ {
        Some(Op::GitResolveConflict)
    } else if name == "get_cwd"@ {
        Some(Op::GetCwd)
    } else if name == "read_file"@ {
        Some(Op::ReadFile)
    } else if name == "read_file_base64"@ {
        Some(Op::ReadFileBase64)
    } else if name == "file_exists"@ {
        Some(Op::FileExists)
    } else if name == "create_directory"@ {
        Some(Op::CreateDirectory)
    } else if name == "delete_entry"@ {
        Some(Op::DeleteEntry)
    } else if name == "download_file"@ {
        Some(Op::DownloadFile)
    } else if name == "list_files"@ {
        Some(Op::ListFiles)
    } else if name == "write_file"@ {
        Some(Op::WriteFile)
    } else if name == "upload_file"@ {
        Some(Op::UploadFile)
    } else if name == "read_directory"@ {
        Some(Op::ReadDirectory)
    } else if name == "create_file"@ {
        Some(Op::CreateFile)
    } else if name == "rename_entry"@ {
        Some(Op::RenameEntry)
    } else if name == "copy_entry"@ {
        Some(Op::CopyEntry)
    } else if name == "extract_zip"@ {
        Some(Op::ExtractZip)
    } else if name == "search_in_files"@ {
        Some(Op::SearchInFiles)
    } else if name == "chat_stream"@ {
        Some(Op::ChatStream)
    } else if name == "chat_cancel"@ {
        Some(Op::ChatCancel)
    } else if name == "chat_models"@ {
        Some(Op::ChatModels)
    } else if name == "chat_check_install"@ {
        Some(Op::ChatCheckInstall)
    } else {
        None
    }
}

/// The command of that name.
pub fn find_op(name: &str) -> (r: Option<Op>)
    ensures
        r == op_named(name@),
{
    if same(name, "pty_spawn") {
        Some(Op::PtySpawn)
    } else if same(name, "pty_attach") {
        Some(Op::PtyAttach)
    } else if same(name, "pty_write") {
        Some(Op::PtyWrite)
    } else if same(name, "pty_resize") {
        Some(Op::PtyResize)
    } else if same(name, "pty_kill") {
        Some(Op::PtyKill)
    } else if same(name, "pty_detach") {
        Some(Op::PtyDetach)
    } else if same(name, "ping") {
        Some(Op::Ping)
    } else if same(name, "connection_stats") {
        Some(Op::ConnectionStats)
    } else if same(name, "run_command") {
        Some(Op::RunCommand)
    } else if same(name, "get_git_status") {
        Some(Op::GetGitStatus)
    } else if same(name, "git_undo_commit") {
        Some(Op::GitUndoCommit)
    } else if same(name, "git_stash_list") {
        Some(Op::GitStashList)
    } else if same(name, "git_stash") {
        Some(Op::GitStash)
    } else if same(name, "git_stash_pop") {
        Some(Op::GitStashPop)
    } else if same(name, "git_push") {
        Some(Op::GitPush)
    } else if same(name, "git_fetch") {
        Some(Op::GitFetch)
    } else if same(name, "git_pull") {
        Some(Op::GitPull)
    } else if same(name, "git_init") {
        Some(Op::GitInit)
    } else if same(name, "git_stage_all") {
        Some(Op::GitStageAll)
    } else if same(name, "git_unstage_all") {
        Some(Op::GitUnstageAll)
    } else if same(name, "git_discard_all") {
        Some(Op::GitDiscardAll)
    } else if same(name, "git_branch_list") {
        Some(Op::GitBranchList)
    } else if same(name, "git_merge_abort") {
        Some(Op::GitMergeAbort)
    } else if same(name, "get_git_diff") {
        Some(Op::GetGitDiff)
    } else if same(name, "get_git_staged_diff") {
        Some(Op::GetGitStagedDiff)
    } else if same(name, "get_git_head_file") {
        Some(Op::GetGitHeadFile)
    } else if same(name, "git_show_index") {
        Some(Op::GitShowIndex)
    } else if same(name, "git_add") {
        Some(Op::GitAdd)
    } else if same(name, "git_unstage") {
        Some(Op::GitUnstage)
    } else if same(name, "git_discard") {
        Some(Op::GitDiscard)
    } else if same(name, "git_commit") {
        Some(Op::GitCommit)
    } else if same(name, "git_log") {
        Some(Op::GitLog)
    } else if same(name, "git_commit_diff") {
        Some(Op::GitCommitDiff)
    } else if same(name, "git_revert") {
        Some(Op::GitRevert)
    } else if same(name, "git_checkout_branch") {
        Some(Op::GitCheckoutBranch)
    } else if same(name, "git_merge") {
        Some(Op::GitMerge)
    } else if same(name, "git_resolve_conflict") {
        Some(Op::GitResolveConflict)
    } else if same(name, "get_cwd") {
        Some(Op::GetCwd)
    } else if same(name, "read_file") {
        Some(Op::ReadFile)
    } else if same(name, "read_file_base64") {
        Some(Op::ReadFileBase64)
    } else if same(name, "file_exists") {
        Some(Op::FileExists)
    } else if same(name, "create_directory") {
        Some(Op::CreateDirectory)
    } else if same(name, "delete_entry") {
        Some(Op::DeleteEntry)
    } else if same(name, "download_file") {
        Some(Op::DownloadFile)
    } else if same(name, "list_files") {
        Some(Op::ListFiles)
    } else if same(name, "write_file") {
        Some(Op::WriteFile)
    } else if same(name, "upload_file") {
        Some(Op::UploadFile)
    } else if same(name, "read_directory") {
        Some(Op::ReadDirectory)
    } else if same(name, "create_file") {
        Some(Op::CreateFile)
    } else if same(name, "rename_entry") {
        Some(Op::RenameEntry)
    } else if same(name, "copy_entry") {
        Some(Op::CopyEntry)
    } else if same(name, "extract_zip") {
        Some(Op::ExtractZip)
    } else if same(name, "search_in_files") {
        Some(Op::SearchInFiles)
    } else if same(name, "chat_stream") {
        Some(Op::ChatStream)
    } else if same(name, "chat_cancel") {
        Some(Op::ChatCancel)
    } else if same(name, "chat_models") {
        Some(Op::ChatModels)
    } else if same(name, "chat_check_install") {
        Some(Op::ChatCheckInstall)
    } else {
        None
    }
}

/// What an argument has to be.
#[derive(Debug, Clone, Copy, PartialEq, Eq, Structural)]
pub enum Kind {
    Text,
    U32,
    U64,
    Size,
    Flag,
    Texts,
    Attachments,
}

/// An argument of a command.
#[derive(Debug, PartialEq)]
pub struct Param {
    pub key: String,
    /// Whether the command fails without it.
    pub needed: bool,
    pub kind: Kind,
}

/// What an argument of a command stands for.
pub struct ParamView {
    pub key: Seq<char>,
    pub needed: bool,
    pub kind: Kind,
}

impl View for Param {
    type V = ParamView;

    open spec fn view(&self) -> ParamView {
        ParamView { key: self.key@, needed: self.needed, kind: self.kind }
    }
}

/// The arguments of a command, in the order in which they are read.
pub struct Params {
    list: Vec<Param>,
}

impl View for Params {
    type V = Seq<ParamView>;

    closed spec fn view(&self) -> Seq<ParamView> {
        Seq::new(self.list@.len(), |i: int| self.list@[i]@)
    }
}

/// No arguments.
pub open spec fn no_params() -> Seq<ParamView> {
    Seq::empty()
}

/// An argument without which the command fails.
pub open spec fn need(key: Seq<char>, kind: Kind) -> ParamView {
    ParamView { key, needed: true, kind }
}

/// An argument that may be missing.
pub open spec fn want(key: Seq<char>, kind: Kind) -> ParamView {
    ParamView { key, needed: false, kind }
}

impl Params {
    /// No arguments.
    fn new() -> (r: Self)
        ensures
            r@ == no_params(),
    {
        let r = Params { list: Vec::new() };
        assert(r@ =~= no_params());
        r
    }

    /// One more argument, without which the command fails.
    fn need(self, key: &str, kind: Kind) -> (r: Self)
        ensures
            r@ == self@.push(need(key@, kind)),
    {
        let ghost before = self@;
        let mut list = self.list;
        list.push(Param { key: key.to_owned(), needed: true, kind });
        let r = Params { list };
        assert(r@ =~= before.push(need(key@, kind)));
        r
    }

    /// One more argument, which may be missing.
    fn want(self, key: &str, kind: Kind) -> (r: Self)
        ensures
            r@ == self@.push(want(key@, kind)),
    {
        let ghost before = self@;
        let mut list = self.list;
        list.push(Param { key: key.to_owned(), needed: false, kind });
        let r = Params { list };
        assert(r@ =~= before.push(want(key@, kind)));
        r
    }
}

/// The arguments of a command.
pub open spec fn params_of(op: Op) -> Seq<ParamView> {
    match op {
        Op::PtySpawn => no_params()
            .push(need("sessionId"@, Kind::Text))
            .push(want("shell"@, Kind::Text))
            .push(want("cwd"@, Kind::Text))
            .push(want("cols"@, Kind::U32))
            .push(want("rows"@, Kind::U32)),
        Op::PtyAttach => no_params()
            .push(need("sessionId"@, Kind::Text))
            .push(want("from"@, Kind::U64)),
        Op::PtyWrite => no_params()
            .push(need("sessionId"@, Kind::Text))
            .push(need("data"@, Kind::Text)),
        Op::PtyResize => no_params()
            .push(need("sessionId"@, Kind::Text))
            .push(need("cols"@, Kind::U32))
            .push(need("rows"@, Kind::U32)),
        Op::PtyKill | Op::PtyDetach => no_params().push(need("sessionId"@, Kind::Text)),
        Op::Ping | Op::ConnectionStats | Op::GetCwd => no_params(),
        Op::RunCommand | Op::ChatCheckInstall => no_params().push(need("command"@, Kind::Text)),
        Op::GetGitStatus | Op::GitUndoCommit | Op::GitStashList | Op::GitStash | Op::GitStashPop
        | Op::GitPush | Op::GitFetch | Op::GitPull | Op::GitInit | Op::GitStageAll
        | Op::GitUnstageAll | Op::GitDiscardAll | Op::GitBranchList | Op::GitMergeAbort
        | Op::ReadFile | Op::ReadFileBase64 | Op::FileExists | Op::CreateDirectory
        | Op::DeleteEntry | Op::DownloadFile | Op::ListFiles => no_params()
            .push(need("path"@, Kind::Text)),
        Op::GetGitDiff | Op::GetGitStagedDiff | Op::GetGitHeadFile | Op::GitShowIndex
        | Op::GitAdd | Op::GitUnstage | Op::GitDiscard => no_params()
            .push(need("path"@, Kind::Text))
            .push(need("file"@, Kind::Text)),
        Op::GitCommit => no_params()
            .push(need("path"@, Kind::Text))
            .push(need("message"@, Kind::Text))
            .push(want("amend"@, Kind::Flag)),
        Op::GitLog => no_params().push(need("path"@, Kind::Text)).push(want("limit"@, Kind::Size)),
        Op::GitCommitDiff | Op::GitRevert => no_params()
            .push(need("path"@, Kind::Text))
            .push(need("commit"@, Kind::Text)),
        Op::GitCheckoutBranch => no_params()
            .push(need("path"@, Kind::Text))
            .push(need("name"@, Kind::Text))
            .push(want("create"@, Kind::Flag)),
        Op::GitMerge => no_params()
            .push(need("path"@, Kind::Text))
            .push(need("fromRef"@, Kind::Text)),
        Op::GitResolveConflict => no_params()
            .push(need("path"@, Kind::Text))
            .push(need("file"@, Kind::Text))
            .push(need("side"@, Kind::Text)),
        Op::WriteFile | Op::UploadFile => no_params()
            .push(need("path"@, Kind::Text))
            .push(need("content"@, Kind::Text)),
        Op::ReadDirectory => no_params()
            .push(need("path"@, Kind::Text))
            .push(want("maxDepth"@, Kind::U32)),
        Op::CreateFile => no_params()
            .push(need("path"@, Kind::Text))
            .push(want("content"@, Kind::Text)),
        Op::RenameEntry | Op::CopyEntry => no_params()
            .push(need("from"@, Kind::Text))
            .push(need("to"@, Kind::Text)),
        Op::ExtractZip => no_params()
            .push(need("zipContent"@, Kind::Text))
            .push(need("destDir"@, Kind::Text)),
        Op::SearchInFiles => no_params()
            .push(need("path"@, Kind::Text))
            .push(need("query"@, Kind::Text))
            .push(want("caseSensitive"@, Kind::Flag))
            .push(want("wholeWord"@, Kind::Flag))
            .push(want("regex"@, Kind::Flag)),
        Op::ChatStream => no_params()
            .push(need("command"@, Kind::Text))
            .push(want("args"@, Kind::Texts))
            .push(want("cwd"@, Kind::Text))
            .push(want("apiKey"@, Kind::Text))
            .push(want("mode"@, Kind::Text))
            .push(want("attachments"@, Kind::Attachments))
            .push(want("requestId"@, Kind::Text)),
        Op::ChatCancel => no_params().push(need("id"@, Kind::Text)),
        Op::ChatModels => no_params()
            .push(need("agent"@, Kind::Text))
            .push(want("apiKey"@, Kind::Text)),
    }
}

/// The arguments of a command.
pub fn params(op: Op) -> (r: Params)
    ensures
        r@ == params_of(op),
{
    match op {
        Op::PtySpawn => Params::new()
            .need("sessionId", Kind::Text)
            .want("shell", Kind::Text)
            .want("cwd", Kind::Text)
            .want("cols", Kind::U32)
            .want("rows", Kind::U32),
        Op::PtyAttach => Params::new().need("sessionId", Kind::Text).want("from", Kind::U64),
        Op::PtyWrite => Params::new().need("sessionId", Kind::Text).need("data", Kind::Text),
        Op::PtyResize => Params::new()
            .need("sessionId", Kind::Text)
            .need("cols", Kind::U32)
            .need("rows", Kind::U32),
        Op::PtyKill | Op::PtyDetach => Params::new().need("sessionId", Kind::Text),
        Op::Ping | Op::ConnectionStats | Op::GetCwd => Params::new(),
        Op::RunCommand | Op::ChatCheckInstall => Params::new().need("command", Kind::Text),
        Op::GetGitStatus | Op::GitUndoCommit | Op::GitStashList | Op::GitStash | Op::GitStashPop
        | Op::GitPush | Op::GitFetch | Op::GitPull | Op::GitInit | Op::GitStageAll
        | Op::GitUnstageAll | Op::GitDiscardAll | Op::GitBranchList | Op::GitMergeAbort
        | Op::ReadFile | Op::ReadFileBase64 | Op::FileExists | Op::CreateDirectory
        | Op::DeleteEntry | Op::DownloadFile | Op::ListFiles => Params::new()
            .need("path", Kind::Text),
        Op::GetGitDiff | Op::GetGitStagedDiff | Op::GetGitHeadFile | Op::GitShowIndex
        | Op::GitAdd | Op::GitUnstage | Op::GitDiscard => Params::new()
            .need("path", Kind::Text)
            .need("file", Kind::Text),
        Op::GitCommit => Params::new()
            .need("path", Kind::Text)
            .need("message", Kind::Text)
            .want("amend", Kind::Flag),
        Op::GitLog => Params::new().need("path", Kind::Text).want("limit", Kind::Size),
        Op::GitCommitDiff | Op::GitRevert => Params::new()
            .need("path", Kind::Text)
            .need("commit", Kind::Text),
        Op::GitCheckoutBranch => Params::new()
            .need("path", Kind::Text)
            .need("name", Kind::Text)
            .want("create", Kind::Flag),
        Op::GitMerge => Params::new().need("path", Kind::Text).need("fromRef", Kind::Text),
        Op::GitResolveConflict => Params::new()
            .need("path", Kind::Text)
            .need("file", Kind::Text)
            .need("side", Kind::Text),
        Op::WriteFile | Op::UploadFile => Params::new()
            .need("path", Kind::Text)
            .need("content", Kind::Text),
        Op::ReadDirectory => Params::new().need("path", Kind::Text).want("maxDepth", Kind::U32),
        Op::CreateFile => Params::new().need("path", Kind::Text).want("content", Kind::Text),
        Op::RenameEntry | Op::CopyEntry => Params::new()
            .need("from", Kind::Text)
            .need("to", Kind::Text),
        Op::ExtractZip => Params::new().need("zipContent", Kind::Text).need("destDir", Kind::Text),
        Op::SearchInFiles => Params::new()
            .need("path", Kind::Text)
            .need("query", Kind::Text)
            .want("caseSensitive", Kind::Flag)
            .want("wholeWord", Kind::Flag)
            .want("regex", Kind::Flag),
        Op::ChatStream => Params::new()
            .need("command", Kind::Text)
            .want("args", Kind::Texts)
            .want("cwd", Kind::Text)
            .want("apiKey", Kind::Text)
            .want("mode", Kind::Text)
            .want("attachments", Kind::Attachments)
            .want("requestId", Kind::Text),
        Op::ChatCancel => Params::new().need("id", Kind::Text),
        Op::ChatModels => Params::new().need("agent", Kind::Text).want("apiKey", Kind::Text),
    }
}

/// An argument that was read.
#[derive(Debug, PartialEq)]
pub enum Arg {
    /// The argument may be missing, and is, or is of another kind.
    Missing,
    Text(String),
    Number(u64),
    Flag(bool),
    Texts(Vec<String>),
    Attachments(Vec<ChatAttachmentInput>),
}

/// What an argument that was read stands for.
pub enum ArgView {
    Missing,
    Text(Seq<char>),
    Number(u64),
    Flag(bool),
    Texts(Seq<Seq<char>>),
    Attachments(Seq<AttachmentView>),
}

impl View for Arg {
    type V = ArgView;

    open spec fn view(&self) -> ArgView {
        match self {
            Arg::Missing => ArgView::Missing,
            Arg::Text(s) => ArgView::Text(s@),
            Arg::Number(n) => ArgView::Number(*n),
            Arg::Flag(b) => ArgView::Flag(*b),
            Arg::Texts(v) => ArgView::Texts(texts(v@)),
            Arg::Attachments(v) => ArgView::Attachments(attachment_views(v@)),
        }
    }
}

/// The views of a list of arguments.
pub open spec fn arg_views(v: Seq<Arg>) -> Seq<ArgView> {
    Seq::new(v.len(), |i: int| v[i]@)
}

/// The largest number of a kind.
pub open spec fn largest(kind: Kind) -> u64 {
    match kind {
        Kind::U32 => u32::MAX as u64,
        Kind::Size => usize::MAX as u64,
        _ => u64::MAX,
    }
}

/// A value read as an argument of a kind, when it is one.
pub open spec fn read_as(kind: Kind, v: JsonView) -> Option<ArgView> {
    match kind {
        Kind::Text => match v.text() {
            Some(s) => Some(ArgView::Text(s)),
            None => None,
        },
        Kind::U32 | Kind::U64 | Kind::Size => match v.number(largest(kind)) {
            Some(n) => Some(ArgView::Number(n)),
            None => None,
        },
        Kind::Flag => match v.flag() {
            Some(b) => Some(ArgView::Flag(b)),
            None => None,
        },
        Kind::Texts => match v.text_list() {
            Some(l) => Some(ArgView::Texts(l)),
            None => None,
        },
        Kind::Attachments => match described_attachments(v) {
            Some(l) => Some(ArgView::Attachments(l)),
            None => None,
        },
    }
}

/// What a kind is called in a message that refuses a value.
pub open spec fn kind_name(kind: Kind) -> Seq<char> {
    match kind {
        Kind::Text => "a string"@,
        Kind::U32 => "u32"@,
        Kind::U64 => "u64"@,
        Kind::Size => "usize"@,
        Kind::Flag => "a boolean"@,
        Kind::Texts | Kind::Attachments => "a sequence"@,
    }
}

/// Tells whether a kind is a number.
pub open spec fn is_number(kind: Kind) -> bool {
    kind == Kind::U32 || kind == Kind::U64 || kind == Kind::Size
}

/// Why a value is not of a kind: a number that does not fit is a wrong value,
/// anything else is of a wrong type.
pub open spec fn refusal_of(kind: Kind, v: JsonView) -> Seq<char> {
    if is_number(kind) && (v is Unsigned || v is Negative) {
        wrong_value(v, kind_name(kind))
    } else {
        wrong_type(v, kind_name(kind))
    }
}

/// An argument read out of the arguments of a request.
pub open spec fn read_param(p: ParamView, args: JsonView) -> Result<ArgView, Seq<char>> {
    if p.needed {
        let v = match args.get(p.key) {
            Some(v) => v,
            None => JsonView::Null,
        };
        match read_as(p.kind, v) {
            Some(a) => Ok(a),
            None => Err("invalid arg '"@ + p.key + "': "@ + refusal_of(p.kind, v)),
        }
    } else {
        match args.get(p.key) {
            None => Ok(ArgView::Missing),
            Some(v) => match read_as(p.kind, v) {
                Some(a) => Ok(a),
                None => Ok(ArgView::Missing),
            },
        }
    }
}

/// The first `n` arguments read out of a request, or why the first that cannot
/// be read is refused.
pub open spec fn read_params(ps: Seq<ParamView>, n: nat, args: JsonView) -> Result<
    Seq<ArgView>,
    Seq<char>,
>
    decreases n,
{
    if n == 0 {
        Ok(Seq::empty())
    } else {
        match read_params(ps, (n - 1) as nat, args) {
            Err(e) => Err(e),
            Ok(front) => match read_param(ps[n - 1], args) {
                Err(e) => Err(e),
                Ok(a) => Ok(front.push(a)),
            },
        }
    }
}

/// What a client asks for.
#[derive(Debug, PartialEq)]
pub struct Call {
    pub op: Op,
    pub args: Vec<Arg>,
}

/// What a call stands for.
pub struct CallView {
    pub op: Op,
    pub args: Seq<ArgView>,
}

impl View for Call {
    type V = CallView;

    open spec fn view(&self) -> CallView {
        CallView { op: self.op, args: arg_views(self.args@) }
    }
}

/// What a request asks for, or why it is refused.
pub open spec fn call_of(command: Seq<char>, args: JsonView) -> Result<CallView, Seq<char>> {
    match op_named(command) {
        None => Err("unknown command: "@ + command),
        Some(op) => match read_params(params_of(op), params_of(op).len(), args) {
            Err(e) => Err(e),
            Ok(a) => Ok(CallView { op, args: a }),
        },
    }
}

/// The view of a call or of an error.
pub open spec fn call_view(r: Result<Call, String>) -> Result<CallView, Seq<char>> {
    match r {
        Ok(c) => Ok(c@),
        Err(e) => Err(e@),
    }
}

fn read_value(kind: Kind, v: &Json) -> (r: Option<Arg>)
    ensures
        match r {
            Some(a) => read_as(kind, v@) == Some(a@),
            None => read_as(kind, v@) is None,
        },
{
    match kind {
        Kind::Text => match v.text() {
            Some(s) => Some(Arg::Text(s)),
            None => None,
        },
        Kind::U32 => match v.number(u32::MAX as u64) {
            Some(n) => Some(Arg::Number(n)),
            None => None,
        },
        Kind::U64 => match v.number(u64::MAX) {
            Some(n) => Some(Arg::Number(n)),
            None => None,
        },
        Kind::Size => match v.number(usize::MAX as u64) {
            Some(n) => Some(Arg::Number(n)),
            None => None,
        },
        Kind::Flag => match v.flag() {
            Some(b) => Some(Arg::Flag(b)),
            None => None,
        },
        Kind::Texts => match v.text_list() {
            Some(l) => Some(Arg::Texts(l)),
            None => None,
        },
        Kind::Attachments => match read_attachments(v) {
            Some(l) => Some(Arg::Attachments(l)),
            None => None,
        },
    }
}

fn refuse_value(kind: Kind, v: &Json) -> (r: String)
    ensures
        r@ == refusal_of(kind, v@),
{
    let name = match kind {
        Kind::Text => "a string",
        Kind::U32 => "u32",
        Kind::U64 => "u64",
        Kind::Size => "usize",
        Kind::Flag => "a boolean",
        Kind::Texts | Kind::Attachments => "a sequence",
    };
    let number = match kind {
        Kind::U32 | Kind::U64 | Kind::Size => true,
        _ => false,
    };
    let integer = match v {
        Json::Unsigned(_) | Json::Negative(_) => true,
        _ => false,
    };
    if number && integer {
        v.refuse_value(name)
    } else {
        v.refuse_type(name)
    }
}

fn read_one(p: &Param, args: &Json) -> (r: Result<Arg, String>)
    ensures
        match r {
            Ok(a) => read_param(p@, args@) == Ok::<ArgView, Seq<char>>(a@),
            Err(e) => read_param(p@, args@) == Err::<ArgView, Seq<char>>(e@),
        },
{
    let found = args.get(p.key.as_str());
    if p.needed {
        let null = Json::Null;
        let v: &Json = match found {
            Some(v) => v,
            None => &null,
        };
        match read_value(p.kind, v) {
            Some(a) => Ok(a),
            None => {
                let why = refuse_value(p.kind, v);
                Err(cat4("invalid arg '", p.key.as_str(), "': ", why.as_str()))
            },
        }
    } else {
        match found {
            None => Ok(Arg::Missing),
            Some(v) => match read_value(p.kind, v) {
                Some(a) => Ok(a),
                None => Ok(Arg::Missing),
            },
        }
    }
}

/// Reading more arguments does not make up for one that was refused.
proof fn lemma_refused(ps: Seq<ParamView>, n: nat, m: nat, args: JsonView)
    requires
        n <= m,
        read_params(ps, n, args) is Err,
    ensures
        read_params(ps, m, args) == read_params(ps, n, args),
    decreases m,
{
    if n < m {
        lemma_refused(ps, n, (m - 1) as nat, args);
    }
}

/// Reads what a request asks for. Needed arguments are looked at in order, and
/// the first that is not what it has to be refuses the request.
pub fn decode(command: &str, args: &Json) -> (r: Result<Call, String>)
    ensures
        call_view(r) == call_of(command@, args@),
{
    match find_op(command) {
        None => Err(cat2("unknown command: ", command)),
        Some(op) => {
            let ps = params(op);
            let ghost all = ps@;
            let mut out: Vec<Arg> = Vec::new();
            let mut i: usize = 0;
            assert(arg_views(out@) =~= Seq::empty());
            while i < ps.list.len()
                invariant
                    i <= ps.list@.len(),
                    all == ps@,
                    all == params_of(op),
                    op_named(command@) == Some(op),
                    read_params(all, i as nat, args@) == Ok::<Seq<ArgView>, Seq<char>>(
                        arg_views(out@),
                    ),
                decreases ps.list@.len() - i,
            {
                let ghost before = arg_views(out@);
                assert(all[i as int] == ps.list@[i as int]@);
                match read_one(&ps.list[i], args) {
                    Err(e) => {
                        proof {
                            lemma_refused(all, (i + 1) as nat, all.len(), args@);
                        }
                        return Err(e);
                    },
                    Ok(a) => {
                        out.push(a);
                        assert(arg_views(out@) =~= before.push(a@));
                    },
                }
                i += 1;
            }
            Ok(Call { op, args: out })
        },
    }
}

/// A needed argument that is missing refuses a request, whatever else it holds.
pub proof fn missing_argument_is_refused(command: Seq<char>, args: JsonView, op: Op, i: int)
    requires
        op_named(command) == Some(op),
        0 <= i < params_of(op).len(),
        params_of(op)[i].needed,
        args.get(params_of(op)[i].key) is None,
    ensures
        call_of(command, args) is Err,
{
    let ps = params_of(op);
    assert(read_as(ps[i].kind, JsonView::Null) is None);
    assert(read_param(ps[i], args) is Err);
    assert(read_params(ps, (i + 1) as nat, args) is Err);
    lemma_refused(ps, (i + 1) as nat, ps.len(), args);
}

/// A call that was read has all its arguments, each of its own kind, and a
/// needed one is not missing.
pub proof fn call_is_complete(command: Seq<char>, args: JsonView, i: int)
    requires
        call_of(command, args) is Ok,
        0 <= i < params_of(call_of(command, args)->Ok_0.op).len(),
    ensures
        ({
            let c = call_of(command, args)->Ok_0;
            let p = params_of(c.op)[i];
            &&& c.args.len() == params_of(c.op).len()
            &&& Ok::<ArgView, Seq<char>>(c.args[i]) == read_param(p, args)
            &&& p.needed ==> c.args[i] !is Missing
            &&& c.args[i] !is Missing && p.kind == Kind::Text ==> c.args[i] is Text
        }),
{
    let c = call_of(command, args)->Ok_0;
    lemma_read_all(params_of(c.op), params_of(c.op).len(), args, i);
}

proof fn lemma_read_all(ps: Seq<ParamView>, n: nat, args: JsonView, i: int)
    requires
        n <= ps.len(),
        read_params(ps, n, args) is Ok,
        0 <= i < n,
    ensures
        read_params(ps, n, args)->Ok_0.len() == n,
        Ok::<ArgView, Seq<char>>(read_params(ps, n, args)->Ok_0[i]) == read_param(ps[i], args),
    decreases n,
{
    if i < n - 1 {
        lemma_read_all(ps, (n - 1) as nat, args, i);
    } else if n > 1 {
        lemma_read_all(ps, (n - 1) as nat, args, 0);
    }
}

/// A command that is not known is refused by its name.
pub proof fn unknown_command_is_refused(command: Seq<char>, args: JsonView)
    requires
        op_named(command) is None,
    ensures
        call_of(command, args) == Err::<CallView, Seq<char>>("unknown command: "@ + command),
{
}

/// An argument that is not of its kind is refused where it is needed, and the refusal names it,
/// what was given and what is expected; where it is not needed it counts as missing.
pub proof fn wrong_arguments_are_refused_by_name(key: Seq<char>, kind: Kind, args: JsonView)
    ensures
        ({
            let given = match args.get(key) {
                Some(v) => v,
                None => JsonView::Null,
            };
            let expected = match kind {
                Kind::Text => "a string"@,
                Kind::U32 => "u32"@,
                Kind::U64 => "u64"@,
                Kind::Size => "usize"@,
                Kind::Flag => "a boolean"@,
                Kind::Texts => "a sequence"@,
                Kind::Attachments => "a sequence"@,
            };
            let counts = kind == Kind::U32 || kind == Kind::U64 || kind == Kind::Size;
            let fault = if counts && (given is Unsigned || given is Negative) {
                "invalid value: "@
            } else {
                "invalid type: "@
            };
            read_as(kind, given) is None ==> {
                &&& read_param(need(key, kind), args) == Err::<ArgView, Seq<char>>(
                    "invalid arg '"@ + key + "': "@ + (fault + described(given) + ", expected "@
                        + expected),
                )
                &&& read_param(want(key, kind), args) == Ok::<ArgView, Seq<char>>(ArgView::Missing)
            }
        }),
{
}

/// A value is read as what it is, and as nothing else: a text as a text, a flag as a flag, and a
/// number without a sign as a number of its kind, so long as it is one.
pub proof fn values_are_read_as_what_they_are(v: JsonView)
    ensures
        read_as(Kind::Text, v) is Some <==> v is Str,
        v matches JsonView::Str(s) ==> read_as(Kind::Text, v) == Some(ArgView::Text(s)),
        read_as(Kind::Flag, v) is Some <==> v is Bool,
        v matches JsonView::Bool(b) ==> read_as(Kind::Flag, v) == Some(ArgView::Flag(b)),
        read_as(Kind::U64, v) is Some <==> v is Unsigned,
        v matches JsonView::Unsigned(n) ==> read_as(Kind::U64, v) == Some(ArgView::Number(n)),
        read_as(Kind::U32, v) is Some <==> v is Unsigned && v->Unsigned_0 <= 0xffff_ffff,
        v matches JsonView::Unsigned(n) ==> (n <= 0xffff_ffff ==> read_as(Kind::U32, v) == Some(
            ArgView::Number(n),
        )),
        read_as(Kind::Texts, v) is Some ==> v is Array,
        v matches JsonView::Array(a) ==> ((forall|i: int|
            0 <= i < a.len() ==> (#[trigger] a[i]) is Str) ==> match read_as(Kind::Texts, v) {
            Some(ArgView::Texts(t)) => t.len() == a.len() && forall|i: int|
                0 <= i < a.len() ==> JsonView::Str(#[trigger] t[i]) == a[i],
            _ => false,
        }),
{
}

} // verus!
