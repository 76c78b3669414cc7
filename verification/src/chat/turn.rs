//! One message to an agent, from the request to its end.

use vstd::prelude::*;
use vstd::string::*;

use crate::chat::agents::{
    cli_missing_message, cli_wrong_binary_message, missing_text, wrong_text, CliStatus,
};
use crate::chat::attachments::{
    file_flags, files_follow_the_prompt, flagged, inject_attachment_args,
};
use crate::json::{no_fields, Fields, Json, JsonView};
use crate::process::{code_or, exit_number, lossy, lossy_text, OutcomeView, ProcessOutcome};
use crate::text::{
    blank, cat2, cat3, cat4, cat5, copy_texts, decimal, decimal_int, is_space, pairs, same,
    text_view, texts, trim, trim_text, write_number, write_signed,
};

verus! {

/// How an agent's program is run.
#[derive(Debug, PartialEq)]
pub struct RunPlan {
    pub exe: String,
    pub args: Vec<String>,
    pub cwd: Option<String>,
    /// What is added to the environment.
    pub env: Vec<(String, String)>,
    /// What is taken out of the environment.
    pub env_remove: Vec<String>,
}

/// What a plan stands for.
pub struct RunPlanView {
    pub exe: Seq<char>,
    pub args: Seq<Seq<char>>,
    pub cwd: Option<Seq<char>>,
    pub env: Seq<(Seq<char>, Seq<char>)>,
    pub env_remove: Seq<Seq<char>>,
}

impl View for RunPlan {
    type V = RunPlanView;

    open spec fn view(&self) -> RunPlanView {
        RunPlanView {
            exe: self.exe@,
            args: texts(self.args@),
            cwd: text_view(self.cwd),
            env: pairs(self.env@),
            env_remove: texts(self.env_remove@),
        }
    }
}

/// The key that an agent is given, when there is one.
pub open spec fn key_env(api_key: Seq<char>) -> Seq<(Seq<char>, Seq<char>)> {
    if trim(api_key).len() > 0 {
        seq![("OPENROUTER_API_KEY"@, api_key)]
    } else {
        seq![]
    }
}

/// The environment that makes an agent's output plain and keeps it from waiting
/// for someone.
pub open spec fn quiet_env() -> Seq<(Seq<char>, Seq<char>)> {
    seq![
        ("NO_COLOR"@, "1"@),
        ("CLICOLOR"@, "0"@),
        ("TERM"@, "dumb"@),
        ("CI"@, "1"@),
        ("LANG"@, "C.UTF-8"@),
        ("LC_ALL"@, "C.UTF-8"@),
        ("PYTHONIOENCODING"@, "utf-8"@),
        ("GIT_PAGER"@, "cat"@),
        ("PAGER"@, "cat"@),
    ]
}

/// What would bring colors back.
pub open spec fn color_vars() -> Seq<Seq<char>> {
    seq!["FORCE_COLOR"@, "CLICOLOR_FORCE"@]
}

/// The mode that Kilo knows under a name.
pub open spec fn kilo_mode(m: Seq<char>) -> Seq<char> {
    if m == "ask"@ {
        "ask"@
    } else if m == "plan"@ {
        "plan"@
    } else {
        "code"@
    }
}

/// The configuration that switches Kilo to a mode.
pub open spec fn kilo_config(m: Seq<char>) -> Seq<(Seq<char>, Seq<char>)> {
    seq![("KILO_CONFIG_CONTENT"@, "{\"mode\":\""@ + kilo_mode(m) + "\"}"@)]
}

/// The environment that puts an agent into a mode: only Kilo takes it from there.
/// A blank mode counts as none where `skip_blank` says so.
pub open spec fn mode_env(
    command: Seq<char>,
    mode: Option<Seq<char>>,
    skip_blank: bool,
) -> Seq<(Seq<char>, Seq<char>)> {
    match mode {
        Some(m) => if command == "kilo"@ && !(skip_blank && trim(m).len() == 0) {
            kilo_config(m)
        } else {
            seq![]
        },
        None => seq![],
    }
}

fn push_pair(env: &mut Vec<(String, String)>, key: &str, value: &str)
    ensures
        pairs(final(env)@) == pairs(old(env)@).push((key@, value@)),
{
    let ghost before = pairs(env@);
    env.push((key.to_owned(), value.to_owned()));
    assert(pairs(env@) =~= before.push((key@, value@)));
}

/// Adds the key that an agent is given, when there is one.
pub fn push_key(env: &mut Vec<(String, String)>, api_key: &str)
    ensures
        pairs(final(env)@) == pairs(old(env)@) + key_env(api_key@),
{
    let ghost before = pairs(env@);
    if !blank(api_key) {
        push_pair(env, "OPENROUTER_API_KEY", api_key);
    }
    assert(pairs(env@) =~= before + key_env(api_key@));
}

/// Adds what makes an agent's output plain.
pub fn push_quiet(env: &mut Vec<(String, String)>)
    ensures
        pairs(final(env)@) == pairs(old(env)@) + quiet_env(),
{
    let ghost before = pairs(env@);
    push_pair(env, "NO_COLOR", "1");
    push_pair(env, "CLICOLOR", "0");
    push_pair(env, "TERM", "dumb");
    push_pair(env, "CI", "1");
    push_pair(env, "LANG", "C.UTF-8");
    push_pair(env, "LC_ALL", "C.UTF-8");
    push_pair(env, "PYTHONIOENCODING", "utf-8");
    push_pair(env, "GIT_PAGER", "cat");
    push_pair(env, "PAGER", "cat");
    assert(pairs(env@) =~= before + quiet_env());
}

/// What would bring colors back.
pub fn color_names() -> (r: Vec<String>)
    ensures
        texts(r@) == color_vars(),
{
    let mut v: Vec<String> = Vec::new();
    v.push("FORCE_COLOR".to_owned());
    v.push("CLICOLOR_FORCE".to_owned());
    assert(texts(v@) =~= color_vars());
    v
}

fn push_mode(
    env: &mut Vec<(String, String)>,
    command: &str,
    mode: &Option<String>,
    skip_blank: bool,
)
    ensures
        pairs(final(env)@) == pairs(old(env)@) + mode_env(command@, text_view(*mode), skip_blank),
{
    let ghost before = pairs(env@);
    match mode {
        Some(m) => {
            if same(command, "kilo") && !(skip_blank && blank(m.as_str())) {
                let word = if same(m.as_str(), "ask") {
                    "ask"
                } else if same(m.as_str(), "plan") {
                    "plan"
                } else {
                    "code"
                };
                let config = cat3("{\"mode\":\"", word, "\"}");
                push_pair(env, "KILO_CONFIG_CONTENT", config.as_str());
            }
        },
        None => {},
    }
    assert(pairs(env@) =~= before + mode_env(command@, text_view(*mode), skip_blank));
}

/// How an agent's program is run once, with all its output taken together.
pub open spec fn single_run(
    exe: Seq<char>,
    command: Seq<char>,
    args: Seq<Seq<char>>,
    paths: Seq<Seq<char>>,
    cwd: Option<Seq<char>>,
    api_key: Seq<char>,
    mode: Option<Seq<char>>,
) -> RunPlanView {
    RunPlanView {
        exe,
        args: args + file_flags(paths),
        cwd,
        env: key_env(api_key) + mode_env(command, mode, false),
        env_remove: seq![],
    }
}

/// Decides how an agent's program is run once. `exe` is where it is, when it is
/// anywhere, and `paths` are the files that were written for the attachments.
pub fn chat_stream(
    command: &str,
    exe: Option<String>,
    args: Vec<String>,
    paths: &Vec<String>,
    cwd: Option<String>,
    api_key: &str,
    mode: &Option<String>,
) -> (r: Result<RunPlan, String>)
    ensures
        match r {
            Ok(p) => exe is Some && p@ == single_run(
                exe->0@,
                command@,
                texts(args@),
                texts(paths@),
                text_view(cwd),
                api_key@,
                text_view(*mode),
            ),
            Err(e) => exe is None && e@ == missing_text(command@),
        },
{
    match exe {
        None => Err(cli_missing_message(command)),
        Some(exe) => {
            let mut args = args;
            inject_attachment_args(&mut args, paths);
            let mut env: Vec<(String, String)> = Vec::new();
            assert(pairs(env@) =~= seq![]);
            push_key(&mut env, api_key);
            push_mode(&mut env, command, mode, false);
            let env_remove: Vec<String> = Vec::new();
            assert(texts(env_remove@) =~= seq![]);
            assert(pairs(env@) =~= key_env(api_key@) + mode_env(
                command@,
                text_view(*mode),
                false,
            ));
            Ok(RunPlan { exe, args, cwd, env, env_remove })
        },
    }
}

/// What comes of running an agent's program once.
pub open spec fn run_result(command: Seq<char>, o: OutcomeView) -> Result<Seq<char>, Seq<char>> {
    match o {
        OutcomeView::NotFound(e) => Err(missing_text(command)),
        OutcomeView::Failed(e) => Err("Failed to run "@ + command + ": "@ + e),
        OutcomeView::Exited { success, code, stdout, stderr } => if !success {
            Err(
                command + " exited with code "@ + decimal_int(code_or(code)) + ": "@ + trim(
                    lossy(stderr),
                ),
            )
        } else if lossy(stderr).len() == 0 {
            Ok(lossy(stdout))
        } else {
            Ok(lossy(stdout) + "\n"@ + lossy(stderr))
        },
    }
}

/// The view of a text or of an error.
pub open spec fn result_view(r: Result<String, String>) -> Result<Seq<char>, Seq<char>> {
    match r {
        Ok(t) => Ok(t@),
        Err(e) => Err(e@),
    }
}

/// Reads what came of running an agent's program once: its output, or what went
/// wrong.
pub fn chat_stream_result(command: &str, outcome: ProcessOutcome) -> (r: Result<String, String>)
    ensures
        result_view(r) == run_result(command@, outcome@),
{
    match outcome {
        ProcessOutcome::NotFound(e) => Err(cli_missing_message(command)),
        ProcessOutcome::Failed(e) => Err(cat4("Failed to run ", command, ": ", e.as_str())),
        ProcessOutcome::Exited { success, code, stdout, stderr } => {
            let err = lossy_text(stderr.as_slice());
            if !success {
                let number = write_signed(exit_number(code));
                let tail = trim_text(err.as_str());
                return Err(
                    cat5(command, " exited with code ", number.as_str(), ": ", tail.as_str()),
                );
            }
            let out = lossy_text(stdout.as_slice());
            if err.as_str().unicode_len() == 0 {
                Ok(out)
            } else {
                Ok(cat3(out.as_str(), "\n", err.as_str()))
            }
        },
    }
}

/// A turn of a chat whose output is streamed to the client.
#[derive(Debug, PartialEq)]
pub struct ChatTurn {
    /// By which the client knows the turn.
    rid: String,
    command: String,
    args: Vec<String>,
    cwd: Option<String>,
    api_key: String,
    mode: Option<String>,
    /// Where the agent's program is.
    exe: String,
    /// The files that were written for the attachments.
    paths: Vec<String>,
}

/// What a turn stands for.
#[verifier::ext_equal]
pub struct TurnView {
    pub rid: Seq<char>,
    pub command: Seq<char>,
    pub args: Seq<Seq<char>>,
    pub cwd: Option<Seq<char>>,
    pub api_key: Seq<char>,
    pub mode: Option<Seq<char>>,
    pub exe: Seq<char>,
    pub paths: Seq<Seq<char>>,
}

impl View for ChatTurn {
    type V = TurnView;

    closed spec fn view(&self) -> TurnView {
        TurnView {
            rid: self.rid@,
            command: self.command@,
            args: texts(self.args@),
            cwd: text_view(self.cwd),
            api_key: self.api_key@,
            mode: text_view(self.mode),
            exe: self.exe@,
            paths: texts(self.paths@),
        }
    }
}

/// What has happened in a turn.
#[derive(Debug, PartialEq)]
pub enum TurnEvent {
    Started,
    /// What the working directory is.
    Dir { exists: bool, is_dir: bool },
    /// Where the agent's program is.
    Found(Option<String>),
    /// Whether it can be used.
    Checked(CliStatus),
    /// The files of the attachments were written.
    Written(Result<Vec<String>, String>),
    /// The port at which the agent's server listens.
    Served(Result<u16, String>),
    /// The program was started, or could not be.
    Spawned(Option<String>),
    /// The program ended.
    Ended { success: bool, code: Option<i32> },
    /// The program could not be waited for.
    Lost(String),
}

/// What an event stands for.
pub enum TurnEventView {
    Started,
    Dir { exists: bool, is_dir: bool },
    Found(Option<Seq<char>>),
    Checked(CliStatus),
    Written(Result<Seq<Seq<char>>, Seq<char>>),
    Served(Result<u16, Seq<char>>),
    Spawned(Option<Seq<char>>),
    Ended { success: bool, code: Option<i32> },
    Lost(Seq<char>),
}

impl View for TurnEvent {
    type V = TurnEventView;

    open spec fn view(&self) -> TurnEventView {
        match self {
            TurnEvent::Started => TurnEventView::Started,
            TurnEvent::Dir { exists, is_dir } => TurnEventView::Dir {
                exists: *exists,
                is_dir: *is_dir,
            },
            TurnEvent::Found(p) => TurnEventView::Found(text_view(*p)),
            TurnEvent::Checked(s) => TurnEventView::Checked(*s),
            TurnEvent::Written(r) => TurnEventView::Written(
                match r {
                    Ok(p) => Ok(texts(p@)),
                    Err(e) => Err(e@),
                },
            ),
            TurnEvent::Served(r) => TurnEventView::Served(
                match r {
                    Ok(p) => Ok(*p),
                    Err(e) => Err(e@),
                },
            ),
            TurnEvent::Spawned(e) => TurnEventView::Spawned(text_view(*e)),
            TurnEvent::Ended { success, code } => TurnEventView::Ended {
                success: *success,
                code: *code,
            },
            TurnEvent::Lost(e) => TurnEventView::Lost(e@),
        }
    }
}

/// What is to be done next in a turn.
#[derive(Debug, PartialEq)]
pub enum TurnAction {
    /// Look what the working directory is.
    ProbeDir(String),
    /// Look where the agent's program is.
    Resolve,
    /// Look whether it can be used.
    Check,
    /// Write the files of the attachments.
    Write,
    /// See to it that the agent's server runs.
    Serve,
    /// Start the program.
    Spawn(RunPlan),
    /// Wait for the program to end.
    Wait,
    /// Delete the files, then tell the client that the turn is over.
    Finish { delete: Vec<String>, message: Json },
}

/// What an action stands for.
pub enum TurnActionView {
    ProbeDir(Seq<char>),
    Resolve,
    Check,
    Write,
    Serve,
    Spawn(RunPlanView),
    Wait,
    Finish { delete: Seq<Seq<char>>, message: JsonView },
}

impl View for TurnAction {
    type V = TurnActionView;

    open spec fn view(&self) -> TurnActionView {
        match self {
            TurnAction::ProbeDir(d) => TurnActionView::ProbeDir(d@),
            TurnAction::Resolve => TurnActionView::Resolve,
            TurnAction::Check => TurnActionView::Check,
            TurnAction::Write => TurnActionView::Write,
            TurnAction::Serve => TurnActionView::Serve,
            TurnAction::Spawn(p) => TurnActionView::Spawn(p@),
            TurnAction::Wait => TurnActionView::Wait,
            TurnAction::Finish { delete, message } => TurnActionView::Finish {
                delete: texts(delete@),
                message: message@,
            },
        }
    }
}

/// What a client is told when a turn is over.
pub open spec fn done_message(rid: Seq<char>, error: Option<Seq<char>>) -> JsonView {
    let id = no_fields().push(("id"@, JsonView::Str(rid)));
    let payload = match error {
        None => id,
        Some(e) => id.push(("error"@, JsonView::Str(e))),
    };
    JsonView::Object(
        no_fields().push(("event"@, JsonView::Str("chat-stream-done"@))).push(
            ("payload"@, JsonView::Object(payload)),
        ),
    )
}

/// The message that a turn is over.
pub fn chat_done(rid: &str, error: Option<String>) -> (r: Json)
    ensures
        r@ == done_message(rid@, text_view(error)),
{
    let start = Fields::new().text("id", rid);
    let payload = match error {
        None => start,
        Some(e) => start.text("error", e.as_str()),
    };
    Fields::new().text("event", "chat-stream-done").with("payload", payload.object()).object()
}

/// What a client is told of a line of an agent's output.
pub open spec fn chunk_message(rid: Seq<char>, stream: Seq<char>, line: Seq<char>) -> JsonView {
    let payload = no_fields().push(("id"@, JsonView::Str(rid))).push(
        ("stream"@, JsonView::Str(stream)),
    ).push(("text"@, JsonView::Str(line)));
    JsonView::Object(
        no_fields().push(("event"@, JsonView::Str("chat-stream-chunk"@))).push(
            ("payload"@, JsonView::Object(payload)),
        ),
    )
}

/// The message that carries a line of an agent's output.
pub fn chat_chunk(rid: &str, stream: &str, line: &str) -> (r: Json)
    ensures
        r@ == chunk_message(rid@, stream@, line@),
{
    let payload = Fields::new().text("id", rid).text("stream", stream).text("text", line).object();
    Fields::new().text("event", "chat-stream-chunk").with("payload", payload).object()
}

/// The arguments that make a run attach to a server: right behind the word
/// `run`, when that is the first.
pub open spec fn attached(args: Seq<Seq<char>>, port: u16) -> Seq<Seq<char>> {
    let url = "http://127.0.0.1:"@ + decimal(port as nat);
    if args.len() > 0 && args[0] == "run"@ {
        args.insert(1, "--attach"@).insert(2, url)
    } else {
        args.insert(0, "--attach"@).insert(1, url)
    }
}

/// Makes a run attach to a server.
pub fn attach_args(args: &mut Vec<String>, port: u16)
    requires
        old(args)@.len() + 2 <= usize::MAX,
    ensures
        texts(final(args)@) == attached(texts(old(args)@), port),
{
    let ghost before = texts(args@);
    let number = write_number(port as u64);
    let url = cat2("http://127.0.0.1:", number.as_str());
    let flag = "--attach".to_owned();
    if args.len() > 0 && same(args[0].as_str(), "run") {
        args.insert(1, flag);
        args.insert(2, url);
        assert(before[0] == "run"@);
        assert(texts(args@) =~= before.insert(1, "--attach"@).insert(2, url@));
    } else {
        args.insert(0, flag);
        args.insert(1, url);
        assert(texts(args@) =~= before.insert(0, "--attach"@).insert(1, url@));
    }
}

impl TurnView {
    /// The end of a turn that did not get as far as running the program.
    pub open spec fn refused(self, error: Seq<char>) -> TurnActionView {
        TurnActionView::Finish { delete: seq![], message: done_message(self.rid, Some(error)) }
    }

    /// The end of a turn whose program was to run.
    pub open spec fn over(self, error: Option<Seq<char>>) -> TurnActionView {
        TurnActionView::Finish { delete: self.paths, message: done_message(self.rid, error) }
    }

    /// How the program of the turn is run.
    pub open spec fn plan(self) -> RunPlanView {
        RunPlanView {
            exe: self.exe,
            args: self.args,
            cwd: self.cwd,
            env: key_env(self.api_key) + quiet_env() + mode_env(self.command, self.mode, true),
            env_remove: color_vars(),
        }
    }

    /// The turn after an event.
    pub open spec fn after(self, e: TurnEventView) -> TurnView {
        match e {
            TurnEventView::Found(Some(p)) => TurnView { exe: p, ..self },
            TurnEventView::Written(Ok(paths)) => TurnView {
                args: self.args + file_flags(paths),
                paths,
                ..self
            },
            TurnEventView::Served(Ok(port)) => TurnView { args: attached(self.args, port), ..self },
            _ => self,
        }
    }

    /// What is to be done after an event.
    pub open spec fn next(self, e: TurnEventView) -> TurnActionView {
        match e {
            TurnEventView::Started => match self.cwd {
                Some(d) => TurnActionView::ProbeDir(d),
                None => TurnActionView::Resolve,
            },
            TurnEventView::Dir { exists, is_dir } => match self.cwd {
                Some(d) => if !exists {
                    self.refused(
                        "Working directory '"@ + d
                            + "' does not exist on this server. Open a valid folder (or clear the saved session) and try again."@,
                    )
                } else if !is_dir {
                    self.refused(
                        "Working directory '"@ + d
                            + "' is not a directory. Open a valid folder and try again."@,
                    )
                } else {
                    TurnActionView::Resolve
                },
                None => TurnActionView::Resolve,
            },
            TurnEventView::Found(None) => self.refused(missing_text(self.command)),
            TurnEventView::Found(Some(_)) => TurnActionView::Check,
            TurnEventView::Checked(s) => if s == CliStatus::Available {
                TurnActionView::Write
            } else {
                self.refused(wrong_text(self.command))
            },
            TurnEventView::Written(Err(e)) => self.refused(e),
            TurnEventView::Written(Ok(_)) => TurnActionView::Serve,
            TurnEventView::Served(Err(e)) => self.refused(e),
            TurnEventView::Served(Ok(_)) => TurnActionView::Spawn(self.after(e).plan()),
            TurnEventView::Spawned(Some(e)) => self.over(
                Some("Failed to run "@ + self.command + ": "@ + e),
            ),
            TurnEventView::Spawned(None) => TurnActionView::Wait,
            TurnEventView::Ended { success, code } => if success {
                self.over(None)
            } else {
                self.over(
                    Some(self.command + " exited with code "@ + decimal_int(code_or(code))),
                )
            },
            TurnEventView::Lost(e) => self.over(Some("Process error: "@ + e)),
        }
    }
}

impl ChatTurn {
    /// A turn that begins.
    pub fn new(
        rid: String,
        command: String,
        args: Vec<String>,
        cwd: Option<String>,
        api_key: String,
        mode: Option<String>,
    ) -> (r: Self)
        ensures
            r@ == (TurnView {
                rid: rid@,
                command: command@,
                args: texts(args@),
                cwd: text_view(cwd),
                api_key: api_key@,
                mode: text_view(mode),
                exe: seq![],
                paths: seq![],
            }),
    {
        let exe = "".to_owned();
        proof {
            reveal_strlit("");
            assert(exe@ =~= seq![]);
        }
        let paths: Vec<String> = Vec::new();
        assert(texts(paths@) =~= seq![]);
        ChatTurn { rid, command, args, cwd, api_key, mode, exe, paths }
    }

    /// By which the client knows the turn.
    pub fn rid(&self) -> (r: &str)
        ensures
            r@ == self@.rid,
    {
        self.rid.as_str()
    }

    /// The agent.
    pub fn command(&self) -> (r: &str)
        ensures
            r@ == self@.command,
    {
        self.command.as_str()
    }

    /// The key that the agent is given.
    pub fn api_key(&self) -> (r: &str)
        ensures
            r@ == self@.api_key,
    {
        self.api_key.as_str()
    }

    /// How many arguments the program gets so far.
    pub fn arg_count(&self) -> (r: usize)
        ensures
            r == self@.args.len(),
    {
        self.args.len()
    }

    fn refuse(&self, error: String) -> (r: TurnAction)
        ensures
            r@ == self@.refused(error@),
    {
        let delete: Vec<String> = Vec::new();
        assert(texts(delete@) =~= seq![]);
        TurnAction::Finish { delete, message: chat_done(self.rid.as_str(), Some(error)) }
    }

    fn finish(&self, error: Option<String>) -> (r: TurnAction)
        ensures
            r@ == self@.over(text_view(error)),
    {
        TurnAction::Finish {
            delete: copy_texts(&self.paths),
            message: chat_done(self.rid.as_str(), error),
        }
    }

    fn plan(&self) -> (r: RunPlan)
        ensures
            r@ == self@.plan(),
    {
        let mut env: Vec<(String, String)> = Vec::new();
        assert(pairs(env@) =~= seq![]);
        push_key(&mut env, self.api_key.as_str());
        push_quiet(&mut env);
        push_mode(&mut env, self.command.as_str(), &self.mode, true);
        assert(pairs(env@) =~= self@.plan().env);
        let cwd = match &self.cwd {
            Some(d) => Some(d.clone()),
            None => None,
        };
        RunPlan {
            exe: self.exe.clone(),
            args: copy_texts(&self.args),
            cwd,
            env,
            env_remove: color_names(),
        }
    }

    /// Decides what is to be done after an event.
    pub fn step(&mut self, event: TurnEvent) -> (r: TurnAction)
        requires
            event@ matches TurnEventView::Served(_) ==> old(self)@.args.len() + 2 <= usize::MAX,
        ensures
            final(self)@ == old(self)@.after(event@),
            r@ == old(self)@.next(event@),
    {
        match event {
            TurnEvent::Started => match &self.cwd {
                Some(d) => TurnAction::ProbeDir(d.clone()),
                None => TurnAction::Resolve,
            },
            TurnEvent::Dir { exists, is_dir } => match &self.cwd {
                Some(d) => if !exists {
                    self.refuse(
                        cat3(
                            "Working directory '",
                            d.as_str(),
                            "' does not exist on this server. Open a valid folder (or clear the saved session) and try again.",
                        ),
                    )
                } else if !is_dir {
                    self.refuse(
                        cat3(
                            "Working directory '",
                            d.as_str(),
                            "' is not a directory. Open a valid folder and try again.",
                        ),
                    )
                } else {
                    TurnAction::Resolve
                },
                None => TurnAction::Resolve,
            },
            TurnEvent::Found(found) => match found {
                None => self.refuse(cli_missing_message(self.command.as_str())),
                Some(p) => {
                    self.exe = p;
                    TurnAction::Check
                },
            },
            TurnEvent::Checked(s) => match s {
                CliStatus::Available => TurnAction::Write,
                _ => self.refuse(cli_wrong_binary_message(self.command.as_str())),
            },
            TurnEvent::Written(written) => match written {
                Err(e) => self.refuse(e),
                Ok(paths) => {
                    inject_attachment_args(&mut self.args, &paths);
                    self.paths = paths;
                    TurnAction::Serve
                },
            },
            TurnEvent::Served(served) => match served {
                Err(e) => self.refuse(e),
                Ok(port) => {
                    attach_args(&mut self.args, port);
                    TurnAction::Spawn(self.plan())
                },
            },
            TurnEvent::Spawned(failed) => match failed {
                Some(e) => {
                    let t = cat4("Failed to run ", self.command.as_str(), ": ", e.as_str());
                    self.finish(Some(t))
                },
                None => TurnAction::Wait,
            },
            TurnEvent::Ended { success, code } => if success {
                self.finish(None)
            } else {
                let number = write_signed(exit_number(code));
                let t = cat3(self.command.as_str(), " exited with code ", number.as_str());
                self.finish(Some(t))
            },
            TurnEvent::Lost(e) => {
                let t = cat2("Process error: ", e.as_str());
                self.finish(Some(t))
            },
        }
    }
}

/// However a turn ends, the client is told so under the id of the turn, and the
/// program's own end is told with the files of the attachments deleted first.
pub proof fn every_end_is_told(v: TurnView, e: TurnEventView)
    ensures
        v.next(e) matches TurnActionView::Finish { delete, message } ==> {
            &&& exists|error: Option<Seq<char>>| message == #[trigger] done_message(v.rid, error)
            &&& delete == v.paths || delete == Seq::<Seq<char>>::empty()
        },
        e matches TurnEventView::Ended { success, code } ==> {
            &&& v.next(e) matches TurnActionView::Finish { delete, message }
            &&& delete == v.paths
            &&& success ==> message == done_message(v.rid, None)
        },
        e matches TurnEventView::Lost(_) ==> v.next(e) is Finish,
        e matches TurnEventView::Spawned(Some(_)) ==> v.next(e) matches TurnActionView::Finish {
            delete,
            message,
        } && delete == v.paths,
{
    match v.next(e) {
        TurnActionView::Finish { delete, message } => {
            let error = if e matches TurnEventView::Ended { success, code } && success {
                None
            } else {
                Some(
                    message->Object_0[1].1->Object_0[1].1->Str_0,
                )
            };
            assert(message == done_message(v.rid, error));
        },
        _ => {},
    }
}

/// The program of a turn is started with the prompt's own arguments still in
/// their order, attached to the server that listens at the port.
pub proof fn attaching_keeps_the_rest(args: Seq<Seq<char>>, port: u16)
    ensures
        ({
            let a = attached(args, port);
            let at: int = if args.len() > 0 && args[0] == "run"@ {
                1
            } else {
                0
            };
            &&& a.len() == args.len() + 2
            &&& a[at] == "--attach"@
            &&& a[at + 1] == "http://127.0.0.1:"@ + decimal(port as nat)
            &&& a.take(at) + a.skip(at + 2) == args
        }),
{
    let a = attached(args, port);
    let at: int = if args.len() > 0 && args[0] == "run"@ {
        1
    } else {
        0
    };
    assert(a.take(at) + a.skip(at + 2) =~= args);
}

/// Tells whether an environment gives a variable a value, and no other value.
pub open spec fn gives(
    env: Seq<(Seq<char>, Seq<char>)>,
    name: Seq<char>,
    value: Seq<char>,
) -> bool {
    &&& env.contains((name, value))
    &&& forall|i: int| 0 <= i < env.len() && (#[trigger] env[i]).0 == name ==> env[i].1 == value
}

/// Tells whether an environment leaves a variable as it is.
pub open spec fn leaves(env: Seq<(Seq<char>, Seq<char>)>, name: Seq<char>) -> bool {
    forall|i: int| 0 <= i < env.len() ==> (#[trigger] env[i]).0 != name
}

proof fn lemma_variables_differ()
    ensures
        "KILO_CONFIG_CONTENT"@.len() == 19,
        "OPENROUTER_API_KEY"@.len() == 18,
        "PYTHONIOENCODING"@.len() == 16,
        "GIT_PAGER"@.len() == 9,
        "NO_COLOR"@.len() == 8,
        "CLICOLOR"@.len() == 8,
        "LC_ALL"@.len() == 6,
        "PAGER"@.len() == 5,
        "TERM"@.len() == 4,
        "LANG"@.len() == 4,
        "CI"@.len() == 2,
        "NO_COLOR"@ != "CLICOLOR"@,
        "TERM"@ != "LANG"@,
        "ask"@.len() == 3,
        "plan"@ != "code"@,
        "plan"@.len() == 4,
        "code"@.len() == 4,
{
    reveal_strlit("KILO_CONFIG_CONTENT");
    reveal_strlit("OPENROUTER_API_KEY");
    reveal_strlit("PYTHONIOENCODING");
    reveal_strlit("GIT_PAGER");
    reveal_strlit("NO_COLOR");
    reveal_strlit("CLICOLOR");
    reveal_strlit("LC_ALL");
    reveal_strlit("PAGER");
    reveal_strlit("TERM");
    reveal_strlit("LANG");
    reveal_strlit("CI");
    reveal_strlit("ask");
    reveal_strlit("plan");
    reveal_strlit("code");
    assert("NO_COLOR"@[0] == 'N' && "CLICOLOR"@[0] == 'C');
    assert("TERM"@[0] == 'T' && "LANG"@[0] == 'L');
    assert("plan"@[0] == 'p' && "code"@[0] == 'c');
}

/// Tells whether an environment puts Kilo into a mode.
pub open spec fn puts_into(env: Seq<(Seq<char>, Seq<char>)>, mode: Seq<char>) -> bool {
    gives(env, "KILO_CONFIG_CONTENT"@, "{\"mode\":\""@ + mode + "\"}"@)
}

/// Kilo runs in the mode that was asked for when that is one that it knows, and in
/// code mode for any other. Nothing but a mode for Kilo sets one: a turn passes over
/// one that is blank, a single run takes it for another.
pub proof fn kilo_runs_in_the_mode_asked_for(
    v: TurnView,
    exe: Seq<char>,
    paths: Seq<Seq<char>>,
)
    ensures
        ({
            let turn = v.plan().env;
            let once = single_run(
                exe,
                v.command,
                v.args,
                paths,
                v.cwd,
                v.api_key,
                v.mode,
            ).env;
            if v.command == "kilo"@ {
                match v.mode {
                    Some(m) => if m == "ask"@ || m == "plan"@ || m == "code"@ {
                        puts_into(turn, m) && puts_into(once, m)
                    } else {
                        &&& trim(m).len() > 0 ==> puts_into(turn, "code"@)
                        &&& trim(m).len() == 0 ==> leaves(turn, "KILO_CONFIG_CONTENT"@)
                        &&& puts_into(once, "code"@)
                    },
                    None => leaves(turn, "KILO_CONFIG_CONTENT"@) && leaves(
                        once,
                        "KILO_CONFIG_CONTENT"@,
                    ),
                }
            } else {
                leaves(turn, "KILO_CONFIG_CONTENT"@) && leaves(once, "KILO_CONFIG_CONTENT"@)
            }
        }),
{
    lemma_variables_differ();
    lemma_known_modes_are_not_blank();
    let key = key_env(v.api_key);
    let turn = v.plan().env;
    let once = single_run(exe, v.command, v.args, paths, v.cwd, v.api_key, v.mode).env;
    let a = mode_env(v.command, v.mode, true);
    let b = mode_env(v.command, v.mode, false);
    assert(turn == key + quiet_env() + a);
    assert(once == key + b);
    if a.len() > 0 {
        assert(turn[turn.len() - 1] == a[0]);
        assert(turn.contains(turn[turn.len() - 1]));
    }
    if b.len() > 0 {
        assert(once[once.len() - 1] == b[0]);
        assert(once.contains(once[once.len() - 1]));
    }
    assert forall|i: int| 0 <= i < turn.len() - a.len() implies (#[trigger] turn[i]).0
        != "KILO_CONFIG_CONTENT"@ by {
        if i >= key.len() {
            assert(turn[i] == quiet_env()[i - key.len()]);
        }
    }
    assert forall|i: int| 0 <= i < once.len() - b.len() implies (#[trigger] once[i]).0
        != "KILO_CONFIG_CONTENT"@ by {}
}

proof fn lemma_known_modes_are_not_blank()
    ensures
        trim("ask"@).len() > 0,
        trim("plan"@).len() > 0,
        trim("code"@).len() > 0,
{
    reveal_strlit("ask");
    reveal_strlit("plan");
    reveal_strlit("code");
    assert("ask"@[0] == 'a' && "ask"@[2] == 'k');
    assert("plan"@[0] == 'p' && "plan"@[3] == 'n');
    assert("code"@[0] == 'c' && "code"@[3] == 'e');
    lemma_not_blank("ask"@);
    lemma_not_blank("plan"@);
    lemma_not_blank("code"@);
}

proof fn lemma_not_blank(s: Seq<char>)
    requires
        s.len() > 0,
        !is_space(s[0]),
        !is_space(s.last()),
    ensures
        trim(s) == s,
{
}

/// A program gets the key of its turn under the name by which agents look for it, and
/// none where the key is blank.
pub proof fn programs_get_their_key(v: TurnView)
    ensures
        if trim(v.api_key).len() > 0 {
            gives(v.plan().env, "OPENROUTER_API_KEY"@, v.api_key)
        } else {
            leaves(v.plan().env, "OPENROUTER_API_KEY"@)
        },
{
    lemma_variables_differ();
    let key = key_env(v.api_key);
    let env = v.plan().env;
    if key.len() > 0 {
        assert(env[0] == key[0]);
        assert(env.contains(env[0]));
    }
    assert forall|i: int| key.len() <= i < env.len() implies (#[trigger] env[i]).0
        != "OPENROUTER_API_KEY"@ by {
        if i < key.len() + quiet_env().len() {
            assert(env[i] == quiet_env()[i - key.len()]);
        }
    }
}

/// A program of a turn writes plain text in UTF-8 and waits for nobody: it gets what
/// says so, and what would bring colors back is taken from it.
pub proof fn programs_are_kept_plain(v: TurnView)
    ensures
        gives(v.plan().env, "NO_COLOR"@, "1"@),
        gives(v.plan().env, "CLICOLOR"@, "0"@),
        gives(v.plan().env, "TERM"@, "dumb"@),
        gives(v.plan().env, "CI"@, "1"@),
        gives(v.plan().env, "LANG"@, "C.UTF-8"@),
        gives(v.plan().env, "LC_ALL"@, "C.UTF-8"@),
        gives(v.plan().env, "PYTHONIOENCODING"@, "utf-8"@),
        gives(v.plan().env, "GIT_PAGER"@, "cat"@),
        gives(v.plan().env, "PAGER"@, "cat"@),
        v.plan().env_remove.contains("FORCE_COLOR"@),
        v.plan().env_remove.contains("CLICOLOR_FORCE"@),
        v.plan().env_remove.len() == 2,
{
    lemma_variables_differ();
    let key = key_env(v.api_key);
    let env = v.plan().env;
    let quiet = quiet_env();
    assert forall|i: int| 0 <= i < quiet.len() implies env.contains(#[trigger] quiet[i]) by {
        assert(env[key.len() + i] == quiet[i]);
    }
    assert(quiet[0].0 == "NO_COLOR"@ && quiet[1].0 == "CLICOLOR"@ && quiet[2].0 == "TERM"@);
    assert(quiet[3].0 == "CI"@ && quiet[4].0 == "LANG"@ && quiet[5].0 == "LC_ALL"@);
    assert(quiet[6].0 == "PYTHONIOENCODING"@ && quiet[7].0 == "GIT_PAGER"@);
    assert(quiet[8].0 == "PAGER"@);
    assert forall|i: int| 0 <= i < env.len() implies #[trigger] env[i] == (if i < key.len() {
        key[i]
    } else if i < key.len() + 9 {
        quiet[i - key.len()]
    } else {
        mode_env(v.command, v.mode, true)[i - key.len() - 9]
    }) by {}
    assert(v.plan().env_remove[0] == "FORCE_COLOR"@ && v.plan().env_remove[1]
        == "CLICOLOR_FORCE"@);
}

/// Tells whether a file is handed to an agent at a place among its arguments.
pub open spec fn handed_over(args: Seq<Seq<char>>, at: int, path: Seq<char>) -> bool {
    args[at] == "-f"@ && args[at + 1] == path
}

/// The program of a turn is the one that was found, in the directory that was asked
/// for. Its arguments are those of the request in their order, with each file of the
/// attachments behind a flag of its own after them, and it is attached to the server
/// that listens at the port.
pub proof fn a_turn_runs_what_was_asked_for(
    v: TurnView,
    exe: Seq<char>,
    paths: Seq<Seq<char>>,
    port: u16,
)
    ensures
        ({
            let found = v.after(TurnEventView::Found(Some(exe)));
            let written = found.after(TurnEventView::Written(Ok(paths)));
            let at: int = if v.args.len() > 0 && v.args[0] == "run"@ {
                1
            } else {
                0
            };
            written.next(TurnEventView::Served(Ok(port))) matches TurnActionView::Spawn(p) && {
                let own = p.args.take(at) + p.args.skip(at + 2);
                &&& p.exe == exe
                &&& p.cwd == v.cwd
                &&& p.args.len() == v.args.len() + 2 * paths.len() + 2
                &&& p.args[at] == "--attach"@
                &&& p.args[at + 1] == "http://127.0.0.1:"@ + decimal(port as nat)
                &&& own.take(v.args.len() as int) == v.args
                &&& forall|i: int|
                    0 <= i < paths.len() ==> handed_over(
                        own,
                        v.args.len() + 2 * i,
                        #[trigger] paths[i],
                    )
            }
        }),
{
    reveal_strlit("-f");
    reveal_strlit("run");
    assert("-f"@.len() == 2 && "run"@.len() == 3);
    let found = v.after(TurnEventView::Found(Some(exe)));
    let written = found.after(TurnEventView::Written(Ok(paths)));
    let all = v.args + file_flags(paths);
    assert(written.args == all);
    files_follow_the_prompt(v.args, paths);
    if paths.len() > 0 && v.args.len() == 0 {
        assert(flagged(file_flags(paths), paths[0], 0));
        assert(all[0] == "-f"@);
    }
    attaching_keeps_the_rest(all, port);
    let p = written.after(TurnEventView::Served(Ok(port))).plan();
    let at: int = if v.args.len() > 0 && v.args[0] == "run"@ {
        1
    } else {
        0
    };
    let own = p.args.take(at) + p.args.skip(at + 2);
    assert(p.args == attached(all, port));
    assert(v.args.len() > 0 ==> all[0] == v.args[0]);
    assert(own == all);
    assert(p.args.len() == v.args.len() + 2 * paths.len() + 2);
    assert(p.args[at] == "--attach"@);
    assert(p.args[at + 1] == "http://127.0.0.1:"@ + decimal(port as nat));
    assert(own.take(v.args.len() as int) =~= v.args);
    assert(p.exe == exe && p.cwd == v.cwd);
    assert(written.next(TurnEventView::Served(Ok(port))) == TurnActionView::Spawn(p));
    assert forall|i: int| 0 <= i < paths.len() implies handed_over(
        own,
        v.args.len() + 2 * i,
        #[trigger] paths[i],
    ) by {
        assert(flagged(file_flags(paths), paths[i], i));
    }
}

/// A program is started only once it was found and can be used, the files are written
/// and its server listens; and each of these is asked for in its turn.
pub proof fn a_turn_goes_on_in_order(v: TurnView, e: TurnEventView)
    ensures
        v.next(e) is Spawn <==> (e matches TurnEventView::Served(Ok(_))),
        v.next(e) is Serve <==> (e matches TurnEventView::Written(Ok(_))),
        v.next(e) is Write <==> e == TurnEventView::Checked(CliStatus::Available),
        v.next(e) is Check <==> (e matches TurnEventView::Found(Some(_))),
        v.next(e) is Wait <==> e == TurnEventView::Spawned(None),
        v.cwd is None ==> v.next(TurnEventView::Started) is Resolve,
        v.cwd matches Some(d) ==> v.next(TurnEventView::Started) == TurnActionView::ProbeDir(d),
        v.cwd is Some && (e matches TurnEventView::Dir { exists, is_dir }) ==> (v.next(
            e,
        ) is Resolve <==> e->exists && e->is_dir),
{
}

/// The message at the end of a turn names the turn, and the error when there was one.
pub proof fn the_end_of_a_turn_is_told(rid: Seq<char>, error: Option<Seq<char>>)
    ensures
        ({
            let m = done_message(rid, error);
            &&& m.get("event"@) == Some(JsonView::Str("chat-stream-done"@))
            &&& m.get("payload"@) matches Some(p) && {
                &&& p.get("id"@) == Some(JsonView::Str(rid))
                &&& p.get("error"@) == (match error {
                    Some(e) => Some(JsonView::Str(e)),
                    None => None,
                })
            }
        }),
{
    reveal_strlit("event");
    reveal_strlit("payload");
    reveal_strlit("id");
    reveal_strlit("error");
    assert("event"@.len() == 5 && "payload"@.len() == 7 && "id"@.len() == 2);
    assert("error"@.len() == 5);
    reveal_with_fuel(crate::json::field_place, 4);
}

/// A line of an agent's output is told with the turn and the stream that it comes from.
pub proof fn a_line_is_told_with_its_stream(rid: Seq<char>, stream: Seq<char>, line: Seq<char>)
    ensures
        ({
            let m = chunk_message(rid, stream, line);
            &&& m.get("event"@) == Some(JsonView::Str("chat-stream-chunk"@))
            &&& m.get("payload"@) matches Some(p) && {
                &&& p.get("id"@) == Some(JsonView::Str(rid))
                &&& p.get("stream"@) == Some(JsonView::Str(stream))
                &&& p.get("text"@) == Some(JsonView::Str(line))
            }
        }),
{
    reveal_strlit("event");
    reveal_strlit("payload");
    reveal_strlit("id");
    reveal_strlit("stream");
    reveal_strlit("text");
    assert("event"@.len() == 5 && "payload"@.len() == 7 && "id"@.len() == 2);
    assert("stream"@.len() == 6 && "text"@.len() == 4);
    reveal_with_fuel(crate::json::field_place, 4);
}

/// A turn ends well just when its program does. Otherwise the client is told with what
/// code the program ended, or why it could not be started or waited for; and the files
/// of the attachments are deleted in every case.
pub proof fn a_turn_ends_as_its_program_does(v: TurnView, code: Option<i32>, e: Seq<char>)
    ensures
        v.next(TurnEventView::Ended { success: true, code }) == (TurnActionView::Finish {
            delete: v.paths,
            message: done_message(v.rid, None),
        }),
        v.next(TurnEventView::Ended { success: false, code }) == (TurnActionView::Finish {
            delete: v.paths,
            message: done_message(
                v.rid,
                Some(
                    v.command + " exited with code "@ + decimal_int(
                        match code {
                            Some(c) => c as int,
                            None => -1,
                        },
                    ),
                ),
            ),
        }),
        v.next(TurnEventView::Spawned(Some(e))) == (TurnActionView::Finish {
            delete: v.paths,
            message: done_message(v.rid, Some("Failed to run "@ + v.command + ": "@ + e)),
        }),
        v.next(TurnEventView::Lost(e)) == (TurnActionView::Finish {
            delete: v.paths,
            message: done_message(v.rid, Some("Process error: "@ + e)),
        }),
{
}

/// What a single run of an agent gives is its output, with its complaints behind it
/// when there are any; a run that fails gives its code and complaints.
pub proof fn a_single_run_gives_its_output(
    command: Seq<char>,
    out: Seq<u8>,
    err: Seq<u8>,
    code: i32,
)
    ensures
        ({
            let ended = |success: bool|
                run_result(
                    command,
                    OutcomeView::Exited { success, code: Some(code), stdout: out, stderr: err },
                );
            &&& ended(true) matches Ok(t) && {
                &&& t.take(lossy(out).len() as int) == lossy(out)
                &&& lossy(err).len() == 0 ==> t == lossy(out)
                &&& lossy(err).len() > 0 ==> t.skip(lossy(out).len() as int) == "\n"@ + lossy(err)
            }
            &&& ended(false) == Err::<Seq<char>, Seq<char>>(
                command + " exited with code "@ + decimal_int(code as int) + ": "@ + trim(
                    lossy(err),
                ),
            )
        }),
{
    let t = run_result(
        command,
        OutcomeView::Exited { success: true, code: Some(code), stdout: out, stderr: err },
    )->Ok_0;
    assert(t.take(lossy(out).len() as int) =~= lossy(out));
    if lossy(err).len() > 0 {
        assert(t.skip(lossy(out).len() as int) =~= "\n"@ + lossy(err));
    }
}

} // verus!
