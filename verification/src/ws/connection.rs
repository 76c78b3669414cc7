//! What a connection does with what its client asks for.

use vstd::prelude::*;
use vstd::string::*;
use vstd::utf8::encode_utf8;

use crate::chat::attachments::{attachment_views, AttachmentView, ChatAttachmentInput};
use crate::chat::turn::{ChatTurn, TurnAction, TurnEvent, TurnEventView, TurnView};
use crate::json::{no_fields, Fields, Json, JsonView};
use crate::pty::manager::{fresh_entry, has_exited, not_found, PtyManager, SessionEntry};
use crate::pty::session::AttachInfo;
use crate::pty::spawn::{extent, PtySize};
use crate::pty::stream::{msg_view, StreamEvent, SubMsg};
use crate::text::{
    cat2, chars_of, decimal, is_digit, is_white, lemma_decimal, numbers_are_read_back,
    parse_unsigned, read_unsigned, same, text_view, texts, trim, trimmed, trimming_leaves_the_rest,
    write_number,
};
use crate::textmap::TextMap;
use crate::ws::args::{
    attachments_at, number_at, number_or, take_attachments, take_number, take_number_or, take_text,
    take_text_or_empty, take_texts, text_at, text_or_empty, texts_at,
};
use crate::ws::dispatch::{Call, CallView, Op};
use crate::ws::task::{gives_nothing, only_acts, task, task_of, Task, TaskView};
use crate::ws::tracker::ChatProcessTracker;

verus! {

/// After how long a silent client is given up, in nanoseconds.
pub const IDLE_LIMIT: u64 = 60_000_000_000;

/// For how long a session without a subscriber is kept unless it is said
/// otherwise, in seconds.
pub const REAP_UNATTACHED: u64 = 1800;

/// For how long a client that has been silent for a while may go on being so,
/// unless it is given up.
pub fn idle_wait(silent: u64) -> (r: Option<u64>)
    ensures
        r == (if silent >= 60_000_000_000 {
            None
        } else {
            Some((60_000_000_000 - silent) as u64)
        }),
{
    if silent >= IDLE_LIMIT {
        None
    } else {
        Some(IDLE_LIMIT - silent)
    }
}

/// For how many seconds a session without a subscriber is kept: what the
/// setting says, when it is a number.
pub open spec fn keep_alive_of(setting: Option<Seq<char>>) -> int {
    match setting {
        Some(t) => match read_unsigned(trim(t), u64::MAX as int) {
            Some(n) => n,
            None => REAP_UNATTACHED as int,
        },
        None => REAP_UNATTACHED as int,
    }
}

/// For how many seconds a session without a subscriber is kept.
pub fn keep_alive(setting: &Option<String>) -> (r: u64)
    ensures
        r == keep_alive_of(text_view(*setting)),
{
    match setting {
        Some(t) => {
            let chars = chars_of(t.as_str());
            match parse_unsigned(trimmed(chars.as_slice()), u64::MAX) {
                Some(n) => n,
                None => REAP_UNATTACHED,
            }
        },
        None => REAP_UNATTACHED,
    }
}

/// Tells whether a message is a sign of life that wants one back.
pub fn is_ping(v: &Json) -> (r: bool)
    ensures
        r == (v@.get("event"@) == Some(JsonView::Str("__ping"@))),
{
    match v.get("event") {
        Some(Json::Str(s)) => same(s.as_str(), "__ping"),
        _ => false,
    }
}

/// The answer to a sign of life.
pub fn pong() -> (r: Json)
    ensures
        r@ == JsonView::Object(no_fields().push(("event"@, JsonView::Str("__pong"@)))),
{
    Fields::new().text("event", "__pong").object()
}

/// What a client is told of a request.
pub open spec fn reply_of(id: u64, result: Result<JsonView, Seq<char>>) -> JsonView {
    let start = no_fields().push(("id"@, JsonView::Unsigned(id)));
    match result {
        Ok(v) => JsonView::Object(
            start.push(("ok"@, JsonView::Bool(true))).push(("result"@, v)),
        ),
        Err(e) => JsonView::Object(
            start.push(("ok"@, JsonView::Bool(false))).push(("error"@, JsonView::Str(e))),
        ),
    }
}

/// The view of a result of a request.
pub open spec fn outcome_view(r: Result<Json, String>) -> Result<JsonView, Seq<char>> {
    match r {
        Ok(v) => Ok(v@),
        Err(e) => Err(e@),
    }
}

/// The reply to a request.
pub fn reply(id: u64, result: Result<Json, String>) -> (r: Json)
    ensures
        r@ == reply_of(id, outcome_view(result)),
{
    let start = Fields::new().number("id", id);
    match result {
        Ok(v) => start.flag("ok", true).with("result", v).object(),
        Err(e) => start.flag("ok", false).text("error", e.as_str()).object(),
    }
}

/// The reply to what is not a request.
pub fn invalid_request(e: &str) -> (r: Json)
    ensures
        r@ == reply_of(0, Err("invalid request: "@ + e@)),
{
    reply(0, Err(cat2("invalid request: ", e)))
}

/// A number as a JSON value.
pub open spec fn number_view(n: int) -> JsonView {
    if n >= 0 {
        JsonView::Unsigned(n as u64)
    } else {
        JsonView::Negative(n as i64)
    }
}

/// What a client is told of the end of a session.
pub open spec fn exit_message(session_id: Seq<char>, code: Option<i32>) -> JsonView {
    let payload = no_fields().push(("session_id"@, JsonView::Str(session_id))).push(
        (
            "code"@,
            match code {
                Some(c) => number_view(c as int),
                None => JsonView::Null,
            },
        ),
    );
    JsonView::Object(
        no_fields().push(("event"@, JsonView::Str("pty-exit"@))).push(
            ("payload"@, JsonView::Object(payload)),
        ),
    )
}

/// The message that a session has ended.
pub fn pty_exit_message(session_id: &str, code: Option<i32>) -> (r: Json)
    ensures
        r@ == exit_message(session_id@, code),
{
    let c = match code {
        Some(c) => if c >= 0 {
            Json::Unsigned(c as u64)
        } else {
            Json::Negative(c as i64)
        },
        None => Json::Null,
    };
    let payload = Fields::new().text("session_id", session_id).with("code", c).object();
    Fields::new().text("event", "pty-exit").with("payload", payload).object()
}

/// A connection: the sessions whose output it gets, and the chat processes that
/// it has started.
pub struct Connection {
    subscribed: TextMap<bool>,
    processes: TextMap<u32>,
}

/// What a connection stands for.
#[verifier::ext_equal]
pub struct ConnectionView {
    pub subscribed: Set<Seq<char>>,
    pub processes: Map<Seq<char>, u32>,
}

impl View for Connection {
    type V = ConnectionView;

    closed spec fn view(&self) -> ConnectionView {
        ConnectionView { subscribed: self.subscribed@.dom(), processes: self.processes@ }
    }
}

/// The sessions and the chat processes of the server, and a connection.
#[verifier::ext_equal]
pub struct World {
    pub sessions: Map<Seq<char>, SessionEntry>,
    pub owned: Set<u32>,
    pub conn: ConnectionView,
}

/// What is to be done for a request. The answer that an action carries is given
/// once it has succeeded.
#[derive(Debug, PartialEq)]
pub enum Action {
    /// The answer is known.
    Reply(Json),
    /// The request is refused.
    Refuse(String),
    /// A shell is to be started.
    Spawn { session_id: String, shell: Option<String>, cwd: Option<String>, cols: u32, rows: u32 },
    /// The session's output is to be sent from an offset on.
    Stream { session_id: String, from: u64, reply: Json },
    /// The bytes are to be written to the session's terminal.
    Write { session_id: String, data: Vec<u8>, reply: Json },
    /// The session's terminal is to get a size.
    Resize { session_id: String, size: PtySize, reply: Json },
    /// The session's output is no longer to be sent to the connection.
    Detach { session_id: String, reply: Json },
    /// The session is over; its process group is to be killed.
    End { session_id: String, pid: u32, reply: Json },
    /// The process group is to be killed.
    Kill { pid: u32, reply: Json },
    /// The answer is what the connection has transferred, with these sessions.
    Stats { subscribed: Vec<String> },
    /// A turn of a chat is to be run; the answer does not wait for it.
    Chat { turn: ChatTurn, attachments: Vec<ChatAttachmentInput>, reply: Json },
    /// A task is to be carried out. Without an answer here, the answer is what the
    /// task gives.
    Run { task: Task, reply: Option<Json> },
}

/// What an action stands for.
pub enum ActionView {
    Reply(JsonView),
    Refuse(Seq<char>),
    Spawn {
        session_id: Seq<char>,
        shell: Option<Seq<char>>,
        cwd: Option<Seq<char>>,
        cols: u32,
        rows: u32,
    },
    Stream { session_id: Seq<char>, from: u64, reply: JsonView },
    Write { session_id: Seq<char>, data: Seq<u8>, reply: JsonView },
    Resize { session_id: Seq<char>, size: PtySize, reply: JsonView },
    Detach { session_id: Seq<char>, reply: JsonView },
    End { session_id: Seq<char>, pid: u32, reply: JsonView },
    Kill { pid: u32, reply: JsonView },
    Stats { subscribed: Set<Seq<char>> },
    Chat { turn: TurnView, attachments: Seq<AttachmentView>, reply: JsonView },
    Run { task: TaskView, reply: Option<JsonView> },
}

impl View for Action {
    type V = ActionView;

    open spec fn view(&self) -> ActionView {
        match self {
            Action::Reply(v) => ActionView::Reply(v@),
            Action::Refuse(e) => ActionView::Refuse(e@),
            Action::Spawn { session_id, shell, cwd, cols, rows } => ActionView::Spawn {
                session_id: session_id@,
                shell: text_view(*shell),
                cwd: text_view(*cwd),
                cols: *cols,
                rows: *rows,
            },
            Action::Stream { session_id, from, reply } => ActionView::Stream {
                session_id: session_id@,
                from: *from,
                reply: reply@,
            },
            Action::Write { session_id, data, reply } => ActionView::Write {
                session_id: session_id@,
                data: data@,
                reply: reply@,
            },
            Action::Resize { session_id, size, reply } => ActionView::Resize {
                session_id: session_id@,
                size: *size,
                reply: reply@,
            },
            Action::Detach { session_id, reply } => ActionView::Detach {
                session_id: session_id@,
                reply: reply@,
            },
            Action::End { session_id, pid, reply } => ActionView::End {
                session_id: session_id@,
                pid: *pid,
                reply: reply@,
            },
            Action::Kill { pid, reply } => ActionView::Kill { pid: *pid, reply: reply@ },
            Action::Stats { subscribed } => ActionView::Stats {
                subscribed: texts(subscribed@).to_set(),
            },
            Action::Chat { turn, attachments, reply } => ActionView::Chat {
                turn: turn@,
                attachments: attachment_views(attachments@),
                reply: reply@,
            },
            Action::Run { task, reply } => ActionView::Run {
                task: task@,
                reply: match reply {
                    Some(v) => Some(v@),
                    None => None,
                },
            },
        }
    }
}

/// What a client is told that attaches to a session.
pub open spec fn attach_reply(info: AttachInfo) -> JsonView {
    JsonView::Object(
        no_fields().push(("pid"@, JsonView::Unsigned(info.pid as u64))).push(
            ("from"@, JsonView::Unsigned(info.from)),
        ).push(("end"@, JsonView::Unsigned(info.end))).push(
            ("truncated"@, JsonView::Bool(info.truncated)),
        ),
    )
}

/// What a client is told that asks for a session's output from an offset on.
pub open spec fn attach_info(e: SessionEntry, from: Option<u64>) -> AttachInfo {
    AttachInfo {
        pid: e.pid,
        from: (match from {
            Some(f) => e.stream.state.replay_start(f as int),
            None => e.stream.state.ring_start,
        }) as u64,
        end: e.stream.state.total as u64,
        truncated: match from {
            Some(f) => f < e.stream.state.ring_start,
            None => false,
        },
    }
}

/// A connection and the listed chat processes after an event of a turn whose
/// program has the given process.
pub open spec fn turned(
    conn: ConnectionView,
    owned: Set<u32>,
    rid: Seq<char>,
    e: TurnEventView,
    pid: Option<u32>,
) -> (ConnectionView, Set<u32>) {
    match e {
        TurnEventView::Spawned(None) => match pid {
            Some(p) => (
                ConnectionView { processes: conn.processes.insert(rid, p), ..conn },
                owned.insert(p),
            ),
            None => (conn, owned),
        },
        TurnEventView::Ended { .. } | TurnEventView::Lost(_) => (
            ConnectionView { processes: conn.processes.remove(rid), ..conn },
            match pid {
                Some(p) => owned.remove(p),
                None => owned,
            },
        ),
        _ => (conn, owned),
    }
}

/// What happens to the chat processes that are listed.
pub enum ChatEvent {
    /// The client asks for something.
    Request { call: CallView, now: u64 },
    /// A turn goes on whose program has the given process.
    Turn { rid: Seq<char>, event: TurnEventView, pid: Option<u32> },
    /// Another connection or the server of an agent lists a process.
    ListedElsewhere { pid: u32 },
    /// Another connection or the server of an agent takes one off.
    TakenOffElsewhere { pid: u32 },
}

impl World {
    /// The world after something happened.
    pub open spec fn follow(self, e: ChatEvent) -> World {
        match e {
            ChatEvent::Request { call, now } => self.after(call, now),
            ChatEvent::Turn { rid, event, pid } => {
                let (conn, owned) = turned(self.conn, self.owned, rid, event, pid);
                World { conn, owned, ..self }
            },
            ChatEvent::ListedElsewhere { pid } => World { owned: self.owned.insert(pid), ..self },
            ChatEvent::TakenOffElsewhere { pid } => World {
                owned: self.owned.remove(pid),
                ..self
            },
        }
    }

    /// The world after all that happened.
    pub open spec fn follow_all(self, events: Seq<ChatEvent>) -> World
        decreases events.len(),
    {
        if events.len() == 0 {
            self
        } else {
            self.follow_all(events.drop_last()).follow(events.last())
        }
    }

    /// Tells whether what happens is the end of a process, or that it is given up:
    /// its turn is through with waiting for it, or it is cancelled.
    pub open spec fn gives_up(self, e: ChatEvent, pid: u32) -> bool {
        match e {
            ChatEvent::Request { call, now } => {
                let id = text_or_empty(call.args, 0);
                &&& call.op == Op::ChatCancel
                &&& self.conn.processes.contains_key(id)
                &&& self.conn.processes[id] == pid
            },
            ChatEvent::Turn { rid, event, pid: p } => (event is Ended || event is Lost) && p
                == Some(pid),
            ChatEvent::ListedElsewhere { .. } => false,
            ChatEvent::TakenOffElsewhere { pid: p } => p == pid,
        }
    }

    /// The world with the connection's subscriptions changed.
    pub open spec fn with_subscribed(self, s: Set<Seq<char>>) -> World {
        World { conn: ConnectionView { subscribed: s, ..self.conn }, ..self }
    }

    /// The world with a session detached.
    pub open spec fn detached(self, id: Seq<char>, now: u64) -> World {
        if self.sessions.contains_key(id) {
            World {
                sessions: self.sessions.insert(
                    id,
                    SessionEntry {
                        pid: self.sessions[id].pid,
                        stream: self.sessions[id].stream.after(StreamEvent::Detach { now }),
                    },
                ),
                ..self
            }
        } else {
            self
        }
    }

    /// The world after a request.
    pub open spec fn after(self, c: CallView, now: u64) -> World {
        let id = text_or_empty(c.args, 0);
        match c.op {
            Op::PtyAttach => if self.sessions.contains_key(id)
                && !self.sessions[id].stream.state.exited {
                self.with_subscribed(self.conn.subscribed.insert(id))
            } else {
                self
            },
            Op::PtyKill => World {
                sessions: self.sessions.remove(id),
                ..self.with_subscribed(self.conn.subscribed.remove(id))
            },
            Op::PtyDetach => self.with_subscribed(self.conn.subscribed.remove(id)).detached(
                id,
                now,
            ),
            Op::ChatCancel => if self.conn.processes.contains_key(id) {
                World { owned: self.owned.remove(self.conn.processes[id]), ..self }
            } else {
                self
            },
            _ => self,
        }
    }

    /// What is to be done for a request.
    pub open spec fn action(self, c: CallView, request: u64) -> ActionView {
        let id = text_or_empty(c.args, 0);
        let known = self.sessions.contains_key(id);
        match c.op {
            Op::PtySpawn => ActionView::Spawn {
                session_id: id,
                shell: text_at(c.args, 1),
                cwd: text_at(c.args, 2),
                cols: number_or(c.args, 3, 80),
                rows: number_or(c.args, 4, 24),
            },
            Op::PtyAttach => if !known {
                ActionView::Refuse(not_found(id))
            } else if self.sessions[id].stream.state.exited {
                ActionView::Refuse(has_exited(id))
            } else {
                let info = attach_info(self.sessions[id], number_at(c.args, 1));
                ActionView::Stream { session_id: id, from: info.from, reply: attach_reply(info) }
            },
            Op::PtyWrite => if known {
                ActionView::Write {
                    session_id: id,
                    data: encode_utf8(text_or_empty(c.args, 1)),
                    reply: JsonView::Null,
                }
            } else {
                ActionView::Refuse(not_found(id))
            },
            Op::PtyResize => if known {
                ActionView::Resize {
                    session_id: id,
                    size: PtySize {
                        rows: extent(number_or(c.args, 2, 0)) as u16,
                        cols: extent(number_or(c.args, 1, 0)) as u16,
                    },
                    reply: JsonView::Null,
                }
            } else {
                ActionView::Refuse(not_found(id))
            },
            Op::PtyKill => if known {
                ActionView::End {
                    session_id: id,
                    pid: self.sessions[id].pid,
                    reply: JsonView::Null,
                }
            } else {
                ActionView::Refuse(not_found(id))
            },
            Op::PtyDetach => ActionView::Detach { session_id: id, reply: JsonView::Null },
            Op::Ping => ActionView::Reply(
                JsonView::Object(no_fields().push(("pong"@, JsonView::Bool(true)))),
            ),
            Op::ConnectionStats => ActionView::Stats { subscribed: self.conn.subscribed },
            Op::ChatStream => ActionView::Chat {
                turn: TurnView {
                    rid: match text_at(c.args, 6) {
                        Some(r) => r,
                        None => decimal(request as nat),
                    },
                    command: id,
                    args: texts_at(c.args, 1),
                    cwd: text_at(c.args, 2),
                    api_key: text_or_empty(c.args, 3),
                    mode: text_at(c.args, 4),
                    exe: Seq::empty(),
                    paths: Seq::empty(),
                },
                attachments: attachments_at(c.args, 5),
                reply: JsonView::Null,
            },
            Op::ChatCancel => if self.conn.processes.contains_key(id) {
                ActionView::Kill {
                    pid: self.conn.processes[id],
                    reply: JsonView::Object(
                        no_fields().push(("cancelled"@, JsonView::Bool(true))),
                    ),
                }
            } else {
                ActionView::Reply(
                    JsonView::Object(
                        no_fields().push(("cancelled"@, JsonView::Bool(false))).push(
                            ("reason"@, JsonView::Str("Process not found"@)),
                        ),
                    ),
                )
            },
            _ => ActionView::Run {
                task: task_of(c),
                reply: if only_acts(task_of(c)) {
                    Some(JsonView::Null)
                } else {
                    None
                },
            },
        }
    }
}

fn info_json(info: AttachInfo) -> (r: Json)
    ensures
        r@ == attach_reply(info),
{
    Fields::new().number("pid", info.pid as u64).number("from", info.from).number(
        "end",
        info.end,
    ).flag("truncated", info.truncated).object()
}

impl Connection {
    /// The names are kept in order.
    pub closed spec fn wf(&self) -> bool {
        self.subscribed.wf() && self.processes.wf()
    }

    /// A connection that begins.
    pub fn new() -> (r: Self)
        ensures
            r.wf(),
            r@.subscribed == Set::<Seq<char>>::empty(),
            r@.processes == Map::<Seq<char>, u32>::empty(),
    {
        let r = Connection { subscribed: TextMap::new(), processes: TextMap::new() };
        assert(r@.subscribed =~= Set::<Seq<char>>::empty());
        r
    }

    /// Notes the process of a turn, and lists it so that it ends with the server.
    pub fn chat_started(&mut self, rid: String, pid: u32, tracker: &mut ChatProcessTracker)
        requires
            old(self).wf(),
        ensures
            final(self).wf(),
            final(self)@ == (ConnectionView {
                processes: old(self)@.processes.insert(rid@, pid),
                ..old(self)@
            }),
            final(tracker)@ == old(tracker)@.insert(pid),
    {
        tracker.register(pid);
        self.processes.insert(rid, pid);
    }

    /// Notes that the process of a turn has ended, and takes it off the list.
    pub fn chat_ended(&mut self, rid: &str, pid: Option<u32>, tracker: &mut ChatProcessTracker)
        requires
            old(self).wf(),
        ensures
            final(self).wf(),
            final(self)@ == (ConnectionView {
                processes: old(self)@.processes.remove(rid@),
                ..old(self)@
            }),
            final(tracker)@ == (match pid {
                Some(p) => old(tracker)@.remove(p),
                None => old(tracker)@,
            }),
    {
        match pid {
            Some(p) => {
                tracker.unregister(p);
            },
            None => {},
        }
        self.processes.remove(rid);
    }

    /// Decides what is to be done in a turn after an event, `pid` being that of its
    /// program. The program is listed from its start to its end.
    pub fn chat_step(
        &mut self,
        turn: &mut ChatTurn,
        event: TurnEvent,
        pid: Option<u32>,
        tracker: &mut ChatProcessTracker,
    ) -> (r: TurnAction)
        requires
            old(self).wf(),
            event@ matches TurnEventView::Served(_) ==> old(turn)@.args.len() + 2 <= usize::MAX,
        ensures
            final(self).wf(),
            final(turn)@ == old(turn)@.after(event@),
            r@ == old(turn)@.next(event@),
            (final(self)@, final(tracker)@) == turned(
                old(self)@,
                old(tracker)@,
                old(turn)@.rid,
                event@,
                pid,
            ),
    {
        match &event {
            TurnEvent::Spawned(None) => match pid {
                Some(p) => {
                    self.chat_started(turn.rid().to_owned(), p, tracker);
                },
                None => {},
            },
            TurnEvent::Ended { .. } => {
                self.chat_ended(turn.rid(), pid, tracker);
            },
            TurnEvent::Lost(_) => {
                self.chat_ended(turn.rid(), pid, tracker);
            },
            _ => {},
        }
        turn.step(event)
    }

    /// Registers the connection as the one that gets a session's output from an
    /// offset on, or from the oldest byte that is retained.
    pub fn attach_and_stream(
        &mut self,
        session_id: &str,
        mgr: &PtyManager,
        from: Option<u64>,
    ) -> (r: Result<AttachInfo, String>)
        requires
            old(self).wf(),
            mgr.wf(),
        ensures
            final(self).wf(),
            final(self)@.processes == old(self)@.processes,
            match r {
                Ok(info) => {
                    &&& mgr@.contains_key(session_id@)
                    &&& !mgr@[session_id@].stream.state.exited
                    &&& info == attach_info(mgr@[session_id@], from)
                    &&& final(self)@.subscribed == old(self)@.subscribed.insert(session_id@)
                },
                Err(e) => {
                    &&& final(self)@.subscribed == old(self)@.subscribed
                    &&& e@ == (if !mgr@.contains_key(session_id@) {
                        not_found(session_id@)
                    } else {
                        has_exited(session_id@)
                    })
                    &&& mgr@.contains_key(session_id@) ==> mgr@[session_id@].stream.state.exited
                },
            },
    {
        match mgr.subscribe(session_id, from) {
            Err(e) => Err(e),
            Ok(info) => {
                let ghost before = self.subscribed@.dom();
                self.subscribed.insert(session_id.to_owned(), true);
                assert(self.subscribed@.dom() =~= before.insert(session_id@));
                Ok(info)
            },
        }
    }

    /// Keeps a session whose shell was started now and gives its output to the
    /// connection, beginning with the first byte. Gives the answer, and what the
    /// subscriber of a session of the same id before it is told.
    pub fn spawned(
        &mut self,
        session_id: String,
        pid: u32,
        mgr: &mut PtyManager,
        now: u64,
    ) -> (r: (Json, Option<SubMsg>))
        requires
            old(self).wf(),
            old(mgr).wf(),
        ensures
            final(self).wf(),
            final(mgr).wf(),
            final(self)@ == (ConnectionView {
                subscribed: old(self)@.subscribed.insert(session_id@),
                ..old(self)@
            }),
            final(mgr)@ == old(mgr)@.insert(session_id@, fresh_entry(pid, now)),
            r.0@ == JsonView::Object(
                no_fields().push(("id"@, JsonView::Str(session_id@))).push(
                    ("pid"@, JsonView::Unsigned(pid as u64)),
                ).push(("from"@, JsonView::Unsigned(0))).push(("end"@, JsonView::Unsigned(0))),
            ),
            msg_view(r.1) == (if old(mgr)@.contains_key(session_id@) {
                old(mgr)@[session_id@].stream.sent(StreamEvent::Closed)
            } else {
                None
            }),
    {
        let (s, last) = mgr.spawn(session_id, pid, now);
        let ghost before = self.subscribed@.dom();
        self.subscribed.insert(s.id.clone(), true);
        assert(self.subscribed@.dom() =~= before.insert(session_id@));
        let reply = Fields::new().text("id", s.id.as_str()).number("pid", s.pid as u64).number(
            "from",
            0,
        ).number("end", 0).object();
        (reply, last)
    }

    /// Decides what is to be done for a request.
    pub fn handle(
        &mut self,
        call: &Call,
        request: u64,
        mgr: &mut PtyManager,
        tracker: &mut ChatProcessTracker,
        now: u64,
    ) -> (r: Action)
        requires
            old(self).wf(),
            old(mgr).wf(),
        ensures
            final(self).wf(),
            final(mgr).wf(),
            ({
                let w = World { sessions: old(mgr)@, owned: old(tracker)@, conn: old(self)@ };
                &&& (World { sessions: final(mgr)@, owned: final(tracker)@, conn: final(self)@ })
                    == w.after(call@, now)
                &&& r@ == w.action(call@, request)
            }),
    {
        let ghost w = World { sessions: mgr@, owned: tracker@, conn: self@ };
        let id = take_text_or_empty(call, 0);
        match call.op {
            Op::PtySpawn => Action::Spawn {
                session_id: id,
                shell: take_text(call, 1),
                cwd: take_text(call, 2),
                cols: take_number_or(call, 3, 80),
                rows: take_number_or(call, 4, 24),
            },
            Op::PtyAttach => match self.attach_and_stream(id.as_str(), mgr, take_number(call, 1)) {
                Err(e) => Action::Refuse(e),
                Ok(info) => {
                    let reply = info_json(info);
                    Action::Stream { session_id: id, from: info.from, reply }
                },
            },
            Op::PtyWrite => {
                let data = take_text_or_empty(call, 1);
                match mgr.write(id.as_str(), data.as_str()) {
                    Err(e) => Action::Refuse(e),
                    Ok(data) => Action::Write { session_id: id, data, reply: Json::Null },
                }
            },
            Op::PtyResize => {
                let cols = take_number_or(call, 1, 0);
                let rows = take_number_or(call, 2, 0);
                match mgr.resize(id.as_str(), cols, rows) {
                    Err(e) => Action::Refuse(e),
                    Ok(size) => Action::Resize { session_id: id, size, reply: Json::Null },
                }
            },
            Op::PtyKill => {
                let ghost before = self.subscribed@;
                self.subscribed.remove(id.as_str());
                assert(self.subscribed@.dom() =~= before.dom().remove(id@));
                match mgr.kill(id.as_str()) {
                    Err(e) => Action::Refuse(e),
                    Ok(pid) => Action::End { session_id: id, pid, reply: Json::Null },
                }
            },
            Op::PtyDetach => {
                let ghost before = self.subscribed@;
                self.subscribed.remove(id.as_str());
                assert(self.subscribed@.dom() =~= before.dom().remove(id@));
                mgr.unsubscribe(id.as_str(), now);
                Action::Detach { session_id: id, reply: Json::Null }
            },
            Op::Ping => Action::Reply(Fields::new().flag("pong", true).object()),
            Op::ConnectionStats => {
                let subscribed = self.subscribed.keys();
                proof {
                    assert(texts(subscribed@).to_set() =~= self.subscribed@.dom()) by {
                        assert forall|k: Seq<char>|
                            texts(subscribed@).contains(k) <==> self.subscribed@.contains_key(
                                k,
                            ) by {
                            if texts(subscribed@).contains(k) {
                                let i = choose|i: int|
                                    0 <= i < texts(subscribed@).len() && texts(subscribed@)[i]
                                        == k;
                                assert(subscribed@[i]@ == k);
                            }
                        }
                    }
                }
                Action::Stats { subscribed }
            },
            Op::ChatStream => {
                let rid = match take_text(call, 6) {
                    Some(r) => r,
                    None => write_number(request),
                };
                let turn = ChatTurn::new(
                    rid,
                    id,
                    take_texts(call, 1),
                    take_text(call, 2),
                    take_text_or_empty(call, 3),
                    take_text(call, 4),
                );
                Action::Chat {
                    turn,
                    attachments: take_attachments(call, 5),
                    reply: Json::Null,
                }
            },
            Op::ChatCancel => {
                let found: Option<u32> = match self.processes.get(id.as_str()) {
                    Some(pid) => Some(*pid),
                    None => None,
                };
                match found {
                    Some(pid) => {
                        tracker.unregister(pid);
                        Action::Kill { pid, reply: Fields::new().flag("cancelled", true).object() }
                    },
                    None => Action::Reply(
                        Fields::new().flag("cancelled", false).text(
                            "reason",
                            "Process not found",
                        ).object(),
                    ),
                }
            },
            _ => {
                let task = task(call);
                let reply = if gives_nothing(&task) {
                    Some(Json::Null)
                } else {
                    None
                };
                Action::Run { task, reply }
            },
        }
    }

    /// Ends the connection: the sessions whose output it got go on without a
    /// subscriber. They are given, and so are the chat processes that are left, so
    /// that they can be killed.
    pub fn close(
        &mut self,
        mgr: &mut PtyManager,
        tracker: &mut ChatProcessTracker,
        now: u64,
    ) -> (r: (Vec<String>, Vec<u32>))
        requires
            old(self).wf(),
            old(mgr).wf(),
        ensures
            final(self).wf(),
            final(mgr).wf(),
            final(self)@.subscribed == Set::<Seq<char>>::empty(),
            final(self)@.processes == Map::<Seq<char>, u32>::empty(),
            final(mgr)@.dom() == old(mgr)@.dom(),
            forall|id: Seq<char>| #[trigger]
                old(mgr)@.contains_key(id) ==> final(mgr)@[id] == (SessionEntry {
                    pid: old(mgr)@[id].pid,
                    stream: if old(self)@.subscribed.contains(id) {
                        old(mgr)@[id].stream.after(StreamEvent::Detach { now })
                    } else {
                        old(mgr)@[id].stream
                    },
                }),
            texts(r.0@).to_set() == old(self)@.subscribed,
            forall|pid: u32| #[trigger]
                r.1@.contains(pid) <==> exists|rid: Seq<char>| #[trigger]
                    old(self)@.processes.contains_key(rid) && old(self)@.processes[rid] == pid,
            forall|pid: u32| #[trigger]
                final(tracker)@.contains(pid) <==> old(tracker)@.contains(pid) && !r.1@.contains(
                    pid,
                ),
    {
        let ghost sessions = mgr@;
        let ghost subs = self.subscribed@;
        let ids = self.subscribed.keys();
        let mut i: usize = 0;
        while i < ids.len()
            invariant
                i <= ids@.len(),
                mgr.wf(),
                mgr@.dom() == sessions.dom(),
                forall|a: int, b: int| 0 <= a < b < ids@.len() ==> ids@[a]@ != ids@[b]@,
                forall|id: Seq<char>| #[trigger]
                    sessions.contains_key(id) ==> mgr@[id] == (SessionEntry {
                        pid: sessions[id].pid,
                        stream: if texts(ids@).take(i as int).contains(id) {
                            sessions[id].stream.after(StreamEvent::Detach { now })
                        } else {
                            sessions[id].stream
                        },
                    }),
            decreases ids@.len() - i,
        {
            let ghost all = texts(ids@);
            let ghost id = ids@[i as int]@;
            let ghost before = mgr@;
            mgr.unsubscribe(ids[i].as_str(), now);
            proof {
                assert(!all.take(i as int).contains(id)) by {
                    if all.take(i as int).contains(id) {
                        let a = choose|a: int| 0 <= a < i && all.take(i as int)[a] == id;
                        assert(ids@[a]@ == id);
                    }
                }
                assert forall|k: Seq<char>|
                    all.take(i + 1).contains(k) <==> all.take(i as int).contains(k) || k == id by {
                    if all.take(i as int).contains(k) {
                        let a = choose|a: int| 0 <= a < i && all.take(i as int)[a] == k;
                        assert(all.take(i + 1)[a] == k);
                    }
                    if k == id {
                        assert(all.take(i + 1)[i as int] == k);
                    }
                    if all.take(i + 1).contains(k) {
                        let longer = all.take(i + 1);
                        let a = choose|a: int| 0 <= a < longer.len() && longer[a] == k;
                        if a < i {
                            assert(all.take(i as int)[a] == k);
                        }
                    }
                }
                assert(mgr@.dom() =~= sessions.dom());
                assert forall|k: Seq<char>| #[trigger] sessions.contains_key(k) implies mgr@[k]
                    == (SessionEntry {
                    pid: sessions[k].pid,
                    stream: if all.take(i + 1).contains(k) {
                        sessions[k].stream.after(StreamEvent::Detach { now })
                    } else {
                        sessions[k].stream
                    },
                }) by {
                    assert(before.contains_key(k));
                }
            }
            i += 1;
        }
        proof {
            assert(texts(ids@).take(i as int) =~= texts(ids@));
            assert forall|id: Seq<char>| texts(ids@).contains(id) <==> subs.contains_key(id) by {
                if texts(ids@).contains(id) {
                    let a = choose|a: int| 0 <= a < texts(ids@).len() && texts(ids@)[a] == id;
                    assert(ids@[a]@ == id);
                }
            }
            assert(texts(ids@).to_set() =~= subs.dom());
        }
        let ghost procs = self.processes@;
        let rids = self.processes.keys();
        let ghost owned = tracker@;
        let mut out: Vec<u32> = Vec::new();
        let mut k: usize = 0;
        while k < rids.len()
            invariant
                k <= rids@.len(),
                self.processes.wf(),
                self.processes@ == procs,
                forall|a: int| 0 <= a < rids@.len() ==> procs.contains_key((#[trigger] rids@[a])@),
                out@.len() == k,
                forall|a: int| 0 <= a < k ==> #[trigger] out@[a] == procs[rids@[a]@],
                forall|pid: u32| #[trigger]
                    tracker@.contains(pid) <==> owned.contains(pid) && !out@.contains(pid),
            decreases rids@.len() - k,
        {
            assert(procs.contains_key(rids@[k as int]@));
            match self.processes.get(rids[k].as_str()) {
                Some(pid) => {
                    let ghost before = out@;
                    let ghost left = tracker@;
                    out.push(*pid);
                    tracker.unregister(*pid);
                    proof {
                        assert forall|p: u32| #[trigger]
                            tracker@.contains(p) <==> owned.contains(p) && !out@.contains(p) by {
                            assert(left.contains(p) <==> owned.contains(p) && !before.contains(p));
                            assert(out@.contains(p) <==> before.contains(p) || p == *pid) by {
                                if before.contains(p) {
                                    let a = choose|a: int|
                                        0 <= a < before.len() && before[a] == p;
                                    assert(out@[a] == p);
                                }
                                if p == *pid {
                                    assert(out@[before.len() as int] == p);
                                }
                            }
                        }
                    }
                },
                None => {},
            }
            k += 1;
        }
        proof {
            assert forall|pid: u32| #[trigger]
                out@.contains(pid) <==> exists|rid: Seq<char>| #[trigger]
                    procs.contains_key(rid) && procs[rid] == pid by {
                if out@.contains(pid) {
                    let a = choose|a: int| 0 <= a < out@.len() && out@[a] == pid;
                    assert(procs.contains_key(rids@[a]@));
                }
                if exists|rid: Seq<char>| #[trigger]
                    procs.contains_key(rid) && procs[rid] == pid {
                    let rid = choose|rid: Seq<char>| #[trigger]
                        procs.contains_key(rid) && procs[rid] == pid;
                    assert(texts(rids@).contains(rid));
                    let a = choose|a: int| 0 <= a < texts(rids@).len() && texts(rids@)[a] == rid;
                    assert(rids@[a]@ == rid);
                    assert(out@[a] == pid);
                }
            }
        }
        assert(old(self)@.processes == procs);
        self.subscribed = TextMap::new();
        self.processes = TextMap::new();
        assert(self@.subscribed =~= Set::<Seq<char>>::empty());
        (ids, out)
    }
}

impl Default for Connection {
    fn default() -> (r: Self)
        ensures
            r.wf(),
            r@.subscribed == Set::<Seq<char>>::empty(),
            r@.processes == Map::<Seq<char>, u32>::empty(),
    {
        Connection::new()
    }
}

/// Detaching from a session does not end it: it is still there, and can be
/// attached to again.
pub proof fn detaching_keeps_the_session(
    w: World,
    detach: CallView,
    attach: CallView,
    now: u64,
    request: u64,
)
    requires
        detach.op == Op::PtyDetach,
        attach.op == Op::PtyAttach,
        text_or_empty(detach.args, 0) == text_or_empty(attach.args, 0),
        w.sessions.contains_key(text_or_empty(detach.args, 0)),
        !w.sessions[text_or_empty(detach.args, 0)].stream.state.exited,
    ensures
        w.after(detach, now).action(attach, request) is Stream,
        w.after(detach, now).action(attach, request) == w.action(attach, request),
{
}

/// A session that was killed is not known any more.
pub proof fn killed_session_is_gone(
    w: World,
    kill: CallView,
    attach: CallView,
    now: u64,
    request: u64,
)
    requires
        kill.op == Op::PtyKill,
        attach.op == Op::PtyAttach,
        text_or_empty(kill.args, 0) == text_or_empty(attach.args, 0),
    ensures
        w.after(kill, now).action(attach, request) == ActionView::Refuse(
            not_found(text_or_empty(kill.args, 0)),
        ),
{
}

/// A chat process is listed from its start until its turn is through with waiting
/// for it or it is cancelled, whatever else happens meanwhile. So it ends with the
/// server, which ends every process that is listed.
pub proof fn running_chat_is_listed(
    w: World,
    rid: Seq<char>,
    pid: u32,
    events: Seq<ChatEvent>,
)
    requires
        ({
            let start = w.follow(
                ChatEvent::Turn {
                    rid,
                    event: TurnEventView::Spawned(None),
                    pid: Some(pid),
                },
            );
            forall|i: int|
                0 <= i < events.len() ==> !start.follow_all(events.take(i)).gives_up(
                    #[trigger] events[i],
                    pid,
                )
        }),
    ensures
        w.follow(
            ChatEvent::Turn { rid, event: TurnEventView::Spawned(None), pid: Some(pid) },
        ).follow_all(events).owned.contains(pid),
    decreases events.len(),
{
    if events.len() > 0 {
        let front = events.drop_last();
        let start = w.follow(
            ChatEvent::Turn { rid, event: TurnEventView::Spawned(None), pid: Some(pid) },
        );
        assert forall|i: int| 0 <= i < front.len() implies !start.follow_all(front.take(i)).gives_up(
            #[trigger] front[i],
            pid,
        ) by {
            assert(front.take(i) =~= events.take(i));
            assert(front[i] == events[i]);
        }
        running_chat_is_listed(w, rid, pid, front);
        assert(events.take(events.len() - 1) =~= front);
        assert(!start.follow_all(front).gives_up(events[events.len() - 1], pid));
    }
}

proof fn lemma_reply_keys()
    ensures
        "id"@ != "ok"@,
        "id"@ != "result"@,
        "id"@ != "error"@,
        "ok"@ != "result"@,
        "ok"@ != "error"@,
        "result"@ != "error"@,
{
    reveal_strlit("id");
    reveal_strlit("ok");
    reveal_strlit("result");
    reveal_strlit("error");
    assert("id"@.len() == 2 && "ok"@.len() == 2);
    assert("result"@.len() == 6 && "error"@.len() == 5);
    assert("id"@[0] == 'i' && "ok"@[0] == 'o');
}

/// Every reply carries the id of its request. One to a request that was refused
/// says so and why, and has no result.
pub proof fn refused_request_is_told_why(id: u64, e: Seq<char>)
    ensures
        ({
            let r = reply_of(id, Err(e));
            &&& r.get("id"@) == Some(JsonView::Unsigned(id))
            &&& r.get("ok"@) == Some(JsonView::Bool(false))
            &&& r.get("error"@) == Some(JsonView::Str(e))
            &&& r.get("result"@) is None
        }),
{
    lemma_reply_keys();
    reveal_with_fuel(crate::json::field_place, 4);
}

/// A reply to a request that was not refused has the result, and no reason.
pub proof fn request_gets_its_result(id: u64, v: JsonView)
    ensures
        ({
            let r = reply_of(id, Ok(v));
            &&& r.get("id"@) == Some(JsonView::Unsigned(id))
            &&& r.get("ok"@) == Some(JsonView::Bool(true))
            &&& r.get("result"@) == Some(v)
            &&& r.get("error"@) is None
        }),
{
    lemma_reply_keys();
    reveal_with_fuel(crate::json::field_place, 4);
}

/// A session without a subscriber is kept for as many seconds as the setting says, whatever
/// white space is around the number, and for half an hour where it says none.
pub proof fn sessions_are_kept_as_long_as_set(n: u64, before: Seq<char>, after: Seq<char>)
    requires
        is_white(before),
        is_white(after),
    ensures
        keep_alive_of(Some(before + decimal(n as nat) + after)) == n,
        keep_alive_of(None) == 1800,
{
    let d = decimal(n as nat);
    lemma_decimal(n as nat);
    assert(is_digit(d[0]) && is_digit(d.last()));
    trimming_leaves_the_rest(before, d, after);
    numbers_are_read_back(n as nat, u64::MAX as int);
}

/// The end of a session is told with its id and its exit code, or null where there is none.
pub proof fn ends_are_told_with_their_code(session_id: Seq<char>, code: i32)
    ensures
        ({
            let told = exit_message(session_id, Some(code));
            let payload = told.get("payload"@)->0;
            &&& told.says("event"@, JsonView::Str("pty-exit"@))
            &&& told.get("payload"@) is Some
            &&& payload.says("session_id"@, JsonView::Str(session_id))
            &&& code >= 0 ==> payload.says("code"@, JsonView::Unsigned(code as u64))
            &&& code < 0 ==> payload.says("code"@, JsonView::Negative(code as i64))
        }),
        exit_message(session_id, None).get("payload"@) matches Some(p) && p.says(
            "session_id"@,
            JsonView::Str(session_id),
        ) && p.says("code"@, JsonView::Null),
{
    reveal_strlit("event");
    reveal_strlit("payload");
    assert("event"@.len() == 5 && "payload"@.len() == 7);
    reveal_with_fuel(crate::json::field_place, 4);
    let some = exit_message(session_id, Some(code));
    let none = exit_message(session_id, None);
    let f = some->Object_0;
    assert(f[0].0 == "event"@ && f[1].0 == "payload"@);
    assert(f.contains(f[0]));
    let p = some.get("payload"@)->0->Object_0;
    let q = none.get("payload"@)->0->Object_0;
    assert(p[0].0 == "session_id"@ && p[1].0 == "code"@);
    assert(q[0].0 == "session_id"@ && q[1].0 == "code"@);
    assert(p.contains(p[0]) && p.contains(p[1]) && q.contains(q[0]) && q.contains(q[1]));
}

/// Only attaching to, detaching from and killing a session and cancelling a turn change what
/// the server knows; every other request leaves it as it is.
pub proof fn other_requests_change_nothing(w: World, c: CallView, now: u64)
    requires
        c.op != Op::PtyAttach,
        c.op != Op::PtyDetach,
        c.op != Op::PtyKill,
        c.op != Op::ChatCancel,
    ensures
        w.after(c, now) == w,
{
}

/// The process of a turn is noted under the turn and listed when it starts, and both are taken
/// back when it has ended or was lost. Other turns and processes stay as they are.
pub proof fn turns_note_their_process(
    conn: ConnectionView,
    owned: Set<u32>,
    rid: Seq<char>,
    pid: u32,
    e: TurnEventView,
    other: Seq<char>,
)
    requires
        other != rid,
    ensures
        ({
            let (c, o) = turned(conn, owned, rid, TurnEventView::Spawned(None), Some(pid));
            &&& c.processes.contains_key(rid) && c.processes[rid] == pid
            &&& o.contains(pid)
            &&& c.subscribed == conn.subscribed
        }),
        e is Ended || e is Lost ==> {
            let (c, o) = turned(conn, owned, rid, e, Some(pid));
            &&& !c.processes.contains_key(rid)
            &&& !o.contains(pid)
            &&& c.subscribed == conn.subscribed
        },
        turned(conn, owned, rid, e, Some(pid)).0.processes.contains_key(other)
            <==> conn.processes.contains_key(other),
        conn.processes.contains_key(other) ==> turned(
            conn,
            owned,
            rid,
            e,
            Some(pid),
        ).0.processes[other] == conn.processes[other],
        forall|p: u32|
            p != pid ==> (#[trigger] turned(conn, owned, rid, e, Some(pid)).1.contains(p)
                <==> owned.contains(p)),
{
}

/// A setting that is no number counts as none.
pub proof fn other_settings_count_as_none(setting: Seq<char>)
    requires
        read_unsigned(trim(setting), u64::MAX as int) is None,
    ensures
        keep_alive_of(Some(setting)) == keep_alive_of(None),
{
}

} // verus!
