//! The servers of the agents, of which one is kept running for each agent.

use vstd::prelude::*;
use vstd::string::*;

use crate::chat::agents::{cli_missing_message, missing_text};
use crate::chat::turn::{
    color_names, color_vars, key_env, push_key, push_quiet, quiet_env, RunPlan, RunPlanView,
};
use crate::text::{
    cat2, cat3, cat4, chars_of, decimal, digit_run, find, first_place, is_digit, leading_digits,
    lemma_decimal, numbers_are_read_back, pairs, parse_u16, read_unsigned, text_view, texts, trim,
};
use crate::textmap::TextMap;
use crate::ws::tracker::ChatProcessTracker;
use vstd::slice::slice_subrange;

verus! {

/// How many lines of a server's output are read in search of its port.
pub const BANNER_LINES: u32 = 40;

/// A server that is running.
#[derive(Debug, Clone, Copy, PartialEq, Eq, Structural)]
pub struct ServerHandle {
    pub port: u16,
    pub pid: u32,
}

/// The servers that are running, by their agents.
pub struct AgentServerManager {
    servers: TextMap<ServerHandle>,
}

impl View for AgentServerManager {
    type V = Map<Seq<char>, ServerHandle>;

    closed spec fn view(&self) -> Map<Seq<char>, ServerHandle> {
        self.servers@
    }
}

/// Tells whether a line names a port: the digits that follow the first mention
/// of the local host.
pub open spec fn names_port(line: Seq<char>, port: int) -> bool {
    exists|i: int| #[trigger]
        first_place(line, "127.0.0.1:"@, i) && {
            let rest = line.skip(i + "127.0.0.1:"@.len());
            read_unsigned(rest.take(digit_run(rest)), u16::MAX as int) == Some(port)
        }
}

/// The port that a line names, or -1.
pub open spec fn port_of(line: Seq<char>) -> int {
    if exists|p: int| names_port(line, p) {
        choose|p: int| names_port(line, p)
    } else {
        -1
    }
}

proof fn lemma_one_port(line: Seq<char>, p: int, q: int)
    requires
        names_port(line, p),
        names_port(line, q),
    ensures
        p == q,
{
    let m = "127.0.0.1:"@;
    let i = choose|i: int| #[trigger]
        first_place(line, m, i) && read_unsigned(
            line.skip(i + m.len()).take(digit_run(line.skip(i + m.len()))),
            u16::MAX as int,
        ) == Some(p);
    let j = choose|j: int| #[trigger]
        first_place(line, m, j) && read_unsigned(
            line.skip(j + m.len()).take(digit_run(line.skip(j + m.len()))),
            u16::MAX as int,
        ) == Some(q);
    assert(i == j);
}

/// The port that a server's banner names, such as
/// `kilo server listening on http://127.0.0.1:4096`.
pub fn extract_port(line: &str) -> (r: Option<u16>)
    ensures
        match r {
            Some(p) => names_port(line@, p as int) && port_of(line@) == p,
            None => (forall|p: int| !names_port(line@, p)) && port_of(line@) == -1,
        },
{
    let chars = chars_of(line);
    let marker = chars_of("127.0.0.1:");
    match find(chars.as_slice(), marker.as_slice()) {
        None => {
            proof {
                assert forall|p: int| !names_port(line@, p) by {
                    if names_port(line@, p) {
                        let i = choose|i: int| #[trigger] first_place(line@, "127.0.0.1:"@, i);
                        assert(crate::text::stands_at(line@, marker@, i));
                    }
                }
            }
            None
        },
        Some(i) => {
            assert(i + marker@.len() <= chars@.len());
            assert(chars@.len() == chars.len());
            let rest = slice_subrange(chars.as_slice(), i + marker.len(), chars.len());
            assert(rest@ =~= line@.skip(i + marker@.len()));
            let digits = leading_digits(rest);
            let port = parse_u16(digits);
            proof {
                match port {
                    Some(p) => {
                        assert(names_port(line@, p as int));
                        let q = choose|q: int| names_port(line@, q);
                        lemma_one_port(line@, p as int, q);
                    },
                    None => {
                        assert forall|p: int| !names_port(line@, p) by {
                            if names_port(line@, p) {
                                let m = "127.0.0.1:"@;
                                let j = choose|j: int| #[trigger]
                                    first_place(line@, m, j) && read_unsigned(
                                        line@.skip(j + m.len()).take(
                                            digit_run(line@.skip(j + m.len())),
                                        ),
                                        u16::MAX as int,
                                    ) == Some(p);
                                assert(j == i);
                            }
                        }
                    },
                }
            }
            port
        },
    }
}

/// The way to a server of an agent.
pub struct ServerBoot {
    agent: String,
    api_key: String,
    pid: u32,
    lines: u32,
}

/// What the way to a server stands for.
pub struct BootView {
    pub agent: Seq<char>,
    pub api_key: Seq<char>,
    /// The process that was started.
    pub pid: u32,
    /// How many lines of its output were read.
    pub lines: int,
}

impl View for ServerBoot {
    type V = BootView;

    closed spec fn view(&self) -> BootView {
        BootView {
            agent: self.agent@,
            api_key: self.api_key@,
            pid: self.pid,
            lines: self.lines as int,
        }
    }
}

/// What has happened on the way to a server.
#[derive(Debug, PartialEq)]
pub enum BootEvent {
    /// A server is asked for.
    Asked,
    /// Whether the process of the server that is known still runs.
    Alive(bool),
    /// Where the agent's program is.
    Found(Option<String>),
    /// The program could not be started.
    NotSpawned(String),
    /// The program was started, but has no pid.
    NoPid,
    /// The program was started.
    Spawned(u32),
    /// The output of the program cannot be read.
    NoOutput,
    /// Reading the output failed.
    NotRead(String),
    /// The output ended.
    Eof,
    /// The program said a line.
    Line(String),
}

/// What an event stands for.
pub enum BootEventView {
    Asked,
    Alive(bool),
    Found(Option<Seq<char>>),
    NotSpawned(Seq<char>),
    NoPid,
    Spawned(u32),
    NoOutput,
    NotRead(Seq<char>),
    Eof,
    Line(Seq<char>),
}

impl View for BootEvent {
    type V = BootEventView;

    open spec fn view(&self) -> BootEventView {
        match self {
            BootEvent::Asked => BootEventView::Asked,
            BootEvent::Alive(b) => BootEventView::Alive(*b),
            BootEvent::Found(p) => BootEventView::Found(text_view(*p)),
            BootEvent::NotSpawned(e) => BootEventView::NotSpawned(e@),
            BootEvent::NoPid => BootEventView::NoPid,
            BootEvent::Spawned(p) => BootEventView::Spawned(*p),
            BootEvent::NoOutput => BootEventView::NoOutput,
            BootEvent::NotRead(e) => BootEventView::NotRead(e@),
            BootEvent::Eof => BootEventView::Eof,
            BootEvent::Line(t) => BootEventView::Line(t@),
        }
    }
}

/// What is to be done next on the way to a server.
#[derive(Debug, PartialEq)]
pub enum BootAction {
    /// Look whether the process still runs.
    Probe(u32),
    /// Look where the agent's program is.
    Resolve,
    /// Start the program.
    Spawn(RunPlan),
    /// Get hold of the program's output.
    Open,
    /// Read a line of it.
    Read,
    /// The server listens at the port.
    Ready(u16),
    /// There is no server. The process, when there is one, is to be killed.
    Fail { kill: Option<u32>, error: String },
}

/// What an action stands for.
pub enum BootActionView {
    Probe(u32),
    Resolve,
    Spawn(RunPlanView),
    Open,
    Read,
    Ready(u16),
    Fail { kill: Option<u32>, error: Seq<char> },
}

impl View for BootAction {
    type V = BootActionView;

    open spec fn view(&self) -> BootActionView {
        match self {
            BootAction::Probe(p) => BootActionView::Probe(*p),
            BootAction::Resolve => BootActionView::Resolve,
            BootAction::Spawn(p) => BootActionView::Spawn(p@),
            BootAction::Open => BootActionView::Open,
            BootAction::Read => BootActionView::Read,
            BootAction::Ready(p) => BootActionView::Ready(*p),
            BootAction::Fail { kill, error } => BootActionView::Fail { kill: *kill, error: error@ },
        }
    }
}

/// How an agent's server is started.
pub open spec fn serve_plan(exe: Seq<char>, api_key: Seq<char>) -> RunPlanView {
    RunPlanView {
        exe,
        args: seq!["serve"@, "--port"@, "0"@],
        cwd: None,
        env: key_env(api_key) + quiet_env(),
        env_remove: color_vars(),
    }
}

/// The servers, the way to one of them and the processes to be ended with the
/// server, taken together.
pub struct BootState {
    pub servers: Map<Seq<char>, ServerHandle>,
    pub boot: BootView,
    pub owned: Set<u32>,
}

impl BootState {
    /// There is no server, and nothing has to be killed.
    pub open spec fn failed(self, error: Seq<char>) -> BootActionView {
        BootActionView::Fail { kill: None, error }
    }

    /// The port cannot be found out.
    pub open spec fn given_up(self) -> BootActionView {
        BootActionView::Fail {
            kill: Some(self.boot.pid),
            error: "could not determine "@ + self.boot.agent + " server port from its output"@,
        }
    }

    /// Tells whether an event ends the search for the port without one.
    pub open spec fn gives_up(self, e: BootEventView) -> bool {
        match e {
            BootEventView::Eof => true,
            BootEventView::Line(t) => port_of(t) < 0 && self.boot.lines + 1 >= BANNER_LINES,
            _ => false,
        }
    }

    /// What is left after an event.
    pub open spec fn after(self, e: BootEventView) -> BootState {
        match e {
            BootEventView::Asked => if self.servers.contains_key(self.boot.agent) {
                self
            } else {
                BootState { servers: self.servers.remove(self.boot.agent), ..self }
            },
            BootEventView::Alive(b) => if b && self.servers.contains_key(self.boot.agent) {
                self
            } else {
                BootState { servers: self.servers.remove(self.boot.agent), ..self }
            },
            BootEventView::Spawned(pid) => BootState {
                boot: BootView { pid, lines: 0, ..self.boot },
                owned: self.owned.insert(pid),
                ..self
            },
            BootEventView::Eof => BootState { owned: self.owned.remove(self.boot.pid), ..self },
            BootEventView::Line(t) => if port_of(t) >= 0 {
                BootState {
                    servers: self.servers.insert(
                        self.boot.agent,
                        ServerHandle { port: port_of(t) as u16, pid: self.boot.pid },
                    ),
                    ..self
                }
            } else if self.gives_up(e) {
                BootState { owned: self.owned.remove(self.boot.pid), ..self }
            } else {
                BootState { boot: BootView { lines: self.boot.lines + 1, ..self.boot }, ..self }
            },
            _ => self,
        }
    }

    /// What is to be done after an event.
    pub open spec fn next(self, e: BootEventView) -> BootActionView {
        let agent = self.boot.agent;
        match e {
            BootEventView::Asked => if self.servers.contains_key(agent) {
                BootActionView::Probe(self.servers[agent].pid)
            } else {
                BootActionView::Resolve
            },
            BootEventView::Alive(b) => if b && self.servers.contains_key(agent) {
                BootActionView::Ready(self.servers[agent].port)
            } else {
                BootActionView::Resolve
            },
            BootEventView::Found(None) => self.failed(missing_text(agent)),
            BootEventView::Found(Some(exe)) => BootActionView::Spawn(
                serve_plan(exe, self.boot.api_key),
            ),
            BootEventView::NotSpawned(t) => self.failed(
                "Failed to start "@ + agent + " server: "@ + t,
            ),
            BootEventView::NoPid => self.failed(agent + " server spawned without a pid"@),
            BootEventView::Spawned(_) => BootActionView::Open,
            BootEventView::NoOutput => self.failed(agent + " server stdout unavailable"@),
            BootEventView::NotRead(t) => self.failed(
                "reading "@ + agent + " server output: "@ + t,
            ),
            BootEventView::Eof => self.given_up(),
            BootEventView::Line(t) => if port_of(t) >= 0 {
                BootActionView::Ready(port_of(t) as u16)
            } else if self.gives_up(e) {
                self.given_up()
            } else {
                BootActionView::Read
            },
        }
    }
}

impl ServerBoot {
    /// Fewer lines were read than may be.
    pub closed spec fn wf(&self) -> bool {
        self.lines < BANNER_LINES
    }

    /// The way to a server of an agent.
    pub fn new(agent: String, api_key: String) -> (r: Self)
        ensures
            r.wf(),
            r@ == (BootView { agent: agent@, api_key: api_key@, pid: 0, lines: 0 }),
    {
        ServerBoot { agent, api_key, pid: 0, lines: 0 }
    }

    /// The agent.
    pub fn agent(&self) -> (r: &str)
        ensures
            r@ == self@.agent,
    {
        self.agent.as_str()
    }

    fn plan(&self, exe: String) -> (r: RunPlan)
        ensures
            r@ == serve_plan(exe@, self@.api_key),
    {
        let mut args: Vec<String> = Vec::new();
        args.push("serve".to_owned());
        args.push("--port".to_owned());
        args.push("0".to_owned());
        assert(texts(args@) =~= seq!["serve"@, "--port"@, "0"@]);
        let mut env: Vec<(String, String)> = Vec::new();
        assert(pairs(env@) =~= seq![]);
        push_key(&mut env, self.api_key.as_str());
        push_quiet(&mut env);
        assert(pairs(env@) =~= key_env(self@.api_key) + quiet_env());
        RunPlan { exe, args, cwd: None, env, env_remove: color_names() }
    }
}

fn fail(kill: Option<u32>, error: String) -> (r: BootAction)
    ensures
        r@ == (BootActionView::Fail { kill, error: error@ }),
{
    BootAction::Fail { kill, error }
}

impl AgentServerManager {
    /// The servers are kept in order.
    pub closed spec fn wf(&self) -> bool {
        self.servers.wf()
    }

    /// No servers.
    pub fn new() -> (r: Self)
        ensures
            r.wf(),
            r@ == Map::<Seq<char>, ServerHandle>::empty(),
    {
        AgentServerManager { servers: TextMap::new() }
    }

    /// Decides what is to be done after an event on the way to a server. A server
    /// that runs is used again; one that has died is started anew.
    pub fn ensure_server(
        &mut self,
        boot: &mut ServerBoot,
        tracker: &mut ChatProcessTracker,
        event: BootEvent,
    ) -> (r: BootAction)
        requires
            old(self).wf(),
            old(boot).wf(),
        ensures
            final(self).wf(),
            final(boot).wf(),
            ({
                let s = BootState {
                    servers: old(self)@,
                    boot: old(boot)@,
                    owned: old(tracker)@,
                };
                let t = s.after(event@);
                &&& final(self)@ == t.servers
                &&& final(boot)@ == t.boot
                &&& final(tracker)@ == t.owned
                &&& r@ == s.next(event@)
            }),
    {
        match event {
            BootEvent::Asked => {
                let known: Option<u32> = match self.servers.get(boot.agent.as_str()) {
                    Some(h) => Some(h.pid),
                    None => None,
                };
                match known {
                    Some(pid) => BootAction::Probe(pid),
                    None => {
                        self.servers.remove(boot.agent.as_str());
                        BootAction::Resolve
                    },
                }
            },
            BootEvent::Alive(alive) => {
                let known: Option<u16> = match self.servers.get(boot.agent.as_str()) {
                    Some(h) => Some(h.port),
                    None => None,
                };
                match known {
                    Some(port) => if alive {
                        BootAction::Ready(port)
                    } else {
                        self.servers.remove(boot.agent.as_str());
                        BootAction::Resolve
                    },
                    None => {
                        self.servers.remove(boot.agent.as_str());
                        BootAction::Resolve
                    },
                }
            },
            BootEvent::Found(found) => match found {
                None => fail(None, cli_missing_message(boot.agent.as_str())),
                Some(exe) => BootAction::Spawn(boot.plan(exe)),
            },
            BootEvent::NotSpawned(e) => fail(
                None,
                cat4("Failed to start ", boot.agent.as_str(), " server: ", e.as_str()),
            ),
            BootEvent::NoPid => fail(
                None,
                cat2(boot.agent.as_str(), " server spawned without a pid"),
            ),
            BootEvent::Spawned(pid) => {
                boot.pid = pid;
                boot.lines = 0;
                tracker.register(pid);
                BootAction::Open
            },
            BootEvent::NoOutput => fail(
                None,
                cat2(boot.agent.as_str(), " server stdout unavailable"),
            ),
            BootEvent::NotRead(e) => fail(
                None,
                cat4("reading ", boot.agent.as_str(), " server output: ", e.as_str()),
            ),
            BootEvent::Eof => {
                tracker.unregister(boot.pid);
                fail(
                    Some(boot.pid),
                    cat3(
                        "could not determine ",
                        boot.agent.as_str(),
                        " server port from its output",
                    ),
                )
            },
            BootEvent::Line(t) => match extract_port(t.as_str()) {
                Some(port) => {
                    let h = ServerHandle { port, pid: boot.pid };
                    self.servers.insert(boot.agent.clone(), h);
                    BootAction::Ready(port)
                },
                None => {
                    if boot.lines + 1 >= BANNER_LINES {
                        tracker.unregister(boot.pid);
                        fail(
                            Some(boot.pid),
                            cat3(
                                "could not determine ",
                                boot.agent.as_str(),
                                " server port from its output",
                            ),
                        )
                    } else {
                        boot.lines = boot.lines + 1;
                        BootAction::Read
                    }
                },
            },
        }
    }
}

/// A server that was started once is used for every later message: its port is
/// given without starting anything.
pub proof fn running_server_is_used_again(s: BootState, line: Seq<char>)
    requires
        port_of(line) >= 0,
    ensures
        ({
            let t = s.after(BootEventView::Line(line));
            let port = port_of(line) as u16;
            &&& s.next(BootEventView::Line(line)) == BootActionView::Ready(port)
            &&& t.next(BootEventView::Asked) == BootActionView::Probe(s.boot.pid)
            &&& t.after(BootEventView::Asked) == t
            &&& t.next(BootEventView::Alive(true)) == BootActionView::Ready(port)
            &&& t.after(BootEventView::Alive(true)) == t
            &&& t.next(BootEventView::Alive(false)) == BootActionView::Resolve
            &&& !t.after(BootEventView::Alive(false)).servers.contains_key(s.boot.agent)
        }),
{
}

/// What happens on the way to the server of one agent leaves the servers of the
/// others alone.
pub proof fn other_agents_keep_their_servers(s: BootState, e: BootEventView, other: Seq<char>)
    requires
        other != s.boot.agent,
    ensures
        s.after(e).servers.contains_key(other) <==> s.servers.contains_key(other),
        s.servers.contains_key(other) ==> s.after(e).servers[other] == s.servers[other],
{
}

/// A server is started to serve on a port that is free, with the key that it needs and its
/// output kept plain.
pub proof fn servers_are_started_on_a_free_port(exe: Seq<char>, api_key: Seq<char>)
    ensures
        ({
            let p = serve_plan(exe, api_key);
            &&& p.exe == exe
            &&& p.args == seq!["serve"@, "--port"@, "0"@]
            &&& p.cwd is None
            &&& trim(api_key).len() > 0 ==> p.env.contains(("OPENROUTER_API_KEY"@, api_key))
            &&& p.env.contains(("NO_COLOR"@, "1"@))
            &&& p.env_remove.contains("FORCE_COLOR"@)
        }),
{
    let p = serve_plan(exe, api_key);
    let k = key_env(api_key);
    let q = quiet_env();
    assert(p.env[k.len() as int] == q[0]);
    assert(q[0] == ("NO_COLOR"@, "1"@));
    assert(p.env_remove[0] == "FORCE_COLOR"@);
    if trim(api_key).len() > 0 {
        assert(p.env[0] == k[0]);
    }
}

/// The port of a server is the number that follows the first mention of this machine in a line
/// of its output.
pub proof fn ports_are_read_from_the_output(front: Seq<char>, port: u16, rest: Seq<char>)
    requires
        rest.len() == 0 || !is_digit(rest[0]),
        first_place(
            front + "127.0.0.1:"@ + decimal(port as nat) + rest,
            "127.0.0.1:"@,
            front.len() as int,
        ),
    ensures
        port_of(front + "127.0.0.1:"@ + decimal(port as nat) + rest) == port,
{
    let m = "127.0.0.1:"@;
    let d = decimal(port as nat);
    let line = front + m + d + rest;
    lemma_decimal(port as nat);
    numbers_are_read_back(port as nat, u16::MAX as int);
    let tail = line.skip(front.len() as int + m.len());
    assert(tail =~= d + rest);
    lemma_digit_run(d, rest);
    assert(tail.take(d.len() as int) =~= d);
    assert(names_port(line, port as int));
    let p = choose|p: int| names_port(line, p);
    lemma_one_port(line, p, port as int);
}

proof fn lemma_digit_run(d: Seq<char>, rest: Seq<char>)
    requires
        forall|i: int| 0 <= i < d.len() ==> is_digit(#[trigger] d[i]),
        rest.len() == 0 || !is_digit(rest[0]),
    ensures
        digit_run(d + rest) == d.len(),
    decreases d.len(),
{
    if d.len() > 0 {
        assert(is_digit(d[0]));
        assert((d + rest).drop_first() =~= d.drop_first() + rest);
        assert forall|i: int| 0 <= i < d.len() - 1 implies is_digit(
            #[trigger] d.drop_first()[i],
        ) by {
            assert(d[i + 1] == d.drop_first()[i]);
        }
        lemma_digit_run(d.drop_first(), rest);
    } else {
        assert(d + rest =~= rest);
    }
}

/// A server that was started belongs to this one until its output ends or names no port for too
/// long; then it is killed and given up. So long as neither is so, its output is read on.
pub proof fn servers_are_waited_for(s: BootState, pid: u32, line: Seq<char>)
    ensures
        s.after(BootEventView::Spawned(pid)).owned.contains(pid),
        s.after(BootEventView::Spawned(pid)).boot.pid == pid,
        s.after(BootEventView::Spawned(pid)).boot.lines == 0,
        s.next(BootEventView::Spawned(pid)) is Open,
        !s.after(BootEventView::Eof).owned.contains(s.boot.pid),
        s.next(BootEventView::Eof) matches BootActionView::Fail { kill, error } && kill == Some(
            s.boot.pid,
        ) && error == "could not determine "@ + s.boot.agent + " server port from its output"@,
        port_of(line) < 0 && s.boot.lines + 1 < 40 ==> {
            &&& s.next(BootEventView::Line(line)) is Read
            &&& s.after(BootEventView::Line(line)).boot.lines == s.boot.lines + 1
            &&& s.after(BootEventView::Line(line)).owned == s.owned
        },
        port_of(line) < 0 && s.boot.lines + 1 >= 40 ==> {
            &&& s.next(BootEventView::Line(line)) == s.next(BootEventView::Eof)
            &&& !s.after(BootEventView::Line(line)).owned.contains(s.boot.pid)
        },
{
}

/// Where a server cannot be started nothing has to be killed, and the reason names the agent.
pub proof fn failed_starts_kill_nothing(s: BootState, e: Seq<char>)
    ensures
        s.next(BootEventView::Found(None)) == (BootActionView::Fail {
            kill: None,
            error: missing_text(s.boot.agent),
        }),
        s.next(BootEventView::NotSpawned(e)) == (BootActionView::Fail {
            kill: None,
            error: "Failed to start "@ + s.boot.agent + " server: "@ + e,
        }),
        s.next(BootEventView::NotRead(e)) == (BootActionView::Fail {
            kill: None,
            error: "reading "@ + s.boot.agent + " server output: "@ + e,
        }),
        s.next(BootEventView::Found(Some(e))) == BootActionView::Spawn(
            serve_plan(e, s.boot.api_key),
        ),
{
}

} // verus!
