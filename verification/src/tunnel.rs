//! Tunnels that make a local port reachable from outside.

use vstd::prelude::*;
use vstd::string::*;

use crate::path::{join, join_path, Platform};
use crate::process::{lossy, lossy_text, OutcomeView, ProcessOutcome};
use crate::text::{
    begins_text, cat2, cat3, cat4, chars_of, contains, decimal, ends_with, holds, joined,
    lemma_decimal, lowercase, same, slices, split_words, starts_with, string_of, text_view, texts,
    to_lowercase, trim, trim_end, trim_end_char, trim_text, trimmed, trimmed_end,
    trimmed_end_char, words, write_number,
};

verus! {

/// Who offers a tunnel.
#[derive(Debug, Clone, Copy, PartialEq, Eq, Structural)]
pub enum Provider {
    TryCloudflare,
    LocalhostRun,
    Localtunnel,
}

/// The provider of that name.
pub open spec fn provider_named(s: Seq<char>) -> Option<Provider> {
    if s == "trycloudflare"@ {
        Some(Provider::TryCloudflare)
    } else if s == "localhost.run"@ {
        Some(Provider::LocalhostRun)
    } else if s == "localtunnel"@ {
        Some(Provider::Localtunnel)
    } else {
        None
    }
}

/// The program with which a provider is reached.
pub open spec fn program_of(p: Provider) -> Seq<char> {
    match p {
        Provider::TryCloudflare => "cloudflared"@,
        Provider::LocalhostRun => "ssh"@,
        Provider::Localtunnel => "lt"@,
    }
}

/// How the program of a provider is got.
pub open spec fn hint_of(p: Provider) -> Seq<char> {
    match p {
        Provider::TryCloudflare => "Download cloudflared from https://github.com/cloudflare/cloudflared/releases"@,
        Provider::LocalhostRun => "Install OpenSSH client via your system package manager (apt, brew, etc.)"@,
        Provider::Localtunnel => "Run: npm install -g localtunnel  (requires Node.js/npm)"@,
    }
}

/// The arguments with which the program of a provider forwards a port.
pub open spec fn tunnel_args(p: Provider, port: u16) -> Seq<Seq<char>> {
    let number = decimal(port as nat);
    match p {
        Provider::TryCloudflare => seq![
            "tunnel"@,
            "--url"@,
            "http://127.0.0.1:"@ + number,
            "--no-autoupdate"@,
        ],
        Provider::LocalhostRun => seq![
            "-o"@,
            "StrictHostKeyChecking=no"@,
            "-R"@,
            "*:80:127.0.0.1:"@ + number,
            "nokey@localhost.run"@,
        ],
        Provider::Localtunnel => seq!["--port="@ + number],
    }
}

/// Tells whether a word is an address that a provider gives.
pub open spec fn is_link(p: Provider, w: Seq<char>) -> bool {
    match p {
        Provider::TryCloudflare => starts_with(w, "https://"@) && contains(
            w,
            "trycloudflare.com"@,
        ),
        Provider::LocalhostRun => (starts_with(w, "https://"@) || starts_with(w, "http://"@))
            && contains(w, "lhr.life"@),
        Provider::Localtunnel => (starts_with(w, "https://"@) || starts_with(w, "http://"@)) && (
        contains(w, "loca.lt"@) || contains(w, "localtunnel.me"@)),
    }
}

/// The first address among some words, from the one at `i` on, without commas at
/// its end.
pub open spec fn first_link(p: Provider, ws: Seq<Seq<char>>, i: int) -> Option<Seq<char>>
    decreases ws.len() - i,
{
    if i < 0 || i >= ws.len() {
        None
    } else if is_link(p, ws[i]) {
        Some(trim_end_char(ws[i], ','))
    } else {
        first_link(p, ws, i + 1)
    }
}

/// The address that a provider gives in a line.
pub open spec fn link_in(p: Provider, line: Seq<char>) -> Option<Seq<char>> {
    first_link(p, words(trim(line)), 0)
}

/// The address that any provider gives in a line.
pub open spec fn any_link(line: Seq<char>) -> Option<Seq<char>> {
    let t = trim(line);
    match link_in(Provider::TryCloudflare, t) {
        Some(u) => Some(u),
        None => match link_in(Provider::LocalhostRun, t) {
            Some(u) => Some(u),
            None => link_in(Provider::Localtunnel, t),
        },
    }
}

fn word_is_link(p: Provider, w: &[char]) -> (r: bool)
    ensures
        r == is_link(p, w@),
{
    match p {
        Provider::TryCloudflare => begins_text(w, "https://") && holds(w, "trycloudflare.com"),
        Provider::LocalhostRun => (begins_text(w, "https://") || begins_text(w, "http://"))
            && holds(w, "lhr.life"),
        Provider::Localtunnel => (begins_text(w, "https://") || begins_text(w, "http://")) && (
        holds(w, "loca.lt") || holds(w, "localtunnel.me")),
    }
}

impl Provider {
    /// The provider of that name.
    pub fn from_str(s: &str) -> (r: Option<Self>)
        ensures
            r == provider_named(s@),
    {
        if same(s, "trycloudflare") {
            Some(Provider::TryCloudflare)
        } else if same(s, "localhost.run") {
            Some(Provider::LocalhostRun)
        } else if same(s, "localtunnel") {
            Some(Provider::Localtunnel)
        } else {
            None
        }
    }

    /// The program with which the provider is reached.
    pub fn binary_name(self) -> (r: &'static str)
        ensures
            r@ == program_of(self),
    {
        match self {
            Provider::TryCloudflare => "cloudflared",
            Provider::LocalhostRun => "ssh",
            Provider::Localtunnel => "lt",
        }
    }

    /// How the program of the provider is got.
    pub fn install_hint(self) -> (r: Option<&'static str>)
        ensures
            r matches Some(t) && t@ == hint_of(self),
    {
        match self {
            Provider::TryCloudflare => Some(
                "Download cloudflared from https://github.com/cloudflare/cloudflared/releases",
            ),
            Provider::LocalhostRun => Some(
                "Install OpenSSH client via your system package manager (apt, brew, etc.)",
            ),
            Provider::Localtunnel => Some(
                "Run: npm install -g localtunnel  (requires Node.js/npm)",
            ),
        }
    }

    /// The arguments with which the program of the provider forwards a port.
    pub fn args(self, port: u16) -> (r: Vec<String>)
        ensures
            texts(r@) == tunnel_args(self, port),
    {
        let number = write_number(port as u64);
        let mut v: Vec<String> = Vec::new();
        match self {
            Provider::TryCloudflare => {
                v.push("tunnel".to_owned());
                v.push("--url".to_owned());
                v.push(cat2("http://127.0.0.1:", number.as_str()));
                v.push("--no-autoupdate".to_owned());
            },
            Provider::LocalhostRun => {
                v.push("-o".to_owned());
                v.push("StrictHostKeyChecking=no".to_owned());
                v.push("-R".to_owned());
                v.push(cat2("*:80:127.0.0.1:", number.as_str()));
                v.push("nokey@localhost.run".to_owned());
            },
            Provider::Localtunnel => {
                v.push(cat2("--port=", number.as_str()));
            },
        }
        assert(texts(v@) =~= tunnel_args(self, port));
        v
    }

    /// The address that the provider gives in a line.
    pub fn parse_url(self, line: &str) -> (r: Option<String>)
        ensures
            text_view(r) == link_in(self, line@),
    {
        let chars = chars_of(line);
        let all = split_words(trimmed(chars.as_slice()));
        let ghost ws = words(trim(line@));
        let mut i: usize = 0;
        while i < all.len()
            invariant
                i <= all@.len(),
                ws == slices(all@),
                link_in(self, line@) == first_link(self, ws, i as int),
            decreases all@.len() - i,
        {
            assert(ws[i as int] == all@[i as int]@);
            if word_is_link(self, all[i]) {
                return Some(string_of(trimmed_end_char(all[i], ',')));
            }
            i += 1;
        }
        None
    }
}

/// The address that any provider gives in a line.
pub fn parse_url_any(line: &str) -> (r: Option<String>)
    ensures
        text_view(r) == any_link(line@),
{
    let t = trim_text(line);
    match Provider::TryCloudflare.parse_url(t.as_str()) {
        Some(u) => Some(u),
        None => match Provider::LocalhostRun.parse_url(t.as_str()) {
            Some(u) => Some(u),
            None => Provider::Localtunnel.parse_url(t.as_str()),
        },
    }
}

/// How a tunnel is opened.
#[derive(Debug, PartialEq)]
pub struct TunnelPlan {
    pub provider: Provider,
    pub program: String,
    pub args: Vec<String>,
}

/// Decides how a tunnel is opened. `found` is where the program of the provider
/// is, when it is anywhere.
pub fn run_tunnel(name: &str, port: u16, found: Option<String>) -> (r: Result<TunnelPlan, String>)
    ensures
        match provider_named(name@) {
            None => r matches Err(e) && e@ == "Unknown provider: "@ + name@,
            Some(p) => match found {
                None => r matches Err(e) && e@ == "`"@ + program_of(p) + "` is not installed. "@
                    + hint_of(p),
                Some(path) => r matches Ok(t) && t.provider == p && t.program@ == path@ && texts(
                    t.args@,
                ) == tunnel_args(p, port),
            },
        },
{
    match Provider::from_str(name) {
        None => Err(cat2("Unknown provider: ", name)),
        Some(p) => match found {
            None => {
                let hint = match p.install_hint() {
                    Some(h) => h,
                    None => "Install it and retry.",
                };
                Err(cat4("`", p.binary_name(), "` is not installed. ", hint))
            },
            Some(path) => Ok(TunnelPlan { provider: p, program: path, args: p.args(port) }),
        },
    }
}

/// What is said when a tunnel could not be opened.
pub fn start_failure(p: Provider, e: &str) -> (r: String)
    ensures
        r@ == "Failed to start "@ + program_of(p) + ": "@ + e@,
{
    cat4("Failed to start ", p.binary_name(), ": ", e)
}

/// One output of a tunnel's program, line by line.
pub struct TunnelLines {
    provider: Provider,
    last_line: String,
    url_sent: bool,
}

/// What an output of a tunnel's program stands for.
pub struct LinesView {
    pub provider: Provider,
    pub last_line: Seq<char>,
    pub url_sent: bool,
}

impl View for TunnelLines {
    type V = LinesView;

    closed spec fn view(&self) -> LinesView {
        LinesView {
            provider: self.provider,
            last_line: self.last_line@,
            url_sent: self.url_sent,
        }
    }
}

impl LinesView {
    /// The address that a line brings, when none is known yet.
    pub open spec fn brings(self, line: Seq<char>, known: bool) -> Option<Seq<char>> {
        if trim_end(line) == self.last_line || self.url_sent || known {
            None
        } else {
            link_in(self.provider, trim_end(line))
        }
    }

    /// What is passed on for a line: the line, unless it says the same as the one
    /// before, and the address that it brings.
    pub open spec fn passes_on(self, line: Seq<char>, known: bool) -> Seq<Seq<char>> {
        if trim_end(line) == self.last_line {
            Seq::empty()
        } else {
            match self.brings(line, known) {
                Some(u) => seq![trim_end(line), "[URL] "@ + u],
                None => seq![trim_end(line)],
            }
        }
    }

    /// The output after a line.
    pub open spec fn after(self, line: Seq<char>, known: bool) -> LinesView {
        LinesView {
            last_line: trim_end(line),
            url_sent: self.url_sent || self.brings(line, known) is Some,
            ..self
        }
    }
}

impl TunnelLines {
    /// An output that begins.
    pub fn new(provider: Provider) -> (r: Self)
        ensures
            r@ == (LinesView { provider, last_line: Seq::empty(), url_sent: false }),
    {
        proof {
            reveal_strlit("");
            assert(""@ =~= Seq::<char>::empty());
        }
        TunnelLines { provider, last_line: "".to_owned(), url_sent: false }
    }

    /// Takes in a line. `known` tells whether an address is known already. Gives
    /// what is passed on, and the address when the line brings it.
    pub fn line(&mut self, text: &str, known: bool) -> (r: (Vec<String>, Option<String>))
        ensures
            final(self)@ == old(self)@.after(text@, known),
            texts(r.0@) == old(self)@.passes_on(text@, known),
            text_view(r.1) == old(self)@.brings(text@, known),
    {
        let chars = chars_of(text);
        let said = string_of(trimmed_end(chars.as_slice()));
        let mut out: Vec<String> = Vec::new();
        if same(said.as_str(), self.last_line.as_str()) {
            assert(texts(out@) =~= Seq::empty());
            self.last_line = said;
            return (out, None);
        }
        let url = if self.url_sent || known {
            None
        } else {
            self.provider.parse_url(said.as_str())
        };
        let ghost old_self = self@;
        out.push(said.clone());
        match &url {
            Some(u) => {
                out.push(cat2("[URL] ", u.as_str()));
                self.url_sent = true;
                assert(texts(out@) =~= old_self.passes_on(text@, known));
            },
            None => {
                assert(texts(out@) =~= old_self.passes_on(text@, known));
            },
        }
        self.last_line = said;
        (out, url)
    }
}

/// What a request for a tunnel has heard so far.
pub struct ForwardLog {
    logs: Vec<String>,
}

impl View for ForwardLog {
    type V = Seq<Seq<char>>;

    closed spec fn view(&self) -> Seq<Seq<char>> {
        texts(self.logs@)
    }
}

/// What a line means for a request for a tunnel.
#[derive(Debug, PartialEq)]
pub enum Heard {
    /// Nothing yet.
    More,
    /// The tunnel is open at this address.
    Url(String),
    /// The tunnel cannot be opened.
    Stop,
}

/// Tells whether a line says that there will be no tunnel.
pub open spec fn is_bad_news(line: Seq<char>) -> bool {
    contains(line, "ERROR"@) || contains(lowercase(line), "not installed"@)
}

impl ForwardLog {
    /// Nothing was heard.
    pub fn new() -> (r: Self)
        ensures
            r@ == Seq::<Seq<char>>::empty(),
    {
        let r = ForwardLog { logs: Vec::new() };
        assert(r@ =~= Seq::<Seq<char>>::empty());
        r
    }

    /// Takes in a line.
    pub fn hear(&mut self, line: &str) -> (r: Heard)
        ensures
            final(self)@ == old(self)@.push(line@),
            match r {
                Heard::Url(u) => any_link(line@) == Some(u@),
                Heard::Stop => any_link(line@) is None && is_bad_news(line@),
                Heard::More => any_link(line@) is None && !is_bad_news(line@),
            },
    {
        let ghost before = self@;
        self.logs.push(line.to_owned());
        assert(self@ =~= before.push(line@));
        match parse_url_any(line) {
            Some(u) => Heard::Url(u),
            None => {
                let chars = chars_of(line);
                let small = to_lowercase(line);
                let small_chars = chars_of(small.as_str());
                if holds(chars.as_slice(), "ERROR") || holds(
                    small_chars.as_slice(),
                    "not installed",
                ) {
                    Heard::Stop
                } else {
                    Heard::More
                }
            },
        }
    }

    /// All that was heard, line by line.
    pub fn message(&self) -> (r: String)
        ensures
            r@ == joined(self@, "\n"@),
    {
        let mut out = "".to_owned();
        let mut i: usize = 0;
        proof {
            reveal_strlit("");
            assert(out@ =~= Seq::<char>::empty());
        }
        while i < self.logs.len()
            invariant
                i <= self.logs@.len(),
                out@ == joined(self@.take(i as int), "\n"@),
            decreases self.logs@.len() - i,
        {
            if i > 0 {
                out.append("\n");
            }
            let piece = self.logs[i].as_str();
            out.append(piece);
            proof {
                let t = self@.take(i + 1);
                assert(t.drop_last() =~= self@.take(i as int));
                assert(t.last() == piece@);
                if i == 0 {
                    assert(out@ =~= piece@);
                }
            }
            i += 1;
        }
        assert(self@.take(i as int) =~= self@);
        out
    }
}

/// What is answered to a request for a tunnel.
#[derive(Debug, PartialEq)]
pub struct ForwardResponse {
    pub ok: bool,
    pub message: String,
}

/// What is answered to a request for a tunnel: the address, or all that was
/// heard in its stead.
pub fn json_forward(url: Option<String>, log: &ForwardLog) -> (r: ForwardResponse)
    ensures
        match url {
            Some(u) => r.ok && r.message@ == u@,
            None => !r.ok && r.message@ == joined(log@, "\n"@),
        },
{
    match url {
        Some(u) => ForwardResponse { ok: true, message: u },
        None => ForwardResponse { ok: false, message: log.message() },
    }
}

/// What is answered to a request to stop a tunnel.
pub fn stop_forward() -> (r: ForwardResponse)
    ensures
        r.ok,
        r.message@ == "stopped"@,
{
    ForwardResponse { ok: true, message: "stopped".to_owned() }
}

/// The event that tells a listener that there will be no tunnel.
pub fn sse_error(e: &str) -> (r: String)
    ensures
        r@ == "event: error\ndata: "@ + escaped_text(e@) + "\n\n"@,
{
    let text = escape_json(e);
    cat3("event: error\ndata: ", text.as_str(), "\n\n")
}

/// How the program of a provider is installed.
#[derive(Debug, PartialEq)]
pub enum InstallPlan {
    /// It cannot be.
    Refuse(String),
    /// By a shell script; what is said when that cannot be run, and when the
    /// program is still missing after it.
    Script { script: String, fault: String, missing: String },
    /// By npm.
    Npm,
}

/// What a plan to install stands for.
pub enum InstallView {
    Refuse(Seq<char>),
    Script { script: Seq<char>, fault: Seq<char>, missing: Seq<char> },
    Npm,
}

impl View for InstallPlan {
    type V = InstallView;

    open spec fn view(&self) -> InstallView {
        match self {
            InstallPlan::Refuse(t) => InstallView::Refuse(t@),
            InstallPlan::Script { script, fault, missing } => InstallView::Script {
                script: script@,
                fault: fault@,
                missing: missing@,
            },
            InstallPlan::Npm => InstallView::Npm,
        }
    }
}

/// How the program of a provider is installed on a system.
pub open spec fn install_plan(name: Seq<char>, os: Seq<char>) -> InstallView {
    match provider_named(name) {
        None => InstallView::Refuse("Unknown provider: "@ + name),
        Some(Provider::TryCloudflare) => InstallView::Refuse(
            "Cloudflared must be installed manually. See https://github.com/cloudflare/cloudflared/releases"@,
        ),
        Some(Provider::LocalhostRun) => if os == "linux"@ {
            InstallView::Script {
                script: "apt-get install -y openssh-client 2>/dev/null || apk add openssh 2>/dev/null || true"@,
                fault: "Failed to run package manager: "@,
                missing: "OpenSSH client not found after install attempt. Install it manually via your system package manager."@,
            }
        } else if os == "macos"@ {
            InstallView::Script {
                script: "brew install openssh 2>/dev/null || true"@,
                fault: "Failed to run brew: "@,
                missing: "OpenSSH client not found. Install it manually: brew install openssh"@,
            }
        } else {
            InstallView::Refuse(
                "Automatic install of OpenSSH is not supported on this OS. Install it manually."@,
            )
        },
        Some(Provider::Localtunnel) => InstallView::Npm,
    }
}

/// Decides how the program of a provider is installed.
pub fn install_provider(name: &str, os: &str) -> (r: InstallPlan)
    ensures
        r@ == install_plan(name@, os@),
{
    match Provider::from_str(name) {
        None => InstallPlan::Refuse(cat2("Unknown provider: ", name)),
        Some(Provider::TryCloudflare) => InstallPlan::Refuse(
            "Cloudflared must be installed manually. See https://github.com/cloudflare/cloudflared/releases".to_owned(),
        ),
        Some(Provider::LocalhostRun) => if same(os, "linux") {
            InstallPlan::Script {
                script: "apt-get install -y openssh-client 2>/dev/null || apk add openssh 2>/dev/null || true".to_owned(),
                fault: "Failed to run package manager: ".to_owned(),
                missing: "OpenSSH client not found after install attempt. Install it manually via your system package manager.".to_owned(),
            }
        } else if same(os, "macos") {
            InstallPlan::Script {
                script: "brew install openssh 2>/dev/null || true".to_owned(),
                fault: "Failed to run brew: ".to_owned(),
                missing: "OpenSSH client not found. Install it manually: brew install openssh".to_owned(),
            }
        } else {
            InstallPlan::Refuse(
                "Automatic install of OpenSSH is not supported on this OS. Install it manually.".to_owned(),
            )
        },
        Some(Provider::Localtunnel) => InstallPlan::Npm,
    }
}

/// The view of a text or of an error.
pub open spec fn result_view(r: Result<String, String>) -> Result<Seq<char>, Seq<char>> {
    match r {
        Ok(t) => Ok(t@),
        Err(e) => Err(e@),
    }
}

/// What a script to install comes to: all that it printed, when the program is
/// there after it.
pub open spec fn script_result(
    o: OutcomeView,
    there: bool,
    fault: Seq<char>,
    missing: Seq<char>,
) -> Result<Seq<char>, Seq<char>> {
    match o {
        OutcomeView::NotFound(e) => Err(fault + e),
        OutcomeView::Failed(e) => Err(fault + e),
        OutcomeView::Exited { success, code, stdout, stderr } => if there {
            Ok(lossy(stdout) + lossy(stderr))
        } else {
            Err(missing)
        },
    }
}

/// Reads what came of a script to install.
pub fn script_installed(outcome: &ProcessOutcome, there: bool, fault: &str, missing: &str) -> (r:
    Result<String, String>)
    ensures
        result_view(r) == script_result(outcome@, there, fault@, missing@),
{
    match outcome {
        ProcessOutcome::NotFound(e) => Err(cat2(fault, e.as_str())),
        ProcessOutcome::Failed(e) => Err(cat2(fault, e.as_str())),
        ProcessOutcome::Exited { success, code, stdout, stderr } => {
            if there {
                let out = lossy_text(stdout.as_slice());
                let err = lossy_text(stderr.as_slice());
                Ok(cat2(out.as_str(), err.as_str()))
            } else {
                Err(missing.to_owned())
            }
        },
    }
}

/// What is said when npm is missing.
pub fn npm_missing() -> (r: String)
    ensures
        r@ == "npm is not installed. Install Node.js (>= 18) first."@,
{
    "npm is not installed. Install Node.js (>= 18) first.".to_owned()
}

/// What a run of npm comes to.
pub open spec fn npm_result(o: OutcomeView) -> Result<Seq<char>, Seq<char>> {
    match o {
        OutcomeView::NotFound(e) => Err("Failed to run npm: "@ + e),
        OutcomeView::Failed(e) => Err("Failed to run npm: "@ + e),
        OutcomeView::Exited { success, code, stdout, stderr } => {
            let all = if lossy(stderr).len() == 0 {
                lossy(stdout)
            } else {
                lossy(stdout) + "\n"@ + lossy(stderr)
            };
            if success {
                Ok(all)
            } else {
                Err(all)
            }
        },
    }
}

/// Reads what came of a run of npm.
pub fn npm_installed(outcome: &ProcessOutcome) -> (r: Result<String, String>)
    ensures
        result_view(r) == npm_result(outcome@),
{
    match outcome {
        ProcessOutcome::NotFound(e) => Err(cat2("Failed to run npm: ", e.as_str())),
        ProcessOutcome::Failed(e) => Err(cat2("Failed to run npm: ", e.as_str())),
        ProcessOutcome::Exited { success, code, stdout, stderr } => {
            let out = lossy_text(stdout.as_slice());
            let err = lossy_text(stderr.as_slice());
            let all = if err.as_str().unicode_len() == 0 {
                out
            } else {
                cat3(out.as_str(), "\n", err.as_str())
            };
            if *success {
                Ok(all)
            } else {
                Err(all)
            }
        },
    }
}

/// What is answered to a request to install that names no provider.
pub fn install_refusal(provider: &str) -> (r: Option<ForwardResponse>)
    ensures
        match r {
            Some(x) => provider@.len() == 0 && !x.ok && x.message@ == "missing provider"@,
            None => provider@.len() > 0,
        },
{
    if provider.unicode_len() == 0 {
        Some(ForwardResponse { ok: false, message: "missing provider".to_owned() })
    } else {
        None
    }
}

/// What is answered to a request to install.
pub fn install_tool(result: Result<String, String>) -> (r: ForwardResponse)
    ensures
        match result {
            Ok(t) => r.ok && r.message@ == t@,
            Err(e) => !r.ok && r.message@ == e@,
        },
{
    match result {
        Ok(t) => ForwardResponse { ok: true, message: t },
        Err(e) => ForwardResponse { ok: false, message: e },
    }
}

/// A character as it stands in a JSON text.
pub open spec fn escaped_char(c: char) -> Seq<char> {
    if c == '\\' {
        seq!['\\', '\\']
    } else if c == '"' {
        seq!['\\', '"']
    } else if c == '\n' {
        seq!['\\', 'n']
    } else {
        seq![c]
    }
}

/// A text with its backslashes, quotes and line ends escaped.
pub open spec fn escaped_text(s: Seq<char>) -> Seq<char>
    decreases s.len(),
{
    if s.len() == 0 {
        Seq::empty()
    } else {
        escaped_text(s.drop_last()) + escaped_char(s.last())
    }
}

/// The text with its backslashes, quotes and line ends escaped.
pub fn escape_json(s: &str) -> (r: String)
    ensures
        r@ == escaped_text(s@),
{
    let chars = chars_of(s);
    let mut out: Vec<char> = Vec::new();
    let mut i: usize = 0;
    assert(out@ =~= escaped_text(s@.take(0)));
    while i < chars.len()
        invariant
            i <= chars@.len(),
            chars@ == s@,
            out@ == escaped_text(s@.take(i as int)),
        decreases chars@.len() - i,
    {
        let ghost before = out@;
        let c = chars[i];
        if c == '\\' {
            out.push('\\');
            out.push('\\');
        } else if c == '"' {
            out.push('\\');
            out.push('"');
        } else if c == '\n' {
            out.push('\\');
            out.push('n');
        } else {
            out.push(c);
        }
        proof {
            assert(out@ =~= before + escaped_char(c));
            assert(s@.take(i + 1).drop_last() =~= s@.take(i as int));
        }
        i += 1;
    }
    assert(s@.take(i as int) =~= s@);
    string_of(out.as_slice())
}

/// What cloudflared is called on a system.
pub open spec fn cloudflared_name(os: Platform) -> Seq<char> {
    match os {
        Platform::Windows => "cloudflared.exe"@,
        Platform::Unix => "cloudflared"@,
    }
}

/// What cloudflared is called on a system.
pub fn cloudflared_binary_name(os: Platform) -> (r: &'static str)
    ensures
        r@ == cloudflared_name(os),
{
    match os {
        Platform::Windows => "cloudflared.exe",
        Platform::Unix => "cloudflared",
    }
}

/// The directories of a user, as far as they are told.
#[derive(Debug, PartialEq)]
pub struct UserDirs {
    pub home: Option<String>,
    /// Where data of this machine is kept, on Windows.
    pub local_data: Option<String>,
    /// The directory of the user, on Windows.
    pub profile: Option<String>,
}

/// The directory in which cloudflared is kept.
pub open spec fn cloudflared_dir(os: Platform, dirs: UserDirs) -> Seq<char> {
    match os {
        Platform::Unix => join(
            os,
            match dirs.home {
                Some(h) => h@,
                None => "/tmp"@,
            },
            ".noide"@,
        ),
        Platform::Windows => join(
            os,
            match dirs.local_data {
                Some(d) => d@,
                None => (match dirs.profile {
                    Some(p) => p@,
                    None => Seq::empty(),
                }) + "\\AppData\\Local"@,
            },
            "noide"@,
        ),
    }
}

/// Where cloudflared is kept: on Unix below the home directory, or without one
/// below the directory for temporary files; on Windows below the directory for
/// data of this machine.
pub fn cloudflared_path(os: Platform, dirs: &UserDirs) -> (r: String)
    ensures
        r@ == join(os, cloudflared_dir(os, *dirs), cloudflared_name(os)),
{
    let dir = match os {
        Platform::Unix => {
            let base = match &dirs.home {
                Some(h) => h.clone(),
                None => "/tmp".to_owned(),
            };
            join_path(os, base.as_str(), ".noide")
        },
        Platform::Windows => {
            let base = match &dirs.local_data {
                Some(d) => d.clone(),
                None => {
                    let mut base = match &dirs.profile {
                        Some(p) => p.clone(),
                        None => String::new(),
                    };
                    base.append("\\AppData\\Local");
                    base
                },
            };
            join_path(os, base.as_str(), "noide")
        },
    };
    join_path(os, dir.as_str(), cloudflared_binary_name(os))
}

/// What a system is called in the name of a download.
pub open spec fn triple_of(os: Seq<char>, arch: Seq<char>) -> Seq<char> {
    if os == "linux"@ && arch == "x86_64"@ {
        "linux-amd64"@
    } else if os == "linux"@ && arch == "aarch64"@ {
        "linux-arm64"@
    } else if os == "macos"@ && arch == "x86_64"@ {
        "darwin-amd64"@
    } else if os == "macos"@ && arch == "aarch64"@ {
        "darwin-arm64"@
    } else if os == "windows"@ && arch == "x86_64"@ {
        "windows-amd64"@
    } else {
        "linux-amd64"@
    }
}

/// What a system is called in the name of a download.
pub fn platform_triple(os: &str, arch: &str) -> (r: &'static str)
    ensures
        r@ == triple_of(os@, arch@),
{
    if same(os, "linux") && same(arch, "x86_64") {
        "linux-amd64"
    } else if same(os, "linux") && same(arch, "aarch64") {
        "linux-arm64"
    } else if same(os, "macos") && same(arch, "x86_64") {
        "darwin-amd64"
    } else if same(os, "macos") && same(arch, "aarch64") {
        "darwin-arm64"
    } else if same(os, "windows") && same(arch, "x86_64") {
        "windows-amd64"
    } else {
        "linux-amd64"
    }
}

/// From where cloudflared is downloaded.
pub fn download_url(triple: &str) -> (r: String)
    ensures
        r@ == "https://github.com/cloudflare/cloudflared/releases/latest/download/cloudflared-"@
            + triple@,
{
    cat2(
        "https://github.com/cloudflare/cloudflared/releases/latest/download/cloudflared-",
        triple,
    )
}

/// What is to be done about cloudflared.
#[derive(Debug, PartialEq)]
pub enum Fetch {
    /// It is there.
    Ready,
    /// It has to be downloaded from this address.
    Download(String),
}

/// Decides whether cloudflared has to be downloaded.
pub fn ensure_cloudflared(exists: bool, os: &str, arch: &str) -> (r: Fetch)
    ensures
        match r {
            Fetch::Ready => exists,
            Fetch::Download(u) => !exists && u@
                == "https://github.com/cloudflare/cloudflared/releases/latest/download/cloudflared-"@
                + triple_of(os@, arch@),
        },
{
    if exists {
        Fetch::Ready
    } else {
        Fetch::Download(download_url(platform_triple(os, arch)))
    }
}

/// What is said when a download is refused.
pub fn download_refused(status: &str) -> (r: String)
    ensures
        r@ == "cloudflared download failed (HTTP "@ + status@ + ")"@,
{
    cat3("cloudflared download failed (HTTP ", status, ")")
}

/// Where getting or starting cloudflared fails.
#[derive(Debug, Clone, Copy, PartialEq, Eq, Structural)]
pub enum CloudflaredFault {
    MakeClient,
    Download,
    MakeDir,
    MakeTemp,
    ReadBody,
    WriteBody,
    MakeExecutable,
    Start,
}

/// What is said when getting or starting cloudflared fails.
pub fn cloudflared_failure(at: CloudflaredFault, e: &str) -> (r: String)
    ensures
        r@ == (match at {
            CloudflaredFault::MakeClient => "failed to build HTTP client: "@,
            CloudflaredFault::Download => "failed to download cloudflared: "@,
            CloudflaredFault::MakeDir => "failed to create ~/.noide: "@,
            CloudflaredFault::MakeTemp => "failed to create temp file: "@,
            CloudflaredFault::ReadBody => "failed to read download: "@,
            CloudflaredFault::WriteBody => "failed to write binary: "@,
            CloudflaredFault::MakeExecutable => "failed to chmod cloudflared: "@,
            CloudflaredFault::Start => "failed to start cloudflared: "@,
        }) + e@,
{
    let said = match at {
        CloudflaredFault::MakeClient => "failed to build HTTP client: ",
        CloudflaredFault::Download => "failed to download cloudflared: ",
        CloudflaredFault::MakeDir => "failed to create ~/.noide: ",
        CloudflaredFault::MakeTemp => "failed to create temp file: ",
        CloudflaredFault::ReadBody => "failed to read download: ",
        CloudflaredFault::WriteBody => "failed to write binary: ",
        CloudflaredFault::MakeExecutable => "failed to chmod cloudflared: ",
        CloudflaredFault::Start => "failed to start cloudflared: ",
    };
    cat2(said, e)
}

/// The arguments with which cloudflared forwards a port.
pub fn quick_tunnel_args(port: u16) -> (r: Vec<String>)
    ensures
        texts(r@) == seq!["tunnel"@, "--url"@, "http://127.0.0.1:"@ + decimal(port as nat)],
{
    let number = write_number(port as u64);
    let mut v: Vec<String> = Vec::new();
    v.push("tunnel".to_owned());
    v.push("--url".to_owned());
    v.push(cat2("http://127.0.0.1:", number.as_str()));
    assert(texts(v@) =~= seq!["tunnel"@, "--url"@, "http://127.0.0.1:"@ + decimal(port as nat)]);
    v
}

/// The first address of a quick tunnel among some words, from the one at `i` on.
pub open spec fn first_quick_link(ws: Seq<Seq<char>>, i: int) -> Option<Seq<char>>
    decreases ws.len() - i,
{
    if i < 0 || i >= ws.len() {
        None
    } else if is_link(Provider::TryCloudflare, ws[i]) {
        Some(ws[i])
    } else {
        first_quick_link(ws, i + 1)
    }
}

/// The address of a quick tunnel in a line.
pub open spec fn quick_link(line: Seq<char>) -> Option<Seq<char>> {
    if contains(line, "trycloudflare.com"@) {
        first_quick_link(words(line), 0)
    } else {
        None
    }
}

/// The address of a quick tunnel in a line.
pub fn quick_tunnel_url(line: &str) -> (r: Option<String>)
    ensures
        text_view(r) == quick_link(line@),
{
    let chars = chars_of(line);
    if !holds(chars.as_slice(), "trycloudflare.com") {
        return None;
    }
    let all = split_words(chars.as_slice());
    let ghost ws = words(line@);
    let mut i: usize = 0;
    while i < all.len()
        invariant
            i <= all@.len(),
            ws == slices(all@),
            ws == words(line@),
            contains(line@, "trycloudflare.com"@),
            first_quick_link(ws, 0) == first_quick_link(ws, i as int),
        decreases all@.len() - i,
    {
        assert(ws[i as int] == all@[i as int]@);
        if word_is_link(Provider::TryCloudflare, all[i]) {
            return Some(string_of(all[i]));
        }
        i += 1;
    }
    None
}

/// What was read of the messages of cloudflared.
#[derive(Debug, PartialEq)]
pub enum QuickLine {
    Line(String),
    End,
    Fault(String),
}

/// What the messages of cloudflared come to at a line: the address, nothing yet,
/// or why there will be none.
pub fn start_tunnel(line: &QuickLine) -> (r: Result<Option<String>, String>)
    ensures
        match *line {
            QuickLine::Line(t) => r matches Ok(u) && text_view(u) == quick_link(t@),
            QuickLine::End => r matches Err(e) && e@
                == "cloudflared exited before producing a tunnel URL"@,
            QuickLine::Fault(f) => r matches Err(e) && e@ == "cloudflared stderr read error: "@
                + f@,
        },
{
    match line {
        QuickLine::Line(t) => Ok(quick_tunnel_url(t.as_str())),
        QuickLine::End => Err("cloudflared exited before producing a tunnel URL".to_owned()),
        QuickLine::Fault(f) => Err(cat2("cloudflared stderr read error: ", f.as_str())),
    }
}

/// An address is found once: after a line has brought it, no later line of the
/// same output brings another.
pub proof fn address_is_told_once(v: LinesView, line: Seq<char>, later: Seq<char>, known: bool)
    requires
        v.brings(line, false) is Some,
    ensures
        v.after(line, false).brings(later, known) is None,
        v.after(line, false).passes_on(later, known).len() <= 1,
{
}

/// A line that says the same as the one before is not passed on again.
pub proof fn repeated_line_is_told_once(v: LinesView, line: Seq<char>, known: bool, still: bool)
    ensures
        v.after(line, known).passes_on(line, still) == Seq::<Seq<char>>::empty(),
{
}

/// A provider is known by one name only, and each is reached by a program of its own.
pub proof fn providers_are_told_apart(a: Provider, b: Provider)
    ensures
        provider_named("trycloudflare"@) == Some(Provider::TryCloudflare),
        provider_named("localhost.run"@) == Some(Provider::LocalhostRun),
        provider_named("localtunnel"@) == Some(Provider::Localtunnel),
        program_of(Provider::TryCloudflare) == "cloudflared"@,
        program_of(Provider::LocalhostRun) == "ssh"@,
        program_of(Provider::Localtunnel) == "lt"@,
        program_of(a) == program_of(b) ==> a == b,
{
    reveal_strlit("trycloudflare");
    reveal_strlit("localhost.run");
    reveal_strlit("localtunnel");
    reveal_strlit("cloudflared");
    reveal_strlit("ssh");
    reveal_strlit("lt");
    assert("trycloudflare"@.len() == 13 && "localhost.run"@.len() == 13);
    assert("localtunnel"@.len() == 11);
    assert("trycloudflare"@[0] == 't' && "localhost.run"@[0] == 'l');
    assert("cloudflared"@.len() == 11 && "ssh"@.len() == 3 && "lt"@.len() == 2);
}

/// A name that is none of a provider's names none.
pub proof fn other_names_name_no_provider(s: Seq<char>)
    ensures
        provider_named(s) is None <==> !seq![
            "trycloudflare"@,
            "localhost.run"@,
            "localtunnel"@,
        ].contains(s),
{
    let names = seq!["trycloudflare"@, "localhost.run"@, "localtunnel"@];
    assert(names[0] == "trycloudflare"@ && names[1] == "localhost.run"@);
    assert(names[2] == "localtunnel"@);
}

/// Every provider forwards the port that it is asked to, of this machine, and no other: one of
/// its arguments ends with its number, and two ports are never forwarded by the same arguments.
pub proof fn tunnels_forward_their_port(p: Provider, port: u16, other: u16)
    ensures
        ends_with(
            tunnel_args(p, port)[match p {
                Provider::TryCloudflare => 2int,
                Provider::LocalhostRun => 3,
                Provider::Localtunnel => 0,
            }],
            decimal(port as nat),
        ),
        tunnel_args(Provider::TryCloudflare, port) == seq![
            "tunnel"@,
            "--url"@,
            "http://127.0.0.1:"@ + decimal(port as nat),
            "--no-autoupdate"@,
        ],
        tunnel_args(Provider::LocalhostRun, port)[2] == "-R"@,
        tunnel_args(Provider::LocalhostRun, port)[3] == "*:80:127.0.0.1:"@ + decimal(port as nat),
        tunnel_args(Provider::LocalhostRun, port)[4] == "nokey@localhost.run"@,
        tunnel_args(Provider::Localtunnel, port) == seq!["--port="@ + decimal(port as nat)],
        tunnel_args(p, port) == tunnel_args(p, other) ==> port == other,
{
    let d = decimal(port as nat);
    let e = decimal(other as nat);
    let at: int = match p {
        Provider::TryCloudflare => 2,
        Provider::LocalhostRun => 3,
        Provider::Localtunnel => 0,
    };
    let word = tunnel_args(p, port)[at];
    assert(word.skip(word.len() - d.len()) =~= d);
    if tunnel_args(p, port) == tunnel_args(p, other) {
        let n = word.len() - d.len();
        assert(tunnel_args(p, other)[at].skip(n) =~= e);
        lemma_decimal(port as nat);
        lemma_decimal(other as nat);
    }
}

/// Tells whether a word is an address on the web, or an insecure one where that is allowed.
pub open spec fn is_web_address(w: Seq<char>, insecure: bool) -> bool {
    starts_with(w, "https://"@) || (insecure && starts_with(w, "http://"@))
}

/// The address of a tunnel is one on the web that belongs to the provider; only some give an
/// insecure one.
pub proof fn addresses_belong_to_the_provider(w: Seq<char>)
    ensures
        is_link(Provider::TryCloudflare, w) <==> is_web_address(w, false) && contains(
            w,
            "trycloudflare.com"@,
        ),
        is_link(Provider::LocalhostRun, w) <==> is_web_address(w, true) && contains(
            w,
            "lhr.life"@,
        ),
        is_link(Provider::Localtunnel, w) <==> is_web_address(w, true) && (contains(
            w,
            "loca.lt"@,
        ) || contains(w, "localtunnel.me"@)),
{
}

/// The address that a line gives is its first word that is one, without the commas after it;
/// a line in which no word is one gives none.
pub proof fn lines_give_their_first_address(p: Provider, line: Seq<char>, i: int)
    requires
        0 <= i <= words(trim(line)).len(),
        forall|j: int| 0 <= j < i ==> !is_link(p, #[trigger] words(trim(line))[j]),
    ensures
        i < words(trim(line)).len() && is_link(p, words(trim(line))[i]) ==> link_in(p, line)
            == Some(trim_end_char(words(trim(line))[i], ',')),
        i == words(trim(line)).len() ==> link_in(p, line) is None,
{
    lemma_first_link(p, words(trim(line)), 0, i);
}

proof fn lemma_first_link(p: Provider, ws: Seq<Seq<char>>, k: int, i: int)
    requires
        0 <= k <= i <= ws.len(),
        forall|j: int| 0 <= j < i ==> !is_link(p, #[trigger] ws[j]),
    ensures
        i < ws.len() && is_link(p, ws[i]) ==> first_link(p, ws, k) == Some(
            trim_end_char(ws[i], ','),
        ),
        i == ws.len() ==> first_link(p, ws, k) is None,
    decreases i - k,
{
    if k < i {
        lemma_first_link(p, ws, k + 1, i);
    }
}

/// The address of a quick tunnel is the first word of the line that is one, as it stands.
pub proof fn quick_tunnels_give_their_address(line: Seq<char>, i: int)
    requires
        0 <= i < words(line).len(),
        contains(line, "trycloudflare.com"@),
        forall|j: int|
            0 <= j < i ==> !is_link(Provider::TryCloudflare, #[trigger] words(line)[j]),
        is_link(Provider::TryCloudflare, words(line)[i]),
    ensures
        quick_link(line) == Some(words(line)[i]),
{
    lemma_first_quick_link(words(line), 0, i);
}

proof fn lemma_first_quick_link(ws: Seq<Seq<char>>, k: int, i: int)
    requires
        0 <= k <= i < ws.len(),
        forall|j: int| 0 <= j < i ==> !is_link(Provider::TryCloudflare, #[trigger] ws[j]),
        is_link(Provider::TryCloudflare, ws[i]),
    ensures
        first_quick_link(ws, k) == Some(ws[i]),
    decreases i - k,
{
    if k < i {
        lemma_first_quick_link(ws, k + 1, i);
    }
}

/// A new line is passed on without the white space at its end, followed by the address that it
/// brings; the address is the one that the provider gives in it.
pub proof fn lines_are_passed_on(v: LinesView, line: Seq<char>)
    requires
        trim_end(line) != v.last_line,
        !v.url_sent,
    ensures
        v.passes_on(line, true) == seq![trim_end(line)],
        v.brings(line, true) is None,
        v.brings(line, false) == link_in(v.provider, trim_end(line)),
        match link_in(v.provider, trim_end(line)) {
            Some(u) => v.passes_on(line, false) == seq![trim_end(line), "[URL] "@ + u] && v.after(
                line,
                false,
            ).url_sent,
            None => v.passes_on(line, false) == seq![trim_end(line)] && !v.after(
                line,
                false,
            ).url_sent,
        },
{
}

/// The text in the place of which an escaped one stands.
pub open spec fn plain_text(s: Seq<char>) -> Seq<char>
    decreases s.len(),
{
    if s.len() == 0 {
        Seq::empty()
    } else if s.len() > 1 && s[0] == '\\' {
        seq![if s[1] == 'n' {
            '\n'
        } else {
            s[1]
        }] + plain_text(s.skip(2))
    } else {
        seq![s[0]] + plain_text(s.skip(1))
    }
}

/// A text that was escaped holds no line end and can be read back.
pub proof fn escaped_texts_are_read_back(s: Seq<char>)
    ensures
        plain_text(escaped_text(s)) == s,
        !escaped_text(s).contains('\n'),
    decreases s.len(),
{
    if s.len() > 0 {
        let front = s.drop_last();
        escaped_texts_are_read_back(front);
        lemma_plain_of(front, escaped_char(s.last()));
        let e = escaped_char(s.last());
        assert(plain_text(e) =~= seq![s.last()]) by {
            reveal_with_fuel(plain_text, 3);
            if e.len() == 2 {
                assert(e.skip(2) =~= Seq::<char>::empty());
            } else {
                assert(e.skip(1) =~= Seq::<char>::empty());
            }
        }
        assert(s =~= front.push(s.last()));
        assert(plain_text(escaped_text(s)) =~= s);
        let t = escaped_text(s);
        if t.contains('\n') {
            let i = choose|i: int| 0 <= i < t.len() && t[i] == '\n';
            if i < escaped_text(front).len() {
                assert(escaped_text(front)[i] == '\n');
            } else {
                assert(e[i - escaped_text(front).len()] == '\n');
            }
        }
    }
}

proof fn lemma_plain_of(s: Seq<char>, rest: Seq<char>)
    ensures
        plain_text(escaped_text(s) + rest) == plain_text(escaped_text(s)) + plain_text(rest),
    decreases s.len(),
{
    if s.len() == 0 {
        assert(escaped_text(s) + rest =~= rest);
        assert(plain_text(escaped_text(s)) + plain_text(rest) =~= plain_text(rest));
    } else {
        let front = s.drop_last();
        let e = escaped_char(s.last());
        let t = escaped_text(front);
        lemma_plain_of(front, e);
        lemma_plain_of(front, e + rest);
        assert(t + e + rest =~= t + (e + rest));
        assert(plain_text(e + rest) =~= plain_text(e) + plain_text(rest)) by {
            reveal_with_fuel(plain_text, 3);
            let n = e.len() as int;
            assert((e + rest).skip(n) =~= rest);
            assert(e.skip(n) =~= Seq::<char>::empty());
        }
        assert(plain_text(t) + (plain_text(e) + plain_text(rest)) =~= plain_text(t) + plain_text(e)
            + plain_text(rest));
    }
}

/// A system is called in a download by its own name and that of its processor; one that there
/// is no download for gets that for Linux on the usual processor.
pub proof fn systems_are_called_by_their_names(os: Seq<char>, arch: Seq<char>)
    ensures
        ({
            let system = if os == "macos"@ {
                "darwin"@
            } else {
                os
            };
            let processor = if arch == "aarch64"@ {
                "arm64"@
            } else {
                "amd64"@
            };
            let known = (os == "linux"@ || os == "macos"@) && (arch == "x86_64"@ || arch
                == "aarch64"@) || os == "windows"@ && arch == "x86_64"@;
            &&& known ==> triple_of(os, arch) == system + "-"@ + processor
            &&& !known ==> triple_of(os, arch) == "linux-amd64"@
        }),
{
    reveal_strlit("linux");
    reveal_strlit("macos");
    reveal_strlit("windows");
    reveal_strlit("darwin");
    reveal_strlit("x86_64");
    reveal_strlit("aarch64");
    reveal_strlit("arm64");
    reveal_strlit("amd64");
    reveal_strlit("-");
    reveal_strlit("linux-amd64");
    reveal_strlit("linux-arm64");
    reveal_strlit("darwin-amd64");
    reveal_strlit("darwin-arm64");
    reveal_strlit("windows-amd64");
    assert("linux"@.len() == 5 && "macos"@.len() == 5 && "windows"@.len() == 7);
    assert("linux"@[0] == 'l' && "macos"@[0] == 'm');
    assert("x86_64"@.len() == 6 && "aarch64"@.len() == 7);
    assert("linux-amd64"@ =~= "linux"@ + "-"@ + "amd64"@);
    assert("linux-arm64"@ =~= "linux"@ + "-"@ + "arm64"@);
    assert("darwin-amd64"@ =~= "darwin"@ + "-"@ + "amd64"@);
    assert("darwin-arm64"@ =~= "darwin"@ + "-"@ + "arm64"@);
    assert("windows-amd64"@ =~= "windows"@ + "-"@ + "amd64"@);
}

/// An installation by a script succeeds just where it could be run and the program is there
/// after it, whatever its exit code is; one by npm just where npm says so.
pub proof fn installations_succeed_by_their_outcome(
    o: OutcomeView,
    there: bool,
    fault: Seq<char>,
    missing: Seq<char>,
)
    ensures
        script_result(o, there, fault, missing) is Ok <==> o is Exited && there,
        o is Exited && there ==> script_result(o, there, fault, missing)->Ok_0 == lossy(o->stdout)
            + lossy(o->stderr),
        o is Exited && !there ==> script_result(o, there, fault, missing)->Err_0 == missing,
        npm_result(o) is Ok <==> o is Exited && o->success,
        o is Exited && lossy(o->stderr).len() == 0 ==> (if o->success {
            npm_result(o)->Ok_0
        } else {
            npm_result(o)->Err_0
        }) == lossy(o->stdout),
        o is Exited && lossy(o->stderr).len() > 0 ==> (if o->success {
            npm_result(o)->Ok_0
        } else {
            npm_result(o)->Err_0
        }) == lossy(o->stdout) + "\n"@ + lossy(o->stderr),
{
}

/// Only two programs can be installed: OpenSSH by the package manager of the system, on Linux and
/// macOS, and localtunnel by npm everywhere.
pub proof fn some_programs_can_be_installed(name: Seq<char>, os: Seq<char>)
    ensures
        install_plan(name, os) is Npm <==> provider_named(name) == Some(Provider::Localtunnel),
        install_plan(name, os) is Script <==> provider_named(name) == Some(Provider::LocalhostRun)
            && (os == "linux"@ || os == "macos"@),
        provider_named(name) is None ==> install_plan(name, os) == InstallView::Refuse(
            "Unknown provider: "@ + name,
        ),
{
}

/// What a line says is bad news where it speaks of an error in capitals, or of something that
/// is not installed, in capitals or not.
pub proof fn bad_news_is_heard(line: Seq<char>)
    ensures
        is_bad_news(line) <==> contains(line, "ERROR"@) || contains(
            lowercase(line),
            "not installed"@,
        ),
{
}

/// The program for quick tunnels is kept below the home directory, or without one among what
/// is temporary; on Windows where data of the machine is kept.
pub proof fn programs_are_kept_with_the_user(os: Platform, dirs: UserDirs)
    ensures
        dirs.home matches Some(h) ==> cloudflared_dir(Platform::Unix, dirs) == join(
            Platform::Unix,
            h@,
            ".noide"@,
        ),
        dirs.home is None ==> cloudflared_dir(Platform::Unix, dirs) == join(
            Platform::Unix,
            "/tmp"@,
            ".noide"@,
        ),
        dirs.local_data matches Some(d) ==> cloudflared_dir(Platform::Windows, dirs) == join(
            Platform::Windows,
            d@,
            "noide"@,
        ),
        cloudflared_name(Platform::Windows) == cloudflared_name(Platform::Unix) + ".exe"@,
{
    reveal_strlit("cloudflared.exe");
    reveal_strlit("cloudflared");
    reveal_strlit(".exe");
    assert("cloudflared.exe"@ =~= "cloudflared"@ + ".exe"@);
}

/// An address is found whichever provider gives it, and one that is found is given by one.
pub proof fn addresses_are_found_whoever_gives_them(line: Seq<char>)
    ensures
        any_link(line) is None <==> link_in(Provider::TryCloudflare, trim(line)) is None && link_in(
            Provider::LocalhostRun,
            trim(line),
        ) is None && link_in(Provider::Localtunnel, trim(line)) is None,
        link_in(Provider::TryCloudflare, trim(line)) is Some ==> any_link(line) == link_in(
            Provider::TryCloudflare,
            trim(line),
        ),
        any_link(line) is Some ==> any_link(line) == link_in(Provider::TryCloudflare, trim(line))
            || any_link(line) == link_in(Provider::LocalhostRun, trim(line)) || any_link(line)
            == link_in(Provider::Localtunnel, trim(line)),
{
}

} // verus!
