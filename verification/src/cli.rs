//! What the programs are asked to do on their command lines.

use vstd::prelude::*;
use vstd::string::*;

use crate::text::{
    after_prefix, blank, cat4, chars_of, decimal, is_digit, is_white, lemma_decimal,
    lemma_position, lemma_split_last, numbers_are_read_back, parse_u16, read_unsigned, same, split,
    split_at_char, starts_with, string_of, text_view, texts, trim, trimming_leaves_the_rest,
    write_number,
};

verus! {

/// What is asked for on the command line of the server.
#[derive(Debug, PartialEq)]
pub struct Flags {
    /// The token that every client has to show.
    pub token: Option<String>,
    pub no_auth: bool,
    pub no_cloudflare: bool,
}

/// What the command line of the server asks for.
pub struct FlagsView {
    pub token: Option<Seq<char>>,
    pub no_auth: bool,
    pub no_cloudflare: bool,
}

impl View for Flags {
    type V = FlagsView;

    open spec fn view(&self) -> FlagsView {
        FlagsView {
            token: text_view(self.token),
            no_auth: self.no_auth,
            no_cloudflare: self.no_cloudflare,
        }
    }
}

/// A token that may replace another: a blank one does not.
pub open spec fn token_or(value: Seq<char>, token: Option<Seq<char>>) -> Option<Seq<char>> {
    if trim(value).len() == 0 {
        token
    } else {
        Some(value)
    }
}

impl FlagsView {
    /// What is asked for after an argument that takes no value.
    pub open spec fn after(self, arg: Seq<char>) -> FlagsView {
        FlagsView {
            token: if starts_with(arg, "--token="@) {
                token_or(arg.skip(8), self.token)
            } else {
                self.token
            },
            no_auth: self.no_auth || arg == "--no-auth"@,
            no_cloudflare: self.no_cloudflare || arg == "--no-cloudflare"@,
        }
    }

    /// What is asked for after the arguments from the one at `i` on.
    pub open spec fn after_all(self, args: Seq<Seq<char>>, i: int) -> FlagsView
        decreases args.len() - i,
    {
        if i < 0 || i >= args.len() {
            self
        } else if args[i] == "--token"@ && i + 1 < args.len() {
            FlagsView { token: token_or(args[i + 1], self.token), ..self }.after_all(args, i + 2)
        } else {
            self.after(args[i]).after_all(args, i + 1)
        }
    }
}

/// What the server is asked to do.
#[derive(Debug, PartialEq)]
pub enum Startup {
    Version,
    Help,
    Serve(Flags),
}

/// What the server is asked to do.
pub enum StartupView {
    Version,
    Help,
    Serve(FlagsView),
}

impl View for Startup {
    type V = StartupView;

    open spec fn view(&self) -> StartupView {
        match self {
            Startup::Version => StartupView::Version,
            Startup::Help => StartupView::Help,
            Startup::Serve(f) => StartupView::Serve(f@),
        }
    }
}

/// What a command line comes to, with the token of the environment.
pub open spec fn startup(args: Seq<Seq<char>>, env_token: Option<Seq<char>>) -> StartupView {
    if args.contains("--version"@) || args.contains("-V"@) {
        StartupView::Version
    } else if args.contains("--help"@) || args.contains("-h"@) {
        StartupView::Help
    } else {
        let token = match env_token {
            Some(t) => token_or(t, None),
            None => None,
        };
        StartupView::Serve(
            FlagsView { token, no_auth: false, no_cloudflare: false }.after_all(args, 0),
        )
    }
}

fn has_arg(args: &Vec<String>, word: &str) -> (r: bool)
    ensures
        r == texts(args@).contains(word@),
{
    let mut i: usize = 0;
    while i < args.len()
        invariant
            i <= args@.len(),
            forall|j: int| 0 <= j < i ==> texts(args@)[j] != word@,
        decreases args@.len() - i,
    {
        if same(args[i].as_str(), word) {
            assert(texts(args@)[i as int] == word@);
            return true;
        }
        i += 1;
    }
    assert(!texts(args@).contains(word@));
    false
}

fn pick_token(value: &str, token: Option<String>) -> (r: Option<String>)
    ensures
        text_view(r) == token_or(value@, text_view(token)),
{
    if blank(value) {
        token
    } else {
        Some(value.to_owned())
    }
}

/// Reads the command line of the server.
pub fn read_args(args: &Vec<String>, env_token: Option<String>) -> (r: Startup)
    ensures
        r@ == startup(texts(args@), text_view(env_token)),
{
    if has_arg(args, "--version") || has_arg(args, "-V") {
        return Startup::Version;
    }
    if has_arg(args, "--help") || has_arg(args, "-h") {
        return Startup::Help;
    }
    let first = match env_token {
        Some(t) => pick_token(t.as_str(), None),
        None => None,
    };
    let ghost all = texts(args@);
    let mut flags = Flags { token: first, no_auth: false, no_cloudflare: false };
    let ghost start = flags@;
    let mut i: usize = 0;
    proof {
        reveal_strlit("--token=");
        assert("--token="@.len() == 8);
    }
    while i < args.len()
        invariant
            i <= args@.len(),
            all == texts(args@),
            "--token="@.len() == 8,
            flags@.after_all(all, i as int) == start.after_all(all, 0),
        decreases args@.len() - i,
    {
        let arg = args[i].as_str();
        assert(arg@ == all[i as int]);
        if same(arg, "--token") && i + 1 < args.len() {
            let value = args[i + 1].as_str();
            assert(value@ == all[i + 1]);
            flags = Flags {
                token: pick_token(value, flags.token),
                no_auth: flags.no_auth,
                no_cloudflare: flags.no_cloudflare,
            };
            i += 2;
        } else {
            let chars = chars_of(arg);
            let token = match after_prefix(chars.as_slice(), "--token=") {
                Some(rest) => {
                    let value = string_of(rest);
                    pick_token(value.as_str(), flags.token)
                },
                None => flags.token,
            };
            flags = Flags {
                token,
                no_auth: flags.no_auth || same(arg, "--no-auth"),
                no_cloudflare: flags.no_cloudflare || same(arg, "--no-cloudflare"),
            };
            i += 1;
        }
    }
    Startup::Serve(flags)
}

/// How clients are let in.
#[derive(Debug, PartialEq)]
pub enum Auth {
    /// Anyone may connect. Tells whether a token is set aside for that.
    Open { overrides: bool },
    /// Clients show a token that was given.
    Token(String),
    /// Clients show a code that is made up at the start.
    Pairing,
}

/// Decides how clients are let in: the wish to let everyone in comes first, then
/// a token, and without either clients have to pair.
pub fn auth_mode(flags: Flags) -> (r: Auth)
    ensures
        match r {
            Auth::Open { overrides } => flags.no_auth && overrides == (flags.token is Some),
            Auth::Token(t) => !flags.no_auth && text_view(flags.token) == Some(t@),
            Auth::Pairing => !flags.no_auth && flags.token is None,
        },
{
    if flags.no_auth {
        return Auth::Open { overrides: flags.token.is_some() };
    }
    match flags.token {
        Some(t) => Auth::Token(t),
        None => Auth::Pairing,
    }
}

/// The port of the server when its address names none.
pub const DEFAULT_PORT: u16 = 1421;

/// The port that an address names last.
pub open spec fn port_in(addr: Seq<char>) -> int {
    match read_unsigned(split(addr, ':').last(), u16::MAX as int) {
        Some(n) => n,
        None => DEFAULT_PORT as int,
    }
}

/// The port that an address names.
pub fn port_of(addr: &str) -> (r: u16)
    ensures
        r == port_in(addr@),
{
    let chars = chars_of(addr);
    let parts = split_at_char(chars.as_slice(), ':');
    let last = parts[parts.len() - 1];
    assert(split(addr@, ':').last() == last@);
    match parse_u16(last) {
        Some(n) => n,
        None => DEFAULT_PORT,
    }
}

/// The address under which the server is reached.
pub fn server_url(ip: &str, port: u16) -> (r: String)
    ensures
        r@ == "ws://"@ + ip@ + ":"@ + decimal(port as nat),
{
    let number = write_number(port as u64);
    cat4("ws://", ip, ":", number.as_str())
}

/// The port that is forwarded when none is named.
pub const FORWARD_PORT: u16 = 3000;

/// What a forward of a port is asked for: the provider and the port; nothing
/// when no provider is named.
pub fn forward_args(provider: Option<String>, port: Option<u16>) -> (r: Option<(String, u16)>)
    ensures
        match r {
            Some(x) => text_view(provider) == Some(x.0@) && x.0@.len() > 0 && x.1 == (match port {
                Some(p) => p,
                None => 3000u16,
            }),
            None => provider is None || provider->Some_0@.len() == 0,
        },
{
    let name = match provider {
        Some(p) => p,
        None => {
            return None;
        },
    };
    if name.as_str().unicode_len() == 0 {
        return None;
    }
    let port = match port {
        Some(p) => p,
        None => FORWARD_PORT,
    };
    Some((name, port))
}

/// The port that a text of a query names.
pub fn query_port(text: &Option<String>) -> (r: u16)
    ensures
        r == (match *text {
            Some(t) => match read_unsigned(t@, u16::MAX as int) {
                Some(n) => n,
                None => 3000,
            },
            None => 3000,
        }),
{
    match text {
        Some(t) => {
            let chars = chars_of(t.as_str());
            match parse_u16(chars.as_slice()) {
                Some(n) => n,
                None => FORWARD_PORT,
            }
        },
        None => FORWARD_PORT,
    }
}

/// No one is let in unasked: without the argument for it the server is not open.
pub proof fn no_one_is_let_in_unasked(f: FlagsView, args: Seq<Seq<char>>, i: int)
    requires
        !args.contains("--no-auth"@),
        0 <= i,
    ensures
        f.after_all(args, i).no_auth == f.no_auth,
    decreases args.len() - i,
{
    if i < args.len() {
        assert(args.contains(args[i]));
        if args[i] == "--token"@ && i + 1 < args.len() {
            let g = FlagsView { token: token_or(args[i + 1], f.token), ..f };
            no_one_is_let_in_unasked(g, args, i + 2);
        } else {
            no_one_is_let_in_unasked(f.after(args[i]), args, i + 1);
        }
    }
}

/// Clients have to pair unless something else is asked for: with no token on the
/// command line, none is required but that of the environment.
pub proof fn pairing_is_the_default(f: FlagsView, args: Seq<Seq<char>>, i: int)
    requires
        !args.contains("--token"@),
        forall|k: int| 0 <= k < args.len() ==> !starts_with(#[trigger] args[k], "--token="@),
        0 <= i,
    ensures
        f.after_all(args, i).token == f.token,
    decreases args.len() - i,
{
    if i < args.len() {
        assert(args.contains(args[i]));
        pairing_is_the_default(f.after(args[i]), args, i + 1);
    }
}

/// The server is asked for its version or for help by any argument that says so, before
/// anything else, and serves where none does.
pub proof fn questions_come_first(args: Seq<Seq<char>>, env_token: Option<Seq<char>>)
    ensures
        startup(args, env_token) is Version <==> args.contains("--version"@) || args.contains(
            "-V"@,
        ),
        startup(args, env_token) is Help <==> !args.contains("--version"@) && !args.contains("-V"@)
            && (args.contains("--help"@) || args.contains("-h"@)),
{
}

/// What an argument without a value asks for holds wherever it stands, and nothing else asks
/// for it.
pub proof fn flags_hold_wherever_they_stand(f: FlagsView, args: Seq<Seq<char>>, i: int)
    requires
        forall|k: int| 0 <= k < args.len() ==> #[trigger] args[k] != "--token"@,
        0 <= i <= args.len(),
    ensures
        f.after_all(args, i).no_auth <==> f.no_auth || args.skip(i).contains("--no-auth"@),
        f.after_all(args, i).no_cloudflare <==> f.no_cloudflare || args.skip(i).contains(
            "--no-cloudflare"@,
        ),
    decreases args.len() - i,
{
    if i < args.len() {
        flags_hold_wherever_they_stand(f.after(args[i]), args, i + 1);
        lemma_rest_contains(args, i, "--no-auth"@);
        lemma_rest_contains(args, i, "--no-cloudflare"@);
    }
}

proof fn lemma_rest_contains(args: Seq<Seq<char>>, i: int, x: Seq<char>)
    requires
        0 <= i < args.len(),
    ensures
        args.skip(i).contains(x) <==> args[i] == x || args.skip(i + 1).contains(x),
{
    let a = args.skip(i);
    let b = args.skip(i + 1);
    assert(a[0] == args[i]);
    if a.contains(x) {
        let k = choose|k: int| 0 <= k < a.len() && a[k] == x;
        if k > 0 {
            assert(b[k - 1] == x);
        }
    }
    if b.contains(x) {
        let k = choose|k: int| 0 <= k < b.len() && b[k] == x;
        assert(a[k + 1] == x);
    }
}

/// A token is the value of the argument that names it, written as one word or as two, and the
/// one of the environment where the command line names none. One that is blank counts for
/// nothing.
pub proof fn tokens_are_taken_as_given(
    value: Seq<char>,
    rest: Seq<Seq<char>>,
    given: Option<Seq<char>>,
)
    requires
        forall|k: int|
            0 <= k < rest.len() ==> #[trigger] rest[k] != "--token"@ && !starts_with(
                rest[k],
                "--token="@,
            ),
        trim(value).len() > 0,
    ensures
        ({
            let f = FlagsView { token: given, no_auth: false, no_cloudflare: false };
            &&& f.after_all(seq!["--token"@, value] + rest, 0).token == Some(value)
            &&& f.after_all(seq!["--token="@ + value] + rest, 0).token == Some(value)
            &&& f.after_all(rest, 0).token == given
        }),
        token_or(value, given) == Some(value),
        token_or(Seq::empty(), given) == given,
{
    reveal_strlit("--token=");
    reveal_strlit("--token");
    let f = FlagsView { token: given, no_auth: false, no_cloudflare: false };
    let two = seq!["--token"@, value] + rest;
    let one = seq!["--token="@ + value] + rest;
    assert forall|k: int| 2 <= k < two.len() implies #[trigger] two[k] != "--token"@
        && !starts_with(two[k], "--token="@) by {
        assert(two[k] == rest[k - 2]);
    }
    assert forall|k: int| 1 <= k < one.len() implies #[trigger] one[k] != "--token"@
        && !starts_with(one[k], "--token="@) by {
        assert(one[k] == rest[k - 1]);
    }
    assert(two[0] == "--token"@ && two[1] == value);
    let g = FlagsView { token: token_or(value, f.token), ..f };
    lemma_token_kept(g, two, 2);
    let word = "--token="@ + value;
    assert(one[0] == word);
    assert(word.len() >= 8 && "--token"@.len() == 7);
    assert(word.take(8) =~= "--token="@);
    assert(word.skip(8) =~= value);
    lemma_token_kept(f.after(word), one, 1);
    lemma_token_kept(f, rest, 0);
    trimming_leaves_the_rest(Seq::empty(), Seq::empty(), Seq::empty());
    assert(Seq::<char>::empty() + Seq::<char>::empty() + Seq::<char>::empty() =~= Seq::empty());
}

proof fn lemma_token_kept(f: FlagsView, args: Seq<Seq<char>>, i: int)
    requires
        0 <= i,
        forall|k: int|
            i <= k < args.len() ==> #[trigger] args[k] != "--token"@ && !starts_with(
                args[k],
                "--token="@,
            ),
    ensures
        f.after_all(args, i).token == f.token,
    decreases args.len() - i,
{
    if i < args.len() {
        assert(args[i] != "--token"@);
        lemma_token_kept(f.after(args[i]), args, i + 1);
    }
}

/// The port of an address is the number that follows its last colon.
pub proof fn ports_follow_the_last_colon(host: Seq<char>, port: u16)
    ensures
        port_in(host.push(':') + decimal(port as nat)) == port,
{
    let d = decimal(port as nat);
    lemma_decimal(port as nat);
    numbers_are_read_back(port as nat, u16::MAX as int);
    if d.contains(':') {
        let i = choose|i: int| 0 <= i < d.len() && d[i] == ':';
        assert(is_digit(d[i]));
    }
    lemma_split_last(host, d, ':');
}

/// An address that names no port, or one that there is not, has the port of the server.
pub proof fn other_addresses_have_the_default_port(host: Seq<char>, last: Seq<char>)
    requires
        !last.contains(':'),
        read_unsigned(last, 65535) is None,
    ensures
        port_in(host.push(':') + last) == 1421,
        port_in(last) == 1421,
{
    lemma_split_last(host, last, ':');
    lemma_position(last, ':');
}

/// A token of nothing but white space counts for nothing, wherever it comes from.
pub proof fn blank_tokens_count_for_nothing(value: Seq<char>, given: Option<Seq<char>>)
    requires
        is_white(value),
    ensures
        token_or(value, given) == given,
{
    trimming_leaves_the_rest(value, Seq::empty(), Seq::empty());
    assert(value + Seq::<char>::empty() + Seq::<char>::empty() =~= value);
}

/// The token of the environment is asked for where the command line names none, unless it is
/// blank; without either no token is asked for.
pub proof fn tokens_come_from_the_environment(args: Seq<Seq<char>>, value: Seq<char>)
    requires
        !args.contains("--version"@),
        !args.contains("-V"@),
        !args.contains("--help"@),
        !args.contains("-h"@),
        forall|k: int|
            0 <= k < args.len() ==> #[trigger] args[k] != "--token"@ && !starts_with(
                args[k],
                "--token="@,
            ),
    ensures
        trim(value).len() > 0 ==> (startup(args, Some(value)) matches StartupView::Serve(f)
            && f.token == Some(value)),
        trim(value).len() == 0 ==> (startup(args, Some(value)) matches StartupView::Serve(f)
            && f.token is None),
        startup(args, None) matches StartupView::Serve(f) && f.token is None,
        startup(args, None) matches StartupView::Serve(f) && (f.no_auth <==> args.contains(
            "--no-auth"@,
        )) && (f.no_cloudflare <==> args.contains("--no-cloudflare"@)),
{
    let some = FlagsView {
        token: token_or(value, None),
        no_auth: false,
        no_cloudflare: false,
    };
    let none = FlagsView { token: None, no_auth: false, no_cloudflare: false };
    lemma_token_kept(some, args, 0);
    lemma_token_kept(none, args, 0);
    assert forall|k: int| 0 <= k < args.len() implies #[trigger] args[k] != "--token"@ by {}
    flags_hold_wherever_they_stand(none, args, 0);
    assert(args.skip(0) =~= args);
}

} // verus!
