//! The agents that can be chatted with: where they are, whether they can be
//! used, and which models they offer.

use vstd::prelude::*;
use vstd::string::*;

use crate::json::{array_view, values, Json, JsonView};
use crate::path::{join, join_path, search_parts, split_search_path, Platform};
use crate::text::{
    ascii_folded, ascii_lower, blank, cat2, cat3, cat4, chars_of, drop_char, fold_ascii, is_space,
    is_text, is_white, join_slices, joined, same, split_words, starts_with, string_of, text_view,
    texts, trim, trim_end_char, trim_start, trim_text, trimmed, trimmed_end_char, without, words,
    words_end_at_white_space,
};

verus! {

/// A model that an agent offers.
#[derive(Debug, PartialEq)]
pub struct ChatModel {
    pub id: String,
    pub label: String,
}

/// What a model stands for.
pub struct ChatModelView {
    pub id: Seq<char>,
    pub label: Seq<char>,
}

impl View for ChatModel {
    type V = ChatModelView;

    open spec fn view(&self) -> ChatModelView {
        ChatModelView { id: self.id@, label: self.label@ }
    }
}

/// The views of a list of models.
pub open spec fn model_views(v: Seq<ChatModel>) -> Seq<ChatModelView> {
    Seq::new(v.len(), |i: int| v[i]@)
}

/// Where an agent lists its models. The name may be written in capitals and
/// with hyphens; one agent is also known by a longer name, which has its hyphen.
pub open spec fn models_url(agent: Seq<char>) -> Option<Seq<char>> {
    let written = ascii_folded(trim(agent));
    let name = ascii_folded(without(trim(agent), '-'));
    if name == "opencode"@ {
        Some("https://openrouter.ai/api/v1/models"@)
    } else if name == "kilo"@ || written == "kilo-code"@ {
        Some("https://api.kilo.ai/api/gateway/models"@)
    } else {
        None
    }
}

/// Where an agent lists its models.
pub fn agent_models_url(agent: &str) -> (r: Option<String>)
    ensures
        text_view(r) == models_url(agent@),
{
    let chars = chars_of(agent);
    let written = fold_ascii(trimmed(chars.as_slice()));
    let plain = drop_char(trimmed(chars.as_slice()), '-');
    let name = fold_ascii(plain.as_slice());
    if is_text(name.as_slice(), "opencode") {
        Some("https://openrouter.ai/api/v1/models".to_owned())
    } else if is_text(name.as_slice(), "kilo") || is_text(written.as_slice(), "kilo-code") {
        Some("https://api.kilo.ai/api/gateway/models".to_owned())
    } else {
        None
    }
}

/// A request for a list of models.
#[derive(Debug, PartialEq)]
pub struct ModelsRequest {
    pub url: String,
    /// The key to present, when there is one.
    pub bearer: Option<String>,
}

/// A URL without white space and without slashes at its end.
pub open spec fn clean_url(url: Seq<char>) -> Seq<char> {
    trim_end_char(joined(words(url), ""@), '/')
}

/// The request for the models that are listed at a URL.
pub fn models_request(url: &str, api_key: &str) -> (r: Result<ModelsRequest, String>)
    ensures
        match r {
            Ok(q) => {
                &&& clean_url(url@).len() > 0
                &&& q.url@ == clean_url(url@)
                &&& text_view(q.bearer) == (if trim(api_key@).len() > 0 {
                    Some(api_key@)
                } else {
                    None
                })
            },
            Err(e) => clean_url(url@).len() == 0 && e@ == "Empty model API URL"@,
        },
{
    let chars = chars_of(url);
    let parts = split_words(chars.as_slice());
    let glued = join_slices(&parts, "");
    let glued_chars = chars_of(glued.as_str());
    let clean = trimmed_end_char(glued_chars.as_slice(), '/');
    if clean.len() == 0 {
        return Err("Empty model API URL".to_owned());
    }
    let bearer = if blank(api_key) {
        None
    } else {
        Some(api_key.to_owned())
    };
    Ok(ModelsRequest { url: string_of(clean), bearer })
}

/// The request for the models of an agent.
pub fn chat_models(agent: &str, api_key: &str) -> (r: Result<ModelsRequest, String>)
    ensures
        match models_url(trim(agent@)) {
            Some(u) => match r {
                Ok(q) => {
                    &&& clean_url(u).len() > 0
                    &&& q.url@ == clean_url(u)
                    &&& text_view(q.bearer) == (if trim(api_key@).len() > 0 {
                        Some(api_key@)
                    } else {
                        None
                    })
                },
                Err(e) => clean_url(u).len() == 0 && e@ == "Empty model API URL"@,
            },
            None => r matches Err(e) && e@ == "Unknown agent '"@ + agent@ + "'"@,
        },
{
    match agent_models_url(trim_text(agent).as_str()) {
        Some(u) => models_request(u.as_str(), api_key),
        None => Err(cat3("Unknown agent '", agent, "'")),
    }
}

/// What came of a request for a list of models.
#[derive(Debug, PartialEq)]
pub enum ModelsReply {
    /// No client could be made.
    NoClient(String),
    /// The request could not be sent.
    NotSent(String),
    /// The answer has a status that is no success.
    Refused(String),
    /// The answer is not JSON.
    Unreadable(String),
    Body(Json),
}

/// The models of a list of values: one for each that has an id that is a text.
pub open spec fn listed_models(data: Seq<JsonView>) -> Seq<ChatModelView>
    decreases data.len(),
{
    if data.len() == 0 {
        seq![]
    } else {
        let front = listed_models(data.drop_last());
        match data.last().get("id"@) {
            Some(JsonView::Str(id)) => front.push(ChatModelView { id, label: id }),
            _ => front,
        }
    }
}

/// What a reply comes to.
pub open spec fn models_result(url: Seq<char>, reply: ModelsReply) -> Result<
    Seq<ChatModelView>,
    Seq<char>,
> {
    match reply {
        ModelsReply::NoClient(e) => Err("Failed to build HTTP client: "@ + e@),
        ModelsReply::NotSent(e) => Err("Request to "@ + url + " failed: "@ + e@),
        ModelsReply::Refused(s) => Err(url + " returned status "@ + s@),
        ModelsReply::Unreadable(e) => Err(
            "Failed to parse response from "@ + url + ": "@ + e@,
        ),
        ModelsReply::Body(v) => match v@.get("data"@) {
            Some(JsonView::Array(data)) => if listed_models(data).len() == 0 {
                Err("No models returned from "@ + url)
            } else {
                Ok(listed_models(data))
            },
            _ => Err("No 'data' array in response from "@ + url),
        },
    }
}

/// The view of a list of models or of an error.
pub open spec fn models_view(r: Result<Vec<ChatModel>, String>) -> Result<
    Seq<ChatModelView>,
    Seq<char>,
> {
    match r {
        Ok(v) => Ok(model_views(v@)),
        Err(e) => Err(e@),
    }
}

fn list_models(data: &Vec<Json>) -> (r: Vec<ChatModel>)
    ensures
        model_views(r@) == listed_models(values(data@)),
{
    let ghost all = values(data@);
    let mut out: Vec<ChatModel> = Vec::new();
    let mut i: usize = 0;
    assert(model_views(out@) =~= seq![]);
    while i < data.len()
        invariant
            i <= data@.len(),
            all == values(data@),
            model_views(out@) == listed_models(all.take(i as int)),
        decreases data@.len() - i,
    {
        let ghost before = model_views(out@);
        assert(all.take(i + 1).drop_last() =~= all.take(i as int));
        assert(all.take(i + 1).last() == data@[i as int]@);
        match data[i].get("id") {
            Some(Json::Str(id)) => {
                let m = ChatModel { id: id.clone(), label: id.clone() };
                out.push(m);
                assert(model_views(out@) =~= before.push(m@));
            },
            _ => {},
        }
        i += 1;
    }
    assert(all.take(i as int) =~= all);
    out
}

/// Reads the list of models out of a reply.
pub fn query_agent_models(url: &str, reply: ModelsReply) -> (r: Result<Vec<ChatModel>, String>)
    ensures
        models_view(r) == models_result(url@, reply),
{
    match reply {
        ModelsReply::NoClient(e) => Err(cat2("Failed to build HTTP client: ", e.as_str())),
        ModelsReply::NotSent(e) => Err(cat4("Request to ", url, " failed: ", e.as_str())),
        ModelsReply::Refused(s) => Err(cat3(url, " returned status ", s.as_str())),
        ModelsReply::Unreadable(e) => Err(
            cat4("Failed to parse response from ", url, ": ", e.as_str()),
        ),
        ModelsReply::Body(v) => match v.get("data") {
            Some(Json::Array(data)) => {
                proof {
                    array_view(*data);
                }
                let models = list_models(data);
                assert(model_views(models@).len() == models@.len());
                if models.len() == 0 {
                    Err(cat2("No models returned from ", url))
                } else {
                    Ok(models)
                }
            },
            _ => Err(cat2("No 'data' array in response from ", url)),
        },
    }
}

/// Whether an agent's program can be used.
#[derive(Debug, Clone, Copy, PartialEq, Eq, Structural)]
pub enum CliStatus {
    /// The program is there.
    Available,
    /// There is no program of that name.
    Missing,
    /// There is a program of that name, but it is another one.
    WrongBinary,
}

impl CliStatus {
    /// The status as a word.
    pub open spec fn word(self) -> Seq<char> {
        match self {
            CliStatus::Available => "available"@,
            CliStatus::Missing => "missing"@,
            CliStatus::WrongBinary => "wrong"@,
        }
    }

    /// The status as a word.
    pub fn as_str(&self) -> (r: &'static str)
        ensures
            r@ == self.word(),
    {
        match self {
            CliStatus::Available => "available",
            CliStatus::Missing => "missing",
            CliStatus::WrongBinary => "wrong",
        }
    }
}

/// The directories of a search path.
pub open spec fn path_dirs(os: Platform, path: Option<Seq<char>>) -> Seq<Seq<char>> {
    match path {
        Some(p) => search_parts(os, p),
        None => seq![],
    }
}

/// The directories in which an agent's program is looked for: those of the
/// search path, then the usual ones below the home directory.
pub open spec fn search_dirs(
    os: Platform,
    path: Option<Seq<char>>,
    home: Option<Seq<char>>,
    node_bins: Seq<Seq<char>>,
) -> Seq<Seq<char>> {
    match home {
        Some(h) => path_dirs(os, path).push(join(os, h, ".local/bin"@)) + node_bins,
        None => path_dirs(os, path),
    }
}

/// The directories in which an agent's program is looked for. `node_bins` are
/// the program directories of the installed versions of Node.
pub fn agent_search_dirs(
    os: Platform,
    path: &Option<String>,
    home: &Option<String>,
    node_bins: &Vec<String>,
) -> (r: Vec<String>)
    ensures
        texts(r@) == search_dirs(os, text_view(*path), text_view(*home), texts(node_bins@)),
{
    let mut out: Vec<String> = match path {
        Some(p) => split_search_path(os, p.as_str()),
        None => Vec::new(),
    };
    assert(texts(out@) =~= path_dirs(os, text_view(*path)));
    match home {
        Some(h) => {
            let ghost before = texts(out@);
            let local = join_path(os, h.as_str(), ".local/bin");
            out.push(local);
            assert(texts(out@) =~= before.push(local@));
            let ghost start = texts(out@);
            let ghost all = texts(node_bins@);
            let mut i: usize = 0;
            assert(start + all.take(0) =~= start);
            while i < node_bins.len()
                invariant
                    i <= node_bins@.len(),
                    all == texts(node_bins@),
                    texts(out@) == start + all.take(i as int),
                decreases node_bins@.len() - i,
            {
                let ghost now = texts(out@);
                let b = node_bins[i].clone();
                out.push(b);
                assert(texts(out@) =~= now.push(b@));
                assert(start + all.take(i + 1) =~= now.push(all[i as int]));
                i += 1;
            }
            assert(all.take(i as int) =~= all);
        },
        None => {},
    }
    out
}

/// Where an agent's program may be, in the order in which it is looked for.
pub fn agent_candidates(os: Platform, command: &str, dirs: &Vec<String>) -> (r: Vec<String>)
    ensures
        texts(r@) == Seq::new(dirs@.len(), |i: int| join(os, dirs@[i]@, command@)),
{
    let mut out: Vec<String> = Vec::new();
    let mut i: usize = 0;
    while i < dirs.len()
        invariant
            i <= dirs@.len(),
            out@.len() == i,
            forall|j: int| 0 <= j < i ==> (#[trigger] out@[j])@ == join(os, dirs@[j]@, command@),
        decreases dirs@.len() - i,
    {
        out.push(join_path(os, dirs[i].as_str(), command));
        i += 1;
    }
    assert(texts(out@) =~= Seq::new(dirs@.len(), |i: int| join(os, dirs@[i]@, command@)));
    out
}

/// Where an agent's program is: the first place at which there is a file.
pub fn resolve_agent_bin(candidates: &Vec<String>, is_file: &Vec<bool>) -> (r: Option<String>)
    requires
        candidates@.len() == is_file@.len(),
    ensures
        match r {
            Some(p) => exists|i: int|
                0 <= i < is_file@.len() && #[trigger] is_file@[i] && p@ == candidates@[i]@ && (
                forall|j: int| 0 <= j < i ==> !is_file@[j]),
            None => forall|j: int| 0 <= j < is_file@.len() ==> !is_file@[j],
        },
{
    let mut i: usize = 0;
    while i < candidates.len()
        invariant
            i <= candidates@.len(),
            candidates@.len() == is_file@.len(),
            forall|j: int| 0 <= j < i ==> !is_file@[j],
        decreases candidates@.len() - i,
    {
        if is_file[i] {
            return Some(candidates[i].clone());
        }
        i += 1;
    }
    None
}

/// What came of asking a program for its version.
#[derive(Debug, Clone, Copy, PartialEq, Eq, Structural)]
pub enum VersionProbe {
    /// It was not looked for: no program was found.
    NoProgram,
    /// The program ran.
    Ran,
    /// The program was gone when it was to be run.
    Gone,
    /// The program could not be run for another reason.
    Failed,
}

/// Tells whether an agent's program can be used. Any program that is there
/// counts, whatever it says of its version.
pub fn chat_cli_check(probe: VersionProbe) -> (r: CliStatus)
    ensures
        r == (if probe == VersionProbe::NoProgram || probe == VersionProbe::Gone {
            CliStatus::Missing
        } else {
            CliStatus::Available
        }),
{
    match probe {
        VersionProbe::NoProgram => CliStatus::Missing,
        VersionProbe::Ran => CliStatus::Available,
        VersionProbe::Gone => CliStatus::Missing,
        VersionProbe::Failed => CliStatus::Available,
    }
}

/// Tells whether an agent's program can be used.
pub fn chat_cli_available(probe: VersionProbe) -> (r: bool)
    ensures
        r == (probe != VersionProbe::NoProgram && probe != VersionProbe::Gone),
{
    match chat_cli_check(probe) {
        CliStatus::Available => true,
        _ => false,
    }
}

/// What an agent is called.
pub open spec fn display_name(command: Seq<char>) -> Seq<char> {
    if command == "kilo"@ {
        "Kilo Code"@
    } else if command == "opencode"@ {
        "OpenCode"@
    } else {
        command
    }
}

fn agent_name(command: &str) -> (r: String)
    ensures
        r@ == display_name(command@),
{
    if same(command, "kilo") {
        "Kilo Code".to_owned()
    } else if same(command, "opencode") {
        "OpenCode".to_owned()
    } else {
        command.to_owned()
    }
}

/// What is said when an agent's program is not there.
pub open spec fn missing_text(command: Seq<char>) -> Seq<char> {
    display_name(command) + " CLI (`"@ + command
        + "`) was not found on your system PATH. Install it and make sure `"@ + command
        + "` is available on your PATH, then retry."@
}

/// What is said when an agent's program is not there.
pub fn cli_missing_message(command: &str) -> (r: String)
    ensures
        r@ == missing_text(command@),
{
    let mut s = cat3(agent_name(command).as_str(), " CLI (`", command);
    s.append("`) was not found on your system PATH. Install it and make sure `");
    s.append(command);
    s.append("` is available on your PATH, then retry.");
    s
}

/// What is said when an agent's program is another one.
pub open spec fn wrong_text(command: Seq<char>) -> Seq<char> {
    "A binary named `"@ + command
        + "` was found on your PATH, but it does not appear to be "@ + display_name(command)
        + " (`"@ + command + " --version` produced unrecognizable output). Make sure `"@ + command
        + "` is the correct agent CLI, then retry."@
}

/// What is said when an agent's program is another one.
pub fn cli_wrong_binary_message(command: &str) -> (r: String)
    ensures
        r@ == wrong_text(command@),
{
    let mut s = cat3(
        "A binary named `",
        command,
        "` was found on your PATH, but it does not appear to be ",
    );
    s.append(agent_name(command).as_str());
    s.append(" (`");
    s.append(command);
    s.append(" --version` produced unrecognizable output). Make sure `");
    s.append(command);
    s.append("` is the correct agent CLI, then retry.");
    s
}

/// An agent is known by its name in capitals or not, with hyphens or without, whatever white
/// space is around it, and one of them by a longer name too.
pub proof fn agents_are_known_by_their_names(agent: Seq<char>, other: Seq<char>)
    requires
        ascii_folded(trim(agent)) == ascii_folded(trim(other)),
    ensures
        models_url(agent) == models_url(other),
        ascii_folded(trim(agent)) == "opencode"@ ==> models_url(agent) == Some(
            "https://openrouter.ai/api/v1/models"@,
        ),
        ascii_folded(trim(agent)) == "kilo"@ || ascii_folded(trim(agent)) == "kilo-code"@
            ==> models_url(agent) == Some("https://api.kilo.ai/api/gateway/models"@),
{
    let a = trim(agent);
    let b = trim(other);
    lemma_folded_without(a);
    lemma_folded_without(b);
    reveal_strlit("opencode");
    reveal_strlit("kilo");
    reveal_strlit("kilo-code");
    if ascii_folded(a) == "opencode"@ {
        lemma_nothing_dropped("opencode"@, '-');
    }
    if ascii_folded(a) == "kilo"@ {
        lemma_nothing_dropped("kilo"@, '-');
        assert("kilo"@.len() == 4 && "opencode"@.len() == 8);
    }
    if ascii_folded(a) == "kilo-code"@ {
        let w = without("kilo-code"@, '-');
        if w == "opencode"@ {
            lemma_first_kept("kilo-code"@, '-');
            assert("opencode"@[0] == 'o' && "kilo-code"@[0] == 'k');
        }
    }
}

/// A hyphen can be left out before the letters are made small or after.
proof fn lemma_folded_without(s: Seq<char>)
    ensures
        ascii_folded(without(s, '-')) == without(ascii_folded(s), '-'),
    decreases s.len(),
{
    reveal(Seq::filter);
    let t = ascii_folded(s);
    if s.len() > 0 {
        lemma_folded_without(s.drop_last());
        assert(t.drop_last() =~= ascii_folded(s.drop_last()));
        assert(t.last() == ascii_lower(s.last()));
        assert(ascii_lower(s.last()) == '-' <==> s.last() == '-');
        assert(ascii_folded(without(s, '-')) =~= without(t, '-'));
    } else {
        assert(without(s, '-') =~= Seq::<char>::empty());
        assert(without(t, '-') =~= Seq::<char>::empty());
        assert(ascii_folded(without(s, '-')) =~= without(t, '-'));
    }
}

proof fn lemma_nothing_dropped(s: Seq<char>, c: char)
    requires
        !s.contains(c),
    ensures
        without(s, c) == s,
    decreases s.len(),
{
    reveal(Seq::filter);
    if s.len() > 0 {
        let front = s.drop_last();
        assert(s.last() != c) by {
            assert(s.contains(s.last()));
        }
        assert(!front.contains(c)) by {
            if front.contains(c) {
                let i = choose|i: int| 0 <= i < front.len() && front[i] == c;
                assert(s[i] == c);
            }
        }
        lemma_nothing_dropped(front, c);
        assert(without(s, c) =~= s);
    } else {
        assert(without(s, c) =~= s);
    }
}

proof fn lemma_first_kept(s: Seq<char>, c: char)
    requires
        s.len() > 0,
        s[0] != c,
    ensures
        without(s, c).len() > 0,
        without(s, c)[0] == s[0],
    decreases s.len(),
{
    reveal(Seq::filter);
    if s.len() > 1 {
        lemma_first_kept(s.drop_last(), c);
    } else {
        assert(s.drop_last() =~= Seq::<char>::empty());
        assert(without(s.drop_last(), c) =~= Seq::<char>::empty());
    }
}

/// Every model with an id is listed, in the order of the reply, under its id; anything else in
/// the list is passed over.
pub proof fn models_are_listed_by_their_id(data: Seq<JsonView>, v: JsonView)
    ensures
        match v.get("id"@) {
            Some(JsonView::Str(id)) => {
                let all = listed_models(data.push(v));
                &&& all.drop_last() == listed_models(data)
                &&& all.len() == listed_models(data).len() + 1
                &&& all.last().id == id
                &&& all.last().label == id
            },
            _ => listed_models(data.push(v)) == listed_models(data),
        },
        listed_models(Seq::empty()).len() == 0,
{
    assert(data.push(v).drop_last() =~= data);
    match v.get("id"@) {
        Some(JsonView::Str(id)) => {
            assert(listed_models(data.push(v)).drop_last() =~= listed_models(data));
        },
        _ => {},
    }
}

/// A reply that lists no model is refused, and the refusal names where it came from.
pub proof fn empty_lists_are_refused(url: Seq<char>, body: Json)
    ensures
        match body@.get("data"@) {
            Some(JsonView::Array(data)) => {
                &&& models_result(url, ModelsReply::Body(body)) is Ok <==> listed_models(data).len()
                    > 0
                &&& listed_models(data).len() > 0 ==> models_result(url, ModelsReply::Body(body))
                    == Ok::<Seq<ChatModelView>, Seq<char>>(listed_models(data))
                &&& listed_models(data).len() == 0 ==> models_result(url, ModelsReply::Body(body))
                    == Err::<Seq<ChatModelView>, Seq<char>>("No models returned from "@ + url)
            },
            _ => models_result(url, ModelsReply::Body(body)) == Err::<
                Seq<ChatModelView>,
                Seq<char>,
            >("No 'data' array in response from "@ + url),
        },
{
}

/// A program is looked for along the search path first, and then below the home directory,
/// where there is one; everything on the search path is looked at.
pub proof fn programs_are_looked_for_in_order(
    os: Platform,
    path: Seq<char>,
    home: Seq<char>,
    node_bins: Seq<Seq<char>>,
)
    ensures
        ({
            let listed = search_parts(os, path);
            let all = search_dirs(os, Some(path), Some(home), node_bins);
            &&& all.take(listed.len() as int) == listed
            &&& all[listed.len() as int] == join(os, home, ".local/bin"@)
            &&& all.skip(listed.len() as int + 1) == node_bins
            &&& search_dirs(os, Some(path), None, node_bins) == listed
            &&& search_dirs(os, None, None, node_bins).len() == 0
        }),
{
    let listed = search_parts(os, path);
    let all = search_dirs(os, Some(path), Some(home), node_bins);
    assert(all.take(listed.len() as int) =~= listed);
    assert(all.skip(listed.len() as int + 1) =~= node_bins);
}

/// Each status has a word of its own.
pub proof fn statuses_are_told_apart(a: CliStatus, b: CliStatus)
    ensures
        CliStatus::Available.word() == "available"@,
        CliStatus::Missing.word() == "missing"@,
        CliStatus::WrongBinary.word() == "wrong"@,
        a.word() == b.word() ==> a == b,
{
    reveal_strlit("available");
    reveal_strlit("missing");
    reveal_strlit("wrong");
    assert("available"@.len() == 9 && "missing"@.len() == 7 && "wrong"@.len() == 5);
}

/// What is said of a program that is missing, or is another one, names the program and the
/// agent, and an agent that is not known is called by its program.
pub proof fn agents_are_called_by_their_names(command: Seq<char>)
    ensures
        display_name("kilo"@) == "Kilo Code"@,
        display_name("opencode"@) == "OpenCode"@,
        command != "kilo"@ && command != "opencode"@ ==> display_name(command) == command,
        starts_with(missing_text(command), display_name(command) + " CLI (`"@ + command),
        starts_with(wrong_text(command), "A binary named `"@ + command),
{
    reveal_strlit("kilo");
    reveal_strlit("opencode");
    assert("kilo"@.len() == 4 && "opencode"@.len() == 8);
    let a = display_name(command) + " CLI (`"@ + command;
    let b = "A binary named `"@ + command;
    assert(missing_text(command).take(a.len() as int) =~= a);
    assert(wrong_text(command).take(b.len() as int) =~= b);
}

/// White space in an address and slashes at its end are dropped, and nothing else.
pub proof fn addresses_are_cleaned(
    before: Seq<char>,
    address: Seq<char>,
    after: Seq<char>,
)
    requires
        is_white(before),
        is_white(after),
        address.len() > 0,
        forall|i: int| 0 <= i < address.len() ==> !is_space(#[trigger] address[i]),
    ensures
        address.last() != '/' ==> clean_url(before + address + after) == address,
        address.last() != '/' ==> clean_url(before + address.push('/') + after) == address,
{
    reveal_strlit("");
    lemma_one_word(before, address, after);
    let slashed = address.push('/');
    assert forall|i: int| 0 <= i < slashed.len() implies !is_space(#[trigger] slashed[i]) by {
        if i < address.len() {
            assert(slashed[i] == address[i]);
        }
    }
    lemma_one_word(before, slashed, after);
    if address.last() != '/' {
        assert(slashed.drop_last() =~= address);
        assert(trim_end_char(slashed, '/') == trim_end_char(address, '/'));
        assert(trim_end_char(address, '/') == address);
    }
}

proof fn lemma_one_word(before: Seq<char>, word: Seq<char>, after: Seq<char>)
    requires
        is_white(before),
        is_white(after),
        word.len() > 0,
        forall|i: int| 0 <= i < word.len() ==> !is_space(#[trigger] word[i]),
    ensures
        joined(words(before + word + after), ""@) == word,
{
    if after.len() > 0 {
        assert(is_space(after[0]));
    }
    words_end_at_white_space(before, word, after);
    lemma_no_words(after);
    assert(words(before + word + after) =~= seq![word]);
}

proof fn lemma_no_words(s: Seq<char>)
    requires
        is_white(s),
    ensures
        words(s) == Seq::<Seq<char>>::empty(),
{
    lemma_all_trimmed(s);
}

proof fn lemma_all_trimmed(s: Seq<char>)
    requires
        is_white(s),
    ensures
        trim_start(s).len() == 0,
    decreases s.len(),
{
    if s.len() > 0 {
        assert(is_space(s[0]));
        let t = s.drop_first();
        assert forall|i: int| 0 <= i < t.len() implies is_space(#[trigger] t[i]) by {
            assert(s[i + 1] == t[i]);
        }
        lemma_all_trimmed(t);
    }
}

} // verus!
