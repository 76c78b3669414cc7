use noide::agent_servers::{
    extract_port, AgentServerManager, BootAction, BootEvent, ServerBoot, BANNER_LINES,
};
use noide::chat::agents::{
    agent_candidates, agent_models_url, agent_search_dirs, chat_cli_available, chat_cli_check,
    chat_models, cli_missing_message, cli_wrong_binary_message, models_request,
    query_agent_models, resolve_agent_bin, ChatModel, CliStatus, ModelsReply, ModelsRequest,
    VersionProbe,
};
use noide::chat::attachments::{
    inject_attachment_args, read_attachment, read_attachments, write_attachment_files,
    write_failure, AttachmentPlan, ChatAttachmentInput, TempFile,
};
use noide::chat::turn::{
    attach_args, chat_chunk, chat_done, chat_stream, chat_stream_result, color_names, ChatTurn,
    RunPlan, TurnAction, TurnEvent,
};
use noide::json::{Fields, Json};
use noide::path::Platform;
use noide::process::ProcessOutcome;
use noide::ws::tracker::ChatProcessTracker;

const UNIX: Platform = Platform::Unix;

fn strings(v: &[&str]) -> Vec<String> {
    v.iter().map(|s| s.to_string()).collect()
}

fn some(s: &str) -> Option<String> {
    Some(s.to_string())
}

fn attachment(name: &str, base64: Option<&str>, content: Option<&str>) -> ChatAttachmentInput {
    ChatAttachmentInput {
        name: name.to_string(),
        mime_type: None,
        base64: base64.map(|s| s.to_string()),
        content: content.map(|s| s.to_string()),
    }
}

#[test]
fn agents_list_their_models_at_known_places() {
    assert_eq!(agent_models_url("kilo"), some("https://api.kilo.ai/api/gateway/models"));
    assert_eq!(agent_models_url(" Open-Code "), some("https://openrouter.ai/api/v1/models"));
    assert_eq!(agent_models_url(" Kilo-Code"), agent_models_url("kilo"));
    assert_eq!(agent_models_url("k-i-l-o"), agent_models_url("kilo"));
    assert_eq!(agent_models_url("kilocode"), None);
    assert_eq!(agent_models_url("kilo--code"), None);
    assert_eq!(agent_models_url("gpt"), None);
}

#[test]
fn a_url_is_cleaned_and_a_blank_key_left_out() {
    assert_eq!(
        models_request(" https://a.b /x// ", "  "),
        Ok(ModelsRequest { url: "https://a.b/x".to_string(), bearer: None })
    );
    assert_eq!(
        models_request("u", "k"),
        Ok(ModelsRequest { url: "u".to_string(), bearer: some("k") })
    );
    assert_eq!(models_request(" / ", "k"), Err("Empty model API URL".to_string()));
    assert_eq!(chat_models("nobody", ""), Err("Unknown agent 'nobody'".to_string()));
    assert_eq!(
        chat_models("KILO", "k").unwrap().url,
        "https://api.kilo.ai/api/gateway/models"
    );
}

#[test]
fn models_are_read_out_of_a_reply() {
    let model = |id: &str| ChatModel { id: id.to_string(), label: id.to_string() };
    let entry = |id: &str| Fields::new().text("id", id).object();
    let body = |data| ModelsReply::Body(Fields::new().with("data", data).object());
    let data = Json::Array(vec![entry("a"), Json::Null, Fields::new().number("id", 3).object(), entry("b")]);
    assert_eq!(query_agent_models("u", body(data)), Ok(vec![model("a"), model("b")]));
    assert_eq!(
        query_agent_models("u", body(Json::Array(vec![]))),
        Err("No models returned from u".to_string())
    );
    assert_eq!(
        query_agent_models("u", body(Json::Null)),
        Err("No 'data' array in response from u".to_string())
    );
    assert_eq!(
        query_agent_models("u", ModelsReply::NoClient("e".to_string())),
        Err("Failed to build HTTP client: e".to_string())
    );
    assert_eq!(
        query_agent_models("u", ModelsReply::NotSent("e".to_string())),
        Err("Request to u failed: e".to_string())
    );
    assert_eq!(
        query_agent_models("u", ModelsReply::Refused("404 Not Found".to_string())),
        Err("u returned status 404 Not Found".to_string())
    );
    assert_eq!(
        query_agent_models("u", ModelsReply::Unreadable("e".to_string())),
        Err("Failed to parse response from u: e".to_string())
    );
}

#[test]
fn programs_are_looked_for_in_order() {
    let bins = strings(&["/n/bin"]);
    let dirs = agent_search_dirs(UNIX, &some("/usr/bin:/bin"), &some("/home/u"), &bins);
    assert_eq!(dirs, strings(&["/usr/bin", "/bin", "/home/u/.local/bin", "/n/bin"]));
    assert_eq!(agent_search_dirs(UNIX, &None, &None, &strings(&["/n"])), strings(&[]));
    let candidates = agent_candidates(UNIX, "kilo", &dirs);
    assert_eq!(candidates[2], "/home/u/.local/bin/kilo");
    assert_eq!(
        resolve_agent_bin(&candidates, &vec![false, true, true, false]),
        some("/bin/kilo")
    );
    assert_eq!(resolve_agent_bin(&candidates, &vec![false; 4]), None);
}

#[test]
fn any_program_that_is_there_can_be_used() {
    assert_eq!(chat_cli_check(VersionProbe::Ran), CliStatus::Available);
    assert_eq!(chat_cli_check(VersionProbe::Failed), CliStatus::Available);
    assert_eq!(chat_cli_check(VersionProbe::Gone), CliStatus::Missing);
    assert_eq!(chat_cli_check(VersionProbe::NoProgram), CliStatus::Missing);
    assert!(chat_cli_available(VersionProbe::Ran));
    assert!(!chat_cli_available(VersionProbe::NoProgram));
    assert_eq!(CliStatus::Available.as_str(), "available");
    assert_eq!(CliStatus::Missing.as_str(), "missing");
    assert_eq!(CliStatus::WrongBinary.as_str(), "wrong");
}

#[test]
fn messages_name_the_agent() {
    assert_eq!(
        cli_missing_message("kilo"),
        "Kilo Code CLI (`kilo`) was not found on your system PATH. Install it and make sure \
         `kilo` is available on your PATH, then retry."
    );
    assert_eq!(
        cli_wrong_binary_message("opencode"),
        "A binary named `opencode` was found on your PATH, but it does not appear to be OpenCode \
         (`opencode --version` produced unrecognizable output). Make sure `opencode` is the \
         correct agent CLI, then retry."
    );
    assert!(cli_missing_message("x").starts_with("x CLI (`x`)"));
}

#[test]
fn attachments_are_described_by_name_or_in_order() {
    let v = Fields::new()
        .text("name", "a")
        .with("mimeType", Json::Null)
        .text("base64", "AA==")
        .object();
    assert_eq!(read_attachment(&v), Some(attachment("a", Some("AA=="), None)));
    let list = Json::Array(vec![Json::Str("b".to_string())]);
    assert_eq!(read_attachment(&list), Some(attachment("b", None, None)));
    assert_eq!(read_attachment(&Fields::new().text("content", "x").object()), None);
    assert_eq!(
        read_attachment(&Fields::new().text("name", "x").number("content", 1).object()),
        None
    );
    assert_eq!(read_attachments(&Json::Array(vec![v.copy(), Json::Null])), None);
    assert_eq!(read_attachments(&Json::Array(vec![v])).unwrap().len(), 1);
    assert_eq!(read_attachments(&Json::Null), None);
}

#[test]
fn programs_are_looked_for_on_windows() {
    let os = Platform::Windows;
    let path = some(r#"C:\bin;"D:\a;b"\x"#);
    let dirs = agent_search_dirs(os, &path, &some(r"C:\Users\u"), &strings(&[]));
    assert_eq!(dirs, strings(&[r"C:\bin", r"D:\a;b\x", r"C:\Users\u\.local/bin"]));
    assert_eq!(
        agent_candidates(os, "kilo", &dirs),
        strings(&[r"C:\bin\kilo", r"D:\a;b\x\kilo", r"C:\Users\u\.local/bin\kilo"])
    );
}

#[test]
fn names_of_attachments_hold_no_separator() {
    let all = vec![attachment(r"..\a/b.txt", None, Some("x"))];
    let name = |os| write_attachment_files(&all, 3, os).files[0].name.clone();
    assert_eq!(name(Platform::Windows), "noide-att-3-0-.._a_b.txt.txt");
    assert_eq!(name(UNIX), r"noide-att-3-0-..\a_b.txt.txt");
}

#[test]
fn attachments_become_files_of_their_own() {
    let all = vec![
        attachment("img.png", Some("data:image/png;base64,aGk="), None),
        attachment("ref", None, None),
        attachment("../a/b.txt", None, Some("h\u{e9}")),
    ];
    let plan = write_attachment_files(&all, 12, UNIX);
    assert_eq!(
        plan,
        AttachmentPlan {
            files: vec![
                TempFile {
                    attachment: "img.png".to_string(),
                    name: "noide-att-12-0-img.png.png".to_string(),
                    data: b"hi".to_vec(),
                },
                TempFile {
                    attachment: "../a/b.txt".to_string(),
                    name: "noide-att-12-2-.._a_b.txt.txt".to_string(),
                    data: vec![104, 0xc3, 0xa9],
                },
            ],
            error: None,
        }
    );
    assert_eq!(write_failure("x", "full"), "Failed to write attachment 'x': full");
}

#[test]
fn an_attachment_that_cannot_be_decoded_ends_the_plan() {
    let all = vec![
        attachment("a", None, Some("1")),
        attachment("b", Some("*"), None),
        attachment("c", None, Some("2")),
    ];
    let plan = write_attachment_files(&all, 1, UNIX);
    assert_eq!(plan.files.len(), 1);
    assert_eq!(
        plan.error,
        some("Failed to decode attachment 'b': Invalid symbol 42, offset 0.")
    );
}

#[test]
fn names_of_attachments_differ() {
    let all: Vec<ChatAttachmentInput> =
        (0..12).map(|_| attachment("same/../name", None, Some("x"))).collect();
    let names: Vec<String> =
        write_attachment_files(&all, 7, UNIX).files.iter().map(|f| f.name.clone()).collect();
    for (i, a) in names.iter().enumerate() {
        assert!(!a.contains('/'));
        for b in &names[..i] {
            assert_ne!(a, b);
        }
    }
}

#[test]
fn files_follow_the_prompt() {
    let mut args = strings(&["run", "do it"]);
    inject_attachment_args(&mut args, &strings(&["/t/a", "/t/b"]));
    assert_eq!(args, strings(&["run", "do it", "-f", "/t/a", "-f", "/t/b"]));
    let mut same = strings(&["run"]);
    inject_attachment_args(&mut same, &strings(&[]));
    assert_eq!(same, strings(&["run"]));
}

#[test]
fn a_single_run_is_planned() {
    let plan = chat_stream(
        "kilo",
        some("/bin/kilo"),
        strings(&["run", "p"]),
        &strings(&["/t/a"]),
        some("/w"),
        "key",
        &some("build"),
    );
    assert_eq!(
        plan,
        Ok(RunPlan {
            exe: "/bin/kilo".to_string(),
            args: strings(&["run", "p", "-f", "/t/a"]),
            cwd: some("/w"),
            env: vec![
                ("OPENROUTER_API_KEY".to_string(), "key".to_string()),
                ("KILO_CONFIG_CONTENT".to_string(), "{\"mode\":\"code\"}".to_string()),
            ],
            env_remove: vec![],
        })
    );
    let other = chat_stream("opencode", some("o"), vec![], &vec![], None, " ", &some("ask"));
    assert_eq!(other.unwrap().env, vec![]);
    assert_eq!(
        chat_stream("kilo", None, vec![], &vec![], None, "", &None),
        Err(cli_missing_message("kilo"))
    );
}

#[test]
fn a_single_run_is_read() {
    let exited = |success, code, out: &str, err: &str| ProcessOutcome::Exited {
        success,
        code,
        stdout: out.as_bytes().to_vec(),
        stderr: err.as_bytes().to_vec(),
    };
    assert_eq!(chat_stream_result("k", exited(true, Some(0), "out", "")), Ok("out".to_string()));
    assert_eq!(
        chat_stream_result("k", exited(true, Some(0), "out", "err")),
        Ok("out\nerr".to_string())
    );
    assert_eq!(
        chat_stream_result("k", exited(false, Some(2), "out", " bad \n")),
        Err("k exited with code 2: bad".to_string())
    );
    assert_eq!(
        chat_stream_result("k", exited(false, None, "", "")),
        Err("k exited with code -1: ".to_string())
    );
    assert_eq!(
        chat_stream_result("k", ProcessOutcome::NotFound("x".to_string())),
        Err(cli_missing_message("k"))
    );
    assert_eq!(
        chat_stream_result("k", ProcessOutcome::Failed("too long".to_string())),
        Err("Failed to run k: too long".to_string())
    );
    let raw = ProcessOutcome::Exited {
        success: true,
        code: Some(0),
        stdout: vec![0xff, 65],
        stderr: vec![],
    };
    assert_eq!(chat_stream_result("k", raw), Ok("\u{fffd}A".to_string()));
}

#[test]
fn a_run_attaches_behind_its_first_word() {
    let mut args = strings(&["run", "p"]);
    attach_args(&mut args, 4096);
    assert_eq!(args, strings(&["run", "--attach", "http://127.0.0.1:4096", "p"]));
    let mut other = strings(&["p"]);
    attach_args(&mut other, 1);
    assert_eq!(other, strings(&["--attach", "http://127.0.0.1:1", "p"]));
}

fn turn(cwd: Option<&str>) -> ChatTurn {
    ChatTurn::new(
        "r".to_string(),
        "kilo".to_string(),
        strings(&["run", "p"]),
        cwd.map(|s| s.to_string()),
        "key".to_string(),
        some("plan"),
    )
}

fn over(delete: &[&str], error: Option<&str>) -> TurnAction {
    TurnAction::Finish {
        delete: strings(delete),
        message: chat_done("r", error.map(|e| e.to_string())),
    }
}

#[test]
fn a_turn_runs_to_its_end() {
    let mut t = turn(Some("/w"));
    assert_eq!(t.step(TurnEvent::Started), TurnAction::ProbeDir("/w".to_string()));
    assert_eq!(t.step(TurnEvent::Dir { exists: true, is_dir: true }), TurnAction::Resolve);
    assert_eq!(t.step(TurnEvent::Found(some("/bin/kilo"))), TurnAction::Check);
    assert_eq!(t.step(TurnEvent::Checked(CliStatus::Available)), TurnAction::Write);
    assert_eq!(t.step(TurnEvent::Written(Ok(strings(&["/t/a"])))), TurnAction::Serve);
    match t.step(TurnEvent::Served(Ok(99))) {
        TurnAction::Spawn(plan) => {
            assert_eq!(plan.exe, "/bin/kilo");
            assert_eq!(
                plan.args,
                strings(&["run", "--attach", "http://127.0.0.1:99", "p", "-f", "/t/a"])
            );
            assert_eq!(plan.cwd, some("/w"));
            assert_eq!(plan.env.len(), 11);
            assert_eq!(plan.env[1], ("NO_COLOR".to_string(), "1".to_string()));
            assert_eq!(
                plan.env[10],
                ("KILO_CONFIG_CONTENT".to_string(), "{\"mode\":\"plan\"}".to_string())
            );
            assert_eq!(plan.env_remove, color_names());
        }
        other => panic!("{:?}", other),
    }
    assert_eq!(t.step(TurnEvent::Spawned(None)), TurnAction::Wait);
    assert_eq!(t.step(TurnEvent::Ended { success: true, code: Some(0) }), over(&["/t/a"], None));
}

#[test]
fn every_end_of_a_turn_is_told() {
    let mut t = turn(Some("/w"));
    assert_eq!(
        t.step(TurnEvent::Dir { exists: false, is_dir: false }),
        over(
            &[],
            Some(
                "Working directory '/w' does not exist on this server. Open a valid folder (or \
                 clear the saved session) and try again."
            )
        )
    );
    assert_eq!(
        t.step(TurnEvent::Dir { exists: true, is_dir: false }),
        over(
            &[],
            Some(
                "Working directory '/w' is not a directory. Open a valid folder and try again."
            )
        )
    );
    assert_eq!(t.step(TurnEvent::Found(None)), over(&[], Some(&cli_missing_message("kilo"))));
    assert_eq!(
        t.step(TurnEvent::Checked(CliStatus::Missing)),
        over(&[], Some(&cli_wrong_binary_message("kilo")))
    );
    assert_eq!(t.step(TurnEvent::Written(Err("w".to_string()))), over(&[], Some("w")));
    assert_eq!(t.step(TurnEvent::Served(Err("s".to_string()))), over(&[], Some("s")));
    t.step(TurnEvent::Written(Ok(strings(&["/t/a"]))));
    assert_eq!(
        t.step(TurnEvent::Spawned(some("no"))),
        over(&["/t/a"], Some("Failed to run kilo: no"))
    );
    assert_eq!(
        t.step(TurnEvent::Ended { success: false, code: Some(3) }),
        over(&["/t/a"], Some("kilo exited with code 3"))
    );
    assert_eq!(
        t.step(TurnEvent::Ended { success: false, code: None }),
        over(&["/t/a"], Some("kilo exited with code -1"))
    );
    assert_eq!(
        t.step(TurnEvent::Lost("gone".to_string())),
        over(&["/t/a"], Some("Process error: gone"))
    );
}

#[test]
fn a_turn_without_a_directory_looks_for_its_program() {
    assert_eq!(turn(None).step(TurnEvent::Started), TurnAction::Resolve);
}

#[test]
fn lines_are_told_with_their_stream() {
    let payload =
        Fields::new().text("id", "r").text("stream", "stdout").text("text", "hi").object();
    assert_eq!(
        chat_chunk("r", "stdout", "hi"),
        Fields::new().text("event", "chat-stream-chunk").with("payload", payload).object()
    );
    assert_eq!(
        chat_done("r", None),
        Fields::new()
            .text("event", "chat-stream-done")
            .with("payload", Fields::new().text("id", "r").object())
            .object()
    );
}

#[test]
fn ports_are_read_from_banners() {
    assert_eq!(extract_port("kilo server listening on http://127.0.0.1:4096"), Some(4096));
    assert_eq!(extract_port("http://127.0.0.1:80/x 127.0.0.1:9"), Some(80));
    assert_eq!(extract_port("127.0.0.1:99999"), None);
    assert_eq!(extract_port("127.0.0.1:"), None);
    assert_eq!(extract_port("nothing"), None);
}

#[test]
fn a_server_is_started_once_and_used_again() {
    let mut m = AgentServerManager::new();
    let mut t = ChatProcessTracker::new();
    let mut b = ServerBoot::new("kilo".to_string(), "key".to_string());
    assert_eq!(b.agent(), "kilo");
    assert_eq!(m.ensure_server(&mut b, &mut t, BootEvent::Asked), BootAction::Resolve);
    match m.ensure_server(&mut b, &mut t, BootEvent::Found(some("/bin/kilo"))) {
        BootAction::Spawn(plan) => {
            assert_eq!(plan.exe, "/bin/kilo");
            assert_eq!(plan.args, strings(&["serve", "--port", "0"]));
            assert_eq!(plan.env[0], ("OPENROUTER_API_KEY".to_string(), "key".to_string()));
            assert_eq!(plan.env.len(), 10);
        }
        other => panic!("{:?}", other),
    }
    assert_eq!(m.ensure_server(&mut b, &mut t, BootEvent::Spawned(5)), BootAction::Open);
    assert_eq!(
        m.ensure_server(&mut b, &mut t, BootEvent::Line("starting".to_string())),
        BootAction::Read
    );
    assert_eq!(
        m.ensure_server(&mut b, &mut t, BootEvent::Line("on 127.0.0.1:77".to_string())),
        BootAction::Ready(77)
    );
    let mut again = ServerBoot::new("kilo".to_string(), String::new());
    assert_eq!(m.ensure_server(&mut again, &mut t, BootEvent::Asked), BootAction::Probe(5));
    assert_eq!(m.ensure_server(&mut again, &mut t, BootEvent::Alive(true)), BootAction::Ready(77));
    let mut other = ServerBoot::new("opencode".to_string(), String::new());
    assert_eq!(m.ensure_server(&mut other, &mut t, BootEvent::Asked), BootAction::Resolve);
    assert_eq!(m.ensure_server(&mut again, &mut t, BootEvent::Alive(false)), BootAction::Resolve);
    assert_eq!(m.ensure_server(&mut again, &mut t, BootEvent::Asked), BootAction::Resolve);
    assert_eq!(t.kill_all(), vec![5]);
}

#[test]
fn a_server_without_a_port_is_given_up() {
    let mut m = AgentServerManager::new();
    let mut t = ChatProcessTracker::new();
    let mut b = ServerBoot::new("kilo".to_string(), String::new());
    let gone = || BootAction::Fail {
        kill: Some(6),
        error: "could not determine kilo server port from its output".to_string(),
    };
    m.ensure_server(&mut b, &mut t, BootEvent::Spawned(6));
    for _ in 1..BANNER_LINES {
        assert_eq!(
            m.ensure_server(&mut b, &mut t, BootEvent::Line("x".to_string())),
            BootAction::Read
        );
    }
    assert_eq!(m.ensure_server(&mut b, &mut t, BootEvent::Line("x".to_string())), gone());
    assert!(t.kill_all().is_empty());
    m.ensure_server(&mut b, &mut t, BootEvent::Spawned(6));
    assert_eq!(m.ensure_server(&mut b, &mut t, BootEvent::Eof), gone());
    assert!(t.kill_all().is_empty());
}

#[test]
fn a_server_that_does_not_start_is_told_of() {
    let mut m = AgentServerManager::new();
    let mut t = ChatProcessTracker::new();
    let mut b = ServerBoot::new("kilo".to_string(), String::new());
    let mut fails = |e| match m.ensure_server(&mut b, &mut t, e) {
        BootAction::Fail { kill, error } => {
            assert_eq!(kill, None);
            error
        }
        other => panic!("{:?}", other),
    };
    assert_eq!(fails(BootEvent::Found(None)), cli_missing_message("kilo"));
    assert_eq!(
        fails(BootEvent::NotSpawned("e".to_string())),
        "Failed to start kilo server: e"
    );
    assert_eq!(fails(BootEvent::NoPid), "kilo server spawned without a pid");
    assert_eq!(fails(BootEvent::NoOutput), "kilo server stdout unavailable");
    assert_eq!(fails(BootEvent::NotRead("e".to_string())), "reading kilo server output: e");
}
