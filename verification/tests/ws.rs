use std::io::Read;

use noide::chat::attachments::ChatAttachmentInput;
use noide::chat::turn::{TurnAction, TurnEvent};
use noide::json::{Fields, Json};
use noide::pty::manager::PtyManager;
use noide::pty::session::AttachInfo;
use noide::pty::spawn::PtySize;
use noide::pty::stream::SubMsg;
use noide::ws::auth::{authorised, constant_time_eq, presented_token, refusal};
use noide::ws::batch::{Batch, Frame, BATCH_WINDOW, FRAME_MAX, IDLE_RESET};
use noide::ws::connection::{
    idle_wait, invalid_request, is_ping, keep_alive, pong, pty_exit_message, reply, Action,
    Connection, IDLE_LIMIT,
};
use noide::ws::dispatch::{decode, find_op, Arg, Call, Op};
use noide::ws::frame::encode_output_frame;
use noide::ws::stats::{msg_len, ConnStats, Weight};
use noide::ws::task::Task;
use noide::ws::tracker::{process_group, ChatProcessTracker};

fn text(s: &str) -> Json {
    Json::Str(s.to_string())
}

fn call(command: &str, args: Json) -> Call {
    decode(command, &args).unwrap()
}

fn session(id: &str) -> Json {
    Fields::new().text("sessionId", id).object()
}

#[test]
fn a_short_frame_is_laid_out_in_little_endian() {
    let f = encode_output_frame("ab", 0x0102, b"hi");
    assert_eq!(f, vec![2, 0, 0, 0, 97, 98, 2, 1, 0, 0, 0, 0, 0, 0, 104, 105]);
}

#[test]
fn a_frame_below_the_limit_is_raw() {
    let data = vec![7u8; 127];
    let f = encode_output_frame("s", 0, &data);
    assert_eq!(f.len(), 4 + 1 + 8 + 127);
    assert_eq!(f[13..].to_vec(), data);
}

#[test]
fn a_large_frame_is_compressed_and_survives() {
    let data: Vec<u8> = (0..5000u32).map(|i| (i * i % 256) as u8).collect();
    let f = encode_output_frame("sess", 99, &data);
    let payload = &f[4 + 4 + 8..];
    assert_eq!(payload[..2].to_vec(), vec![0x1f, 0x8b]);
    let mut back = Vec::new();
    flate2::read::GzDecoder::new(payload).read_to_end(&mut back).unwrap();
    assert_eq!(back, data);
    assert_eq!(encode_output_frame("sess", 99, &data), f);
    let mut other = data.clone();
    other[0] = 9;
    assert_ne!(encode_output_frame("sess", 99, &other), f);
}

#[test]
fn lone_output_is_sent_at_once() {
    let start = 1_000_000_000;
    let mut b = Batch::new(start);
    assert_eq!(b.remaining(start), None);
    assert!(b.takes(0, 5));
    assert_eq!(b.out(0, b"$ ", start), vec![Frame { from: 0, data: b"$ ".to_vec() }]);
    assert_eq!(b.remaining(start), None);
}

#[test]
fn streaming_output_is_gathered() {
    let start = 1_000_000_000;
    let mut b = Batch::new(start);
    b.out(0, b"a", start);
    let t = start + 1_000_000;
    assert_eq!(b.out(1, b"b", t), vec![]);
    assert_eq!(b.remaining(t), Some(BATCH_WINDOW));
    assert_eq!(b.remaining(t + 5), Some(BATCH_WINDOW - 5));
    assert_eq!(b.out(2, b"c", t + 1_000_000), vec![]);
    assert_eq!(b.remaining(t + BATCH_WINDOW + 1), Some(0));
    assert_eq!(b.flush(t + BATCH_WINDOW), vec![Frame { from: 1, data: b"bc".to_vec() }]);
    assert_eq!(b.flush(t + BATCH_WINDOW), vec![]);
    let later = t + BATCH_WINDOW + IDLE_RESET;
    assert_eq!(b.out(3, b"d", later), vec![Frame { from: 3, data: b"d".to_vec() }]);
}

#[test]
fn no_frame_is_larger_than_the_limit() {
    let start = 1_000_000_000;
    let mut b = Batch::new(start);
    let data = vec![1u8; 2 * FRAME_MAX + 10];
    let frames = b.out(100, &data, start);
    let sizes: Vec<usize> = frames.iter().map(|f| f.data.len()).collect();
    assert_eq!(sizes, vec![FRAME_MAX, FRAME_MAX, 10]);
    let offsets: Vec<u64> = frames.iter().map(|f| f.from).collect();
    assert_eq!(offsets, vec![100, 100 + FRAME_MAX as u64, 100 + 2 * FRAME_MAX as u64]);
}

#[test]
fn a_full_batch_is_sent_before_the_window_ends() {
    let start = 1_000_000_000;
    let mut b = Batch::new(start);
    b.out(0, b"x", start);
    assert_eq!(b.out(1, &vec![2u8; FRAME_MAX - 1], start + 1), vec![]);
    let frames = b.out(FRAME_MAX as u64, &[3], start + 2);
    assert_eq!(frames.len(), 1);
    assert_eq!(frames[0].from, 1);
    assert_eq!(frames[0].data.len(), FRAME_MAX);
}

#[test]
fn frames_carry_every_byte_in_order() {
    let mut b = Batch::new(5);
    let mut sent: Vec<Frame> = Vec::new();
    let mut offset = 40u64;
    let mut whole: Vec<u8> = Vec::new();
    for i in 0..300u64 {
        let chunk: Vec<u8> = (0..(i * 37 % 1500)).map(|k| (k + i) as u8).collect();
        sent.extend(b.out(offset, &chunk, 5 + i * 3_000_000));
        offset += chunk.len() as u64;
        whole.extend(chunk);
        if i % 11 == 0 {
            sent.extend(b.flush(5 + i * 3_000_000));
        }
    }
    sent.extend(b.flush(10_000_000_000));
    let mut at = 40u64;
    let mut got: Vec<u8> = Vec::new();
    for f in sent {
        assert_eq!(f.from, at);
        at += f.data.len() as u64;
        got.extend(f.data);
    }
    assert_eq!(got, whole);
}

#[test]
fn tokens_are_compared_whole() {
    assert!(constant_time_eq(b"abc", b"abc"));
    assert!(!constant_time_eq(b"abc", b"abd"));
    assert!(!constant_time_eq(b"abc", b"ab"));
    assert!(constant_time_eq(b"", b""));
}

#[test]
fn the_first_token_of_a_query_counts() {
    assert_eq!(presented_token("token=x"), Some("x".to_string()));
    assert_eq!(presented_token("a=b&token=x=y&token=z"), Some("x=y".to_string()));
    assert_eq!(presented_token("token"), None);
    assert_eq!(presented_token("token&token=q"), Some("q".to_string()));
    assert_eq!(presented_token("xtoken=1"), None);
    assert_eq!(presented_token(""), None);
}

#[test]
fn only_the_right_token_is_let_in() {
    let expected = Some("K7XM-2PQ4".to_string());
    assert!(authorised("token=K7XM-2PQ4", &expected));
    assert!(!authorised("token=K7XM-2PQ5", &expected));
    assert!(!authorised("", &expected));
    assert!(authorised("", &None));
    assert_eq!(refusal(), (401, "missing or invalid token".to_string()));
}

#[test]
fn transfers_are_counted() {
    let mut s = ConnStats::new(7);
    assert!(s.can_push(Weight::Binary(10), true));
    s.push(Weight::Binary(10), true);
    s.push(Weight::Text(3), false);
    s.push(Weight::Control, false);
    s.raw(50);
    s.exit();
    s.received(9);
    assert_eq!(
        s,
        ConnStats {
            started: 7,
            out_frames: 3,
            out_binary: 1,
            out_text: 2,
            out_raw_bytes: 50,
            out_wire_bytes: 13,
            pty_exits: 1,
            in_msgs: 1,
            in_bytes: 9,
        }
    );
    assert!(!s.can_raw(u64::MAX - 49));
    assert!(s.can_raw(u64::MAX - 50));
    assert!(s.can_exit());
    assert!(!s.can_receive(u64::MAX - 8));
    assert!(s.can_receive(u64::MAX - 9));
    let full = ConnStats { out_text: u64::MAX, pty_exits: u64::MAX, ..s };
    assert!(!full.can_exit());
    assert!(!full.can_push(Weight::Text(1), false));
    assert!(full.can_push(Weight::Text(1), true));
    assert_eq!(msg_len(Weight::Text(4)), 4);
    assert_eq!(msg_len(Weight::Control), 0);
}

#[test]
fn processes_are_listed_once() {
    let mut t = ChatProcessTracker::new();
    t.register(5);
    t.register(6);
    t.register(5);
    t.unregister(6);
    t.unregister(9);
    assert_eq!(t.kill_all(), vec![5]);
    assert!(t.kill_all().is_empty());
    assert_eq!(process_group(5), -5);
    assert_eq!(process_group(0x8000_0000), i32::MIN);
    assert_eq!(process_group(0xffff_ffff), 1);
}

#[test]
fn unknown_commands_are_refused() {
    assert_eq!(find_op("git_log"), Some(Op::GitLog));
    assert_eq!(find_op("git_Log"), None);
    assert_eq!(
        decode("fly", &Json::Null),
        Err("unknown command: fly".to_string())
    );
}

#[test]
fn needed_arguments_are_checked_in_order() {
    assert_eq!(
        decode("pty_write", &Json::Null),
        Err("invalid arg 'sessionId': invalid type: null, expected a string".to_string())
    );
    assert_eq!(
        decode("pty_write", &Fields::new().text("sessionId", "a").flag("data", true).object()),
        Err("invalid arg 'data': invalid type: boolean `true`, expected a string".to_string())
    );
    assert_eq!(
        decode(
            "pty_resize",
            &Fields::new().text("sessionId", "a").number("cols", 1 << 32).object()
        ),
        Err("invalid arg 'cols': invalid value: integer `4294967296`, expected u32".to_string())
    );
    assert_eq!(
        decode(
            "pty_resize",
            &Fields::new().text("sessionId", "a").with("cols", Json::Negative(-1)).object()
        ),
        Err("invalid arg 'cols': invalid value: integer `-1`, expected u32".to_string())
    );
    assert_eq!(
        decode("pty_resize", &Fields::new().text("sessionId", "a").text("cols", "x").object()),
        Err("invalid arg 'cols': invalid type: string \"x\", expected u32".to_string())
    );
}

#[test]
fn refusals_read_as_those_of_serde() {
    fn why<T: serde::de::DeserializeOwned>(v: serde_json::Value) -> String {
        match serde_json::from_value::<T>(v) {
            Ok(_) => String::new(),
            Err(e) => format!("invalid arg 'path': {}", e),
        }
    }
    let cases: Vec<(Json, serde_json::Value)> = vec![
        (Json::Null, serde_json::Value::Null),
        (Json::Bool(false), serde_json::Value::from(false)),
        (Json::Unsigned(12), serde_json::Value::from(12u64)),
        (Json::Negative(-3), serde_json::Value::from(-3i64)),
        (Json::Float("1.5".to_string()), serde_json::Value::from(1.5f64)),
        (Json::Array(vec![]), serde_json::Value::from(Vec::<u64>::new())),
        (Json::Object(vec![]), serde_json::Value::Object(serde_json::Map::new())),
    ];
    for (mine, theirs) in cases {
        let got = decode("read_file", &Fields::new().with("path", mine).object());
        assert_eq!(got, Err(why::<String>(theirs)));
    }
}

#[test]
fn optional_arguments_of_another_kind_are_passed_over() {
    let args = Fields::new().text("path", "p").text("limit", "x").object();
    assert_eq!(
        decode("git_log", &args),
        Ok(Call { op: Op::GitLog, args: vec![Arg::Text("p".to_string()), Arg::Missing] })
    );
    let args = Fields::new().text("path", "p").number("limit", 7).object();
    assert_eq!(
        decode("git_log", &args),
        Ok(Call { op: Op::GitLog, args: vec![Arg::Text("p".to_string()), Arg::Number(7)] })
    );
    let args = Fields::new().text("path", "p").text("message", "m").flag("amend", true).object();
    assert_eq!(
        decode("git_commit", &args).unwrap().args[2],
        Arg::Flag(true)
    );
}

#[test]
fn a_chat_is_read_with_its_attachments() {
    let file = Fields::new().text("name", "a.txt").text("content", "hi").object();
    let args = Fields::new()
        .text("command", "kilo")
        .with("args", Json::Array(vec![text("run"), text("hello")]))
        .with("attachments", Json::Array(vec![file]))
        .object();
    let c = call("chat_stream", args);
    assert_eq!(c.args[1], Arg::Texts(vec!["run".to_string(), "hello".to_string()]));
    assert_eq!(
        c.args[5],
        Arg::Attachments(vec![ChatAttachmentInput {
            name: "a.txt".to_string(),
            mime_type: None,
            base64: None,
            content: Some("hi".to_string()),
        }])
    );
    assert_eq!(c.args[6], Arg::Missing);
}

#[test]
fn silent_clients_are_given_up() {
    assert_eq!(idle_wait(0), Some(IDLE_LIMIT));
    assert_eq!(idle_wait(IDLE_LIMIT - 1), Some(1));
    assert_eq!(idle_wait(IDLE_LIMIT), None);
    assert_eq!(keep_alive(&None), 1800);
    assert_eq!(keep_alive(&Some(" 60 ".to_string())), 60);
    assert_eq!(keep_alive(&Some("soon".to_string())), 1800);
}

#[test]
fn signs_of_life_are_answered() {
    assert!(is_ping(&Fields::new().text("event", "__ping").object()));
    assert!(!is_ping(&Fields::new().text("event", "ping").object()));
    assert!(!is_ping(&Json::Null));
    assert_eq!(pong(), Fields::new().text("event", "__pong").object());
}

#[test]
fn replies_carry_the_id_of_the_request() {
    assert_eq!(
        reply(3, Ok(Json::Null)),
        Fields::new().number("id", 3).flag("ok", true).with("result", Json::Null).object()
    );
    assert_eq!(
        reply(4, Err("no".to_string())),
        Fields::new().number("id", 4).flag("ok", false).text("error", "no").object()
    );
    assert_eq!(invalid_request("bad"), reply(0, Err("invalid request: bad".to_string())));
    let code = |v| {
        let payload = Fields::new().text("session_id", "s").with("code", v).object();
        Fields::new().text("event", "pty-exit").with("payload", payload).object()
    };
    assert_eq!(pty_exit_message("s", Some(1)), code(Json::Unsigned(1)));
    assert_eq!(pty_exit_message("s", Some(-1)), code(Json::Negative(-1)));
    assert_eq!(pty_exit_message("s", None), code(Json::Null));
}

#[test]
fn a_session_is_spawned_attached_and_left() {
    let mut conn = Connection::new();
    let mut mgr = PtyManager::new();
    let mut tracker = ChatProcessTracker::new();
    let action = conn.handle(&call("pty_spawn", session("a")), 1, &mut mgr, &mut tracker, 0);
    assert_eq!(
        action,
        Action::Spawn {
            session_id: "a".to_string(),
            shell: None,
            cwd: None,
            cols: 80,
            rows: 24,
        }
    );
    let (answer, last) = conn.spawned("a".to_string(), 11, &mut mgr, 0);
    assert_eq!(last, None);
    assert_eq!(
        answer,
        Fields::new().text("id", "a").number("pid", 11).number("from", 0).number("end", 0).object()
    );
    mgr.attach("a");
    mgr.data("a", b"abc".to_vec());
    let detach = conn.handle(&call("pty_detach", session("a")), 2, &mut mgr, &mut tracker, 500);
    assert_eq!(detach, Action::Detach { session_id: "a".to_string(), reply: Json::Null });
    assert_eq!(mgr.data("a", b"de".to_vec()), None);
    let args = Fields::new().text("sessionId", "a").number("from", 3).object();
    let attach = conn.handle(&call("pty_attach", args), 3, &mut mgr, &mut tracker, 600);
    let info = Fields::new()
        .number("pid", 11)
        .number("from", 3)
        .number("end", 5)
        .flag("truncated", false)
        .object();
    assert_eq!(attach, Action::Stream { session_id: "a".to_string(), from: 3, reply: info });
    assert_eq!(
        conn.attach_and_stream("a", &mgr, None),
        Ok(AttachInfo { pid: 11, from: 0, end: 5, truncated: false })
    );
}

#[test]
fn a_killed_session_is_gone() {
    let mut conn = Connection::new();
    let mut mgr = PtyManager::new();
    let mut tracker = ChatProcessTracker::new();
    conn.spawned("a".to_string(), 11, &mut mgr, 0);
    let kill = conn.handle(&call("pty_kill", session("a")), 1, &mut mgr, &mut tracker, 0);
    assert_eq!(kill, Action::End { session_id: "a".to_string(), pid: 11, reply: Json::Null });
    let again = conn.handle(&call("pty_attach", session("a")), 2, &mut mgr, &mut tracker, 0);
    assert_eq!(again, Action::Refuse("Session a not found".to_string()));
    let stats = conn.handle(
        &call("connection_stats", Json::Null),
        3,
        &mut mgr,
        &mut tracker,
        0,
    );
    assert_eq!(stats, Action::Stats { subscribed: vec![] });
}

#[test]
fn an_ended_session_is_refused() {
    let mut conn = Connection::new();
    let mut mgr = PtyManager::new();
    let mut tracker = ChatProcessTracker::new();
    conn.spawned("a".to_string(), 11, &mut mgr, 0);
    mgr.eof("a", Some(0));
    let attach = conn.handle(&call("pty_attach", session("a")), 2, &mut mgr, &mut tracker, 0);
    assert_eq!(attach, Action::Refuse("Session a has exited".to_string()));
}

#[test]
fn a_terminal_is_written_to_and_resized() {
    let mut conn = Connection::new();
    let mut mgr = PtyManager::new();
    let mut tracker = ChatProcessTracker::new();
    conn.spawned("a".to_string(), 11, &mut mgr, 0);
    let args = Fields::new().text("sessionId", "a").text("data", "ls\n").object();
    assert_eq!(
        conn.handle(&call("pty_write", args), 1, &mut mgr, &mut tracker, 0),
        Action::Write {
            session_id: "a".to_string(),
            data: b"ls\n".to_vec(),
            reply: Json::Null,
        }
    );
    let args = Fields::new().text("sessionId", "a").number("cols", 100).number("rows", 0).object();
    assert_eq!(
        conn.handle(&call("pty_resize", args), 2, &mut mgr, &mut tracker, 0),
        Action::Resize {
            session_id: "a".to_string(),
            size: PtySize { rows: 1, cols: 100 },
            reply: Json::Null,
        }
    );
    let args = Fields::new().text("sessionId", "b").text("data", "x").object();
    assert_eq!(
        conn.handle(&call("pty_write", args), 3, &mut mgr, &mut tracker, 0),
        Action::Refuse("Session b not found".to_string())
    );
}

#[test]
fn a_chat_is_cancelled_by_its_id() {
    let mut conn = Connection::default();
    let mut mgr = PtyManager::new();
    let mut tracker = ChatProcessTracker::new();
    let cancel = |id: &str| call("chat_cancel", Fields::new().text("id", id).object());
    conn.chat_started("r1".to_string(), 77, &mut tracker);
    assert_eq!(
        conn.handle(&cancel("r1"), 1, &mut mgr, &mut tracker, 0),
        Action::Kill { pid: 77, reply: Fields::new().flag("cancelled", true).object() }
    );
    assert!(tracker.kill_all().is_empty());
    conn.chat_ended("r1", Some(77), &mut tracker);
    assert_eq!(
        conn.handle(&cancel("r1"), 2, &mut mgr, &mut tracker, 0),
        Action::Reply(
            Fields::new().flag("cancelled", false).text("reason", "Process not found").object()
        )
    );
}

#[test]
fn a_turn_is_named_by_the_request_unless_it_has_a_name() {
    let mut conn = Connection::new();
    let mut mgr = PtyManager::new();
    let mut tracker = ChatProcessTracker::new();
    let c = call("chat_stream", Fields::new().text("command", "kilo").object());
    match conn.handle(&c, 31, &mut mgr, &mut tracker, 0) {
        Action::Chat { turn, attachments, reply } => {
            assert_eq!(reply, Json::Null);
            assert_eq!(turn.rid(), "31");
            assert_eq!(turn.command(), "kilo");
            assert_eq!(turn.arg_count(), 0);
            assert!(attachments.is_empty());
        }
        other => panic!("{:?}", other),
    }
    let args = Fields::new().text("command", "kilo").text("requestId", "q").object();
    match conn.handle(&call("chat_stream", args), 31, &mut mgr, &mut tracker, 0) {
        Action::Chat { turn, .. } => assert_eq!(turn.rid(), "q"),
        other => panic!("{:?}", other),
    }
}

#[test]
fn simple_requests_are_answered() {
    let mut conn = Connection::new();
    let mut mgr = PtyManager::new();
    let mut tracker = ChatProcessTracker::new();
    assert_eq!(
        conn.handle(&call("ping", Json::Null), 1, &mut mgr, &mut tracker, 0),
        Action::Reply(Fields::new().flag("pong", true).object())
    );
    assert_eq!(
        conn.handle(&call("get_cwd", Json::Null), 1, &mut mgr, &mut tracker, 0),
        Action::Run { task: Task::GetCwd, reply: None }
    );
    let args = Fields::new().text("path", "/f").object();
    assert_eq!(
        conn.handle(&call("delete_entry", args), 1, &mut mgr, &mut tracker, 0),
        Action::Run { task: Task::DeleteEntry("/f".to_string()), reply: Some(Json::Null) }
    );
    let args = Fields::new().text("sessionId", "ghost").object();
    assert_eq!(
        conn.handle(&call("pty_detach", args), 7, &mut mgr, &mut tracker, 0),
        Action::Detach { session_id: "ghost".to_string(), reply: Json::Null }
    );
}

#[test]
fn chat_processes_are_listed_while_they_run() {
    let mut conn = Connection::new();
    let mut mgr = PtyManager::new();
    let mut tracker = ChatProcessTracker::new();
    let c = call("chat_stream", Fields::new().text("command", "kilo").object());
    let mut turn = match conn.handle(&c, 31, &mut mgr, &mut tracker, 0) {
        Action::Chat { turn, .. } => turn,
        other => panic!("{:?}", other),
    };
    let action = conn.chat_step(&mut turn, TurnEvent::Started, None, &mut tracker);
    assert_eq!(action, TurnAction::Resolve);
    let action = conn.chat_step(&mut turn, TurnEvent::Spawned(None), Some(8), &mut tracker);
    assert_eq!(action, TurnAction::Wait);
    assert_eq!(tracker.kill_all(), vec![8]);
    tracker.register(8);
    tracker.register(9);
    let end = TurnEvent::Ended { success: true, code: Some(0) };
    assert!(matches!(
        conn.chat_step(&mut turn, end, Some(8), &mut tracker),
        TurnAction::Finish { .. }
    ));
    assert_eq!(tracker.kill_all(), vec![9]);
    assert_eq!(conn.close(&mut mgr, &mut tracker, 0).1, Vec::<u32>::new());
}

#[test]
fn sessions_outlive_their_connection() {
    let mut conn = Connection::new();
    let mut mgr = PtyManager::new();
    let mut tracker = ChatProcessTracker::new();
    conn.spawned("a".to_string(), 11, &mut mgr, 0);
    mgr.attach("a");
    mgr.spawn("b".to_string(), 12, 0);
    mgr.attach("b");
    tracker.register(6);
    conn.chat_started("r".to_string(), 5, &mut tracker);
    let left = conn.close(&mut mgr, &mut tracker, 1_000);
    assert_eq!(left, (vec!["a".to_string()], vec![5]));
    assert_eq!(tracker.kill_all(), vec![6]);
    assert_eq!(mgr.data("a", b"x".to_vec()), None);
    assert_eq!(
        mgr.data("b", b"x".to_vec()),
        Some(SubMsg::Out { from: 0, data: b"x".to_vec() })
    );
    assert!(mgr.subscribe("a", None).is_ok());
    assert_eq!(mgr.sweep(1_000 + 10, 5).len(), 1);
}
