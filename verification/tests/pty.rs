use noide::pty::events::{exit_event, output_event, PtyEvent, PtyExit, PtyOutput};
use noide::pty::manager::{PtyManager, PtySession, Reaped};
use noide::pty::session::{AttachInfo, SessionState, RING_CAP};
use noide::pty::spawn::{
    exit_code, is_shutting_down, pty_failure, pty_size, spawn_failure, spawn_plan, PtyFault, PtySize,
    ShellHost,
};
use noide::pty::stream::{SessionStream, SubMsg};

fn out(from: u64, data: &[u8]) -> Option<SubMsg> {
    Some(SubMsg::Out { from, data: data.to_vec() })
}

#[test]
fn a_fresh_session_retains_nothing() {
    let s = SessionState::new();
    assert!(!s.exited());
    assert_eq!(s.exit_code(), None);
    assert_eq!(s.total(), 0);
    assert_eq!(s.detached_at(), None);
    assert_eq!(s.replay_from(0), (0, vec![]));
    assert_eq!(s.replay_from(7), (7, vec![]));
}

#[test]
fn output_is_replayed_from_an_offset() {
    let mut s = SessionState::new();
    s.push(b"hello ");
    s.push(b"world");
    assert_eq!(s.total(), 11);
    assert_eq!(s.ring_start(), 0);
    assert_eq!(s.replay_from(0), (0, b"hello world".to_vec()));
    assert_eq!(s.replay_from(6), (6, b"world".to_vec()));
    assert_eq!(s.replay_from(11), (11, vec![]));
    assert_eq!(s.replay_from(20), (20, vec![]));
}

#[test]
fn the_ring_keeps_the_last_bytes() {
    let mut s = SessionState::new();
    s.push(&vec![1u8; RING_CAP]);
    s.push(&[2, 3, 4]);
    assert_eq!(s.total(), RING_CAP as u64 + 3);
    assert_eq!(s.ring_start(), 3);
    let (start, bytes) = s.replay_from(0);
    assert_eq!(start, 3);
    assert_eq!(bytes.len(), RING_CAP);
    assert_eq!(bytes[RING_CAP - 4..].to_vec(), vec![1, 2, 3, 4]);
}

#[test]
fn one_push_or_two_come_to_the_same() {
    let mut a = SessionState::new();
    let mut b = SessionState::new();
    let text: Vec<u8> = (0..RING_CAP + 100).map(|i| (i % 251) as u8).collect();
    a.push(&text);
    b.push(&text[..1000]);
    b.push(&text[1000..]);
    assert_eq!(a.replay_from(0), b.replay_from(0));
    assert_eq!(a.total(), b.total());
    assert_eq!(a.replay_from(0).1, text[100..].to_vec());
}

#[test]
fn who_attaches_is_told_what_is_gone() {
    let mut s = SessionState::new();
    s.push(&vec![0u8; RING_CAP + 10]);
    let end = RING_CAP as u64 + 10;
    assert_eq!(s.attach_info(9, None), AttachInfo { pid: 9, from: 10, end, truncated: false });
    assert_eq!(s.attach_info(9, Some(4)), AttachInfo { pid: 9, from: 10, end, truncated: true });
    assert_eq!(s.attach_info(9, Some(10)), AttachInfo { pid: 9, from: 10, end, truncated: false });
    assert_eq!(s.attach_info(9, Some(50)), AttachInfo { pid: 9, from: 50, end, truncated: false });
}

#[test]
fn a_subscriber_gets_replay_then_live_output_then_the_exit() {
    let mut s = SessionStream::new(5);
    assert_eq!(s.data(b"ab".to_vec()), None);
    assert_eq!(s.replay(0), out(0, b"ab"));
    s.attach();
    assert_eq!(s.data(b"cd".to_vec()), out(2, b"cd"));
    assert_eq!(s.data(b"e".to_vec()), out(4, b"e"));
    assert_eq!(s.eof(Some(3)), Some(SubMsg::Exit { code: Some(3) }));
    assert!(s.state().exited());
    assert_eq!(s.state().exit_code(), Some(3));
    assert_eq!(s.data(b"x".to_vec()), None);
    assert_eq!(s.eof(None), None);
    assert_eq!(s.close(), None);
}

#[test]
fn what_was_missed_while_away_is_replayed() {
    let mut s = SessionStream::new(5);
    s.attach();
    assert_eq!(s.data(b"12".to_vec()), out(0, b"12"));
    s.detach(77);
    assert_eq!(s.state().detached_at(), Some(77));
    s.detach(90);
    assert_eq!(s.state().detached_at(), Some(77));
    assert_eq!(s.data(b"34".to_vec()), None);
    assert_eq!(s.data(b"5".to_vec()), None);
    assert_eq!(s.replay(2), out(2, b"345"));
    assert_eq!(s.replay(5), None);
    s.attach();
    assert_eq!(s.state().detached_at(), None);
    assert_eq!(s.data(b"6".to_vec()), out(5, b"6"));
}

#[test]
fn a_stream_that_ends_without_an_exit_tells_of_one() {
    let mut s = SessionStream::new(5);
    assert_eq!(s.close(), None);
    s.attach();
    assert!(s.attached());
    assert_eq!(s.close(), Some(SubMsg::Exit { code: None }));
    assert!(!s.attached());
    s.attach();
    s.lost(9);
    assert_eq!(s.close(), None);
}

#[test]
fn unknown_sessions_are_refused() {
    let mut m = PtyManager::new();
    let missing = "Session a not found".to_string();
    assert_eq!(m.write("a", "x"), Err(missing.clone()));
    assert_eq!(m.resize("a", 1, 1), Err(missing.clone()));
    assert_eq!(m.subscribe("a", None), Err(missing.clone()));
    assert_eq!(m.kill("a"), Err(missing));
    assert_eq!(m.replay("a", 0), None);
    assert_eq!(m.data("a", vec![1]), None);
    assert_eq!(m.eof("a", None), None);
}

#[test]
fn a_session_lives_and_is_killed() {
    let mut m = PtyManager::new();
    let (s, last) = m.spawn("a".to_string(), 42, 0);
    assert_eq!(s, PtySession { id: "a".to_string(), pid: 42 });
    assert_eq!(last, None);
    assert_eq!(m.write("a", "h\u{e9}"), Ok(vec![104, 0xc3, 0xa9]));
    assert_eq!(m.resize("a", 0, 70000), Ok(PtySize { rows: 4464, cols: 1 }));
    assert!(m.has_room("a", 5));
    assert_eq!(m.data("a", b"hi".to_vec()), None);
    assert_eq!(
        m.subscribe("a", Some(1)),
        Ok(AttachInfo { pid: 42, from: 1, end: 2, truncated: false })
    );
    assert_eq!(m.replay("a", 1), out(1, b"i"));
    m.attach("a");
    assert_eq!(m.data("a", b"!".to_vec()), out(2, b"!"));
    assert_eq!(m.kill("a"), Ok(42));
    assert_eq!(m.kill("a"), Err("Session a not found".to_string()));
}

#[test]
fn an_ended_session_cannot_be_attached_to() {
    let mut m = PtyManager::new();
    m.spawn("a".to_string(), 1, 0);
    m.attach("a");
    assert_eq!(m.eof("a", Some(0)), Some(SubMsg::Exit { code: Some(0) }));
    assert_eq!(m.subscribe("a", None), Err("Session a has exited".to_string()));
}

#[test]
fn a_session_gives_way_to_one_of_the_same_id() {
    let mut m = PtyManager::new();
    m.spawn("a".to_string(), 1, 0);
    m.attach("a");
    m.data("a", b"old".to_vec());
    let (_, last) = m.spawn("a".to_string(), 2, 0);
    assert_eq!(last, Some(SubMsg::Exit { code: None }));
    assert_eq!(
        m.subscribe("a", None),
        Ok(AttachInfo { pid: 2, from: 0, end: 0, truncated: false })
    );
}

#[test]
fn a_sweep_takes_ended_and_abandoned_sessions() {
    let mut m = PtyManager::default();
    m.spawn("ended".to_string(), 1, 0);
    m.eof("ended", None);
    m.spawn("left".to_string(), 2, 0);
    m.attach("left");
    m.unsubscribe("left", 1_000);
    m.spawn("new".to_string(), 3, 60_000);
    m.spawn("used".to_string(), 4, 0);
    m.unsubscribe("used", 1_000);
    m.attach("used");
    assert_eq!(
        m.sweep(61_000, 60_000),
        vec![Reaped { id: "ended".to_string(), pid: 1, kill: false }]
    );
    assert_eq!(
        m.sweep(61_001, 60_000),
        vec![Reaped { id: "left".to_string(), pid: 2, kill: true }]
    );
    let mut pids: Vec<u32> = m.kill_all().iter().map(|r| r.pid).collect();
    pids.sort();
    assert_eq!(pids, vec![3, 4]);
    assert!(m.kill_all().is_empty());
}

#[test]
fn a_message_that_got_lost_detaches() {
    let mut m = PtyManager::new();
    m.spawn("a".to_string(), 1, 0);
    m.attach("a");
    m.lost("a", 0);
    assert_eq!(m.data("a", b"x".to_vec()), None);
}

#[test]
fn sessions_that_nobody_wants_are_reaped() {
    let mut m = PtyManager::new();
    m.spawn("never".to_string(), 1, 100);
    m.spawn("lost".to_string(), 2, 100);
    m.attach("lost");
    m.lost("lost", 200);
    m.spawn("used".to_string(), 3, 100);
    m.attach("used");
    assert!(m.sweep(150, 50).is_empty());
    assert_eq!(m.data("never", b"x".to_vec()), None);
    assert_eq!(
        m.sweep(151, 50),
        vec![Reaped { id: "never".to_string(), pid: 1, kill: true }]
    );
    assert!(m.sweep(250, 50).is_empty());
    assert_eq!(
        m.sweep(251, 50),
        vec![Reaped { id: "lost".to_string(), pid: 2, kill: true }]
    );
    assert!(m.sweep(1_000_000, 50).is_empty());
}

#[test]
fn sizes_have_at_least_one_cell_and_sixteen_bits() {
    assert_eq!(pty_size(80, 24), PtySize { rows: 24, cols: 80 });
    assert_eq!(pty_size(0, 0), PtySize { rows: 1, cols: 1 });
    assert_eq!(pty_size(65536, 65537), PtySize { rows: 1, cols: 0 });
}

#[test]
fn the_shell_is_the_first_that_is_there() {
    let host = |windows, has_zsh, has_bash| ShellHost { windows, has_zsh, has_bash };
    let shell = |h| spawn_plan(None, None, false, 80, 24, h).shell;
    assert_eq!(shell(host(true, true, true)), "powershell.exe");
    assert_eq!(shell(host(false, true, true)), "/bin/zsh");
    assert_eq!(shell(host(false, false, true)), "/bin/bash");
    assert_eq!(shell(host(false, false, false)), "/bin/sh");
    let plan = spawn_plan(
        Some("fish".to_string()),
        Some("/nowhere".to_string()),
        false,
        100,
        30,
        host(false, true, true),
    );
    assert_eq!(plan.shell, "fish");
    assert_eq!(plan.cwd, None);
    assert_eq!(plan.size, PtySize { rows: 30, cols: 100 });
    assert_eq!(plan.env[0], ("TERM".to_string(), "xterm-256color".to_string()));
    assert_eq!(plan.env[3], ("SHELL".to_string(), "fish".to_string()));
    assert_eq!(plan.env[4], ("SHLVL".to_string(), "1".to_string()));
    let there = spawn_plan(None, Some("/tmp".to_string()), true, 1, 1, host(false, false, false));
    assert_eq!(there.cwd, Some("/tmp".to_string()));
}

#[test]
fn a_shell_that_does_not_start_is_told_of() {
    assert_eq!(
        spawn_failure("zsh", &Some("a\"b".to_string()), "gone"),
        "Failed to spawn shell 'zsh' (cwd: Some(\"a\\\"b\")): gone"
    );
    assert_eq!(
        spawn_failure("zsh", &None, "gone"),
        "Failed to spawn shell 'zsh' (cwd: None): gone"
    );
}

#[test]
fn exit_codes_fit_or_are_unknown() {
    assert_eq!(exit_code(0), Some(0));
    assert_eq!(exit_code(0x7fff_ffff), Some(i32::MAX));
    assert_eq!(exit_code(0x8000_0000), None);
}

#[test]
fn events_carry_text_and_codes() {
    assert_eq!(
        output_event(&"s".to_string(), &[104, 0xff, 105]),
        PtyEvent::Output(PtyOutput { session_id: "s".to_string(), data: "h\u{fffd}i".to_string() })
    );
    assert_eq!(
        exit_event("s".to_string(), Some(2)),
        PtyEvent::Exit(PtyExit { session_id: "s".to_string(), code: Some(2) })
    );
    assert_eq!(
        exit_event("s".to_string(), None),
        PtyEvent::Exit(PtyExit { session_id: "s".to_string(), code: None })
    );
}

#[test]
fn terminals_tell_where_they_fail() {
    assert_eq!(pty_failure(PtyFault::Open, "e"), "Failed to open pty: e");
    assert_eq!(pty_failure(PtyFault::TakeWriter, "e"), "Failed to get pty writer: e");
    assert_eq!(pty_failure(PtyFault::TakeReader, "e"), "Failed to get pty reader: e");
    assert_eq!(pty_failure(PtyFault::Write, "e"), "Write error: e");
    assert_eq!(pty_failure(PtyFault::Flush, "e"), "Flush error: e");
    assert_eq!(pty_failure(PtyFault::Resize, "e"), "Resize error: e");
    assert_eq!(is_shutting_down("s"), "Session s is shutting down");
}
