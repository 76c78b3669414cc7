//! The sessions that the server keeps.

use vstd::prelude::*;
use vstd::string::*;
use vstd::utf8::encode_utf8;

use crate::pty::session::{AttachInfo, SessionView};
use crate::pty::spawn::{extent, pty_size, PtySize};
use crate::pty::stream::{msg_view, SessionStream, StreamEvent, StreamView, SubMsg};
use crate::text::texts;
use crate::textmap::TextMap;

verus! {

/// A session that was started.
#[derive(Debug, Clone, PartialEq)]
pub struct PtySession {
    pub id: String,
    pub pid: u32,
}

/// A session that the server keeps.
pub struct Session {
    pub pid: u32,
    pub stream: SessionStream,
}

/// What a kept session stands for.
pub struct SessionEntry {
    pub pid: u32,
    pub stream: StreamView,
}

impl View for Session {
    type V = SessionEntry;

    open spec fn view(&self) -> SessionEntry {
        SessionEntry { pid: self.pid, stream: self.stream@ }
    }
}

/// The sessions that the server keeps, by their ids.
pub struct PtyManager {
    sessions: TextMap<Session>,
}

impl View for PtyManager {
    type V = Map<Seq<char>, SessionEntry>;

    closed spec fn view(&self) -> Map<Seq<char>, SessionEntry> {
        self.sessions@.map_values(|s: Session| s@)
    }
}

/// A session that is no longer kept.
#[derive(Debug, PartialEq)]
pub struct Reaped {
    pub id: String,
    pub pid: u32,
    /// Whether its processes are still to be killed.
    pub kill: bool,
}

/// The text "Session `id` not found".
pub open spec fn not_found(id: Seq<char>) -> Seq<char> {
    "Session "@ + id + " not found"@
}

/// The text "Session `id` has exited".
pub open spec fn has_exited(id: Seq<char>) -> Seq<char> {
    "Session "@ + id + " has exited"@
}

/// A session that was started at the time `now`: nothing was produced yet, and
/// nobody is subscribed.
pub open spec fn fresh_entry(pid: u32, now: u64) -> SessionEntry {
    SessionEntry {
        pid,
        stream: StreamView {
            state: SessionView {
                exited: false,
                exit_code: None,
                total: 0,
                detached_at: Some(now),
                ring: seq![],
                ring_start: 0,
            },
            attached: false,
        },
    }
}

/// For how long a session has had no subscriber, in milliseconds.
pub open spec fn alone_for(v: StreamView, now: u64) -> int {
    if v.attached {
        0
    } else {
        match v.state.detached_at {
            Some(t) => if now >= t {
                now - t
            } else {
                0
            },
            None => 0,
        }
    }
}

/// Tells whether a sweep keeps a session: it has not ended, and has not been
/// without a subscriber for longer than `max_detached`.
pub open spec fn survives(v: StreamView, now: u64, max_detached: u64) -> bool {
    !v.state.exited && alone_for(v, now) <= max_detached
}

/// Tells whether it is known of a session since when it has had no subscriber,
/// unless it has one or has ended.
pub open spec fn well_kept(v: StreamView) -> bool {
    &&& v.attached ==> v.state.detached_at is None
    &&& !v.attached && !v.state.exited ==> v.state.detached_at is Some
}

fn say_not_found(id: &str) -> (r: String)
    ensures
        r@ == not_found(id@),
{
    let mut s = "Session ".to_owned();
    s.append(id);
    s.append(" not found");
    s
}

impl PtyManager {
    /// Every session is in a proper state.
    pub closed spec fn wf(&self) -> bool {
        &&& self.sessions.wf()
        &&& forall|k: Seq<char>| #[trigger]
            self.sessions@.contains_key(k) ==> self.sessions@[k]@.stream.state.wf() && well_kept(
                self.sessions@[k]@.stream,
            )
    }

    /// A manager without sessions.
    pub fn new() -> (r: Self)
        ensures
            r.wf(),
            r@ == Map::<Seq<char>, SessionEntry>::empty(),
    {
        let r = PtyManager { sessions: TextMap::new() };
        assert(r@ =~= Map::<Seq<char>, SessionEntry>::empty());
        r
    }

    /// Keeps a session that was started at the time `now`. One of the same id
    /// gives way, and its subscriber, if it has one, is told that it is over.
    pub fn spawn(&mut self, session_id: String, pid: u32, now: u64) -> (r: (
        PtySession,
        Option<SubMsg>,
    ))
        requires
            old(self).wf(),
        ensures
            final(self).wf(),
            r.0.id@ == session_id@,
            r.0.pid == pid,
            final(self)@ == old(self)@.insert(session_id@, fresh_entry(pid, now)),
            msg_view(r.1) == (if old(self)@.contains_key(session_id@) {
                old(self)@[session_id@].stream.sent(StreamEvent::Closed)
            } else {
                None
            }),
    {
        let stream = SessionStream::new(now);
        let ghost before = self.sessions@;
        let last = match self.sessions.remove(session_id.as_str()) {
            Some(mut s) => s.stream.close(),
            None => None,
        };
        let id = session_id.clone();
        self.sessions.insert(session_id, Session { pid, stream });
        assert(self@ =~= before.map_values(|s: Session| s@).insert(id@, fresh_entry(pid, now)));
        (PtySession { id, pid }, last)
    }

    /// Tells whether the offsets of a session's output leave room for more.
    pub fn has_room(&self, session_id: &str, more: usize) -> (r: bool)
        requires
            self.wf(),
        ensures
            r == (self@.contains_key(session_id@) ==> self@[session_id@].stream.state.total + more
                <= u64::MAX),
    {
        match self.sessions.get(session_id) {
            Some(s) => s.stream.state().total() <= u64::MAX - more as u64,
            None => true,
        }
    }

    /// The bytes to write to a session's terminal.
    pub fn write(&self, session_id: &str, data: &str) -> (r: Result<Vec<u8>, String>)
        requires
            self.wf(),
        ensures
            match r {
                Ok(bytes) => self@.contains_key(session_id@) && bytes@ == encode_utf8(data@),
                Err(e) => !self@.contains_key(session_id@) && e@ == not_found(session_id@),
            },
    {
        if self.sessions.contains_key(session_id) {
            Ok(data.as_bytes_vec())
        } else {
            Err(say_not_found(session_id))
        }
    }

    /// The size to give a session's terminal.
    pub fn resize(&self, session_id: &str, cols: u32, rows: u32) -> (r: Result<PtySize, String>)
        requires
            self.wf(),
        ensures
            match r {
                Ok(size) => self@.contains_key(session_id@) && size.rows == extent(rows)
                    && size.cols == extent(cols),
                Err(e) => !self@.contains_key(session_id@) && e@ == not_found(session_id@),
            },
    {
        if self.sessions.contains_key(session_id) {
            Ok(pty_size(cols, rows))
        } else {
            Err(say_not_found(session_id))
        }
    }

    /// What a client is told that asks for a session's output from `from` on,
    /// or from the oldest retained byte. A session that has ended cannot be
    /// attached to.
    pub fn subscribe(&self, session_id: &str, from: Option<u64>) -> (r: Result<AttachInfo, String>)
        requires
            self.wf(),
        ensures
            match r {
                Ok(info) => {
                    let e = self@[session_id@];
                    &&& self@.contains_key(session_id@)
                    &&& !e.stream.state.exited
                    &&& info.pid == e.pid
                    &&& info.end == e.stream.state.total
                    &&& match from {
                        Some(f) => info.from == e.stream.state.replay_start(f as int) && (
                        info.truncated <==> f < e.stream.state.ring_start),
                        None => info.from == e.stream.state.ring_start && !info.truncated,
                    }
                },
                Err(t) => {
                    ||| !self@.contains_key(session_id@) && t@ == not_found(session_id@)
                    ||| self@.contains_key(session_id@) && self@[session_id@].stream.state.exited
                        && t@ == has_exited(session_id@)
                },
            },
    {
        match self.sessions.get(session_id) {
            Some(s) => {
                if s.stream.state().exited() {
                    let mut e = "Session ".to_owned();
                    e.append(session_id);
                    e.append(" has exited");
                    Err(e)
                } else {
                    Ok(s.stream.state().attach_info(s.pid, from))
                }
            },
            None => Err(say_not_found(session_id)),
        }
    }

    /// What a subscriber gets before it is attached.
    pub fn replay(&self, session_id: &str, from: u64) -> (r: Option<SubMsg>)
        requires
            self.wf(),
        ensures
            msg_view(r) == (if self@.contains_key(session_id@) {
                self@[session_id@].stream.replay(from as int)
            } else {
                None
            }),
    {
        match self.sessions.get(session_id) {
            Some(s) => s.stream.replay(from),
            None => None,
        }
    }

    /// Attaches a subscriber whose replay got through.
    pub fn attach(&mut self, session_id: &str)
        requires
            old(self).wf(),
        ensures
            final(self).wf(),
            old(self)@.contains_key(session_id@) ==> final(self)@ == old(self)@.insert(
                session_id@,
                SessionEntry {
                    pid: old(self)@[session_id@].pid,
                    stream: old(self)@[session_id@].stream.after(StreamEvent::Attach),
                },
            ),
            !old(self)@.contains_key(session_id@) ==> final(self)@ == old(self)@,
    {
        let ghost before = self.sessions@;
        match self.sessions.remove(session_id) {
            Some(mut s) => {
                s.stream.attach();
                self.sessions.insert(session_id.to_owned(), s);
                assert(self.sessions@ =~= before.insert(session_id@, s));
                assert(self@ =~= before.map_values(|x: Session| x@).insert(session_id@, s@));
            },
            None => {
                assert(self.sessions@ =~= before);
            },
        }
    }

    /// Detaches the subscriber of a session, which goes on.
    pub fn unsubscribe(&mut self, session_id: &str, now: u64)
        requires
            old(self).wf(),
        ensures
            final(self).wf(),
            old(self)@.contains_key(session_id@) ==> final(self)@ == old(self)@.insert(
                session_id@,
                SessionEntry {
                    pid: old(self)@[session_id@].pid,
                    stream: old(self)@[session_id@].stream.after(StreamEvent::Detach { now }),
                },
            ),
            !old(self)@.contains_key(session_id@) ==> final(self)@ == old(self)@,
    {
        let ghost before = self.sessions@;
        match self.sessions.remove(session_id) {
            Some(mut s) => {
                s.stream.detach(now);
                self.sessions.insert(session_id.to_owned(), s);
                assert(self.sessions@ =~= before.insert(session_id@, s));
                assert(self@ =~= before.map_values(|x: Session| x@).insert(session_id@, s@));
            },
            None => {
                assert(self.sessions@ =~= before);
            },
        }
    }

    /// Takes in output of a session and gives the message for its subscriber.
    pub fn data(&mut self, session_id: &str, bytes: Vec<u8>) -> (r: Option<SubMsg>)
        requires
            old(self).wf(),
            old(self)@.contains_key(session_id@) ==> old(self)@[session_id@].stream.state.total
                + bytes@.len() <= u64::MAX,
        ensures
            final(self).wf(),
            old(self)@.contains_key(session_id@) ==> final(self)@ == old(self)@.insert(
                session_id@,
                SessionEntry {
                    pid: old(self)@[session_id@].pid,
                    stream: old(self)@[session_id@].stream.after(
                        StreamEvent::Data { bytes: bytes@ },
                    ),
                },
            ) && msg_view(r) == old(self)@[session_id@].stream.sent(
                StreamEvent::Data { bytes: bytes@ },
            ),
            !old(self)@.contains_key(session_id@) ==> final(self)@ == old(self)@ && r is None,
    {
        let ghost before = self.sessions@;
        match self.sessions.remove(session_id) {
            Some(mut s) => {
                let m = s.stream.data(bytes);
                self.sessions.insert(session_id.to_owned(), s);
                assert(self.sessions@ =~= before.insert(session_id@, s));
                assert(self@ =~= before.map_values(|x: Session| x@).insert(session_id@, s@));
                m
            },
            None => {
                assert(self.sessions@ =~= before);
                None
            },
        }
    }

    /// Notes that a message could not be delivered to a session's subscriber.
    pub fn lost(&mut self, session_id: &str, now: u64)
        requires
            old(self).wf(),
        ensures
            final(self).wf(),
            old(self)@.contains_key(session_id@) ==> final(self)@ == old(self)@.insert(
                session_id@,
                SessionEntry {
                    pid: old(self)@[session_id@].pid,
                    stream: old(self)@[session_id@].stream.after(StreamEvent::Lost { now }),
                },
            ),
            !old(self)@.contains_key(session_id@) ==> final(self)@ == old(self)@,
    {
        let ghost before = self.sessions@;
        match self.sessions.remove(session_id) {
            Some(mut s) => {
                s.stream.lost(now);
                self.sessions.insert(session_id.to_owned(), s);
                assert(self.sessions@ =~= before.insert(session_id@, s));
                assert(self@ =~= before.map_values(|x: Session| x@).insert(session_id@, s@));
            },
            None => {
                assert(self.sessions@ =~= before);
            },
        }
    }

    /// Notes that a session's shell ended and gives the message for its
    /// subscriber.
    pub fn eof(&mut self, session_id: &str, code: Option<i32>) -> (r: Option<SubMsg>)
        requires
            old(self).wf(),
        ensures
            final(self).wf(),
            old(self)@.contains_key(session_id@) ==> final(self)@ == old(self)@.insert(
                session_id@,
                SessionEntry {
                    pid: old(self)@[session_id@].pid,
                    stream: old(self)@[session_id@].stream.after(StreamEvent::Eof { code }),
                },
            ) && msg_view(r) == old(self)@[session_id@].stream.sent(StreamEvent::Eof { code }),
            !old(self)@.contains_key(session_id@) ==> final(self)@ == old(self)@ && r is None,
    {
        let ghost before = self.sessions@;
        match self.sessions.remove(session_id) {
            Some(mut s) => {
                let m = s.stream.eof(code);
                self.sessions.insert(session_id.to_owned(), s);
                assert(self.sessions@ =~= before.insert(session_id@, s));
                assert(self@ =~= before.map_values(|x: Session| x@).insert(session_id@, s@));
                m
            },
            None => {
                assert(self.sessions@ =~= before);
                None
            },
        }
    }

    /// Stops keeping a session and gives the process whose group is to be
    /// killed.
    pub fn kill(&mut self, session_id: &str) -> (r: Result<u32, String>)
        requires
            old(self).wf(),
        ensures
            final(self).wf(),
            final(self)@ == old(self)@.remove(session_id@),
            match r {
                Ok(pid) => old(self)@.contains_key(session_id@) && pid
                    == old(self)@[session_id@].pid,
                Err(e) => !old(self)@.contains_key(session_id@) && e@ == not_found(session_id@),
            },
    {
        let ghost before = self.sessions@;
        let removed = self.sessions.remove(session_id);
        assert(self@ =~= before.map_values(|x: Session| x@).remove(session_id@));
        match removed {
            Some(s) => Ok(s.pid),
            None => Err(say_not_found(session_id)),
        }
    }

    /// Stops keeping the sessions that have ended, and those that have had no
    /// subscriber for longer than `max_detached` milliseconds; the latter are to
    /// be killed.
    pub fn sweep(&mut self, now: u64, max_detached: u64) -> (r: Vec<Reaped>)
        requires
            old(self).wf(),
        ensures
            final(self).wf(),
            forall|k: Seq<char>| #[trigger]
                final(self)@.contains_key(k) <==> old(self)@.contains_key(k) && survives(
                    old(self)@[k].stream,
                    now,
                    max_detached,
                ),
            forall|k: Seq<char>| #[trigger]
                final(self)@.contains_key(k) ==> final(self)@[k] == old(self)@[k],
            forall|i: int|
                0 <= i < r@.len() ==> {
                    let e = old(self)@[(#[trigger] r@[i]).id@];
                    &&& old(self)@.contains_key(r@[i].id@)
                    &&& !survives(e.stream, now, max_detached)
                    &&& r@[i].pid == e.pid
                    &&& r@[i].kill == !e.stream.state.exited
                },
            forall|k: Seq<char>| #[trigger]
                old(self)@.contains_key(k) && !final(self)@.contains_key(k) ==> exists|i: int|
                    0 <= i < r@.len() && (#[trigger] r@[i]).id@ == k,
            forall|i: int, j: int| 0 <= i < j < r@.len() ==> r@[i].id@ != r@[j].id@,
    {
        let ghost before = self.sessions@;
        let ghost all = self@;
        let ids = self.sessions.keys();
        let mut out: Vec<Reaped> = Vec::new();
        let mut i: usize = 0;
        while i < ids.len()
            invariant
                i <= ids@.len(),
                self.wf(),
                all == before.map_values(|s: Session| s@),
                forall|k: Seq<char>| #[trigger]
                    before.contains_key(k) ==> before[k]@.stream.state.wf() && well_kept(
                        before[k]@.stream,
                    ),
                forall|k: Seq<char>| #[trigger]
                    self.sessions@.contains_key(k) ==> before.contains_key(k)
                        && self.sessions@[k] == before[k],
                forall|a: int, b: int| 0 <= a < b < ids@.len() ==> ids@[a]@ != ids@[b]@,
                forall|a: int| 0 <= a < ids@.len() ==> before.contains_key((#[trigger] ids@[a])@),
                forall|a: int|
                    i <= a < ids@.len() ==> self.sessions@.contains_key((#[trigger] ids@[a])@),
                forall|a: int|
                    0 <= a < i ==> (self.sessions@.contains_key((#[trigger] ids@[a])@) <==> survives(
                        before[ids@[a]@]@.stream,
                        now,
                        max_detached,
                    )),
                forall|a: int|
                    0 <= a < i && !self.sessions@.contains_key((#[trigger] ids@[a])@)
                        ==> exists|q: int| 0 <= q < out@.len() && (#[trigger] out@[q]).id@ == ids@[a]@,
                forall|q: int|
                    0 <= q < out@.len() ==> {
                        let e = before[(#[trigger] out@[q]).id@]@;
                        &&& before.contains_key(out@[q].id@)
                        &&& !survives(e.stream, now, max_detached)
                        &&& out@[q].pid == e.pid
                        &&& out@[q].kill == !e.stream.state.exited
                        &&& exists|a: int| 0 <= a < i && (#[trigger] ids@[a])@ == out@[q].id@
                    },
                forall|q: int, w: int| 0 <= q < w < out@.len() ==> out@[q].id@ != out@[w].id@,
            decreases ids@.len() - i,
        {
            let ghost sessions0 = self.sessions@;
            let ghost out0 = out@;
            let ghost id = ids@[i as int]@;
            assert(sessions0.contains_key(id));
            let mut reap = false;
            let mut kill = false;
            match self.sessions.get(ids[i].as_str()) {
                Some(s) => {
                    let st = s.stream.state();
                    if st.exited() {
                        reap = true;
                    } else {
                        let gone: u64 = match st.detached_at() {
                            Some(t) => if !s.stream.attached() && now >= t {
                                now - t
                            } else {
                                0
                            },
                            None => 0,
                        };
                        if gone > max_detached {
                            reap = true;
                            kill = true;
                        }
                    }
                },
                None => {},
            }
            assert(reap == !survives(before[id]@.stream, now, max_detached));
            if reap {
                match self.sessions.remove(ids[i].as_str()) {
                    Some(s) => {
                        out.push(Reaped { id: ids[i].clone(), pid: s.pid, kill });
                        let ghost last = out@.len() - 1;
                        assert(out@[last].id@ == id);
                        assert forall|q: int| 0 <= q < out0.len() implies out@[q] == out0[q] by {}
                        assert forall|q: int, w: int| 0 <= q < w < out@.len() implies out@[q].id@
                            != out@[w].id@ by {
                            if w == last {
                                let a = choose|a: int|
                                    0 <= a < i && (#[trigger] ids@[a])@ == out0[q].id@;
                                assert(ids@[a]@ != ids@[i as int]@);
                            }
                        }
                        assert forall|a: int| 0 <= a < i + 1 && !self.sessions@.contains_key(
                            (#[trigger] ids@[a])@,
                        ) implies exists|q: int|
                            0 <= q < out@.len() && (#[trigger] out@[q]).id@ == ids@[a]@ by {
                            if a < i {
                                assert(!sessions0.contains_key(ids@[a]@));
                                let q = choose|q: int|
                                    0 <= q < out0.len() && (#[trigger] out0[q]).id@ == ids@[a]@;
                                assert(out@[q].id@ == ids@[a]@);
                            }
                        }
                        assert forall|q: int| 0 <= q < out@.len() implies ({
                            let e = before[(#[trigger] out@[q]).id@]@;
                            &&& before.contains_key(out@[q].id@)
                            &&& !survives(e.stream, now, max_detached)
                            &&& out@[q].pid == e.pid
                            &&& out@[q].kill == !e.stream.state.exited
                            &&& exists|a: int| 0 <= a < i + 1 && (#[trigger] ids@[a])@ == out@[q].id@
                        }) by {
                            if q < last {
                                assert(out@[q] == out0[q]);
                                let a = choose|a: int|
                                    0 <= a < i && (#[trigger] ids@[a])@ == out0[q].id@;
                                assert(ids@[a]@ == out@[q].id@);
                            } else {
                                assert(ids@[i as int]@ == out@[q].id@);
                            }
                        }
                        assert forall|a: int| i + 1 <= a < ids@.len() implies
                            self.sessions@.contains_key((#[trigger] ids@[a])@) by {
                            assert(sessions0.contains_key(ids@[a]@));
                            assert(ids@[i as int]@ != ids@[a]@);
                        }
                        assert forall|a: int| 0 <= a < i + 1 implies (self.sessions@.contains_key(
                            (#[trigger] ids@[a])@,
                        ) <==> survives(before[ids@[a]@]@.stream, now, max_detached)) by {
                            if a < i {
                                assert(ids@[a]@ != ids@[i as int]@);
                            }
                        }
                    },
                    None => {},
                }
            }
            i += 1;
        }
        proof {
            assert forall|k: Seq<char>| #[trigger]
                all.contains_key(k) && !self@.contains_key(k) implies exists|q: int|
                0 <= q < out@.len() && (#[trigger] out@[q]).id@ == k by {
                assert(texts(ids@).contains(k));
                let a = choose|a: int| 0 <= a < texts(ids@).len() && texts(ids@)[a] == k;
                assert(ids@[a]@ == k);
            }
            assert forall|k: Seq<char>| #[trigger]
                self@.contains_key(k) <==> all.contains_key(k) && survives(
                    all[k].stream,
                    now,
                    max_detached,
                ) by {
                if before.contains_key(k) {
                    assert(texts(ids@).contains(k));
                    let a = choose|a: int| 0 <= a < texts(ids@).len() && texts(ids@)[a] == k;
                    assert(ids@[a]@ == k);
                }
            }
        }
        out
    }

    /// Stops keeping every session and gives the processes whose groups are to
    /// be killed.
    pub fn kill_all(&mut self) -> (r: Vec<Reaped>)
        requires
            old(self).wf(),
        ensures
            final(self).wf(),
            final(self)@ == Map::<Seq<char>, SessionEntry>::empty(),
            forall|i: int|
                0 <= i < r@.len() ==> old(self)@.contains_key((#[trigger] r@[i]).id@) && r@[i].pid
                    == old(self)@[r@[i].id@].pid && r@[i].kill,
            forall|k: Seq<char>| #[trigger]
                old(self)@.contains_key(k) ==> exists|i: int|
                    0 <= i < r@.len() && (#[trigger] r@[i]).id@ == k,
            forall|i: int, j: int| 0 <= i < j < r@.len() ==> r@[i].id@ != r@[j].id@,
    {
        let ghost before = self.sessions@;
        let ids = self.sessions.keys();
        let mut out: Vec<Reaped> = Vec::new();
        let mut i: usize = 0;
        while i < ids.len()
            invariant
                i <= ids@.len(),
                self.sessions.wf(),
                self.sessions@ == before,
                forall|a: int| 0 <= a < ids@.len() ==> before.contains_key((#[trigger] ids@[a])@),
                out@.len() == i,
                forall|q: int|
                    0 <= q < i ==> (#[trigger] out@[q]).id@ == ids@[q]@ && out@[q].pid
                        == before[ids@[q]@].pid && out@[q].kill,
            decreases ids@.len() - i,
        {
            assert(before.contains_key(ids@[i as int]@));
            match self.sessions.get(ids[i].as_str()) {
                Some(s) => {
                    out.push(Reaped { id: ids[i].clone(), pid: s.pid, kill: true });
                },
                None => {},
            }
            i += 1;
        }
        proof {
            assert forall|k: Seq<char>| #[trigger] before.contains_key(k) implies exists|q: int|
                0 <= q < out@.len() && (#[trigger] out@[q]).id@ == k by {
                assert(texts(ids@).contains(k));
                let a = choose|a: int| 0 <= a < texts(ids@).len() && texts(ids@)[a] == k;
                assert(out@[a].id@ == k);
            }
        }
        self.sessions = TextMap::new();
        assert(self@ =~= Map::<Seq<char>, SessionEntry>::empty());
        out
    }
}

impl Default for PtyManager {
    fn default() -> (r: Self)
        ensures
            r.wf(),
            r@ == Map::<Seq<char>, SessionEntry>::empty(),
    {
        PtyManager::new()
    }
}

/// It is always known since when a session has had no subscriber: it is so from
/// its start on, whatever happens to it, and of every session that is kept.
pub proof fn abandonment_is_known(
    pid: u32,
    start: u64,
    v: StreamView,
    e: StreamEvent,
    m: &PtyManager,
    id: Seq<char>,
)
    requires
        well_kept(v),
        e !is Closed,
        m.wf(),
        m@.contains_key(id),
    ensures
        well_kept(fresh_entry(pid, start).stream),
        well_kept(v.after(e)),
        well_kept(m@[id].stream),
{
}

/// A session that has a subscriber and has not ended is not reaped.
pub proof fn subscribed_session_is_kept(v: StreamView, now: u64, max_detached: u64)
    requires
        v.attached,
        !v.state.exited,
    ensures
        survives(v, now, max_detached),
{
}

/// A session without a subscriber is kept for as long as that is allowed, and
/// reaped after it, be it that it never had one, that the one it had left, or that
/// the one it had was lost. What it produces meanwhile does not keep it.
pub proof fn abandoned_session_is_reaped(
    pid: u32,
    v: StreamView,
    bytes: Seq<u8>,
    left: u64,
    now: u64,
    max_detached: u64,
)
    requires
        v.attached,
        !v.state.exited,
        left <= now,
    ensures
        ({
            let data = StreamEvent::Data { bytes };
            let fresh = fresh_entry(pid, left).stream;
            let detached = v.after(StreamEvent::Detach { now: left });
            let lost = v.after(StreamEvent::Lost { now: left });
            &&& survives(fresh, now, max_detached) <==> now - left <= max_detached
            &&& survives(detached, now, max_detached) <==> now - left <= max_detached
            &&& survives(lost, now, max_detached) <==> now - left <= max_detached
            &&& survives(fresh.after(data), now, max_detached) == survives(fresh, now, max_detached)
            &&& survives(detached.after(data), now, max_detached) == survives(
                detached,
                now,
                max_detached,
            )
        }),
{
}

/// No session is left alone for ever: of each that is kept there is a time after
/// which a sweep reaps it unless it gets a subscriber.
pub proof fn no_session_leaks(m: &PtyManager, id: Seq<char>, now: u64, max_detached: u64)
    requires
        m.wf(),
        m@.contains_key(id),
        !m@[id].stream.attached,
        m@[id].stream.state.detached_at matches Some(t) ==> now > t + max_detached,
    ensures
        !survives(m@[id].stream, now, max_detached),
{
}

/// A session that was just started has produced nothing, has not ended, and has been alone from
/// its start on.
pub proof fn new_sessions_are_alone(pid: u32, now: u64, later: u64)
    requires
        now <= later,
    ensures
        fresh_entry(pid, now).pid == pid,
        !fresh_entry(pid, now).stream.attached,
        !fresh_entry(pid, now).stream.state.exited,
        fresh_entry(pid, now).stream.state.total == 0,
        fresh_entry(pid, now).stream.state.wf(),
        alone_for(fresh_entry(pid, now).stream, later) == later - now,
{
}

/// A session that has ended is reaped, and of the others one that was alone for too long.
pub proof fn sweeps_keep_what_is_used(v: StreamView, now: u64, max_detached: u64)
    ensures
        v.state.exited ==> !survives(v, now, max_detached),
        v.attached ==> alone_for(v, now) == 0,
        !v.state.exited && !v.attached ==> match v.state.detached_at {
            Some(t) => survives(v, now, max_detached) <==> now - t <= max_detached,
            None => survives(v, now, max_detached),
        },
{
}

} // verus!
