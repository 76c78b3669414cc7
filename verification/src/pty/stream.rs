//! How the output of a session reaches its subscriber.
//!
//! A session has at most one subscriber. One that attaches first gets the
//! retained output that it asked for, then every chunk as it is produced, and
//! at last the exit of the shell.

use vstd::prelude::*;

use crate::pty::session::{SessionState, SessionView};

verus! {

/// What a subscriber is sent.
#[derive(Debug, PartialEq)]
pub enum SubMsg {
    /// Output that starts at the offset `from`.
    Out { from: u64, data: Vec<u8> },
    /// The shell exited, or was killed.
    Exit { code: Option<i32> },
}

/// What a message stands for.
pub enum SubMsgView {
    Out { from: int, data: Seq<u8> },
    Exit { code: Option<i32> },
}

impl View for SubMsg {
    type V = SubMsgView;

    open spec fn view(&self) -> SubMsgView {
        match self {
            SubMsg::Out { from, data } => SubMsgView::Out { from: *from as int, data: data@ },
            SubMsg::Exit { code } => SubMsgView::Exit { code: *code },
        }
    }
}

/// The view of a message that may be missing.
pub open spec fn msg_view(m: Option<SubMsg>) -> Option<SubMsgView> {
    match m {
        Some(x) => Some(x@),
        None => None,
    }
}

/// A session's output and whether somebody is subscribed to it.
pub struct SessionStream {
    state: SessionState,
    attached: bool,
}

/// What a stream stands for.
pub struct StreamView {
    pub state: SessionView,
    pub attached: bool,
}

impl View for SessionStream {
    type V = StreamView;

    closed spec fn view(&self) -> StreamView {
        StreamView { state: self.state@, attached: self.attached }
    }
}

/// What happens to a stream.
pub enum StreamEvent {
    /// A subscriber got its replay and takes the place of the one before.
    Attach,
    /// The subscriber leaves at the time `now`.
    Detach { now: u64 },
    /// The shell produced output.
    Data { bytes: Seq<u8> },
    /// A message could not be delivered to the subscriber at the time `now`.
    Lost { now: u64 },
    /// The shell ended.
    Eof { code: Option<i32> },
    /// The session is dropped.
    Closed,
}

impl StreamView {
    /// The message that a new subscriber gets first: the retained output from
    /// `from` on, if there is any.
    pub open spec fn replay(self, from: int) -> Option<SubMsgView> {
        if self.state.replay(from).len() > 0 {
            Some(
                SubMsgView::Out {
                    from: self.state.replay_start(from),
                    data: self.state.replay(from),
                },
            )
        } else {
            None
        }
    }

    /// The state without a subscriber. One that had a subscriber until now is left
    /// alone from the time `now` on.
    pub open spec fn left(self, now: u64) -> StreamView {
        StreamView {
            state: SessionView {
                detached_at: if self.attached {
                    Some(now)
                } else {
                    self.state.detached_at
                },
                ..self.state
            },
            attached: false,
        }
    }

    /// The state after an event.
    pub open spec fn after(self, e: StreamEvent) -> StreamView {
        match e {
            StreamEvent::Attach => StreamView {
                state: SessionView { detached_at: None, ..self.state },
                attached: true,
            },
            StreamEvent::Detach { now } => self.left(now),
            StreamEvent::Data { bytes } => StreamView { state: self.state.pushed(bytes), ..self },
            StreamEvent::Lost { now } => self.left(now),
            StreamEvent::Eof { code } => StreamView {
                state: SessionView {
                    exited: true,
                    exit_code: code,
                    detached_at: None,
                    ..self.state
                },
                attached: false,
            },
            StreamEvent::Closed => StreamView { attached: false, ..self },
        }
    }

    /// What the subscriber is sent on an event.
    pub open spec fn sent(self, e: StreamEvent) -> Option<SubMsgView> {
        match e {
            StreamEvent::Data { bytes } => if self.attached {
                Some(SubMsgView::Out { from: self.state.total, data: bytes })
            } else {
                None
            },
            StreamEvent::Eof { code } => if self.attached {
                Some(SubMsgView::Exit { code })
            } else {
                None
            },
            StreamEvent::Closed => if self.attached && !self.state.exited {
                Some(SubMsgView::Exit { code: None })
            } else {
                None
            },
            _ => None,
        }
    }
}

impl SessionStream {
    /// The stream of a session that was started at the time `now`.
    pub fn new(now: u64) -> (r: Self)
        ensures
            r@.state == (SessionView {
                exited: false,
                exit_code: None,
                total: 0,
                detached_at: Some(now),
                ring: seq![],
                ring_start: 0,
            }),
            !r@.attached,
            r@.state.wf(),
    {
        let mut state = SessionState::new();
        state.set_detached_at(Some(now));
        SessionStream { state, attached: false }
    }

    /// What is known of the session.
    pub fn state(&self) -> (r: &SessionState)
        ensures
            r@ == self@.state,
    {
        &self.state
    }

    /// Whether somebody is subscribed.
    pub fn attached(&self) -> (r: bool)
        ensures
            r == self@.attached,
    {
        self.attached
    }

    /// The message that a subscriber gets before it is attached.
    pub fn replay(&self, from: u64) -> (r: Option<SubMsg>)
        requires
            self@.state.wf(),
        ensures
            msg_view(r) == self@.replay(from as int),
    {
        let (start, bytes) = self.state.replay_from(from);
        if bytes.len() == 0 {
            None
        } else {
            Some(SubMsg::Out { from: start, data: bytes })
        }
    }

    /// Attaches a subscriber whose replay, if there was one, got through.
    pub fn attach(&mut self)
        ensures
            final(self)@ == old(self)@.after(StreamEvent::Attach),
    {
        self.state.set_detached_at(None);
        self.attached = true;
    }

    /// Detaches the subscriber. The session goes on.
    pub fn detach(&mut self, now: u64)
        ensures
            final(self)@ == old(self)@.after(StreamEvent::Detach { now }),
    {
        if self.attached {
            self.attached = false;
            self.state.set_detached_at(Some(now));
        }
    }

    /// Takes in output and gives the message for the subscriber, if there is
    /// one.
    pub fn data(&mut self, bytes: Vec<u8>) -> (r: Option<SubMsg>)
        requires
            old(self)@.state.wf(),
            old(self)@.state.total + bytes@.len() <= u64::MAX,
        ensures
            final(self)@.state.wf(),
            final(self)@ == old(self)@.after(StreamEvent::Data { bytes: bytes@ }),
            msg_view(r) == old(self)@.sent(StreamEvent::Data { bytes: bytes@ }),
    {
        let from = self.state.total();
        self.state.push(bytes.as_slice());
        if self.attached {
            Some(SubMsg::Out { from, data: bytes })
        } else {
            None
        }
    }

    /// Notes that a message could not be delivered.
    pub fn lost(&mut self, now: u64)
        ensures
            final(self)@ == old(self)@.after(StreamEvent::Lost { now }),
    {
        self.detach(now);
    }

    /// Notes that the shell ended and gives the message for the subscriber, if
    /// there is one.
    pub fn eof(&mut self, code: Option<i32>) -> (r: Option<SubMsg>)
        ensures
            final(self)@ == old(self)@.after(StreamEvent::Eof { code }),
            msg_view(r) == old(self)@.sent(StreamEvent::Eof { code }),
    {
        self.state.set_exited(code);
        if self.attached {
            self.attached = false;
            Some(SubMsg::Exit { code })
        } else {
            None
        }
    }

    /// Ends the stream: a subscriber that was not told of an exit is told now.
    pub fn close(&mut self) -> (r: Option<SubMsg>)
        ensures
            final(self)@ == old(self)@.after(StreamEvent::Closed),
            msg_view(r) == old(self)@.sent(StreamEvent::Closed),
    {
        if self.attached {
            self.attached = false;
            if !self.state.exited() {
                return Some(SubMsg::Exit { code: None });
            }
        }
        None
    }
}

// ---------------------------------------------------------------------------
// What a subscriber sees
// ---------------------------------------------------------------------------

/// Tells whether the messages are output only, one chunk right after another,
/// that starts at the offset `start` and reads `text` in all.
pub open spec fn spells(msgs: Seq<SubMsgView>, start: int, text: Seq<u8>) -> bool
    decreases msgs.len(),
{
    if msgs.len() == 0 {
        text.len() == 0
    } else {
        match msgs.last() {
            SubMsgView::Out { from, data } => {
                let n = text.len() - data.len();
                &&& n >= 0
                &&& from == start + n
                &&& text.skip(n) == data
                &&& spells(msgs.drop_last(), start, text.take(n))
            },
            SubMsgView::Exit { .. } => false,
        }
    }
}

/// The bytes of several chunks.
pub open spec fn joined(chunks: Seq<Seq<u8>>) -> Seq<u8>
    decreases chunks.len(),
{
    if chunks.len() == 0 {
        seq![]
    } else {
        joined(chunks.drop_last()) + chunks.last()
    }
}

/// The stream after the shell produced several chunks.
pub open spec fn fed(v: StreamView, chunks: Seq<Seq<u8>>) -> StreamView
    decreases chunks.len(),
{
    if chunks.len() == 0 {
        v
    } else {
        fed(v, chunks.drop_last()).after(StreamEvent::Data { bytes: chunks.last() })
    }
}

/// What is sent while the shell produces several chunks.
pub open spec fn sent_while_fed(v: StreamView, chunks: Seq<Seq<u8>>) -> Seq<SubMsgView>
    decreases chunks.len(),
{
    if chunks.len() == 0 {
        seq![]
    } else {
        let front = chunks.drop_last();
        match fed(v, front).sent(StreamEvent::Data { bytes: chunks.last() }) {
            Some(m) => sent_while_fed(v, front).push(m),
            None => sent_while_fed(v, front),
        }
    }
}

/// All that a subscriber is sent that attaches with `from` and then sees the
/// shell produce several chunks.
pub open spec fn seen(v: StreamView, from: int, chunks: Seq<Seq<u8>>) -> Seq<SubMsgView> {
    let first = match v.replay(from) {
        Some(m) => seq![m],
        None => seq![],
    };
    first + sent_while_fed(v.after(StreamEvent::Attach), chunks)
}

/// A subscriber that attaches at an offset that is not past the end sees every
/// byte from there on that was still retained, and every byte that is produced
/// afterwards, each once, in order and under its right offset.
#[verifier::spinoff_prover]
#[verifier::rlimit(40)]
pub proof fn subscriber_sees_everything(
    v: StreamView,
    history: Seq<u8>,
    from: int,
    chunks: Seq<Seq<u8>>,
)
    requires
        v.state.wf(),
        v.state.retains(history),
        0 <= from <= history.len(),
    ensures
        spells(
            seen(v, from, chunks),
            v.state.replay_start(from),
            (history + joined(chunks)).skip(v.state.replay_start(from)),
        ),
        fed(v.after(StreamEvent::Attach), chunks).attached,
        fed(v.after(StreamEvent::Attach), chunks).state.wf(),
        fed(v.after(StreamEvent::Attach), chunks).state.retains(history + joined(chunks)),
    decreases chunks.len(),
{
    let start = v.state.replay_start(from);
    let a = v.after(StreamEvent::Attach);
    let all = history + joined(chunks);
    if chunks.len() == 0 {
        assert(all =~= history);
        assert(v.state.replay(from) =~= history.skip(start));
        assert(seen(v, from, chunks) =~= match v.replay(from) {
            Some(m) => seq![m],
            None => seq![],
        });
        if v.replay(from) is Some {
            let msgs = seen(v, from, chunks);
            assert(msgs.drop_last() =~= seq![]);
            assert(history.skip(start).skip(0) =~= history.skip(start));
            assert(history.skip(start).take(0) =~= seq![]);
            assert(spells(seq![], start, seq![]));
            assert(spells(msgs, start, history.skip(start)));
        }
    } else {
        let front = chunks.drop_last();
        let bytes = chunks.last();
        subscriber_sees_everything(v, history, from, front);
        let w = fed(a, front);
        let old = history + joined(front);
        let m = SubMsgView::Out { from: w.state.total, data: bytes };
        assert(all =~= old + bytes);
        assert(seen(v, from, chunks) =~= seen(v, from, front).push(m));
        let text = all.skip(start);
        assert(start <= old.len());
        let n = text.len() - bytes.len();
        assert(text.skip(n) =~= bytes);
        assert(text.take(n) =~= old.skip(start));
        assert(seen(v, from, chunks).drop_last() =~= seen(v, from, front));
        assert(fed(a, chunks).state.ring =~= all.skip(fed(a, chunks).state.ring_start)) by {
            assert(w.state.ring =~= old.skip(w.state.ring_start));
        }
    }
}

/// The exit comes after all output of the session, and nothing comes after it:
/// the subscriber is told once, and is then detached.
pub proof fn exit_comes_last(v: StreamView, code: Option<i32>, later: Seq<Seq<u8>>)
    requires
        v.attached,
    ensures
        v.sent(StreamEvent::Eof { code }) == Some(SubMsgView::Exit { code }),
        !v.after(StreamEvent::Eof { code }).attached,
        sent_while_fed(v.after(StreamEvent::Eof { code }), later) == Seq::<SubMsgView>::empty(),
        v.after(StreamEvent::Eof { code }).sent(StreamEvent::Closed) is None,
        v.after(StreamEvent::Eof { code }).sent(StreamEvent::Eof { code }) is None,
{
    silent_when_detached(v.after(StreamEvent::Eof { code }), later);
}

/// A session without a subscriber goes on and sends nothing.
pub proof fn silent_when_detached(v: StreamView, chunks: Seq<Seq<u8>>)
    requires
        !v.attached,
    ensures
        sent_while_fed(v, chunks) == Seq::<SubMsgView>::empty(),
        !fed(v, chunks).attached,
        fed(v, chunks).state.total == v.state.total + joined(chunks).len(),
    decreases chunks.len(),
{
    if chunks.len() > 0 {
        silent_when_detached(v, chunks.drop_last());
    }
}

/// Nothing that a session produced while its subscriber was away is lost, as
/// long as it is no more than the session retains: who comes back at the
/// offset at which it left sees all of it.
pub proof fn nothing_missed_while_away(
    v: StreamView,
    history: Seq<u8>,
    now: u64,
    missed: Seq<Seq<u8>>,
)
    requires
        v.state.wf(),
        v.state.retains(history),
        joined(missed).len() <= crate::pty::session::RING_CAP,
    ensures
        ({
            let away = fed(v.after(StreamEvent::Detach { now }), missed);
            &&& away.state.wf()
            &&& away.state.retains(history + joined(missed))
            &&& away.state.replay_start(history.len() as int) == history.len()
            &&& away.state.replay(history.len() as int) == joined(missed)
        }),
{
    let d = v.after(StreamEvent::Detach { now });
    fed_retains(d, history, missed);
    let away = fed(d, missed);
    let all = history + joined(missed);
    assert(away.state.replay(history.len() as int) =~= joined(missed)) by {
        assert(away.state.ring =~= all.skip(away.state.ring_start));
    }
}

proof fn fed_retains(v: StreamView, history: Seq<u8>, chunks: Seq<Seq<u8>>)
    requires
        v.state.wf(),
        v.state.retains(history),
    ensures
        fed(v, chunks).state.wf(),
        fed(v, chunks).state.retains(history + joined(chunks)),
    decreases chunks.len(),
{
    if chunks.len() == 0 {
        assert(history + joined(chunks) =~= history);
    } else {
        let front = chunks.drop_last();
        fed_retains(v, history, front);
        let w = fed(v, front);
        let old = history + joined(front);
        let all = history + joined(chunks);
        assert(all =~= old + chunks.last());
        assert(fed(v, chunks).state.ring =~= all.skip(fed(v, chunks).state.ring_start)) by {
            assert(w.state.ring =~= old.skip(w.state.ring_start));
        }
    }
}

/// What happens to a stream changes only what it is about: a subscriber that comes ends the time
/// alone, one that leaves begins it, output changes nothing but what is retained, and the end is
/// noted with its code.
pub proof fn events_change_what_they_are_about(
    v: StreamView,
    bytes: Seq<u8>,
    code: Option<i32>,
    now: u64,
)
    ensures
        ({
            let came = v.after(StreamEvent::Attach);
            let left = v.after(StreamEvent::Detach { now });
            let ended = v.after(StreamEvent::Eof { code });
            let went_on = v.after(StreamEvent::Data { bytes });
            &&& came.attached && came.state.detached_at is None
            &&& came.state.ring == v.state.ring && came.state.total == v.state.total
            &&& !left.attached
            &&& v.attached ==> left.state.detached_at == Some(now)
            &&& !v.attached ==> left.state.detached_at == v.state.detached_at
            &&& left.state.ring == v.state.ring && left.state.exited == v.state.exited
            &&& ended.state.exited && ended.state.exit_code == code && !ended.attached
            &&& ended.state.ring == v.state.ring && ended.state.total == v.state.total
            &&& went_on.attached == v.attached && went_on.state.detached_at
                == v.state.detached_at
            &&& went_on.state.total == v.state.total + bytes.len()
        }),
        v.after(StreamEvent::Lost { now }) == v.after(StreamEvent::Detach { now }),
{
}

/// A subscriber is sent the output as it is, under its right offset, and of a session that is
/// dropped before its end that it has ended, without a code.
pub proof fn subscribers_are_told_what_happens(v: StreamView, bytes: Seq<u8>, code: Option<i32>)
    requires
        v.attached,
    ensures
        v.sent(StreamEvent::Data { bytes }) == Some(
            SubMsgView::Out { from: v.state.total, data: bytes },
        ),
        v.sent(StreamEvent::Eof { code }) == Some(SubMsgView::Exit { code }),
        !v.state.exited ==> v.sent(StreamEvent::Closed) == Some(SubMsgView::Exit { code: None }),
        v.state.exited ==> v.sent(StreamEvent::Closed) is None,
{
}

} // verus!
