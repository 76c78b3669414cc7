//! The output that a terminal session retains.

use std::collections::VecDeque;

use vstd::prelude::*;

verus! {

/// Most bytes of recent output that a session retains, so that a client that
/// comes back can replay the tail of its scrollback.
pub const RING_CAP: usize = 262144;

/// What a client learns when it attaches to a session.
#[derive(Debug, Clone, Copy, PartialEq, Eq, Structural)]
pub struct AttachInfo {
    pub pid: u32,
    /// The offset from which the client resumes, raised to the oldest retained
    /// byte when it asked for bytes that are gone.
    pub from: u64,
    /// The offset just past the newest byte produced so far.
    pub end: u64,
    /// Whether bytes that the client asked for are gone.
    pub truncated: bool,
}

/// What is known of a session: whether it ended, and the tail of its output.
pub struct SessionState {
    exited: bool,
    exit_code: Option<i32>,
    total: u64,
    detached_at: Option<u64>,
    ring: VecDeque<u8>,
    ring_start: u64,
}

/// What a session's state stands for.
pub struct SessionView {
    pub exited: bool,
    pub exit_code: Option<i32>,
    /// How many bytes the session ever produced: the offset of the next one.
    pub total: int,
    /// Since when the session has had no subscriber, in milliseconds on the
    /// server's clock; `None` while one is attached.
    pub detached_at: Option<u64>,
    /// The retained bytes, oldest first.
    pub ring: Seq<u8>,
    /// The offset of the oldest retained byte.
    pub ring_start: int,
}

impl View for SessionState {
    type V = SessionView;

    closed spec fn view(&self) -> SessionView {
        SessionView {
            exited: self.exited,
            exit_code: self.exit_code,
            total: self.total as int,
            detached_at: self.detached_at,
            ring: self.ring@,
            ring_start: self.ring_start as int,
        }
    }
}

impl SessionView {
    /// The ring ends where the output ends, holds at most `RING_CAP` bytes, and
    /// drops bytes only when it is full.
    pub open spec fn wf(self) -> bool {
        &&& self.ring_start >= 0
        &&& self.ring_start + self.ring.len() == self.total
        &&& self.ring.len() <= RING_CAP
        &&& self.ring_start > 0 ==> self.ring.len() == RING_CAP
    }

    /// Tells whether the ring holds the tail of `history`, the bytes that the
    /// session ever produced.
    pub open spec fn retains(self, history: Seq<u8>) -> bool {
        &&& self.total == history.len()
        &&& 0 <= self.ring_start <= history.len()
        &&& self.ring == history.skip(self.ring_start)
    }

    /// The state after the session produced `bytes`.
    pub open spec fn pushed(self, bytes: Seq<u8>) -> SessionView {
        let all = self.ring + bytes;
        let drop = if all.len() > RING_CAP {
            all.len() - RING_CAP
        } else {
            0
        };
        SessionView {
            total: self.total + bytes.len(),
            ring: all.skip(drop),
            ring_start: self.ring_start + drop,
            ..self
        }
    }

    /// Where a replay asked for from `from` starts.
    pub open spec fn replay_start(self, from: int) -> int {
        if from > self.ring_start {
            from
        } else {
            self.ring_start
        }
    }

    /// The retained bytes from the offset `from` on.
    pub open spec fn replay(self, from: int) -> Seq<u8> {
        let skip = self.replay_start(from) - self.ring_start;
        if skip <= self.ring.len() {
            self.ring.skip(skip)
        } else {
            seq![]
        }
    }
}

impl SessionState {
    /// A session that has produced nothing yet.
    pub fn new() -> (r: Self)
        ensures
            r@ == (SessionView {
                exited: false,
                exit_code: None,
                total: 0,
                detached_at: None,
                ring: seq![],
                ring_start: 0,
            }),
            r@.wf(),
            r@.retains(seq![]),
    {
        let r = SessionState {
            exited: false,
            exit_code: None,
            total: 0,
            detached_at: None,
            ring: VecDeque::new(),
            ring_start: 0,
        };
        assert(r.ring@ =~= seq![]);
        assert(Seq::<u8>::empty().skip(0) =~= seq![]);
        r
    }

    /// Whether the session has ended.
    pub fn exited(&self) -> (r: bool)
        ensures
            r == self@.exited,
    {
        self.exited
    }

    /// The exit code of the session's shell, when it is known.
    pub fn exit_code(&self) -> (r: Option<i32>)
        ensures
            r == self@.exit_code,
    {
        self.exit_code
    }

    /// How many bytes the session ever produced.
    pub fn total(&self) -> (r: u64)
        ensures
            r == self@.total,
    {
        self.total
    }

    /// Since when the session has had no subscriber.
    pub fn detached_at(&self) -> (r: Option<u64>)
        ensures
            r == self@.detached_at,
    {
        self.detached_at
    }

    /// Notes that the session has ended.
    pub fn set_exited(&mut self, code: Option<i32>)
        ensures
            final(self)@ == (SessionView {
                exited: true,
                exit_code: code,
                detached_at: None,
                ..old(self)@
            }),
    {
        self.exited = true;
        self.exit_code = code;
        self.detached_at = None;
    }

    /// Notes since when the session has had no subscriber, or that it has one.
    pub fn set_detached_at(&mut self, at: Option<u64>)
        ensures
            final(self)@ == (SessionView { detached_at: at, ..old(self)@ }),
    {
        self.detached_at = at;
    }

    /// Takes in output: the ring grows by `bytes` and drops its oldest bytes
    /// when it is full.
    pub fn push(&mut self, bytes: &[u8])
        requires
            old(self)@.wf(),
            old(self)@.total + bytes@.len() <= u64::MAX,
        ensures
            final(self)@.wf(),
            final(self)@ == old(self)@.pushed(bytes@),
            forall|history: Seq<u8>|
                old(self)@.retains(history) ==> #[trigger] final(self)@.retains(history + bytes@),
    {
        let ghost before = self@;
        let ghost all = self.ring@ + bytes@;
        let mut i: usize = 0;
        while i < bytes.len()
            invariant
                i <= bytes@.len(),
                self.ring@ == before.ring + bytes@.take(i as int),
                self.ring_start == before.ring_start,
                self.total == before.total,
                self.exited == before.exited,
                self.exit_code == before.exit_code,
                self.detached_at == before.detached_at,
            decreases bytes@.len() - i,
        {
            self.ring.push_back(bytes[i]);
            assert(self.ring@ =~= before.ring + bytes@.take(i + 1));
            i += 1;
        }
        assert(bytes@.take(bytes@.len() as int) =~= bytes@);
        assert(self.ring@ == all);
        let ghost mut dropped: int = 0;
        assert(all.skip(0) =~= all);
        while self.ring.len() > RING_CAP
            invariant
                0 <= dropped <= all.len(),
                self.ring@ == all.skip(dropped),
                dropped > 0 ==> self.ring@.len() >= RING_CAP,
                self.ring_start == before.ring_start + dropped,
                before.ring_start + all.len() <= u64::MAX,
                self.total == before.total,
                self.exited == before.exited,
                self.exit_code == before.exit_code,
                self.detached_at == before.detached_at,
            decreases self.ring@.len(),
        {
            let _ = self.ring.pop_front();
            self.ring_start += 1;
            proof {
                dropped = dropped + 1;
                assert(all.skip(dropped - 1).drop_first() =~= all.skip(dropped));
                assert(self.ring@ =~= all.skip(dropped));
            }
        }
        self.total += bytes.len() as u64;
        assert(self@.ring =~= before.pushed(bytes@).ring);
        assert(self@ == before.pushed(bytes@));
        assert forall|history: Seq<u8>| before.retains(history) implies #[trigger] self@.retains(
            history + bytes@,
        ) by {
            assert(self@.ring =~= (history + bytes@).skip(self@.ring_start));
        }
    }

    /// The offset of the oldest retained byte.
    pub fn ring_start(&self) -> (r: u64)
        ensures
            r == self@.ring_start,
    {
        self.ring_start
    }

    /// Copies the retained bytes from the offset `from` on, and tells at which
    /// offset they start.
    pub fn replay_from(&self, from: u64) -> (r: (u64, Vec<u8>))
        requires
            self@.wf(),
        ensures
            r.0 == self@.replay_start(from as int),
            r.1@ == self@.replay(from as int),
    {
        let start: u64 = if from > self.ring_start {
            from
        } else {
            self.ring_start
        };
        let gap: u64 = start - self.ring_start;
        let mut out: Vec<u8> = Vec::new();
        if gap > self.ring.len() as u64 {
            return (start, out);
        }
        let skip: usize = gap as usize;
        let mut i: usize = skip;
        while i < self.ring.len()
            invariant
                skip <= i <= self.ring@.len(),
                out@ == self.ring@.subrange(skip as int, i as int),
            decreases self.ring@.len() - i,
        {
            out.push(self.ring[i]);
            assert(out@ =~= self.ring@.subrange(skip as int, i + 1));
            i += 1;
        }
        assert(out@ =~= self.ring@.skip(skip as int));
        (start, out)
    }

    /// What a client that asks for the output from `from` on is told.
    pub fn attach_info(&self, pid: u32, from: Option<u64>) -> (r: AttachInfo)
        ensures
            r.pid == pid,
            r.end == self@.total,
            match from {
                Some(f) => r.from == self@.replay_start(f as int) && (r.truncated <==> f
                    < self@.ring_start),
                None => r.from == self@.ring_start && !r.truncated,
            },
    {
        match from {
            Some(f) => AttachInfo {
                pid,
                from: if f > self.ring_start {
                    f
                } else {
                    self.ring_start
                },
                end: self.total,
                truncated: f < self.ring_start,
            },
            None => AttachInfo { pid, from: self.ring_start, end: self.total, truncated: false },
        }
    }
}

/// Whatever a session has produced, a replay from an offset that is not past
/// its end gives just the bytes from there on that are still retained.
pub proof fn replay_is_the_tail(v: SessionView, history: Seq<u8>, from: int)
    requires
        v.wf(),
        v.retains(history),
        0 <= from <= history.len(),
    ensures
        v.replay_start(from) + v.replay(from).len() == history.len(),
        v.replay(from) == history.skip(v.replay_start(from)),
        history.len() <= RING_CAP ==> v.replay_start(from) == from,
{
    assert(v.replay(from) =~= history.skip(v.replay_start(from)));
}

/// A session never loses any of its last `RING_CAP` bytes.
pub proof fn ring_holds_the_last_bytes(v: SessionView, history: Seq<u8>)
    requires
        v.wf(),
        v.retains(history),
    ensures
        v.ring == history.skip(
            if history.len() > RING_CAP {
                history.len() - RING_CAP
            } else {
                0
            },
        ),
{
}

/// Output may come in one chunk or in two: the state is the same.
pub proof fn pushes_join(v: SessionView, a: Seq<u8>, b: Seq<u8>)
    requires
        v.wf(),
    ensures
        v.pushed(a).wf(),
        v.pushed(a).pushed(b) == v.pushed(a + b),
{
    assert(v.pushed(a).pushed(b).ring =~= v.pushed(a + b).ring);
}

/// A session retains its last 256 KiB: all that it produced so long as that is no more, and of
/// more just the end.
pub proof fn sessions_retain_their_end(v: SessionView, bytes: Seq<u8>)
    requires
        v.wf(),
    ensures
        v.pushed(bytes).total == v.total + bytes.len(),
        v.pushed(bytes).exited == v.exited,
        v.pushed(bytes).exit_code == v.exit_code,
        v.pushed(bytes).detached_at == v.detached_at,
        v.ring.len() + bytes.len() <= 262_144 ==> v.pushed(bytes).ring == v.ring + bytes,
        v.ring.len() + bytes.len() > 262_144 ==> v.pushed(bytes).ring.len() == 262_144 && (v.ring
            + bytes).skip(v.ring.len() + bytes.len() - 262_144) == v.pushed(bytes).ring,
{
    if v.ring.len() + bytes.len() <= 262_144 {
        assert(v.pushed(bytes).ring =~= v.ring + bytes);
    }
}

/// A replay begins where it is asked for, or where the retained output begins, whichever is
/// later, and brings all that follows.
pub proof fn replays_begin_where_they_can(v: SessionView, from: int)
    requires
        v.wf(),
    ensures
        from >= v.ring_start ==> v.replay_start(from) == from,
        from < v.ring_start ==> v.replay_start(from) == v.ring_start,
        v.replay_start(from) <= v.total ==> v.replay(from).len() == v.total - v.replay_start(from),
        v.replay_start(from) > v.total ==> v.replay(from).len() == 0,
{
}

} // verus!
