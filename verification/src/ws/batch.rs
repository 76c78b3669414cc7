//! How output is gathered into frames on its way to a client.

use vstd::prelude::*;

verus! {

/// A batch is split into frames of at most this many bytes.
pub const FRAME_MAX: usize = 131072;

/// For how long output is held back while more of it comes, in nanoseconds.
pub const BATCH_WINDOW: u64 = 20_000_000;

/// A client to which nothing was sent for this long gets the next output at
/// once, in nanoseconds.
pub const IDLE_RESET: u64 = 100_000_000;

/// A run of output that is sent as one frame.
#[derive(Debug, PartialEq)]
pub struct Frame {
    pub from: u64,
    pub data: Vec<u8>,
}

/// What a frame stands for: the offset of its first byte, and its bytes.
pub type FrameView = (int, Seq<u8>);

impl View for Frame {
    type V = FrameView;

    open spec fn view(&self) -> FrameView {
        (self.from as int, self.data@)
    }
}

/// The views of a list of frames.
pub open spec fn frame_views(v: Seq<Frame>) -> Seq<FrameView> {
    Seq::new(v.len(), |i: int| v[i]@)
}

/// The frames into which a run of output is split: each but the last as large as
/// a frame can be.
pub open spec fn split_frames(from: int, bytes: Seq<u8>) -> Seq<FrameView>
    decreases bytes.len(),
{
    if bytes.len() == 0 {
        Seq::empty()
    } else if bytes.len() <= FRAME_MAX {
        seq![(from, bytes)]
    } else {
        seq![(from, bytes.take(FRAME_MAX as int))] + split_frames(
            from + FRAME_MAX,
            bytes.skip(FRAME_MAX as int),
        )
    }
}

/// The output that is gathered for a client.
pub struct Batch {
    pending: Vec<u8>,
    pending_from: u64,
    flush_at: Option<u64>,
    last_flush: u64,
}

/// What a batch stands for.
pub struct BatchView {
    /// The output that is held back.
    pub pending: Seq<u8>,
    /// The offset of its first byte.
    pub from: int,
    /// When it has to be sent.
    pub flush_at: Option<u64>,
    /// When something was last sent.
    pub last_flush: u64,
}

/// What happens to the output of a session on its way to a client.
pub enum BatchEvent {
    /// The session has output.
    Out { from: int, data: Seq<u8>, now: u64 },
    /// The output that is held back has to be sent, or nothing more will come.
    Flush { now: u64 },
}

impl View for Batch {
    type V = BatchView;

    closed spec fn view(&self) -> BatchView {
        BatchView {
            pending: self.pending@,
            from: self.pending_from as int,
            flush_at: self.flush_at,
            last_flush: self.last_flush,
        }
    }
}

/// For how long nothing was sent.
pub open spec fn quiet_for(last_flush: u64, now: u64) -> int {
    if now >= last_flush {
        now - last_flush
    } else {
        0
    }
}

impl BatchView {
    /// A batch that begins at a time: its first output is sent at once.
    pub open spec fn start(now: u64) -> BatchView {
        BatchView {
            pending: Seq::empty(),
            from: 0,
            flush_at: None,
            last_flush: if now >= IDLE_RESET {
                (now - IDLE_RESET) as u64
            } else {
                now
            },
        }
    }

    /// The batch with everything sent.
    pub open spec fn flushed(self, now: u64) -> BatchView {
        BatchView {
            pending: Seq::empty(),
            from: self.from,
            flush_at: None,
            last_flush: if self.pending.len() == 0 {
                self.last_flush
            } else {
                now
            },
        }
    }

    /// The batch with more output held back.
    pub open spec fn gathered(self, from: int, data: Seq<u8>) -> BatchView {
        BatchView {
            pending: self.pending + data,
            from: if self.pending.len() == 0 {
                from
            } else {
                self.from
            },
            flush_at: self.flush_at,
            last_flush: self.last_flush,
        }
    }

    /// Tells whether the offsets leave room for so much more output.
    pub open spec fn takes(self, from: int, n: int) -> bool {
        if self.pending.len() == 0 {
            from + n <= u64::MAX
        } else {
            self.from + self.pending.len() + n <= u64::MAX
        }
    }

    /// Tells whether output that arrives is sent at once: it fills a frame, or
    /// nothing is held back and the client has been quiet.
    pub open spec fn sends_now(self, data: Seq<u8>, now: u64) -> bool {
        ||| self.pending.len() + data.len() >= FRAME_MAX
        ||| self.pending.len() == 0 && quiet_for(self.last_flush, now) >= IDLE_RESET
    }

    /// The batch after an event.
    pub open spec fn after(self, event: BatchEvent) -> BatchView {
        match event {
            BatchEvent::Out { from, data, now } => {
                let g = self.gathered(from, data);
                if self.sends_now(data, now) {
                    g.flushed(now)
                } else if g.flush_at is None {
                    BatchView {
                        flush_at: Some(
                            if now + BATCH_WINDOW <= u64::MAX {
                                (now + BATCH_WINDOW) as u64
                            } else {
                                u64::MAX
                            },
                        ),
                        ..g
                    }
                } else {
                    g
                }
            },
            BatchEvent::Flush { now } => self.flushed(now),
        }
    }

    /// The frames that an event sends.
    pub open spec fn sent(self, event: BatchEvent) -> Seq<FrameView> {
        match event {
            BatchEvent::Out { from, data, now } => {
                let g = self.gathered(from, data);
                if self.sends_now(data, now) {
                    split_frames(g.from, g.pending)
                } else {
                    Seq::empty()
                }
            },
            BatchEvent::Flush { now } => split_frames(self.from, self.pending),
        }
    }
}

/// Splits a run of output into frames.
fn split_run(from: u64, bytes: Vec<u8>) -> (r: Vec<Frame>)
    requires
        from + bytes@.len() <= u64::MAX,
    ensures
        frame_views(r@) == split_frames(from as int, bytes@),
{
    let mut out: Vec<Frame> = Vec::new();
    let mut at: usize = 0;
    let total: usize = bytes.len();
    assert(bytes@.skip(0) =~= bytes@);
    assert(frame_views(out@) =~= Seq::empty());
    assert(frame_views(out@) + split_frames(from as int, bytes@) =~= split_frames(
        from as int,
        bytes@,
    ));
    while at < total
        invariant
            at <= total,
            total == bytes@.len(),
            from + bytes@.len() <= u64::MAX,
            frame_views(out@) + split_frames(from + at, bytes@.skip(at as int)) == split_frames(
                from as int,
                bytes@,
            ),
        decreases total - at,
    {
        let n: usize = if total - at <= FRAME_MAX {
            total - at
        } else {
            FRAME_MAX
        };
        let piece = vstd::slice::slice_subrange(bytes.as_slice(), at, at + n);
        let mut data: Vec<u8> = Vec::new();
        data.extend_from_slice(piece);
        let f = Frame { from: from + at as u64, data };
        let ghost before = frame_views(out@);
        let ghost rest = bytes@.skip(at as int);
        assert(rest.take(n as int) =~= data@);
        assert(rest.skip(n as int) =~= bytes@.skip(at + n));
        proof {
            if rest.len() <= FRAME_MAX {
                assert(rest =~= data@);
                assert(rest.skip(n as int).len() == 0);
            }
        }
        assert(split_frames(from + at, rest) =~= seq![f@] + split_frames(
            from + at + n,
            rest.skip(n as int),
        ));
        out.push(f);
        assert(frame_views(out@) =~= before.push(f@));
        assert(before + (seq![f@] + split_frames(from + at + n, rest.skip(n as int))) =~= (
        before.push(f@)) + split_frames(from + at + n, rest.skip(n as int)));
        at += n;
    }
    assert(bytes@.skip(at as int).len() == 0);
    assert(frame_views(out@) + split_frames(from + at, bytes@.skip(at as int)) =~= frame_views(
        out@,
    ));
    out
}

impl Batch {
    /// What is held back fits below the largest offset.
    pub closed spec fn wf(&self) -> bool {
        self.pending_from + self.pending@.len() <= u64::MAX
    }

    /// A batch that begins now.
    pub fn new(now: u64) -> (r: Self)
        ensures
            r.wf(),
            r@ == BatchView::start(now),
    {
        let r = Batch {
            pending: Vec::new(),
            pending_from: 0,
            flush_at: None,
            last_flush: if now >= IDLE_RESET {
                now - IDLE_RESET
            } else {
                now
            },
        };
        assert(r@.pending =~= Seq::empty());
        r
    }

    /// For how long the next output may be waited for, when something is held
    /// back.
    pub fn remaining(&self, now: u64) -> (r: Option<u64>)
        ensures
            r == match self@.flush_at {
                Some(t) => Some(
                    if t >= now {
                        (t - now) as u64
                    } else {
                        0
                    },
                ),
                None => None,
            },
    {
        match self.flush_at {
            Some(t) => if t >= now {
                Some(t - now)
            } else {
                Some(0)
            },
            None => None,
        }
    }

    /// Tells whether the offsets leave room for so much more output.
    pub fn takes(&self, from: u64, n: usize) -> (r: bool)
        requires
            self.wf(),
        ensures
            r == self@.takes(from as int, n as int),
    {
        if self.pending.len() == 0 {
            from <= u64::MAX - n as u64
        } else {
            self.pending_from + self.pending.len() as u64 <= u64::MAX - n as u64
        }
    }

    /// Sends what is held back.
    pub fn flush(&mut self, now: u64) -> (r: Vec<Frame>)
        requires
            old(self).wf(),
        ensures
            final(self).wf(),
            final(self)@ == old(self)@.after(BatchEvent::Flush { now }),
            frame_views(r@) == old(self)@.sent(BatchEvent::Flush { now }),
    {
        self.flush_at = None;
        if self.pending.len() == 0 {
            let none: Vec<Frame> = Vec::new();
            assert(frame_views(none@) =~= Seq::empty());
            assert(self@.pending =~= Seq::empty());
            return none;
        }
        let mut bytes: Vec<u8> = Vec::new();
        std::mem::swap(&mut bytes, &mut self.pending);
        self.last_flush = now;
        assert(self@.pending =~= Seq::empty());
        split_run(self.pending_from, bytes)
    }

    /// Takes in output of the session, and sends it when it is time to.
    pub fn out(&mut self, from: u64, data: &[u8], now: u64) -> (r: Vec<Frame>)
        requires
            old(self).wf(),
            old(self)@.takes(from as int, data@.len() as int),
        ensures
            final(self).wf(),
            final(self)@ == old(self)@.after(BatchEvent::Out { from: from as int, data: data@, now }),
            frame_views(r@) == old(self)@.sent(
                BatchEvent::Out { from: from as int, data: data@, now },
            ),
    {
        let quiet: u64 = if now >= self.last_flush {
            now - self.last_flush
        } else {
            0
        };
        let idle = self.pending.len() == 0 && quiet >= IDLE_RESET;
        let ghost before = self@;
        if self.pending.len() == 0 {
            self.pending_from = from;
            assert(before.pending + data@ =~= data@);
        }
        self.pending.extend_from_slice(data);
        assert(self@.pending =~= before.pending + data@);
        assert(self@ == before.gathered(from as int, data@));
        if self.pending.len() >= FRAME_MAX || idle {
            self.flush(now)
        } else {
            if self.flush_at.is_none() {
                self.flush_at = Some(
                    if now <= u64::MAX - BATCH_WINDOW {
                        now + BATCH_WINDOW
                    } else {
                        u64::MAX
                    },
                );
            }
            let none: Vec<Frame> = Vec::new();
            assert(frame_views(none@) =~= Seq::empty());
            none
        }
    }
}

/// Tells whether frames carry the bytes of `text`, which begins at an offset, in
/// order and without a gap, and each frame keeps the limit.
pub open spec fn carries(frames: Seq<FrameView>, start: int, text: Seq<u8>) -> bool
    decreases frames.len(),
{
    if frames.len() == 0 {
        text.len() == 0
    } else {
        let f = frames.last();
        let n = text.len() - f.1.len();
        &&& n >= 0
        &&& 0 < f.1.len() <= FRAME_MAX
        &&& f.0 == start + n
        &&& f.1 == text.skip(n)
        &&& carries(frames.drop_last(), start, text.take(n))
    }
}

/// Frames that follow on one another carry both texts.
proof fn lemma_carries_joins(
    a: Seq<FrameView>,
    b: Seq<FrameView>,
    start: int,
    s: Seq<u8>,
    t: Seq<u8>,
)
    requires
        carries(a, start, s),
        carries(b, start + s.len(), t),
    ensures
        carries(a + b, start, s + t),
    decreases b.len(),
{
    if b.len() == 0 {
        assert(a + b =~= a);
        assert(s + t =~= s);
    } else {
        let f = b.last();
        let n = t.len() - f.1.len();
        lemma_carries_joins(a, b.drop_last(), start, s, t.take(n));
        assert((a + b).drop_last() =~= a + b.drop_last());
        assert((s + t).take(s.len() + n) =~= s + t.take(n));
        assert((s + t).skip(s.len() + n) =~= t.skip(n));
    }
}

/// The frames of a run of output carry all of it, under the right offsets, and
/// none is larger than a frame can be.
pub proof fn frames_carry_the_run(from: int, bytes: Seq<u8>)
    ensures
        carries(split_frames(from, bytes), from, bytes),
    decreases bytes.len(),
{
    if bytes.len() == 0 {
    } else if bytes.len() <= FRAME_MAX {
        lemma_one_frame(from, bytes);
    } else {
        let head = bytes.take(FRAME_MAX as int);
        let tail = bytes.skip(FRAME_MAX as int);
        frames_carry_the_run(from + FRAME_MAX, tail);
        lemma_one_frame(from, head);
        lemma_carries_joins(
            seq![(from, head)],
            split_frames(from + FRAME_MAX, tail),
            from,
            head,
            tail,
        );
        assert(head + tail =~= bytes);
    }
}

/// One frame carries its bytes.
proof fn lemma_one_frame(from: int, bytes: Seq<u8>)
    requires
        0 < bytes.len() <= FRAME_MAX,
    ensures
        carries(seq![(from, bytes)], from, bytes),
{
    let frames = seq![(from, bytes)];
    assert(frames.drop_last() =~= Seq::<FrameView>::empty());
    assert(bytes.skip(0) =~= bytes);
    assert(bytes.take(0) =~= Seq::<u8>::empty());
    assert(carries(frames.drop_last(), from, bytes.take(0)));
}

/// The batch after several events.
pub open spec fn batched(v: BatchView, events: Seq<BatchEvent>) -> BatchView
    decreases events.len(),
{
    if events.len() == 0 {
        v
    } else {
        batched(v, events.drop_last()).after(events.last())
    }
}

/// The frames that several events send.
pub open spec fn all_sent(v: BatchView, events: Seq<BatchEvent>) -> Seq<FrameView>
    decreases events.len(),
{
    if events.len() == 0 {
        Seq::empty()
    } else {
        all_sent(v, events.drop_last()) + batched(v, events.drop_last()).sent(events.last())
    }
}

/// The output that several events bring, when each goes on where the last ended.
pub open spec fn produced(events: Seq<BatchEvent>) -> Seq<u8>
    decreases events.len(),
{
    if events.len() == 0 {
        Seq::empty()
    } else {
        match events.last() {
            BatchEvent::Out { from, data, now } => produced(events.drop_last()) + data,
            BatchEvent::Flush { now } => produced(events.drop_last()),
        }
    }
}

/// Tells whether the output that several events bring begins at an offset and
/// has no gap.
pub open spec fn gapless(events: Seq<BatchEvent>, start: int) -> bool
    decreases events.len(),
{
    if events.len() == 0 {
        true
    } else {
        &&& gapless(events.drop_last(), start)
        &&& match events.last() {
            BatchEvent::Out { from, data, now } => from == start + produced(
                events.drop_last(),
            ).len(),
            BatchEvent::Flush { now } => true,
        }
    }
}

/// Whatever the times are at which output arrives and is sent: the frames carry
/// the output byte for byte, in order and under the right offsets, up to what is
/// still held back.
pub proof fn output_arrives_in_order(now: u64, events: Seq<BatchEvent>, start: int)
    requires
        gapless(events, start),
    ensures
        ({
            let v = batched(BatchView::start(now), events);
            let text = produced(events);
            let n = text.len() - v.pending.len();
            &&& n >= 0
            &&& v.pending == text.skip(n)
            &&& v.pending.len() > 0 ==> v.from == start + n
            &&& carries(all_sent(BatchView::start(now), events), start, text.take(n))
        }),
    decreases events.len(),
{
    let s = BatchView::start(now);
    let v = batched(s, events);
    let text = produced(events);
    if events.len() == 0 {
        assert(text.skip(0) =~= v.pending);
    } else {
        let front = events.drop_last();
        let e = events.last();
        output_arrives_in_order(now, front, start);
        let w = batched(s, front);
        let told = produced(front);
        let n = told.len() - w.pending.len();
        match e {
            BatchEvent::Out { from, data, now: t } => {
                let g = w.gathered(from, data);
                assert(g.pending =~= text.skip(n));
                if g.pending.len() > 0 {
                    assert(g.from == start + n);
                }
                if w.sends_now(data, t) {
                    frames_carry_the_run(g.from, g.pending);
                    if g.pending.len() > 0 {
                        lemma_carries_joins(
                            all_sent(s, front),
                            w.sent(e),
                            start,
                            told.take(n),
                            g.pending,
                        );
                    } else {
                        assert(all_sent(s, events) =~= all_sent(s, front));
                        assert(told.take(n) + g.pending =~= told.take(n));
                    }
                    assert(told.take(n) + g.pending =~= text);
                    assert(text.take(text.len() as int) =~= text);
                    assert(v.pending =~= text.skip(text.len() as int));
                } else {
                    assert(all_sent(s, events) =~= all_sent(s, front));
                    assert(text.take(n) =~= told.take(n));
                }
            },
            BatchEvent::Flush { now: t } => {
                frames_carry_the_run(w.from, w.pending);
                if w.pending.len() > 0 {
                    lemma_carries_joins(
                        all_sent(s, front),
                        w.sent(e),
                        start,
                        told.take(n),
                        w.pending,
                    );
                } else {
                    assert(all_sent(s, events) =~= all_sent(s, front));
                    assert(told.take(n) + w.pending =~= told.take(n));
                }
                assert(told.take(n) + w.pending =~= text);
                assert(text.take(text.len() as int) =~= text);
                assert(v.pending =~= text.skip(text.len() as int));
            },
        }
    }
}

/// Once what is held back has been sent, as it is before a session's exit is
/// told, every byte of the session's output has travelled.
pub proof fn nothing_is_held_back_at_the_end(
    now: u64,
    events: Seq<BatchEvent>,
    start: int,
    end: u64,
)
    requires
        gapless(events, start),
    ensures
        carries(
            all_sent(BatchView::start(now), events.push(BatchEvent::Flush { now: end })),
            start,
            produced(events),
        ),
{
    let all = events.push(BatchEvent::Flush { now: end });
    assert(all.drop_last() =~= events);
    output_arrives_in_order(now, all, start);
    let v = batched(BatchView::start(now), all);
    assert(v.pending.len() == 0);
    assert(produced(all).take(produced(all).len() as int) =~= produced(events));
}

/// The output that comes after a pause is sent at once.
pub proof fn lone_output_is_not_held(v: BatchView, from: int, data: Seq<u8>, now: u64)
    requires
        v.pending.len() == 0,
        quiet_for(v.last_flush, now) >= IDLE_RESET,
    ensures
        v.after(BatchEvent::Out { from, data, now }).pending.len() == 0,
        carries(v.sent(BatchEvent::Out { from, data, now }), from, data),
{
    assert(v.pending + data =~= data);
    frames_carry_the_run(from, data);
}

/// Output is held back for 20 milliseconds at most, counted from the first of it, unless it
/// fills a frame of 128 KiB or comes after 100 milliseconds without any.
pub proof fn output_is_held_for_a_moment(v: BatchView, from: int, data: Seq<u8>, now: u64)
    requires
        v.last_flush <= now,
        now <= u64::MAX - 20_000_000,
    ensures
        ({
            let w = v.after(BatchEvent::Out { from, data, now });
            let full = v.pending.len() + data.len() >= 131_072;
            let rested = v.pending.len() == 0 && now - v.last_flush >= 100_000_000;
            &&& full || rested ==> w.pending.len() == 0 && w.flush_at is None
            &&& !full && !rested ==> {
                &&& w.pending == v.pending + data
                &&& w.last_flush == v.last_flush
                &&& v.sent(BatchEvent::Out { from, data, now }).len() == 0
                &&& v.flush_at is None ==> w.flush_at == Some((now + 20_000_000) as u64)
                &&& v.flush_at is Some ==> w.flush_at == v.flush_at
            }
            &&& v.pending.len() > 0 && !full ==> w.from == v.from
            &&& v.pending.len() == 0 && !full && !rested ==> w.from == from
        }),
        v.after(BatchEvent::Flush { now }).pending.len() == 0,
        v.after(BatchEvent::Flush { now }).flush_at is None,
        v.pending.len() > 0 ==> v.after(BatchEvent::Flush { now }).last_flush == now,
        v.pending.len() == 0 ==> v.after(BatchEvent::Flush { now }).last_flush == v.last_flush,
{
}

/// A frame carries 128 KiB at most, and only the last of a run carries less.
pub proof fn frames_are_filled(from: int, bytes: Seq<u8>, i: int)
    requires
        0 <= i < split_frames(from, bytes).len(),
    ensures
        split_frames(from, bytes)[i].0 == from + 131_072 * i,
        i < split_frames(from, bytes).len() - 1 ==> split_frames(from, bytes)[i].1.len() == 131_072,
        0 < split_frames(from, bytes)[i].1.len() <= 131_072,
    decreases bytes.len(),
{
    if bytes.len() > 131_072 {
        let rest = split_frames(from + 131_072, bytes.skip(131_072));
        assert(split_frames(from, bytes) =~= seq![(from, bytes.take(131_072))] + rest);
        if i > 0 {
            frames_are_filled(from + 131_072, bytes.skip(131_072), i - 1);
            assert(split_frames(from, bytes)[i] == rest[i - 1]);
        }
    }
}

/// The first output of a client is sent at once.
pub proof fn first_output_is_sent_at_once(now: u64, later: u64, from: int, data: Seq<u8>)
    requires
        100_000_000 <= now <= later,
    ensures
        carries(
            BatchView::start(now).sent(BatchEvent::Out { from, data, now: later }),
            from,
            data,
        ),
{
    frames_carry_the_run(from, data);
    assert(Seq::<u8>::empty() + data =~= data);
}

} // verus!
