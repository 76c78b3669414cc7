//! What a connection has transferred.

use vstd::prelude::*;

verus! {

/// What a connection has transferred since it began.
#[derive(Debug, Clone, Copy, PartialEq, Eq, Structural)]
pub struct ConnStats {
    /// When the connection began, in nanoseconds.
    pub started: u64,
    pub out_frames: u64,
    pub out_binary: u64,
    pub out_text: u64,
    /// Terminal output before compression.
    pub out_raw_bytes: u64,
    /// What was placed on the wire.
    pub out_wire_bytes: u64,
    pub pty_exits: u64,
    pub in_msgs: u64,
    pub in_bytes: u64,
}

/// A message on the wire, by what it weighs.
#[derive(Debug, Clone, Copy, PartialEq, Eq, Structural)]
pub enum Weight {
    Text(usize),
    Binary(usize),
    /// A message of the protocol itself.
    Control,
}

/// How many bytes of a message count as transferred.
pub open spec fn wire_len(w: Weight) -> usize {
    match w {
        Weight::Text(n) => n,
        Weight::Binary(n) => n,
        Weight::Control => 0,
    }
}

/// How many bytes of a message count as transferred.
pub fn msg_len(w: Weight) -> (r: usize)
    ensures
        r == wire_len(w),
{
    match w {
        Weight::Text(n) => n,
        Weight::Binary(n) => n,
        Weight::Control => 0,
    }
}

impl ConnStats {
    /// A connection that begins now.
    pub fn new(now: u64) -> (r: Self)
        ensures
            r == (ConnStats {
                started: now,
                out_frames: 0,
                out_binary: 0,
                out_text: 0,
                out_raw_bytes: 0,
                out_wire_bytes: 0,
                pty_exits: 0,
                in_msgs: 0,
                in_bytes: 0,
            }),
    {
        ConnStats {
            started: now,
            out_frames: 0,
            out_binary: 0,
            out_text: 0,
            out_raw_bytes: 0,
            out_wire_bytes: 0,
            pty_exits: 0,
            in_msgs: 0,
            in_bytes: 0,
        }
    }

    /// Tells whether a message that is sent can be counted.
    pub open spec fn room_to_push(self, w: Weight, binary: bool) -> bool {
        &&& self.out_frames < u64::MAX
        &&& if binary {
            self.out_binary < u64::MAX
        } else {
            self.out_text < u64::MAX
        }
        &&& self.out_wire_bytes + wire_len(w) <= u64::MAX
    }

    /// Tells whether a message that is sent can be counted.
    pub fn can_push(&self, w: Weight, binary: bool) -> (r: bool)
        ensures
            r == self.room_to_push(w, binary),
    {
        let kind: u64 = if binary {
            self.out_binary
        } else {
            self.out_text
        };
        self.out_frames < u64::MAX && kind < u64::MAX && self.out_wire_bytes <= u64::MAX
            - msg_len(w) as u64
    }

    /// Tells whether so many bytes of terminal output can be counted.
    pub fn can_raw(&self, n: u64) -> (r: bool)
        ensures
            r == (self.out_raw_bytes + n <= u64::MAX),
    {
        self.out_raw_bytes <= u64::MAX - n
    }

    /// Tells whether an exit can be counted.
    pub fn can_exit(&self) -> (r: bool)
        ensures
            r == (self.pty_exits < u64::MAX),
    {
        self.pty_exits < u64::MAX
    }

    /// Tells whether a message of so many bytes that came in can be counted.
    pub open spec fn room_to_receive(self, n: u64) -> bool {
        &&& self.in_msgs < u64::MAX
        &&& self.in_bytes + n <= u64::MAX
    }

    /// Tells whether a message of so many bytes that came in can be counted.
    pub fn can_receive(&self, n: u64) -> (r: bool)
        ensures
            r == self.room_to_receive(n),
    {
        self.in_msgs < u64::MAX && self.in_bytes <= u64::MAX - n
    }

    /// Counts a message that is sent.
    pub fn push(&mut self, w: Weight, binary: bool)
        requires
            old(self).room_to_push(w, binary),
        ensures
            *final(self) == (ConnStats {
                out_frames: (old(self).out_frames + 1) as u64,
                out_binary: (old(self).out_binary + (if binary {
                    1int
                } else {
                    0
                })) as u64,
                out_text: (old(self).out_text + (if binary {
                    0int
                } else {
                    1
                })) as u64,
                out_wire_bytes: (old(self).out_wire_bytes + wire_len(w)) as u64,
                ..*old(self)
            }),
    {
        self.out_frames = self.out_frames + 1;
        if binary {
            self.out_binary = self.out_binary + 1;
        } else {
            self.out_text = self.out_text + 1;
        }
        self.out_wire_bytes = self.out_wire_bytes + msg_len(w) as u64;
    }

    /// Counts terminal output that is about to be sent.
    pub fn raw(&mut self, n: u64)
        requires
            old(self).out_raw_bytes + n <= u64::MAX,
        ensures
            *final(self) == (ConnStats {
                out_raw_bytes: (old(self).out_raw_bytes + n) as u64,
                ..*old(self)
            }),
    {
        self.out_raw_bytes = self.out_raw_bytes + n;
    }

    /// Counts an exit that is told.
    pub fn exit(&mut self)
        requires
            old(self).pty_exits < u64::MAX,
        ensures
            *final(self) == (ConnStats {
                pty_exits: (old(self).pty_exits + 1) as u64,
                ..*old(self)
            }),
    {
        self.pty_exits = self.pty_exits + 1;
    }

    /// Counts a message that came in.
    pub fn received(&mut self, n: u64)
        requires
            old(self).room_to_receive(n),
        ensures
            *final(self) == (ConnStats {
                in_msgs: (old(self).in_msgs + 1) as u64,
                in_bytes: (old(self).in_bytes + n) as u64,
                ..*old(self)
            }),
    {
        self.in_msgs = self.in_msgs + 1;
        self.in_bytes = self.in_bytes + n;
    }
}

/// Of a message all bytes that it carries count, and of one of the protocol itself none.
pub proof fn messages_count_by_their_bytes(n: usize)
    ensures
        wire_len(Weight::Text(n)) == n,
        wire_len(Weight::Binary(n)) == n,
        wire_len(Weight::Control) == 0,
{
}

} // verus!
