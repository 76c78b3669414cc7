//! What a terminal tells of itself.

use vstd::prelude::*;

use crate::process::{lossy, lossy_text};
use crate::pty::spawn::{exit_code, exit_number};

verus! {

/// Output of a session.
#[derive(Debug, Clone, PartialEq)]
pub struct PtyOutput {
    pub session_id: String,
    pub data: String,
}

/// The end of a session.
#[derive(Debug, Clone, PartialEq)]
pub struct PtyExit {
    pub session_id: String,
    pub code: Option<i32>,
}

/// Something that a session tells of itself.
#[derive(Debug, Clone, PartialEq)]
pub enum PtyEvent {
    Output(PtyOutput),
    Exit(PtyExit),
}

/// What a read from a terminal tells.
pub fn output_event(session_id: &String, bytes: &[u8]) -> (r: PtyEvent)
    ensures
        match r {
            PtyEvent::Output(o) => o.session_id@ == session_id@ && o.data@ == lossy(bytes@),
            PtyEvent::Exit(_) => false,
        },
{
    PtyEvent::Output(PtyOutput { session_id: session_id.clone(), data: lossy_text(bytes) })
}

/// What the end of a terminal tells. `status` is what its program ended with,
/// when that is known.
pub fn exit_event(session_id: String, status: Option<u32>) -> (r: PtyEvent)
    ensures
        match r {
            PtyEvent::Output(_) => false,
            PtyEvent::Exit(e) => e.session_id@ == session_id@ && e.code == (match status {
                Some(s) => exit_number(s),
                None => None,
            }),
        },
{
    let code = match status {
        Some(s) => exit_code(s),
        None => None,
    };
    PtyEvent::Exit(PtyExit { session_id, code })
}

} // verus!
