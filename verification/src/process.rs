//! What comes of running another program.

use vstd::prelude::*;
use vstd::utf8::{decode_utf8, valid_utf8};

verus! {

/// What came of running a program to its end.
#[derive(Debug, PartialEq)]
pub enum ProcessOutcome {
    /// There is no such program.
    NotFound(String),
    /// The program could not be run.
    Failed(String),
    /// The program ran and ended.
    Exited { success: bool, code: Option<i32>, stdout: Vec<u8>, stderr: Vec<u8> },
}

/// What an outcome stands for.
pub enum OutcomeView {
    NotFound(Seq<char>),
    Failed(Seq<char>),
    Exited { success: bool, code: Option<i32>, stdout: Seq<u8>, stderr: Seq<u8> },
}

impl View for ProcessOutcome {
    type V = OutcomeView;

    open spec fn view(&self) -> OutcomeView {
        match self {
            ProcessOutcome::NotFound(e) => OutcomeView::NotFound(e@),
            ProcessOutcome::Failed(e) => OutcomeView::Failed(e@),
            ProcessOutcome::Exited { success, code, stdout, stderr } => OutcomeView::Exited {
                success: *success,
                code: *code,
                stdout: stdout@,
                stderr: stderr@,
            },
        }
    }
}

/// The text that some bytes spell in UTF-8, with a replacement character for
/// what is not UTF-8.
pub uninterp spec fn lossy(bytes: Seq<u8>) -> Seq<char>;

/// `String::from_utf8_lossy`: the text depends on the bytes alone, and is what
/// they spell when they are UTF-8. Where replacement characters go is left
/// unsaid.
#[verifier::external_body]
pub(crate) fn lossy_text(bytes: &[u8]) -> (r: String)
    ensures
        r@ == lossy(bytes@),
        valid_utf8(bytes@) ==> r@ == decode_utf8(bytes@),
{
    String::from_utf8_lossy(bytes).into_owned()
}

/// The exit code of a program, or -1 when it has none.
pub open spec fn code_or(code: Option<i32>) -> int {
    match code {
        Some(c) => c as int,
        None => -1,
    }
}

/// The exit code of a program, or -1 when it has none.
pub fn exit_number(code: Option<i32>) -> (r: i64)
    ensures
        r == code_or(code),
{
    match code {
        Some(c) => c as i64,
        None => -1,
    }
}

/// A program is told by its own exit code, and by one that no program has where it has none.
pub proof fn exit_codes_are_told(code: i32)
    ensures
        code_or(Some(code)) == code,
        code_or(None) == -1,
{
}

} // verus!
