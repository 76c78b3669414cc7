//! What a finished program says, as the server reports it.

use vstd::prelude::*;
use vstd::string::*;

use crate::process::{lossy, lossy_text, OutcomeView, ProcessOutcome};
use crate::text::{cat2, cat3, trim, trim_text};

verus! {

/// The difference of a file.
#[derive(Debug, PartialEq)]
pub struct GitDiff {
    pub file: String,
    pub content: String,
}

/// The view of a text or of an error.
pub open spec fn text_result(r: Result<String, String>) -> Result<Seq<char>, Seq<char>> {
    match r {
        Ok(t) => Ok(t@),
        Err(e) => Err(e@),
    }
}

/// What a run of git comes to: all that it printed, or what it complained of.
pub open spec fn git_result(o: OutcomeView) -> Result<Seq<char>, Seq<char>> {
    match o {
        OutcomeView::NotFound(e) => Err("Failed to run git: "@ + e),
        OutcomeView::Failed(e) => Err("Failed to run git: "@ + e),
        OutcomeView::Exited { success, code, stdout, stderr } => if success {
            Ok(trim(lossy(stdout) + lossy(stderr)))
        } else if lossy(stderr).len() == 0 {
            Err(trim(lossy(stdout)))
        } else {
            Err(trim(lossy(stderr)))
        },
    }
}

/// What a run of git comes to whose exit code does not matter.
pub open spec fn lenient_result(o: OutcomeView) -> Result<Seq<char>, Seq<char>> {
    match o {
        OutcomeView::NotFound(e) => Err("Failed to run git: "@ + e),
        OutcomeView::Failed(e) => Err("Failed to run git: "@ + e),
        OutcomeView::Exited { success, code, stdout, stderr } => Ok(
            trim(lossy(stdout) + lossy(stderr)),
        ),
    }
}

/// Reads what came of a run of git.
pub fn run_git(outcome: &ProcessOutcome) -> (r: Result<String, String>)
    ensures
        text_result(r) == git_result(outcome@),
{
    match outcome {
        ProcessOutcome::NotFound(e) => Err(cat2("Failed to run git: ", e.as_str())),
        ProcessOutcome::Failed(e) => Err(cat2("Failed to run git: ", e.as_str())),
        ProcessOutcome::Exited { success, code, stdout, stderr } => {
            let out = lossy_text(stdout.as_slice());
            let err = lossy_text(stderr.as_slice());
            if *success {
                let both = cat2(out.as_str(), err.as_str());
                Ok(trim_text(both.as_str()))
            } else if err.as_str().unicode_len() == 0 {
                Err(trim_text(out.as_str()))
            } else {
                Err(trim_text(err.as_str()))
            }
        },
    }
}

/// Reads what came of a run of git whose exit code does not matter.
pub fn run_git_lenient(outcome: &ProcessOutcome) -> (r: Result<String, String>)
    ensures
        text_result(r) == lenient_result(outcome@),
{
    match outcome {
        ProcessOutcome::NotFound(e) => Err(cat2("Failed to run git: ", e.as_str())),
        ProcessOutcome::Failed(e) => Err(cat2("Failed to run git: ", e.as_str())),
        ProcessOutcome::Exited { success, code, stdout, stderr } => {
            let out = lossy_text(stdout.as_slice());
            let err = lossy_text(stderr.as_slice());
            let both = cat2(out.as_str(), err.as_str());
            Ok(trim_text(both.as_str()))
        },
    }
}

/// What a run of a command line comes to: its output, then its complaints.
pub open spec fn command_result(o: OutcomeView) -> Result<Seq<char>, Seq<char>> {
    match o {
        OutcomeView::NotFound(e) => Err("Failed to execute command: "@ + e),
        OutcomeView::Failed(e) => Err("Failed to execute command: "@ + e),
        OutcomeView::Exited { success, code, stdout, stderr } => if lossy(stderr).len() == 0 {
            Ok(lossy(stdout))
        } else {
            Ok(lossy(stdout) + "\n"@ + lossy(stderr))
        },
    }
}

/// Reads what came of a run of a command line.
pub fn run_command(outcome: &ProcessOutcome) -> (r: Result<String, String>)
    ensures
        text_result(r) == command_result(outcome@),
{
    match outcome {
        ProcessOutcome::NotFound(e) => Err(cat2("Failed to execute command: ", e.as_str())),
        ProcessOutcome::Failed(e) => Err(cat2("Failed to execute command: ", e.as_str())),
        ProcessOutcome::Exited { success, code, stdout, stderr } => {
            let out = lossy_text(stdout.as_slice());
            let err = lossy_text(stderr.as_slice());
            if err.as_str().unicode_len() == 0 {
                Ok(out)
            } else {
                Ok(cat3(out.as_str(), "\n", err.as_str()))
            }
        },
    }
}

/// A run of git fails just where it cannot be made or does not exit well. It then says what it
/// complained of, or else what it printed, and otherwise all that it printed, without white
/// space at the ends.
pub proof fn runs_fail_as_git_does(o: OutcomeView)
    ensures
        git_result(o) is Ok <==> o is Exited && o->success,
        lenient_result(o) is Ok <==> o is Exited,
        git_result(o) is Ok ==> git_result(o) == lenient_result(o),
        !(o is Exited) ==> git_result(o) == lenient_result(o),
        o is Exited ==> lenient_result(o)->Ok_0 == trim(lossy(o->stdout) + lossy(o->stderr)),
        o is Exited && !o->success && lossy(o->stderr).len() > 0 ==> git_result(o)->Err_0 == trim(
            lossy(o->stderr),
        ),
        o is Exited && !o->success && lossy(o->stderr).len() == 0 ==> git_result(o)->Err_0 == trim(
            lossy(o->stdout),
        ),
        o matches OutcomeView::NotFound(e) ==> git_result(o)->Err_0 == "Failed to run git: "@ + e,
        o matches OutcomeView::Failed(e) ==> git_result(o)->Err_0 == "Failed to run git: "@ + e,
{
}

/// A command line that can be run always comes to what it printed, and to its complaints on
/// lines of their own after that, whatever its exit code is.
pub proof fn commands_come_to_what_they_print(o: OutcomeView)
    ensures
        command_result(o) is Ok <==> o is Exited,
        o is Exited ==> {
            let t = command_result(o)->Ok_0;
            let out = lossy(o->stdout);
            let err = lossy(o->stderr);
            &&& t.take(out.len() as int) == out
            &&& err.len() == 0 ==> t.len() == out.len()
            &&& err.len() > 0 ==> t.len() == out.len() + 1 + err.len() && t[out.len() as int]
                == '\n' && t.skip(out.len() as int + 1) == err
        },
{
    reveal_strlit("\n");
    if o is Exited {
        let t = command_result(o)->Ok_0;
        let out = lossy(o->stdout);
        let err = lossy(o->stderr);
        assert(t.take(out.len() as int) =~= out);
        if err.len() > 0 {
            assert(t.skip(out.len() as int + 1) =~= err);
        }
    }
}

} // verus!
