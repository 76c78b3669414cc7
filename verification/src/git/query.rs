//! Questions to git that take several runs.

use vstd::prelude::*;
use vstd::string::*;

use crate::git::run::{git_result, run_git};
use crate::process::{OutcomeView, ProcessOutcome};
use crate::text::texts;

verus! {

/// What a run means for the question.
#[derive(Debug, Clone, Copy, PartialEq, Eq, Structural)]
pub enum Policy {
    /// A run that fails means that there is no repository.
    Probe,
    /// A run that fails fails the question.
    Need,
    /// A run that fails counts as one that printed nothing.
    Wish,
    /// A run that fails means that there is nothing to tell.
    Gate,
}

/// One run of a question.
#[derive(Debug, PartialEq)]
pub struct QueryStep {
    pub args: Vec<String>,
    pub policy: Policy,
}

/// What one run of a question stands for.
pub type StepView = (Seq<Seq<char>>, Policy);

/// How a question ended before all its runs were made.
#[derive(Debug, PartialEq)]
pub enum Ending {
    Refused(String),
    Empty,
}

/// What an early end stands for.
pub enum EndingView {
    Refused(Seq<char>),
    Empty,
}

/// A question to git.
#[derive(Debug, PartialEq)]
pub struct Query {
    steps: Vec<QueryStep>,
    outputs: Vec<String>,
    ended: Option<Ending>,
}

/// What a question stands for.
#[verifier::ext_equal]
pub struct QueryView {
    pub steps: Seq<StepView>,
    /// What the runs so far printed.
    pub outputs: Seq<Seq<char>>,
    pub ended: Option<EndingView>,
}

/// The views of a list of runs.
pub open spec fn step_views(v: Seq<QueryStep>) -> Seq<StepView> {
    Seq::new(v.len(), |i: int| (texts(v[i].args@), v[i].policy))
}

/// The view of an early end.
pub open spec fn ending_view(e: Option<Ending>) -> Option<EndingView> {
    match e {
        None => None,
        Some(Ending::Refused(t)) => Some(EndingView::Refused(t@)),
        Some(Ending::Empty) => Some(EndingView::Empty),
    }
}

impl View for Query {
    type V = QueryView;

    closed spec fn view(&self) -> QueryView {
        QueryView {
            steps: step_views(self.steps@),
            outputs: texts(self.outputs@),
            ended: ending_view(self.ended),
        }
    }
}

impl QueryView {
    /// A question of which no run was made.
    pub open spec fn start(steps: Seq<StepView>) -> QueryView {
        QueryView { steps, outputs: Seq::empty(), ended: None }
    }

    /// Tells whether a run is to be made.
    pub open spec fn waiting(self) -> bool {
        self.ended is None && self.outputs.len() < self.steps.len()
    }

    /// The question with one more text printed.
    pub open spec fn told(self, t: Seq<char>) -> QueryView {
        QueryView { outputs: self.outputs.push(t), ..self }
    }

    /// The question after its next run.
    pub open spec fn after(self, o: OutcomeView) -> QueryView {
        let policy = self.steps[self.outputs.len() as int].1;
        match git_result(o) {
            Ok(t) => self.told(t),
            Err(e) => match policy {
                Policy::Probe => QueryView {
                    ended: Some(
                        EndingView::Refused(
                            if o is Exited {
                                "not a git repository"@
                            } else {
                                e
                            },
                        ),
                    ),
                    ..self
                },
                Policy::Need => QueryView { ended: Some(EndingView::Refused(e)), ..self },
                Policy::Wish => self.told(Seq::empty()),
                Policy::Gate => QueryView { ended: Some(EndingView::Empty), ..self },
            },
        }
    }
}

impl Query {
    /// A question that takes these runs.
    pub fn new(steps: Vec<QueryStep>) -> (r: Self)
        ensures
            r@ == QueryView::start(step_views(steps@)),
    {
        let r = Query { steps, outputs: Vec::new(), ended: None };
        assert(r@.outputs =~= Seq::empty());
        r
    }

    /// The arguments of the next run, when one is to be made.
    pub fn next(&self) -> (r: Option<&Vec<String>>)
        ensures
            match r {
                Some(a) => self@.waiting() && texts(a@) == self@.steps[self@.outputs.len() as int].0,
                None => !self@.waiting(),
            },
    {
        match &self.ended {
            Some(_) => None,
            None => if self.outputs.len() < self.steps.len() {
                Some(&self.steps[self.outputs.len()].args)
            } else {
                None
            },
        }
    }

    /// Takes in what came of the next run.
    pub fn answer(&mut self, outcome: &ProcessOutcome)
        requires
            old(self)@.waiting(),
        ensures
            final(self)@ == old(self)@.after(outcome@),
    {
        let ghost before = self@;
        match run_git(outcome) {
            Ok(t) => {
                self.outputs.push(t);
                assert(self@.outputs =~= before.outputs.push(t@));
            },
            Err(e) => match self.steps[self.outputs.len()].policy {
                Policy::Probe => {
                    let exited = match outcome {
                        ProcessOutcome::Exited { .. } => true,
                        _ => false,
                    };
                    self.ended = Some(
                        Ending::Refused(
                            if exited {
                                "not a git repository".to_owned()
                            } else {
                                e
                            },
                        ),
                    );
                },
                Policy::Need => {
                    self.ended = Some(Ending::Refused(e));
                },
                Policy::Wish => {
                    proof {
                        reveal_strlit("");
                        assert(""@ =~= Seq::<char>::empty());
                    }
                    self.outputs.push("".to_owned());
                    assert(self@.outputs =~= before.outputs.push(Seq::empty()));
                },
                Policy::Gate => {
                    self.ended = Some(Ending::Empty);
                },
            },
        }
    }

    /// How the question ended, when it ended early.
    pub fn ended(&self) -> (r: &Option<Ending>)
        ensures
            ending_view(*r) == self@.ended,
    {
        &self.ended
    }

    /// What the runs printed.
    pub fn outputs(&self) -> (r: &Vec<String>)
        ensures
            texts(r@) == self@.outputs,
    {
        &self.outputs
    }
}

/// A question that goes on has one more text, and one that has all its texts or
/// has ended early waits for nothing more.
pub proof fn questions_end(q: QueryView, o: OutcomeView)
    requires
        q.waiting(),
    ensures
        q.after(o).steps == q.steps,
        q.after(o).ended is Some || q.after(o).outputs.len() == q.outputs.len() + 1,
        q.after(o).ended is None && q.after(o).outputs.len() == q.steps.len() ==> !q.after(
            o,
        ).waiting(),
{
}

/// A run of git that succeeds is told by what it printed, whatever it means for the question.
/// One that fails ends a question that needs it with what it complained of, ends one that
/// asks for a repository with the news that there is none, ends one that has nothing to tell
/// without it empty, and counts as one that printed nothing where it is a mere wish.
pub proof fn runs_count_by_their_policy(q: QueryView, o: OutcomeView)
    requires
        q.waiting(),
    ensures
        ({
            let policy = q.steps[q.outputs.len() as int].1;
            let after = q.after(o);
            match git_result(o) {
                Ok(t) => {
                    &&& after.ended is None
                    &&& after.outputs.drop_last() == q.outputs
                    &&& after.outputs.last() == t
                },
                Err(e) => {
                    &&& policy == Policy::Wish ==> {
                        &&& after.ended is None
                        &&& after.outputs.drop_last() == q.outputs
                        &&& after.outputs.last().len() == 0
                    }
                    &&& policy != Policy::Wish ==> after.outputs == q.outputs
                    &&& policy == Policy::Need ==> after.ended == Some(EndingView::Refused(e))
                    &&& policy == Policy::Gate ==> after.ended == Some(EndingView::Empty)
                    &&& policy == Policy::Probe && o is Exited ==> after.ended == Some(
                        EndingView::Refused("not a git repository"@),
                    )
                    &&& policy == Policy::Probe && !(o is Exited) ==> after.ended == Some(
                        EndingView::Refused(e),
                    )
                },
            }
        }),
{
    if q.after(o).ended is None {
        assert(q.after(o).outputs.drop_last() =~= q.outputs);
    }
}

/// The runs of a question are made in their order: so long as nothing ends it early, the next
/// run is the one after those that were made.
pub proof fn runs_are_made_in_order(q: QueryView, o: OutcomeView)
    requires
        q.waiting(),
        q.after(o).waiting(),
    ensures
        q.after(o).steps[q.after(o).outputs.len() as int] == q.steps[q.outputs.len() as int
            + 1],
{
}

} // verus!
