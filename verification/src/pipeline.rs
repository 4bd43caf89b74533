//! A run: the commands to start one after the other, what each writes to
//! the log, and the rules that a run stops at its first failure and at a
//! stop by the user.

use vstd::prelude::*;

verus! {

/// One command of a run.
pub struct PipelineStep {
    /// The id that the log markers name.
    pub id: String,
    /// The arguments to `cargo`.
    pub args: Vec<String>,
    /// The section line written before the command runs.
    pub header: String,
    /// The line written when the command fails.
    pub failure_note: String,
}

pub struct StepView {
    pub id: Seq<char>,
    pub args: Seq<Seq<char>>,
    pub header: Seq<char>,
    pub failure_note: Seq<char>,
}

impl DeepView for PipelineStep {
    type V = StepView;

    open spec fn deep_view(&self) -> StepView {
        StepView {
            id: self.id@,
            args: self.args.deep_view(),
            header: self.header@,
            failure_note: self.failure_note@,
        }
    }
}

/// Where a run stands: the next step to start, whether a step is running,
/// and whether the run has ended early, at a failure or at a stop.
pub struct PipelineView {
    pub steps: Seq<StepView>,
    pub next: nat,
    pub running: bool,
    pub halted: bool,
}

/// What to start: the arguments to `cargo` and the lines to log first.
pub struct Launch {
    pub args: Vec<String>,
    pub log: Vec<String>,
}

pub open spec fn start_marker(id: Seq<char>) -> Seq<char> {
    "@@START:"@ + id
}

pub open spec fn done_marker(id: Seq<char>) -> Seq<char> {
    "@@DONE:"@ + id
}

pub open spec fn fail_marker(id: Seq<char>) -> Seq<char> {
    "@@FAIL:"@ + id
}

impl PipelineView {
    /// Whether another step can start.
    pub open spec fn can_launch(self) -> bool {
        !self.running && !self.halted && self.next < self.steps.len()
    }

    /// The run after its next step has started.
    pub open spec fn launched(self) -> PipelineView {
        if self.can_launch() {
            PipelineView { running: true, ..self }
        } else {
            self
        }
    }

    /// The run after the running step has ended; a failure halts it.
    pub open spec fn finished(self, success: bool) -> PipelineView {
        if !self.running {
            self
        } else if success {
            PipelineView { running: false, next: self.next + 1, ..self }
        } else {
            PipelineView { running: false, halted: true, ..self }
        }
    }

    /// The run after a stop: the running step is abandoned, and no further
    /// step starts.
    pub open spec fn cancelled(self) -> PipelineView {
        PipelineView { running: false, halted: true, ..self }
    }

    /// The lines that the end of the running step writes.
    pub open spec fn finish_log(self, success: bool) -> Seq<Seq<char>> {
        if !self.running || self.next >= self.steps.len() {
            seq![]
        } else if success {
            seq![done_marker(self.steps[self.next as int].id)]
        } else {
            seq![
                fail_marker(self.steps[self.next as int].id),
                self.steps[self.next as int].failure_note,
            ]
        }
    }

    /// A run starting at its first step.
    pub open spec fn fresh(steps: Seq<StepView>) -> PipelineView {
        PipelineView { steps, next: 0, running: false, halted: false }
    }

    /// The run after starting and ending steps with the given outcomes in
    /// turn, as long as steps can start.
    pub open spec fn driven(self, outcomes: Seq<bool>) -> PipelineView
        decreases outcomes.len(),
    {
        if outcomes.len() == 0 || !self.can_launch() {
            self
        } else {
            self.launched().finished(outcomes[0]).driven(outcomes.drop_first())
        }
    }
}

/// The index of the first failure among `outcomes`, or its length.
pub open spec fn first_failure(outcomes: Seq<bool>) -> nat
    decreases outcomes.len(),
{
    if outcomes.len() == 0 || !outcomes[0] {
        0
    } else {
        1 + first_failure(outcomes.drop_first())
    }
}

/// A run of steps, started one at a time.
pub struct Pipeline {
    steps: Vec<PipelineStep>,
    next: usize,
    running: bool,
    halted: bool,
}

impl View for Pipeline {
    type V = PipelineView;

    closed spec fn view(&self) -> PipelineView {
        PipelineView {
            steps: self.steps.deep_view(),
            next: self.next as nat,
            running: self.running,
            halted: self.halted,
        }
    }
}

impl Pipeline {
    #[verifier::type_invariant]
    closed spec fn next_in_range(&self) -> bool {
        &&& self.next <= self.steps@.len()
        &&& self.running ==> self.next < self.steps@.len()
    }

    /// A run of `steps`, none started yet.
    pub fn new(steps: Vec<PipelineStep>) -> (p: Self)
        ensures
            p@ == PipelineView::fresh(steps.deep_view()),
    {
        Pipeline { steps, next: 0, running: false, halted: false }
    }

    /// The steps of the run.
    pub fn steps(&self) -> (s: &Vec<PipelineStep>)
        ensures
            s.deep_view() == self@.steps,
    {
        &self.steps
    }

    /// Starts the next step, if the run can go on: its arguments and the
    /// lines `@@START:<id>` and its header for the log.
    pub fn launch(&mut self) -> (r: Option<Launch>)
        ensures
            final(self)@ == old(self)@.launched(),
            r is Some <==> old(self)@.can_launch(),
            r matches Some(l) ==> {
                let s = old(self)@.steps[old(self)@.next as int];
                &&& l.args.deep_view() == s.args
                &&& l.log.deep_view() == seq![start_marker(s.id), s.header]
            },
    {
        proof {
            use_type_invariant(&*self);
        }
        if self.running || self.halted || self.next >= self.steps.len() {
            return None;
        }
        let step = &self.steps[self.next];
        let mut marker = String::from_str("@@START:");
        marker.append(step.id.as_str());
        let log = vec![marker, step.header.clone()];
        let args = clone_strings(&step.args);
        assert(log.deep_view() =~= seq![
            start_marker(self.steps@[self.next as int].id@),
            self.steps@[self.next as int].header@,
        ]);
        self.running = true;
        Some(Launch { args, log })
    }

    /// Ends the running step with the given outcome and returns the lines
    /// to log: `@@DONE:<id>`, or `@@FAIL:<id>` and the failure note, after
    /// which no further step starts.
    pub fn finish(&mut self, success: bool) -> (log: Vec<String>)
        ensures
            final(self)@ == old(self)@.finished(success),
            log.deep_view() == old(self)@.finish_log(success),
    {
        proof {
            use_type_invariant(&*self);
        }
        if !self.running {
            return Vec::new();
        }
        let count = self.steps.len();
        assert(self.next < count);
        let step = &self.steps[self.next];
        if success {
            let mut marker = String::from_str("@@DONE:");
            marker.append(step.id.as_str());
            let log = vec![marker];
            assert(log.deep_view() =~= seq![done_marker(step.id@)]);
            let after = self.next + 1;
            self.running = false;
            self.next = after;
            log
        } else {
            let mut marker = String::from_str("@@FAIL:");
            marker.append(step.id.as_str());
            let log = vec![marker, step.failure_note.clone()];
            assert(log.deep_view() =~= seq![fail_marker(step.id@), step.failure_note@]);
            self.running = false;
            self.halted = true;
            log
        }
    }

    /// Stops the run: the running step, if any, is abandoned without a
    /// marker, and no further step starts.
    pub fn cancel(&mut self)
        ensures
            final(self)@ == old(self)@.cancelled(),
    {
        proof {
            use_type_invariant(&*self);
        }
        self.running = false;
        self.halted = true;
    }
}

/// A copy of a list of strings.
pub fn clone_strings(v: &Vec<String>) -> (r: Vec<String>)
    ensures
        r.deep_view() == v.deep_view(),
{
    let mut r: Vec<String> = Vec::new();
    let mut i: usize = 0;
    while i < v.len()
        invariant
            i <= v@.len(),
            r.deep_view() == v.deep_view().take(i as int),
        decreases v@.len() - i,
    {
        let ghost before = r.deep_view();
        r.push(v[i].clone());
        assert(r.deep_view() =~= before.push(v@[i as int]@));
        assert(v.deep_view().take(i + 1) =~= v.deep_view().take(i as int).push(v@[i as int]@));
        i = i + 1;
    }
    assert(v.deep_view().take(i as int) =~= v.deep_view());
    r
}

/// A run that starts fresh and whose steps end with the given outcomes has
/// passed exactly the steps before the first failure, and halts at a
/// failure; with no failure among the outcomes it passes them all.
pub proof fn lemma_run_stops_at_first_failure(steps: Seq<StepView>, outcomes: Seq<bool>)
    ensures
        ({
            let end = PipelineView::fresh(steps).driven(outcomes);
            let k = first_failure(outcomes);
            &&& !end.running
            &&& k < outcomes.len() && k < steps.len() ==> end.halted && end.next == k
            &&& (k >= outcomes.len() || k >= steps.len()) ==> !end.halted && end.next == if outcomes.len()
                < steps.len() {
                outcomes.len()
            } else {
                steps.len()
            }
        }),
{
    lemma_driven_from(PipelineView::fresh(steps), outcomes);
}

/// From a run that is between steps at position `next`, driving it with
/// `outcomes` passes steps up to the first failure.
proof fn lemma_driven_from(p: PipelineView, outcomes: Seq<bool>)
    requires
        !p.running,
        !p.halted,
        p.next <= p.steps.len(),
    ensures
        ({
            let end = p.driven(outcomes);
            let k = first_failure(outcomes);
            let room = p.steps.len() - p.next;
            &&& !end.running
            &&& k < outcomes.len() && k < room ==> end.halted && end.next == p.next + k
            &&& (k >= outcomes.len() || k >= room) ==> !end.halted && end.next == p.next + if outcomes.len()
                < room {
                outcomes.len() as int
            } else {
                room
            }
        }),
    decreases outcomes.len(),
{
    if outcomes.len() == 0 || !p.can_launch() {
    } else {
        let q = p.launched().finished(outcomes[0]);
        if outcomes[0] {
            lemma_driven_from(q, outcomes.drop_first());
        } else {
            lemma_halted_stays(q, outcomes.drop_first());
        }
    }
}

/// A stopped run starts nothing more, and the end of the step that was
/// running logs no done or fail marker, whatever its outcome.
pub proof fn lemma_cancel_stops(p: PipelineView, outcomes: Seq<bool>, success: bool)
    ensures
        p.cancelled().launched() == p.cancelled(),
        !p.cancelled().can_launch(),
        p.cancelled().finished(success) == p.cancelled(),
        p.cancelled().finish_log(success) == Seq::<Seq<char>>::empty(),
        p.cancelled().driven(outcomes) == p.cancelled(),
{
    lemma_halted_stays(p.cancelled(), outcomes);
}

/// A halted run starts nothing more.
pub proof fn lemma_halted_stays(p: PipelineView, outcomes: Seq<bool>)
    requires
        p.halted,
    ensures
        p.driven(outcomes) == p,
        p.launched() == p,
{
}

} // verus!
