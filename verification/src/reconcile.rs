//! Bringing the destination up to date, one target after the other.
//!
//! The [`Reconciler`] decides and never acts. It names the one thing that is
//! to be done next, an [`Action`]; the caller does it and reports what came of
//! it, an [`Event`]; from the two the reconciler moves on. Before the first
//! target the destination directory is looked for and, where it is missing,
//! made: if that fails the pass is given up. Then, for each target in turn,
//! the target is opened, the place of its copy is looked at, and the copy is
//! made only where nothing stands at that place. What happens to one target
//! has no bearing on the next.
//!
//! What the reconciler does is laid down, state by state, in the module
//! [`pass`](crate::pass), together with what holds of every pass.

use crate::controller::{Controller, Directive};
use crate::pass::{initial, next, pending, Phase, State};
use crate::paths::{candidate_of, candidate_path};
use vstd::prelude::*;

verus! {

/// Why nothing was done for a target though nothing went wrong with it.
#[derive(Clone, Copy, Debug, PartialEq, Eq, Structural)]
pub enum SkipReason {
    /// The place of the copy may not be looked at.
    PermissionDenied,
}

impl SkipReason {
    /// The reason in words.
    pub fn describe(&self) -> (words: &'static str)
        ensures
            words@ == "permission denied"@,
    {
        match self {
            SkipReason::PermissionDenied => "permission denied",
        }
    }
}

/// What went wrong with a target.
#[derive(Clone, Copy, Debug, PartialEq, Eq, Structural)]
pub enum Failure {
    /// The target could not be opened.
    SourceUnavailable,
    /// The target has no file name under which to keep its copy.
    NoFileName,
    /// Looking at the place of the copy failed, and not for want of
    /// permission.
    ProbeFailed,
    /// Making the copy failed.
    CopyFailed,
}

/// What became of a target.
#[derive(Clone, Copy, Debug, PartialEq, Eq, Structural)]
pub enum Outcome {
    /// It was copied: nothing stood at the place of the copy.
    Created,
    /// Nothing was done.
    Skipped(SkipReason),
    /// A file stands at the place of the copy, and it was left as it is.
    Conflict,
    /// It could not be dealt with.
    Failed(Failure),
}

/// Why a whole pass was given up.
#[derive(Clone, Copy, Debug, PartialEq, Eq, Structural)]
pub enum ReconcileError {
    /// The destination directory is missing and could not be made.
    DestinationUnavailable,
}

/// What was found at the place of a copy.
#[derive(Clone, Copy, Debug, PartialEq, Eq, Structural)]
pub enum Probe {
    /// Nothing stands there.
    Missing,
    /// A file stands there and can be read.
    Present,
    /// Looking was not permitted.
    PermissionDenied,
    /// Looking failed for another reason.
    Failure,
}

/// What came of an action.
#[derive(Clone, Copy, Debug, PartialEq, Eq, Structural)]
pub enum Event {
    /// The destination directory was looked for.
    DestinationProbed { exists: bool },
    /// The destination directory was to be made.
    DestinationCreated { created: bool },
    /// The target was to be opened for reading.
    SourceOpened { opened: bool },
    /// The place of the copy was looked at.
    CandidateProbed { found: Probe },
    /// The target was to be copied.
    Copied { copied: bool },
}

/// What is to be done next, over paths of type `P`.
#[derive(Clone, Debug, PartialEq, Eq)]
pub enum Action<P> {
    /// Find out whether the directory `path` exists.
    ProbeDestination { path: P },
    /// Make the directory `path`; the directories above it are there.
    CreateDestination { path: P },
    /// Open the file `path` for reading.
    OpenSource { path: P },
    /// Find out what stands at `path`.
    ProbeCandidate { path: P },
    /// Copy the file `from` to `to`, which does not exist yet.
    Copy { from: P, to: P },
    /// Nothing: every target has its outcome.
    Finish,
    /// Nothing: the pass was given up.
    Abort,
}

impl View for Action<String> {
    type V = Action<Seq<char>>;

    open spec fn view(&self) -> Action<Seq<char>> {
        match *self {
            Action::ProbeDestination { path } => Action::ProbeDestination { path: path@ },
            Action::CreateDestination { path } => Action::CreateDestination { path: path@ },
            Action::OpenSource { path } => Action::OpenSource { path: path@ },
            Action::ProbeCandidate { path } => Action::ProbeCandidate { path: path@ },
            Action::Copy { from, to } => Action::Copy { from: from@, to: to@ },
            Action::Finish => Action::Finish,
            Action::Abort => Action::Abort,
        }
    }
}

/// A target and the place of its copy, over paths of type `P`. There is no
/// such place where the target has no file name.
#[derive(Clone, Debug, PartialEq, Eq)]
pub struct Job<P> {
    pub source: P,
    pub candidate: Option<P>,
}

impl View for Job<String> {
    type V = Job<Seq<char>>;

    open spec fn view(&self) -> Job<Seq<char>> {
        Job {
            source: self.source@,
            candidate: match self.candidate {
                Some(path) => Some(path@),
                None => None,
            },
        }
    }
}

/// The jobs `jobs`, each by its view.
pub open spec fn views_of(jobs: Seq<Job<String>>) -> Seq<Job<Seq<char>>> {
    Seq::new(jobs.len(), |i: int| jobs[i]@)
}

/// The jobs that `directive` asks for: one for each target, in order.
pub open spec fn planned(directive: Directive) -> Seq<Job<Seq<char>>> {
    Seq::new(
        directive.targets.len(),
        |i: int|
            Job {
                source: directive.targets[i],
                candidate: candidate_of(directive.destination, directive.targets[i]),
            },
    )
}

/// The jobs that `controller` asks for.
pub fn plan(controller: &Controller) -> (jobs: Vec<Job<String>>)
    ensures
        views_of(jobs@) == planned(controller@),
{
    let destination = controller.destination();
    let targets = controller.target_list();
    let mut jobs: Vec<Job<String>> = Vec::new();
    let mut i: usize = 0;
    while i < targets.len()
        invariant
            i <= targets.len(),
            destination@ == controller@.destination,
            targets.deep_view() == controller@.targets,
            jobs@.len() == i,
            forall|k: int| 0 <= k < i ==> (#[trigger] jobs@[k])@ == planned(controller@)[k],
        decreases targets.len() - i,
    {
        assert(targets.deep_view()[i as int] == targets@[i as int]@);
        let candidate = candidate_path(destination.as_str(), targets[i].as_str());
        jobs.push(Job { source: targets[i].clone(), candidate });
        i += 1;
    }
    assert(views_of(jobs@) =~= planned(controller@));
    jobs
}

/// A target with its outcome.
#[derive(Clone, Debug, PartialEq, Eq)]
pub struct Entry {
    pub target: String,
    pub outcome: Outcome,
}

/// A pass over the targets of a document. It is always in a state that a pass
/// can be in.
pub struct Reconciler {
    destination: String,
    jobs: Vec<Job<String>>,
    phase: Phase,
    outcomes: Vec<Outcome>,
}

impl View for Reconciler {
    type V = State;

    closed spec fn view(&self) -> State {
        State {
            destination: self.destination@,
            jobs: views_of(self.jobs@),
            phase: self.phase,
            outcomes: self.outcomes@,
        }
    }
}

impl Reconciler {
    #[verifier::type_invariant]
    spec fn sound(&self) -> bool {
        self@.well_formed()
    }

    /// A pass that brings the targets of `jobs` to `destination`, at its
    /// start.
    pub fn new(destination: String, jobs: Vec<Job<String>>) -> (reconciler: Reconciler)
        ensures
            reconciler@ == initial(destination@, views_of(jobs@)),
            reconciler@.well_formed(),
    {
        let phase = if jobs.len() == 0 {
            Phase::Finished
        } else {
            Phase::CheckingDestination
        };
        Reconciler { destination, jobs, phase, outcomes: Vec::new() }
    }

    /// What is to be done next.
    pub fn pending(&self) -> (action: Action<String>)
        ensures
            action@ == pending(self@),
            self@.well_formed(),
    {
        proof {
            use_type_invariant(self);
        }
        let at = self.outcomes.len();
        match self.phase {
            Phase::CheckingDestination => Action::ProbeDestination {
                path: self.destination.clone(),
            },
            Phase::CreatingDestination => Action::CreateDestination {
                path: self.destination.clone(),
            },
            Phase::OpeningSource => Action::OpenSource { path: self.jobs[at].source.clone() },
            Phase::ProbingCandidate => match &self.jobs[at].candidate {
                Some(path) => Action::ProbeCandidate { path: path.clone() },
                None => Action::Abort,
            },
            Phase::Copying => match &self.jobs[at].candidate {
                Some(path) => Action::Copy {
                    from: self.jobs[at].source.clone(),
                    to: path.clone(),
                },
                None => Action::Abort,
            },
            Phase::Finished => Action::Finish,
            Phase::Aborted => Action::Abort,
        }
    }

    /// The pass in phase `phase`, all else as it is.
    fn goes_to(self, phase: Phase) -> (after: Reconciler)
        requires
            self@.goes_to(phase).well_formed(),
        ensures
            after@ == self@.goes_to(phase),
    {
        Reconciler {
            destination: self.destination,
            jobs: self.jobs,
            phase,
            outcomes: self.outcomes,
        }
    }

    /// The pass after the current target got `outcome`.
    fn settle(self, outcome: Outcome) -> (after: Reconciler)
        requires
            self@.at_target(),
        ensures
            after@ == self@.settle(outcome),
    {
        proof {
            use_type_invariant(&self);
        }
        let mut outcomes = self.outcomes;
        outcomes.push(outcome);
        let phase = if outcomes.len() < self.jobs.len() {
            Phase::OpeningSource
        } else {
            Phase::Finished
        };
        Reconciler { destination: self.destination, jobs: self.jobs, phase, outcomes }
    }

    /// The pass after `event`, which tells what came of the pending action. An
    /// event that does not report on the pending action changes nothing.
    pub fn step(self, event: Event) -> (after: Reconciler)
        ensures
            after@ == next(self@, event),
            after@.well_formed(),
    {
        proof {
            use_type_invariant(&self);
        }
        match (self.phase, event) {
            (Phase::CheckingDestination, Event::DestinationProbed { exists }) => {
                if exists {
                    self.goes_to(Phase::OpeningSource)
                } else {
                    self.goes_to(Phase::CreatingDestination)
                }
            },
            (Phase::CreatingDestination, Event::DestinationCreated { created }) => {
                if created {
                    self.goes_to(Phase::OpeningSource)
                } else {
                    self.goes_to(Phase::Aborted)
                }
            },
            (Phase::OpeningSource, Event::SourceOpened { opened }) => {
                if !opened {
                    self.settle(Outcome::Failed(Failure::SourceUnavailable))
                } else if self.jobs[self.outcomes.len()].candidate.is_none() {
                    self.settle(Outcome::Failed(Failure::NoFileName))
                } else {
                    self.goes_to(Phase::ProbingCandidate)
                }
            },
            (Phase::ProbingCandidate, Event::CandidateProbed { found }) => {
                match found {
                    Probe::Missing => self.goes_to(Phase::Copying),
                    Probe::Present => self.settle(Outcome::Conflict),
                    Probe::PermissionDenied => self.settle(
                        Outcome::Skipped(SkipReason::PermissionDenied),
                    ),
                    Probe::Failure => self.settle(Outcome::Failed(Failure::ProbeFailed)),
                }
            },
            (Phase::Copying, Event::Copied { copied }) => {
                if copied {
                    self.settle(Outcome::Created)
                } else {
                    self.settle(Outcome::Failed(Failure::CopyFailed))
                }
            },
            _ => self,
        }
    }

    /// The outcomes so far, one for each target that is done with, in the
    /// order of the targets.
    pub fn outcomes(&self) -> (outcomes: Vec<Outcome>)
        ensures
            outcomes@ == self@.outcomes,
    {
        let mut outcomes: Vec<Outcome> = Vec::new();
        let mut i: usize = 0;
        while i < self.outcomes.len()
            invariant
                i <= self.outcomes.len(),
                outcomes@ == self.outcomes@.take(i as int),
            decreases self.outcomes.len() - i,
        {
            outcomes.push(self.outcomes[i]);
            assert(self.outcomes@.take(i + 1) == self.outcomes@.take(i as int).push(
                self.outcomes@[i as int],
            ));
            i += 1;
        }
        assert(self.outcomes@.take(i as int) == self.outcomes@);
        outcomes
    }

    /// Each target that is done with and what became of it, in the order of
    /// the targets; or the error, where the pass was given up.
    pub fn report(&self) -> (report: Result<Vec<Entry>, ReconcileError>)
        ensures
            match report {
                Ok(entries) => {
                    &&& !(self@.phase is Aborted)
                    &&& entries@.len() == self@.outcomes.len()
                    &&& forall|i: int|
                        0 <= i < entries@.len() ==> (#[trigger] entries@[i]).target@
                            == self@.jobs[i].source && entries@[i].outcome == self@.outcomes[i]
                },
                Err(error) => self@.phase is Aborted
                    && error == ReconcileError::DestinationUnavailable,
            },
    {
        proof {
            use_type_invariant(self);
        }
        if self.phase == Phase::Aborted {
            return Err(ReconcileError::DestinationUnavailable);
        }
        let mut entries: Vec<Entry> = Vec::new();
        let mut i: usize = 0;
        while i < self.outcomes.len()
            invariant
                self.outcomes@.len() <= self.jobs@.len(),
                i <= self.outcomes.len(),
                entries@.len() == i,
                forall|k: int|
                    0 <= k < i ==> (#[trigger] entries@[k]).target@ == self@.jobs[k].source
                        && entries@[k].outcome == self@.outcomes[k],
            decreases self.outcomes.len() - i,
        {
            entries.push(Entry { target: self.jobs[i].source.clone(), outcome: self.outcomes[i] });
            i += 1;
        }
        Ok(entries)
    }
}

} // verus!
