//! A pass over the targets, as states and the events that lead from one to
//! the next, and what holds of every pass: that the destination directory is
//! made only where it is missing and before any target is touched, that no
//! target stands in the way of the next, and that a target is copied only to
//! a place where nothing stands.

use crate::reconcile::{Action, Event, Failure, Job, Outcome, Probe, SkipReason};
use vstd::prelude::*;

verus! {

/// Where a pass stands.
#[derive(Clone, Copy, Debug, PartialEq, Eq, Structural)]
pub enum Phase {
    /// The destination directory is being looked for.
    CheckingDestination,
    /// The destination directory is being made.
    CreatingDestination,
    /// The current target is being opened.
    OpeningSource,
    /// The place of the current target's copy is being looked at.
    ProbingCandidate,
    /// The current target is being copied.
    Copying,
    /// Every target has its outcome.
    Finished,
    /// The pass was given up before the first target.
    Aborted,
}

/// A pass: what it works on, where it stands, and the outcomes so far, one for
/// each target that is done with, in order. The current target is the one
/// after those.
pub struct State {
    pub destination: Seq<char>,
    pub jobs: Seq<Job<Seq<char>>>,
    pub phase: Phase,
    pub outcomes: Seq<Outcome>,
}

impl State {
    /// The target being worked on.
    pub open spec fn current(self) -> Job<Seq<char>> {
        self.jobs[self.outcomes.len() as int]
    }

    /// Whether the pass is at one of the targets.
    pub open spec fn at_target(self) -> bool {
        self.phase is OpeningSource || self.phase is ProbingCandidate || self.phase is Copying
    }

    /// Whether the state is one that a pass can be in.
    pub open spec fn well_formed(self) -> bool {
        &&& self.outcomes.len() <= self.jobs.len()
        &&& self.phase is CheckingDestination || self.phase is CreatingDestination
            || self.phase is Aborted ==> self.outcomes.len() == 0 && self.jobs.len() > 0
        &&& self.at_target() ==> self.outcomes.len() < self.jobs.len()
        &&& self.phase is ProbingCandidate || self.phase is Copying
            ==> self.current().candidate is Some
        &&& self.phase is Finished ==> self.outcomes.len() == self.jobs.len()
    }

    /// The state after the current target got `outcome`: the pass goes on to
    /// the next target, or is finished where there is none.
    pub open spec fn settle(self, outcome: Outcome) -> State {
        State {
            phase: if self.outcomes.len() + 1 < self.jobs.len() {
                Phase::OpeningSource
            } else {
                Phase::Finished
            },
            outcomes: self.outcomes.push(outcome),
            ..self
        }
    }

    /// The state in phase `phase`, all else as it is.
    pub open spec fn goes_to(self, phase: Phase) -> State {
        State { phase, ..self }
    }
}

/// The state in which a pass over `jobs` starts. Without jobs it is finished
/// at once, and the destination is never looked for.
pub open spec fn initial(destination: Seq<char>, jobs: Seq<Job<Seq<char>>>) -> State {
    State {
        destination,
        jobs,
        phase: if jobs.len() == 0 {
            Phase::Finished
        } else {
            Phase::CheckingDestination
        },
        outcomes: Seq::empty(),
    }
}

/// What is to be done in `state`.
pub open spec fn pending(state: State) -> Action<Seq<char>> {
    match state.phase {
        Phase::CheckingDestination => Action::ProbeDestination { path: state.destination },
        Phase::CreatingDestination => Action::CreateDestination { path: state.destination },
        Phase::OpeningSource => Action::OpenSource { path: state.current().source },
        Phase::ProbingCandidate => Action::ProbeCandidate {
            path: state.current().candidate->0,
        },
        Phase::Copying => Action::Copy {
            from: state.current().source,
            to: state.current().candidate->0,
        },
        Phase::Finished => Action::Finish,
        Phase::Aborted => Action::Abort,
    }
}

/// Whether `event` reports on what is to be done in phase `phase`.
pub open spec fn answers(phase: Phase, event: Event) -> bool {
    match (phase, event) {
        (Phase::CheckingDestination, Event::DestinationProbed { .. }) => true,
        (Phase::CreatingDestination, Event::DestinationCreated { .. }) => true,
        (Phase::OpeningSource, Event::SourceOpened { .. }) => true,
        (Phase::ProbingCandidate, Event::CandidateProbed { .. }) => true,
        (Phase::Copying, Event::Copied { .. }) => true,
        _ => false,
    }
}

/// The state that follows `state` on `event`. An event that does not report
/// on what was to be done changes nothing.
pub open spec fn next(state: State, event: Event) -> State {
    match (state.phase, event) {
        (Phase::CheckingDestination, Event::DestinationProbed { exists }) => if exists {
            state.goes_to(Phase::OpeningSource)
        } else {
            state.goes_to(Phase::CreatingDestination)
        },
        (Phase::CreatingDestination, Event::DestinationCreated { created }) => if created {
            state.goes_to(Phase::OpeningSource)
        } else {
            state.goes_to(Phase::Aborted)
        },
        (Phase::OpeningSource, Event::SourceOpened { opened }) => if !opened {
            state.settle(Outcome::Failed(Failure::SourceUnavailable))
        } else if state.current().candidate is None {
            state.settle(Outcome::Failed(Failure::NoFileName))
        } else {
            state.goes_to(Phase::ProbingCandidate)
        },
        (Phase::ProbingCandidate, Event::CandidateProbed { found }) => match found {
            Probe::Missing => state.goes_to(Phase::Copying),
            Probe::Present => state.settle(Outcome::Conflict),
            Probe::PermissionDenied => state.settle(Outcome::Skipped(SkipReason::PermissionDenied)),
            Probe::Failure => state.settle(Outcome::Failed(Failure::ProbeFailed)),
        },
        (Phase::Copying, Event::Copied { copied }) => if copied {
            state.settle(Outcome::Created)
        } else {
            state.settle(Outcome::Failed(Failure::CopyFailed))
        },
        _ => state,
    }
}

/// The state that `events`, taken one after the other, lead to from `state`.
pub open spec fn run(state: State, events: Seq<Event>) -> State
    decreases events.len(),
{
    if events.len() == 0 {
        state
    } else {
        next(run(state, events.drop_last()), events.last())
    }
}

/// How many events, at most, a pass in `state` still takes in.
pub open spec fn remaining(state: State) -> nat {
    let left = (state.jobs.len() - state.outcomes.len()) as nat;
    match state.phase {
        Phase::CheckingDestination => 3 * left + 2,
        Phase::CreatingDestination => 3 * left + 1,
        Phase::OpeningSource => 3 * left,
        Phase::ProbingCandidate => (3 * left - 1) as nat,
        Phase::Copying => (3 * left - 2) as nat,
        Phase::Finished => 0,
        Phase::Aborted => 0,
    }
}

/// Whether, on the way from `start` through `events`, the event at `at`
/// reported that the destination directory is there: found where it was
/// looked for, or made where it was to be made.
pub open spec fn destination_confirmed_at(start: State, events: Seq<Event>, at: int) -> bool {
    &&& 0 <= at < events.len()
    &&& {
        ||| run(start, events.take(at)).phase is CheckingDestination && events[at]
            == (Event::DestinationProbed { exists: true })
        ||| run(start, events.take(at)).phase is CreatingDestination && events[at]
            == (Event::DestinationCreated { created: true })
    }
}

/// Whether, on the way from `start` through `events`, the event at `at`
/// reported that the destination directory was looked for and is missing.
pub open spec fn destination_missing_at(start: State, events: Seq<Event>, at: int) -> bool {
    &&& 0 <= at < events.len()
    &&& run(start, events.take(at)).phase is CheckingDestination
    &&& events[at] == (Event::DestinationProbed { exists: false })
}

/// A pass starts in a state that a pass can be in.
pub proof fn lemma_initial_is_well_formed(destination: Seq<char>, jobs: Seq<Job<Seq<char>>>)
    ensures
        initial(destination, jobs).well_formed(),
{
}

/// No event leads out of the states that a pass can be in. Nor does one
/// change what the pass works on, or an outcome that was given: the outcomes
/// stay, and at most one is added, for the current target.
pub proof fn lemma_next_keeps_well_formed(state: State, event: Event)
    requires
        state.well_formed(),
    ensures
        next(state, event).well_formed(),
        next(state, event).destination == state.destination,
        next(state, event).jobs == state.jobs,
        next(state, event).outcomes == state.outcomes || exists|outcome: Outcome|
            next(state, event).outcomes == #[trigger] state.outcomes.push(outcome),
        state.outcomes.is_prefix_of(next(state, event).outcomes),
{
    let after = next(state, event);
    if after.outcomes != state.outcomes {
        assert(after.outcomes == state.outcomes.push(after.outcomes.last()));
    }
}

/// What holds of one event holds of any number of them.
pub proof fn lemma_run_keeps_well_formed(state: State, events: Seq<Event>)
    requires
        state.well_formed(),
    ensures
        run(state, events).well_formed(),
        run(state, events).destination == state.destination,
        run(state, events).jobs == state.jobs,
        state.outcomes.is_prefix_of(run(state, events).outcomes),
    decreases events.len(),
{
    if events.len() > 0 {
        lemma_run_keeps_well_formed(state, events.drop_last());
        lemma_next_keeps_well_formed(run(state, events.drop_last()), events.last());
    }
}

/// An event that reports on what was to be done brings the pass nearer to its
/// end, and any other event changes nothing. Where nothing is to be done, the
/// pass being finished or given up, no event reports on it.
pub proof fn lemma_answer_makes_progress(state: State, event: Event)
    requires
        state.well_formed(),
    ensures
        answers(state.phase, event) ==> remaining(next(state, event)) < remaining(state),
        !answers(state.phase, event) ==> next(state, event) == state,
        state.phase is Finished || state.phase is Aborted ==> !answers(state.phase, event),
{
}

/// A pass has nothing left to take in exactly where it is finished or given
/// up, and a finished pass has an outcome for every target: none is dropped.
pub proof fn lemma_finished_pass_is_complete(state: State)
    requires
        state.well_formed(),
    ensures
        remaining(state) == 0 <==> state.phase is Finished || state.phase is Aborted,
        state.phase is Finished ==> state.outcomes.len() == state.jobs.len(),
{
}

/// Without targets there is nothing to do, whatever is reported: the pass is
/// finished from the start, and the destination directory is neither looked
/// for nor made.
pub proof fn lemma_no_targets_no_action(destination: Seq<char>, events: Seq<Event>)
    ensures
        run(initial(destination, Seq::empty()), events) == initial(destination, Seq::empty()),
        pending(run(initial(destination, Seq::empty()), events)) == Action::<Seq<char>>::Finish,
    decreases events.len(),
{
    if events.len() > 0 {
        lemma_no_targets_no_action(destination, events.drop_last());
    }
}

/// With targets, the destination directory is looked for first. Where it is
/// missing it is to be made, and the first target comes after that. Where it
/// is there it is not made.
pub proof fn lemma_missing_destination_is_made(destination: Seq<char>, jobs: Seq<Job<Seq<char>>>)
    requires
        jobs.len() > 0,
    ensures
        ({
            let start = initial(destination, jobs);
            let missing = next(start, Event::DestinationProbed { exists: false });
            let found = next(start, Event::DestinationProbed { exists: true });
            let made = next(missing, Event::DestinationCreated { created: true });
            &&& pending(start) == (Action::ProbeDestination { path: destination })
            &&& pending(missing) == (Action::CreateDestination { path: destination })
            &&& pending(made) == (Action::OpenSource { path: jobs[0].source })
            &&& pending(found) == (Action::OpenSource { path: jobs[0].source })
        }),
{
}

/// Where the destination directory cannot be made the pass is given up for
/// good: no target is touched and none gets an outcome, whatever is reported
/// after that.
pub proof fn lemma_unmade_destination_ends_the_pass(state: State, events: Seq<Event>)
    requires
        state.well_formed(),
        state.phase is CreatingDestination,
    ensures
        ({
            let given_up = next(state, Event::DestinationCreated { created: false });
            &&& given_up.phase is Aborted
            &&& given_up.outcomes.len() == 0
            &&& run(given_up, events) == given_up
            &&& pending(run(given_up, events)) == Action::<Seq<char>>::Abort
        }),
    decreases events.len(),
{
    if events.len() > 0 {
        lemma_unmade_destination_ends_the_pass(state, events.drop_last());
    }
}

/// The destination directory is asked to be made only where it was looked for
/// and found missing.
pub proof fn lemma_creation_follows_missing(
    destination: Seq<char>,
    jobs: Seq<Job<Seq<char>>>,
    events: Seq<Event>,
)
    requires
        run(initial(destination, jobs), events).phase is CreatingDestination,
    ensures
        exists|at: int| #[trigger] destination_missing_at(initial(destination, jobs), events, at),
    decreases events.len(),
{
    let start = initial(destination, jobs);
    if events.len() > 0 {
        let before = events.drop_last();
        let last = events.len() - 1;
        if run(start, before).phase is CreatingDestination {
            lemma_creation_follows_missing(destination, jobs, before);
            let at = choose|at: int| #[trigger] destination_missing_at(start, before, at);
            assert(before.take(at) == events.take(at));
            assert(destination_missing_at(start, events, at));
        } else {
            assert(events.take(last) == before);
            assert(destination_missing_at(start, events, last));
        }
    }
}

/// No target is touched before the destination directory is known to be
/// there: where a pass is at a target, or has finished its targets, an
/// earlier event reported that the directory was found or was made.
pub proof fn lemma_destination_comes_first(
    destination: Seq<char>,
    jobs: Seq<Job<Seq<char>>>,
    events: Seq<Event>,
)
    requires
        jobs.len() > 0,
        run(initial(destination, jobs), events).at_target() || run(
            initial(destination, jobs),
            events,
        ).phase is Finished,
    ensures
        exists|at: int| #[trigger]
            destination_confirmed_at(initial(destination, jobs), events, at),
    decreases events.len(),
{
    let start = initial(destination, jobs);
    if events.len() > 0 {
        let before = events.drop_last();
        let last = events.len() - 1;
        let state = run(start, before);
        lemma_initial_is_well_formed(destination, jobs);
        lemma_run_keeps_well_formed(start, before);
        if state.at_target() || state.phase is Finished {
            lemma_destination_comes_first(destination, jobs, before);
            let at = choose|at: int| #[trigger] destination_confirmed_at(start, before, at);
            assert(before.take(at) == events.take(at));
            assert(destination_confirmed_at(start, events, at));
        } else {
            assert(events.take(last) == before);
            assert(destination_confirmed_at(start, events, last));
        }
    }
}

/// Once a pass is at its targets it is not given up, whatever becomes of
/// them: it stays at a target or is finished.
pub proof fn lemma_targets_never_abort(state: State, events: Seq<Event>)
    requires
        state.well_formed(),
        state.at_target() || state.phase is Finished,
    ensures
        run(state, events).at_target() || run(state, events).phase is Finished,
    decreases events.len(),
{
    if events.len() > 0 {
        lemma_targets_never_abort(state, events.drop_last());
    }
}

/// A target that cannot be opened fails, nothing is looked at or copied for
/// it, and the pass goes on: to the next target, or to its end where this was
/// the last.
pub proof fn lemma_unopened_source_is_contained(state: State)
    requires
        state.well_formed(),
        state.phase is OpeningSource,
    ensures
        ({
            let after = next(state, Event::SourceOpened { opened: false });
            let at = state.outcomes.len() as int;
            &&& after.outcomes == state.outcomes.push(Outcome::Failed(Failure::SourceUnavailable))
            &&& at + 1 < state.jobs.len() ==> pending(after) == (Action::OpenSource {
                path: state.jobs[at + 1].source,
            })
            &&& at + 1 == state.jobs.len() ==> pending(after) == Action::<Seq<char>>::Finish
        }),
{
}

/// A target that can be opened and at whose place nothing stands is copied to
/// that place, and is created. A pass that finds something readable at that
/// place, as a second pass over the same document does once the copy is made,
/// gives the target a conflict: it is not copied, and not created again.
pub proof fn lemma_created_once_then_conflict(state: State)
    requires
        state.well_formed(),
        state.phase is OpeningSource,
        state.current().candidate is Some,
    ensures
        ({
            let opened = next(state, Event::SourceOpened { opened: true });
            let missing = next(opened, Event::CandidateProbed { found: Probe::Missing });
            let present = next(opened, Event::CandidateProbed { found: Probe::Present });
            &&& pending(opened) == (Action::ProbeCandidate { path: state.current().candidate->0 })
            &&& pending(missing) == (Action::Copy {
                from: state.current().source,
                to: state.current().candidate->0,
            })
            &&& next(missing, Event::Copied { copied: true }) == state.settle(Outcome::Created)
            &&& present == state.settle(Outcome::Conflict)
            &&& !(pending(present) is Copy)
        }),
{
}

/// Each outcome and what leads to it, for a target that can be opened and
/// has a place for its copy: created where the place was empty and the copy
/// was made, skipped where looking was not permitted, in conflict where
/// something stands there, failed in every other case.
pub open spec fn outcome_of(found: Probe, copied: bool) -> Outcome {
    match found {
        Probe::Missing => if copied {
            Outcome::Created
        } else {
            Outcome::Failed(Failure::CopyFailed)
        },
        Probe::Present => Outcome::Conflict,
        Probe::PermissionDenied => Outcome::Skipped(SkipReason::PermissionDenied),
        Probe::Failure => Outcome::Failed(Failure::ProbeFailed),
    }
}

/// A target is copied only where nothing stands at the place of its copy, and
/// what it ends with is `outcome_of` what was found there.
pub proof fn lemma_target_gets_its_outcome(state: State, found: Probe, copied: bool)
    requires
        state.well_formed(),
        state.phase is OpeningSource,
        state.current().candidate is Some,
    ensures
        ({
            let probed = next(
                next(state, Event::SourceOpened { opened: true }),
                Event::CandidateProbed { found },
            );
            &&& pending(probed) is Copy <==> found is Missing
            &&& found is Missing ==> next(probed, Event::Copied { copied }) == state.settle(
                outcome_of(found, copied),
            )
            &&& !(found is Missing) ==> probed == state.settle(outcome_of(found, copied))
        }),
{
}

} // verus!
