use conditional_copy::controller::Controller;
use conditional_copy::paths::candidate_path;
use conditional_copy::reconcile::{
    plan, Action, Entry, Event, Failure, Job, Outcome, Probe, ReconcileError, Reconciler,
    SkipReason,
};

const DOCUMENT: &str = "[destination]\n/tmp/out\n\n[targets]\na.txt\nb.txt\n";

fn pass_over(document: &str) -> Reconciler {
    let controller = Controller::new(String::from(document)).unwrap();
    Reconciler::new(controller.destination(), plan(&controller))
}

fn path(text: &str) -> String {
    String::from(text)
}

fn job(source: &str, candidate: Option<&str>) -> Job<String> {
    Job { source: path(source), candidate: candidate.map(String::from) }
}

fn entry(target: &str, outcome: Outcome) -> Entry {
    Entry { target: path(target), outcome }
}

#[test]
fn copy_goes_under_the_file_name_of_the_target() {
    assert_eq!(candidate_path("/tmp/out", "a.txt"), Some(path("/tmp/out/a.txt")));
    assert_eq!(candidate_path("/tmp/out", "dir/sub/a.txt"), Some(path("/tmp/out/a.txt")));
    assert_eq!(candidate_path("out", "/etc/hosts"), Some(path("out/hosts")));
    assert_eq!(candidate_path("/tmp/out/", "a.txt"), Some(path("/tmp/out/a.txt")));
}

#[test]
fn target_without_file_name_has_no_place() {
    assert_eq!(candidate_path("/tmp/out", ".."), None);
    assert_eq!(candidate_path("/tmp/out", "dir/.."), None);
    assert_eq!(candidate_path("/tmp/out", "/"), None);
}

#[test]
fn plan_has_a_job_for_each_target() {
    let controller = Controller::new(String::from(
        "[destination]\n/tmp/out\n[targets]\nsrc/a.txt\n..\nsrc/a.txt\n",
    ))
    .unwrap();
    assert_eq!(
        plan(&controller),
        vec![
            job("src/a.txt", Some("/tmp/out/a.txt")),
            job("..", None),
            job("src/a.txt", Some("/tmp/out/a.txt")),
        ]
    );
}

#[test]
fn first_pass_creates_destination_and_both_copies() {
    let mut pass = pass_over(DOCUMENT);
    assert_eq!(pass.pending(), Action::ProbeDestination { path: path("/tmp/out") });
    pass = pass.step(Event::DestinationProbed { exists: false });
    assert_eq!(pass.pending(), Action::CreateDestination { path: path("/tmp/out") });
    pass = pass.step(Event::DestinationCreated { created: true });

    assert_eq!(pass.pending(), Action::OpenSource { path: path("a.txt") });
    pass = pass.step(Event::SourceOpened { opened: true });
    assert_eq!(pass.pending(), Action::ProbeCandidate { path: path("/tmp/out/a.txt") });
    pass = pass.step(Event::CandidateProbed { found: Probe::Missing });
    assert_eq!(
        pass.pending(),
        Action::Copy { from: path("a.txt"), to: path("/tmp/out/a.txt") }
    );
    pass = pass.step(Event::Copied { copied: true });

    assert_eq!(pass.pending(), Action::OpenSource { path: path("b.txt") });
    pass = pass.step(Event::SourceOpened { opened: true });
    assert_eq!(pass.pending(), Action::ProbeCandidate { path: path("/tmp/out/b.txt") });
    pass = pass.step(Event::CandidateProbed { found: Probe::Missing });
    assert_eq!(
        pass.pending(),
        Action::Copy { from: path("b.txt"), to: path("/tmp/out/b.txt") }
    );
    pass = pass.step(Event::Copied { copied: true });

    assert_eq!(pass.pending(), Action::Finish);
    assert_eq!(pass.outcomes(), vec![Outcome::Created, Outcome::Created]);
    assert_eq!(
        pass.report(),
        Ok(vec![entry("a.txt", Outcome::Created), entry("b.txt", Outcome::Created)])
    );
}

#[test]
fn second_pass_finds_a_conflict() {
    let mut pass = pass_over(DOCUMENT);
    pass = pass.step(Event::DestinationProbed { exists: true });
    assert_eq!(pass.pending(), Action::OpenSource { path: path("a.txt") });
    pass = pass.step(Event::SourceOpened { opened: true });
    pass = pass.step(Event::CandidateProbed { found: Probe::Present });
    assert_eq!(pass.outcomes(), vec![Outcome::Conflict]);

    assert_eq!(pass.pending(), Action::OpenSource { path: path("b.txt") });
    pass = pass.step(Event::SourceOpened { opened: true });
    pass = pass.step(Event::CandidateProbed { found: Probe::Missing });
    pass = pass.step(Event::Copied { copied: true });
    assert_eq!(pass.pending(), Action::Finish);
    assert_eq!(pass.outcomes(), vec![Outcome::Conflict, Outcome::Created]);
}

#[test]
fn no_targets_nothing_to_do() {
    let mut pass = pass_over("[destination]\n/tmp/out\n[targets]\n");
    assert_eq!(pass.pending(), Action::Finish);
    pass = pass.step(Event::DestinationProbed { exists: false });
    pass = pass.step(Event::DestinationCreated { created: true });
    assert_eq!(pass.pending(), Action::Finish);
    assert_eq!(pass.outcomes(), Vec::<Outcome>::new());
    assert_eq!(pass.report(), Ok(Vec::new()));
}

#[test]
fn destination_that_exists_is_not_made() {
    let mut pass = pass_over(DOCUMENT);
    pass = pass.step(Event::DestinationProbed { exists: true });
    assert_eq!(pass.pending(), Action::OpenSource { path: path("a.txt") });
}

#[test]
fn destination_that_cannot_be_made_ends_the_pass() {
    let mut pass = pass_over(DOCUMENT);
    pass = pass.step(Event::DestinationProbed { exists: false });
    pass = pass.step(Event::DestinationCreated { created: false });
    assert_eq!(pass.pending(), Action::Abort);
    assert_eq!(pass.report(), Err(ReconcileError::DestinationUnavailable));
    assert_eq!(pass.outcomes(), Vec::<Outcome>::new());
    pass = pass.step(Event::SourceOpened { opened: true });
    pass = pass.step(Event::DestinationCreated { created: true });
    assert_eq!(pass.pending(), Action::Abort);
}

#[test]
fn target_that_cannot_be_opened_fails_alone() {
    let mut pass = pass_over(DOCUMENT);
    pass = pass.step(Event::DestinationProbed { exists: true });
    pass = pass.step(Event::SourceOpened { opened: false });
    assert_eq!(pass.outcomes(), vec![Outcome::Failed(Failure::SourceUnavailable)]);
    assert_eq!(pass.pending(), Action::OpenSource { path: path("b.txt") });
    pass = pass.step(Event::SourceOpened { opened: true });
    pass = pass.step(Event::CandidateProbed { found: Probe::Missing });
    pass = pass.step(Event::Copied { copied: true });
    assert_eq!(pass.pending(), Action::Finish);
    assert_eq!(
        pass.report(),
        Ok(vec![
            entry("a.txt", Outcome::Failed(Failure::SourceUnavailable)),
            entry("b.txt", Outcome::Created),
        ])
    );
}

#[test]
fn last_target_that_cannot_be_opened_finishes_the_pass() {
    let mut pass = pass_over("[destination]\nout\n[targets]\na.txt\n");
    pass = pass.step(Event::DestinationProbed { exists: true });
    pass = pass.step(Event::SourceOpened { opened: false });
    assert_eq!(pass.pending(), Action::Finish);
    assert_eq!(pass.outcomes(), vec![Outcome::Failed(Failure::SourceUnavailable)]);
}

#[test]
fn permission_denied_skips_the_target() {
    let mut pass = pass_over(DOCUMENT);
    pass = pass.step(Event::DestinationProbed { exists: true });
    pass = pass.step(Event::SourceOpened { opened: true });
    pass = pass.step(Event::CandidateProbed { found: Probe::PermissionDenied });
    assert_eq!(pass.outcomes(), vec![Outcome::Skipped(SkipReason::PermissionDenied)]);
    assert_eq!(pass.pending(), Action::OpenSource { path: path("b.txt") });
    assert_eq!(SkipReason::PermissionDenied.describe(), "permission denied");
}

#[test]
fn other_probe_failure_fails_the_target() {
    let mut pass = pass_over(DOCUMENT);
    pass = pass.step(Event::DestinationProbed { exists: true });
    pass = pass.step(Event::SourceOpened { opened: true });
    pass = pass.step(Event::CandidateProbed { found: Probe::Failure });
    assert_eq!(pass.outcomes(), vec![Outcome::Failed(Failure::ProbeFailed)]);
    assert_eq!(pass.pending(), Action::OpenSource { path: path("b.txt") });
}

#[test]
fn copy_that_fails_fails_the_target() {
    let mut pass = pass_over(DOCUMENT);
    pass = pass.step(Event::DestinationProbed { exists: true });
    pass = pass.step(Event::SourceOpened { opened: true });
    pass = pass.step(Event::CandidateProbed { found: Probe::Missing });
    pass = pass.step(Event::Copied { copied: false });
    assert_eq!(pass.outcomes(), vec![Outcome::Failed(Failure::CopyFailed)]);
    assert_eq!(pass.pending(), Action::OpenSource { path: path("b.txt") });
}

#[test]
fn target_without_file_name_fails_after_it_was_opened() {
    let mut pass = pass_over("[destination]\nout\n[targets]\n..\nb.txt\n");
    pass = pass.step(Event::DestinationProbed { exists: true });
    assert_eq!(pass.pending(), Action::OpenSource { path: path("..") });
    pass = pass.step(Event::SourceOpened { opened: true });
    assert_eq!(pass.outcomes(), vec![Outcome::Failed(Failure::NoFileName)]);
    assert_eq!(pass.pending(), Action::OpenSource { path: path("b.txt") });
}

#[test]
fn event_that_answers_nothing_changes_nothing() {
    let mut pass = pass_over(DOCUMENT);
    pass = pass.step(Event::Copied { copied: true });
    pass = pass.step(Event::SourceOpened { opened: false });
    pass = pass.step(Event::CandidateProbed { found: Probe::Present });
    pass = pass.step(Event::DestinationCreated { created: false });
    assert_eq!(pass.pending(), Action::ProbeDestination { path: path("/tmp/out") });
    pass = pass.step(Event::DestinationProbed { exists: true });
    pass = pass.step(Event::DestinationProbed { exists: false });
    pass = pass.step(Event::Copied { copied: true });
    assert_eq!(pass.pending(), Action::OpenSource { path: path("a.txt") });
    assert_eq!(pass.outcomes(), Vec::<Outcome>::new());
}

#[test]
fn copies_are_flattened_into_the_destination() {
    let mut pass = pass_over("[destination]\nout\n[targets]\nx/a.txt\ny/z/a.txt\n");
    pass = pass.step(Event::DestinationProbed { exists: true });
    pass = pass.step(Event::SourceOpened { opened: true });
    assert_eq!(pass.pending(), Action::ProbeCandidate { path: path("out/a.txt") });
    pass = pass.step(Event::CandidateProbed { found: Probe::Missing });
    assert_eq!(
        pass.pending(),
        Action::Copy { from: path("x/a.txt"), to: path("out/a.txt") }
    );
    pass = pass.step(Event::Copied { copied: true });
    pass = pass.step(Event::SourceOpened { opened: true });
    assert_eq!(pass.pending(), Action::ProbeCandidate { path: path("out/a.txt") });
    pass = pass.step(Event::CandidateProbed { found: Probe::Present });
    assert_eq!(pass.outcomes(), vec![Outcome::Created, Outcome::Conflict]);
}

#[test]
fn report_lists_what_is_done_so_far() {
    let mut pass = Reconciler::new(
        path("out"),
        vec![job("a.txt", Some("out/a.txt")), job("b.txt", Some("out/b.txt"))],
    );
    assert_eq!(pass.report(), Ok(Vec::new()));
    pass = pass.step(Event::DestinationProbed { exists: true });
    pass = pass.step(Event::SourceOpened { opened: true });
    pass = pass.step(Event::CandidateProbed { found: Probe::Present });
    assert_eq!(pass.report(), Ok(vec![entry("a.txt", Outcome::Conflict)]));
}
