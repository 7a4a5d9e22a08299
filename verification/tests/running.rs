use repox::manifest::Defaults;
use repox::manifest::Manifest;
use repox::manifest::Project;
use repox::manifest::Remote;
use repox::resolver::resolve;
use repox::run::backoff;
use repox::run::classify;
use repox::run::io_failure_report;
use repox::run::IoProblem;
use repox::run::failure_report;
use repox::run::ErrorClass;
use repox::run::Action;
use repox::run::AttemptReport;
use repox::run::FailureKind;
use repox::run::Followup;
use repox::run::Orchestrator;
use repox::run::Outcome;
use repox::run::SyncReport;
use repox::sync::clone_url;
use repox::sync::concurrency;
use repox::sync::job_for;
use repox::sync::jobs_for;
use repox::sync::SyncJob;

fn text(s: &str) -> String {
    s.to_string()
}

fn job(name: &str) -> SyncJob {
    SyncJob {
        name: text(name),
        path: text(name),
        url: format!("https://git.example/{}.git", name),
        destination: format!("/w/{}", name),
        revision: None,
        depth: None,
        required: true,
    }
}

fn jobs(count: usize) -> Vec<SyncJob> {
    (1..=count).map(|i| job(&format!("p{}", i))).collect()
}

fn success() -> AttemptReport {
    AttemptReport::Succeeded { overlay_error: None, duration_ms: 10 }
}

fn failure(kind: FailureKind) -> AttemptReport {
    AttemptReport::Failed { kind, detail: text("it broke"), duration_ms: 5 }
}

/// Drives a run to its end; `outcome` says how each unit ends. Returns the
/// report and the greatest number of units that were in flight at once.
fn drive(run: &mut Orchestrator, outcome: &dyn Fn(usize) -> AttemptReport) -> (SyncReport, usize) {
    let mut flying: Vec<usize> = Vec::new();
    let mut most = 0;
    loop {
        match run.next_action() {
            Action::Dispatch { index, location } => {
                assert!(!flying.contains(&index));
                assert!(!location.to_bstring().is_empty());
                flying.push(index);
            }
            Action::Wait => {
                let index = flying.pop().unwrap();
                match run.record(index, outcome(index)) {
                    Followup::Retry { .. } => flying.push(index),
                    Followup::Settled => {}
                    Followup::Ignored => panic!("unit {} was in flight", index),
                }
            }
            Action::Finished => break,
        }
        assert_eq!(run.in_flight(), flying.len());
        assert!(run.in_flight() <= run.limit());
        most = most.max(flying.len());
    }
    assert!(flying.is_empty());
    (run.report().unwrap(), most)
}

#[test]
fn no_more_units_fly_than_the_limit_allows() {
    let mut run = Orchestrator::new(jobs(10), 4);
    let (report, most) = drive(&mut run, &|_| success());
    assert_eq!(most, 4);
    assert_eq!(report.results.len(), 10);
    for (i, result) in report.results.iter().enumerate() {
        assert_eq!(result.name, format!("p{}", i + 1));
        assert_eq!(result.destination, format!("/w/p{}", i + 1));
        assert_eq!(result.outcome, Outcome::Succeeded);
        assert_eq!(result.duration_ms, 10);
    }
    assert!(!report.failed);
    assert!(!report.cancelled);
    assert_eq!(report.exit_code(), 0);
}

#[test]
fn failure_of_one_unit_stops_no_other() {
    let mut run = Orchestrator::new(jobs(5), 2);
    let (report, _) = drive(&mut run, &|index| {
        if index == 2 {
            failure(FailureKind::AuthenticationRejected)
        } else {
            success()
        }
    });
    let outcomes: Vec<Outcome> = report.results.iter().map(|r| r.outcome).collect();
    assert_eq!(
        outcomes,
        vec![
            Outcome::Succeeded,
            Outcome::Succeeded,
            Outcome::Failed,
            Outcome::Succeeded,
            Outcome::Succeeded
        ]
    );
    assert_eq!(report.results[2].name, text("p3"));
    assert_eq!(report.results[2].error, Some(text("it broke")));
    assert!(report.failed);
    assert_eq!(report.exit_code(), 1);
}

#[test]
fn failure_of_a_unit_that_is_not_required_fails_no_run() {
    let mut all = jobs(2);
    all[1].required = false;
    let mut run = Orchestrator::new(all, 1);
    let (report, most) = drive(&mut run, &|index| {
        if index == 1 {
            failure(FailureKind::DiskFull)
        } else {
            success()
        }
    });
    assert_eq!(most, 1);
    assert_eq!(report.results[1].outcome, Outcome::Failed);
    assert!(!report.failed);
    assert_eq!(report.exit_code(), 0);
}

#[test]
fn transient_failure_is_retried_with_growing_waits() {
    let mut run = Orchestrator::new(jobs(1), 1);
    match run.next_action() {
        Action::Dispatch { index, .. } => assert_eq!(index, 0),
        other => panic!("unexpected {:?}", other),
    }
    assert_eq!(
        run.record(0, failure(FailureKind::Timeout)),
        Followup::Retry { attempt: 1, wait_ms: 500 }
    );
    assert_eq!(
        run.record(0, failure(FailureKind::ConnectionReset)),
        Followup::Retry { attempt: 2, wait_ms: 1000 }
    );
    assert_eq!(
        run.record(0, failure(FailureKind::Timeout)),
        Followup::Retry { attempt: 3, wait_ms: 2000 }
    );
    assert_eq!(run.in_flight(), 1);
    assert!(run.report().is_none());
    assert_eq!(run.record(0, failure(FailureKind::Timeout)), Followup::Settled);
    assert_eq!(run.in_flight(), 0);
    let report = run.report().unwrap();
    assert_eq!(report.results[0].outcome, Outcome::Failed);
    assert_eq!(report.results[0].duration_ms, 20);
    assert!(report.failed);
}

#[test]
fn lasting_failure_is_not_retried() {
    for kind in [
        FailureKind::InvalidUrl,
        FailureKind::AuthenticationRejected,
        FailureKind::DiskFull,
        FailureKind::CheckoutConflict,
        FailureKind::Other,
    ] {
        assert!(!kind.is_transient());
        let mut run = Orchestrator::new(jobs(1), 1);
        run.next_action();
        assert_eq!(run.record(0, failure(kind)), Followup::Settled);
    }
    assert!(FailureKind::Timeout.is_transient());
    assert!(FailureKind::ConnectionReset.is_transient());
}

#[test]
fn success_after_a_retry_counts_all_attempts() {
    let mut run = Orchestrator::new(jobs(1), 1);
    run.next_action();
    run.record(0, failure(FailureKind::Timeout));
    assert_eq!(run.record(0, success()), Followup::Settled);
    let report = run.report().unwrap();
    assert_eq!(report.results[0].outcome, Outcome::Succeeded);
    assert_eq!(report.results[0].duration_ms, 15);
    assert_eq!(report.exit_code(), 0);
}

#[test]
fn waits_double() {
    assert_eq!(backoff(1), 500);
    assert_eq!(backoff(2), 1000);
    assert_eq!(backoff(3), 2000);
}

#[test]
fn report_on_a_unit_that_is_not_in_flight_is_ignored() {
    let mut run = Orchestrator::new(jobs(2), 1);
    assert_eq!(run.record(0, success()), Followup::Ignored);
    assert_eq!(run.record(7, success()), Followup::Ignored);
    run.next_action();
    assert_eq!(run.record(1, success()), Followup::Ignored);
    assert_eq!(run.record(0, success()), Followup::Settled);
    assert_eq!(run.record(0, success()), Followup::Ignored);
    assert_eq!(run.dispatched(), 1);
}

#[test]
fn cancelled_run_starts_nothing_new() {
    let mut run = Orchestrator::new(jobs(5), 2);
    assert!(matches!(run.next_action(), Action::Dispatch { index: 0, .. }));
    assert!(matches!(run.next_action(), Action::Dispatch { index: 1, .. }));
    assert!(matches!(run.next_action(), Action::Wait));
    run.cancel();
    assert!(run.is_cancelled());
    assert!(matches!(run.next_action(), Action::Wait));
    assert_eq!(run.record(0, failure(FailureKind::Timeout)), Followup::Settled);
    assert!(matches!(run.next_action(), Action::Wait));
    assert_eq!(run.record(1, AttemptReport::Aborted { duration_ms: 3 }), Followup::Settled);
    assert!(matches!(run.next_action(), Action::Finished));
    assert!(run.is_finished());
    let report = run.report().unwrap();
    assert_eq!(report.results.len(), 2);
    assert_eq!(report.results[0].outcome, Outcome::Failed);
    assert_eq!(report.results[1].outcome, Outcome::Skipped);
    assert_eq!(report.results[1].error, None);
    assert!(report.cancelled);
    assert_eq!(report.exit_code(), 1);
}

#[test]
fn cancelling_a_finished_run_changes_nothing() {
    let mut run = Orchestrator::new(jobs(1), 3);
    let (report, _) = drive(&mut run, &|_| success());
    run.cancel();
    assert!(!run.is_cancelled());
    assert_eq!(run.report().unwrap(), report);
}

#[test]
fn run_without_units_has_finished() {
    let mut run = Orchestrator::new(vec![], 0);
    assert_eq!(run.limit(), 1);
    assert!(matches!(run.next_action(), Action::Finished));
    let report = run.report().unwrap();
    assert!(report.results.is_empty());
    assert_eq!(report.exit_code(), 0);
}

#[test]
fn unit_with_an_address_that_cannot_be_parsed_fails_without_an_attempt() {
    let mut all = jobs(3);
    all[1].url = text("ssh://host-without-a-path");
    let mut run = Orchestrator::new(all, 1);
    assert!(matches!(run.next_action(), Action::Dispatch { index: 0, .. }));
    run.record(0, success());
    assert!(matches!(run.next_action(), Action::Dispatch { index: 2, .. }));
    assert_eq!(run.dispatched(), 3);
    run.record(2, success());
    assert!(matches!(run.next_action(), Action::Finished));
    let report = run.report().unwrap();
    assert_eq!(report.results.len(), 3);
    assert_eq!(report.results[1].outcome, Outcome::Failed);
    assert_eq!(report.results[1].name, text("p2"));
    assert_eq!(
        report.results[1].error,
        Some(text("invalid clone URL: ssh://host-without-a-path"))
    );
    assert_eq!(report.results[1].duration_ms, 0);
    assert!(report.failed);
}

#[test]
fn overlay_error_is_recorded_with_a_success() {
    let mut run = Orchestrator::new(jobs(1), 1);
    run.next_action();
    run.record(
        0,
        AttemptReport::Succeeded { overlay_error: Some(text("path escape")), duration_ms: 1 },
    );
    let report = run.report().unwrap();
    assert_eq!(report.results[0].outcome, Outcome::Succeeded);
    assert_eq!(report.results[0].error, Some(text("path escape")));
    assert_eq!(report.exit_code(), 0);
}

#[test]
fn durations_do_not_wrap() {
    let mut run = Orchestrator::new(jobs(1), 1);
    run.next_action();
    run.record(
        0,
        AttemptReport::Failed {
            kind: FailureKind::Timeout,
            detail: text("slow"),
            duration_ms: u64::MAX - 1,
        },
    );
    run.record(0, AttemptReport::Succeeded { overlay_error: None, duration_ms: 7 });
    assert_eq!(run.report().unwrap().results[0].duration_ms, u64::MAX);
}

#[test]
fn clone_address_is_prefix_name_and_suffix() {
    assert_eq!(
        clone_url(&text("https://git.example"), &text("platform/build")),
        text("https://git.example/platform/build.git")
    );
    assert_eq!(clone_url(&text(""), &text("")), text("/.git"));
}

#[test]
fn concurrency_limit_is_picked() {
    assert_eq!(concurrency(Some(8), Some(4), 16), 8);
    assert_eq!(concurrency(Some(0), Some(4), 16), 4);
    assert_eq!(concurrency(None, Some(4), 16), 4);
    assert_eq!(concurrency(None, Some(0), 16), 16);
    assert_eq!(concurrency(None, None, 16), 16);
    assert_eq!(concurrency(None, None, 0), 1);
}

#[test]
fn units_of_work_are_made_from_projects() {
    let mut doc = Manifest::empty();
    doc.remote = Some(vec![Remote {
        name: text("origin"),
        alias: None,
        fetch: text("https://git.example"),
        pushurl: None,
        review: None,
        revision: Some(text("stable")),
    }]);
    let mut record = Defaults::empty();
    record.remote = Some(text("origin"));
    doc.default = Some(record);
    let mut app = Project {
        annotation: None,
        project: None,
        copyfile: None,
        linkfile: None,
        name: text("app"),
        path: Some(text("src/app")),
        remote: None,
        revision: None,
        dest_branch: None,
        groups: Some(text("notdefault")),
        sync_c: None,
        sync_s: None,
        sync_tags: None,
        upstream: None,
        clone_depth: Some(text("1")),
        force_path: None,
    };
    let first = app.clone();
    app.name = text("lib");
    app.path = None;
    app.groups = None;
    app.clone_depth = Some(text("deep"));
    doc.project = Some(vec![first, app]);
    let manifest = resolve(&vec![doc]).unwrap();
    let made = jobs_for(manifest.projects(), &manifest, &text("/w"));
    assert_eq!(
        made,
        vec![
            SyncJob {
                name: text("app"),
                path: text("src/app"),
                url: text("https://git.example/app.git"),
                destination: text("/w/src/app"),
                revision: Some(text("stable")),
                depth: Some(1),
                required: false,
            },
            SyncJob {
                name: text("lib"),
                path: text("lib"),
                url: text("https://git.example/lib.git"),
                destination: text("/w/lib"),
                revision: Some(text("stable")),
                depth: None,
                required: true,
            },
        ]
    );
    let mut stray = manifest.projects()[0].clone();
    stray.remote = Some(text("elsewhere"));
    assert_eq!(job_for(&stray, &manifest, &text("/w")), None);
    stray.remote = None;
    assert_eq!(job_for(&stray, &manifest, &text("/w")), None);
}

#[test]
fn errors_are_told_apart_by_their_class() {
    assert_eq!(classify(ErrorClass::Retryable), FailureKind::ConnectionReset);
    assert_eq!(classify(ErrorClass::Unauthenticated), FailureKind::AuthenticationRejected);
    assert_eq!(classify(ErrorClass::PermissionDenied), FailureKind::AuthenticationRejected);
    assert_eq!(classify(ErrorClass::ResourceExhaustion), FailureKind::DiskFull);
    assert_eq!(classify(ErrorClass::Conflict), FailureKind::CheckoutConflict);
    for class in [
        ErrorClass::Cancelled,
        ErrorClass::Corruption,
        ErrorClass::Validation,
        ErrorClass::Unsupported,
        ErrorClass::NotFound,
        ErrorClass::Unknown,
    ] {
        assert_eq!(classify(class), FailureKind::Other);
    }
    assert_eq!(
        failure_report(ErrorClass::Cancelled, text("stop"), 4),
        AttemptReport::Aborted { duration_ms: 4 }
    );
    assert_eq!(
        failure_report(ErrorClass::Conflict, text("dirty"), 4),
        AttemptReport::Failed {
            kind: FailureKind::CheckoutConflict,
            detail: text("dirty"),
            duration_ms: 4
        }
    );
}

#[test]
fn problems_with_the_file_system_are_failures_of_their_kind() {
    let failed = |kind: FailureKind| AttemptReport::Failed { kind, detail: text("why"), duration_ms: 9 };
    assert_eq!(io_failure_report(IoProblem::StorageFull, text("why"), 9), failed(FailureKind::DiskFull));
    assert_eq!(io_failure_report(IoProblem::TimedOut, text("why"), 9), failed(FailureKind::Timeout));
    assert_eq!(io_failure_report(IoProblem::Other, text("why"), 9), failed(FailureKind::Other));
}

#[test]
fn failed_units_are_reported_with_their_detail() {
    let mut all = jobs(3);
    all[0].url = text("ssh://host-without-a-path");
    let mut run = Orchestrator::new(all, 2);
    let (report, _) = drive(&mut run, &|index| {
        if index == 1 {
            failure(FailureKind::CheckoutConflict)
        } else {
            success()
        }
    });
    assert_eq!(report.results.len(), 3);
    for result in &report.results {
        assert_eq!(result.outcome == Outcome::Failed, result.error.is_some());
    }
    assert_eq!(report.failures().len(), 2);
}

#[test]
fn first_wait_is_the_base() {
    assert_eq!(backoff(0), 500);
    assert_eq!(backoff(4), 4000);
}

#[test]
fn failures_are_summed_up_in_order() {
    let mut run = Orchestrator::new(jobs(4), 4);
    let (report, _) = drive(&mut run, &|index| {
        if index % 2 == 1 {
            failure(FailureKind::DiskFull)
        } else {
            success()
        }
    });
    let failed: Vec<String> = report.failures().iter().map(|r| r.name.clone()).collect();
    assert_eq!(failed, vec![text("p2"), text("p4")]);
}
