use xharness::jobs::{
    JobConfigError, JobError, JobEventKind, JobId, JobOutcome, JobRegistry, JobRegistryConfig,
    JobStatus, KillResult, TerminalJobStatus,
};

fn start(registry: &mut JobRegistry, owner: &str, kind: &str, label: &str) -> JobId {
    let reservation = registry
        .reserve(owner.to_owned(), kind.to_owned(), label.to_owned(), None)
        .expect("reserve job");
    let (id, _started) = registry
        .commit(reservation, Some(1234), 1)
        .expect("commit job");
    id
}

fn finish(registry: &mut JobRegistry, id: &JobId, outcome: JobOutcome) {
    registry.settle(id, outcome, 2);
}

fn completed(detail: &str) -> JobOutcome {
    JobOutcome::completed(detail.to_owned())
}

/// A kill whose cancellation hook returns `cancel`.
fn kill(
    registry: &mut JobRegistry,
    owner: &str,
    id: &str,
    cancel: Result<(), String>,
) -> Result<KillResult, JobError> {
    match registry.kill_prepare(owner, id)? {
        Some(result) => Ok(result),
        None => registry.kill_complete(owner, id, cancel).0,
    }
}

#[test]
fn dynamic_configuration_rejects_every_zero_limit_without_panicking() {
    let config = JobRegistryConfig {
        max_concurrent_jobs_per_owner: 0,
        ..JobRegistryConfig::default()
    };
    assert!(matches!(
        JobRegistry::try_new(config),
        Err(JobConfigError::InvalidConcurrentLimit)
    ));

    let config = JobRegistryConfig {
        default_output_limit_bytes: 0,
        ..JobRegistryConfig::default()
    };
    assert!(matches!(
        JobRegistry::try_new(config),
        Err(JobConfigError::InvalidOutputLimit)
    ));

    let config = JobRegistryConfig {
        max_retained_jobs_per_owner: 0,
        ..JobRegistryConfig::default()
    };
    assert!(matches!(
        JobRegistry::try_new(config),
        Err(JobConfigError::InvalidRetentionLimit)
    ));

    let config = JobRegistryConfig {
        event_capacity: 0,
        ..JobRegistryConfig::default()
    };
    assert!(matches!(
        JobRegistry::try_new(config),
        Err(JobConfigError::InvalidEventCapacity)
    ));
}

#[test]
fn reservation_preflights_capacity_and_failed_start_does_not_consume_an_id() {
    let mut registry = JobRegistry::new(JobRegistryConfig {
        max_concurrent_jobs_per_owner: 1,
        ..JobRegistryConfig::default()
    });
    let abandoned = registry
        .reserve("owner".to_owned(), "bash".to_owned(), "will not start".to_owned(), None)
        .unwrap();
    assert!(matches!(
        registry.reserve("owner".to_owned(), "bash".to_owned(), "blocked".to_owned(), None),
        Err(JobError::Capacity { limit: 1 })
    ));
    registry.release(&abandoned);

    let id = start(&mut registry, "owner", "bash", "first actual process");
    assert_eq!(id.as_str(), "bash-1");
    finish(&mut registry, &id, completed("exit code: 0"));
    let next = start(&mut registry, "owner", "bash", "second process");
    assert_eq!(next.as_str(), "bash-2");
    finish(&mut registry, &next, completed("exit code: 0"));
}

#[test]
fn validates_identity_and_hides_foreign_predictable_ids() {
    let mut registry = JobRegistry::with_defaults();
    assert!(matches!(
        registry.reserve("".to_owned(), "bash".to_owned(), "x".to_owned(), None),
        Err(JobError::EmptyOwner)
    ));
    assert!(matches!(
        registry.reserve("owner".to_owned(), "".to_owned(), "x".to_owned(), None),
        Err(JobError::EmptyKind)
    ));
    assert!(matches!(
        registry.reserve("owner".to_owned(), "bash".to_owned(), "".to_owned(), None),
        Err(JobError::EmptyLabel)
    ));
    assert!(matches!(
        registry.reserve("owner".to_owned(), "bash".to_owned(), "x".to_owned(), Some(0)),
        Err(JobError::InvalidOutputLimit)
    ));

    let id = start(&mut registry, "alice", "bash", "secret label");
    assert_eq!(registry.list("bob"), Vec::new());
    assert_eq!(
        registry.get("bob", id.as_str()).unwrap_err(),
        JobError::NotFound {
            id: id.as_str().to_owned()
        }
    );
    assert_eq!(
        registry.get("bob", "bash-99").unwrap_err(),
        JobError::NotFound {
            id: "bash-99".to_owned()
        }
    );
    finish(&mut registry, &id, completed("exit code: 0"));
}

#[test]
fn stream_reads_are_consuming_bounded_and_preserve_split_unicode() {
    let mut registry = JobRegistry::with_defaults();
    let reservation = registry
        .reserve("owner".to_owned(), "bash".to_owned(), "stream".to_owned(), Some(5))
        .unwrap();
    let (id, _) = registry.commit(reservation, None, 1).unwrap();

    registry.publish(&id, true, &[0xc3]);
    let partial = registry.read("owner", id.as_str()).unwrap();
    assert_eq!(partial.stdout, "");
    assert!(!partial.stdout_truncated);
    registry.publish(&id, true, &[0xa9]);
    registry.publish(&id, false, "abcdef".as_bytes());
    let complete = registry.read("owner", id.as_str()).unwrap();
    assert_eq!(complete.stdout, "é");
    assert_eq!(complete.stderr, "bcdef");
    assert!(complete.stderr_truncated);
    let consumed = registry.read("owner", id.as_str()).unwrap();
    assert_eq!(consumed.stdout, "");
    assert_eq!(consumed.stderr, "");
    assert!(!consumed.stderr_truncated);
    finish(&mut registry, &id, completed("exit code: 0"));
    assert!(
        registry
            .read("owner", id.as_str())
            .unwrap()
            .snapshot
            .reported
    );
}

#[test]
fn all_terminal_states_are_first_wins_and_release_capacity() {
    for outcome in [
        JobOutcome::completed("exit code: 7".to_owned()),
        JobOutcome::killed("cancelled".to_owned()),
        JobOutcome::failed("transport failed".to_owned()),
    ] {
        let mut registry = JobRegistry::new(JobRegistryConfig {
            max_concurrent_jobs_per_owner: 1,
            ..JobRegistryConfig::default()
        });
        let id = start(&mut registry, "owner", "bash", "one");
        let expected = match outcome.status {
            TerminalJobStatus::Completed => JobStatus::Completed,
            TerminalJobStatus::Killed => JobStatus::Killed,
            TerminalJobStatus::Failed => JobStatus::Failed,
        };
        finish(&mut registry, &id, outcome);
        assert_eq!(registry.get("owner", id.as_str()).unwrap().status, expected);
        let replacement = start(&mut registry, "owner", "bash", "replacement");
        finish(&mut registry, &replacement, completed("exit code: 0"));
    }
}

#[test]
fn retention_prunes_only_old_terminal_records_for_the_same_owner() {
    let mut registry = JobRegistry::new(JobRegistryConfig {
        max_concurrent_jobs_per_owner: 3,
        max_retained_jobs_per_owner: 2,
        ..JobRegistryConfig::default()
    });
    let first = start(&mut registry, "alice", "bash", "first");
    finish(&mut registry, &first, completed("exit code: 0"));
    let second = start(&mut registry, "alice", "bash", "second");
    finish(&mut registry, &second, completed("exit code: 0"));
    let foreign = start(&mut registry, "bob", "bash", "foreign");
    finish(&mut registry, &foreign, completed("exit code: 0"));

    let third = start(&mut registry, "alice", "bash", "third");
    assert_eq!(
        registry
            .list("alice")
            .into_iter()
            .map(|job| job.id.as_str().to_owned())
            .collect::<Vec<_>>(),
        [second.as_str().to_owned(), third.as_str().to_owned()]
    );
    assert!(matches!(
        registry.get("alice", first.as_str()),
        Err(JobError::NotFound { .. })
    ));
    assert_eq!(registry.list("bob")[0].id.as_str(), foreign.as_str());
    finish(&mut registry, &third, completed("exit code: 0"));

    let mut active_registry = JobRegistry::new(JobRegistryConfig {
        max_concurrent_jobs_per_owner: 2,
        max_retained_jobs_per_owner: 1,
        ..JobRegistryConfig::default()
    });
    let active_one = start(&mut active_registry, "owner", "bash", "active one");
    let active_two = start(&mut active_registry, "owner", "bash", "active two");
    assert_eq!(active_registry.list("owner").len(), 2);
    finish(&mut active_registry, &active_one, completed("exit code: 0"));
    finish(&mut active_registry, &active_two, completed("exit code: 0"));
}

#[test]
fn dropping_a_producer_lease_force_fails_instead_of_hanging() {
    let mut registry = JobRegistry::with_defaults();
    let id = start(&mut registry, "owner", "bash", "broken producer");
    registry.abandon(&id, 3);
    let snapshot = registry.get("owner", id.as_str()).unwrap();
    assert_eq!(snapshot.status, JobStatus::Failed);
    assert!(snapshot
        .detail
        .unwrap()
        .contains("producer stopped before publishing"));
}

#[test]
fn kill_is_idempotent_and_a_throwing_cancel_mutates_nothing() {
    let mut registry = JobRegistry::with_defaults();
    let bad_id = start(&mut registry, "owner", "bash", "bad cancel");
    assert!(matches!(
        kill(&mut registry, "owner", bad_id.as_str(), Err("cancel boom".to_owned())),
        Err(JobError::CancelFailed { .. })
    ));
    let untouched = registry.get("owner", bad_id.as_str()).unwrap();
    assert_eq!(untouched.status, JobStatus::Running);
    assert!(!untouched.reported);
    finish(&mut registry, &bad_id, completed("exit code: 0"));
    assert_eq!(
        kill(&mut registry, "owner", bad_id.as_str(), Err("cancel boom".to_owned())).unwrap(),
        KillResult::AlreadyFinished
    );

    let mut cancellations = 0;
    let id = start(&mut registry, "owner", "bash", "killable");
    let mut counting_kill = |registry: &mut JobRegistry| match registry
        .kill_prepare("owner", id.as_str())
        .unwrap()
    {
        Some(result) => result,
        None => {
            cancellations += 1;
            registry.kill_complete("owner", id.as_str(), Ok(())).0.unwrap()
        }
    };
    assert_eq!(counting_kill(&mut registry), KillResult::Requested);
    assert_eq!(
        registry.get("owner", id.as_str()).unwrap().status,
        JobStatus::Stopping
    );
    assert!(registry.get("owner", id.as_str()).unwrap().reported);
    assert_eq!(counting_kill(&mut registry), KillResult::Requested);
    assert_eq!(cancellations, 2);
    finish(&mut registry, &id, JobOutcome::killed("cancelled".to_owned()));
}

#[test]
fn lifecycle_events_are_ordered_and_contained_by_broadcast_lag() {
    let mut registry = JobRegistry::with_defaults();
    let reservation = registry
        .reserve("owner".to_owned(), "bash".to_owned(), "events".to_owned(), None)
        .unwrap();
    let (id, started) = registry.commit(reservation, None, 1).unwrap();
    assert_eq!(started.kind, JobEventKind::Started);
    assert_eq!(registry.kill_prepare("owner", id.as_str()).unwrap(), None);
    let (result, stopping) = registry.kill_complete("owner", id.as_str(), Ok(()));
    assert_eq!(result.unwrap(), KillResult::Requested);
    assert_eq!(stopping.unwrap().kind, JobEventKind::Stopping);
    let finished = registry
        .settle(&id, JobOutcome::killed("cancelled".to_owned()), 2)
        .unwrap();
    assert_eq!(finished.kind, JobEventKind::Finished);
    assert_eq!(finished.job.status, JobStatus::Killed);
}

#[test]
fn shutdown_cancels_jobs_and_bounds_noncompliant_producers() {
    let mut registry = JobRegistry::with_defaults();
    let id = start(&mut registry, "owner", "bash", "hang");
    let mut cancellations = 0;

    let (ids, mut report) = registry.shutdown_begin();
    for job in &ids {
        if registry.is_settled(job) {
            continue;
        }
        cancellations += 1;
        registry.shutdown_cancelled(&mut report, job, Ok(()), 5);
    }
    // The grace period runs out before the producer settles.
    for job in &ids {
        if !registry.is_settled(job) {
            registry.shutdown_timed_out(&mut report, job, 6);
        }
    }
    assert_eq!(report.jobs, 1);
    assert_eq!(report.timed_out, 1);
    assert_eq!(cancellations, 1);
    assert_eq!(
        registry.get("owner", id.as_str()).unwrap().status,
        JobStatus::Failed
    );
    assert!(matches!(
        registry.reserve("owner".to_owned(), "bash".to_owned(), "late".to_owned(), None),
        Err(JobError::ShuttingDown)
    ));
    // Late producer settlement cannot replace the shutdown first-wins state.
    registry.settle(&id, JobOutcome::killed("late".to_owned()), 7);
    assert_eq!(
        registry.get("owner", id.as_str()).unwrap().status,
        JobStatus::Failed
    );
}

#[test]
fn shutdown_contains_cancel_hook_failures_and_preserves_first_terminal_state() {
    let mut registry = JobRegistry::with_defaults();
    let id = start(&mut registry, "owner", "bash", "uncancellable");

    let (ids, mut report) = registry.shutdown_begin();
    for job in &ids {
        if !registry.is_settled(job) {
            registry.shutdown_cancelled(&mut report, job, Err("producer refused".to_owned()), 5);
        }
    }
    for job in &ids {
        if !registry.is_settled(job) {
            registry.shutdown_timed_out(&mut report, job, 6);
        }
    }
    assert_eq!(report.jobs, 1);
    assert_eq!(report.cancellation_failures, 1);
    assert_eq!(report.timed_out, 0);
    assert!(!report.is_graceful());
    let forced = registry.get("owner", id.as_str()).unwrap();
    assert_eq!(forced.status, JobStatus::Failed);
    assert!(forced.detail.unwrap().contains("may be orphaned"));

    registry.settle(&id, JobOutcome::completed("late success".to_owned()), 7);
    assert_eq!(
        registry.get("owner", id.as_str()).unwrap().status,
        JobStatus::Failed
    );
}

#[test]
fn wait_settlement_reports_only_terminal_jobs() {
    let mut registry = JobRegistry::with_defaults();
    let id = start(&mut registry, "owner", "bash", "wait");
    let live = registry.wait_settle("owner", id.as_str()).unwrap();
    assert_eq!(live.status, JobStatus::Running);
    assert!(!live.reported);
    finish(&mut registry, &id, completed("exit code: 0"));
    let settled = registry.wait_settle("owner", id.as_str()).unwrap();
    assert_eq!(settled.status, JobStatus::Completed);
    assert!(settled.reported);
    assert_eq!(settled.finished_at_ms, Some(2));
    assert_eq!(settled.detail.as_deref(), Some("exit code: 0"));
}

#[test]
fn job_ids_sort_like_strings_and_statuses_classify() {
    let mut registry = JobRegistry::with_defaults();
    let b = start(&mut registry, "o", "zeta", "z");
    let a = start(&mut registry, "o", "alpha", "a");
    let (ids, report) = registry.shutdown_begin();
    assert_eq!(
        ids.iter().map(|id| id.as_str().to_owned()).collect::<Vec<_>>(),
        vec![a.as_str().to_owned(), b.as_str().to_owned()]
    );
    assert!(report.is_graceful());
    assert!(JobStatus::Completed.is_terminal());
    assert!(!JobStatus::Stopping.is_terminal());
    assert_eq!(
        JobStatus::from_terminal(TerminalJobStatus::Killed),
        JobStatus::Killed
    );
    assert_eq!(JobRegistryConfig::default().validate(), Ok(()));
}

#[test]
fn wait_refuses_a_zero_timeout_before_looking_the_job_up() {
    let mut registry = JobRegistry::with_defaults();
    let id = start(&mut registry, "owner", "bash", "sleep");
    assert_eq!(registry.wait_begin("owner", id.as_str(), 0), Err(JobError::InvalidWaitTimeout));
    assert_eq!(registry.wait_begin("nobody", "missing", 0), Err(JobError::InvalidWaitTimeout));
    let snapshot = registry.wait_begin("owner", id.as_str(), 1).unwrap();
    assert_eq!(snapshot.status, JobStatus::Running);
    assert!(!snapshot.reported);
    assert!(matches!(registry.wait_begin("other", id.as_str(), 5), Err(JobError::NotFound { .. })));
}
