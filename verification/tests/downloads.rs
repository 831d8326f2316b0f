use norted::downloads::queue::DownloadManager;
use norted::downloads::{
    identity_from_reference, DownloadAdmission, ModelDownloadJobId, ModelOperationPhase,
    ModelOperationProgress, DEFAULT_MAX_PARALLEL_DOWNLOADS, MAX_RECENT_TERMINAL_JOBS,
};

fn progress(id: &ModelDownloadJobId, phase: ModelOperationPhase, bytes: u64) -> ModelOperationProgress {
    ModelOperationProgress {
        job_id: id.clone(),
        model_ref: "hf:owner/model@main/model.gguf".to_owned(),
        provider: Some("hf".to_owned()),
        repository: Some("owner/model".to_owned()),
        filename: "model.gguf".to_owned(),
        phase,
        downloaded_bytes: bytes,
        total_bytes: Some(1_000),
        message: "working".to_owned(),
    }
}

#[test]
fn paused_attempt_releases_capacity_and_resumes_the_same_job_after_stopping() {
    let mut manager = DownloadManager::new(1);
    let (first, first_starts) = manager.enqueue("hf:owner/first@main/model.gguf".to_owned(), 0);
    let first_id = match first {
        DownloadAdmission::Started(job) => job.id,
        _ => panic!("first download should start"),
    };
    let first_start = first_starts.into_iter().next().expect("first start");
    let (second, _) = manager.enqueue("hf:owner/second@main/model.gguf".to_owned(), 1);
    let second_id = match second {
        DownloadAdmission::Queued(job) => job.id,
        _ => panic!("second download should queue"),
    };

    let (paused, replacement) = manager.pause(&first_id, 2).expect("pause succeeds");
    assert_eq!(paused.phase, ModelOperationPhase::Paused);
    assert_eq!(replacement.len(), 1);
    assert_eq!(replacement[0].id, second_id);

    let (resuming, starts) = manager.resume(&first_id, 3).expect("resume succeeds");
    assert_eq!(resuming.phase, ModelOperationPhase::Paused);
    assert!(starts.is_empty(), "old attempt must stop before resuming");
    let stopped = manager.finish_attempt(&first_id, first_start.generation, None, 4);
    assert!(
        stopped.starts.is_empty(),
        "the replacement still owns the slot"
    );

    let second_generation = replacement[0].generation;
    let resumed = manager.finish_attempt(
        &second_id,
        second_generation,
        Some((ModelOperationPhase::Installed, "installed".to_owned())),
        5,
    );
    assert_eq!(resumed.starts.len(), 1);
    assert_eq!(resumed.starts[0].id, first_id);
    assert_ne!(resumed.starts[0].generation, first_start.generation);
}

#[test]
fn cancelled_attempt_cannot_be_overwritten_and_defers_cleanup_until_it_stops() {
    let mut manager = DownloadManager::new(1);
    let (admission, starts) = manager.enqueue("hf:owner/model@main/model.gguf".to_owned(), 0);
    let id = match admission {
        DownloadAdmission::Started(job) => job.id,
        _ => panic!("download should start"),
    };
    let start = starts.into_iter().next().expect("download start");
    let partial = "model.part".to_owned();
    manager.register_partial_paths(&id, Some(start.generation), &vec![partial.clone()]);

    let (cancelled, transition) = manager.cancel(&id, 1).expect("cancel succeeds");
    assert_eq!(cancelled.phase, ModelOperationPhase::Cancelled);
    assert!(transition.cleanup.is_empty());

    let finished = manager.finish_attempt(
        &id,
        start.generation,
        Some((ModelOperationPhase::Failed, "late failure".to_owned())),
        2,
    );
    assert_eq!(finished.cleanup, [partial]);
    let snapshot = manager
        .snapshots(3)
        .into_iter()
        .find(|job| job.id == id)
        .expect("cancelled job remains visible");
    assert_eq!(snapshot.phase, ModelOperationPhase::Cancelled);
    assert_eq!(snapshot.message, "Download cancelled");
}

#[test]
fn pausing_a_queued_job_removes_it_from_scheduling_and_duplicate_admission() {
    let mut manager = DownloadManager::new(1);
    let (_, _) = manager.enqueue("hf:owner/active@main/model.gguf".to_owned(), 0);
    let model_ref = "hf:owner/queued@main/model.gguf".to_owned();
    let (queued, _) = manager.enqueue(model_ref.clone(), 1);
    let queued_id = match queued {
        DownloadAdmission::Queued(job) => job.id,
        _ => panic!("second download should queue"),
    };
    let (paused, starts) = manager.pause(&queued_id, 2).expect("queued pause succeeds");
    assert_eq!(paused.phase, ModelOperationPhase::Paused);
    assert!(starts.is_empty());
    assert!(matches!(
        manager.enqueue(model_ref, 3).0,
        DownloadAdmission::Duplicate(job) if job.id == queued_id && job.phase == ModelOperationPhase::Paused
    ));
}

#[test]
fn jobs_get_identifiers_of_their_own() {
    let first = ModelDownloadJobId::new();
    let second = ModelDownloadJobId::new();
    assert_ne!(first, second);
    let text = first.text();
    assert_eq!(text.len(), 36);
    let pieces: Vec<usize> = text.split('-').map(|piece| piece.len()).collect();
    assert_eq!(pieces, [8, 4, 4, 4, 12]);
    assert!(text.chars().all(|c| c == '-' || c.is_ascii_hexdigit()));
    assert_eq!(ModelDownloadJobId::from_text("job").text(), "job");
}

#[test]
fn references_show_what_is_downloaded() {
    assert_eq!(
        identity_from_reference("hf:owner/model@main/dir/model.gguf"),
        (
            Some("hf".to_owned()),
            Some("owner/model".to_owned()),
            Some("dir/model.gguf".to_owned())
        )
    );
    assert_eq!(identity_from_reference("plain"), (None, None, None));
}

#[test]
fn downloads_start_in_turn() {
    let mut manager = DownloadManager::new(1);
    let first = ModelDownloadJobId::from_text("z-first");
    let second = ModelDownloadJobId::from_text("y-second");
    let third = ModelDownloadJobId::from_text("x-third");
    let (_, starts) = manager.enqueue_as("hf:o/a@main/a".to_owned(), &first, 0);
    let _ = manager.enqueue_as("hf:o/b@main/b".to_owned(), &second, 1);
    let _ = manager.enqueue_as("hf:o/c@main/c".to_owned(), &third, 2);
    let shown = manager.snapshots(3);
    let positions: Vec<Option<usize>> = shown.iter().map(|job| job.queue_position).collect();
    assert_eq!(positions.iter().filter(|position| position.is_some()).count(), 2);
    let next = manager.finish_attempt(
        &first,
        starts[0].generation,
        Some((ModelOperationPhase::Installed, "installed".to_owned())),
        4,
    );
    assert_eq!(next.starts.len(), 1);
    assert_eq!(next.starts[0].id, second);
    let more = manager.set_maximum_parallel(2, 5);
    assert_eq!(more.len(), 1);
    assert_eq!(more[0].id, third);
    assert_eq!(manager.maximum_parallel(), 2);
}

#[test]
fn old_attempts_are_not_heard() {
    let mut manager = DownloadManager::new(1);
    let id = ModelDownloadJobId::from_text("job");
    let (_, starts) = manager.enqueue_as("hf:owner/model@main/model.gguf".to_owned(), &id, 0);
    let generation = starts[0].generation;
    manager.update(&progress(&id, ModelOperationPhase::Downloading, 100), Some(generation), 10_000_000_000);
    manager.update(&progress(&id, ModelOperationPhase::Downloading, 400), Some(generation), 20_000_000_000);
    manager.update(&progress(&id, ModelOperationPhase::Verifying, 999), Some(generation + 1), 21_000_000_000);
    let job = manager.snapshots(30_000_000_000).into_iter().next().expect("job");
    assert_eq!(job.phase, ModelOperationPhase::Downloading);
    assert_eq!(job.downloaded_bytes, 400);
    assert_eq!(job.progress, Some((400, 1_000)));
    assert_eq!(job.transfer, Some((300, 20_000_000_000)));
    assert_eq!(job.remaining_bytes, Some(600));
    assert_eq!(job.elapsed, 30_000_000_000);
    assert!(!manager.stop_requested(&id, generation));
    let _ = manager.pause(&id, 31_000_000_000).expect("pause succeeds");
    assert!(manager.stop_requested(&id, generation));
}

#[test]
fn refused_changes_name_the_reason() {
    let mut manager = DownloadManager::new(DEFAULT_MAX_PARALLEL_DOWNLOADS);
    let missing = ModelDownloadJobId::from_text("missing");
    assert!(manager.pause(&missing, 0).is_err());
    assert!(manager.resume(&missing, 0).is_err());
    assert!(manager.cancel(&missing, 0).is_err());
    assert_eq!(manager.model_ref(&missing), None);
    let id = ModelDownloadJobId::from_text("job");
    let (_, starts) = manager.enqueue_as("hf:owner/model@main/model.gguf".to_owned(), &id, 0);
    assert!(manager.resume(&id, 1).is_err());
    let _ = manager.finish_attempt(
        &id,
        starts[0].generation,
        Some((ModelOperationPhase::Installed, "installed".to_owned())),
        2,
    );
    assert!(manager.pause(&id, 3).is_err());
    assert!(manager.cancel(&id, 3).is_err());
}

#[test]
fn few_finished_downloads_are_kept() {
    let mut manager = DownloadManager::new(1);
    for round in 0..40u64 {
        let id = ModelDownloadJobId::from_text(&format!("job-{round}"));
        let (_, starts) = manager.enqueue_as(format!("hf:o/m@main/{round}"), &id, round);
        let _ = manager.finish_attempt(
            &id,
            starts[0].generation,
            Some((ModelOperationPhase::Installed, "installed".to_owned())),
            round,
        );
    }
    let shown = manager.snapshots(100);
    assert!(shown.len() <= MAX_RECENT_TERMINAL_JOBS + 1);
    assert!(shown.iter().all(|job| job.is_terminal()));
    assert!(shown.iter().any(|job| job.model_ref == "hf:o/m@main/39"));
    assert!(shown.iter().all(|job| job.model_ref != "hf:o/m@main/0"));
}

#[test]
fn finished_phases_are_terminal() {
    for phase in [
        ModelOperationPhase::Installed,
        ModelOperationPhase::Failed,
        ModelOperationPhase::Cancelled,
    ] {
        assert!(phase.is_terminal());
    }
    for phase in [
        ModelOperationPhase::Queued,
        ModelOperationPhase::Downloading,
        ModelOperationPhase::Paused,
    ] {
        assert!(!phase.is_terminal());
    }
}

fn running(manager: &DownloadManager) -> usize {
    manager
        .snapshots(0)
        .iter()
        .filter(|job| job.phase == ModelOperationPhase::Resolving)
        .count()
}

fn waiting(manager: &DownloadManager) -> usize {
    manager
        .snapshots(0)
        .iter()
        .filter(|job| job.phase == ModelOperationPhase::Queued)
        .count()
}

#[test]
fn no_more_run_than_may_and_none_waits_in_vain() {
    let mut manager = DownloadManager::new(2);
    let ids: Vec<ModelDownloadJobId> = (0..5u64)
        .map(|round| ModelDownloadJobId::from_text(&format!("job-{round}")))
        .collect();
    let mut starts = Vec::new();
    for (round, id) in ids.iter().enumerate() {
        let (_, begun) = manager.enqueue_as(format!("hf:o/m@main/{round}"), id, 0);
        starts.extend(begun);
        assert_eq!(running(&manager), (round + 1).min(2));
    }
    assert_eq!((running(&manager), waiting(&manager)), (2, 3));
    assert_eq!(starts.len(), 2);
    assert!(!manager.stop_requested(&ids[1], starts[1].generation));

    let (_, begun) = manager.pause(&ids[0], 1).expect("pause succeeds");
    assert_eq!(begun.iter().map(|start| start.id.clone()).collect::<Vec<_>>(), [ids[2].clone()]);
    assert_eq!((running(&manager), waiting(&manager)), (2, 2));
    let finished = manager.finish_attempt(&ids[0], starts[0].generation, None, 2);
    assert!(finished.starts.is_empty());
    let _ = manager.resume(&ids[0], 3).expect("resume succeeds");
    assert_eq!((running(&manager), waiting(&manager)), (2, 3));
    let cancelled = manager.cancel(&ids[2], 4);
    assert!(cancelled.is_ok());
    assert_eq!((running(&manager), waiting(&manager)), (2, 2));

    let _ = manager.set_maximum_parallel(1, 5);
    assert_eq!((running(&manager), waiting(&manager)), (2, 2));
    let finished = manager.finish_attempt(
        &ids[1],
        starts[1].generation,
        Some((ModelOperationPhase::Installed, "installed".to_owned())),
        6,
    );
    assert!(finished.starts.is_empty());
    assert_eq!((running(&manager), waiting(&manager)), (1, 2));
    let begun = manager.set_maximum_parallel(3, 7);
    assert_eq!(
        begun.iter().map(|start| start.id.clone()).collect::<Vec<_>>(),
        [ids[4].clone(), ids[0].clone()]
    );
    assert_ne!(begun[1].generation, starts[0].generation);
    assert_eq!((running(&manager), waiting(&manager)), (3, 0));
}
