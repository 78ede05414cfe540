use rtranslator::resource::ArchiveProvider;
use rtranslator::task::{
    apply_event, extracting_progress, remove_task, task_id, update_task_progress, ArchiveTask,
    ArchiveTaskStage, PipelineEvent, TaskRegistry, FULL_PROGRESS,
};

#[test]
fn task_ids_join_provider_and_identifier() {
    assert_eq!(task_id(&ArchiveProvider::Modrinth, "AANobbMI"), "modrinth-AANobbMI");
    assert_eq!(task_id(&ArchiveProvider::CurseForge, "238222"), "curseforge-238222");
}

#[test]
fn resubmission_returns_the_running_task() {
    let mut tasks = TaskRegistry::new();
    let first = task_id(&ArchiveProvider::Modrinth, "sodium");
    assert!(tasks.submit(&first, ArchiveTask::preparing()));
    update_task_progress(&mut tasks, &first, Some(ArchiveTaskStage::Downloading), 2000);
    let second = task_id(&ArchiveProvider::Modrinth, "sodium");
    assert_eq!(first, second);
    assert!(!tasks.submit(&second, ArchiveTask::preparing()));
    let t = tasks.get(&second).unwrap();
    assert_eq!(t.stage, ArchiveTaskStage::Downloading);
    assert_eq!(t.progress, 2000);
    assert!(tasks.submit("modrinth-lithium", ArchiveTask::preparing()));
}

#[test]
fn finished_stages() {
    assert!(ArchiveTaskStage::Completed.is_finished());
    assert!(ArchiveTaskStage::Failed.is_finished());
    for s in [
        ArchiveTaskStage::Preparing,
        ArchiveTaskStage::Downloading,
        ArchiveTaskStage::Extracting,
        ArchiveTaskStage::Saving,
    ] {
        assert!(!s.is_finished());
    }
}

#[test]
fn progress_only_rises() {
    let mut tasks = TaskRegistry::new();
    tasks.submit("t", ArchiveTask::preparing());
    update_task_progress(&mut tasks, "t", None, 4000);
    update_task_progress(&mut tasks, "t", Some(ArchiveTaskStage::Extracting), 3000);
    let t = tasks.get("t").unwrap();
    assert_eq!(t.stage, ArchiveTaskStage::Extracting);
    assert_eq!(t.progress, 4000);
}

#[test]
fn failure_keeps_progress() {
    let mut tasks = TaskRegistry::new();
    tasks.submit("t", ArchiveTask::preparing());
    apply_event(&mut tasks, "t", PipelineEvent::Planned);
    apply_event(&mut tasks, "t", PipelineEvent::Downloaded(5000));
    apply_event(&mut tasks, "t", PipelineEvent::Failed);
    let t = tasks.get("t").unwrap();
    assert_eq!(t.stage, ArchiveTaskStage::Failed);
    assert_eq!(t.progress, 4750);
    assert_eq!(t.mod_id, None);
}

#[test]
fn poll_removes_finished_tasks_after_reporting_them() {
    let mut tasks = TaskRegistry::new();
    tasks.submit("t", ArchiveTask::preparing());
    assert_eq!(tasks.poll("t"), Some(ArchiveTask::preparing()));
    assert!(tasks.get("t").is_some());
    tasks.complete("t", 7);
    let seen = tasks.poll("t").unwrap();
    assert_eq!(seen.stage, ArchiveTaskStage::Completed);
    assert_eq!(seen.mod_id, Some(7));
    assert_eq!(tasks.poll("t"), None);
    assert_eq!(tasks.get("unknown"), None);
}

#[test]
fn removal_is_idempotent() {
    let mut tasks = TaskRegistry::new();
    tasks.submit("t", ArchiveTask::preparing());
    remove_task(&mut tasks, "t");
    remove_task(&mut tasks, "t");
    assert_eq!(tasks.get("t"), None);
    assert!(tasks.submit("t", ArchiveTask::preparing()));
}

#[test]
fn pipeline_run_moves_through_stages_with_rising_progress() {
    let mut tasks = TaskRegistry::new();
    let id = task_id(&ArchiveProvider::Modrinth, "two-versions");
    tasks.submit(&id, ArchiveTask::preparing());
    let events = [
        PipelineEvent::Planned,
        PipelineEvent::Downloaded(5000),
        PipelineEvent::Downloaded(10000),
        PipelineEvent::DownloadsDone,
        PipelineEvent::Merged(0, 2),
        PipelineEvent::Merged(1, 2),
        PipelineEvent::Extracted,
        PipelineEvent::Saved(42),
    ];
    let mut stages = vec![tasks.get(&id).unwrap().stage];
    let mut last = tasks.get(&id).unwrap().progress;
    for e in events {
        apply_event(&mut tasks, &id, e);
        let t = tasks.get(&id).unwrap();
        assert!(t.progress >= last);
        last = t.progress;
        if *stages.last().unwrap() != t.stage {
            stages.push(t.stage);
        }
    }
    assert_eq!(
        stages,
        vec![
            ArchiveTaskStage::Preparing,
            ArchiveTaskStage::Downloading,
            ArchiveTaskStage::Extracting,
            ArchiveTaskStage::Saving,
            ArchiveTaskStage::Completed,
        ]
    );
    assert_eq!(last, FULL_PROGRESS);
    assert_eq!(tasks.get(&id).unwrap().mod_id, Some(42));
}

#[test]
fn extraction_progress_steps() {
    assert_eq!(extracting_progress(0, 4), 8500);
    assert_eq!(extracting_progress(1, 4), 8750);
    assert_eq!(extracting_progress(3, 3), 9500);
    assert_eq!(extracting_progress(0, 0), 9500);
}

#[test]
fn finished_tasks_ignore_later_events() {
    let mut tasks = TaskRegistry::new();
    tasks.submit("t", ArchiveTask::preparing());
    apply_event(&mut tasks, "t", PipelineEvent::Failed);
    apply_event(&mut tasks, "t", PipelineEvent::Planned);
    apply_event(&mut tasks, "t", PipelineEvent::Saved(3));
    let t = tasks.get("t").unwrap();
    assert_eq!(t.stage, ArchiveTaskStage::Failed);
    assert_eq!(t.progress, 500);
    assert_eq!(t.mod_id, None);
}

#[test]
fn stages_never_move_back() {
    let mut tasks = TaskRegistry::new();
    tasks.submit("t", ArchiveTask::preparing());
    update_task_progress(&mut tasks, "t", Some(ArchiveTaskStage::Saving), 9500);
    update_task_progress(&mut tasks, "t", Some(ArchiveTaskStage::Downloading), 1000);
    let t = tasks.get("t").unwrap();
    assert_eq!(t.stage, ArchiveTaskStage::Saving);
    assert_eq!(t.progress, 9500);
    apply_event(&mut tasks, "t", PipelineEvent::Planned);
    assert_eq!(tasks.get("t").unwrap().stage, ArchiveTaskStage::Saving);
}

#[test]
fn terminal_stages_absorb_updates() {
    let mut tasks = TaskRegistry::new();
    tasks.submit("done", ArchiveTask::preparing());
    tasks.complete("done", 9);
    update_task_progress(&mut tasks, "done", Some(ArchiveTaskStage::Preparing), 0);
    tasks.fail("done");
    let t = tasks.get("done").unwrap();
    assert_eq!(t.stage, ArchiveTaskStage::Completed);
    assert_eq!(t.progress, FULL_PROGRESS);
    assert_eq!(t.mod_id, Some(9));

    tasks.submit("failed", ArchiveTask::preparing());
    update_task_progress(&mut tasks, "failed", Some(ArchiveTaskStage::Extracting), 6000);
    tasks.fail("failed");
    tasks.complete("failed", 1);
    update_task_progress(&mut tasks, "failed", Some(ArchiveTaskStage::Saving), 9000);
    let t = tasks.get("failed").unwrap();
    assert_eq!(t.stage, ArchiveTaskStage::Failed);
    assert_eq!(t.progress, 6000);
    assert_eq!(t.mod_id, None);
}

#[test]
fn stage_ranks_follow_the_pipeline() {
    let order = [
        ArchiveTaskStage::Preparing,
        ArchiveTaskStage::Downloading,
        ArchiveTaskStage::Extracting,
        ArchiveTaskStage::Saving,
        ArchiveTaskStage::Completed,
        ArchiveTaskStage::Failed,
    ];
    for (i, s) in order.iter().enumerate() {
        assert_eq!(s.rank() as usize, i);
    }
}
