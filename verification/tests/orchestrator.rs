use ani_dl::batch::{BatchError, BatchPhase, DownloadBatch, Orchestrator, DEFAULT_CAPACITY};
use ani_dl::progress::parse_line;
use ani_dl::range::{narrow, needs_range, parse_range};
use ani_dl::task::{FailureKind, StepError, TaskState};

fn episodes(n: usize) -> Vec<String> {
    (0..n).map(|i| format!("https://example.org/ep/{}", i)).collect()
}

fn dispatched(n: usize, capacity: usize) -> Orchestrator {
    let batch = DownloadBatch::new(episodes(n), "Title".to_string(), capacity).unwrap();
    Orchestrator::dispatch(batch)
}

fn running_now(batch: &Orchestrator) -> usize {
    batch.outcomes().iter().filter(|s| **s == TaskState::Running).count()
}

#[test]
fn a_batch_needs_an_episode_and_a_worker() {
    assert_eq!(
        DownloadBatch::new(Vec::new(), "Title".to_string(), 12).err(),
        Some(BatchError::Empty)
    );
    assert_eq!(
        DownloadBatch::new(episodes(3), "Title".to_string(), 0).err(),
        Some(BatchError::NoWorkers)
    );
    assert_eq!(
        DownloadBatch::new(Vec::new(), "Title".to_string(), 0).err(),
        Some(BatchError::Empty)
    );
    let batch = DownloadBatch::new(episodes(3), "Title".to_string(), 2).unwrap();
    assert_eq!(batch.len(), 3);
    assert_eq!(batch.capacity(), 2);
    assert_eq!(batch.directory(), "Title");
    assert_eq!(batch.phase(), BatchPhase::Assembling);
}

#[test]
fn default_capacity_is_a_dozen() {
    assert_eq!(DEFAULT_CAPACITY, 12);
}

#[test]
fn dispatch_queues_one_pending_task_per_source() {
    let batch = dispatched(4, 2);
    assert_eq!(batch.total(), 4);
    assert_eq!(batch.capacity(), 2);
    assert_eq!(batch.completed(), 0);
    assert_eq!(batch.failed(), 0);
    assert_eq!(batch.running(), 0);
    assert_eq!(batch.started(), 0);
    assert_eq!(batch.directory(), "Title");
    assert_eq!(batch.phase(), BatchPhase::Dispatched);
    assert!(!batch.is_complete());
    assert_eq!(batch.outcomes(), vec![TaskState::Pending; 4]);
    for position in 0..4 {
        let task = batch.task(position).unwrap();
        assert_eq!(task.index(), position + 1);
        assert_eq!(task.percent(), 0);
        assert_eq!(batch.source(position), Some(&format!("https://example.org/ep/{}", position)));
    }
    assert!(batch.task(4).is_none());
    assert!(batch.source(4).is_none());
}

#[test]
fn tasks_start_in_source_order() {
    let mut batch = dispatched(5, 5);
    for expected in 0..5 {
        assert_eq!(batch.start_next(), Some(expected));
        assert_eq!(batch.started(), expected + 1);
    }
    assert_eq!(batch.start_next(), None);
    assert_eq!(batch.outcomes(), vec![TaskState::Running; 5]);
}

#[test]
fn no_more_tasks_run_than_the_pool_has_workers() {
    let mut batch = dispatched(10, 3);
    assert_eq!(batch.start_next(), Some(0));
    assert_eq!(batch.start_next(), Some(1));
    assert_eq!(batch.start_next(), Some(2));
    assert_eq!(batch.start_next(), None);
    assert_eq!(batch.running(), 3);
    assert_eq!(batch.phase(), BatchPhase::Draining);
    assert_eq!(batch.exit(1, true), Ok(()));
    assert_eq!(batch.running(), 2);
    assert_eq!(batch.start_next(), Some(3));
    assert_eq!(batch.start_next(), None);
}

#[test]
fn draining_ends_with_every_task_terminal_whatever_the_capacity() {
    for capacity in 1..=12 {
        let total = 10;
        let mut batch = dispatched(total, capacity);
        let mut most = 0;
        let mut steps = 0;
        while !batch.is_complete() {
            while batch.start_next().is_some() {}
            let now = running_now(&batch);
            assert_eq!(now, batch.running());
            assert!(now <= capacity);
            assert!(now >= 1);
            most = most.max(now);
            let states = batch.outcomes();
            let position = if steps % 2 == 0 {
                states.iter().position(|s| *s == TaskState::Running).unwrap()
            } else {
                states.iter().rposition(|s| *s == TaskState::Running).unwrap()
            };
            assert_eq!(batch.exit(position, true), Ok(()));
            steps += 1;
        }
        assert_eq!(steps, total);
        assert_eq!(most, capacity.min(total));
        assert_eq!(batch.completed(), total);
        assert_eq!(batch.failed(), 0);
        assert_eq!(batch.running(), 0);
        assert_eq!(batch.phase(), BatchPhase::Complete);
        assert_eq!(batch.outcomes(), vec![TaskState::Succeeded; total]);
        assert_eq!(batch.start_next(), None);
    }
}

#[test]
fn every_success_reads_its_own_count() {
    let total = 8;
    let mut batch = dispatched(total, 4);
    let order = [2, 0, 3, 1, 5, 7, 4, 6];
    let mut started = 0;
    for &position in order.iter() {
        while started <= position {
            if batch.start_next().is_none() {
                break;
            }
            started += 1;
        }
        assert_eq!(batch.exit(position, true), Ok(()));
        while batch.start_next().is_some() {
            started += 1;
        }
    }
    assert!(batch.is_complete());
    assert_eq!(batch.completed(), total);
    let mut seen: Vec<usize> =
        (0..total).map(|p| batch.task(p).unwrap().completed()).collect();
    for (k, &position) in order.iter().enumerate() {
        assert_eq!(seen[position], k + 1);
    }
    seen.sort();
    assert_eq!(seen, (1..=total).collect::<Vec<usize>>());
}

#[test]
fn a_spawn_failure_does_not_stop_the_others() {
    let mut batch = dispatched(5, 12);
    while batch.start_next().is_some() {}
    assert_eq!(batch.exit(0, true), Ok(()));
    assert_eq!(batch.exit(1, true), Ok(()));
    assert_eq!(batch.fail_spawn(2, "No such file or directory".to_string()), Ok(()));
    assert!(!batch.is_complete());
    assert_eq!(batch.exit(3, true), Ok(()));
    assert_eq!(batch.exit(4, true), Ok(()));
    assert!(batch.is_complete());
    assert_eq!(batch.phase(), BatchPhase::Complete);
    assert_eq!(batch.completed(), 4);
    assert_eq!(batch.failed(), 1);
    assert_eq!(
        batch.outcomes(),
        vec![
            TaskState::Succeeded,
            TaskState::Succeeded,
            TaskState::Failed(FailureKind::Spawn),
            TaskState::Succeeded,
            TaskState::Succeeded,
        ]
    );
    let failed = batch.task(2).unwrap();
    assert_eq!(failed.index(), 3);
    assert_eq!(failed.reason(), Some("spawn error: No such file or directory".to_string()));
    assert_eq!(batch.task(4).unwrap().completed(), 4);
}

#[test]
fn an_exit_failure_is_counted_as_failed() {
    let mut batch = dispatched(3, 1);
    assert_eq!(batch.start_next(), Some(0));
    assert_eq!(batch.exit(0, false), Ok(()));
    assert_eq!(batch.start_next(), Some(1));
    assert_eq!(batch.exit(1, true), Ok(()));
    assert_eq!(batch.start_next(), Some(2));
    assert_eq!(batch.exit(2, false), Ok(()));
    assert!(batch.is_complete());
    assert_eq!(batch.completed(), 1);
    assert_eq!(batch.failed(), 2);
    assert_eq!(batch.task(0).unwrap().reason(), Some("exit failure".to_string()));
    assert_eq!(batch.task(1).unwrap().completed(), 1);
    assert_eq!(batch.task(1).unwrap().reason(), None);
}

#[test]
fn events_for_tasks_that_do_not_run_are_refused() {
    let mut batch = dispatched(3, 2);
    let line = parse_line("[download]  10.0% of 1MiB at 1MiB/s ETA 00:01");
    assert_eq!(batch.observe(0, &line, Some(10)), Err(StepError::NotRunning));
    assert_eq!(batch.exit(0, true), Err(StepError::NotRunning));
    assert_eq!(batch.fail_spawn(0, "x".to_string()), Err(StepError::NotRunning));
    assert_eq!(batch.observe(3, &line, Some(10)), Err(StepError::UnknownTask));
    assert_eq!(batch.exit(3, true), Err(StepError::UnknownTask));
    assert_eq!(batch.fail_spawn(3, "x".to_string()), Err(StepError::UnknownTask));
    assert_eq!(batch.phase(), BatchPhase::Dispatched);

    assert_eq!(batch.start_next(), Some(0));
    assert_eq!(batch.exit(0, true), Ok(()));
    assert_eq!(batch.exit(0, true), Err(StepError::NotRunning));
    assert_eq!(batch.exit(0, false), Err(StepError::NotRunning));
    assert_eq!(batch.observe(0, &line, Some(10)), Err(StepError::NotRunning));
    assert_eq!(batch.completed(), 1);
    assert_eq!(batch.failed(), 0);
    assert_eq!(batch.outcomes()[0], TaskState::Succeeded);
}

#[test]
fn observe_updates_only_the_task_it_names() {
    let mut batch = dispatched(3, 3);
    while batch.start_next().is_some() {}
    let line = parse_line("[download]  42.5% of 100MiB at 3.21MiB/s ETA 00:10");
    assert_eq!(batch.observe(1, &line, Some(42)), Ok(()));
    assert_eq!(batch.task(0).unwrap().percent(), 0);
    assert_eq!(batch.task(1).unwrap().percent(), 42);
    assert_eq!(batch.task(1).unwrap().rate(), &Some("3.21MiB/s".to_string()));
    assert_eq!(batch.task(2).unwrap().percent(), 0);
    assert_eq!(batch.task(2).unwrap().rate(), &None);
    assert_eq!(batch.running(), 3);
}

#[test]
fn thirty_episodes_narrowed_to_five_all_succeed() {
    let all = episodes(30);
    assert!(needs_range(all.len()));
    let selection = parse_range("0-4", all.len()).unwrap();
    let chosen = narrow(&all, &selection).unwrap();
    assert_eq!(chosen, all[0..5].to_vec());

    let batch = DownloadBatch::new(chosen, "Title".to_string(), 12).unwrap();
    let mut batch = Orchestrator::dispatch(batch);
    assert_eq!(batch.total(), 5);
    let mut positions = Vec::new();
    while let Some(position) = batch.start_next() {
        positions.push(position);
    }
    assert_eq!(positions, vec![0, 1, 2, 3, 4]);
    for position in [3, 1, 4, 0, 2] {
        assert_eq!(batch.source(position), Some(&all[position]));
        assert_eq!(batch.exit(position, true), Ok(()));
    }
    assert!(batch.is_complete());
    assert_eq!(batch.completed(), 5);
    assert_eq!(batch.outcomes(), vec![TaskState::Succeeded; 5]);
}

#[test]
fn a_short_list_is_used_whole() {
    let all = episodes(25);
    assert!(!needs_range(all.len()));
    let batch = Orchestrator::dispatch(
        DownloadBatch::new(all.clone(), "Title".to_string(), DEFAULT_CAPACITY).unwrap(),
    );
    assert_eq!(batch.total(), 25);
    for position in 0..25 {
        assert_eq!(batch.source(position), Some(&all[position]));
    }
}
