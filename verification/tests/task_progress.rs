use ani_dl::progress::{parse_line, LineSignal, ProgressSignal};
use ani_dl::task::{
    downloader_arguments, downloader_program, BatchCounter, FailureKind, StepError, TaskProgress,
    TaskState,
};

fn signal(percent: &str, rate: Option<&str>) -> LineSignal {
    LineSignal::Progress(ProgressSignal {
        percent: percent.to_string(),
        rate: rate.map(|r| r.to_string()),
    })
}

fn number(signal: &LineSignal) -> Option<u64> {
    match signal {
        LineSignal::Progress(p) => p.percent.parse::<f32>().ok().map(|v| v as u64),
        LineSignal::NoSignal => None,
    }
}

fn running(index: usize) -> TaskProgress {
    let mut task = TaskProgress::new(index);
    assert_eq!(task.start(), Ok(()));
    task
}

#[test]
fn a_new_task_is_pending_and_empty() {
    let task = TaskProgress::new(3);
    assert_eq!(task.index(), 3);
    assert_eq!(task.percent(), 0);
    assert_eq!(task.rate(), &None);
    assert_eq!(task.state(), TaskState::Pending);
    assert_eq!(task.completed(), 0);
    assert_eq!(task.reason(), None);
    assert!(!task.is_terminal());
}

#[test]
fn start_runs_a_pending_task_once() {
    let mut task = TaskProgress::new(1);
    assert_eq!(task.start(), Ok(()));
    assert_eq!(task.state(), TaskState::Running);
    assert_eq!(task.start(), Err(StepError::NotPending));
    assert_eq!(task.state(), TaskState::Running);
}

#[test]
fn a_pending_task_takes_no_event() {
    let mut task = TaskProgress::new(1);
    let mut counter = BatchCounter::new();
    assert_eq!(task.observe(&signal("10", None), Some(10)), Err(StepError::NotRunning));
    assert_eq!(task.fail_spawn("no such file".to_string()), Err(StepError::NotRunning));
    assert_eq!(task.exit(true, &mut counter), Err(StepError::NotRunning));
    assert_eq!(task.state(), TaskState::Pending);
    assert_eq!(task.percent(), 0);
    assert_eq!(counter.get(), 0);
}

#[test]
fn observe_records_the_latest_values() {
    let mut task = running(1);
    let line = parse_line("[download]  42.5% of 100MiB at 3.21MiB/s ETA 00:10");
    assert_eq!(task.observe(&line, number(&line)), Ok(()));
    assert_eq!(task.percent(), 42);
    assert_eq!(task.rate(), &Some("3.21MiB/s".to_string()));

    let line = parse_line("[download]  30.0% of 100MiB at 1.00MiB/s ETA 01:10");
    assert_eq!(task.observe(&line, number(&line)), Ok(()));
    assert_eq!(task.percent(), 30);
    assert_eq!(task.rate(), &Some("1.00MiB/s".to_string()));
}

#[test]
fn observe_keeps_what_a_line_does_not_give() {
    let mut task = running(1);
    assert_eq!(task.observe(&signal("50", Some("2MiB/s")), Some(50)), Ok(()));
    assert_eq!(task.observe(&signal("n/a", None), None), Ok(()));
    assert_eq!(task.percent(), 50);
    assert_eq!(task.rate(), &Some("2MiB/s".to_string()));
    assert_eq!(task.observe(&signal("n/a", Some("3MiB/s")), None), Ok(()));
    assert_eq!(task.percent(), 50);
    assert_eq!(task.rate(), &Some("3MiB/s".to_string()));
    assert_eq!(task.observe(&signal("60", None), Some(60)), Ok(()));
    assert_eq!(task.percent(), 60);
    assert_eq!(task.rate(), &Some("3MiB/s".to_string()));
}

#[test]
fn observe_ignores_lines_without_signal() {
    let mut task = running(1);
    assert_eq!(task.observe(&signal("50", Some("2MiB/s")), Some(50)), Ok(()));
    assert_eq!(task.observe(&LineSignal::NoSignal, Some(99)), Ok(()));
    assert_eq!(task.percent(), 50);
    assert_eq!(task.rate(), &Some("2MiB/s".to_string()));
}

#[test]
fn observe_holds_the_value_to_one_hundred() {
    let mut task = running(1);
    assert_eq!(task.observe(&signal("100", None), Some(100)), Ok(()));
    assert_eq!(task.percent(), 100);
    assert_eq!(task.observe(&signal("101", None), Some(101)), Ok(()));
    assert_eq!(task.percent(), 100);
    assert_eq!(task.observe(&signal("1e30", None), Some(u64::MAX)), Ok(()));
    assert_eq!(task.percent(), 100);
    assert_eq!(task.observe(&signal("0", None), Some(0)), Ok(()));
    assert_eq!(task.percent(), 0);
}

#[test]
fn spawn_failure_is_terminal() {
    let mut task = running(2);
    let mut counter = BatchCounter::new();
    assert_eq!(task.fail_spawn("No such file or directory".to_string()), Ok(()));
    assert_eq!(task.state(), TaskState::Failed(FailureKind::Spawn));
    assert!(task.is_terminal());
    assert_eq!(task.reason(), Some("spawn error: No such file or directory".to_string()));
    assert_eq!(task.observe(&signal("10", None), Some(10)), Err(StepError::NotRunning));
    assert_eq!(task.exit(true, &mut counter), Err(StepError::NotRunning));
    assert_eq!(task.fail_spawn("again".to_string()), Err(StepError::NotRunning));
    assert_eq!(task.start(), Err(StepError::NotPending));
    assert_eq!(task.state(), TaskState::Failed(FailureKind::Spawn));
    assert_eq!(task.reason(), Some("spawn error: No such file or directory".to_string()));
    assert_eq!(counter.get(), 0);
}

#[test]
fn exit_with_success_counts_once() {
    let mut counter = BatchCounter::new();
    let mut task = running(1);
    assert_eq!(task.exit(true, &mut counter), Ok(()));
    assert_eq!(task.state(), TaskState::Succeeded);
    assert_eq!(task.completed(), 1);
    assert_eq!(counter.get(), 1);
    assert!(task.is_terminal());
    assert_eq!(task.reason(), None);
    assert_eq!(task.exit(true, &mut counter), Err(StepError::NotRunning));
    assert_eq!(counter.get(), 1);
    assert_eq!(task.completed(), 1);
}

#[test]
fn exit_without_success_fails_the_task() {
    let mut counter = BatchCounter::new();
    let mut task = running(1);
    assert_eq!(task.observe(&signal("99.9", None), Some(99)), Ok(()));
    assert_eq!(task.exit(false, &mut counter), Ok(()));
    assert_eq!(task.state(), TaskState::Failed(FailureKind::Exit));
    assert_eq!(task.reason(), Some("exit failure".to_string()));
    assert_eq!(task.percent(), 99);
    assert_eq!(task.completed(), 0);
    assert_eq!(counter.get(), 0);
}

#[test]
fn counter_gives_each_success_its_own_count() {
    let mut counter = BatchCounter::new();
    assert_eq!(counter.get(), 0);
    let mut seen = Vec::new();
    for index in 1..=7 {
        let mut task = running(index);
        assert_eq!(task.exit(true, &mut counter), Ok(()));
        seen.push(task.completed());
    }
    assert_eq!(seen, vec![1, 2, 3, 4, 5, 6, 7]);
    assert_eq!(counter.get(), 7);
    assert_eq!(counter.increment(), 8);
    assert_eq!(counter.get(), 8);
}

#[test]
fn downloader_is_run_with_progress_lines() {
    assert_eq!(downloader_program(), "yt-dlp");
    assert_eq!(
        downloader_arguments("https://example.org/ep/1"),
        vec!["--newline", "--progress", "https://example.org/ep/1"]
    );
}
