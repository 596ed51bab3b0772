use hl_capture::info_scheduler::{InfoJob, InfoScheduler, SchedulerError};
use hl_capture::request_budget::{RequestBudget, SchedulePriority};

fn job(id: &str, priority: SchedulePriority, deadline: u64, cost: u32) -> InfoJob {
    InfoJob::try_new(id, priority, deadline, 0, 0, cost, "capability").expect("job")
}

#[test]
fn jobs_need_ids_and_a_cost() {
    assert_eq!(InfoJob::try_new("", SchedulePriority::P1, 0, 0, 0, 1, "c").unwrap_err(), SchedulerError::InvalidJob);
    assert_eq!(InfoJob::try_new(" x", SchedulePriority::P1, 0, 0, 0, 1, "c").unwrap_err(), SchedulerError::InvalidJob);
    assert_eq!(InfoJob::try_new("x", SchedulePriority::P1, 0, 0, 0, 0, "c").unwrap_err(), SchedulerError::InvalidJob);
    assert_eq!(InfoJob::try_new("x", SchedulePriority::P1, 0, 0, 0, 1, "").unwrap_err(), SchedulerError::InvalidJob);
    assert_eq!(SchedulerError::InvalidJob.reason_code(), "capture_info.invalid_job");
}

#[test]
fn scheduler_dispatches_by_priority_then_deadline_and_refuses_duplicates() {
    let mut scheduler = InfoScheduler::new();
    let mut budget = RequestBudget::official("official-info", 75, 0, 7).expect("budget");
    scheduler.enqueue(job("late", SchedulePriority::P2, 50, 2)).unwrap();
    scheduler.enqueue(job("early", SchedulePriority::P2, 10, 2)).unwrap();
    scheduler.enqueue(job("urgent", SchedulePriority::P0, 99, 2)).unwrap();
    assert_eq!(scheduler.enqueue(job("early", SchedulePriority::P5, 1, 1)), Err(SchedulerError::DuplicateJob));
    assert_eq!(scheduler.len(), 3);
    let first = scheduler.dispatch(&mut budget, 0).unwrap().expect("a job");
    assert_eq!(first.job().id(), "urgent");
    let second = scheduler.dispatch(&mut budget, 0).unwrap().expect("a job");
    assert_eq!(second.job().id(), "early");
    let done = scheduler.complete(&mut budget, second, 2, 0).unwrap();
    assert_eq!(done.id(), "early");
    let third = scheduler.dispatch(&mut budget, 0).unwrap().expect("a job");
    assert_eq!(third.job().id(), "late");
    assert!(scheduler.is_empty());
    assert!(scheduler.dispatch(&mut budget, 0).unwrap().is_none());
    scheduler.shutdown(&mut budget, vec![first, third], 0).unwrap();
}
