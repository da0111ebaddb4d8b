use std::sync::Arc;

use ddns_scheduler::scheduler::{delay_until, FireRecord, Outcome, Scheduler, SchedulerError, Task};

type Handler = fn() -> Option<()>;

fn succeed() -> Option<()> {
    Some(())
}

fn fail() -> Option<()> {
    None
}

/// Drives the dispatch loop in logical time: pops occurrences, invokes their
/// handlers synchronously, records what fired, and reschedules, until the
/// earliest pending occurrence lies past `horizon`.
fn drive(s: &mut Scheduler<Handler>, horizon: u64) -> Vec<FireRecord> {
    let mut records = Vec::new();
    loop {
        let task = match s.pop_earliest() {
            Some(t) => t,
            None => break,
        };
        if task.at > horizon {
            break;
        }
        let outcome = match (task.worker)() {
            Some(()) => Outcome::Success,
            None => Outcome::Failure,
        };
        records.push(FireRecord {
            name: task.name.clone(),
            outcome,
            scheduled_at: task.at,
            fired_at: task.at,
        });
        if task.at <= u64::MAX - task.interval {
            s.reschedule(task);
        }
    }
    records
}

fn fire_times(records: &[FireRecord], name: &str) -> Vec<u64> {
    records
        .iter()
        .filter(|r| r.name == name)
        .map(|r| r.scheduled_at)
        .collect()
}

#[test]
fn test_scheduler() {
    let mut scheduler: Scheduler<Arc<dyn Fn() -> Option<()>>> = Scheduler::new();
    let task1 = || {
        println!("1 every 5 secs");
        Some(())
    };
    let task2 = || {
        println!("2 every 3 secs");
        Some(())
    };
    let task3 = || {
        println!("3 every 2 secs");
        Some(())
    };
    scheduler
        .schedule("Test 1".to_string(), Arc::new(task1), 5)
        .unwrap();
    scheduler
        .schedule("Test 2".to_string(), Arc::new(task2), 3)
        .unwrap();
    scheduler
        .schedule("Test 3".to_string(), Arc::new(task3), 2)
        .unwrap();
    scheduler.start(0, 0).unwrap();
    for _ in 0..12 {
        let task = scheduler.pop_earliest().expect("queue never empties");
        (task.worker)();
        if task.at <= u64::MAX - task.interval {
            scheduler.reschedule(task);
        }
    }
}

#[test]
fn zero_interval_is_rejected_before_start() {
    let mut s: Scheduler<Handler> = Scheduler::new();
    assert_eq!(
        s.schedule("bad".to_string(), succeed, 0),
        Err(SchedulerError::IntervalZero)
    );
    // The rejected job never reached the table, so startup still sees no jobs.
    assert_eq!(s.start(0, 0), Err(SchedulerError::NoJobs));
}

#[test]
fn starting_with_no_jobs_is_an_error() {
    let mut s: Scheduler<Handler> = Scheduler::new();
    assert_eq!(s.start(17, 4), Err(SchedulerError::NoJobs));
}

#[test]
fn every_job_is_due_immediately_on_start() {
    let mut s: Scheduler<Handler> = Scheduler::new();
    s.schedule("a".to_string(), succeed, 10).unwrap();
    s.schedule("b".to_string(), succeed, 20).unwrap();
    s.schedule("c".to_string(), succeed, 30).unwrap();
    s.start(1000, 50).unwrap();
    let mut names = Vec::new();
    for _ in 0..3 {
        let t = s.pop_earliest().expect("three occurrences were enqueued");
        assert_eq!(t.at, 50);
        assert_eq!(t.created_wall, 1000);
        assert_eq!(t.created_mono, 50);
        names.push(t.name);
    }
    assert!(s.pop_earliest().is_none());
    names.sort();
    assert_eq!(names, vec!["a".to_string(), "b".to_string(), "c".to_string()]);
}

#[test]
fn pops_yield_non_decreasing_due_times() {
    let mut s: Scheduler<Handler> = Scheduler::new();
    s.schedule("threes".to_string(), succeed, 3).unwrap();
    s.schedule("ones".to_string(), succeed, 1).unwrap();
    s.schedule("twos".to_string(), succeed, 2).unwrap();
    s.start(0, 0).unwrap();
    let records = drive(&mut s, 30);
    for pair in records.windows(2) {
        assert!(pair[0].scheduled_at <= pair[1].scheduled_at);
    }
}

#[test]
fn gaps_between_occurrences_equal_the_interval() {
    let mut s: Scheduler<Handler> = Scheduler::new();
    s.schedule("seven".to_string(), succeed, 7).unwrap();
    s.schedule("noise".to_string(), succeed, 2).unwrap();
    s.start(0, 0).unwrap();
    let records = drive(&mut s, 100);
    let sevens = fire_times(&records, "seven");
    assert!(sevens.len() >= 10);
    for pair in sevens.windows(2) {
        assert_eq!(pair[1] - pair[0], 7);
    }
    let noise = fire_times(&records, "noise");
    for pair in noise.windows(2) {
        assert_eq!(pair[1] - pair[0], 2);
    }
}

#[test]
fn two_jobs_fire_on_their_own_schedules() {
    // Job A: every 2 units, always succeeds. Job B: every 3 units, always
    // fails. Over 7 units A fires at 0, 2, 4, 6 and B at 0, 3, 6.
    let mut s: Scheduler<Handler> = Scheduler::new();
    s.schedule("A".to_string(), succeed, 2).unwrap();
    s.schedule("B".to_string(), fail, 3).unwrap();
    s.start(0, 0).unwrap();
    let records = drive(&mut s, 7);
    assert_eq!(fire_times(&records, "A"), vec![0, 2, 4, 6]);
    assert_eq!(fire_times(&records, "B"), vec![0, 3, 6]);
    for r in &records {
        if r.name == "A" {
            assert_eq!(r.outcome, Outcome::Success);
        } else {
            assert_eq!(r.outcome, Outcome::Failure);
        }
    }
}

#[test]
fn failing_job_fires_as_often_as_a_succeeding_one() {
    let mut s: Scheduler<Handler> = Scheduler::new();
    s.schedule("sound".to_string(), succeed, 4).unwrap();
    s.schedule("broken".to_string(), fail, 4).unwrap();
    s.start(0, 0).unwrap();
    let records = drive(&mut s, 50);
    let sound = fire_times(&records, "sound");
    let broken = fire_times(&records, "broken");
    assert_eq!(sound.len(), broken.len());
    assert_eq!(sound, broken);
    assert!(records
        .iter()
        .filter(|r| r.name == "broken")
        .all(|r| r.outcome == Outcome::Failure));
}

#[test]
fn dispatching_one_job_never_delays_another() {
    // The loop launches an occurrence and reschedules without waiting for the
    // handler, so a job with a long interval in the queue does not push back
    // the due times of a frequent one.
    let mut s: Scheduler<Handler> = Scheduler::new();
    s.schedule("slow".to_string(), succeed, 10).unwrap();
    s.schedule("quick".to_string(), succeed, 1).unwrap();
    s.start(0, 0).unwrap();
    let records = drive(&mut s, 10);
    let quick = fire_times(&records, "quick");
    assert_eq!(quick, (0..=10).collect::<Vec<u64>>());
    assert_eq!(fire_times(&records, "slow"), vec![0, 10]);
}

#[test]
fn duplicate_names_stay_independent() {
    let mut s: Scheduler<Handler> = Scheduler::new();
    s.schedule("twin".to_string(), succeed, 2).unwrap();
    s.schedule("twin".to_string(), fail, 3).unwrap();
    s.start(0, 0).unwrap();
    let records = drive(&mut s, 6);
    let twins = fire_times(&records, "twin");
    // One occurrence per registration at t = 0 and t = 6, their own beats in
    // between: 0, 0, 2, 3, 4, 6, 6.
    assert_eq!(twins, vec![0, 0, 2, 3, 4, 6, 6]);
}

#[test]
fn equal_due_times_pop_in_some_order() {
    let mut s: Scheduler<Handler> = Scheduler::new();
    s.schedule("left".to_string(), succeed, 5).unwrap();
    s.schedule("right".to_string(), succeed, 5).unwrap();
    s.start(0, 0).unwrap();
    let first = s.pop_earliest().unwrap();
    let second = s.pop_earliest().unwrap();
    assert_eq!(first.at, 0);
    assert_eq!(second.at, 0);
    let mut names = vec![first.name, second.name];
    names.sort();
    assert_eq!(names, vec!["left".to_string(), "right".to_string()]);
    assert!(s.pop_earliest().is_none());
}

#[test]
fn get_system_time_offsets_the_wall_clock() {
    let task: Task<Handler> = Task {
        name: "t".to_string(),
        at: 130,
        created_wall: 5000,
        created_mono: 100,
        interval: 10,
        worker: succeed,
    };
    assert_eq!(task.get_system_time(), 5030);
}

#[test]
fn overdue_occurrences_wait_zero() {
    assert_eq!(delay_until(10, 7), 0);
    assert_eq!(delay_until(10, 10), 0);
    assert_eq!(delay_until(10, 25), 15);
    assert_eq!(delay_until(0, 0), 0);
}
