use bounded_batch::batch::run_batch;
use bounded_batch::config::ConfigError;
use bounded_batch::item::{make_batch, WorkItem};
use bounded_batch::scheduler::{Action, AggregateProgress, CompletionError, Scheduler, UnitOutcome};

fn numbered(n: usize, steps: u64) -> Vec<WorkItem> {
    (0..n).map(|i| WorkItem { id: 1000 + i as u128, total_steps: steps }).collect()
}

#[test]
fn empty_batch_finishes_at_once() {
    let mut s = Scheduler::new(Vec::new(), 3).unwrap();
    assert_eq!(s.poll(), Action::Finish);
    assert_eq!(
        s.aggregate(),
        AggregateProgress { total_items: 0, completed_items: 0, failed_items: 0 }
    );
    let rep = run_batch(Vec::new(), 3, &Vec::new()).unwrap();
    assert_eq!(rep.aggregate.completed_items, 0);
    assert_eq!(rep.aggregate.total_items, 0);
    assert_eq!(rep.peak_running, 0);
}

#[test]
fn zero_cap_is_refused() {
    assert!(matches!(Scheduler::new(numbered(3, 1), 0), Err(ConfigError::ZeroConcurrency)));
    assert!(matches!(run_batch(numbered(3, 1), 0, &Vec::new()), Err(ConfigError::ZeroConcurrency)));
}

#[test]
fn cap_of_one_runs_units_strictly_in_turn() {
    let items = numbered(5, 10);
    let mut s = Scheduler::new(items.clone(), 1).unwrap();
    for i in 0..5usize {
        assert_eq!(s.poll(), Action::Start(i, items[i]));
        assert_eq!(s.running_count(), 1);
        // the next unit waits for this one's completion
        assert_eq!(s.poll(), Action::AwaitCompletion);
        assert_eq!(s.oldest_running(), Some(i));
        s.complete(i, UnitOutcome::Succeeded(items[i].id)).unwrap();
        assert_eq!(s.running_count(), 0);
    }
    assert_eq!(s.poll(), Action::Finish);
    assert_eq!(s.successes(), vec![0, 1, 2, 3, 4]);
    let rep = run_batch(items, 1, &Vec::new()).unwrap();
    assert_eq!(rep.peak_running, 1);
    assert_eq!(rep.start_order, vec![0, 1, 2, 3, 4]);
    assert_eq!(rep.aggregate.completed_items, 5);
}

#[test]
fn ten_items_three_slots() {
    let items = make_batch(10, 100);
    let mut s = Scheduler::new(items.clone(), 3).unwrap();
    let mut completed = 0u64;
    let mut started = Vec::new();
    loop {
        assert!(s.running_count() <= 3);
        match s.poll() {
            Action::Start(i, item) => {
                assert_eq!(item, items[i]);
                started.push(i);
                assert!(s.running_count() <= 3);
            }
            Action::AwaitCompletion => {
                assert!(s.running_count() == 3 || started.len() == 10);
                // complete the newest unit first: completion order is free
                let i = *started.iter().rev().find(|i| !s.successes().contains(i)).unwrap();
                s.complete(i, UnitOutcome::Succeeded(items[i].id)).unwrap();
                completed += 1;
                assert_eq!(s.aggregate().completed_items, completed);
            }
            Action::Finish => break,
        }
    }
    assert_eq!(started, (0..10).collect::<Vec<usize>>());
    assert_eq!(
        s.aggregate(),
        AggregateProgress { total_items: 10, completed_items: 10, failed_items: 0 }
    );
    let rep = run_batch(items.clone(), 3, &Vec::new()).unwrap();
    assert_eq!(rep.peak_running, 3);
    assert_eq!(rep.aggregate.completed_items, 10);
    let mut ids = rep.succeeded_ids.clone();
    ids.sort();
    let mut expected: Vec<u128> = items.iter().map(|it| it.id).collect();
    expected.sort();
    assert_eq!(ids, expected);
}

#[test]
fn failed_unit_frees_its_slot_and_is_reported_apart() {
    let items = numbered(10, 5);
    let mut s = Scheduler::new(items.clone(), 3).unwrap();
    for i in 0..3usize {
        assert_eq!(s.poll(), Action::Start(i, items[i]));
    }
    assert_eq!(s.poll(), Action::AwaitCompletion);
    s.complete(1, UnitOutcome::Failed).unwrap();
    assert_eq!(s.running_count(), 2);
    assert_eq!(s.poll(), Action::Start(3, items[3]));
    assert_eq!(s.failures(), vec![1]);

    let rep = run_batch(items, 3, &vec![4]).unwrap();
    assert_eq!(rep.failed, vec![4]);
    assert_eq!(rep.succeeded.len(), 9);
    assert!(!rep.succeeded.contains(&4));
    assert_eq!(
        rep.aggregate,
        AggregateProgress { total_items: 10, completed_items: 10, failed_items: 1 }
    );
}

#[test]
fn wrong_identifier_counts_as_failure() {
    let items = numbered(2, 1);
    let mut s = Scheduler::new(items.clone(), 2).unwrap();
    s.poll();
    s.poll();
    s.complete(0, UnitOutcome::Succeeded(items[1].id)).unwrap();
    assert_eq!(s.failures(), vec![0]);
    s.complete(1, UnitOutcome::Succeeded(items[1].id)).unwrap();
    assert_eq!(s.succeeded_ids(), vec![items[1].id]);
    assert_eq!(s.poll(), Action::Finish);
}

#[test]
fn completion_of_unknown_unit_is_refused() {
    let items = numbered(3, 1);
    let mut s = Scheduler::new(items.clone(), 2).unwrap();
    assert_eq!(s.complete(0, UnitOutcome::Failed), Err(CompletionError::NotRunning));
    s.poll();
    s.complete(0, UnitOutcome::Succeeded(items[0].id)).unwrap();
    assert_eq!(s.complete(0, UnitOutcome::Failed), Err(CompletionError::NotRunning));
    assert_eq!(s.aggregate().completed_items, 1);
    assert_eq!(s.failures(), Vec::<usize>::new());
}

#[test]
fn cap_above_item_count_starts_everything_at_once() {
    let items = numbered(4, 2);
    let mut s = Scheduler::new(items, 10).unwrap();
    for i in 0..4usize {
        assert!(matches!(s.poll(), Action::Start(j, _) if j == i));
    }
    assert_eq!(s.running_count(), 4);
    assert_eq!(s.poll(), Action::AwaitCompletion);
}

#[test]
fn two_runs_of_one_workload_agree() {
    let items = numbered(7, 3);
    let a = run_batch(items.clone(), 2, &vec![2, 5]).unwrap();
    let b = run_batch(items, 2, &vec![5, 2]).unwrap();
    assert_eq!(a.aggregate, b.aggregate);
    let (mut sa, mut sb) = (a.succeeded_ids.clone(), b.succeeded_ids.clone());
    sa.sort();
    sb.sort();
    assert_eq!(sa, sb);
    assert_eq!(a.failed, b.failed);
}
