use bounded_batch::config::{BatchConfig, ConfigError};
use bounded_batch::item::{make_batch, WorkItem};
use bounded_batch::timing::{draw_step_delay, per_step_delay};
use bounded_batch::unit::{run_unit, ItemProgress, UnitEvent, UnitStatus};

#[test]
fn unit_emits_one_advance_per_step_in_order() {
    let item = WorkItem { id: 7, total_steps: 100 };
    let (p, events) = run_unit(item);
    assert_eq!(events.len(), 102);
    assert_eq!(events[0], UnitEvent::Begin);
    for k in 1..=100u64 {
        assert_eq!(events[k as usize], UnitEvent::Advance(k));
    }
    assert_eq!(events[101], UnitEvent::Finish);
    assert_eq!(p.status(), UnitStatus::Done);
    assert_eq!(p.completed_steps(), 100);
    assert_eq!(p.item_id(), 7);
}

#[test]
fn finished_unit_takes_no_more_steps() {
    let mut p = ItemProgress::new(WorkItem { id: 3, total_steps: 1 });
    assert_eq!(p.status(), UnitStatus::Pending);
    assert_eq!(p.step(), Some(UnitEvent::Begin));
    assert_eq!(p.status(), UnitStatus::Running);
    assert_eq!(p.step(), Some(UnitEvent::Advance(1)));
    assert_eq!(p.step(), Some(UnitEvent::Finish));
    assert_eq!(p.step(), None);
    assert_eq!(p.completed_steps(), 1);
    assert_eq!(p.total_steps(), 1);
}

#[test]
fn config_rules() {
    assert!(matches!(BatchConfig::new(10, 0, 100, 5000), Err(ConfigError::ZeroConcurrency)));
    assert!(matches!(BatchConfig::new(10, 3, 0, 5000), Err(ConfigError::ZeroSteps)));
    assert!(matches!(BatchConfig::new(10, 3, 100, 99), Err(ConfigError::DurationBelowSteps)));
    let c = BatchConfig::new(0, 3, 100, 100).unwrap();
    assert_eq!(c.item_count, 0);
    assert_eq!(c.max_concurrent, 3);
    assert_eq!(c.steps_per_item, 100);
    assert_eq!(c.max_duration_ms, 100);
}

#[test]
fn step_delay_splits_evenly() {
    assert_eq!(per_step_delay(5000, 100), 50);
    assert_eq!(per_step_delay(250, 100), 2);
    assert_eq!(per_step_delay(99, 100), 0);
    assert_eq!(draw_step_delay(7, 7), 1);
    for _ in 0..50 {
        let d = draw_step_delay(100, 5000);
        assert!((1..=50).contains(&d));
    }
}

#[test]
fn batch_items_carry_random_uuids() {
    let items = make_batch(5, 42);
    assert_eq!(items.len(), 5);
    for it in &items {
        assert_eq!(it.total_steps, 42);
        assert_eq!((it.id >> 76) & 0xf, 4);
        assert_eq!((it.id >> 62) & 0x3, 2);
    }
    assert_ne!(items[0].id, items[1].id);
    assert!(make_batch(0, 1).is_empty());
}
