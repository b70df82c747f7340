use automation_time::hashing::hash_of;
use automation_time::pallet::{Config, Pallet};
use automation_time::task::{Action, Error, Event, Task, TaskHashInput, TaskId};

const OWNER: u64 = 7;
const OTHER: u64 = 8;

fn pallet_with(max_tasks_per_slot: u32, max_weight: u64) -> Pallet {
    Pallet::new(Config { max_tasks_per_slot, max_weight })
}

fn id_of(owner: u64, provided_id: &[u8]) -> TaskId {
    hash_of(&TaskHashInput::create_hash_input(owner, provided_id.to_vec()))
}

#[test]
fn hash_input_encoding_is_owner_then_provided_id() {
    let input = TaskHashInput::create_hash_input(0x0102030405060708, vec![9, 10]);
    assert_eq!(input.encode(), vec![8, 7, 6, 5, 4, 3, 2, 1, 9, 10]);
}

#[test]
fn task_id_is_blake2_of_encoding() {
    let expected = sp_crypto_hashing::blake2_256(&[7, 0, 0, 0, 0, 0, 0, 0, b'a']);
    let id = id_of(OWNER, b"a");
    assert_eq!(id, expected);
    assert_ne!(id_of(OWNER, b"a"), id_of(OTHER, b"a"));
    assert_ne!(id_of(OWNER, b"a"), id_of(OWNER, b"b"));
}

#[test]
fn current_time_slot_floors_to_minute() {
    let mut p = pallet_with(2, 1_000_000);
    p.set_time(125_999);
    assert_eq!(p.get_current_time_slot(), 120);
    p.set_time(60_000);
    assert_eq!(p.get_time(), 125_999);
}

#[test]
fn is_valid_time_checks() {
    let mut p = pallet_with(2, 1_000_000);
    p.set_time(120_000);
    assert_eq!(p.is_valid_time(150), Err(Error::InvalidTime));
    assert_eq!(p.is_valid_time(120), Err(Error::PastTime));
    assert_eq!(p.is_valid_time(60), Err(Error::PastTime));
    assert_eq!(p.is_valid_time(180), Ok(()));
}

#[test]
fn schedule_registers_task() {
    let mut p = pallet_with(2, 1_000_000);
    assert_eq!(p.schedule_notify_task(OWNER, b"a".to_vec(), 60, b"hi".to_vec()), Ok(id_of(OWNER, b"a")));
    let id = id_of(OWNER, b"a");
    let task = p.get_task(&id).unwrap();
    assert_eq!(task, &Task::create_event_task(OWNER, b"a".to_vec(), 60, b"hi".to_vec()));
    assert_eq!(task.action, Action::Notify { message: b"hi".to_vec() });
    assert_eq!(p.get_scheduled_tasks(60), Some(&vec![id]));
    assert!(p.get_task_queue().is_empty());
    assert_eq!(p.get_events(), &vec![Event::TaskScheduled { who: OWNER, task_id: id }]);
    assert_eq!(p.task_count(), 1);
}

#[test]
fn schedule_rejects_empty_provided_id() {
    let mut p = pallet_with(2, 1_000_000);
    assert_eq!(
        p.schedule_notify_task(OWNER, vec![], 60, b"hi".to_vec()),
        Err(Error::EmptyProvidedId)
    );
    assert_eq!(p.task_count(), 0);
}

#[test]
fn schedule_rejects_empty_message() {
    let mut p = pallet_with(2, 1_000_000);
    assert_eq!(p.schedule_notify_task(OWNER, b"a".to_vec(), 60, vec![]), Err(Error::EmptyMessage));
    assert!(p.get_events().is_empty());
}

#[test]
fn schedule_rejects_unaligned_time() {
    let mut p = pallet_with(2, 1_000_000);
    for time in [1u64, 59, 61, 119, 3601] {
        assert_eq!(
            p.schedule_notify_task(OWNER, b"a".to_vec(), time, b"hi".to_vec()),
            Err(Error::InvalidTime)
        );
    }
    assert_eq!(p.get_scheduled_tasks(60), None);
}

#[test]
fn schedule_rejects_past_and_current_slot() {
    let mut p = pallet_with(2, 1_000_000);
    p.set_time(150_000);
    for time in [0u64, 60, 120] {
        assert_eq!(
            p.schedule_notify_task(OWNER, b"a".to_vec(), time, b"hi".to_vec()),
            Err(Error::PastTime)
        );
    }
    assert_eq!(p.schedule_notify_task(OWNER, b"a".to_vec(), 180, b"hi".to_vec()), Ok(id_of(OWNER, b"a")));
}

#[test]
fn schedule_twice_is_duplicate() {
    let mut p = pallet_with(4, 1_000_000);
    assert_eq!(p.schedule_notify_task(OWNER, b"a".to_vec(), 60, b"hi".to_vec()), Ok(id_of(OWNER, b"a")));
    assert_eq!(
        p.schedule_notify_task(OWNER, b"a".to_vec(), 120, b"other".to_vec()),
        Err(Error::DuplicateTask)
    );
    assert_eq!(
        p.schedule_notify_task(OWNER, b"a".to_vec(), 60, b"hi".to_vec()),
        Err(Error::DuplicateTask)
    );
    assert_eq!(p.get_scheduled_tasks(120), None);
    assert_eq!(p.task_count(), 1);
    // Another owner may use the same provided id.
    assert_eq!(p.schedule_notify_task(OTHER, b"a".to_vec(), 60, b"hi".to_vec()), Ok(id_of(OTHER, b"a")));
}

#[test]
fn provided_id_is_reusable_after_cancel() {
    let mut p = pallet_with(2, 1_000_000);
    assert_eq!(p.schedule_notify_task(OWNER, b"a".to_vec(), 60, b"hi".to_vec()), Ok(id_of(OWNER, b"a")));
    assert_eq!(p.cancel_task(OWNER, id_of(OWNER, b"a")), Ok(()));
    assert_eq!(p.schedule_notify_task(OWNER, b"a".to_vec(), 120, b"hi".to_vec()), Ok(id_of(OWNER, b"a")));
    assert_eq!(p.get_scheduled_tasks(120), Some(&vec![id_of(OWNER, b"a")]));
}

#[test]
fn slot_capacity_is_enforced() {
    let mut p = pallet_with(3, 1_000_000);
    assert_eq!(p.schedule_notify_task(OWNER, b"a".to_vec(), 60, b"m".to_vec()), Ok(id_of(OWNER, b"a")));
    assert_eq!(p.schedule_notify_task(OWNER, b"b".to_vec(), 60, b"m".to_vec()), Ok(id_of(OWNER, b"b")));
    assert_eq!(p.schedule_notify_task(OWNER, b"c".to_vec(), 60, b"m".to_vec()), Ok(id_of(OWNER, b"c")));
    assert_eq!(
        p.schedule_notify_task(OWNER, b"d".to_vec(), 60, b"m".to_vec()),
        Err(Error::TimeSlotFull)
    );
    assert_eq!(p.get_task(&id_of(OWNER, b"d")), None);
    assert_eq!(p.get_scheduled_tasks(60).unwrap().len(), 3);
    assert_eq!(p.schedule_notify_task(OWNER, b"d".to_vec(), 120, b"m".to_vec()), Ok(id_of(OWNER, b"d")));
}

#[test]
fn zero_capacity_refuses_every_task() {
    let mut p = pallet_with(0, 1_000_000);
    assert_eq!(
        p.schedule_notify_task(OWNER, b"a".to_vec(), 60, b"m".to_vec()),
        Err(Error::TimeSlotFull)
    );
    assert_eq!(p.get_scheduled_tasks(60), None);
}

#[test]
fn schedule_task_appends_to_slot() {
    let mut p = pallet_with(2, 1_000_000);
    let first = p.schedule_task(OWNER, b"a".to_vec(), 60).unwrap();
    let second = p.schedule_task(OWNER, b"b".to_vec(), 60).unwrap();
    assert_eq!(first, id_of(OWNER, b"a"));
    assert_eq!(p.get_scheduled_tasks(60), Some(&vec![first, second]));
    assert_eq!(p.schedule_task(OWNER, b"c".to_vec(), 60), Err(Error::TimeSlotFull));
    assert_eq!(p.task_count(), 0);
}

#[test]
fn cancel_missing_task_changes_nothing() {
    let mut p = pallet_with(2, 1_000_000);
    assert_eq!(p.schedule_notify_task(OWNER, b"a".to_vec(), 60, b"m".to_vec()), Ok(id_of(OWNER, b"a")));
    let missing = id_of(OWNER, b"zzz");
    assert_eq!(p.cancel_task(OWNER, missing), Err(Error::TaskDoesNotExist));
    assert_eq!(p.force_cancel_task(missing), Err(Error::TaskDoesNotExist));
    assert_eq!(p.get_scheduled_tasks(60), Some(&vec![id_of(OWNER, b"a")]));
    assert_eq!(p.task_count(), 1);
    assert_eq!(p.get_events().len(), 1);
}

#[test]
fn cancel_twice_fails_the_second_time() {
    let mut p = pallet_with(2, 1_000_000);
    assert_eq!(p.schedule_notify_task(OWNER, b"a".to_vec(), 60, b"m".to_vec()), Ok(id_of(OWNER, b"a")));
    assert_eq!(p.schedule_notify_task(OWNER, b"b".to_vec(), 60, b"m".to_vec()), Ok(id_of(OWNER, b"b")));
    let a = id_of(OWNER, b"a");
    assert_eq!(p.cancel_task(OWNER, a), Ok(()));
    assert_eq!(p.cancel_task(OWNER, a), Err(Error::TaskDoesNotExist));
    assert_eq!(p.get_scheduled_tasks(60), Some(&vec![id_of(OWNER, b"b")]));
    assert!(p.get_task(&id_of(OWNER, b"b")).is_some());
}

#[test]
fn cancel_by_other_account_is_refused() {
    let mut p = pallet_with(2, 1_000_000);
    assert_eq!(p.schedule_notify_task(OWNER, b"a".to_vec(), 60, b"m".to_vec()), Ok(id_of(OWNER, b"a")));
    assert_eq!(p.cancel_task(OTHER, id_of(OWNER, b"a")), Err(Error::NotTaskOwner));
    assert_eq!(p.task_count(), 1);
}

#[test]
fn cancel_sole_task_deletes_slot() {
    let mut p = pallet_with(2, 1_000_000);
    assert_eq!(p.schedule_notify_task(OWNER, b"a".to_vec(), 60, b"m".to_vec()), Ok(id_of(OWNER, b"a")));
    let a = id_of(OWNER, b"a");
    assert_eq!(p.cancel_task(OWNER, a), Ok(()));
    assert_eq!(p.get_scheduled_tasks(60), None);
    assert_eq!(p.task_count(), 0);
    assert_eq!(
        p.get_events()[1..].to_vec(),
        vec![Event::TaskCancelled { who: OWNER, task_id: a }]
    );
}

#[test]
fn force_cancel_removes_from_ready_queue() {
    let mut p = pallet_with(2, 1_000_000);
    assert_eq!(p.schedule_notify_task(OWNER, b"a".to_vec(), 60, b"m".to_vec()), Ok(id_of(OWNER, b"a")));
    assert_eq!(p.schedule_notify_task(OWNER, b"b".to_vec(), 60, b"m".to_vec()), Ok(id_of(OWNER, b"b")));
    p.set_time(60_000);
    // Too little budget to run anything: both wait in the queue.
    p.trigger_tasks(20_000);
    let a = id_of(OWNER, b"a");
    let b = id_of(OWNER, b"b");
    assert_eq!(p.get_task_queue(), &vec![a, b]);
    assert_eq!(p.force_cancel_task(a), Ok(()));
    assert_eq!(p.get_task_queue(), &vec![b]);
    assert_eq!(
        p.get_events().last(),
        Some(&Event::TaskCancelled { who: OWNER, task_id: a })
    );
}

#[test]
fn cycle_drains_due_slots_in_order() {
    let mut p = pallet_with(2, 1_000_000);
    assert_eq!(p.schedule_notify_task(OWNER, b"c".to_vec(), 180, b"m".to_vec()), Ok(id_of(OWNER, b"c")));
    assert_eq!(p.schedule_notify_task(OWNER, b"a".to_vec(), 60, b"m".to_vec()), Ok(id_of(OWNER, b"a")));
    assert_eq!(p.schedule_notify_task(OWNER, b"b".to_vec(), 120, b"m".to_vec()), Ok(id_of(OWNER, b"b")));
    assert_eq!(p.schedule_notify_task(OWNER, b"d".to_vec(), 240, b"m".to_vec()), Ok(id_of(OWNER, b"d")));
    p.set_time(200_000);
    let used = p.trigger_tasks(0);
    // Three minutes drained: base, three minutes, base.
    assert_eq!(used, 80_000);
    assert_eq!(
        p.get_task_queue(),
        &vec![id_of(OWNER, b"a"), id_of(OWNER, b"b"), id_of(OWNER, b"c")]
    );
    assert_eq!(p.get_scheduled_tasks(60), None);
    assert_eq!(p.get_scheduled_tasks(180), None);
    assert_eq!(p.get_scheduled_tasks(240), Some(&vec![id_of(OWNER, b"d")]));
    assert_eq!(p.get_last_slot(), 180);
}

#[test]
fn cycle_budget_limits_executions() {
    let mut p = pallet_with(3, 1_000_000);
    for name in [b"a", b"b", b"c"] {
        assert_eq!(p.schedule_notify_task(OWNER, name.to_vec(), 60, name.to_vec()), Ok(id_of(OWNER, name)));
    }
    p.set_time(60_000);
    // 20_000 for the cycle, 40_000 for the update, 20_000 of overhead,
    // leaving room for exactly one task.
    let used = p.trigger_tasks(100_000);
    assert_eq!(used, 100_000);
    assert_eq!(p.get_task_queue(), &vec![id_of(OWNER, b"b"), id_of(OWNER, b"c")]);
    assert_eq!(p.get_events().last(), Some(&Event::Notify { message: b"a".to_vec() }));
    assert_eq!(p.task_count(), 2);
    // The next cycle has no new minute to drain and runs the rest.
    let used = p.trigger_tasks(1_000_000);
    assert_eq!(used, 20_000 + 10_000 + 20_000 + 40_000);
    assert!(p.get_task_queue().is_empty());
    assert_eq!(p.task_count(), 0);
}

#[test]
fn tight_budget_runs_nothing() {
    let mut p = pallet_with(2, 1_000_000);
    assert_eq!(p.schedule_notify_task(OWNER, b"a".to_vec(), 60, b"m".to_vec()), Ok(id_of(OWNER, b"a")));
    assert_eq!(p.schedule_notify_task(OWNER, b"b".to_vec(), 120, b"m".to_vec()), Ok(id_of(OWNER, b"b")));
    p.set_time(120_000);
    let events_before = p.get_events().len();
    // Update costs 60_000; one task needs 20_000 of overhead and 20_000 more.
    let used = p.trigger_tasks(20_000 + 60_000 + 39_999);
    assert!(used > 0);
    assert_eq!(p.get_task_queue(), &vec![id_of(OWNER, b"a"), id_of(OWNER, b"b")]);
    assert_eq!(p.get_scheduled_tasks(60), None);
    assert_eq!(p.get_scheduled_tasks(120), None);
    assert_eq!(p.get_events().len(), events_before);
    assert_eq!(p.task_count(), 2);
}

#[test]
fn budget_below_cycle_overhead_still_drains() {
    let mut p = pallet_with(2, 1_000_000);
    assert_eq!(p.schedule_notify_task(OWNER, b"a".to_vec(), 60, b"m".to_vec()), Ok(id_of(OWNER, b"a")));
    p.set_time(61_000);
    assert_eq!(p.trigger_tasks(5), 40_000);
    assert_eq!(p.get_task_queue(), &vec![id_of(OWNER, b"a")]);
    assert_eq!(p.get_last_slot(), 60);
}

#[test]
fn two_tasks_run_in_one_cycle() {
    let t: u64 = 600;
    let mut p = pallet_with(2, 1_000_000);
    p.set_time(t * 1000);
    p.trigger_tasks(1_000_000);
    assert_eq!(p.schedule_notify_task(OWNER, b"A".to_vec(), t + 60, b"first".to_vec()), Ok(id_of(OWNER, b"A")));
    assert_eq!(p.schedule_notify_task(OWNER, b"B".to_vec(), t + 120, b"second".to_vec()), Ok(id_of(OWNER, b"B")));
    let before = p.get_events().len();
    p.set_time((t + 180) * 1000);
    let used = p.trigger_tasks(1_000_000);
    assert_eq!(used, 20_000 + 80_000 + 20_000 + 40_000);
    assert_eq!(
        p.get_events()[before..].to_vec(),
        vec![
            Event::Notify { message: b"first".to_vec() },
            Event::Notify { message: b"second".to_vec() }
        ]
    );
    assert_eq!(p.task_count(), 0);
    assert!(p.get_task_queue().is_empty());
    assert_eq!(p.get_last_slot(), t + 180);
}

#[test]
fn cancelled_task_never_runs() {
    let mut p = pallet_with(2, 1_000_000);
    assert_eq!(p.schedule_notify_task(OWNER, b"C".to_vec(), 60, b"m".to_vec()), Ok(id_of(OWNER, b"C")));
    assert_eq!(p.cancel_task(OWNER, id_of(OWNER, b"C")), Ok(()));
    let before = p.get_events().len();
    p.set_time(60_000);
    p.trigger_tasks(1_000_000);
    assert_eq!(p.get_events().len(), before);
    assert!(p.get_task_queue().is_empty());
}

#[test]
fn run_tasks_reports_missing_tasks() {
    let mut p = pallet_with(2, 1_000_000);
    assert_eq!(p.schedule_notify_task(OWNER, b"a".to_vec(), 60, b"m".to_vec()), Ok(id_of(OWNER, b"a")));
    let a = id_of(OWNER, b"a");
    let ghost = id_of(OWNER, b"gone");
    let (left, weight) = p.run_tasks(vec![ghost, a, a], 1_000_000);
    assert!(left.is_empty());
    assert_eq!(weight, 1_000_000 - 10_000 - 3 * 20_000);
    let n = p.get_events().len();
    assert_eq!(
        p.get_events()[n - 3..].to_vec(),
        vec![
            Event::TaskNotFound { task_id: ghost },
            Event::Notify { message: b"m".to_vec() },
            Event::TaskNotFound { task_id: a }
        ]
    );
    assert_eq!(p.task_count(), 0);
}

#[test]
fn run_tasks_keeps_what_the_budget_cannot_cover() {
    let mut p = pallet_with(2, 1_000_000);
    let ids = vec![id_of(1, b"x"), id_of(2, b"y"), id_of(3, b"z")];
    let (left, weight) = p.run_tasks(ids.clone(), 10_000 + 2 * 20_000 + 19_999);
    assert_eq!(left, ids[2..].to_vec());
    assert_eq!(weight, 19_999);
}

#[test]
fn on_initialize_reports_configured_weight() {
    let mut p = pallet_with(2, 500_000);
    assert_eq!(p.schedule_notify_task(OWNER, b"a".to_vec(), 60, b"m".to_vec()), Ok(id_of(OWNER, b"a")));
    p.set_time(60_000);
    assert_eq!(p.on_initialize(), 500_000);
    assert_eq!(p.task_count(), 0);
    assert_eq!(p.get_events().last(), Some(&Event::Notify { message: b"m".to_vec() }));
}

#[test]
fn run_tasks_with_budget_below_overhead_takes_nothing() {
    let mut p = pallet_with(2, 1_000_000);
    let a = p.schedule_notify_task(OWNER, b"a".to_vec(), 60, b"m".to_vec()).unwrap();
    let events = p.get_events().len();
    for budget in [0u64, 5, 9_999, 29_999] {
        let (left, _) = p.run_tasks(vec![a], budget);
        assert_eq!(left, vec![a]);
    }
    let (left, weight) = p.run_tasks(vec![a], 5);
    assert_eq!(left, vec![a]);
    assert_eq!(weight, 0);
    assert_eq!(p.get_events().len(), events);
    assert_eq!(p.task_count(), 1);
}
