use golem_des::fixed::Fixed;
use golem_des::id::{Id, IdSource};
use golem_des::task::{SubTask, Task};
use golem_des::task_queue::TaskQueue;
use golem_des::verification::VerificationMap;

fn fx(x: f64) -> Fixed {
    Fixed::from_raw((x * 1e9).round() as u64)
}

#[test]
fn task_states() {
    let mut ids = IdSource::new();
    let mut task = Task::new(&mut ids);

    assert!(!task.is_pending());
    assert!(task.is_done());

    let subtask = SubTask::new(&mut ids, fx(1.0), fx(1.0));
    task.push_pending(subtask);

    assert!(task.is_pending());
    assert!(!task.is_done());

    task.pop_pending();

    assert!(!task.is_pending());
    assert!(!task.is_done());

    task.push_done(subtask);

    assert!(!task.is_pending());
    assert!(task.is_done());
}

#[test]
fn a_cancelled_subtask_waits_again_and_the_task_keeps_its_size() {
    let mut ids = IdSource::new();
    let mut task = Task::new(&mut ids);
    let first = SubTask::new(&mut ids, fx(1.0), fx(2.0));
    let second = SubTask::new(&mut ids, fx(3.0), fx(4.0));
    task.push_pending(first);
    task.push_pending(second);
    assert_eq!(task.size(), 2);
    assert_eq!((task.pending_len(), task.in_flight(), task.done_len()), (2, 0, 0));

    assert_eq!(task.pop_pending(), Some(first));
    assert_eq!((task.pending_len(), task.in_flight(), task.done_len()), (1, 1, 0));

    task.requeue(first);
    assert_eq!(task.size(), 2);
    assert_eq!((task.pending_len(), task.in_flight(), task.done_len()), (2, 0, 0));

    assert_eq!(task.pop_pending(), Some(second));
    assert_eq!(task.pop_pending(), Some(first));
    assert_eq!(task.pop_pending(), None);
    task.push_done(second);
    assert!(!task.is_done());
    task.push_done(first);
    assert!(task.is_done());
    assert_eq!(task.pending_len() + task.in_flight() + task.done_len(), task.size());
}

#[test]
fn a_copy_of_a_task_has_fresh_identifiers() {
    let mut ids = IdSource::starting_at(10);
    let mut task = Task::new(&mut ids);
    let first = SubTask::new(&mut ids, fx(1.0), fx(2.0));
    let second = SubTask::new(&mut ids, fx(3.0), fx(4.0));
    task.push_pending(first);
    task.push_pending(second);

    let mut copy = task.replicate(&mut ids);
    assert_eq!(copy.id(), Id::from_value(13));
    assert_eq!(copy.size(), 2);
    assert_eq!(
        copy.pop_pending(),
        Some(SubTask::with_id(Id::from_value(14), fx(1.0), fx(2.0)))
    );
    assert_eq!(
        copy.pop_pending(),
        Some(SubTask::with_id(Id::from_value(15), fx(3.0), fx(4.0)))
    );
    assert_eq!(copy.pop_pending(), None);
    assert_eq!(ids.peek(), 16);
}

#[test]
fn pop_repeating() {
    let mut ids = IdSource::new();
    let mut task_queue = TaskQueue::new();

    assert!(task_queue.repeating);

    let task = Task::new(&mut ids);
    task_queue.push(task.clone());

    assert_eq!(task_queue.pop(&mut ids), Some(task.clone()));

    // What comes back the second time is a copy of the task, and a copy has
    // an identifier of its own.
    let again = task_queue.pop(&mut ids);
    assert!(again.is_some());
    let again = again.unwrap();
    assert_ne!(again, task);
    assert_eq!(again.size(), task.size());
    assert_eq!(task_queue.len(), 1);
}

#[test]
fn pop_nonrepeating() {
    let mut ids = IdSource::new();
    let mut task_queue = TaskQueue::new();
    task_queue.repeating = false;

    let task = Task::new(&mut ids);
    task_queue.push(task.clone());

    assert_eq!(task_queue.pop(&mut ids), Some(task));
    assert_eq!(task_queue.pop(&mut ids), None);
}

#[test]
fn append_keeps_the_order() {
    let mut ids = IdSource::new();
    let mut task_queue = TaskQueue::new();
    task_queue.set_repeating(false);
    assert!(!task_queue.is_repeating());
    let a = Task::new(&mut ids);
    let b = Task::new(&mut ids);
    let c = Task::new(&mut ids);
    task_queue.push(a.clone());
    task_queue.append(vec![b.clone(), c.clone()]);
    assert_eq!(task_queue.len(), 3);
    assert_eq!(task_queue.pop(&mut ids), Some(a));
    assert_eq!(task_queue.pop(&mut ids), Some(b));
    assert_eq!(task_queue.pop(&mut ids), Some(c));
    assert!(task_queue.is_empty());
}

#[test]
fn test_insert_verification() {
    let key = Id::from_value(0);
    let one = Id::from_value(1);
    let two = Id::from_value(2);
    let mut vmap = VerificationMap::new(2);
    vmap.insert_key(key);

    assert_eq!(vmap.insert_verification(key, Some((one, fx(1.0)))), None);
    assert_eq!(
        vmap.insert_verification(key, Some((two, fx(1.0)))),
        Some(vec![(one, fx(1.0)), (two, fx(1.0))])
    );
    assert!(!vmap.has_key(key));

    vmap.insert_key(key);

    assert_eq!(vmap.insert_verification(key, Some((one, fx(1.0)))), None);
    assert_eq!(vmap.insert_verification(key, None), Some(vec![(one, fx(1.0))]));
    assert!(!vmap.has_key(key));

    vmap.insert_key(key);

    assert_eq!(vmap.insert_verification(key, None), None);
    assert_eq!(
        vmap.insert_verification(key, Some((two, fx(1.0)))),
        Some(vec![(two, fx(1.0))])
    );
    assert!(!vmap.has_key(key));

    vmap.insert_key(key);

    assert_eq!(vmap.insert_verification(key, None), None);
    assert_eq!(vmap.insert_verification(key, None), Some(vec![]));
    assert!(!vmap.has_key(key));
}

#[test]
fn insert_verification() {
    let mut ids = IdSource::new();
    let mut vmap = VerificationMap::new(2);
    let id = Id::new(&mut ids);
    vmap.insert_key(id);

    let id1 = Id::new(&mut ids);
    let id2 = Id::new(&mut ids);

    assert_eq!(vmap.insert_verification(id, Some((id1, fx(1.0)))), None);
    assert_eq!(
        vmap.insert_verification(id, Some((id2, fx(1.0)))),
        Some(vec![(id1, fx(1.0)), (id2, fx(1.0))])
    );
    assert!(!vmap.has_key(id));

    vmap.insert_key(id);

    assert_eq!(vmap.insert_verification(id, Some((id1, fx(1.0)))), None);
    assert_eq!(vmap.insert_verification(id, None), Some(vec![(id1, fx(1.0))]));
    assert!(!vmap.has_key(id));

    vmap.insert_key(id);

    assert_eq!(vmap.insert_verification(id, None), None);
    assert_eq!(
        vmap.insert_verification(id, Some((id2, fx(1.0)))),
        Some(vec![(id2, fx(1.0))])
    );
    assert!(!vmap.has_key(id));

    vmap.insert_key(id);

    assert_eq!(vmap.insert_verification(id, None), None);
    assert_eq!(vmap.insert_verification(id, None), Some(vec![]));
    assert!(!vmap.has_key(id));
}

#[test]
fn a_key_inserted_again_forgets_what_was_received() {
    let key = Id::from_value(5);
    let other = Id::from_value(6);
    let provider = Id::from_value(1);
    let mut vmap = VerificationMap::new(2);
    vmap.insert_key(key);
    vmap.insert_key(other);
    assert_eq!(vmap.insert_verification(key, Some((provider, fx(3.0)))), None);
    vmap.insert_key(key);
    assert_eq!(vmap.insert_verification(key, None), None);
    assert_eq!(vmap.insert_verification(key, None), Some(vec![]));
    assert!(vmap.has_key(other));
}

#[test]
fn a_default_queue_is_empty_and_repeats() {
    let queue = TaskQueue::default();
    assert!(queue.is_empty());
    assert!(queue.is_repeating());
}
