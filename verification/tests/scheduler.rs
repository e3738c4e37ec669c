use gluon_language_server::scheduler::{KeyState, Scheduler, WorkItem};

fn item(key: &str, value: &str) -> WorkItem {
    WorkItem { key: key.as_bytes().to_vec(), value: value.as_bytes().to_vec() }
}

fn enqueue(scheduler: &mut Scheduler, key: &str, value: &str) {
    scheduler.enqueue(key.as_bytes().to_vec(), value.as_bytes().to_vec());
}

#[test]
fn second_edit_replaces_the_waiting_one() {
    let mut scheduler = Scheduler::new(2);
    enqueue(&mut scheduler, "uri", "a");
    enqueue(&mut scheduler, "uri", "b");
    assert_eq!(scheduler.pending_count(), 1);
    assert_eq!(scheduler.dispatch(), Some(item("uri", "b")));
    assert_eq!(scheduler.dispatch(), None);
    assert_eq!(scheduler.pending_count(), 0);
    assert_eq!(scheduler.running_count(), 1);
}

#[test]
fn replaced_edit_keeps_its_place_in_the_queue() {
    let mut scheduler = Scheduler::new(3);
    enqueue(&mut scheduler, "one", "1");
    enqueue(&mut scheduler, "two", "2");
    enqueue(&mut scheduler, "one", "1b");
    assert_eq!(scheduler.dispatch(), Some(item("one", "1b")));
    assert_eq!(scheduler.dispatch(), Some(item("two", "2")));
    assert_eq!(scheduler.dispatch(), None);
}

#[test]
fn states_of_a_key() {
    let mut scheduler = Scheduler::new(2);
    assert_eq!(scheduler.state_of(b"uri"), KeyState::Idle);
    enqueue(&mut scheduler, "uri", "a");
    assert_eq!(scheduler.state_of(b"uri"), KeyState::Queued);
    assert_eq!(scheduler.dispatch(), Some(item("uri", "a")));
    assert_eq!(scheduler.state_of(b"uri"), KeyState::Running);
    enqueue(&mut scheduler, "uri", "b");
    assert_eq!(scheduler.state_of(b"uri"), KeyState::RunningAndQueued);
    enqueue(&mut scheduler, "uri", "c");
    assert_eq!(scheduler.state_of(b"uri"), KeyState::RunningAndQueued);
    assert_eq!(scheduler.pending_count(), 1);
    scheduler.complete(b"uri");
    assert_eq!(scheduler.state_of(b"uri"), KeyState::Queued);
    assert_eq!(scheduler.dispatch(), Some(item("uri", "c")));
    scheduler.complete(b"uri");
    assert_eq!(scheduler.state_of(b"uri"), KeyState::Idle);
    assert_eq!(scheduler.state_of(b"other"), KeyState::Idle);
}

#[test]
fn running_key_is_not_pulled_again() {
    let mut scheduler = Scheduler::new(2);
    enqueue(&mut scheduler, "uri", "a");
    assert_eq!(scheduler.dispatch(), Some(item("uri", "a")));
    enqueue(&mut scheduler, "uri", "b");
    assert_eq!(scheduler.dispatch(), None);
    enqueue(&mut scheduler, "other", "o");
    assert_eq!(scheduler.dispatch(), Some(item("other", "o")));
    scheduler.complete(b"uri");
    scheduler.complete(b"other");
    assert_eq!(scheduler.dispatch(), Some(item("uri", "b")));
}

#[test]
fn no_more_jobs_than_workers() {
    let mut scheduler = Scheduler::new(2);
    enqueue(&mut scheduler, "a", "1");
    enqueue(&mut scheduler, "b", "2");
    enqueue(&mut scheduler, "c", "3");
    assert_eq!(scheduler.dispatch(), Some(item("a", "1")));
    assert_eq!(scheduler.dispatch(), Some(item("b", "2")));
    assert_eq!(scheduler.dispatch(), None);
    assert_eq!(scheduler.running_count(), 2);
    scheduler.complete(b"a");
    assert_eq!(scheduler.dispatch(), Some(item("c", "3")));
    let mut none = Scheduler::new(0);
    enqueue(&mut none, "a", "1");
    assert_eq!(none.dispatch(), None);
    assert_eq!(none.pending_count(), 1);
}

#[test]
fn completing_an_idle_key_changes_nothing() {
    let mut scheduler = Scheduler::new(1);
    enqueue(&mut scheduler, "a", "1");
    scheduler.complete(b"a");
    scheduler.complete(b"missing");
    assert_eq!(scheduler.pending_count(), 1);
    assert_eq!(scheduler.running_count(), 0);
    assert_eq!(scheduler.state_of(b"a"), KeyState::Queued);
}

#[test]
fn burst_of_edits_compiles_the_last_state_once() {
    let mut scheduler = Scheduler::new(2);
    for round in 0..50 {
        enqueue(&mut scheduler, "file:///t.x", &format!("text {}", round));
    }
    assert_eq!(scheduler.dispatch(), Some(item("file:///t.x", "text 49")));
    scheduler.complete(b"file:///t.x");
    assert_eq!(scheduler.dispatch(), None);
    assert_eq!(scheduler.state_of(b"file:///t.x"), KeyState::Idle);
}
