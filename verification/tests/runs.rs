use rika::runs::{RunManager, SubmitOutcome, MAX_QUEUED_MESSAGES_PER_SESSION};

fn start(runs: &mut RunManager, session: &str) -> u64 {
    assert!(matches!(runs.reserve_or_queue_submission(session, "go".to_string()), Ok(SubmitOutcome::Reserved)));
    let id = runs.allocate_run_id(session).ok().unwrap();
    assert!(runs.activate_run(session, id).is_ok());
    id
}

#[test]
fn reserve_or_queue_submission_enforces_queue_cap_per_session() {
    let mut runs = RunManager::new(8);
    assert!(matches!(runs.reserve_or_queue_submission("s", "first".to_string()), Ok(SubmitOutcome::Reserved)));
    for idx in 0..MAX_QUEUED_MESSAGES_PER_SESSION {
        let r = runs.reserve_or_queue_submission("s", format!("queued-{}", idx));
        assert!(matches!(r, Ok(SubmitOutcome::Queued)));
    }
    let err = match runs.reserve_or_queue_submission("s", "overflow".to_string()) {
        Ok(_) => panic!("expected queue cap overflow to fail"),
        Err(err) => err,
    };
    assert!(err.contains("Queue is full"));
    assert_eq!(err, "Queue is full for session s (max 5 queued user messages).");
    assert_eq!(runs.queue_items("s").len(), MAX_QUEUED_MESSAGES_PER_SESSION);
}

#[test]
fn cancel_queued_inputs_removes_target_and_clear_all() {
    let mut runs = RunManager::new(8);
    start(&mut runs, "s");
    assert!(matches!(runs.reserve_or_queue_submission("s", "keep".to_string()), Ok(SubmitOutcome::Queued)));
    assert!(matches!(runs.reserve_or_queue_submission("s", "drop".to_string()), Ok(SubmitOutcome::Queued)));
    let items = runs.queue_items("s");
    assert_eq!(items.len(), 2);
    let drop_id = items[1].id.clone();

    assert!(runs.cancel_queued_inputs("s", Some(&drop_id)));
    let left = runs.queue_items("s");
    assert_eq!(left.len(), 1);
    assert_eq!(left[0].content, "keep");

    assert!(runs.cancel_queued_inputs("s", None));
    assert!(runs.queue_items("s").is_empty());
    assert!(!runs.cancel_queued_inputs("s", None));
    assert!(!runs.cancel_queued_inputs("s", Some("missing")));
}

#[test]
fn queued_message_auto_dispatches_after_done() {
    let mut runs = RunManager::new(8);
    let id = start(&mut runs, "s");
    assert!(matches!(runs.reserve_or_queue_submission("s", "second-after-done".to_string()), Ok(SubmitOutcome::Queued)));
    assert!(runs.next_queued_run().is_none());
    runs.clear_active_run("s", id);
    assert!(!runs.is_busy("s"));
    let next = runs.next_queued_run().expect("queued message should start");
    assert_eq!(next.0, "s");
    assert_eq!(next.1, "second-after-done");
    assert!(runs.is_busy("s"));
    assert!(runs.queue_items("s").is_empty());
}

#[test]
fn stop_active_run_clears_queue() {
    let mut runs = RunManager::new(8);
    let id = start(&mut runs, "s");
    assert!(matches!(runs.reserve_or_queue_submission("s", "later".to_string()), Ok(SubmitOutcome::Queued)));
    assert_eq!(runs.stop_active_run("s", "user_cancelled"), Some((id, "Stopped by user.".to_string())));
    assert!(runs.queue_items("s").is_empty());
    assert!(!runs.is_busy("s"));
    assert_eq!(runs.stop_active_run("s", "user_cancelled"), None);
    let id = start(&mut runs, "s");
    assert_eq!(runs.stop_active_run("s", "shutdown"), Some((id, "Stopped: shutdown".to_string())));
}

#[test]
fn reserve_or_queue_submission_queues_when_global_capacity_is_full() {
    let mut runs = RunManager::new(1);
    start(&mut runs, "a");
    let r = runs.reserve_or_queue_submission("b", "waiting".to_string());
    assert!(matches!(r, Ok(SubmitOutcome::Queued)));
    assert_eq!(runs.queue_items("b").len(), 1);
}

#[test]
fn different_sessions_can_run_concurrently_when_capacity_allows() {
    let mut runs = RunManager::new(2);
    let a = start(&mut runs, "a");
    let b = start(&mut runs, "b");
    assert_ne!(a, b);
    assert!(runs.is_busy("a") && runs.is_busy("b"));
    assert_eq!(runs.run_id_of("a"), Some(a));
    assert_eq!(runs.run_id_of("b"), Some(b));
}

#[test]
fn queued_session_waiting_on_global_capacity_starts_after_done() {
    let mut runs = RunManager::new(1);
    let a = start(&mut runs, "a");
    assert!(matches!(runs.reserve_or_queue_submission("b", "hello".to_string()), Ok(SubmitOutcome::Queued)));
    assert!(runs.next_queued_run().is_none());
    runs.clear_active_run("a", a);
    let next = runs.next_queued_run().expect("b should start");
    assert_eq!(next, ("b".to_string(), "hello".to_string()));
}

#[test]
fn run_ids_increase_and_reservation_is_required() {
    let mut runs = RunManager::new(4);
    assert!(runs.allocate_run_id("nobody").is_err());
    let a = start(&mut runs, "a");
    let b = start(&mut runs, "b");
    assert_eq!(b, a + 1);
    runs.clear_active_run("a", b);
    assert!(runs.is_busy("a"));
    runs.clear_active_run("a", a);
    assert!(!runs.is_busy("a"));
}
