use tk_listen::listen;

#[test]
fn runner_starts_empty() {
    let l = listen::new(4);
    assert_eq!(l.limit, 4);
    assert_eq!(l.in_flight, 0);
    assert!(!l.source_done);
    assert!(l.can_spawn());
    assert!(!l.is_complete());
}

#[test]
fn cap_is_respected() {
    // With a cap of two, the third task must wait.
    let mut l = listen::new(2);
    assert!(l.can_spawn());
    l.on_spawn();
    assert!(l.can_spawn());
    l.on_spawn();
    assert_eq!(l.in_flight, 2);
    assert!(!l.can_spawn());
}

#[test]
fn completing_task_frees_slot_at_once() {
    let mut l = listen::new(1);
    l.on_spawn();
    assert!(!l.can_spawn());
    l.on_task_complete(false);
    // The slot is available again within one scheduling step.
    assert!(l.can_spawn());
    assert_eq!(l.in_flight, 0);
}

#[test]
fn task_failure_does_not_terminate_runner() {
    let mut l = listen::new(3);
    l.on_spawn();
    l.on_spawn();
    // One task fails; the runner keeps going exactly as on success.
    l.on_task_complete(true);
    assert_eq!(l.in_flight, 1);
    assert!(!l.is_complete());
    assert!(l.can_spawn());
}

#[test]
fn runner_completes_only_after_end_and_drain() {
    let mut l = listen::new(2);
    l.on_spawn();
    l.on_spawn();
    l.on_source_end();
    // Upstream ended, but tasks are still in flight.
    assert!(!l.is_complete());
    assert!(!l.can_spawn());
    l.on_task_complete(true);
    assert!(!l.is_complete());
    l.on_task_complete(false);
    // End-of-stream and all tasks drained: the runner resolves.
    assert!(l.is_complete());
}

#[test]
fn zero_cap_never_spawns() {
    let mut l = listen::new(0);
    assert!(!l.can_spawn());
    l.on_source_end();
    assert!(l.is_complete());
}
