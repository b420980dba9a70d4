use tk_listen::bind::{Binding, BindMany};

const A: u64 = 1;
const B: u64 = 2;
const C: u64 = 3;

/// Feed one snapshot in which every bind succeeds.
fn apply_ok_snapshot(b: &mut BindMany, req: &Vec<u64>, now: u64) -> Vec<Binding> {
    let (closed, to_bind) = b.on_snapshot(req);
    for addr in to_bind {
        b.bind_succeeded(addr);
    }
    b.finish_attempts(now);
    closed
}

#[test]
fn starts_idle() {
    let b = BindMany::new();
    assert_eq!(b.retry_interval, 1000);
    assert!(b.inputs.is_empty());
    assert!(b.backlog.is_empty());
    assert_eq!(b.retry_deadline, None);
    assert!(!b.is_done());
}

#[test]
fn retry_interval_is_settable() {
    let mut b = BindMany::new();
    b.retry_interval(250);
    assert_eq!(b.retry_interval, 250);
}

#[test]
fn snapshot_transition_closes_binds_and_retains() {
    // S1 = {A, B}: both bind.
    let mut b = BindMany::new();
    let (closed, to_bind) = b.on_snapshot(&vec![A, B]);
    assert!(closed.is_empty());
    assert_eq!(to_bind, vec![A, B]);
    let ta = b.bind_succeeded(A);
    let tb = b.bind_succeeded(B);
    b.finish_attempts(0);
    assert_eq!(b.retry_deadline, None);
    assert_eq!(b.inputs, vec![Binding { addr: A, token: ta }, Binding { addr: B, token: tb }]);

    // S2 = {B, C}: A is closed, B is untouched (same token, no rebind),
    // C is newly bound under a token never used before.
    let (closed, to_bind) = b.on_snapshot(&vec![B, C]);
    assert_eq!(closed, vec![Binding { addr: A, token: ta }]);
    assert_eq!(to_bind, vec![C]);
    assert_eq!(b.inputs, vec![Binding { addr: B, token: tb }]);
    let tc = b.bind_succeeded(C);
    b.finish_attempts(1);
    assert_ne!(tc, ta);
    assert_ne!(tc, tb);
    assert_eq!(b.inputs, vec![Binding { addr: B, token: tb }, Binding { addr: C, token: tc }]);
}

#[test]
fn failed_bind_is_retried_until_it_succeeds() {
    // Binding C fails at first; it must reach the live mapping through
    // the retry timer alone, with no new snapshot.
    let mut b = BindMany::new();
    let (_, to_bind) = b.on_snapshot(&vec![B, C]);
    assert_eq!(to_bind, vec![B, C]);
    let tb = b.bind_succeeded(B);
    b.bind_failed(C);
    b.finish_attempts(100);
    assert_eq!(b.backlog, vec![C]);
    assert_eq!(b.retry_deadline, Some(1_100));
    assert!(!b.retry_due(1_099));
    assert!(b.retry_due(1_100));

    // First retry fails again: the timer is rescheduled at the same
    // interval and the address stays in the backlog.
    let pending = b.start_retry();
    assert_eq!(pending, vec![C]);
    b.bind_failed(C);
    b.finish_attempts(1_100);
    assert_eq!(b.backlog, vec![C]);
    assert_eq!(b.retry_deadline, Some(2_100));

    // Second retry succeeds: C appears in the live mapping and the timer
    // is cleared.
    assert!(b.retry_due(2_100));
    let pending = b.start_retry();
    assert_eq!(pending, vec![C]);
    let tc = b.bind_succeeded(C);
    b.finish_attempts(2_100);
    assert_eq!(b.backlog, Vec::<u64>::new());
    assert_eq!(b.retry_deadline, None);
    assert_eq!(b.inputs, vec![Binding { addr: B, token: tb }, Binding { addr: C, token: tc }]);
}

#[test]
fn end_of_stream_is_terminal_even_with_backlog() {
    let mut b = BindMany::new();
    let (_, to_bind) = b.on_snapshot(&vec![A, B]);
    assert_eq!(to_bind, vec![A, B]);
    b.bind_succeeded(A);
    b.bind_failed(B);
    b.finish_attempts(0);
    assert!(!b.backlog.is_empty());
    b.on_source_end();
    // The combined stream ends cleanly, pending retries or not.
    assert!(b.is_done());
    assert_eq!(b.backlog, vec![B]);
}

#[test]
fn same_snapshot_is_a_noop() {
    let mut b = BindMany::new();
    apply_ok_snapshot(&mut b, &vec![A, B], 0);
    let live_before = b.inputs.clone();

    // The same address set again, in another order: nothing is closed,
    // nothing is bound, no timer is armed, the mapping is untouched.
    let (closed, to_bind) = b.on_snapshot(&vec![B, A]);
    assert!(closed.is_empty());
    assert!(to_bind.is_empty());
    b.finish_attempts(7);
    assert_eq!(b.inputs, live_before);
    assert_eq!(b.retry_deadline, None);
}

#[test]
fn same_snapshot_twice_gives_identical_state() {
    // First application: A binds, C fails.
    let mut b = BindMany::new();
    let (_, to_bind) = b.on_snapshot(&vec![A, C]);
    assert_eq!(to_bind, vec![A, C]);
    b.bind_succeeded(A);
    b.bind_failed(C);
    b.finish_attempts(0);
    let live_first = b.inputs.clone();
    let backlog_first = b.backlog.clone();

    // Second application of the very same snapshot: the live mapping is
    // neither closed nor rebound; only the failed address is attempted
    // again, and when it fails again the state is identical.
    let (closed, to_bind) = b.on_snapshot(&vec![A, C]);
    assert!(closed.is_empty());
    assert_eq!(to_bind, vec![C]);
    b.bind_failed(C);
    b.finish_attempts(0);
    assert_eq!(b.inputs, live_first);
    assert_eq!(b.backlog, backlog_first);
}

#[test]
fn snapshot_discards_stale_backlog() {
    // A pending address that the next snapshot no longer requests is
    // forgotten, and the timer with it.
    let mut b = BindMany::new();
    b.on_snapshot(&vec![A]);
    b.bind_failed(A);
    b.finish_attempts(0);
    assert_eq!(b.backlog, vec![A]);
    let (closed, to_bind) = b.on_snapshot(&vec![B]);
    assert!(closed.is_empty());
    assert_eq!(to_bind, vec![B]);
    assert!(b.backlog.is_empty());
    b.bind_succeeded(B);
    b.finish_attempts(1);
    assert_eq!(b.retry_deadline, None);
}

#[test]
fn retry_deadline_saturates() {
    let mut b = BindMany::new();
    b.retry_interval(u64::MAX);
    b.on_snapshot(&vec![A]);
    b.bind_failed(A);
    b.finish_attempts(10);
    assert_eq!(b.retry_deadline, Some(u64::MAX));
}
