use tk_listen::sleep_on_error::{self, AcceptErrorKind, Directive, PollEvent};

#[test]
fn classification_of_error_kinds() {
    assert!(sleep_on_error::connection_error(&AcceptErrorKind::ConnectionRefused));
    assert!(sleep_on_error::connection_error(&AcceptErrorKind::ConnectionAborted));
    assert!(sleep_on_error::connection_error(&AcceptErrorKind::ConnectionReset));
    assert!(!sleep_on_error::connection_error(&AcceptErrorKind::Other));
}

#[test]
fn accepted_connection_is_yielded() {
    let mut s = sleep_on_error::new(200);
    assert!(s.begin_poll(0));
    let d = s.on_source_event(0, PollEvent::Accepted(7u64));
    assert_eq!(d, Directive::Yield(7u64));
    assert_eq!(s.timeout, None);
}

#[test]
fn end_of_stream_propagates() {
    let mut s = sleep_on_error::new(200);
    assert!(s.begin_poll(3));
    let d = s.on_source_event::<u64>(3, PollEvent::End);
    assert_eq!(d, Directive::End);
}

#[test]
fn pending_source_suspends() {
    let mut s = sleep_on_error::new(200);
    assert!(s.begin_poll(3));
    let d = s.on_source_event::<u64>(3, PollEvent::Pending);
    assert_eq!(d, Directive::Suspend);
    assert_eq!(s.timeout, None);
}

#[test]
fn benign_error_never_cools_down() {
    // A benign error is skipped: the source is polled again at once and
    // no cool-down deadline appears.
    for kind in [
        AcceptErrorKind::ConnectionRefused,
        AcceptErrorKind::ConnectionAborted,
        AcceptErrorKind::ConnectionReset,
    ] {
        let mut s = sleep_on_error::new(200);
        assert!(s.begin_poll(10));
        let d = s.on_source_event::<u64>(10, PollEvent::Failed(kind));
        assert_eq!(d, Directive::PollAgain);
        assert_eq!(s.timeout, None);
        // Polling stays allowed immediately.
        assert!(s.begin_poll(10));
    }
}

#[test]
fn severe_error_cools_down_then_resumes() {
    let mut s = sleep_on_error::new(200);
    assert!(s.begin_poll(1_000));
    let d = s.on_source_event::<u64>(1_000, PollEvent::Failed(AcceptErrorKind::Other));
    assert_eq!(d, Directive::Suspend);
    assert_eq!(s.timeout, Some(1_200));
    // No accept attempt before the configured delay has elapsed.
    assert!(!s.begin_poll(1_000));
    assert!(!s.begin_poll(1_199));
    // The deadline itself, and anything later, resumes polling.
    assert!(s.begin_poll(1_200));
    assert_eq!(s.timeout, None);
    // And the filter works normally afterwards.
    let d = s.on_source_event(1_201, PollEvent::Accepted(9u32));
    assert_eq!(d, Directive::Yield(9u32));
}

#[test]
fn cooldown_deadline_saturates() {
    let mut s = sleep_on_error::new(u64::MAX);
    assert!(s.begin_poll(5));
    let d = s.on_source_event::<u64>(5, PollEvent::Failed(AcceptErrorKind::Other));
    assert_eq!(d, Directive::Suspend);
    assert_eq!(s.timeout, Some(u64::MAX));
    assert!(!s.begin_poll(u64::MAX - 1));
    assert!(s.begin_poll(u64::MAX));
}

#[test]
fn zero_delay_resumes_at_once() {
    let mut s = sleep_on_error::new(0);
    assert!(s.begin_poll(42));
    let d = s.on_source_event::<u64>(42, PollEvent::Failed(AcceptErrorKind::Other));
    assert_eq!(d, Directive::Suspend);
    assert_eq!(s.timeout, Some(42));
    // With a zero delay the cool-down is already over.
    assert!(s.begin_poll(42));
}
