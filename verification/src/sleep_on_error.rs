//! Error filtering for an accept stream.
//!
//! [`SleepOnError`] is the decision core of the `sleep_on_error`
//! combinator: it classifies each error an `accept()` attempt reports,
//! skips the benign ones and enters a cool-down on the severe ones.  The
//! unverified event loop owns the real socket and timer; it reports each
//! poll result of the underlying stream as a [`PollEvent`] and carries
//! out the [`Directive`] handed back.  Time is a plain millisecond
//! counter supplied by the event loop.

use vstd::prelude::*;

verus! {

/// What an `accept()` attempt reported, reduced to the distinctions the
/// filter reads.  The event loop translates the real I/O error kind.
#[derive(Clone, Copy, Debug, PartialEq, Eq, Structural)]
pub enum AcceptErrorKind {
    /// The peer refused the connection while it sat in the queue.
    ConnectionRefused,
    /// The peer aborted the connection while it sat in the queue.
    ConnectionAborted,
    /// The peer reset the connection while it sat in the queue.
    ConnectionReset,
    /// Anything else, notably resource exhaustion.
    Other,
}

/// Whether `e` is one of the per-connection error kinds.
pub open spec fn is_connection_error(e: AcceptErrorKind) -> bool {
    ||| e == AcceptErrorKind::ConnectionRefused
    ||| e == AcceptErrorKind::ConnectionAborted
    ||| e == AcceptErrorKind::ConnectionReset
}

/// This function defines errors that are per-connection.  Getting such an
/// error from an `accept()` call means the next connection might be ready
/// to be accepted immediately.
///
/// All other errors incur a cool-down before the next `accept()` is
/// attempted.  The cool-down is useful for resource exhaustion errors
/// such as running out of file descriptors; without it the accept cycle
/// could enter a tight loop.
pub fn connection_error(e: &AcceptErrorKind) -> (r: bool)
    ensures
        r == is_connection_error(*e),
{
    match e {
        AcceptErrorKind::ConnectionRefused => true,
        AcceptErrorKind::ConnectionAborted => true,
        AcceptErrorKind::ConnectionReset => true,
        AcceptErrorKind::Other => false,
    }
}

/// One result of polling the underlying accept stream.
#[derive(Debug, PartialEq, Eq)]
pub enum PollEvent<I> {
    /// The stream yielded an accepted connection.
    Accepted(I),
    /// The stream reached end-of-stream.
    End,
    /// The stream was not ready.
    Pending,
    /// The attempt failed with an error of the given kind.
    Failed(AcceptErrorKind),
}

/// What the filter tells the event loop to do next.  There is no error
/// alternative: by construction the filter never surfaces an error.
#[derive(Debug, PartialEq, Eq)]
pub enum Directive<I> {
    /// Deliver this accepted connection downstream.
    Yield(I),
    /// Propagate end-of-stream downstream.
    End,
    /// Suspend until woken (source not ready, or cool-down running).
    Suspend,
    /// Poll the underlying stream again right away.
    PollAgain,
}

/// The state behind the `sleep_on_error` combinator.
///
/// This is a stream filter: errors of the underlying stream are either
/// ignored (benign, per-connection ones) or answered with a cool-down
/// (severe ones).  At most one cool-down deadline exists at a time.
pub struct SleepOnError {
    /// Cool-down length after a severe error, in milliseconds.
    pub delay: u64,
    /// Deadline before which the source must not be polled, if a severe
    /// error was seen recently.
    pub timeout: Option<u64>,
}

/// Create the filter state for the given cool-down length (milliseconds).
pub fn new(delay: u64) -> (s: SleepOnError)
    ensures
        s == (SleepOnError { delay: delay, timeout: None::<u64> }),
{
    SleepOnError { delay: delay, timeout: None }
}

impl SleepOnError {
    /// May the underlying source be polled at time `now`?
    pub open spec fn poll_allowed(self, now: u64) -> bool {
        match self.timeout {
            None => true,
            Some(deadline) => now >= deadline,
        }
    }

    /// The transition taken on one source poll result at time `now`,
    /// given that no cool-down is pending: the next state and the
    /// directive for the event loop.
    pub open spec fn step<I>(self, now: u64, ev: PollEvent<I>) -> (SleepOnError, Directive<I>) {
        match ev {
            PollEvent::Accepted(conn) => (self, Directive::Yield(conn)),
            PollEvent::End => (self, Directive::End),
            PollEvent::Pending => (self, Directive::Suspend),
            PollEvent::Failed(kind) => {
                if is_connection_error(kind) {
                    (self, Directive::PollAgain)
                } else {
                    (
                        SleepOnError {
                            delay: self.delay,
                            timeout: Some(now.saturating_add(self.delay)),
                        },
                        Directive::Suspend,
                    )
                }
            },
        }
    }

    /// Called at the top of each poll of the combinator: decides whether
    /// the underlying source may be polled at time `now`, clearing an
    /// elapsed cool-down.  When it returns false the event loop must
    /// suspend until the cool-down deadline.
    pub fn begin_poll(&mut self, now: u64) -> (proceed: bool)
        ensures
            proceed == old(self).poll_allowed(now),
            final(self).delay == old(self).delay,
            proceed ==> final(self).timeout is None,
            !proceed ==> *final(self) == *old(self),
    {
        match self.timeout {
            None => true,
            Some(deadline) => {
                if now >= deadline {
                    self.timeout = None;
                    true
                } else {
                    false
                }
            },
        }
    }

    /// Digest one poll result of the underlying stream, observed at time
    /// `now`.  Benign errors are skipped and the source is polled again at
    /// once; a severe error starts the cool-down.
    pub fn on_source_event<I>(&mut self, now: u64, ev: PollEvent<I>) -> (d: Directive<I>)
        requires
            old(self).timeout is None,
        ensures
            (*final(self), d) == old(self).step(now, ev),
    {
        match ev {
            PollEvent::Accepted(conn) => Directive::Yield(conn),
            PollEvent::End => Directive::End,
            PollEvent::Pending => Directive::Suspend,
            PollEvent::Failed(kind) => {
                if connection_error(&kind) {
                    Directive::PollAgain
                } else {
                    self.timeout = Some(now.saturating_add(self.delay));
                    Directive::Suspend
                }
            },
        }
    }
}

/// A benign per-connection error is absorbed: the filter's state is left
/// as it was -- in particular it never enters cool-down -- and the
/// directive is to poll the source again at once.  No error is emitted:
/// the directive type has no error alternative at all.
pub proof fn lemma_benign_error_absorbed<I>(s: SleepOnError, now: u64, k: AcceptErrorKind)
    requires
        is_connection_error(k),
    ensures
        s.step::<I>(now, PollEvent::Failed(k)).0 == s,
        s.step::<I>(now, PollEvent::Failed(k)).1 == Directive::<I>::PollAgain,
{
}

/// A severe error at time `now` puts the filter into cool-down: the event
/// loop is told to suspend, polling the source stays forbidden at every
/// instant before `now` plus the configured delay (clamped to the `u64`
/// range), and it is allowed again at every instant from that deadline
/// on -- the filter resumes by itself.
pub proof fn lemma_severe_error_cooldown<I>(
    s: SleepOnError,
    now: u64,
    k: AcceptErrorKind,
    t: u64,
)
    requires
        s.timeout is None,
        !is_connection_error(k),
    ensures
        s.step::<I>(now, PollEvent::Failed(k)).1 == Directive::<I>::Suspend,
        s.step::<I>(now, PollEvent::Failed(k)).0.delay == s.delay,
        t < now.saturating_add(s.delay) ==> !s.step::<I>(now, PollEvent::Failed(k)).0.poll_allowed(t),
        t >= now.saturating_add(s.delay) ==> s.step::<I>(now, PollEvent::Failed(k)).0.poll_allowed(t),
{
}

} // verus!
