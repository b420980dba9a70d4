//! Reconciliation of a dynamic address set against live listeners.
//!
//! [`BindMany`] is the decision core of the many-address listener: it
//! consumes snapshots of "the addresses that should be listening right
//! now", keeps one live listener per address, and drives a shared retry
//! timer for addresses whose bind failed.  The unverified event loop owns
//! the real sockets; it reports snapshots and bind outcomes to this state
//! machine and closes or opens sockets as the returned values say.
//!
//! Addresses appear here as opaque `u64` keys chosen by the event loop
//! (one key per distinct socket address value), and each live listener is
//! filed under a `u64` token so that "the same socket stayed bound" is a
//! statement the contracts can make.

use vstd::prelude::*;

verus! {

/// One live listener: the address it was bound to and the token under
/// which the event loop filed the actual listening socket.
#[derive(Clone, Copy, Debug, PartialEq, Eq, Structural)]
pub struct Binding {
    /// The exact address value used to bind, as the event loop's key.
    pub addr: u64,
    /// Identity of the bound socket; a fresh bind always gets a token
    /// never used before by this instance.
    pub token: u64,
}

/// Does some binding in `s` carry address `a`?
pub open spec fn seq_has_addr(s: Seq<Binding>, a: u64) -> bool {
    exists|i: int| 0 <= i < s.len() && s[i].addr == a
}

/// All addresses in `s` are pairwise distinct.
pub open spec fn distinct_addrs(s: Seq<Binding>) -> bool {
    forall|i: int, j: int| 0 <= i < j < s.len() ==> s[i].addr != s[j].addr
}

/// All tokens in `s` are pairwise distinct.
pub open spec fn distinct_tokens(s: Seq<Binding>) -> bool {
    forall|i: int, j: int| 0 <= i < j < s.len() ==> s[i].token != s[j].token
}

/// Every token in `s` is below `bound`.
pub open spec fn tokens_below(s: Seq<Binding>, bound: u64) -> bool {
    forall|i: int| 0 <= i < s.len() ==> s[i].token < bound
}

/// All values in `s` are pairwise distinct.
pub open spec fn distinct_u64(s: Seq<u64>) -> bool {
    forall|i: int, j: int| 0 <= i < j < s.len() ==> s[i] != s[j]
}

/// The bindings a snapshot keeps: those whose address is still requested.
/// Order of the live mapping is preserved.
pub open spec fn retained(s: Seq<Binding>, req: Seq<u64>) -> Seq<Binding>
    decreases s.len(),
{
    if s.len() == 0 {
        Seq::empty()
    } else {
        let prev = retained(s.drop_last(), req);
        if req.contains(s.last().addr) {
            prev.push(s.last())
        } else {
            prev
        }
    }
}

/// The bindings a snapshot drops: their sockets are to be closed.
pub open spec fn dropped(s: Seq<Binding>, req: Seq<u64>) -> Seq<Binding>
    decreases s.len(),
{
    if s.len() == 0 {
        Seq::empty()
    } else {
        let prev = dropped(s.drop_last(), req);
        if req.contains(s.last().addr) {
            prev
        } else {
            prev.push(s.last())
        }
    }
}

/// The addresses a snapshot newly requests: bind attempts to be made, in
/// request order.
pub open spec fn fresh(req: Seq<u64>, s: Seq<Binding>) -> Seq<u64>
    decreases req.len(),
{
    if req.len() == 0 {
        Seq::empty()
    } else {
        let prev = fresh(req.drop_last(), s);
        if seq_has_addr(s, req.last()) {
            prev
        } else {
            prev.push(req.last())
        }
    }
}

/// State machine of the many-address listener.
///
/// It adapts to each received address set:
///
/// 1. listeners for addresses no longer in the set are closed (already
///    established connections are not interfered with in any way);
/// 2. addresses that were not listened on before are bound.
///
/// Instead of failing on a bind error it keeps the address in a backlog
/// and retries when the shared retry timer fires (one second by default;
/// see [`BindMany::retry_interval`]).
///
/// Identity of the sockets is tracked by the exact address value used to
/// bind: `0.0.0.0` and `127.0.0.1`, say, are bound and unbound
/// independently even though the former can accept connections for the
/// latter.
pub struct BindMany {
    /// Bind retry cadence, in milliseconds.
    pub retry_interval: u64,
    /// Live mapping: one entry per bound address.
    pub inputs: Vec<Binding>,
    /// Addresses whose bind failed, waiting for the retry timer.
    pub backlog: Vec<u64>,
    /// Deadline of the single shared retry timer, present only while a
    /// backlog waits.
    pub retry_deadline: Option<u64>,
    /// The token the next successful bind will be filed under.
    pub next_token: u64,
    /// Whether the address-set source has ended or failed; terminal.
    pub done: bool,
}

impl BindMany {
    /// Structural invariant: addresses and tokens in the live mapping are
    /// unique, tokens already handed out sit below the counter, and the
    /// backlog holds no address that is already live.
    pub open spec fn wf(self) -> bool {
        &&& distinct_addrs(self.inputs@)
        &&& distinct_tokens(self.inputs@)
        &&& tokens_below(self.inputs@, self.next_token)
        &&& distinct_u64(self.backlog@)
        &&& forall|i: int|
            0 <= i < self.backlog@.len() ==> !seq_has_addr(self.inputs@, self.backlog@[i])
    }

    /// The single retry timer serves the whole backlog: it is armed
    /// exactly while the backlog is non-empty.  Holds between polling
    /// cycles; within one cycle, while bind attempts are still being
    /// reported, the timer is down.
    pub open spec fn timer_consistent(self) -> bool {
        self.retry_deadline is Some <==> self.backlog@.len() > 0
    }

    /// Create a new instance.  The retry interval starts at one second.
    pub fn new() -> (b: BindMany)
        ensures
            b.retry_interval == 1000u64,
            b.inputs@ == Seq::<Binding>::empty(),
            b.backlog@ == Seq::<u64>::empty(),
            b.retry_deadline is None,
            b.next_token == 0u64,
            !b.done,
            b.wf(),
            b.timer_consistent(),
    {
        BindMany {
            retry_interval: 1000,
            inputs: Vec::new(),
            backlog: Vec::new(),
            retry_deadline: None,
            next_token: 0,
            done: false,
        }
    }

    /// Sets the retry interval, in milliseconds.
    ///
    /// Each time binding a socket fails (including the first attempt on
    /// start), instead of failing immediately the address is kept and the
    /// bind is retried after this interval (by default 1 second).
    ///
    /// This behavior matters when a configuration change adds a listening
    /// socket that is invalid or temporarily unavailable: the other
    /// addresses must still be served.
    pub fn retry_interval(&mut self, interval: u64) -> (r: &mut BindMany)
        ensures
            *r == (BindMany { retry_interval: interval, ..*old(self) }),
            *final(self) == *final(r),
    {
        self.retry_interval = interval;
        self
    }

    /// Record that the address-set source ended.  This is terminal: the
    /// combined accept stream ends cleanly, whatever the backlog still
    /// holds; the event loop then closes every socket.  A failure of the
    /// source is treated the same way.
    pub fn on_source_end(&mut self)
        ensures
            *final(self) == (BindMany { done: true, ..*old(self) }),
    {
        self.done = true;
    }

    /// Has the source ended (so the combined stream is over)?
    pub fn is_done(&self) -> (b: bool)
        ensures
            b == self.done,
    {
        self.done
    }

    /// A new desired address set arrived.  Bindings whose address is no
    /// longer requested leave the live mapping and are returned first:
    /// the event loop closes their sockets, which stops new accepts but
    /// does not touch connections already delivered.  Returned second are
    /// the addresses with no live binding yet, in request order: the
    /// event loop attempts to bind each and reports every outcome through
    /// [`BindMany::bind_succeeded`] or [`BindMany::bind_failed`], then
    /// calls [`BindMany::finish_attempts`].  The previous backlog and
    /// retry timer are discarded; a still-requested backlog address has
    /// no live binding, so it is attempted afresh right here.
    pub fn on_snapshot(&mut self, requested: &Vec<u64>) -> (r: (Vec<Binding>, Vec<u64>))
        requires
            old(self).wf(),
            !old(self).done,
            distinct_u64(requested@),
        ensures
            final(self).inputs@ == retained(old(self).inputs@, requested@),
            r.0@ == dropped(old(self).inputs@, requested@),
            r.1@ == fresh(requested@, old(self).inputs@),
            final(self).backlog@ == Seq::<u64>::empty(),
            final(self).retry_deadline is None,
            final(self).retry_interval == old(self).retry_interval,
            final(self).next_token == old(self).next_token,
            final(self).done == old(self).done,
            final(self).wf(),
            distinct_u64(r.1@),
            forall|k: int|
                0 <= k < r.1@.len() ==> !seq_has_addr(final(self).inputs@, #[trigger] r.1@[k]),
            forall|k: int|
                0 <= k < r.1@.len() ==> !seq_has_addr(old(self).inputs@, #[trigger] r.1@[k])
                    && requested@.contains(r.1@[k]),
    {
        let ghost s0 = self.inputs@;
        let ghost pre = *self;

        // Which requested addresses have no live binding yet.
        let mut to_bind: Vec<u64> = Vec::new();
        let m: usize = requested.len();
        let mut j: usize = 0;
        while j < m
            invariant
                j <= m,
                m == requested@.len(),
                *self == pre,
                s0 == self.inputs@,
                to_bind@ == fresh(requested@.subrange(0, j as int), s0),
            decreases m - j,
        {
            let a = requested[j];
            proof {
                let sub = requested@.subrange(0, j as int);
                assert(requested@.subrange(0, j as int + 1) =~= sub.push(a));
                assert(sub.push(a).drop_last() =~= sub);
            }
            if !contains_addr(&self.inputs, a) {
                to_bind.push(a);
            }
            j = j + 1;
        }
        proof {
            assert(requested@.subrange(0, m as int) =~= requested@);
        }

        // Split the live mapping into kept and closed bindings.
        let mut kept: Vec<Binding> = Vec::new();
        let mut closed: Vec<Binding> = Vec::new();
        let n: usize = self.inputs.len();
        let mut i: usize = 0;
        while i < n
            invariant
                i <= n,
                n == s0.len(),
                *self == pre,
                s0 == self.inputs@,
                kept@ == retained(s0.subrange(0, i as int), requested@),
                closed@ == dropped(s0.subrange(0, i as int), requested@),
            decreases n - i,
        {
            let b = self.inputs[i];
            proof {
                let sub = s0.subrange(0, i as int);
                assert(s0.subrange(0, i as int + 1) =~= sub.push(b));
                assert(sub.push(b).drop_last() =~= sub);
            }
            if contains_u64(requested, b.addr) {
                kept.push(b);
            } else {
                closed.push(b);
            }
            i = i + 1;
        }
        proof {
            assert(s0.subrange(0, n as int) =~= s0);
        }

        self.inputs = kept;
        self.backlog = Vec::new();
        self.retry_deadline = None;

        proof {
            lemma_retained_wf(s0, requested@, self.next_token);
            lemma_fresh_distinct(requested@, s0);
            lemma_fresh_membership(requested@, s0);
            lemma_retained_addrs_subset(s0, requested@);
            assert forall|k: int|
                0 <= k < to_bind@.len() implies !seq_has_addr(self.inputs@, to_bind@[k]) by {
                assert(to_bind@.contains(to_bind@[k]));
            }
            assert forall|k: int|
                0 <= k < to_bind@.len() implies !seq_has_addr(s0, to_bind@[k])
                    && requested@.contains(to_bind@[k]) by {
                assert(to_bind@.contains(to_bind@[k]));
            }
        }
        (closed, to_bind)
    }

    /// Record one successful bind attempt: the new listener enters the
    /// live mapping and the fresh token it was filed under is returned;
    /// the event loop keeps the actual socket under that token.
    pub fn bind_succeeded(&mut self, addr: u64) -> (token: u64)
        requires
            old(self).wf(),
            !seq_has_addr(old(self).inputs@, addr),
            !old(self).backlog@.contains(addr),
            old(self).next_token < u64::MAX,
        ensures
            token == old(self).next_token,
            final(self).inputs@ == old(self).inputs@.push(
                Binding { addr: addr, token: old(self).next_token },
            ),
            final(self).backlog@ == old(self).backlog@,
            final(self).retry_deadline == old(self).retry_deadline,
            final(self).retry_interval == old(self).retry_interval,
            final(self).next_token == old(self).next_token + 1,
            final(self).done == old(self).done,
            final(self).wf(),
    {
        let token = self.next_token;
        self.next_token = self.next_token + 1;
        self.inputs.push(Binding { addr, token });
        token
    }

    /// Record one failed bind attempt: the address joins the backlog, to
    /// be retried when the shared timer next fires.  The live mapping is
    /// untouched, so a bind failure is never fatal.
    pub fn bind_failed(&mut self, addr: u64)
        requires
            old(self).wf(),
            !seq_has_addr(old(self).inputs@, addr),
            !old(self).backlog@.contains(addr),
        ensures
            final(self).backlog@ == old(self).backlog@.push(addr),
            final(self).inputs@ == old(self).inputs@,
            final(self).retry_deadline == old(self).retry_deadline,
            final(self).retry_interval == old(self).retry_interval,
            final(self).next_token == old(self).next_token,
            final(self).done == old(self).done,
            final(self).wf(),
    {
        self.backlog.push(addr);
    }

    /// After every bind attempt of the current cycle has been reported,
    /// (re)arm the retry machinery: one shared deadline at `now` plus the
    /// retry interval if any address still waits, and none otherwise.
    pub fn finish_attempts(&mut self, now: u64)
        ensures
            *final(self) == (BindMany {
                retry_deadline: if old(self).backlog@.len() > 0 {
                    Some(now.saturating_add(old(self).retry_interval))
                } else {
                    None::<u64>
                },
                ..*old(self)
            }),
            final(self).timer_consistent(),
            old(self).wf() ==> final(self).wf(),
    {
        if self.backlog.len() > 0 {
            self.retry_deadline = Some(now.saturating_add(self.retry_interval));
        } else {
            self.retry_deadline = None;
        }
    }

    /// Is the retry timer armed with a deadline at or before `now`?
    pub fn retry_due(&self, now: u64) -> (b: bool)
        ensures
            b == match self.retry_deadline {
                Some(deadline) => now >= deadline,
                None => false,
            },
    {
        match self.retry_deadline {
            Some(deadline) => now >= deadline,
            None => false,
        }
    }

    /// The retry timer fired: take the whole backlog out for a fresh
    /// round of bind attempts.  The event loop attempts each returned
    /// address, reports the outcomes through
    /// [`BindMany::bind_succeeded`] and [`BindMany::bind_failed`] --
    /// an address that keeps failing merely re-enters the backlog -- and
    /// then calls [`BindMany::finish_attempts`], which re-arms the timer
    /// if failures remain.  A success reaches the live mapping here
    /// without any new address-set snapshot.
    pub fn start_retry(&mut self) -> (pending: Vec<u64>)
        ensures
            pending@ == old(self).backlog@,
            final(self).backlog@ == Seq::<u64>::empty(),
            final(self).retry_deadline is None,
            final(self).inputs@ == old(self).inputs@,
            final(self).retry_interval == old(self).retry_interval,
            final(self).next_token == old(self).next_token,
            final(self).done == old(self).done,
            old(self).wf() ==> final(self).wf(),
    {
        self.retry_deadline = None;
        let mut pending: Vec<u64> = Vec::new();
        std::mem::swap(&mut pending, &mut self.backlog);
        pending
    }
}

/// Linear search: is some binding for address `a` live in `v`?
fn contains_addr(v: &Vec<Binding>, a: u64) -> (r: bool)
    ensures
        r == seq_has_addr(v@, a),
{
    let mut i: usize = 0;
    while i < v.len()
        invariant
            i <= v@.len(),
            forall|j: int| 0 <= j < i ==> v@[j].addr != a,
        decreases v@.len() - i,
    {
        if v[i].addr == a {
            proof {
                assert(v@[i as int].addr == a);
            }
            return true;
        }
        i = i + 1;
    }
    false
}

/// Linear search for `a` in `v`.
fn contains_u64(v: &Vec<u64>, a: u64) -> (r: bool)
    ensures
        r == v@.contains(a),
{
    let mut i: usize = 0;
    while i < v.len()
        invariant
            i <= v@.len(),
            forall|j: int| 0 <= j < i ==> v@[j] != a,
        decreases v@.len() - i,
    {
        if v[i] == a {
            proof {
                assert(v@[i as int] == a);
            }
            return true;
        }
        i = i + 1;
    }
    false
}

/// Every element of a non-empty sequence is either its last element or
/// an element of the sequence without it.
proof fn lemma_unsnoc_contains<A>(s: Seq<A>)
    requires
        s.len() > 0,
    ensures
        forall|y: A| #[trigger] s.contains(y) <==> (s.drop_last().contains(y) || y == s.last()),
{
    assert forall|y: A| s.contains(y) implies (s.drop_last().contains(y) || y == s.last()) by {
        let i = choose|i: int| 0 <= i < s.len() && s[i] == y;
        if i < s.len() - 1 {
            assert(s.drop_last()[i] == y);
        }
    }
    assert forall|y: A| (s.drop_last().contains(y) || y == s.last()) implies s.contains(y) by {
        if s.drop_last().contains(y) {
            let i = choose|i: int| 0 <= i < s.drop_last().len() && s.drop_last()[i] == y;
            assert(s[i] == y);
        } else {
            assert(s[s.len() - 1] == y);
        }
    }
}

/// Which bindings survive a snapshot and which are closed.  A binding
/// whose address is still requested is kept exactly as it is -- same
/// socket token, no rebind; a binding whose address disappeared from the
/// snapshot is closed, and nothing else is.
pub proof fn lemma_reconcile_membership(s: Seq<Binding>, req: Seq<u64>)
    ensures
        forall|b: Binding|
            #[trigger] retained(s, req).contains(b) <==> (s.contains(b) && req.contains(b.addr)),
        forall|b: Binding|
            #[trigger] dropped(s, req).contains(b) <==> (s.contains(b) && !req.contains(b.addr)),
    decreases s.len(),
{
    broadcast use vstd::seq_lib::lemma_seq_contains_after_push;

    if s.len() == 0 {
    } else {
        let p = s.drop_last();
        let x = s.last();
        lemma_reconcile_membership(p, req);
        lemma_unsnoc_contains::<Binding>(s);
        assert(retained(s, req) == if req.contains(x.addr) {
            retained(p, req).push(x)
        } else {
            retained(p, req)
        });
        assert(dropped(s, req) == if req.contains(x.addr) {
            dropped(p, req)
        } else {
            dropped(p, req).push(x)
        });
    }
}

/// An address gets a bind attempt exactly when the snapshot requests it
/// and no live binding carries it.
pub proof fn lemma_fresh_membership(req: Seq<u64>, s: Seq<Binding>)
    ensures
        forall|a: u64|
            #[trigger] fresh(req, s).contains(a) <==> (req.contains(a) && !seq_has_addr(s, a)),
    decreases req.len(),
{
    broadcast use vstd::seq_lib::lemma_seq_contains_after_push;

    if req.len() == 0 {
    } else {
        let p = req.drop_last();
        let x = req.last();
        lemma_fresh_membership(p, s);
        lemma_unsnoc_contains::<u64>(req);
        assert(fresh(req, s) == if seq_has_addr(s, x) {
            fresh(p, s)
        } else {
            fresh(p, s).push(x)
        });
    }
}

/// Reconciliation keeps the live mapping well-formed: the kept bindings
/// all come from the old mapping, so distinctness of addresses and
/// tokens and the token bound survive.
proof fn lemma_retained_wf(s: Seq<Binding>, req: Seq<u64>, bound: u64)
    requires
        distinct_addrs(s),
        distinct_tokens(s),
        tokens_below(s, bound),
    ensures
        distinct_addrs(retained(s, req)),
        distinct_tokens(retained(s, req)),
        tokens_below(retained(s, req), bound),
    decreases s.len(),
{
    if s.len() == 0 {
    } else {
        let p = s.drop_last();
        let x = s.last();
        assert forall|i: int, j: int| 0 <= i < j < p.len() implies p[i].addr != p[j].addr
            && p[i].token != p[j].token by {
            assert(p[i] == s[i]);
            assert(p[j] == s[j]);
        }
        assert forall|i: int| 0 <= i < p.len() implies p[i].token < bound by {
            assert(p[i] == s[i]);
        }
        lemma_retained_wf(p, req, bound);
        if req.contains(x.addr) {
            lemma_reconcile_membership(p, req);
            let r = retained(p, req);
            assert forall|k: int| 0 <= k < r.len() implies r[k].addr != x.addr
                && r[k].token != x.token by {
                assert(r.contains(r[k]));
                let i = choose|i: int| 0 <= i < p.len() && p[i] == r[k];
                assert(s[i] == r[k]);
                assert(s[s.len() - 1] == x);
            }
            assert(retained(s, req) == r.push(x));
        }
    }
}

/// With a duplicate-free snapshot the bind attempts are duplicate-free.
proof fn lemma_fresh_distinct(req: Seq<u64>, s: Seq<Binding>)
    requires
        distinct_u64(req),
    ensures
        distinct_u64(fresh(req, s)),
    decreases req.len(),
{
    if req.len() == 0 {
    } else {
        let p = req.drop_last();
        let x = req.last();
        assert forall|i: int, j: int| 0 <= i < j < p.len() implies p[i] != p[j] by {
            assert(p[i] == req[i]);
            assert(p[j] == req[j]);
        }
        lemma_fresh_distinct(p, s);
        if !seq_has_addr(s, x) {
            lemma_fresh_membership(p, s);
            let f = fresh(p, s);
            assert forall|k: int| 0 <= k < f.len() implies f[k] != x by {
                assert(f.contains(f[k]));
                let i = choose|i: int| 0 <= i < p.len() && p[i] == f[k];
                assert(req[i] == f[k]);
                assert(req[req.len() - 1] == x);
            }
            assert(fresh(req, s) == f.push(x));
        }
    }
}

/// A kept binding's address was live before: reconciliation invents no
/// address.
proof fn lemma_retained_addrs_subset(s: Seq<Binding>, req: Seq<u64>)
    ensures
        forall|a: u64| #[trigger] seq_has_addr(retained(s, req), a) ==> seq_has_addr(s, a),
{
    lemma_reconcile_membership(s, req);
    assert forall|a: u64| seq_has_addr(retained(s, req), a) implies seq_has_addr(s, a) by {
        let k = choose|k: int|
            0 <= k < retained(s, req).len() && retained(s, req)[k].addr == a;
        let b = retained(s, req)[k];
        assert(retained(s, req).contains(b));
        let i = choose|i: int| 0 <= i < s.len() && s[i] == b;
        assert(s[i].addr == a);
    }
}

/// Applying the same snapshot twice in a row leaves the live mapping as
/// the first application left it: after the first pass every live
/// address is still requested, so the second pass keeps every binding
/// unchanged -- no close, no rebind -- and only the addresses that
/// failed before are attempted again.  When those attempts fail again
/// (bind failures leave the mapping untouched), the mapping after the
/// second application is identical to the one after the first.
pub proof fn lemma_reconcile_retains_all(s: Seq<Binding>, req: Seq<u64>)
    requires
        forall|i: int| 0 <= i < s.len() ==> req.contains(#[trigger] s[i].addr),
    ensures
        retained(s, req) == s,
        dropped(s, req) == Seq::<Binding>::empty(),
    decreases s.len(),
{
    if s.len() == 0 {
        assert(retained(s, req) =~= s);
    } else {
        let p = s.drop_last();
        let x = s.last();
        assert forall|i: int| 0 <= i < p.len() implies req.contains(#[trigger] p[i].addr) by {
            assert(p[i] == s[i]);
        }
        lemma_reconcile_retains_all(p, req);
        assert(req.contains(s[s.len() - 1].addr));
        assert(retained(s, req) == p.push(x));
        assert(p.push(x) =~= s);
    }
}

/// One snapshot partitions the requested addresses: each is either
/// already served by a kept binding or handed out for a bind attempt,
/// never both.  As every attempt then lands in the live mapping or in
/// the backlog, the live set always equals the last fully processed
/// snapshot minus the addresses still pending.
pub proof fn lemma_snapshot_partition(s: Seq<Binding>, req: Seq<u64>, a: u64)
    ensures
        req.contains(a) <==> (seq_has_addr(retained(s, req), a) || fresh(req, s).contains(a)),
        !(seq_has_addr(retained(s, req), a) && fresh(req, s).contains(a)),
{
    lemma_reconcile_membership(s, req);
    lemma_fresh_membership(req, s);
    lemma_retained_addrs_subset(s, req);
    if req.contains(a) && seq_has_addr(s, a) {
        let i = choose|i: int| 0 <= i < s.len() && s[i].addr == a;
        assert(s.contains(s[i]));
        assert(retained(s, req).contains(s[i]));
        let j = choose|j: int|
            0 <= j < retained(s, req).len() && retained(s, req)[j] == s[i];
        assert(retained(s, req)[j].addr == a);
    }
    if seq_has_addr(retained(s, req), a) {
        let k = choose|k: int|
            0 <= k < retained(s, req).len() && retained(s, req)[k].addr == a;
        assert(retained(s, req).contains(retained(s, req)[k]));
    }
}

/// Reconciling a snapshot that merely repeats the live address set is a
/// no-op: every binding is kept unchanged, no socket is closed and no
/// bind is attempted.
pub proof fn lemma_reconcile_noop(s: Seq<Binding>, req: Seq<u64>)
    requires
        forall|i: int| 0 <= i < s.len() ==> req.contains(#[trigger] s[i].addr),
        forall|j: int| 0 <= j < req.len() ==> seq_has_addr(s, #[trigger] req[j]),
    ensures
        retained(s, req) == s,
        dropped(s, req) == Seq::<Binding>::empty(),
        fresh(req, s) == Seq::<u64>::empty(),
{
    lemma_reconcile_retains_all(s, req);
    lemma_fresh_empty(req, s);
}

/// With every requested address already live, nothing is attempted.
proof fn lemma_fresh_empty(req: Seq<u64>, s: Seq<Binding>)
    requires
        forall|j: int| 0 <= j < req.len() ==> seq_has_addr(s, #[trigger] req[j]),
    ensures
        fresh(req, s) == Seq::<u64>::empty(),
    decreases req.len(),
{
    if req.len() == 0 {
    } else {
        let p = req.drop_last();
        assert forall|j: int| 0 <= j < p.len() implies seq_has_addr(s, #[trigger] p[j]) by {
            assert(p[j] == req[j]);
        }
        lemma_fresh_empty(p, s);
        assert(seq_has_addr(s, req[req.len() - 1]));
    }
}

} // verus!
