//! Control of remote calls in flight: one call per target at a time, and
//! a bound on the calls that run together.
//!
//! Both are kept as plain state machines. The caller holds them under its
//! own lock, never across a remote call: it asks before the call, makes
//! the call without the lock, and reports back after it.

use vstd::prelude::*;
use std::collections::HashSet;
use std::collections::VecDeque;

verus! {

/// The part a caller plays in fetching a target.
#[derive(Clone, Copy, Debug, PartialEq, Eq, Structural)]
pub enum Role {
    /// No call for the target is in flight: this caller makes it.
    Leader,
    /// A call for the target is in flight: this caller waits for its
    /// result and makes none of its own.
    Follower,
}

/// The targets in flight and the role of a caller who asks for `key`: the
/// first to ask for a target leads, whoever asks while it is in flight
/// follows.
pub open spec fn begun(in_flight: Set<u64>, key: u64) -> (Set<u64>, Role) {
    if in_flight.contains(key) {
        (in_flight, Role::Follower)
    } else {
        (in_flight.insert(key), Role::Leader)
    }
}

/// The targets in flight after callers asked for `keys`, one after the
/// other, with no call finishing in between.
pub open spec fn after_all(in_flight: Set<u64>, keys: Seq<u64>) -> Set<u64>
    decreases keys.len(),
{
    if keys.len() == 0 {
        in_flight
    } else {
        begun(after_all(in_flight, keys.drop_last()), keys.last()).0
    }
}

/// The number of callers, among those who asked for `keys` one after the
/// other, who were told to make a remote call.
pub open spec fn calls_made(in_flight: Set<u64>, keys: Seq<u64>) -> nat
    decreases keys.len(),
{
    if keys.len() == 0 {
        0
    } else {
        let earlier = calls_made(in_flight, keys.drop_last());
        if begun(after_all(in_flight, keys.drop_last()), keys.last()).1 == Role::Leader {
            earlier + 1
        } else {
            earlier
        }
    }
}

/// Fetch deduplication: however many callers ask for the same idle target
/// while its call is in flight, exactly one remote call is made, by the
/// first of them, and the target stays in flight throughout.
pub proof fn lemma_one_call_per_target(in_flight: Set<u64>, key: u64, callers: nat)
    requires
        !in_flight.contains(key),
        callers >= 1,
    ensures
        calls_made(in_flight, Seq::new(callers, |i: int| key)) == 1,
        after_all(in_flight, Seq::new(callers, |i: int| key)) == in_flight.insert(key),
        begun(in_flight, key).1 == Role::Leader,
        begun(begun(in_flight, key).0, key).1 == Role::Follower,
    decreases callers,
{
    let keys = Seq::new(callers, |i: int| key);
    assert(keys.last() == key);
    if callers == 1 {
        assert(keys.drop_last() =~= Seq::<u64>::empty());
        assert(after_all(in_flight, keys.drop_last()) == in_flight);
        assert(calls_made(in_flight, keys.drop_last()) == 0);
    } else {
        assert(keys.drop_last() =~= Seq::new((callers - 1) as nat, |i: int| key));
        lemma_one_call_per_target(in_flight, key, (callers - 1) as nat);
    }
}

/// A call for one target does not hold up another: asking for a target
/// changes nothing about any other target.
pub proof fn lemma_targets_are_independent(in_flight: Set<u64>, key: u64, other: u64)
    requires
        key != other,
    ensures
        begun(in_flight, key).0.contains(other) == in_flight.contains(other),
{
}

/// The registry of remote calls in flight, by the inode they are for.
pub struct FetchRegistry {
    in_flight: HashSet<u64>,
}

impl View for FetchRegistry {
    type V = Set<u64>;

    closed spec fn view(&self) -> Set<u64> {
        self.in_flight@
    }
}

impl FetchRegistry {
    /// A registry with nothing in flight.
    pub fn new() -> (registry: Self)
        ensures
            registry@ == Set::<u64>::empty(),
    {
        FetchRegistry { in_flight: HashSet::new() }
    }

    /// Whether a call for `key` is in flight.
    pub fn is_pending(&self, key: u64) -> (yes: bool)
        ensures
            yes == self@.contains(key),
    {
        self.in_flight.contains(&key)
    }

    /// Asks to fetch `key`. The caller leads, and must call `finish` when
    /// its remote call has ended, unless a call for `key` is already in
    /// flight.
    pub fn begin(&mut self, key: u64) -> (role: Role)
        ensures
            (final(self)@, role) == begun(old(self)@, key),
    {
        if self.in_flight.insert(key) {
            Role::Leader
        } else {
            assert(self@ =~= old(self)@);
            Role::Follower
        }
    }

    /// Reports that the remote call for `key` has ended, with whatever
    /// result: the next caller to ask for `key` leads again.
    pub fn finish(&mut self, key: u64)
        ensures
            final(self)@ == old(self)@.remove(key),
            begun(final(self)@, key).1 == Role::Leader,
    {
        self.in_flight.remove(&key);
    }
}

/// The limiter as plain values.
pub struct LimiterView {
    pub limit: nat,
    pub active: nat,
    pub waiting: Seq<u64>,
}

/// The invariant of the limiter: never more calls run than the limit
/// allows, and nobody waits while a slot is free.
pub open spec fn bounded(l: LimiterView) -> bool {
    &&& 1 <= l.limit
    &&& l.active <= l.limit
    &&& l.waiting.len() > 0 ==> l.active == l.limit
}

/// The answer to a caller who wants to make a remote call.
#[derive(Clone, Copy, Debug, PartialEq, Eq, Structural)]
pub enum Admission {
    /// A slot is free: the call may be made now.
    Granted,
    /// All slots are taken: the caller waits its turn.
    Queued,
}

/// The limiter and the answer after `who` asked for a slot: a free slot is
/// taken, and with none free the caller joins the end of the queue.
pub open spec fn acquired(l: LimiterView, who: u64) -> (LimiterView, Admission) {
    if l.active < l.limit {
        (LimiterView { active: l.active + 1, ..l }, Admission::Granted)
    } else {
        (LimiterView { waiting: l.waiting.push(who), ..l }, Admission::Queued)
    }
}

/// The limiter after a call ended, and who runs next: the slot goes to the
/// caller who has waited longest, and is freed when nobody waits.
pub open spec fn released(l: LimiterView) -> (LimiterView, Option<u64>) {
    if l.waiting.len() > 0 {
        (LimiterView { waiting: l.waiting.subrange(1, l.waiting.len() as int), ..l }, Some(l.waiting[0]))
    } else {
        (LimiterView { active: (l.active - 1) as nat, ..l }, None)
    }
}

/// The bound holds whatever is asked: asking for a slot and giving one
/// back both keep the limiter within its limit, and a caller who finds no
/// slot is queued, never turned away.
pub proof fn lemma_limit_is_kept(l: LimiterView, who: u64)
    requires
        bounded(l),
    ensures
        bounded(acquired(l, who).0),
        acquired(l, who).1 == Admission::Queued ==> acquired(l, who).0.waiting.last() == who,
        l.active > 0 ==> bounded(released(l).0),
{
}

/// The bound on remote calls that run together.
pub struct RequestLimiter {
    limit: usize,
    active: usize,
    waiting: VecDeque<u64>,
}

impl View for RequestLimiter {
    type V = LimiterView;

    closed spec fn view(&self) -> LimiterView {
        LimiterView { limit: self.limit as nat, active: self.active as nat, waiting: self.waiting@ }
    }
}

impl RequestLimiter {
    /// The invariant every operation keeps.
    pub open spec fn wf(&self) -> bool {
        bounded(self@)
    }

    /// A limiter that lets `limit` calls run together. A limit of zero
    /// would let nothing run, and is taken as one.
    pub fn new(limit: usize) -> (limiter: Self)
        ensures
            limiter.wf(),
            limiter@.limit == (if limit == 0 { 1 } else { limit as nat }),
            limiter@.active == 0,
            limiter@.waiting == Seq::<u64>::empty(),
    {
        RequestLimiter { limit: if limit == 0 { 1 } else { limit }, active: 0, waiting: VecDeque::new() }
    }

    /// The number of calls that run now.
    pub fn active(&self) -> (n: usize)
        ensures
            n == self@.active,
    {
        self.active
    }

    /// The number of callers that wait.
    pub fn waiting(&self) -> (n: usize)
        ensures
            n == self@.waiting.len(),
    {
        self.waiting.len()
    }

    /// Asks for a slot for caller `who`.
    pub fn acquire(&mut self, who: u64) -> (admission: Admission)
        requires
            old(self).wf(),
        ensures
            final(self).wf(),
            (final(self)@, admission) == acquired(old(self)@, who),
    {
        if self.active < self.limit {
            self.active = self.active + 1;
            Admission::Granted
        } else {
            self.waiting.push_back(who);
            Admission::Queued
        }
    }

    /// Gives a slot back after a call ended. Returns the caller whose call
    /// may be made now in its place, if anyone waits.
    pub fn release(&mut self) -> (next: Option<u64>)
        requires
            old(self).wf(),
            old(self)@.active > 0,
        ensures
            final(self).wf(),
            (final(self)@, next) == released(old(self)@),
    {
        match self.waiting.pop_front() {
            Some(who) => Some(who),
            None => {
                self.active = self.active - 1;
                None
            },
        }
    }
}

} // verus!
