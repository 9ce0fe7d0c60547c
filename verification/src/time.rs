//! Time as nanoseconds since the moment a `Clock` was started.

use std::time::Instant;
use vstd::prelude::*;

verus! {

/// One second, in the nanoseconds that every time and every duration of this library counts.
pub const SECOND: u128 = 1_000_000_000;

/// The time from `then` to `now`, or zero where `then` is the later of the two.
pub open spec fn since(now: u128, then: u128) -> u128 {
    if then <= now {
        (now - then) as u128
    } else {
        0
    }
}

/// The time from `then` to `now`, or zero where `then` is the later of the two.
pub fn elapsed(now: u128, then: u128) -> (r: u128)
    ensures
        r == since(now, then),
        then <= now ==> then + r == now,
        now <= then ==> r == 0,
{
    if then <= now {
        now - then
    } else {
        0
    }
}

/// A value that carries the moment it was made or last renewed.
pub trait Stamped {
    spec fn stamp(&self) -> u128;

    fn moment(&self) -> (r: u128)
        ensures
            r == self.stamp(),
    ;
}

impl Stamped for u128 {
    open spec fn stamp(&self) -> u128 {
        *self
    }

    fn moment(&self) -> (r: u128) {
        *self
    }
}

/// Whether a value stamped `stamp` is still younger than `ttl` at `now`.
pub open spec fn is_fresh(now: u128, stamp: u128, ttl: u128) -> bool {
    since(now, stamp) < ttl
}

/// The entries of `m` that are younger than `ttl` at `now`.
pub open spec fn fresh<K, V: Stamped>(m: Map<K, V>, now: u128, ttl: u128) -> Map<K, V> {
    Map::new(|k: K| m.contains_key(k) && is_fresh(now, m[k].stamp(), ttl), |k: K| m[k])
}

/// Dropping stale entries leaves no more of them.
pub proof fn lemma_fresh_len<K, V: Stamped>(m: Map<K, V>, now: u128, ttl: u128)
    requires
        m.dom().finite(),
    ensures
        fresh(m, now, ttl).dom().finite(),
        fresh(m, now, ttl).len() <= m.len(),
{
    let f = fresh(m, now, ttl);
    assert(f.dom().subset_of(m.dom()));
    vstd::set_lib::lemma_len_subset(f.dom(), m.dom());
}

/// Dropping a stale entry leaves fewer of them.
pub proof fn lemma_fresh_shrinks<K, V: Stamped>(m: Map<K, V>, now: u128, ttl: u128, k: K)
    requires
        m.dom().finite(),
        m.contains_key(k),
        !is_fresh(now, m[k].stamp(), ttl),
    ensures
        fresh(m, now, ttl).dom().finite(),
        fresh(m, now, ttl).len() < m.len(),
{
    let f = fresh(m, now, ttl);
    assert(f.dom().subset_of(m.dom().remove(k)));
    vstd::set_lib::lemma_len_subset(f.dom(), m.dom().remove(k));
}

/// The time between two moments, added to the earlier one, gives the later one, however late that
/// is; and it grows as time goes on, nanosecond by nanosecond.
pub proof fn law_since_is_the_difference(now: u128, then: u128, later: u128)
    ensures
        then <= now ==> then + since(now, then) == now,
        now <= then ==> since(now, then) == 0,
        then <= now <= later ==> since(later, then) == since(now, then) + (later - now),
{
}

/// A value is young until its lifetime has passed since its stamp, and never after; one without a
/// lifetime is never young.
pub proof fn law_young_until_the_lifetime_has_passed(now: u128, stamp: u128, ttl: u128)
    ensures
        is_fresh(now, stamp, ttl) <==> 0 < ttl && now < stamp + ttl,
{
}

/// A sweep keeps an entry, as it was, exactly where its lifetime has not passed.
pub proof fn law_sweep_keeps_the_young<K, V: Stamped>(m: Map<K, V>, now: u128, ttl: u128, k: K)
    ensures
        fresh(m, now, ttl).contains_key(k) <==> m.contains_key(k) && 0 < ttl && now < m[k].stamp()
            + ttl,
        fresh(m, now, ttl).contains_key(k) ==> fresh(m, now, ttl)[k] == m[k],
{
}

/// `std::time::Instant`, a reading of the monotonic clock. Nothing is known of the value.
#[verifier::external_type_specification]
#[verifier::external_body]
pub struct ExInstant(Instant);

/// Calls `std::time::Instant::now`. Nothing is claimed of the reading.
#[verifier::external_body]
fn instant_now() -> Instant {
    Instant::now()
}

/// Whether a call that asks how long ago `origin` was may come back with `nanos`. It says of which
/// moment the age was taken, not which age came back: that depends on when the call is made.
pub uninterp spec fn may_elapse(origin: Instant, nanos: u128) -> bool;

/// Calls `std::time::Instant::elapsed` and counts the duration in nanoseconds. The result is one
/// that this call may give for `origin`; how large it is, and that a later call gives no less, is
/// left unsaid.
#[verifier::external_body]
fn instant_elapsed(origin: &Instant) -> (r: u128)
    ensures
        may_elapse(*origin, r),
{
    origin.elapsed().as_nanos()
}

/// A clock that counts nanoseconds from the moment it was started.
pub struct Clock {
    origin: Instant,
}

impl Clock {
    /// The moment that this clock counts from.
    pub closed spec fn origin(self) -> Instant {
        self.origin
    }

    /// Whether a reading of this clock may show `now`.
    pub closed spec fn shows(self, now: u128) -> bool {
        may_elapse(self.origin, now)
    }

    /// What a clock shows is the age of the moment that it counts from, and nothing else.
    pub proof fn law_clock_shows_the_age_of_its_origin(self, now: u128)
        ensures
            self.shows(now) <==> may_elapse(self.origin(), now),
    {
    }

    /// Starts a clock: its readings count from now.
    pub fn start() -> Self {
        Clock { origin: instant_now() }
    }

    /// The nanoseconds since the clock was started. How many there are is left open.
    pub fn read(&self) -> (r: u128)
        ensures
            self.shows(r),
            may_elapse(self.origin(), r),
    {
        instant_elapsed(&self.origin)
    }
}

} // verus!
