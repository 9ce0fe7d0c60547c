//! Rate limiting: a fixed window per key, in bounded memory.

use crate::table::{Table, TableKey};
use crate::time::{elapsed, Clock, Stamped};
use vstd::prelude::*;

verus! {

/// The events counted for one key in the window that began at `start`.
#[derive(Clone, Copy, Debug)]
pub struct Slot {
    pub count: u32,
    pub start: u128,
}

impl Stamped for Slot {
    open spec fn stamp(&self) -> u128 {
        self.start
    }

    fn moment(&self) -> (r: u128) {
        self.start
    }
}

/// What a limiter holds: a slot per key, when the table was last swept, and its three settings.
#[verifier::ext_equal]
#[verifier::reject_recursive_types(K)]
pub struct LimiterState<K> {
    pub slots: Map<K, Slot>,
    pub last_sweep: u128,
    pub max: u32,
    pub window: u128,
    pub cap: usize,
}

impl<K> LimiterState<K> {
    /// The table never outgrows its cap.
    pub open spec fn bounded(self) -> bool {
        self.slots.dom().finite() && self.slots.len() <= self.cap
    }

    /// Every count is at least one, with which a window opens, and at most the maximum.
    pub open spec fn within_quota(self) -> bool {
        forall|k: K| #[trigger]
            self.slots.contains_key(k) ==> 1 <= self.slots[k].count <= self.max
    }

    /// Whether an event at `now` sweeps the table first: it is full, and was not swept for a window.
    pub open spec fn sweeps(self, now: u128) -> bool {
        self.slots.len() >= self.cap && crate::time::since(now, self.last_sweep) >= self.window
    }

    /// The state after the sweep, if there is one.
    pub open spec fn swept(self, now: u128) -> Self {
        if self.sweeps(now) {
            LimiterState {
                slots: crate::time::fresh(self.slots, now, self.window),
                last_sweep: now,
                ..self
            }
        } else {
            self
        }
    }

    /// Whether `key` has a slot whose window is still open at `now`.
    pub open spec fn is_open(self, key: K, now: u128) -> bool {
        self.slots.contains_key(key) && crate::time::is_fresh(
            now,
            self.slots[key].start,
            self.window,
        )
    }

    /// Whether one more event for `key` fits at `now`: in an open window the count must be below
    /// the maximum; a window opens only where the maximum lets one event through, and for a new
    /// key only where the table has room.
    pub open spec fn fits(self, key: K, now: u128) -> bool {
        let s = self.swept(now);
        if s.is_open(key, now) {
            s.slots[key].count < s.max
        } else {
            s.max > 0 && (s.slots.contains_key(key) || s.slots.len() < s.cap)
        }
    }

    /// The state after an event for `key` at `now`.
    pub open spec fn after(self, key: K, now: u128) -> Self {
        let s = self.swept(now);
        if !self.fits(key, now) {
            s
        } else if s.is_open(key, now) {
            let slot = s.slots[key];
            LimiterState {
                slots: s.slots.insert(
                    key,
                    Slot { count: (slot.count + 1) as u32, start: slot.start },
                ),
                ..s
            }
        } else {
            LimiterState { slots: s.slots.insert(key, Slot { count: 1, start: now }), ..s }
        }
    }

    /// The state after the events `events`, each a key and a time, in their order.
    pub open spec fn run(self, events: Seq<(K, u128)>) -> Self
        decreases events.len(),
    {
        if events.len() == 0 {
            self
        } else {
            let (key, now) = events.last();
            self.run(events.drop_last()).after(key, now)
        }
    }

    /// How many of the events for `key` among `events` were let through.
    pub open spec fn admitted(self, events: Seq<(K, u128)>, key: K) -> nat
        decreases events.len(),
    {
        if events.len() == 0 {
            0
        } else {
            let (k, now) = events.last();
            let rest = events.drop_last();
            self.admitted(rest, key) + if k == key && self.run(rest).fits(k, now) {
                1nat
            } else {
                0
            }
        }
    }
}

/// How many of `events` are for `key`.
pub open spec fn asked<K>(events: Seq<(K, u128)>, key: K) -> nat
    decreases events.len(),
{
    if events.len() == 0 {
        0
    } else {
        asked(events.drop_last(), key) + if events.last().0 == key {
            1nat
        } else {
            0
        }
    }
}

/// An event leaves the table within its cap.
pub proof fn law_bounded<K>(s: LimiterState<K>, key: K, now: u128)
    requires
        s.bounded(),
    ensures
        s.after(key, now).bounded(),
{
    crate::time::lemma_fresh_len(s.slots, now, s.window);
}

/// An event leaves every count within the quota: at least one and at most `max`.
pub proof fn law_counts_stay_within_quota<K>(s: LimiterState<K>, key: K, now: u128)
    requires
        s.within_quota(),
    ensures
        s.after(key, now).within_quota(),
{
    assert forall|k: K| #[trigger] s.after(key, now).slots.contains_key(k) implies {
        let count = s.after(key, now).slots[k].count;
        1 <= count <= s.max
    } by {
        assert(k == key || s.swept(now).slots.contains_key(k));
        assert(s.swept(now).slots.contains_key(k) ==> s.slots.contains_key(k));
    }
}

/// While the table is full and was swept within the window, a new key is refused and nothing
/// changes.
pub proof fn law_full_table_refuses_new_keys<K>(s: LimiterState<K>, key: K, now: u128)
    requires
        s.slots.len() >= s.cap,
        !s.slots.contains_key(key),
        0 < s.window,
        now < s.last_sweep + s.window,
    ensures
        !s.fits(key, now),
        s.after(key, now) == s,
{
}

/// In an open window an event fits exactly while fewer than `max` were counted; the one that fits
/// counts one more in the same window, and one that does not leaves the slot as it is.
pub proof fn law_event_in_an_open_window<K>(s: LimiterState<K>, key: K, now: u128)
    requires
        s.slots.contains_key(key),
        now < s.slots[key].start + s.window,
        0 < s.window,
    ensures
        s.fits(key, now) <==> s.slots[key].count < s.max,
        s.after(key, now).slots.contains_key(key),
        s.after(key, now).slots[key].start == s.slots[key].start,
        s.after(key, now).slots[key].count == s.slots[key].count + if s.slots[key].count < s.max {
            1int
        } else {
            0
        },
{
    lemma_open_slot(s, key, key, now);
}

/// Once its window has passed, a key opens a new one with its next event, even where the table is
/// full; nothing fits where the maximum is zero.
pub proof fn law_event_after_the_window<K>(s: LimiterState<K>, key: K, now: u128)
    requires
        s.slots.dom().finite(),
        s.slots.len() <= s.cap,
        s.slots.contains_key(key),
        s.window == 0 || now >= s.slots[key].start + s.window,
    ensures
        s.fits(key, now) <==> s.max > 0,
        s.max > 0 ==> s.after(key, now).slots.contains_key(key) && s.after(key, now).slots[key] == (
        Slot { count: 1, start: now }),
{
    crate::time::lemma_fresh_shrinks(s.slots, now, s.window, key);
}

/// A new key opens a window with its first event where the table has room, and nothing else
/// changes; nothing fits where the maximum is zero.
pub proof fn law_first_event_of_a_key<K>(s: LimiterState<K>, key: K, now: u128)
    requires
        !s.slots.contains_key(key),
        s.slots.len() < s.cap,
    ensures
        s.fits(key, now) <==> s.max > 0,
        s.after(key, now) == if s.max > 0 {
            LimiterState { slots: s.slots.insert(key, Slot { count: 1, start: now }), ..s }
        } else {
            s
        },
{
}

/// A full table that was not swept for a window is swept for an event of a new key, which then
/// fits exactly where a window of some other key had passed (and the maximum is not zero).
pub proof fn law_sweep_makes_room<K>(s: LimiterState<K>, key: K, now: u128)
    requires
        s.slots.dom().finite(),
        s.slots.len() == s.cap,
        !s.slots.contains_key(key),
        s.window == 0 || now >= s.last_sweep + s.window,
    ensures
        s.fits(key, now) <==> s.max > 0 && exists|k: K| #[trigger]
            s.slots.contains_key(k) && (s.window == 0 || now >= s.slots[k].start + s.window),
        s.fits(key, now) ==> s.after(key, now).slots.contains_key(key) && s.after(
            key,
            now,
        ).slots[key] == (Slot { count: 1, start: now }),
        !s.fits(key, now) ==> !s.after(key, now).slots.contains_key(key),
        s.after(key, now).last_sweep == now,
{
    let f = crate::time::fresh(s.slots, now, s.window);
    if exists|k: K| #[trigger]
        s.slots.contains_key(k) && (s.window == 0 || now >= s.slots[k].start + s.window) {
        let k = choose|k: K| #[trigger]
            s.slots.contains_key(k) && (s.window == 0 || now >= s.slots[k].start + s.window);
        crate::time::lemma_fresh_shrinks(s.slots, now, s.window, k);
    } else {
        assert(f =~= s.slots);
    }
}

/// An event of one key leaves the slot of another as it is, or drops it: that only where the table
/// was full, no sweep came for a window, and the other's own window has passed. The settings stay.
pub proof fn law_event_and_the_other_keys<K>(s: LimiterState<K>, key: K, now: u128, other: K)
    requires
        other != key,
    ensures
        ({
            let sweep = s.slots.len() >= s.cap && (s.window == 0 || now >= s.last_sweep + s.window);
            let passed = s.window == 0 || now >= s.slots[other].start + s.window;
            let end = s.after(key, now);
            &&& end.slots.contains_key(other) <==> s.slots.contains_key(other) && !(sweep && passed)
            &&& end.slots.contains_key(other) ==> end.slots[other] == s.slots[other]
            &&& end.last_sweep == if sweep {
                now
            } else {
                s.last_sweep
            }
            &&& end.max == s.max
            &&& end.window == s.window
            &&& end.cap == s.cap
        }),
{
}

/// Where every key of a full table is within its window, a new key is refused even if this event
/// sweeps the table, and no slot changes.
pub proof fn law_table_of_live_keys_refuses_new_keys<K>(s: LimiterState<K>, key: K, now: u128)
    requires
        s.slots.len() >= s.cap,
        !s.slots.contains_key(key),
        forall|k: K| #[trigger] s.slots.contains_key(k) ==> s.is_open(k, now),
    ensures
        !s.fits(key, now),
        s.after(key, now).slots == s.slots,
{
    assert(crate::time::fresh(s.slots, now, s.window) =~= s.slots);
}

/// A sweep is followed by none for a window, whatever events come.
pub proof fn law_one_sweep_per_window<K>(
    s: LimiterState<K>,
    first: (K, u128),
    events: Seq<(K, u128)>,
    now: u128,
)
    requires
        s.sweeps(first.1),
        forall|i: int|
            0 <= i < events.len() ==> crate::time::since((#[trigger] events[i]).1, first.1)
                < s.window,
        crate::time::since(now, first.1) < s.window,
    ensures
        !s.after(first.0, first.1).run(events).sweeps(now),
{
    lemma_last_sweep_stays(s.after(first.0, first.1), events);
}

/// Events within a window of the last sweep leave the time of the last sweep as it is.
proof fn lemma_last_sweep_stays<K>(s: LimiterState<K>, events: Seq<(K, u128)>)
    requires
        forall|i: int|
            0 <= i < events.len() ==> crate::time::since((#[trigger] events[i]).1, s.last_sweep)
                < s.window,
    ensures
        s.run(events).last_sweep == s.last_sweep,
        s.run(events).window == s.window,
        s.run(events).max == s.max,
        s.run(events).cap == s.cap,
    decreases events.len(),
{
    if events.len() > 0 {
        let rest = events.drop_last();
        assert forall|i: int| 0 <= i < rest.len() implies crate::time::since(
            (#[trigger] rest[i]).1,
            s.last_sweep,
        ) < s.window by {
            assert(rest[i] == events[i]);
        }
        lemma_last_sweep_stays(s, rest);
        assert(events[events.len() - 1] == events.last());
    }
}

/// An event for one key leaves the slot of every other open key as it is.
pub proof fn law_keys_do_not_share<K>(s: LimiterState<K>, key: K, now: u128, other: K)
    requires
        other != key,
        s.is_open(other, now),
    ensures
        s.after(key, now).slots.contains_key(other),
        s.after(key, now).slots[other] == s.slots[other],
{
}

/// How many more events `slot` has room for under `max`.
pub open spec fn room(slot: Slot, max: u32) -> nat {
    if slot.count < max {
        (max - slot.count) as nat
    } else {
        0
    }
}

/// One event while the window of `key` is open: the window stays, and its count goes up by one
/// exactly where the event is for `key` and fits.
pub proof fn lemma_open_slot<K>(s: LimiterState<K>, key: K, event_key: K, now: u128)
    requires
        s.is_open(key, now),
    ensures
        s.after(event_key, now).slots.contains_key(key),
        s.after(event_key, now).slots[key].start == s.slots[key].start,
        s.after(event_key, now).slots[key].count == s.slots[key].count + if event_key == key
            && s.fits(key, now) {
            1int
        } else {
            0
        },
        s.fits(key, now) == (s.slots[key].count < s.max),
        s.after(event_key, now).max == s.max,
        s.after(event_key, now).window == s.window,
{
    assert(s.swept(now).slots.contains_key(key));
    assert(s.swept(now).slots[key] == s.slots[key]);
}

/// The quota. As long as the window of `key` is open, whatever other keys ask for: the first
/// events for `key` are let through until its count reaches the maximum, and no more.
pub proof fn law_quota<K>(s: LimiterState<K>, events: Seq<(K, u128)>, key: K)
    requires
        s.slots.contains_key(key),
        forall|i: int|
            0 <= i < events.len() ==> crate::time::is_fresh(
                (#[trigger] events[i]).1,
                s.slots[key].start,
                s.window,
            ),
    ensures
        s.admitted(events, key) == if asked(events, key) < room(s.slots[key], s.max) {
            asked(events, key)
        } else {
            room(s.slots[key], s.max)
        },
        s.run(events).slots.contains_key(key),
        s.run(events).slots[key].start == s.slots[key].start,
        s.run(events).slots[key].count == s.slots[key].count + s.admitted(events, key),
        s.run(events).max == s.max,
        s.run(events).window == s.window,
    decreases events.len(),
{
    if events.len() > 0 {
        let rest = events.drop_last();
        assert forall|i: int| 0 <= i < rest.len() implies crate::time::is_fresh(
            (#[trigger] rest[i]).1,
            s.slots[key].start,
            s.window,
        ) by {
            assert(rest[i] == events[i]);
        }
        law_quota(s, rest, key);
        assert(events[events.len() - 1] == events.last());
        let mid = s.run(rest);
        let (k, now) = events.last();
        lemma_open_slot(mid, key, k, now);
    }
}

/// A key that has no open window and finds room opens one with its first event; until that window
/// closes, exactly `max` events for the key are let through, and the rest are refused.
pub proof fn law_quota_of_a_new_window<K>(
    s: LimiterState<K>,
    key: K,
    start: u128,
    events: Seq<(K, u128)>,
)
    requires
        s.max > 0,
        !s.is_open(key, start),
        s.swept(start).slots.contains_key(key) || s.swept(start).slots.len() < s.cap,
        forall|i: int|
            0 <= i < events.len() ==> crate::time::is_fresh(
                (#[trigger] events[i]).1,
                start,
                s.window,
            ),
    ensures
        s.fits(key, start),
        1 + s.after(key, start).admitted(events, key) == if 1 + asked(events, key) < s.max {
            1 + asked(events, key)
        } else {
            s.max as nat
        },
{
    law_quota(s.after(key, start), events, key);
}

/// Where the maximum is zero, no event fits, and the table gets no entry.
pub proof fn law_no_maximum_lets_nothing_through<K>(s: LimiterState<K>, key: K, now: u128)
    requires
        s.max == 0,
    ensures
        !s.fits(key, now),
        s.after(key, now) == s.swept(now),
{
}

/// A fixed-window limiter: at most `max` events per key in `window`, for at most `cap` keys.
#[verifier::reject_recursive_types(K)]
pub struct RateLimiter<K: TableKey> {
    map: Table<K, Slot>,
    last_sweep: u128,
    max: u32,
    window: u128,
    cap: usize,
    clock: Clock,
}

impl<K: TableKey> View for RateLimiter<K> {
    type V = LimiterState<K::V>;

    closed spec fn view(&self) -> LimiterState<K::V> {
        LimiterState {
            slots: self.map@,
            last_sweep: self.last_sweep,
            max: self.max,
            window: self.window,
            cap: self.cap,
        }
    }
}

impl<K: TableKey> RateLimiter<K> {
    /// The table is sound and within its cap.
    pub closed spec fn wf(&self) -> bool {
        self.map.wf() && self@.bounded()
    }

    /// The clock that the times of this limiter are read from.
    pub closed spec fn clock(&self) -> Clock {
        self.clock
    }

    /// A sound limiter holds no more keys than its cap.
    pub proof fn law_within_cap(&self)
        requires
            self.wf(),
        ensures
            self@.bounded(),
    {
    }

    /// A limiter without events. Its times count from now.
    pub fn new(max: u32, window: u128, cap: usize) -> (r: Self)
        ensures
            r.wf(),
            r@ == (LimiterState::<K::V> { slots: Map::empty(), last_sweep: 0, max, window, cap }),
    {
        RateLimiter { map: Table::new(), last_sweep: 0, max, window, cap, clock: Clock::start() }
    }

    /// A reading of the limiter's own clock. Which time it shows is left open.
    pub fn now(&self) -> (r: u128)
        ensures
            self.clock().shows(r),
    {
        self.clock.read()
    }

    /// True if one more event for `key` fits in the current window, at a time `now` that counts
    /// from when the limiter was made.
    /// A full table is swept at most once per window, so a flood of new keys cannot turn every
    /// call into a full scan; while it stays full, new keys are refused.
    pub fn allow_at(&mut self, key: &K, now: u128) -> (r: bool)
        requires
            old(self).wf(),
        ensures
            final(self).wf(),
            final(self).clock() == old(self).clock(),
            final(self)@ == old(self)@.after(key@, now),
            r == old(self)@.fits(key@, now),
    {
        proof {
            law_bounded(self@, key@, now);
        }
        if self.map.len() >= self.cap && elapsed(now, self.last_sweep) >= self.window {
            self.map.sweep(now, self.window);
            self.last_sweep = now;
        }
        assert(self@ == old(self)@.swept(now));
        let slot = match self.map.get(key) {
            Some(slot) => Some(*slot),
            None => None,
        };
        match slot {
            Some(slot) => {
                if elapsed(now, slot.start) < self.window {
                    if slot.count >= self.max {
                        return false;
                    }
                    self.map.insert(
                        key.duplicate(),
                        Slot { count: slot.count + 1, start: slot.start },
                    );
                    true
                } else {
                    if self.max == 0 {
                        return false;
                    }
                    self.map.insert(key.duplicate(), Slot { count: 1, start: now });
                    true
                }
            },
            None => {
                if self.max == 0 || self.map.len() >= self.cap {
                    return false;
                }
                self.map.insert(key.duplicate(), Slot { count: 1, start: now });
                true
            },
        }
    }

    /// True if one more event for `key` fits in the current window: `allow_at`, at the time that
    /// the clock shows.
    pub fn allow(&mut self, key: &K) -> (r: bool)
        requires
            old(self).wf(),
        ensures
            final(self).wf(),
            final(self).clock() == old(self).clock(),
            exists|now: u128|
                old(self).clock().shows(now) && final(self)@ == #[trigger] old(self)@.after(
                    key@,
                    now,
                ) && r == old(self)@.fits(key@, now),
    {
        let now = self.now();
        self.allow_at(key, now)
    }
}

} // verus!
