//! Which clients were heard of, over UDP and over the heartbeat API, and who is told to come back
//! over WebSocket.

use crate::table::Table;
use crate::time::{elapsed, Clock, SECOND};
use vstd::prelude::*;
use vstd::string::*;
use vstd::utf8::*;

verus! {

// A client with working UDP registers within about 15 s of starting (every 12 s or so). Decide on
// the third heartbeat, about 33 s after the client starts.
pub const FALLBACK_AFTER_SECONDS: u128 = 30;

// After a start, give every client a full registration cycle before judging it.
pub const STARTUP_GRACE_SECONDS: u128 = 60;

pub const UDP_SEEN_SECONDS: u128 = 120;

pub const UDP_SEEN_CAP: usize = 200_000;

/// How long the first heartbeat of an id is remembered.
pub const HB_SECONDS: u128 = 600;

/// How far apart two sweeps of the heartbeat table are, at least.
pub const HB_SWEEP_SECONDS: u128 = 60;

pub const HB_CAP: usize = 100_000;

/// How long a registration counts as fresh.
pub const REG_FRESH_SECONDS: u128 = 30;

/// The longest id, in bytes.
pub const ID_MAX: usize = 64;

/// An id is 1 to 64 bytes long.
pub open spec fn is_valid_id(id: Seq<char>) -> bool {
    1 <= encode_utf8(id).len() <= ID_MAX
}

/// Whether `id` is 1 to 64 bytes long.
pub fn valid_id(id: &str) -> (r: bool)
    ensures
        r == is_valid_id(id@),
{
    let n = id.as_bytes().len();
    1 <= n && n <= ID_MAX
}

/// When each id was heard of, and when the table was last swept.
#[verifier::ext_equal]
pub struct Heard {
    pub ids: Map<Seq<char>, u128>,
    pub last_sweep: u128,
}

impl Heard {
    /// The table without the entries that are `ttl` or older at `now`.
    pub open spec fn swept(self, now: u128, ttl: u128) -> Self {
        Heard { ids: crate::time::fresh(self.ids, now, ttl), last_sweep: now }
    }

    pub open spec fn with(self, id: Seq<char>, t: u128) -> Self {
        Heard { ids: self.ids.insert(id, t), ..self }
    }

    /// The table of packets as a packet of a new id at `now` finds it: a full table that was not
    /// swept for two minutes is swept.
    pub open spec fn cleared(self, now: u128) -> Self {
        let ttl = (UDP_SEEN_SECONDS * SECOND) as u128;
        if self.ids.len() >= UDP_SEEN_CAP && crate::time::since(now, self.last_sweep) >= ttl {
            self.swept(now, ttl)
        } else {
            self
        }
    }

    /// Whether a packet of `id` at `now` is entered: the id is known, or there is room for it.
    pub open spec fn enters(self, id: Seq<char>, now: u128) -> bool {
        is_valid_id(id) && (self.ids.contains_key(id) || self.cleared(now).ids.len() < UDP_SEEN_CAP)
    }

    /// The table after a UDP registration packet of `id`: a known id is renewed; a new one is
    /// entered where there is room, which a sweep may make once in a while.
    pub open spec fn seen(self, id: Seq<char>, now: u128) -> Self {
        if !is_valid_id(id) {
            self
        } else if self.ids.contains_key(id) {
            self.with(id, now)
        } else if self.enters(id, now) {
            self.cleared(now).with(id, now)
        } else {
            self.cleared(now)
        }
    }

    /// Whether a UDP registration packet of `id` came within the last two minutes.
    pub open spec fn seen_recently(self, id: Seq<char>, now: u128) -> bool {
        self.ids.contains_key(id) && crate::time::is_fresh(
            now,
            self.ids[id],
            (UDP_SEEN_SECONDS * SECOND) as u128,
        )
    }

    /// The table without `id`.
    pub open spec fn forgotten(self, id: Seq<char>) -> Self {
        Heard { ids: self.ids.remove(id), ..self }
    }

    /// The table of first heartbeats as a heartbeat of `id` finds it: a full table may be swept
    /// for a new id.
    pub open spec fn made_room(self, id: Seq<char>, now: u128) -> Self {
        if self.ids.len() >= HB_CAP && !self.ids.contains_key(id) && crate::time::since(
            now,
            self.last_sweep,
        ) >= HB_SWEEP_SECONDS * SECOND {
            self.swept(now, (HB_SECONDS * SECOND) as u128)
        } else {
            self
        }
    }

    /// Whether the first heartbeat of `id` is remembered and not too old to count.
    pub open spec fn remembers(self, id: Seq<char>, now: u128) -> bool {
        self.ids.contains_key(id) && crate::time::is_fresh(
            now,
            self.ids[id],
            (HB_SECONDS * SECOND) as u128,
        )
    }

    /// How long `id` has been sending heartbeats.
    pub open spec fn age(self, id: Seq<char>, now: u128) -> u128 {
        if self.remembers(id, now) {
            crate::time::since(now, self.ids[id])
        } else {
            0
        }
    }

    /// The table of first heartbeats after a heartbeat of `id`: a remembered first heartbeat
    /// stays; otherwise this one is the first, where there is room for it.
    pub open spec fn beaten(self, id: Seq<char>, now: u128) -> Self {
        let s = self.made_room(id, now);
        if self.remembers(id, now) {
            self
        } else if self.ids.contains_key(id) || s.ids.len() < HB_CAP {
            s.with(id, now)
        } else {
            s
        }
    }
}

/// When the last UDP registration packet of each id came. A client whose UDP is blocked never
/// shows up here.
pub struct UdpSeen {
    map: Table<String, u128>,
    last_sweep: u128,
    clock: Clock,
}

impl View for UdpSeen {
    type V = Heard;

    closed spec fn view(&self) -> Heard {
        Heard { ids: self.map@, last_sweep: self.last_sweep }
    }
}

impl UdpSeen {
    /// The table is sound and within its cap, and holds valid ids only.
    pub closed spec fn wf(&self) -> bool {
        &&& self.map.wf()
        &&& self.map@.dom().finite()
        &&& self.map@.len() <= UDP_SEEN_CAP
        &&& forall|id: Seq<char>| #[trigger] self.map@.contains_key(id) ==> is_valid_id(id)
    }

    /// The clock that the times of this table are read from.
    pub closed spec fn clock(&self) -> Clock {
        self.clock
    }

    /// A sound table holds no more ids than its cap.
    pub proof fn law_within_cap(&self)
        requires
            self.wf(),
        ensures
            self@.ids.dom().finite(),
            self@.ids.len() <= UDP_SEEN_CAP,
    {
    }

    /// A sound table holds valid ids only.
    pub proof fn law_holds_valid_ids(&self, id: Seq<char>)
        requires
            self.wf(),
            self@.ids.contains_key(id),
        ensures
            is_valid_id(id),
    {
    }

    /// Nothing was seen yet.
    pub fn new() -> (r: Self)
        ensures
            r.wf(),
            r@ == (Heard { ids: Map::empty(), last_sweep: 0 }),
    {
        UdpSeen { map: Table::new(), last_sweep: 0, clock: Clock::start() }
    }

    /// A reading of the table's own clock. Which time it shows is left open.
    pub fn now(&self) -> (r: u128)
        ensures
            self.clock().shows(r),
    {
        self.clock.read()
    }
}

/// `udp_seen` at a given time.
pub fn udp_seen_at(seen: &mut UdpSeen, id: &str, now: u128)
    requires
        old(seen).wf(),
    ensures
        final(seen).wf(),
        final(seen).clock() == old(seen).clock(),
        final(seen)@ == old(seen)@.seen(id@, now),
{
    if !valid_id(id) {
        return;
    }
    let key = id.to_owned();
    if seen.map.contains_key(&key) {
        seen.map.insert(key, now);
        return;
    }
    if seen.map.len() >= UDP_SEEN_CAP && elapsed(now, seen.last_sweep) >= UDP_SEEN_SECONDS
        * SECOND {
        proof {
            crate::time::lemma_fresh_len(seen.map@, now, (UDP_SEEN_SECONDS * SECOND) as u128);
        }
        seen.map.sweep(now, UDP_SEEN_SECONDS * SECOND);
        seen.last_sweep = now;
    }
    if seen.map.len() < UDP_SEEN_CAP {
        seen.map.insert(key, now);
    }
}

/// Called for every UDP registration packet with an id.
pub fn udp_seen(seen: &mut UdpSeen, id: &str)
    requires
        old(seen).wf(),
    ensures
        final(seen).wf(),
        final(seen).clock() == old(seen).clock(),
        exists|now: u128|
            old(seen).clock().shows(now) && final(seen)@ == #[trigger] old(seen)@.seen(id@, now),
{
    let now = seen.now();
    udp_seen_at(seen, id, now)
}

/// `udp_seen_recently` at a given time.
pub fn udp_seen_recently_at(seen: &UdpSeen, id: &str, now: u128) -> (r: bool)
    requires
        seen.wf(),
    ensures
        r == seen@.seen_recently(id@, now),
{
    match seen.map.get(&id.to_owned()) {
        Some(t) => elapsed(now, *t) < UDP_SEEN_SECONDS * SECOND,
        None => false,
    }
}

/// Whether a UDP registration packet of `id` came within the last two minutes.
pub fn udp_seen_recently(seen: &UdpSeen, id: &str) -> (r: bool)
    requires
        seen.wf(),
    ensures
        exists|now: u128|
            seen.clock().shows(now) && r == #[trigger] seen@.seen_recently(id@, now),
{
    let now = seen.now();
    udp_seen_recently_at(seen, id, now)
}

/// When the first heartbeat of each id came that has not registered over UDP since.
pub struct FirstSeen {
    map: Table<String, u128>,
    last_sweep: u128,
    clock: Clock,
}

impl View for FirstSeen {
    type V = Heard;

    closed spec fn view(&self) -> Heard {
        Heard { ids: self.map@, last_sweep: self.last_sweep }
    }
}

impl FirstSeen {
    /// The table is sound and within its cap.
    pub closed spec fn wf(&self) -> bool {
        self.map.wf() && self.map@.dom().finite() && self.map@.len() <= HB_CAP
    }

    /// The clock that the times of this table are read from.
    pub closed spec fn clock(&self) -> Clock {
        self.clock
    }

    /// No heartbeat came yet.
    pub fn new() -> (r: Self)
        ensures
            r.wf(),
            r@ == (Heard { ids: Map::empty(), last_sweep: 0 }),
    {
        FirstSeen { map: Table::new(), last_sweep: 0, clock: Clock::start() }
    }

    /// How many ids are remembered.
    pub fn len(&self) -> (r: usize)
        requires
            self.wf(),
        ensures
            r == self@.ids.len(),
            r <= HB_CAP,
    {
        self.map.len()
    }

    /// A reading of the table's own clock. Which time it shows is left open.
    pub fn now(&self) -> (r: u128)
        ensures
            self.clock().shows(r),
    {
        self.clock.read()
    }
}

/// Forgets when the first heartbeat of `id` came.
pub fn hb_forget(first: &mut FirstSeen, id: &str)
    requires
        old(first).wf(),
    ensures
        final(first).wf(),
        final(first).clock() == old(first).clock(),
        final(first)@ == old(first)@.forgotten(id@),
{
    first.map.remove(&id.to_owned());
}

/// `hb_age` at a given time.
pub fn hb_age_at(first: &mut FirstSeen, id: &str, now: u128) -> (r: u128)
    requires
        old(first).wf(),
    ensures
        final(first).wf(),
        final(first).clock() == old(first).clock(),
        r == old(first)@.age(id@, now),
        final(first)@ == old(first)@.beaten(id@, now),
{
    let key = id.to_owned();
    if first.map.len() >= HB_CAP && !first.map.contains_key(&key) {
        if elapsed(now, first.last_sweep) >= HB_SWEEP_SECONDS * SECOND {
            proof {
                crate::time::lemma_fresh_len(first.map@, now, (HB_SECONDS * SECOND) as u128);
            }
            first.map.sweep(now, HB_SECONDS * SECOND);
            first.last_sweep = now;
        }
        if first.map.len() >= HB_CAP {
            return 0;
        }
    }
    assert(first@ == old(first)@.made_room(id@, now));
    let known = match first.map.get(&key) {
        Some(t) => Some(*t),
        None => None,
    };
    match known {
        Some(t) => {
            if elapsed(now, t) >= HB_SECONDS * SECOND {
                first.map.insert(key, now);
                return 0;
            }
            elapsed(now, t)
        },
        None => {
            first.map.insert(key, now);
            0
        },
    }
}

/// How long `id` has been sending heartbeats without a UDP registration, in nanoseconds.
pub fn hb_age(first: &mut FirstSeen, id: &str) -> (r: u128)
    requires
        old(first).wf(),
    ensures
        final(first).wf(),
        final(first).clock() == old(first).clock(),
        exists|now: u128|
            old(first).clock().shows(now) && r == old(first)@.age(id@, now) && final(first)@ == #[trigger] old(first)@.beaten(
                id@,
                now,
            ),
{
    let now = first.now();
    hb_age_at(first, id, now)
}

/// The table of packets after `packets`, each an id and a time, in their order.
pub open spec fn seen_all(s: Heard, packets: Seq<(Seq<char>, u128)>) -> Heard
    decreases packets.len(),
{
    if packets.len() == 0 {
        s
    } else {
        seen_all(s, packets.drop_last()).seen(packets.last().0, packets.last().1)
    }
}

/// An id that the table holds stays seen until two minutes after its own packet, whatever packets
/// of others come in that time.
pub proof fn law_held_id_stays_seen(
    s: Heard,
    id: Seq<char>,
    packets: Seq<(Seq<char>, u128)>,
    now: u128,
)
    requires
        s.ids.contains_key(id),
        forall|i: int|
            0 <= i < packets.len() ==> (#[trigger] packets[i]).0 != id && packets[i].1 < s.ids[id]
                + 120_000_000_000,
    ensures
        seen_all(s, packets).ids.contains_key(id),
        seen_all(s, packets).ids[id] == s.ids[id],
        seen_all(s, packets).seen_recently(id, now) == (now < s.ids[id] + 120_000_000_000),
    decreases packets.len(),
{
    if packets.len() > 0 {
        let rest = packets.drop_last();
        assert forall|i: int| 0 <= i < rest.len() implies (#[trigger] rest[i]).0 != id
            && rest[i].1 < s.ids[id] + 120_000_000_000 by {
            assert(rest[i] == packets[i]);
        }
        law_held_id_stays_seen(s, id, rest, now);
        assert(packets[packets.len() - 1] == packets.last());
    }
}

/// A UDP registration packet is remembered for two minutes, whatever packets of others follow in
/// that time, provided its id is known or there is room for a new one, which a sweep may make.
pub proof fn law_seen_is_recent(
    s: Heard,
    id: Seq<char>,
    t: u128,
    packets: Seq<(Seq<char>, u128)>,
    now: u128,
)
    requires
        s.enters(id, t),
        forall|i: int|
            0 <= i < packets.len() ==> (#[trigger] packets[i]).0 != id && packets[i].1 < t
                + 120_000_000_000,
    ensures
        seen_all(s.seen(id, t), packets).seen_recently(id, now) == (now < t + 120_000_000_000),
{
    law_held_id_stays_seen(s.seen(id, t), id, packets, now);
}

/// An id that no packet named is not taken as seen, whatever packets of others come.
pub proof fn law_others_do_not_make_seen(
    s: Heard,
    id: Seq<char>,
    packets: Seq<(Seq<char>, u128)>,
    now: u128,
)
    requires
        !s.seen_recently(id, now),
        forall|i: int| 0 <= i < packets.len() ==> (#[trigger] packets[i]).0 != id,
    ensures
        !seen_all(s, packets).seen_recently(id, now),
    decreases packets.len(),
{
    if packets.len() > 0 {
        let rest = packets.drop_last();
        assert forall|i: int| 0 <= i < rest.len() implies (#[trigger] rest[i]).0 != id by {
            assert(rest[i] == packets[i]);
        }
        law_others_do_not_make_seen(s, id, rest, now);
        assert(packets[packets.len() - 1] == packets.last());
    }
}

/// Packets enter only the ids that they name, and only valid ones: an id that the table did not
/// hold, and that no packet named or that is not valid, is not held after any packets.
pub proof fn law_only_named_valid_ids_are_held(
    s: Heard,
    id: Seq<char>,
    packets: Seq<(Seq<char>, u128)>,
)
    requires
        !s.ids.contains_key(id),
        !is_valid_id(id) || forall|i: int|
            0 <= i < packets.len() ==> (#[trigger] packets[i]).0 != id,
    ensures
        !seen_all(s, packets).ids.contains_key(id),
    decreases packets.len(),
{
    if packets.len() > 0 {
        let rest = packets.drop_last();
        assert(is_valid_id(id) ==> forall|i: int|
            0 <= i < rest.len() ==> (#[trigger] rest[i]).0 != id) by {
            assert(forall|i: int| 0 <= i < rest.len() ==> rest[i] == #[trigger] packets[i]);
        }
        law_only_named_valid_ids_are_held(s, id, rest);
        assert(packets[packets.len() - 1] == packets.last());
    }
}

/// The table of packets never outgrows its cap.
pub proof fn law_seen_is_bounded(s: Heard, id: Seq<char>, now: u128)
    requires
        s.ids.dom().finite(),
        s.ids.len() <= UDP_SEEN_CAP,
    ensures
        s.seen(id, now).ids.dom().finite(),
        s.seen(id, now).ids.len() <= UDP_SEEN_CAP,
{
    crate::time::lemma_fresh_len(s.ids, now, (UDP_SEEN_SECONDS * SECOND) as u128);
}

/// The table of first heartbeats never outgrows its cap.
pub proof fn law_first_seen_is_bounded(s: Heard, id: Seq<char>, now: u128)
    requires
        s.ids.dom().finite(),
        s.ids.len() <= HB_CAP,
    ensures
        s.beaten(id, now).ids.dom().finite(),
        s.beaten(id, now).ids.len() <= HB_CAP,
{
    crate::time::lemma_fresh_len(s.ids, now, (HB_SECONDS * SECOND) as u128);
}

/// What a heartbeat does to the table of first heartbeats: it is counted at a time, or its id is
/// forgotten because the client is reachable or registered, or the table is left alone.
pub enum HbStep {
    Beat { id: Seq<char>, now: u128 },
    Forget { id: Seq<char> },
    Keep,
}

/// The table after one step.
pub open spec fn stepped(s: Heard, step: HbStep) -> Heard {
    match step {
        HbStep::Beat { id, now } => s.beaten(id, now),
        HbStep::Forget { id } => s.forgotten(id),
        HbStep::Keep => s,
    }
}

/// The table after `steps`, in their order.
pub open spec fn stepped_all(s: Heard, steps: Seq<HbStep>) -> Heard
    decreases steps.len(),
{
    if steps.len() == 0 {
        s
    } else {
        stepped(stepped_all(s, steps.drop_last()), steps.last())
    }
}

/// Whether `step` leaves a first heartbeat of `id` at `start` in the table: it does not forget
/// `id`, and comes before that heartbeat went stale.
pub open spec fn spares(step: HbStep, id: Seq<char>, start: u128) -> bool {
    match step {
        HbStep::Beat { now, .. } => now < start + 600_000_000_000,
        HbStep::Forget { id: other } => other != id,
        HbStep::Keep => true,
    }
}

/// The age of an id counts from its first heartbeat: it is zero there, and until ten minutes have
/// passed it is the time since then, whatever heartbeats of this id and of others come between,
/// counted, forgotten or left alone, as long as this id is not forgotten.
pub proof fn law_age_counts_from_the_first_heartbeat(
    s: Heard,
    id: Seq<char>,
    start: u128,
    steps: Seq<HbStep>,
    now: u128,
)
    requires
        !s.remembers(id, start),
        s.ids.contains_key(id) || s.made_room(id, start).ids.len() < HB_CAP,
        forall|i: int| 0 <= i < steps.len() ==> spares(#[trigger] steps[i], id, start),
        now < start + 600_000_000_000,
    ensures
        s.age(id, start) == 0,
        start <= now ==> start + stepped_all(s.beaten(id, start), steps).age(id, now) == now,
        now <= start ==> stepped_all(s.beaten(id, start), steps).age(id, now) == 0,
{
    lemma_first_heartbeat_stays(s.beaten(id, start), id, steps);
}

/// A remembered first heartbeat stays through steps that spare it.
proof fn lemma_first_heartbeat_stays(s: Heard, id: Seq<char>, steps: Seq<HbStep>)
    requires
        s.ids.contains_key(id),
        forall|i: int| 0 <= i < steps.len() ==> spares(#[trigger] steps[i], id, s.ids[id]),
    ensures
        stepped_all(s, steps).ids.contains_key(id),
        stepped_all(s, steps).ids[id] == s.ids[id],
    decreases steps.len(),
{
    if steps.len() > 0 {
        let rest = steps.drop_last();
        assert forall|i: int| 0 <= i < rest.len() implies spares(
            #[trigger] rest[i],
            id,
            s.ids[id],
        ) by {
            assert(rest[i] == steps[i]);
        }
        lemma_first_heartbeat_stays(s, id, rest);
        assert(steps[steps.len() - 1] == steps.last());
    }
}

/// An id that is not in the table has no age until a heartbeat of its own is counted, whatever
/// heartbeats of others come.
pub proof fn law_no_age_without_a_heartbeat(s: Heard, id: Seq<char>, steps: Seq<HbStep>, now: u128)
    requires
        !s.ids.contains_key(id),
        forall|i: int|
            0 <= i < steps.len() ==> !((#[trigger] steps[i]) is Beat && steps[i]->Beat_id == id),
    ensures
        !stepped_all(s, steps).ids.contains_key(id),
        stepped_all(s, steps).age(id, now) == 0,
    decreases steps.len(),
{
    if steps.len() > 0 {
        let rest = steps.drop_last();
        assert forall|i: int| 0 <= i < rest.len() implies !((#[trigger] rest[i]) is Beat
            && rest[i]->Beat_id == id) by {
            assert(rest[i] == steps[i]);
        }
        law_no_age_without_a_heartbeat(s, id, rest, now);
        assert(steps[steps.len() - 1] == steps.last());
    }
}

/// After ten minutes the count starts again from the heartbeat that finds the old one stale.
pub proof fn law_age_starts_again(s: Heard, id: Seq<char>, now: u128)
    requires
        s.ids.contains_key(id),
        now >= s.ids[id] + 600_000_000_000,
    ensures
        s.age(id, now) == 0,
        s.beaten(id, now).ids.contains_key(id),
        s.beaten(id, now).ids[id] == now,
{
}

/// A full table that was swept lately neither enters a new id nor counts for it.
pub proof fn law_full_table_counts_no_new_id(s: Heard, id: Seq<char>, now: u128)
    requires
        s.ids.len() >= 100_000,
        !s.ids.contains_key(id),
        now < s.last_sweep + 60_000_000_000,
    ensures
        s.age(id, now) == 0,
        s.beaten(id, now) == s,
{
}

/// An id is valid exactly where it is 1 to 64 bytes long in UTF-8.
pub proof fn law_which_ids_are_valid(id: Seq<char>)
    ensures
        is_valid_id(id) <==> 1 <= encode_utf8(id).len() <= 64,
{
}

/// A packet of an id of 1 to 64 bytes is entered with its time where the id is known or the table
/// holds fewer than two hundred thousand, and nothing else changes. A packet of any other id
/// changes nothing.
pub proof fn law_packet_is_entered(s: Heard, id: Seq<char>, t: u128)
    ensures
        1 <= encode_utf8(id).len() <= 64 && (s.ids.contains_key(id) || s.ids.len() < 200_000)
            ==> s.seen(id, t).ids == s.ids.insert(id, t) && s.seen(id, t).last_sweep
            == s.last_sweep,
        !(1 <= encode_utf8(id).len() <= 64) ==> s.seen(id, t) == s,
{
}

/// A packet of a new id at a full table: where the last sweep is less than two minutes ago, nothing
/// changes; otherwise the ids last seen two minutes ago are dropped, the others stay, and the new
/// one is entered exactly where one was dropped.
pub proof fn law_packet_at_a_full_table(s: Heard, id: Seq<char>, t: u128, other: Seq<char>)
    requires
        1 <= encode_utf8(id).len() <= 64,
        s.ids.dom().finite(),
        s.ids.len() == 200_000,
        !s.ids.contains_key(id),
        other != id,
    ensures
        t < s.last_sweep + 120_000_000_000 ==> s.seen(id, t) == s,
        t >= s.last_sweep + 120_000_000_000 ==> {
            let end = s.seen(id, t);
            &&& end.last_sweep == t
            &&& end.ids.contains_key(other) <==> s.ids.contains_key(other) && t < s.ids[other]
                + 120_000_000_000
            &&& end.ids.contains_key(other) ==> end.ids[other] == s.ids[other]
            &&& end.ids.contains_key(id) <==> exists|k: Seq<char>| #[trigger]
                s.ids.contains_key(k) && t >= s.ids[k] + 120_000_000_000
            &&& end.ids.contains_key(id) ==> end.ids[id] == t
        },
{
    let f = crate::time::fresh(s.ids, t, 120_000_000_000);
    if exists|k: Seq<char>| #[trigger] s.ids.contains_key(k) && t >= s.ids[k] + 120_000_000_000 {
        let k = choose|k: Seq<char>| #[trigger]
            s.ids.contains_key(k) && t >= s.ids[k] + 120_000_000_000;
        crate::time::lemma_fresh_shrinks(s.ids, t, 120_000_000_000, k);
    } else {
        assert(f =~= s.ids);
    }
}

/// An id counts as seen exactly where the table holds it with a time less than two minutes ago.
pub proof fn law_what_counts_as_seen(s: Heard, id: Seq<char>, now: u128)
    ensures
        s.seen_recently(id, now) <==> s.ids.contains_key(id) && now < s.ids[id] + 120_000_000_000,
{
}

/// Forgetting takes out one id and nothing else.
pub proof fn law_what_forgetting_does(s: Heard, id: Seq<char>)
    ensures
        s.forgotten(id).ids == s.ids.remove(id),
        s.forgotten(id).last_sweep == s.last_sweep,
{
}

/// The age of an id is the time since its first heartbeat where that is in the table and less than
/// ten minutes ago, and otherwise zero.
pub proof fn law_what_the_age_is(s: Heard, id: Seq<char>, now: u128)
    ensures
        s.ids.contains_key(id) && s.ids[id] <= now < s.ids[id] + 600_000_000_000 ==> s.ids[id]
            + s.age(id, now) == now,
        !(s.ids.contains_key(id) && s.ids[id] <= now < s.ids[id] + 600_000_000_000) ==> s.age(
            id,
            now,
        ) == 0,
        s.remembers(id, now) <==> s.ids.contains_key(id) && now < s.ids[id] + 600_000_000_000,
{
}

/// A heartbeat of a known id leaves everything where the first one is less than ten minutes ago,
/// and otherwise becomes the first. One of a new id becomes its first where the table holds fewer
/// than a hundred thousand, and nothing else changes.
pub proof fn law_heartbeat_is_entered(s: Heard, id: Seq<char>, now: u128)
    ensures
        s.ids.contains_key(id) && now < s.ids[id] + 600_000_000_000 ==> s.beaten(id, now) == s,
        s.ids.contains_key(id) && now >= s.ids[id] + 600_000_000_000 || !s.ids.contains_key(id)
            && s.ids.len() < 100_000 ==> s.beaten(id, now).ids == s.ids.insert(id, now)
            && s.beaten(id, now).last_sweep == s.last_sweep,
{
}

/// A heartbeat of a new id at a full table: where the last sweep is less than a minute ago, nothing
/// changes; otherwise the first heartbeats of ten minutes ago are dropped, the others stay, and the
/// new one is entered exactly where one was dropped.
pub proof fn law_heartbeat_at_a_full_table(s: Heard, id: Seq<char>, now: u128, other: Seq<char>)
    requires
        s.ids.dom().finite(),
        s.ids.len() == 100_000,
        !s.ids.contains_key(id),
        other != id,
    ensures
        now < s.last_sweep + 60_000_000_000 ==> s.beaten(id, now) == s,
        now >= s.last_sweep + 60_000_000_000 ==> {
            let end = s.beaten(id, now);
            &&& end.last_sweep == now
            &&& end.ids.contains_key(other) <==> s.ids.contains_key(other) && now < s.ids[other]
                + 600_000_000_000
            &&& end.ids.contains_key(other) ==> end.ids[other] == s.ids[other]
            &&& end.ids.contains_key(id) <==> exists|k: Seq<char>| #[trigger]
                s.ids.contains_key(k) && now >= s.ids[k] + 600_000_000_000
            &&& end.ids.contains_key(id) ==> end.ids[id] == now
        },
{
    let f = crate::time::fresh(s.ids, now, 600_000_000_000);
    if exists|k: Seq<char>| #[trigger] s.ids.contains_key(k) && now >= s.ids[k] + 600_000_000_000 {
        let k = choose|k: Seq<char>| #[trigger]
            s.ids.contains_key(k) && now >= s.ids[k] + 600_000_000_000;
        crate::time::lemma_fresh_shrinks(s.ids, now, 600_000_000_000, k);
    } else {
        assert(f =~= s.ids);
    }
}

} // verus!
