//! Pending UDP punches: the only hole-sent packets over UDP that are acted on.

use crate::addr::{ip_into_v4, try_into_v4, Endpoint, Ip};
use crate::stats::{inc, Counters, Stat};
use crate::table::Table;
use crate::time::{elapsed, Clock, Stamped, SECOND};
use vstd::prelude::*;
use vstd::string::*;

verus! {

/// The controller waits 3 + 6 + 9 s at most for the answer.
pub const PENDING_SECONDS: u128 = 20;

/// The most punches that may be pending.
pub const PENDING_CAP: usize = 10_000;

/// How long a punch stays pending.
pub open spec fn pending_ttl() -> u128 {
    (PENDING_SECONDS * SECOND) as u128
}

struct PendingUdpPunch {
    to_id: String,
    b_ip: Ip,
    tm: u128,
    consumed: bool,
}

/// A punch that a controller asked for: to which peer, at which IP, when, and whether the peer's
/// answer was already accepted.
pub struct Punch {
    pub to_id: Seq<char>,
    pub b_ip: Ip,
    pub tm: u128,
    pub consumed: bool,
}

impl View for PendingUdpPunch {
    type V = Punch;

    closed spec fn view(&self) -> Punch {
        Punch { to_id: self.to_id@, b_ip: self.b_ip, tm: self.tm, consumed: self.consumed }
    }
}

impl Stamped for PendingUdpPunch {
    closed spec fn stamp(&self) -> u128 {
        self.tm
    }

    fn moment(&self) -> (r: u128) {
        self.tm
    }
}

/// The punches of `m` that have not expired at `now`.
pub open spec fn live(m: Map<Endpoint, Punch>, now: u128) -> Map<Endpoint, Punch> {
    Map::new(
        |a: Endpoint| m.contains_key(a) && crate::time::is_fresh(now, m[a].tm, pending_ttl()),
        |a: Endpoint| m[a],
    )
}

/// Whether there is room for another punch at `now`, once the expired ones are gone.
pub open spec fn has_room(m: Map<Endpoint, Punch>, now: u128) -> bool {
    live(m, now).len() < PENDING_CAP
}

/// The punches after controller `a` asked for one to `to_id` at `b_ip`. A full table refuses it;
/// a new punch of the same controller takes the place of the one before.
pub open spec fn inserted(
    m: Map<Endpoint, Punch>,
    a: Endpoint,
    to_id: Seq<char>,
    b_ip: Ip,
    now: u128,
) -> Map<Endpoint, Punch> {
    if has_room(m, now) {
        live(m, now).insert(
            crate::addr::canonical(a),
            Punch { to_id, b_ip: crate::addr::canonical_ip(b_ip), tm: now, consumed: false },
        )
    } else {
        live(m, now)
    }
}

/// Whether a packet that names peer `id` and comes from `b_src` is the answer to `p`.
pub open spec fn answers(p: Punch, id: Seq<char>, b_src: Endpoint) -> bool {
    p.to_id == id && p.b_ip == crate::addr::canonical(b_src).ip()
}

/// What a hole-sent packet for controller `a` is answered.
pub open spec fn verdict(
    m: Map<Endpoint, Punch>,
    a: Endpoint,
    id: Seq<char>,
    b_src: Endpoint,
    now: u128,
) -> Result<(), Stat> {
    let key = crate::addr::canonical(a);
    if !m.contains_key(key) || !crate::time::is_fresh(now, m[key].tm, pending_ttl()) {
        Err(Stat::HoleSentUdpNoPending)
    } else if !answers(m[key], id, b_src) {
        Err(Stat::HoleSentUdpMismatch)
    } else if m[key].consumed {
        Err(Stat::HoleSentUdpDuplicate)
    } else {
        Ok(())
    }
}

/// The punches after that packet: an expired punch is gone, an accepted one is consumed, and
/// nothing else changes.
pub open spec fn taken(
    m: Map<Endpoint, Punch>,
    a: Endpoint,
    id: Seq<char>,
    b_src: Endpoint,
    now: u128,
) -> Map<Endpoint, Punch> {
    let key = crate::addr::canonical(a);
    match verdict(m, a, id, b_src, now) {
        Ok(_) => m.insert(key, Punch { consumed: true, ..m[key] }),
        Err(Stat::HoleSentUdpNoPending) => m.remove(key),
        Err(_) => m,
    }
}

/// The punches that controllers asked for and that have not expired, each under the controller's
/// address.
pub struct PendingTable {
    map: Table<Endpoint, PendingUdpPunch>,
    clock: Clock,
}

impl View for PendingTable {
    type V = Map<Endpoint, Punch>;

    closed spec fn view(&self) -> Map<Endpoint, Punch> {
        self.map@.map_values(|p: PendingUdpPunch| p@)
    }
}

impl PendingTable {
    /// The table is sound and within its cap.
    pub closed spec fn wf(&self) -> bool {
        self.map.wf() && self.map@.dom().finite() && self.map@.len() <= PENDING_CAP
    }

    /// The clock that the times of this table are read from.
    pub closed spec fn clock(&self) -> Clock {
        self.clock
    }

    /// No punch is pending.
    pub fn new() -> (r: Self)
        ensures
            r.wf(),
            r@ == Map::<Endpoint, Punch>::empty(),
    {
        let r = PendingTable { map: Table::new(), clock: Clock::start() };
        assert(r@ =~= Map::<Endpoint, Punch>::empty());
        r
    }

    /// How many punches the table holds.
    pub fn len(&self) -> (r: usize)
        requires
            self.wf(),
        ensures
            r == self@.len(),
            r <= PENDING_CAP,
    {
        assert(self@.dom() =~= self.map@.dom());
        self.map.len()
    }

    /// A reading of the table's own clock. Which time it shows is left open.
    pub fn now(&self) -> (r: u128)
        ensures
            self.clock().shows(r),
    {
        self.clock.read()
    }
}

/// `pending_insert` at a given time.
pub fn pending_insert_at(
    pending: &mut PendingTable,
    counters: &mut Counters,
    a: Endpoint,
    to_id: &str,
    b_ip: Ip,
    now: u128,
) -> (r: bool)
    requires
        old(pending).wf(),
    ensures
        final(pending).wf(),
        final(pending).clock() == old(pending).clock(),
        r == has_room(old(pending)@, now),
        final(pending)@ == inserted(old(pending)@, a, to_id@, b_ip, now),
        final(counters)@ == if r {
            old(counters)@
        } else {
            crate::stats::counted(old(counters)@, Stat::PendingFull)
        },
{
    proof {
        crate::time::lemma_fresh_len(pending.map@, now, pending_ttl());
    }
    pending.map.sweep(now, PENDING_SECONDS * SECOND);
    assert(pending@ =~= live(old(pending)@, now));
    assert(pending@.dom() =~= pending.map@.dom());
    if pending.map.len() >= PENDING_CAP {
        inc(counters, Stat::PendingFull);
        return false;
    }
    let punch = PendingUdpPunch {
        to_id: to_id.to_owned(),
        b_ip: ip_into_v4(b_ip),
        tm: now,
        consumed: false,
    };
    pending.map.insert(try_into_v4(a), punch);
    assert(pending@ =~= inserted(old(pending)@, a, to_id@, b_ip, now));
    true
}

/// Records that controller `a` (its TCP address) asked for a UDP punch to peer `to_id`, whose
/// registered IP is `b_ip`. False when the table is full: the caller then drops the UDP port.
pub fn pending_insert(
    pending: &mut PendingTable,
    counters: &mut Counters,
    a: Endpoint,
    to_id: &str,
    b_ip: Ip,
) -> (r: bool)
    requires
        old(pending).wf(),
    ensures
        final(pending).wf(),
        final(pending).clock() == old(pending).clock(),
        exists|now: u128|
            old(pending).clock().shows(now) && r == has_room(old(pending)@, now) && final(pending)@ == #[trigger] inserted(
                old(pending)@,
                a,
                to_id@,
                b_ip,
                now,
            ),
        final(counters)@ == if r {
            old(counters)@
        } else {
            crate::stats::counted(old(counters)@, Stat::PendingFull)
        },
{
    let now = pending.now();
    pending_insert_at(pending, counters, a, to_id, b_ip, now)
}

/// `pending_take` at a given time.
pub fn pending_take_at(
    pending: &mut PendingTable,
    a: Endpoint,
    id: &str,
    b_src: Endpoint,
    now: u128,
) -> (r: Result<(), Stat>)
    requires
        old(pending).wf(),
    ensures
        final(pending).wf(),
        final(pending).clock() == old(pending).clock(),
        r == verdict(old(pending)@, a, id@, b_src, now),
        final(pending)@ == taken(old(pending)@, a, id@, b_src, now),
{
    let key = try_into_v4(a);
    let expired = match pending.map.get(&key) {
        Some(p) => elapsed(now, p.tm) >= PENDING_SECONDS * SECOND,
        None => {
            assert(pending@ =~= taken(old(pending)@, a, id@, b_src, now));
            return Err(Stat::HoleSentUdpNoPending);
        },
    };
    if expired {
        pending.map.remove(&key);
        assert(pending@ =~= taken(old(pending)@, a, id@, b_src, now));
        return Err(Stat::HoleSentUdpNoPending);
    }
    let (matches, consumed) = match pending.map.get(&key) {
        Some(p) => (
            p.to_id == id.to_owned() && p.b_ip == try_into_v4(b_src).ip(),
            p.consumed,
        ),
        None => (false, false),
    };
    if !matches {
        return Err(Stat::HoleSentUdpMismatch);
    }
    if consumed {
        return Err(Stat::HoleSentUdpDuplicate);
    }
    if let Some(p) = pending.map.remove(&key) {
        let PendingUdpPunch { to_id, b_ip, tm, .. } = p;
        pending.map.insert(key, PendingUdpPunch { to_id, b_ip, tm, consumed: true });
    }
    assert(pending@ =~= taken(old(pending)@, a, id@, b_src, now));
    Ok(())
}

/// Consumes the pending punch that a hole-sent packet over UDP from `b_src` answers.
/// A packet that does not match (wrong peer id or source IP) leaves the entry in place, so a
/// forged packet cannot cancel the real punch. The peer sends three copies; the entry stays as
/// consumed until it expires, so the other two count as duplicates, not as unknown.
pub fn pending_take(
    pending: &mut PendingTable,
    a: Endpoint,
    id: &str,
    b_src: Endpoint,
) -> (r: Result<(), Stat>)
    requires
        old(pending).wf(),
    ensures
        final(pending).wf(),
        final(pending).clock() == old(pending).clock(),
        exists|now: u128|
            old(pending).clock().shows(now) && r == verdict(old(pending)@, a, id@, b_src, now) && final(pending)@ == #[trigger] taken(
                old(pending)@,
                a,
                id@,
                b_src,
                now,
            ),
{
    let now = pending.now();
    pending_take_at(pending, a, id, b_src, now)
}

/// A controller may write its address in either form: `a` and `b` are answered alike where their
/// one form is the same.
pub proof fn law_forms_of_an_address_are_one(
    m: Map<Endpoint, Punch>,
    a: Endpoint,
    b: Endpoint,
    id: Seq<char>,
    b_src: Endpoint,
    now: u128,
)
    requires
        crate::addr::canonical(a) == crate::addr::canonical(b),
    ensures
        verdict(m, a, id, b_src, now) == verdict(m, b, id, b_src, now),
        taken(m, a, id, b_src, now) == taken(m, b, id, b_src, now),
{
}

/// A packet is accepted only where a punch of that controller is pending, to the peer that the
/// packet names and at the IP that it comes from, not yet answered, and within its time.
pub proof fn law_accepts_only_a_pending_punch(
    m: Map<Endpoint, Punch>,
    a: Endpoint,
    id: Seq<char>,
    b_src: Endpoint,
    now: u128,
)
    ensures
        verdict(m, a, id, b_src, now) is Ok <==> {
            let key = crate::addr::canonical(a);
            &&& m.contains_key(key)
            &&& now < m[key].tm + 20_000_000_000
            &&& m[key].to_id == id
            &&& m[key].b_ip == crate::addr::canonical_ip(b_src.ip())
            &&& !m[key].consumed
        },
{
}

/// What changes the table: a controller asks for a punch, or a hole-sent packet comes, each at a
/// time.
pub enum PendingStep {
    Insert { a: Endpoint, to_id: Seq<char>, b_ip: Ip, now: u128 },
    Packet { a: Endpoint, id: Seq<char>, b_src: Endpoint, now: u128 },
}

impl PendingStep {
    /// When the step comes.
    pub open spec fn time(self) -> u128 {
        match self {
            PendingStep::Insert { now, .. } => now,
            PendingStep::Packet { now, .. } => now,
        }
    }

    /// Whether the controller whose one form is `key` asks for a new punch.
    pub open spec fn asks_anew(self, key: Endpoint) -> bool {
        self matches PendingStep::Insert { a, .. } && crate::addr::canonical(a) == key
    }

    /// Whether the step is a packet for the controller whose one form is `key` that answers `p`.
    pub open spec fn is_answer(self, key: Endpoint, p: Punch) -> bool {
        self matches PendingStep::Packet { a, id, b_src, .. } && crate::addr::canonical(a) == key
            && answers(p, id, b_src)
    }
}

/// The punches after one step.
pub open spec fn stepped(m: Map<Endpoint, Punch>, step: PendingStep) -> Map<Endpoint, Punch> {
    match step {
        PendingStep::Insert { a, to_id, b_ip, now } => inserted(m, a, to_id, b_ip, now),
        PendingStep::Packet { a, id, b_src, now } => taken(m, a, id, b_src, now),
    }
}

/// The punches after `steps`, in their order.
pub open spec fn stepped_all(m: Map<Endpoint, Punch>, steps: Seq<PendingStep>) -> Map<
    Endpoint,
    Punch,
>
    decreases steps.len(),
{
    if steps.len() == 0 {
        m
    } else {
        stepped(stepped_all(m, steps.drop_last()), steps.last())
    }
}

/// Whether an answer to `p`, the punch of the controller whose one form is `key`, is among `steps`.
pub open spec fn has_answer(steps: Seq<PendingStep>, key: Endpoint, p: Punch) -> bool {
    exists|i: int| 0 <= i < steps.len() && (#[trigger] steps[i]).is_answer(key, p)
}

/// How many packets among `steps` for the controller whose one form is `key` are accepted.
pub open spec fn accepted(m: Map<Endpoint, Punch>, steps: Seq<PendingStep>, key: Endpoint) -> nat
    decreases steps.len(),
{
    if steps.len() == 0 {
        0
    } else {
        let rest = steps.drop_last();
        accepted(m, rest, key) + match steps.last() {
            PendingStep::Packet { a, id, b_src, now } => if crate::addr::canonical(a) == key
                && verdict(stepped_all(m, rest), a, id, b_src, now) is Ok {
                1nat
            } else {
                0
            },
            _ => 0,
        }
    }
}

/// A punch that another controller asks for leaves a live punch as it is, whether there is room
/// for the new one or not.
pub proof fn law_inserts_keep_live_punches(
    m: Map<Endpoint, Punch>,
    key: Endpoint,
    a: Endpoint,
    to_id: Seq<char>,
    b_ip: Ip,
    now: u128,
)
    requires
        m.contains_key(key),
        crate::time::is_fresh(now, m[key].tm, pending_ttl()),
        crate::addr::canonical(a) != key,
    ensures
        inserted(m, a, to_id, b_ip, now).contains_key(key),
        inserted(m, a, to_id, b_ip, now)[key] == m[key],
{
}

/// A punch is answered at most once, whatever packets come and whatever other controllers ask for:
/// none is accepted where none is pending or the one pending was answered already.
pub proof fn law_a_punch_is_answered_once(
    m: Map<Endpoint, Punch>,
    steps: Seq<PendingStep>,
    key: Endpoint,
)
    requires
        forall|i: int| 0 <= i < steps.len() ==> !(#[trigger] steps[i]).asks_anew(key),
    ensures
        accepted(m, steps, key) <= 1,
        !m.contains_key(key) || m[key].consumed ==> accepted(m, steps, key) == 0,
        accepted(m, steps, key) == 1 || !m.contains_key(key) || m[key].consumed ==> {
            let end = stepped_all(m, steps);
            !end.contains_key(key) || end[key].consumed
        },
    decreases steps.len(),
{
    if steps.len() > 0 {
        let rest = steps.drop_last();
        assert forall|i: int| 0 <= i < rest.len() implies !(#[trigger] rest[i]).asks_anew(key) by {
            assert(rest[i] == steps[i]);
        }
        law_a_punch_is_answered_once(m, rest, key);
        assert(steps[steps.len() - 1] == steps.last());
    }
}

/// A punch keeps the time that it was recorded at for as long as it is in the table and its
/// controller asks for no new one.
proof fn lemma_punch_keeps_its_time(
    m: Map<Endpoint, Punch>,
    steps: Seq<PendingStep>,
    key: Endpoint,
)
    requires
        m.contains_key(key),
        forall|i: int| 0 <= i < steps.len() ==> !(#[trigger] steps[i]).asks_anew(key),
    ensures
        stepped_all(m, steps).contains_key(key) ==> stepped_all(m, steps)[key].tm == m[key].tm,
    decreases steps.len(),
{
    if steps.len() > 0 {
        let rest = steps.drop_last();
        assert forall|i: int| 0 <= i < rest.len() implies !(#[trigger] rest[i]).asks_anew(key) by {
            assert(rest[i] == steps[i]);
        }
        lemma_punch_keeps_its_time(m, rest, key);
        assert(steps[steps.len() - 1] == steps.last());
    }
}

/// Until it expires, a punch stays as it was recorded, but for being consumed by its answer.
proof fn lemma_live_punch_stays(
    m: Map<Endpoint, Punch>,
    steps: Seq<PendingStep>,
    key: Endpoint,
    now: u128,
)
    requires
        m.contains_key(key),
        crate::time::is_fresh(now, m[key].tm, pending_ttl()),
        forall|i: int|
            0 <= i < steps.len() ==> !(#[trigger] steps[i]).asks_anew(key) && steps[i].time() <= now,
    ensures
        stepped_all(m, steps).contains_key(key),
        stepped_all(m, steps)[key] == (Punch {
            consumed: m[key].consumed || has_answer(steps, key, m[key]),
            ..m[key]
        }),
    decreases steps.len(),
{
    if steps.len() > 0 {
        let rest = steps.drop_last();
        let last = steps.last();
        assert forall|i: int| 0 <= i < rest.len() implies !(#[trigger] rest[i]).asks_anew(key)
            && rest[i].time() <= now by {
            assert(rest[i] == steps[i]);
        }
        lemma_live_punch_stays(m, rest, key, now);
        assert(steps[steps.len() - 1] == last);
        let p = m[key];
        assert(has_answer(steps, key, p) == (has_answer(rest, key, p) || last.is_answer(key, p)))
            by {
            if has_answer(rest, key, p) {
                let i = choose|i: int| 0 <= i < rest.len() && (#[trigger] rest[i]).is_answer(key, p);
                assert(steps[i] == rest[i]);
            }
            if has_answer(steps, key, p) {
                let i = choose|i: int|
                    0 <= i < steps.len() && (#[trigger] steps[i]).is_answer(key, p);
                if i < rest.len() {
                    assert(rest[i] == steps[i]);
                }
            }
        }
        assert(crate::time::is_fresh(last.time(), p.tm, pending_ttl()));
    }
}

/// The fate of a pending punch. Whatever packets come for any controller, and whatever other
/// controllers ask for, a packet that comes after them is answered: no pending punch, once the
/// punch expired; a mismatch, where it names another peer or comes from another IP; otherwise a
/// duplicate, where the punch was answered before, and success where it was not.
pub proof fn law_fate_of_a_punch(
    m: Map<Endpoint, Punch>,
    steps: Seq<PendingStep>,
    a: Endpoint,
    id: Seq<char>,
    b_src: Endpoint,
    now: u128,
)
    requires
        m.contains_key(crate::addr::canonical(a)),
        forall|i: int|
            0 <= i < steps.len() ==> !(#[trigger] steps[i]).asks_anew(crate::addr::canonical(a))
                && steps[i].time() <= now,
    ensures
        verdict(stepped_all(m, steps), a, id, b_src, now) == {
            let key = crate::addr::canonical(a);
            if now >= m[key].tm + 20_000_000_000 {
                Err::<(), Stat>(Stat::HoleSentUdpNoPending)
            } else if m[key].to_id != id || m[key].b_ip != crate::addr::canonical_ip(b_src.ip()) {
                Err(Stat::HoleSentUdpMismatch)
            } else if m[key].consumed || has_answer(steps, key, m[key]) {
                Err(Stat::HoleSentUdpDuplicate)
            } else {
                Ok(())
            }
        },
{
    let key = crate::addr::canonical(a);
    lemma_punch_keeps_its_time(m, steps, key);
    if crate::time::is_fresh(now, m[key].tm, pending_ttl()) {
        lemma_live_punch_stays(m, steps, key, now);
    }
}

/// A punch that was recorded at `start` is answered by the first packet that names its peer and
/// comes from the peer's IP, from any port; later ones are duplicates, and once the punch expired
/// they find nothing pending. Packets for any controller, forged ones among them, and punches that
/// other controllers ask for in between change nothing of that.
pub proof fn law_recorded_punch_is_answered(
    m: Map<Endpoint, Punch>,
    a: Endpoint,
    to_id: Seq<char>,
    b_ip: Ip,
    start: u128,
    steps: Seq<PendingStep>,
    b_src: Endpoint,
    now: u128,
)
    requires
        has_room(m, start),
        crate::addr::canonical_ip(b_src.ip()) == crate::addr::canonical_ip(b_ip),
        forall|i: int|
            0 <= i < steps.len() ==> !(#[trigger] steps[i]).asks_anew(crate::addr::canonical(a))
                && steps[i].time() <= now,
    ensures
        verdict(stepped_all(inserted(m, a, to_id, b_ip, start), steps), a, to_id, b_src, now) == {
            let key = crate::addr::canonical(a);
            let p = inserted(m, a, to_id, b_ip, start)[key];
            if now >= start + 20_000_000_000 {
                Err::<(), Stat>(Stat::HoleSentUdpNoPending)
            } else if has_answer(steps, key, p) {
                Err(Stat::HoleSentUdpDuplicate)
            } else {
                Ok(())
            }
        },
{
    law_fate_of_a_punch(inserted(m, a, to_id, b_ip, start), steps, a, to_id, b_src, now);
}

/// Forged packets cannot cancel a punch, nor can punches that other controllers ask for: where no
/// step answers the punch, the real answer gets the verdict that it would have got without them.
pub proof fn law_forged_packets_cancel_nothing(
    m: Map<Endpoint, Punch>,
    steps: Seq<PendingStep>,
    a: Endpoint,
    id: Seq<char>,
    b_src: Endpoint,
    now: u128,
)
    requires
        m.contains_key(crate::addr::canonical(a)),
        forall|i: int|
            0 <= i < steps.len() ==> !(#[trigger] steps[i]).asks_anew(crate::addr::canonical(a))
                && steps[i].time() <= now,
        !has_answer(steps, crate::addr::canonical(a), m[crate::addr::canonical(a)]),
    ensures
        verdict(stepped_all(m, steps), a, id, b_src, now) == verdict(m, a, id, b_src, now),
        crate::time::is_fresh(now, m[crate::addr::canonical(a)].tm, pending_ttl()) ==> {
            let end = stepped_all(m, steps);
            end.contains_key(crate::addr::canonical(a)) && end[crate::addr::canonical(a)]
                == m[crate::addr::canonical(a)]
        },
{
    law_fate_of_a_punch(m, steps, a, id, b_src, now);
    if crate::time::is_fresh(now, m[crate::addr::canonical(a)].tm, pending_ttl()) {
        lemma_live_punch_stays(m, steps, crate::addr::canonical(a), now);
    }
}

/// Once answered, a punch takes every further copy of the answer as a duplicate until it expires,
/// and after that as unknown, whatever comes between.
pub proof fn law_copies_are_duplicates(
    m: Map<Endpoint, Punch>,
    a: Endpoint,
    id: Seq<char>,
    b_src: Endpoint,
    first: u128,
    steps: Seq<PendingStep>,
    b_copy: Endpoint,
    now: u128,
)
    requires
        verdict(m, a, id, b_src, first) is Ok,
        crate::addr::canonical(b_copy).ip() == crate::addr::canonical(b_src).ip(),
        forall|i: int|
            0 <= i < steps.len() ==> !(#[trigger] steps[i]).asks_anew(crate::addr::canonical(a))
                && steps[i].time() <= now,
    ensures
        verdict(stepped_all(taken(m, a, id, b_src, first), steps), a, id, b_copy, now) == Err::<
            (),
            Stat,
        >(
            if now < m[crate::addr::canonical(a)].tm + 20_000_000_000 {
                Stat::HoleSentUdpDuplicate
            } else {
                Stat::HoleSentUdpNoPending
            },
        ),
{
    law_fate_of_a_punch(taken(m, a, id, b_src, first), steps, a, id, b_copy, now);
}

/// A packet for one controller leaves the punches of all others as they are.
pub proof fn law_packets_touch_one_controller(
    m: Map<Endpoint, Punch>,
    a: Endpoint,
    id: Seq<char>,
    b_src: Endpoint,
    now: u128,
    other: Endpoint,
)
    requires
        other != crate::addr::canonical(a),
    ensures
        taken(m, a, id, b_src, now).contains_key(other) == m.contains_key(other),
        m.contains_key(other) ==> taken(m, a, id, b_src, now)[other] == m[other],
{
}

/// The table never holds more than its cap.
pub proof fn law_pending_is_bounded(
    m: Map<Endpoint, Punch>,
    a: Endpoint,
    to_id: Seq<char>,
    b_ip: Ip,
    now: u128,
)
    requires
        m.dom().finite(),
        m.len() <= PENDING_CAP,
    ensures
        inserted(m, a, to_id, b_ip, now).dom().finite(),
        inserted(m, a, to_id, b_ip, now).len() <= PENDING_CAP,
{
    assert(live(m, now).dom().subset_of(m.dom()));
    vstd::set_lib::lemma_len_subset(live(m, now).dom(), m.dom());
}

/// Why a packet is refused: nothing is pending for the controller, or it is twenty seconds since
/// the punch was asked for; the punch is to another peer or at another IP; or it was answered.
pub proof fn law_why_a_packet_is_refused(
    m: Map<Endpoint, Punch>,
    a: Endpoint,
    id: Seq<char>,
    b_src: Endpoint,
    now: u128,
)
    ensures
        ({
            let key = crate::addr::canonical(a);
            let pending = m.contains_key(key) && now < m[key].tm + 20_000_000_000;
            let same = m[key].to_id == id && m[key].b_ip == crate::addr::canonical_ip(b_src.ip());
            let v = verdict(m, a, id, b_src, now);
            &&& v == Err::<(), Stat>(Stat::HoleSentUdpNoPending) <==> !pending
            &&& v == Err::<(), Stat>(Stat::HoleSentUdpMismatch) <==> pending && !same
            &&& v == Err::<(), Stat>(Stat::HoleSentUdpDuplicate) <==> pending && same
                && m[key].consumed
        }),
{
}

/// What a packet leaves of the punch of its controller: it is consumed where the packet is
/// accepted, and otherwise as it was; it is gone where twenty seconds have passed.
pub proof fn law_what_a_packet_leaves(
    m: Map<Endpoint, Punch>,
    a: Endpoint,
    id: Seq<char>,
    b_src: Endpoint,
    now: u128,
)
    ensures
        ({
            let key = crate::addr::canonical(a);
            let end = taken(m, a, id, b_src, now);
            &&& end.contains_key(key) <==> m.contains_key(key) && now < m[key].tm + 20_000_000_000
            &&& end.contains_key(key) ==> {
                &&& end[key].to_id == m[key].to_id
                &&& end[key].b_ip == m[key].b_ip
                &&& end[key].tm == m[key].tm
                &&& end[key].consumed <==> m[key].consumed || m[key].to_id == id && m[key].b_ip
                    == crate::addr::canonical_ip(b_src.ip())
            }
        }),
{
}

/// A punch is recorded exactly where fewer than ten thousand are younger than twenty seconds: then
/// the controller's address, in its one form, has it, with the peer, the peer's IP in its one form,
/// the time, and not consumed.
pub proof fn law_which_punches_are_recorded(
    m: Map<Endpoint, Punch>,
    a: Endpoint,
    to_id: Seq<char>,
    b_ip: Ip,
    now: u128,
)
    ensures
        has_room(m, now) <==> m.dom().filter(
            |c: Endpoint| now < m[c].tm + 20_000_000_000,
        ).len() < 10_000,
        has_room(m, now) ==> {
            let end = inserted(m, a, to_id, b_ip, now);
            &&& end.contains_key(crate::addr::canonical(a))
            &&& end[crate::addr::canonical(a)].to_id == to_id
            &&& end[crate::addr::canonical(a)].b_ip == crate::addr::canonical_ip(b_ip)
            &&& end[crate::addr::canonical(a)].tm == now
            &&& !end[crate::addr::canonical(a)].consumed
        },
{
    assert(live(m, now).dom() =~= m.dom().filter(
        |c: Endpoint| now < m[c].tm + 20_000_000_000,
    ));
}

/// Recording a punch drops those that are twenty seconds old and leaves all others as they are;
/// where there is no room, that is true of the controller's own as well.
pub proof fn law_what_recording_leaves(
    m: Map<Endpoint, Punch>,
    a: Endpoint,
    to_id: Seq<char>,
    b_ip: Ip,
    now: u128,
    other: Endpoint,
)
    requires
        other != crate::addr::canonical(a) || !has_room(m, now),
    ensures
        ({
            let end = inserted(m, a, to_id, b_ip, now);
            &&& end.contains_key(other) <==> m.contains_key(other) && now < m[other].tm
                + 20_000_000_000
            &&& end.contains_key(other) ==> end[other] == m[other]
        }),
{
}

/// A packet is an answer to a punch exactly where it names the peer and comes from the peer's IP.
pub proof fn law_what_an_answer_is(
    a: Endpoint,
    id: Seq<char>,
    b_src: Endpoint,
    now: u128,
    key: Endpoint,
    p: Punch,
)
    ensures
        (PendingStep::Packet { a, id, b_src, now }).is_answer(key, p) <==> crate::addr::canonical(a)
            == key && p.to_id == id && p.b_ip == crate::addr::canonical_ip(b_src.ip()),
{
}

} // verus!
