//! Hole punching: which NAT tests are answered, and what a punch request may forward.

use crate::addr::{try_into_v4, Endpoint, Ip};
use crate::rate::RateLimiter;
use crate::stats::{inc, Counters, Stat};
use crate::switches::{punch_ipv6, punch_udp, Switches};
use crate::time::{Clock, SECOND};
use bytes::Bytes;
use vstd::prelude::*;
use vstd::string::*;

verus! {

// Clients retransmit a NAT test a few times within about 200 ms; 20 per second and IP leaves room
// for a handful of clients behind one NAT. The global cap bounds what a spoofed flood can reflect.
pub const TEST_NAT_PER_IP_MAX: u32 = 20;

pub const TEST_NAT_PER_IP_CAP: usize = 50_000;

pub const TEST_NAT_GLOBAL_MAX: u32 = 2_000;

// Normal use: 2 parallel attempts with up to 3 retries, so 6 requests per connection.
pub const PUNCH_EXTRA_MAX: u32 = 8;

pub const PUNCH_EXTRA_SECONDS: u128 = 30;

pub const PUNCH_EXTRA_CAP: usize = 50_000;

/// The limits on answering NAT tests: one for all together, one for each IP.
pub struct TestNat {
    global: RateLimiter<()>,
    per_ip: RateLimiter<Ip>,
}

/// What the two limiters hold.
#[verifier::ext_equal]
pub struct TestNatState {
    pub global: crate::rate::LimiterState<()>,
    pub per_ip: crate::rate::LimiterState<Ip>,
}

impl View for TestNat {
    type V = TestNatState;

    closed spec fn view(&self) -> TestNatState {
        TestNatState { global: self.global@, per_ip: self.per_ip@ }
    }
}

impl TestNatState {
    /// Whether a NAT test from `ip` is answered. The limiter of all is asked first.
    pub open spec fn answers(self, ip: Ip, now_global: u128, now_ip: u128) -> bool {
        self.global.fits((), now_global) && self.per_ip.fits(ip, now_ip)
    }

    /// The limiters after a NAT test from `ip`. What the limiter of all refuses, the limiter per
    /// IP never sees.
    pub open spec fn after(self, ip: Ip, now_global: u128, now_ip: u128) -> Self {
        TestNatState {
            global: self.global.after((), now_global),
            per_ip: if self.global.fits((), now_global) {
                self.per_ip.after(ip, now_ip)
            } else {
                self.per_ip
            },
        }
    }
}

/// The counter for an answered or a refused NAT test.
pub open spec fn test_nat_stat(answered: bool) -> Stat {
    if answered {
        Stat::TestNatUdp
    } else {
        Stat::TestNatUdpLimited
    }
}

impl TestNat {
    /// Both limiters are sound.
    pub closed spec fn wf(&self) -> bool {
        self.global.wf() && self.per_ip.wf()
    }

    /// The clocks that the times of the two limiters are read from: the one for all, the one per IP.
    pub closed spec fn clocks(&self) -> (Clock, Clock) {
        (self.global.clock(), self.per_ip.clock())
    }

    /// Limiters without events.
    pub fn new() -> (r: Self)
        ensures
            r.wf(),
            r@.global == (crate::rate::LimiterState::<()> {
                slots: Map::empty(),
                last_sweep: 0,
                max: TEST_NAT_GLOBAL_MAX,
                window: SECOND,
                cap: 1,
            }),
            r@.per_ip == (crate::rate::LimiterState::<Ip> {
                slots: Map::empty(),
                last_sweep: 0,
                max: TEST_NAT_PER_IP_MAX,
                window: SECOND,
                cap: TEST_NAT_PER_IP_CAP,
            }),
            r@.global.max == 2_000,
            r@.global.window == 1_000_000_000,
            r@.per_ip.max == 20,
            r@.per_ip.window == 1_000_000_000,
            r@.per_ip.cap == 50_000,
    {
        TestNat {
            global: RateLimiter::new(TEST_NAT_GLOBAL_MAX, SECOND, 1),
            per_ip: RateLimiter::new(TEST_NAT_PER_IP_MAX, SECOND, TEST_NAT_PER_IP_CAP),
        }
    }
}

/// `test_nat_allow` at given times of the two limiters.
pub fn test_nat_allow_at(
    limits: &mut TestNat,
    counters: &mut Counters,
    addr: Endpoint,
    now_global: u128,
    now_ip: u128,
) -> (r: bool)
    requires
        old(limits).wf(),
    ensures
        final(limits).wf(),
        final(limits).clocks() == old(limits).clocks(),
        final(limits)@ == old(limits)@.after(crate::addr::canonical(addr).ip(), now_global, now_ip),
        r == old(limits)@.answers(crate::addr::canonical(addr).ip(), now_global, now_ip),
        final(counters)@ == crate::stats::counted(old(counters)@, test_nat_stat(r)),
{
    let ip = try_into_v4(addr).ip();
    if limits.global.allow_at(&(), now_global) && limits.per_ip.allow_at(&ip, now_ip) {
        inc(counters, Stat::TestNatUdp);
        true
    } else {
        inc(counters, Stat::TestNatUdpLimited);
        false
    }
}

/// Whether a NAT test over UDP from `addr` may be answered.
/// The global cap is checked first, so a spoofed flood stops before touching the per-IP table.
pub fn test_nat_allow(limits: &mut TestNat, counters: &mut Counters, addr: Endpoint) -> (r: bool)
    requires
        old(limits).wf(),
    ensures
        final(limits).wf(),
        final(limits).clocks() == old(limits).clocks(),
        exists|now_global: u128, now_ip: u128|
            old(limits).clocks().0.shows(now_global) && old(limits).clocks().1.shows(now_ip)
                && final(limits)@ == #[trigger] old(limits)@.after(
                crate::addr::canonical(addr).ip(),
                now_global,
                now_ip,
            ) && r == old(limits)@.answers(crate::addr::canonical(addr).ip(), now_global, now_ip),
        final(counters)@ == crate::stats::counted(old(counters)@, test_nat_stat(r)),
{
    let now_global = limits.global.now();
    let now_ip = limits.per_ip.now();
    test_nat_allow_at(limits, counters, addr, now_global, now_ip)
}

/// How many bytes an IPv6 address takes in a message: its 16 octets, then the port.
pub const V6_LEN: usize = 18;

/// The number that the first `n` bytes write, first byte highest.
pub open spec fn big_endian(b: Seq<u8>, n: int) -> nat
    decreases n,
{
    if n <= 0 {
        0
    } else {
        big_endian(b, n - 1) * 256 + b[n - 1] as nat
    }
}

/// How many numbers `n` bytes can write.
pub open spec fn byte_range(n: nat) -> nat
    decreases n,
{
    if n == 0 {
        1
    } else {
        256 * byte_range((n - 1) as nat)
    }
}

proof fn lemma_big_endian_fits(b: Seq<u8>, n: nat)
    ensures
        big_endian(b, n as int) < byte_range(n),
    decreases n,
{
    if n > 0 {
        lemma_big_endian_fits(b, (n - 1) as nat);
    }
}

proof fn lemma_byte_range_grows(n: nat, m: nat)
    requires
        n <= m,
    ensures
        byte_range(n) <= byte_range(m),
    decreases m,
{
    if n < m {
        lemma_byte_range_grows(n, (m - 1) as nat);
    }
}

/// The address that the 18 bytes `b` carry: the octets in network order, then the port with its
/// low byte first.
pub open spec fn carried_v6(b: Seq<u8>) -> Endpoint {
    Endpoint::V6 {
        ip: big_endian(b, 16) as u128,
        port: (b[16] + 256 * b[17]) as u16,
        flowinfo: 0,
        scope_id: 0,
    }
}

/// Reads an IPv6 address from the 18 bytes that carry it; none where there are more or fewer.
pub fn decode_v6(b: &[u8]) -> (r: Option<Endpoint>)
    ensures
        r == if b@.len() == V6_LEN {
            Some(carried_v6(b@))
        } else {
            None
        },
{
    if b.len() != V6_LEN {
        return None;
    }
    proof {
        reveal_with_fuel(byte_range, 17);
    }
    let mut ip: u128 = 0;
    let mut i: usize = 0;
    while i < 16
        invariant
            i <= 16,
            b@.len() == V6_LEN,
            ip == big_endian(b@, i as int),
            byte_range(16) == 0x1_0000_0000_0000_0000_0000_0000_0000_0000,
        decreases 16 - i,
    {
        proof {
            lemma_big_endian_fits(b@, (i + 1) as nat);
            lemma_byte_range_grows((i + 1) as nat, 16);
        }
        ip = ip * 256 + b[i] as u128;
        i += 1;
    }
    let port = b[16] as u16 + 256 * (b[17] as u16);
    Some(Endpoint::V6 { ip, port, flowinfo: 0, scope_id: 0 })
}

/// Where `2000::/3`, the global unicast addresses, begins and ends.
pub const GLOBAL_FIRST: u128 = 0x2000_0000_0000_0000_0000_0000_0000_0000;

pub const GLOBAL_END: u128 = 0x4000_0000_0000_0000_0000_0000_0000_0000;

/// An IPv6 address in `2000::/3`, with a port.
pub open spec fn is_global_v6(a: Endpoint) -> bool {
    match a {
        Endpoint::V6 { ip, port, .. } => port > 0 && GLOBAL_FIRST <= ip < GLOBAL_END,
        _ => false,
    }
}

/// Whether `b` carries a global unicast IPv6 address with a port.
pub open spec fn forwardable_v6(b: Seq<u8>) -> bool {
    b.len() == V6_LEN && is_global_v6(carried_v6(b))
}

/// Whether an address may be forwarded: IPv6, in `2000::/3`, with a port.
pub fn may_forward(a: Endpoint) -> (r: bool)
    ensures
        r == is_global_v6(a),
{
    match a {
        Endpoint::V6 { ip, port, .. } => port > 0 && GLOBAL_FIRST <= ip && ip < GLOBAL_END,
        _ => false,
    }
}

/// Accepts only an 18-byte IPv6 address with a port, in `2000::/3` (global unicast), the same
/// filter the client applies, and hands it on as it is; anything else gives no bytes. An address
/// is never made up from what the server observed: the listener is dual-stack and sees IPv4
/// clients as `::ffff:a.b.c.d`.
pub fn valid_v6(b: &[u8]) -> (r: Bytes)
    ensures
        crate::payload::bytes_of(r) == if forwardable_v6(b@) {
            b@
        } else {
            Seq::<u8>::empty()
        },
{
    match decode_v6(b) {
        Some(a) => {
            if may_forward(a) {
                Bytes::copy_from_slice(b)
            } else {
                Bytes::new()
            }
        },
        None => Bytes::new(),
    }
}

/// A limiter without events for the extras of punch requests.
pub fn punch_extra_limiter() -> (r: RateLimiter<(Ip, String)>)
    ensures
        r.wf(),
        r@ == (crate::rate::LimiterState::<(Ip, Seq<char>)> {
            slots: Map::empty(),
            last_sweep: 0,
            max: PUNCH_EXTRA_MAX,
            window: (PUNCH_EXTRA_SECONDS * SECOND) as u128,
            cap: PUNCH_EXTRA_CAP,
        }),
        r@.max == 8,
        r@.window == 30_000_000_000,
        r@.cap == 50_000,
{
    RateLimiter::new(PUNCH_EXTRA_MAX, PUNCH_EXTRA_SECONDS * SECOND, PUNCH_EXTRA_CAP)
}

/// The UDP port that a request which is not relay-only offers to forward; zero is none.
pub open spec fn offered_port(switches: Switches, req_udp_port: i32) -> i32 {
    if switches.punch_udp && 1 <= req_udp_port <= 65535 {
        req_udp_port
    } else {
        0
    }
}

/// The IPv6 address that a request which is not relay-only offers to forward; no bytes are none.
pub open spec fn offered_v6(switches: Switches, req_v6: Seq<u8>) -> Seq<u8> {
    if switches.punch_ipv6 && forwardable_v6(req_v6) {
        req_v6
    } else {
        Seq::empty()
    }
}

/// Whether a request offers anything, and so counts against the limit.
pub open spec fn offers(
    switches: Switches,
    req_udp_port: i32,
    req_v6: Seq<u8>,
    relay_only: bool,
) -> bool {
    !relay_only && (offered_port(switches, req_udp_port) > 0 || offered_v6(switches, req_v6).len()
        > 0)
}

/// The key under which requests of controller `a` for peer `id` are counted.
pub open spec fn pair_key(a: Endpoint, id: Seq<char>) -> (Ip, Seq<char>) {
    (crate::addr::canonical(a).ip(), id)
}

/// What a punch request leaves behind and what it may forward.
#[verifier::ext_equal]
pub struct ExtrasOutcome {
    pub limiter: crate::rate::LimiterState<(Ip, Seq<char>)>,
    pub counts: Seq<u64>,
    pub udp_port: i32,
    pub v6: Seq<u8>,
}

/// The outcome of a punch request of the pair `key` at `now`. One that offers nothing forwards
/// nothing and is not counted; one that the limiter refuses forwards nothing.
pub open spec fn extras_outcome(
    switches: Switches,
    limiter: crate::rate::LimiterState<(Ip, Seq<char>)>,
    counts: Seq<u64>,
    req_udp_port: i32,
    req_v6: Seq<u8>,
    key: (Ip, Seq<char>),
    relay_only: bool,
    now: u128,
) -> ExtrasOutcome {
    if !offers(switches, req_udp_port, req_v6, relay_only) {
        ExtrasOutcome { limiter, counts, udp_port: 0, v6: Seq::empty() }
    } else if limiter.fits(key, now) {
        ExtrasOutcome {
            limiter: limiter.after(key, now),
            counts,
            udp_port: offered_port(switches, req_udp_port),
            v6: offered_v6(switches, req_v6),
        }
    } else {
        ExtrasOutcome {
            limiter: limiter.after(key, now),
            counts: crate::stats::counted(counts, Stat::PunchExtraLimited),
            udp_port: 0,
            v6: Seq::empty(),
        }
    }
}

/// `punch_extras` at a given time of the limiter.
pub fn punch_extras_at(
    switches: &Switches,
    limiter: &mut RateLimiter<(Ip, String)>,
    counters: &mut Counters,
    req_udp_port: i32,
    req_v6: &[u8],
    a: Endpoint,
    id: &str,
    relay_only: bool,
    now: u128,
) -> (r: (i32, Bytes))
    requires
        old(limiter).wf(),
    ensures
        final(limiter).wf(),
        final(limiter).clock() == old(limiter).clock(),
        (ExtrasOutcome {
            limiter: final(limiter)@,
            counts: final(counters)@,
            udp_port: r.0,
            v6: crate::payload::bytes_of(r.1),
        }) == extras_outcome(
            *switches,
            old(limiter)@,
            old(counters)@,
            req_udp_port,
            req_v6@,
            pair_key(a, id@),
            relay_only,
            now,
        ),
{
    if relay_only {
        return (0, Bytes::new());
    }
    let udp_port = if punch_udp(switches) && 1 <= req_udp_port && req_udp_port <= 65535 {
        req_udp_port
    } else {
        0
    };
    let v6 = if punch_ipv6(switches) {
        valid_v6(req_v6)
    } else {
        Bytes::new()
    };
    if udp_port > 0 || !v6.is_empty() {
        let key = (try_into_v4(a).ip(), id.to_owned());
        if !limiter.allow_at(&key, now) {
            inc(counters, Stat::PunchExtraLimited);
            return (0, Bytes::new());
        }
    }
    (udp_port, v6)
}

/// The UDP port and the IPv6 address that may be forwarded for this punch request of controller
/// `a` for peer `id`.
/// Relay-only paths (WebSocket on either side, forced relay) never get them, and a controller
/// that asks too often for the same peer degrades to plain TCP punching.
pub fn punch_extras(
    switches: &Switches,
    limiter: &mut RateLimiter<(Ip, String)>,
    counters: &mut Counters,
    req_udp_port: i32,
    req_v6: &[u8],
    a: Endpoint,
    id: &str,
    relay_only: bool,
) -> (r: (i32, Bytes))
    requires
        old(limiter).wf(),
    ensures
        final(limiter).wf(),
        final(limiter).clock() == old(limiter).clock(),
        exists|now: u128|
            old(limiter).clock().shows(now) && (ExtrasOutcome {
                limiter: final(limiter)@,
                counts: final(counters)@,
                udp_port: r.0,
                v6: crate::payload::bytes_of(r.1),
            }) == #[trigger] extras_outcome(
                *switches,
                old(limiter)@,
                old(counters)@,
                req_udp_port,
                req_v6@,
                pair_key(a, id@),
                relay_only,
                now,
            ),
{
    let now = limiter.now();
    punch_extras_at(
        switches,
        limiter,
        counters,
        req_udp_port,
        req_v6,
        a,
        id,
        relay_only,
        now,
    )
}

/// With both punch switches off, no request forwards anything and nothing is counted.
pub proof fn law_off_forwards_nothing(
    switches: Switches,
    limiter: crate::rate::LimiterState<(Ip, Seq<char>)>,
    counts: Seq<u64>,
    req_udp_port: i32,
    req_v6: Seq<u8>,
    key: (Ip, Seq<char>),
    relay_only: bool,
    now: u128,
)
    requires
        !switches.punch_udp,
        !switches.punch_ipv6,
    ensures
        extras_outcome(switches, limiter, counts, req_udp_port, req_v6, key, relay_only, now) == (
        ExtrasOutcome { limiter, counts, udp_port: 0, v6: Seq::empty() }),
{
}

/// A relay-only request forwards nothing, whatever the switches, and is not counted.
pub proof fn law_relay_only_forwards_nothing(
    switches: Switches,
    limiter: crate::rate::LimiterState<(Ip, Seq<char>)>,
    counts: Seq<u64>,
    req_udp_port: i32,
    req_v6: Seq<u8>,
    key: (Ip, Seq<char>),
    now: u128,
)
    ensures
        extras_outcome(switches, limiter, counts, req_udp_port, req_v6, key, true, now) == (
        ExtrasOutcome { limiter, counts, udp_port: 0, v6: Seq::empty() }),
{
}

/// What is forwarded is what the request declared, each only under its own switch: a UDP port in
/// range, and an IPv6 address that is global unicast with a port. Nothing is made up.
pub proof fn law_forwards_only_what_was_declared(
    switches: Switches,
    limiter: crate::rate::LimiterState<(Ip, Seq<char>)>,
    counts: Seq<u64>,
    req_udp_port: i32,
    req_v6: Seq<u8>,
    key: (Ip, Seq<char>),
    relay_only: bool,
    now: u128,
)
    ensures
        ({
            let o = extras_outcome(
                switches,
                limiter,
                counts,
                req_udp_port,
                req_v6,
                key,
                relay_only,
                now,
            );
            &&& o.udp_port != 0 ==> switches.punch_udp && o.udp_port == req_udp_port && 1
                <= o.udp_port <= 65535
            &&& o.v6.len() != 0 ==> switches.punch_ipv6 && o.v6 == req_v6 && forwardable_v6(o.v6)
        }),
{
}

/// A punch request of the pair `key`, and when it came.
pub struct PunchRequest {
    pub udp_port: i32,
    pub v6: Seq<u8>,
    pub key: (Ip, Seq<char>),
    pub relay_only: bool,
    pub now: u128,
}

/// The outcome of `request` where the limiter holds `limiter`.
pub open spec fn outcome_of(
    switches: Switches,
    limiter: crate::rate::LimiterState<(Ip, Seq<char>)>,
    request: PunchRequest,
) -> ExtrasOutcome {
    extras_outcome(
        switches,
        limiter,
        crate::stats::zero_counts(),
        request.udp_port,
        request.v6,
        request.key,
        request.relay_only,
        request.now,
    )
}

/// What the limiter holds after `requests`.
pub open spec fn limiter_after(
    switches: Switches,
    limiter: crate::rate::LimiterState<(Ip, Seq<char>)>,
    requests: Seq<PunchRequest>,
) -> crate::rate::LimiterState<(Ip, Seq<char>)>
    decreases requests.len(),
{
    if requests.len() == 0 {
        limiter
    } else {
        outcome_of(
            switches,
            limiter_after(switches, limiter, requests.drop_last()),
            requests.last(),
        ).limiter
    }
}

/// How many of `requests` of the pair `key` forward something.
pub open spec fn forwarded(
    switches: Switches,
    limiter: crate::rate::LimiterState<(Ip, Seq<char>)>,
    requests: Seq<PunchRequest>,
    key: (Ip, Seq<char>),
) -> nat
    decreases requests.len(),
{
    if requests.len() == 0 {
        0
    } else {
        let rest = requests.drop_last();
        let o = outcome_of(switches, limiter_after(switches, limiter, rest), requests.last());
        forwarded(switches, limiter, rest, key) + if requests.last().key == key && (o.udp_port != 0
            || o.v6.len() != 0) {
            1nat
        } else {
            0
        }
    }
}

/// How many of `requests` of the pair `key` offer something to forward.
pub open spec fn offering(
    switches: Switches,
    requests: Seq<PunchRequest>,
    key: (Ip, Seq<char>),
) -> nat
    decreases requests.len(),
{
    if requests.len() == 0 {
        0
    } else {
        let r = requests.last();
        offering(switches, requests.drop_last(), key) + if r.key == key && offers(
            switches,
            r.udp_port,
            r.v6,
            r.relay_only,
        ) {
            1nat
        } else {
            0
        }
    }
}

/// Until the window of a pair closes, its first requests that offer something forward it, as many
/// as the limit leaves room for, and no more do, whatever other pairs ask.
pub proof fn law_punch_extras_limit(
    switches: Switches,
    limiter: crate::rate::LimiterState<(Ip, Seq<char>)>,
    requests: Seq<PunchRequest>,
    key: (Ip, Seq<char>),
)
    requires
        limiter.slots.contains_key(key),
        forall|i: int|
            0 <= i < requests.len() ==> crate::time::is_fresh(
                (#[trigger] requests[i]).now,
                limiter.slots[key].start,
                limiter.window,
            ),
    ensures
        forwarded(switches, limiter, requests, key) == {
            let room = crate::rate::room(limiter.slots[key], limiter.max);
            if offering(switches, requests, key) < room {
                offering(switches, requests, key)
            } else {
                room
            }
        },
        ({
            let end = limiter_after(switches, limiter, requests);
            &&& end.slots.contains_key(key)
            &&& end.slots[key].start == limiter.slots[key].start
            &&& end.slots[key].count == limiter.slots[key].count + forwarded(
                switches,
                limiter,
                requests,
                key,
            )
            &&& end.max == limiter.max
            &&& end.window == limiter.window
        }),
    decreases requests.len(),
{
    if requests.len() > 0 {
        let rest = requests.drop_last();
        assert forall|i: int| 0 <= i < rest.len() implies crate::time::is_fresh(
            (#[trigger] rest[i]).now,
            limiter.slots[key].start,
            limiter.window,
        ) by {
            assert(rest[i] == requests[i]);
        }
        law_punch_extras_limit(switches, limiter, rest, key);
        let last = requests.last();
        assert(requests[requests.len() - 1] == last);
        crate::rate::lemma_open_slot(
            limiter_after(switches, limiter, rest),
            key,
            last.key,
            last.now,
        );
    }
}

/// The limit in numbers: from the request that opens the window of a pair, eight requests of that
/// pair forward something within thirty seconds, that one included, and the rest degrade.
pub proof fn law_eight_extras_in_thirty_seconds(
    switches: Switches,
    limiter: crate::rate::LimiterState<(Ip, Seq<char>)>,
    first: PunchRequest,
    requests: Seq<PunchRequest>,
)
    requires
        limiter.max == PUNCH_EXTRA_MAX,
        limiter.window == PUNCH_EXTRA_SECONDS * SECOND,
        !limiter.is_open(first.key, first.now),
        limiter.fits(first.key, first.now),
        offers(switches, first.udp_port, first.v6, first.relay_only),
        forall|i: int|
            0 <= i < requests.len() ==> (#[trigger] requests[i]).now < first.now + 30_000_000_000,
    ensures
        ({
            let after = outcome_of(switches, limiter, first).limiter;
            1 + forwarded(switches, after, requests, first.key) == if 1 + offering(
                switches,
                requests,
                first.key,
            ) < 8 {
                1 + offering(switches, requests, first.key)
            } else {
                8
            }
        }),
{
    law_punch_extras_limit(
        switches,
        outcome_of(switches, limiter, first).limiter,
        requests,
        first.key,
    );
}

/// Which bytes are accepted: eighteen, whose first three bits are 001, with a port that is not
/// zero in the last two.
pub proof fn law_valid_v6_bytes(b: Seq<u8>)
    ensures
        forwardable_v6(b) <==> b.len() == 18 && 0x20 <= b[0] < 0x40 && (b[16] != 0 || b[17] != 0),
{
    if b.len() == 18 {
        reveal_with_fuel(byte_range, 17);
        lemma_big_endian_top(b, 16);
        lemma_big_endian_fits(b, 16);
        let x = b[0] as int;
        assert(byte_range(15) == 0x100_0000_0000_0000_0000_0000_0000_0000);
        assert(x * byte_range(15) == x * 0x100_0000_0000_0000_0000_0000_0000_0000);
        assert((x + 1) * byte_range(15) == (x + 1) * 0x100_0000_0000_0000_0000_0000_0000_0000);
    }
}

/// The first byte decides the range that the number lies in.
proof fn lemma_big_endian_top(b: Seq<u8>, n: nat)
    requires
        1 <= n,
    ensures
        b[0] * byte_range((n - 1) as nat) <= big_endian(b, n as int),
        big_endian(b, n as int) < (b[0] + 1) * byte_range((n - 1) as nat),
    decreases n,
{
    let x = b[0] as int;
    if n == 1 {
        assert(big_endian(b, 0) == 0);
        assert(big_endian(b, 1) == x);
        assert(byte_range(0) == 1);
        assert(x * 1 == x && (x + 1) * 1 == x + 1);
    } else {
        lemma_big_endian_top(b, (n - 1) as nat);
        let p = byte_range((n - 2) as nat) as int;
        let q = byte_range((n - 1) as nat) as int;
        assert(q == 256 * p);
        assert(x * q == 256 * (x * p)) by (nonlinear_arith)
            requires
                q == 256 * p,
        ;
        assert((x + 1) * q == 256 * ((x + 1) * p)) by (nonlinear_arith)
            requires
                q == 256 * p,
        ;
        assert(big_endian(b, n as int) == 256 * big_endian(b, n - 1) + b[n - 1]);
    }
}

/// An IPv6 address that stands for an IPv4 one is never accepted.
pub proof fn law_v4_never_passes_as_v6(a: Endpoint)
    requires
        crate::addr::canonical(a) is V4,
    ensures
        !is_global_v6(a),
{
}

/// A flood that the global limit refuses does not touch the table per IP.
pub proof fn law_flood_stops_before_per_ip(t: TestNatState, ip: Ip, now_global: u128, now_ip: u128)
    requires
        !t.global.fits((), now_global),
    ensures
        !t.answers(ip, now_global, now_ip),
        t.after(ip, now_global, now_ip).per_ip == t.per_ip,
{
}

/// A NAT test from `ip`, and when it came by the two clocks.
pub struct NatTest {
    pub ip: Ip,
    pub now_global: u128,
    pub now_ip: u128,
}

impl TestNatState {
    /// The limiters after `tests`.
    pub open spec fn run(self, tests: Seq<NatTest>) -> Self
        decreases tests.len(),
    {
        if tests.len() == 0 {
            self
        } else {
            let t = tests.last();
            self.run(tests.drop_last()).after(t.ip, t.now_global, t.now_ip)
        }
    }

    /// How many of `tests` are answered: of those from `ip`, or of all where `ip` is none.
    pub open spec fn answered(self, tests: Seq<NatTest>, ip: Option<Ip>) -> nat
        decreases tests.len(),
    {
        if tests.len() == 0 {
            0
        } else {
            let rest = tests.drop_last();
            let t = tests.last();
            self.answered(rest, ip) + if (ip is None || ip == Some(t.ip)) && self.run(rest).answers(
                t.ip,
                t.now_global,
                t.now_ip,
            ) {
                1nat
            } else {
                0
            }
        }
    }
}

/// Until the global window closes, no more NAT tests are answered than it leaves room for.
pub proof fn law_test_nat_global_limit(s: TestNatState, tests: Seq<NatTest>)
    requires
        s.global.slots.contains_key(()),
        forall|i: int|
            0 <= i < tests.len() ==> crate::time::is_fresh(
                (#[trigger] tests[i]).now_global,
                s.global.slots[()].start,
                s.global.window,
            ),
    ensures
        s.answered(tests, None) <= crate::rate::room(s.global.slots[()], s.global.max),
        ({
            let end = s.run(tests).global;
            &&& end.slots.contains_key(())
            &&& end.slots[()].start == s.global.slots[()].start
            &&& end.slots[()].count >= s.global.slots[()].count + s.answered(tests, None)
            &&& end.slots[()].count <= s.global.slots[()].count + crate::rate::room(
                s.global.slots[()],
                s.global.max,
            )
            &&& end.max == s.global.max
            &&& end.window == s.global.window
        }),
    decreases tests.len(),
{
    if tests.len() > 0 {
        let rest = tests.drop_last();
        assert forall|i: int| 0 <= i < rest.len() implies crate::time::is_fresh(
            (#[trigger] rest[i]).now_global,
            s.global.slots[()].start,
            s.global.window,
        ) by {
            assert(rest[i] == tests[i]);
        }
        law_test_nat_global_limit(s, rest);
        let t = tests.last();
        assert(tests[tests.len() - 1] == t);
        crate::rate::lemma_open_slot(s.run(rest).global, (), (), t.now_global);
    }
}

/// Until the window of an IP closes, no more of its NAT tests are answered than it leaves room
/// for.
pub proof fn law_test_nat_per_ip_limit(s: TestNatState, tests: Seq<NatTest>, ip: Ip)
    requires
        s.per_ip.slots.contains_key(ip),
        forall|i: int|
            0 <= i < tests.len() ==> crate::time::is_fresh(
                (#[trigger] tests[i]).now_ip,
                s.per_ip.slots[ip].start,
                s.per_ip.window,
            ),
    ensures
        s.answered(tests, Some(ip)) <= crate::rate::room(s.per_ip.slots[ip], s.per_ip.max),
        ({
            let end = s.run(tests).per_ip;
            &&& end.slots.contains_key(ip)
            &&& end.slots[ip].start == s.per_ip.slots[ip].start
            &&& end.slots[ip].count == s.per_ip.slots[ip].count + s.answered(tests, Some(ip))
            &&& end.max == s.per_ip.max
            &&& end.window == s.per_ip.window
        }),
    decreases tests.len(),
{
    if tests.len() > 0 {
        let rest = tests.drop_last();
        assert forall|i: int| 0 <= i < rest.len() implies crate::time::is_fresh(
            (#[trigger] rest[i]).now_ip,
            s.per_ip.slots[ip].start,
            s.per_ip.window,
        ) by {
            assert(rest[i] == tests[i]);
        }
        law_test_nat_per_ip_limit(s, rest, ip);
        let t = tests.last();
        assert(tests[tests.len() - 1] == t);
        crate::rate::lemma_open_slot(s.run(rest).per_ip, ip, t.ip, t.now_ip);
    }
}

/// The limits in numbers: from the NAT test that opens the window of an IP, at most twenty of that
/// IP are answered within a second, and from the one that opens the global window, at most two
/// thousand of all, those two included.
pub proof fn law_nat_tests_per_second(s: TestNatState, first: NatTest, tests: Seq<NatTest>)
    requires
        s.global.max == TEST_NAT_GLOBAL_MAX,
        s.global.window == SECOND,
        s.per_ip.max == TEST_NAT_PER_IP_MAX,
        s.per_ip.window == SECOND,
        s.answers(first.ip, first.now_global, first.now_ip),
    ensures
        ({
            let after = s.after(first.ip, first.now_global, first.now_ip);
            &&& !s.per_ip.is_open(first.ip, first.now_ip) && (forall|i: int|
                0 <= i < tests.len() ==> (#[trigger] tests[i]).now_ip < first.now_ip
                    + 1_000_000_000) ==> 1 + after.answered(tests, Some(first.ip)) <= 20
            &&& !s.global.is_open((), first.now_global) && (forall|i: int|
                0 <= i < tests.len() ==> (#[trigger] tests[i]).now_global < first.now_global
                    + 1_000_000_000) ==> 1 + after.answered(tests, None) <= 2_000
        }),
{
    let after = s.after(first.ip, first.now_global, first.now_ip);
    if !s.per_ip.is_open(first.ip, first.now_ip) && (forall|i: int|
        0 <= i < tests.len() ==> (#[trigger] tests[i]).now_ip < first.now_ip + 1_000_000_000) {
        law_test_nat_per_ip_limit(after, tests, first.ip);
    }
    if !s.global.is_open((), first.now_global) && (forall|i: int|
        0 <= i < tests.len() ==> (#[trigger] tests[i]).now_global < first.now_global
            + 1_000_000_000) {
        law_test_nat_global_limit(after, tests);
    }
}

/// A NAT test within both limits is answered, whatever its address, and counted under both: fewer
/// than two thousand were let through in the open global window, or none is open; fewer than
/// twenty of this IP were let through in its open window, or none is open and the IP is known or
/// finds room among fifty thousand.
pub proof fn law_nat_test_within_the_limits_is_answered(
    s: TestNatState,
    ip: Ip,
    now_global: u128,
    now_ip: u128,
)
    requires
        s.global.slots.dom().finite(),
        s.global.slots.len() <= s.global.cap,
        s.global.max == 2_000,
        s.global.window == 1_000_000_000,
        s.global.cap == 1,
        s.per_ip.slots.dom().finite(),
        s.per_ip.slots.len() <= s.per_ip.cap,
        s.per_ip.max == 20,
        s.per_ip.window == 1_000_000_000,
        s.per_ip.cap == 50_000,
        s.global.slots.contains_key(()) && now_global < s.global.slots[()].start + 1_000_000_000
            ==> s.global.slots[()].count < 2_000,
        s.per_ip.slots.contains_key(ip) && now_ip < s.per_ip.slots[ip].start + 1_000_000_000
            ==> s.per_ip.slots[ip].count < 20,
        s.per_ip.slots.contains_key(ip) || s.per_ip.slots.len() < 50_000,
    ensures
        s.answers(ip, now_global, now_ip),
        ({
            let end = s.after(ip, now_global, now_ip);
            &&& end.global.slots.contains_key(())
            &&& end.global.slots[()] == if s.global.slots.contains_key(()) && now_global
                < s.global.slots[()].start + 1_000_000_000 {
                crate::rate::Slot {
                    count: (s.global.slots[()].count + 1) as u32,
                    start: s.global.slots[()].start,
                }
            } else {
                crate::rate::Slot { count: 1, start: now_global }
            }
            &&& end.per_ip.slots.contains_key(ip)
            &&& end.per_ip.slots[ip] == if s.per_ip.slots.contains_key(ip) && now_ip
                < s.per_ip.slots[ip].start + 1_000_000_000 {
                crate::rate::Slot {
                    count: (s.per_ip.slots[ip].count + 1) as u32,
                    start: s.per_ip.slots[ip].start,
                }
            } else {
                crate::rate::Slot { count: 1, start: now_ip }
            }
        }),
{
    if s.global.slots.contains_key(()) {
        if now_global < s.global.slots[()].start + 1_000_000_000 {
            crate::rate::law_event_in_an_open_window(s.global, (), now_global);
        } else {
            crate::rate::law_event_after_the_window(s.global, (), now_global);
        }
    } else {
        assert(s.global.slots.dom() =~= Set::<()>::empty());
        crate::rate::law_first_event_of_a_key(s.global, (), now_global);
    }
    if s.per_ip.slots.contains_key(ip) {
        if now_ip < s.per_ip.slots[ip].start + 1_000_000_000 {
            crate::rate::law_event_in_an_open_window(s.per_ip, ip, now_ip);
        } else {
            crate::rate::law_event_after_the_window(s.per_ip, ip, now_ip);
        }
    } else {
        crate::rate::law_first_event_of_a_key(s.per_ip, ip, now_ip);
    }
}

/// A NAT test is refused exactly where one of the two limiters refuses it: the limiter of all, on
/// which every test counts, or the limiter per IP, on which those count that the first lets through.
pub proof fn law_nat_test_is_up_to_the_two_limiters(
    s: TestNatState,
    ip: Ip,
    now_global: u128,
    now_ip: u128,
)
    ensures
        s.answers(ip, now_global, now_ip) <==> s.global.fits((), now_global) && s.per_ip.fits(
            ip,
            now_ip,
        ),
        s.after(ip, now_global, now_ip).global == s.global.after((), now_global),
        s.global.fits((), now_global) ==> s.after(ip, now_global, now_ip).per_ip == s.per_ip.after(
            ip,
            now_ip,
        ),
        !s.global.fits((), now_global) ==> s.after(ip, now_global, now_ip).per_ip == s.per_ip,
        test_nat_stat(true) == Stat::TestNatUdp,
        test_nat_stat(false) == Stat::TestNatUdpLimited,
{
}

/// What a request offers: it is not relay-only, and it declares a UDP port from 1 to 65535 with
/// that switch on, or eighteen bytes whose first three bits are 001, with a port, with the other.
pub proof fn law_what_a_request_offers(
    switches: Switches,
    req_udp_port: i32,
    req_v6: Seq<u8>,
    relay_only: bool,
)
    ensures
        offers(switches, req_udp_port, req_v6, relay_only) <==> !relay_only && (switches.punch_udp
            && 1 <= req_udp_port <= 65535 || switches.punch_ipv6 && req_v6.len() == 18 && 0x20
            <= req_v6[0] < 0x40 && (req_v6[16] != 0 || req_v6[17] != 0)),
{
    law_valid_v6_bytes(req_v6);
}

/// What was declared and is acceptable is forwarded as it was declared, where the request is not
/// relay-only and the limiter lets the pair through: the UDP port, if its switch is on and it is
/// from 1 to 65535, and the IPv6 address, if its switch is on and it is eighteen bytes whose first
/// three bits are 001, with a port. Each alone or both together; what is not acceptable is dropped.
/// A request with nothing acceptable, or a relay-only one, forwards nothing and leaves limiter and
/// counters alone; one that the limiter refuses forwards nothing and is counted as limited.
pub proof fn law_forwards_what_was_declared(
    switches: Switches,
    limiter: crate::rate::LimiterState<(Ip, Seq<char>)>,
    counts: Seq<u64>,
    req_udp_port: i32,
    req_v6: Seq<u8>,
    key: (Ip, Seq<char>),
    relay_only: bool,
    now: u128,
)
    ensures
        ({
            let o = extras_outcome(
                switches,
                limiter,
                counts,
                req_udp_port,
                req_v6,
                key,
                relay_only,
                now,
            );
            let port = switches.punch_udp && 1 <= req_udp_port <= 65535;
            let v6 = switches.punch_ipv6 && req_v6.len() == 18 && 0x20 <= req_v6[0] < 0x40 && (
            req_v6[16] != 0 || req_v6[17] != 0);
            if relay_only || !port && !v6 {
                &&& o.udp_port == 0
                &&& o.v6.len() == 0
                &&& o.limiter == limiter
                &&& o.counts == counts
            } else if limiter.fits(key, now) {
                &&& port ==> o.udp_port == req_udp_port
                &&& !port ==> o.udp_port == 0
                &&& v6 ==> o.v6 == req_v6
                &&& !v6 ==> o.v6.len() == 0
                &&& o.limiter == limiter.after(key, now)
                &&& o.counts == counts
            } else {
                &&& o.udp_port == 0
                &&& o.v6.len() == 0
                &&& o.limiter == limiter.after(key, now)
                &&& o.counts == crate::stats::counted(counts, Stat::PunchExtraLimited)
            }
        }),
{
    law_valid_v6_bytes(req_v6);
}

/// Requests count together exactly where they come from the same IP, in whatever form and from
/// whatever port, and ask for the same peer.
pub proof fn law_what_a_pair_is(a: Endpoint, b: Endpoint, id: Seq<char>, other: Seq<char>)
    ensures
        pair_key(a, id) == pair_key(b, other) <==> id == other && crate::addr::canonical_ip(a.ip())
            == crate::addr::canonical_ip(b.ip()),
        pair_key(a, id).0 == crate::addr::canonical_ip(a.ip()),
        pair_key(a, id).1 == id,
{
}

/// An address may be forwarded exactly where it is IPv6, has a port, and its first three bits are
/// 001.
pub proof fn law_which_addresses_are_global(a: Endpoint)
    ensures
        is_global_v6(a) <==> a is V6 && a.port() != 0 && a->V6_ip
            / 0x2000_0000_0000_0000_0000_0000_0000_0000 == 1,
{
}

proof fn lemma_big_endian_prefix(b: Seq<u8>, n: nat, k: nat)
    requires
        k <= n,
    ensures
        big_endian(b, n as int) as int / vstd::arithmetic::power::pow(256, k) == big_endian(
            b,
            n - k,
        ),
        vstd::arithmetic::power::pow(256, k) > 0,
    decreases k,
{
    vstd::arithmetic::power::lemma_pow_positive(256, k);
    if k == 0 {
        vstd::arithmetic::power::lemma_pow0(256);
    } else {
        let less = (k - 1) as nat;
        lemma_big_endian_prefix(b, (n - 1) as nat, less);
        reveal(vstd::arithmetic::power::pow);
        let p = vstd::arithmetic::power::pow(256, less);
        let x = big_endian(b, n as int) as int;
        assert(x / 256 == big_endian(b, n - 1));
        assert(vstd::arithmetic::power::pow(256, k) == 256 * p);
        vstd::arithmetic::div_mod::lemma_div_denominator(x, 256, p);
    }
}

/// The octets and the port of an address are the bytes that carry it: octet `i` of the address,
/// counted from the highest, is byte `i`, and the port is the last two bytes, low byte first.
pub proof fn law_bytes_carry_the_address(b: Seq<u8>, i: int)
    requires
        b.len() == 18,
        0 <= i < 16,
    ensures
        carried_v6(b) is V6,
        (carried_v6(b)->V6_ip as int / vstd::arithmetic::power::pow(256, (15 - i) as nat)) % 256
            == b[i],
        carried_v6(b).port() % 256 == b[16],
        carried_v6(b).port() / 256 == b[17],
        carried_v6(b)->V6_flowinfo == 0,
        carried_v6(b)->V6_scope_id == 0,
{
    reveal_with_fuel(byte_range, 17);
    lemma_big_endian_fits(b, 16);
    lemma_big_endian_prefix(b, 16, (15 - i) as nat);
    assert(big_endian(b, i + 1) == big_endian(b, i) * 256 + b[i]);
}

} // verus!
