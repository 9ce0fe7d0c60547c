//! Counters of what the extensions did, and the two texts that show them.

use crate::text::decimal_text;
use vstd::prelude::*;
use vstd::string::*;

verus! {

/// What is counted. `pending_take` also answers with the counter that its refusal belongs to.
#[derive(Clone, Copy, Debug, PartialEq, Eq, Structural)]
pub enum Stat {
    TestNatUdp,
    TestNatUdpLimited,
    PunchFwdUdp,
    PunchFwdV6,
    PunchExtraLimited,
    PendingFull,
    HoleSentUdpAccepted,
    HoleSentUdpNoPending,
    HoleSentUdpMismatch,
    HoleSentUdpDuplicate,
    WsRegister,
    WsRegisterRejected,
    WsOffline,
    WsRouted,
    WsRouteLost,
    ApiHeartbeat,
    ApiFallbackPushed,
}

/// How many counters there are.
pub const N_STATS: usize = 17;

/// The counter in place `i`.
pub open spec fn stat_at(i: int) -> Stat {
    if i == 0 {
        Stat::TestNatUdp
    } else if i == 1 {
        Stat::TestNatUdpLimited
    } else if i == 2 {
        Stat::PunchFwdUdp
    } else if i == 3 {
        Stat::PunchFwdV6
    } else if i == 4 {
        Stat::PunchExtraLimited
    } else if i == 5 {
        Stat::PendingFull
    } else if i == 6 {
        Stat::HoleSentUdpAccepted
    } else if i == 7 {
        Stat::HoleSentUdpNoPending
    } else if i == 8 {
        Stat::HoleSentUdpMismatch
    } else if i == 9 {
        Stat::HoleSentUdpDuplicate
    } else if i == 10 {
        Stat::WsRegister
    } else if i == 11 {
        Stat::WsRegisterRejected
    } else if i == 12 {
        Stat::WsOffline
    } else if i == 13 {
        Stat::WsRouted
    } else if i == 14 {
        Stat::WsRouteLost
    } else if i == 15 {
        Stat::ApiHeartbeat
    } else {
        Stat::ApiFallbackPushed
    }
}

impl Stat {
    /// The place of the counter, in the order in which the counters are declared.
    pub open spec fn place(self) -> int {
        match self {
            Stat::TestNatUdp => 0,
            Stat::TestNatUdpLimited => 1,
            Stat::PunchFwdUdp => 2,
            Stat::PunchFwdV6 => 3,
            Stat::PunchExtraLimited => 4,
            Stat::PendingFull => 5,
            Stat::HoleSentUdpAccepted => 6,
            Stat::HoleSentUdpNoPending => 7,
            Stat::HoleSentUdpMismatch => 8,
            Stat::HoleSentUdpDuplicate => 9,
            Stat::WsRegister => 10,
            Stat::WsRegisterRejected => 11,
            Stat::WsOffline => 12,
            Stat::WsRouted => 13,
            Stat::WsRouteLost => 14,
            Stat::ApiHeartbeat => 15,
            Stat::ApiFallbackPushed => 16,
        }
    }

    /// The name of the counter.
    pub open spec fn label(self) -> Seq<char> {
        match self {
            Stat::TestNatUdp => "test_nat_udp"@,
            Stat::TestNatUdpLimited => "test_nat_udp_limited"@,
            Stat::PunchFwdUdp => "punch_fwd_udp"@,
            Stat::PunchFwdV6 => "punch_fwd_v6"@,
            Stat::PunchExtraLimited => "punch_extra_limited"@,
            Stat::PendingFull => "pending_full"@,
            Stat::HoleSentUdpAccepted => "hole_sent_udp_accepted"@,
            Stat::HoleSentUdpNoPending => "hole_sent_udp_no_pending"@,
            Stat::HoleSentUdpMismatch => "hole_sent_udp_mismatch"@,
            Stat::HoleSentUdpDuplicate => "hole_sent_udp_duplicate"@,
            Stat::WsRegister => "ws_register"@,
            Stat::WsRegisterRejected => "ws_register_rejected"@,
            Stat::WsOffline => "ws_offline"@,
            Stat::WsRouted => "ws_routed"@,
            Stat::WsRouteLost => "ws_route_lost"@,
            Stat::ApiHeartbeat => "api_heartbeat"@,
            Stat::ApiFallbackPushed => "api_fallback_pushed"@,
        }
    }

    fn index(self) -> (r: usize)
        ensures
            r == self.place(),
            r < N_STATS,
    {
        match self {
            Stat::TestNatUdp => 0,
            Stat::TestNatUdpLimited => 1,
            Stat::PunchFwdUdp => 2,
            Stat::PunchFwdV6 => 3,
            Stat::PunchExtraLimited => 4,
            Stat::PendingFull => 5,
            Stat::HoleSentUdpAccepted => 6,
            Stat::HoleSentUdpNoPending => 7,
            Stat::HoleSentUdpMismatch => 8,
            Stat::HoleSentUdpDuplicate => 9,
            Stat::WsRegister => 10,
            Stat::WsRegisterRejected => 11,
            Stat::WsOffline => 12,
            Stat::WsRouted => 13,
            Stat::WsRouteLost => 14,
            Stat::ApiHeartbeat => 15,
            Stat::ApiFallbackPushed => 16,
        }
    }
}

/// The places number the counters without a gap.
pub proof fn law_places_are_exact(s: Stat, i: int)
    requires
        0 <= i < N_STATS,
    ensures
        stat_at(s.place()) == s,
        stat_at(i).place() == i,
        0 <= s.place() < N_STATS,
{
}

/// The name of the counter in place `i`.
fn name_at(i: usize) -> (r: &'static str)
    requires
        i < N_STATS,
    ensures
        r@ == stat_at(i as int).label(),
{
    match i {
        0 => "test_nat_udp",
        1 => "test_nat_udp_limited",
        2 => "punch_fwd_udp",
        3 => "punch_fwd_v6",
        4 => "punch_extra_limited",
        5 => "pending_full",
        6 => "hole_sent_udp_accepted",
        7 => "hole_sent_udp_no_pending",
        8 => "hole_sent_udp_mismatch",
        9 => "hole_sent_udp_duplicate",
        10 => "ws_register",
        11 => "ws_register_rejected",
        12 => "ws_offline",
        13 => "ws_routed",
        14 => "ws_route_lost",
        15 => "api_heartbeat",
        _ => "api_fallback_pushed",
    }
}

/// One count for each `Stat`.
pub struct Counters {
    counts: [u64; N_STATS],
}

impl View for Counters {
    type V = Seq<u64>;

    closed spec fn view(&self) -> Seq<u64> {
        self.counts@
    }
}

/// A count after one more event. It wraps round at the largest number.
pub open spec fn next_count(n: u64) -> u64 {
    if n == u64::MAX {
        0
    } else {
        (n + 1) as u64
    }
}

/// The counts after one more event of the kind `s`.
pub open spec fn counted(counts: Seq<u64>, s: Stat) -> Seq<u64> {
    counts.update(s.place(), next_count(counts[s.place()]))
}

/// All counts at zero.
pub open spec fn zero_counts() -> Seq<u64> {
    Seq::new(N_STATS as nat, |i: int| 0u64)
}

impl Counters {
    /// There is one count for each `Stat`.
    pub proof fn count_for_each(&self)
        ensures
            self@.len() == N_STATS,
    {
    }

    /// All counts at zero.
    pub fn new() -> (r: Self)
        ensures
            r@ == zero_counts(),
            r@.len() == 17,
            forall|i: int| 0 <= i < 17 ==> #[trigger] r@[i] == 0,
    {
        let r = Counters { counts: [0u64; N_STATS] };
        assert(r@ =~= zero_counts());
        r
    }
}

/// Counts one event of the kind `s`.
pub fn inc(counters: &mut Counters, s: Stat)
    ensures
        final(counters)@ == counted(old(counters)@, s),
{
    let i = s.index();
    let n = counters.counts[i];
    let next = if n == u64::MAX {
        0
    } else {
        n + 1
    };
    counters.counts[i] = next;
    assert(counters@ =~= counted(old(counters)@, s));
}

/// All counts, in their places.
pub fn snapshot(counters: &Counters) -> (r: [u64; N_STATS])
    ensures
        r@ == counters@,
{
    counters.counts
}

/// An event is counted once, under its own kind and under no other. After the largest number a
/// count starts again at zero.
pub proof fn law_inc_counts_one(counts: Seq<u64>, s: Stat, other: Stat)
    requires
        counts.len() == N_STATS,
    ensures
        counts[s.place()] < 0xffff_ffff_ffff_ffff ==> counted(counts, s)[s.place()]
            == counts[s.place()] + 1,
        counts[s.place()] == 0xffff_ffff_ffff_ffff ==> counted(counts, s)[s.place()] == 0,
        other != s ==> counted(counts, s)[other.place()] == counts[other.place()],
        counted(counts, s).len() == N_STATS,
{
    law_places_are_exact(s, s.place());
    law_places_are_exact(other, other.place());
}

/// A line of the console text.
pub open spec fn console_line(name: Seq<char>, n: nat) -> Seq<char> {
    name + ": "@ + crate::text::decimal(n) + "\n"@
}

/// The lines of the first `n` counters.
pub open spec fn counter_lines(counts: Seq<u64>, n: int) -> Seq<char>
    decreases n,
{
    if n <= 0 {
        Seq::empty()
    } else {
        counter_lines(counts, n - 1) + console_line(stat_at(n - 1).label(), counts[n - 1] as nat)
    }
}

/// The console text: a line for each counter, then a line for the size of each table.
pub open spec fn console_text(counts: Seq<u64>, pending: nat, ws_peers: nat, ids: nat) -> Seq<char> {
    counter_lines(counts, N_STATS as int) + console_line("pending_udp_punch"@, pending)
        + console_line("ws_peers"@, ws_peers) + console_line("heartbeat_ids"@, ids)
}

fn append_line(text: &mut String, name: &str, n: u64)
    ensures
        final(text)@ == old(text)@ + console_line(name@, n as nat),
{
    text.append(name);
    text.append(": ");
    text.append(decimal_text(n).as_str());
    text.append("\n");
    assert(text@ =~= old(text)@ + console_line(name@, n as nat));
}

/// Text for the local console: the counters and the sizes of the three tables. With `reset`, the
/// counters start again from zero.
pub fn stats_text(
    counters: &mut Counters,
    pending: usize,
    ws_peers: usize,
    heartbeat_ids: usize,
    reset: bool,
) -> (r: String)
    ensures
        r@ == console_text(
            old(counters)@,
            pending as nat,
            ws_peers as nat,
            heartbeat_ids as nat,
        ),
        final(counters)@ == if reset {
            zero_counts()
        } else {
            old(counters)@
        },
        reset ==> forall|i: int| 0 <= i < 17 ==> #[trigger] final(counters)@[i] == 0,
{
    let values = snapshot(counters);
    let mut res = String::new();
    let mut i: usize = 0;
    while i < N_STATS
        invariant
            i <= N_STATS,
            res@ == counter_lines(values@, i as int),
        decreases N_STATS - i,
    {
        append_line(&mut res, name_at(i), values[i]);
        i += 1;
    }
    append_line(&mut res, "pending_udp_punch", pending as u64);
    append_line(&mut res, "ws_peers", ws_peers as u64);
    append_line(&mut res, "heartbeat_ids", heartbeat_ids as u64);
    if reset {
        *counters = Counters::new();
    }
    res
}

/// What the log says of one counter that went up.
pub open spec fn delta_part(name: Seq<char>, by: nat) -> Seq<char> {
    name + "=+"@ + crate::text::decimal(by)
}

/// What the log says of those among the first `n` counters that went up, in their order.
pub open spec fn delta_parts(last: Seq<u64>, now: Seq<u64>, n: int) -> Seq<Seq<char>>
    decreases n,
{
    if n <= 0 {
        Seq::empty()
    } else if now[n - 1] > last[n - 1] {
        delta_parts(last, now, n - 1).push(
            delta_part(stat_at(n - 1).label(), (now[n - 1] - last[n - 1]) as nat),
        )
    } else {
        delta_parts(last, now, n - 1)
    }
}

/// `parts`, one after the other, with a space between two.
pub open spec fn spaced(parts: Seq<Seq<char>>) -> Seq<char>
    decreases parts.len(),
{
    if parts.len() == 0 {
        Seq::empty()
    } else if parts.len() == 1 {
        parts[0]
    } else {
        spaced(parts.drop_last()) + " "@ + parts.last()
    }
}

/// What to log between two snapshots: the counters that went up and by how much, or nothing where
/// none did.
pub fn stats_delta(last: &[u64; N_STATS], now: &[u64; N_STATS]) -> (r: Option<String>)
    ensures
        match r {
            Some(text) => delta_parts(last@, now@, N_STATS as int).len() > 0 && text@ == spaced(
                delta_parts(last@, now@, N_STATS as int),
            ),
            None => delta_parts(last@, now@, N_STATS as int).len() == 0,
        },
{
    let mut text = String::new();
    let mut empty = true;
    let mut i: usize = 0;
    while i < N_STATS
        invariant
            i <= N_STATS,
            empty == (delta_parts(last@, now@, i as int).len() == 0),
            text@ == spaced(delta_parts(last@, now@, i as int)),
        decreases N_STATS - i,
    {
        let (n, l) = (now[i], last[i]);
        if n > l {
            let ghost before = delta_parts(last@, now@, i as int);
            let ghost start = text@;
            let ghost part = delta_part(stat_at(i as int).label(), (n - l) as nat);
            if !empty {
                text.append(" ");
            }
            text.append(name_at(i));
            text.append("=+");
            text.append(decimal_text(n - l).as_str());
            proof {
                assert(before.push(part).drop_last() =~= before);
                if empty {
                    assert(text@ =~= part);
                } else {
                    assert(text@ =~= start + " "@ + part);
                }
            }
            empty = false;
        }
        i += 1;
    }
    if empty {
        None
    } else {
        Some(text)
    }
}

/// Exactly the counters that went up are logged: where all stayed or fell, nothing is.
pub proof fn law_delta_is_silent_without_growth(last: Seq<u64>, now: Seq<u64>, n: int)
    requires
        0 <= n <= N_STATS,
        last.len() == N_STATS,
        now.len() == N_STATS,
    ensures
        delta_parts(last, now, n).len() == 0 <==> forall|i: int|
            0 <= i < n ==> #[trigger] now[i] <= last[i],
    decreases n,
{
    if n > 0 {
        law_delta_is_silent_without_growth(last, now, n - 1);
        assert(now[n - 1] > last[n - 1] || now[n - 1] <= last[n - 1]);
    }
}

/// The console text is made of lines, each a name, a colon, a space, the number in decimal and the
/// end of the line: one for each counter in its place, then three for the sizes of the tables.
pub proof fn law_console_text_is_made_of_lines(
    counts: Seq<u64>,
    pending: nat,
    ws_peers: nat,
    ids: nat,
)
    requires
        counts.len() == 17,
    ensures
        console_text(counts, pending, ws_peers, ids) == Seq::new(
            17,
            |i: int|
                stat_at(i).label() + ": "@ + crate::text::decimal(counts[i] as nat) + "\n"@,
        ).flatten_alt() + ("pending_udp_punch"@ + ": "@ + crate::text::decimal(pending) + "\n"@) + (
        "ws_peers"@ + ": "@ + crate::text::decimal(ws_peers) + "\n"@) + ("heartbeat_ids"@ + ": "@
            + crate::text::decimal(ids) + "\n"@),
{
    lemma_counter_lines(counts, 17);
}

proof fn lemma_counter_lines(counts: Seq<u64>, n: nat)
    ensures
        counter_lines(counts, n as int) == Seq::new(
            n,
            |i: int|
                stat_at(i).label() + ": "@ + crate::text::decimal(counts[i] as nat) + "\n"@,
        ).flatten_alt(),
    decreases n,
{
    if n > 0 {
        let f = |i: int|
            stat_at(i).label() + ": "@ + crate::text::decimal(counts[i] as nat) + "\n"@;
        lemma_counter_lines(counts, (n - 1) as nat);
        assert(Seq::new(n, f).drop_last() =~= Seq::new((n - 1) as nat, f));
    }
}

/// What the log says: as many parts as counters went up, and for each of those, behind the parts of
/// those before it, its name, `=+` and by how much it went up.
pub proof fn law_log_says_what_went_up(last: Seq<u64>, now: Seq<u64>, n: int, i: int)
    requires
        0 <= i < n <= 17,
        last.len() == 17,
        now.len() == 17,
    ensures
        delta_parts(last, now, n).len() == vstd::set_lib::set_int_range(0, n).filter(
            |j: int| now[j] > last[j],
        ).len(),
        now[i] > last[i] ==> {
            let before = vstd::set_lib::set_int_range(0, i).filter(
                |j: int| now[j] > last[j],
            ).len() as int;
            &&& before < delta_parts(last, now, n).len()
            &&& delta_parts(last, now, n)[before] == stat_at(i).label() + "=+"@
                + crate::text::decimal((now[i] - last[i]) as nat)
        },
    decreases n,
{
    lemma_grown(last, now, n);
    lemma_grown(last, now, i);
    if i < n - 1 {
        law_log_says_what_went_up(last, now, n - 1, i);
    } else {
        lemma_grown(last, now, n - 1);
    }
}

/// There are as many parts as counters that went up.
proof fn lemma_grown(last: Seq<u64>, now: Seq<u64>, n: int)
    requires
        0 <= n <= 17,
    ensures
        delta_parts(last, now, n).len() == vstd::set_lib::set_int_range(0, n).filter(
            |j: int| now[j] > last[j],
        ).len(),
    decreases n,
{
    let grown = |j: int| now[j] > last[j];
    let set = vstd::set_lib::set_int_range(0, n).filter(grown);
    vstd::set_lib::lemma_int_range(0, n);
    if n == 0 {
        assert(set =~= Set::<int>::empty());
    } else {
        lemma_grown(last, now, n - 1);
        vstd::set_lib::lemma_int_range(0, n - 1);
        let less = vstd::set_lib::set_int_range(0, n - 1).filter(grown);
        vstd::set_lib::set_int_range(0, n - 1).lemma_len_filter(grown);
        if now[n - 1] > last[n - 1] {
            assert(set =~= less.insert(n - 1));
        } else {
            assert(set =~= less);
        }
    }
}

/// Parts are joined by single spaces: none gives no text, one gives itself, and the text of parts
/// that follow others is the text of those, a space, and their own.
pub proof fn law_parts_are_joined_by_spaces(
    part: Seq<char>,
    first: Seq<Seq<char>>,
    second: Seq<Seq<char>>,
)
    ensures
        spaced(Seq::<Seq<char>>::empty()) == Seq::<char>::empty(),
        spaced(seq![part]) == part,
        first.len() > 0 && second.len() > 0 ==> spaced(first + second) == spaced(first) + " "@
            + spaced(second),
    decreases second.len(),
{
    if first.len() > 0 && second.len() > 0 {
        let rest = second.drop_last();
        assert((first + second).drop_last() =~= first + rest);
        assert((first + second).last() == second.last());
        if rest.len() > 0 {
            law_parts_are_joined_by_spaces(part, first, rest);
            assert(spaced(first) + " "@ + (spaced(rest) + " "@ + second.last()) =~= spaced(first)
                + " "@ + spaced(rest) + " "@ + second.last());
        } else {
            assert(first + rest =~= first);
        }
    }
}

} // verus!
