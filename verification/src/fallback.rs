//! The heartbeat API: a client with no UDP registration is told to use WebSocket.

use crate::heartbeat::{
    hb_age_at, hb_forget, udp_seen_recently_at, valid_id, FirstSeen, UdpSeen,
    FALLBACK_AFTER_SECONDS, REG_FRESH_SECONDS, STARTUP_GRACE_SECONDS,
};
use crate::stats::{inc, Counters, Stat};
use crate::switches::{ws_register_enabled, Switches};
use crate::time::{Clock, SECOND};
use crate::ws::{ws_peer_exists, WsPeers};
use vstd::prelude::*;
use vstd::string::*;

verus! {

/// What the server knows before it asks the peer table: the client is fine as it is, or its
/// registration has to be looked up.
#[derive(Clone, Copy, Debug, PartialEq, Eq, Structural)]
pub enum WsCheck {
    Stay,
    LookUp,
}

/// Whether any client may be told: registration over WebSocket is on, and the server has run long
/// enough. Telling a client to use WebSocket where it cannot register would take it offline.
pub open spec fn may_tell(switches: Switches, uptime: u128) -> bool {
    switches.ws_register && uptime >= STARTUP_GRACE_SECONDS * SECOND
}

/// Whether the client was heard of where it should be: it has a WebSocket route, or a UDP
/// registration packet of it came lately.
pub open spec fn is_reachable(
    ws: crate::ws::WsState,
    seen: crate::heartbeat::Heard,
    id: Seq<char>,
    now_seen: u128,
) -> bool {
    ws.routes.contains_key(id) || seen.seen_recently(id, now_seen)
}

/// The first step for `id`, and what it leaves of the first heartbeats: those of a client that is
/// reachable are forgotten.
pub open spec fn checked(
    switches: Switches,
    uptime: u128,
    ws: crate::ws::WsState,
    seen: crate::heartbeat::Heard,
    now_seen: u128,
    first: crate::heartbeat::Heard,
    id: Seq<char>,
) -> (WsCheck, crate::heartbeat::Heard) {
    if !may_tell(switches, uptime) {
        (WsCheck::Stay, first)
    } else if is_reachable(ws, seen, id, now_seen) {
        (WsCheck::Stay, first.forgotten(id))
    } else {
        (WsCheck::LookUp, first)
    }
}

/// Whether the peer table, which gives the age of the last registration of a known peer, shows a
/// fresh one.
pub open spec fn is_registered(reg_age: Option<u128>) -> bool {
    reg_age is Some && reg_age->0 < REG_FRESH_SECONDS * SECOND
}

/// The second step for `id`, and what it leaves of the first heartbeats.
pub open spec fn decided(
    first: crate::heartbeat::Heard,
    id: Seq<char>,
    reg_age: Option<u128>,
    now: u128,
) -> (bool, crate::heartbeat::Heard) {
    if is_registered(reg_age) {
        (false, first.forgotten(id))
    } else {
        (first.age(id, now) >= FALLBACK_AFTER_SECONDS * SECOND, first.beaten(id, now))
    }
}

/// `ws_check` at given times.
pub fn ws_check_at(
    switches: &Switches,
    uptime: u128,
    peers: &WsPeers,
    seen: &UdpSeen,
    now_seen: u128,
    first: &mut FirstSeen,
    id: &str,
) -> (r: WsCheck)
    requires
        peers.wf(),
        seen.wf(),
        old(first).wf(),
    ensures
        final(first).wf(),
        final(first).clock() == old(first).clock(),
        (r, final(first)@) == checked(
            *switches,
            uptime,
            peers@,
            seen@,
            now_seen,
            old(first)@,
            id@,
        ),
{
    if !ws_register_enabled(switches) || uptime < STARTUP_GRACE_SECONDS * SECOND {
        return WsCheck::Stay;
    }
    if ws_peer_exists(peers, id) || udp_seen_recently_at(seen, id, now_seen) {
        hb_forget(first, id);
        return WsCheck::Stay;
    }
    WsCheck::LookUp
}

/// The first step towards whether `id` should use WebSocket: what can be said without the peer
/// table. `started` was started with the server.
pub fn ws_check(
    switches: &Switches,
    started: &Clock,
    peers: &WsPeers,
    seen: &UdpSeen,
    first: &mut FirstSeen,
    id: &str,
) -> (r: WsCheck)
    requires
        peers.wf(),
        seen.wf(),
        old(first).wf(),
    ensures
        final(first).wf(),
        final(first).clock() == old(first).clock(),
        exists|uptime: u128, now_seen: u128|
            started.shows(uptime) && seen.clock().shows(now_seen) && (r, final(first)@) == #[trigger] checked(
                *switches,
                uptime,
                peers@,
                seen@,
                now_seen,
                old(first)@,
                id@,
            ),
{
    let uptime = started.read();
    let now_seen = seen.now();
    ws_check_at(switches, uptime, peers, seen, now_seen, first, id)
}

/// `ws_decide` at a given time.
pub fn ws_decide_at(first: &mut FirstSeen, id: &str, reg_age: Option<u128>, now: u128) -> (r: bool)
    requires
        old(first).wf(),
    ensures
        final(first).wf(),
        final(first).clock() == old(first).clock(),
        (r, final(first)@) == decided(old(first)@, id@, reg_age, now),
{
    let registered = match reg_age {
        Some(age) => age < REG_FRESH_SECONDS * SECOND,
        None => false,
    };
    if registered {
        hb_forget(first, id);
        return false;
    }
    hb_age_at(first, id, now) >= FALLBACK_AFTER_SECONDS * SECOND
}

/// The second step, after `ws_check` asked to look `id` up: `reg_age` is how long ago it last
/// registered, by the peer table, or none where that does not know it. True if the client should
/// use WebSocket.
pub fn ws_decide(first: &mut FirstSeen, id: &str, reg_age: Option<u128>) -> (r: bool)
    requires
        old(first).wf(),
    ensures
        final(first).wf(),
        final(first).clock() == old(first).clock(),
        exists|now: u128|
            old(first).clock().shows(now) && (r, final(first)@) == #[trigger] decided(old(first)@, id@, reg_age, now),
{
    let now = first.now();
    ws_decide_at(first, id, reg_age, now)
}

/// The text of the member `name` of the JSON object that `body` writes. None where `body` is not
/// JSON, or no object, or has no such member, or one that is no string.
pub uninterp spec fn json_text_member(body: Seq<u8>, name: Seq<char>) -> Option<Seq<char>>;

/// Calls `serde_json::from_slice`, looks `name` up in the value and takes it as a string by
/// `serde_json::Value::as_str`. The result depends on the two arguments alone and is named.
#[verifier::external_body]
fn parse_text_member(body: &[u8], name: &str) -> (r: Option<String>)
    ensures
        match r {
            Some(text) => json_text_member(body@, name@) == Some(text@),
            None => json_text_member(body@, name@) is None,
        },
{
    match serde_json::from_slice::<serde_json::Value>(body) {
        Ok(value) => value[name].as_str().map(|text| text.to_owned()),
        Err(_) => None,
    }
}

/// The id that a heartbeat is taken for: the one it gives, if that is valid.
pub open spec fn accepted_id(given: Option<Seq<char>>) -> Option<Seq<char>> {
    match given {
        Some(id) => if crate::heartbeat::is_valid_id(id) {
            Some(id)
        } else {
            None
        },
        None => None,
    }
}

/// The id that a heartbeat is taken for, from the one that it gives.
pub fn accept_id(given: Option<String>) -> (r: Option<String>)
    ensures
        match (r, given) {
            (Some(id), Some(text)) => accepted_id(Some(text@)) == Some(id@),
            (Some(_), None) => false,
            (None, Some(text)) => accepted_id(Some(text@)) is None,
            (None, None) => true,
        },
{
    match given {
        Some(id) => {
            if valid_id(id.as_str()) {
                Some(id)
            } else {
                None
            }
        },
        None => None,
    }
}

/// Counts a heartbeat and reads the id from its body. Without one, the reply is empty.
pub fn heartbeat_begin(counters: &mut Counters, body: &[u8]) -> (r: Option<String>)
    ensures
        final(counters)@ == crate::stats::counted(old(counters)@, Stat::ApiHeartbeat),
        match r {
            Some(id) => accepted_id(json_text_member(body@, "id"@)) == Some(id@),
            None => accepted_id(json_text_member(body@, "id"@)) is None,
        },
{
    inc(counters, Stat::ApiHeartbeat);
    accept_id(parse_text_member(body, "id"))
}

/// What a heartbeat is answered: an empty object, or the strategy that sets `allow-websocket`.
#[derive(Clone, Copy, Debug, PartialEq, Eq, Structural)]
pub enum HeartbeatReply {
    Empty,
    AllowWebSocket,
}

/// The reply to a heartbeat with an id, and its count.
pub fn heartbeat_end(counters: &mut Counters, use_ws: bool) -> (r: HeartbeatReply)
    ensures
        r == if use_ws {
            HeartbeatReply::AllowWebSocket
        } else {
            HeartbeatReply::Empty
        },
        final(counters)@ == if use_ws {
            crate::stats::counted(old(counters)@, Stat::ApiFallbackPushed)
        } else {
            old(counters)@
        },
{
    if use_ws {
        inc(counters, Stat::ApiFallbackPushed);
        return HeartbeatReply::AllowWebSocket;
    }
    HeartbeatReply::Empty
}

/// The two steps together: whether `id` is told to use WebSocket, and what is left of the first
/// heartbeats.
pub open spec fn should_use_ws(
    switches: Switches,
    uptime: u128,
    ws: crate::ws::WsState,
    seen: crate::heartbeat::Heard,
    now_seen: u128,
    first: crate::heartbeat::Heard,
    id: Seq<char>,
    reg_age: Option<u128>,
    now: u128,
) -> (bool, crate::heartbeat::Heard) {
    let (step, kept) = checked(switches, uptime, ws, seen, now_seen, first, id);
    match step {
        WsCheck::Stay => (false, kept),
        WsCheck::LookUp => decided(kept, id, reg_age, now),
    }
}

/// A client is told to use WebSocket exactly where it may be told at all, has no WebSocket route,
/// sent no UDP registration for two minutes, has no fresh registration, and has been sending
/// heartbeats for half a minute.
pub proof fn law_who_is_told(
    switches: Switches,
    uptime: u128,
    ws: crate::ws::WsState,
    seen: crate::heartbeat::Heard,
    now_seen: u128,
    first: crate::heartbeat::Heard,
    id: Seq<char>,
    reg_age: Option<u128>,
    now: u128,
)
    ensures
        should_use_ws(switches, uptime, ws, seen, now_seen, first, id, reg_age, now).0 <==> {
            &&& switches.ws_register
            &&& uptime >= 60_000_000_000
            &&& !ws.routes.contains_key(id)
            &&& !(seen.ids.contains_key(id) && now_seen < seen.ids[id] + 120_000_000_000)
            &&& !(reg_age is Some && reg_age->0 < 30_000_000_000)
            &&& first.ids.contains_key(id)
            &&& first.ids[id] + 30_000_000_000 <= now < first.ids[id] + 600_000_000_000
        },
{
}

/// What a heartbeat of `id` does to the first heartbeats: nothing where no client may be told, a
/// client that is reachable or registered is forgotten, and any other is counted.
pub open spec fn step_of(
    switches: Switches,
    uptime: u128,
    ws: crate::ws::WsState,
    seen: crate::heartbeat::Heard,
    now_seen: u128,
    id: Seq<char>,
    reg_age: Option<u128>,
    now: u128,
) -> crate::heartbeat::HbStep {
    if !may_tell(switches, uptime) {
        crate::heartbeat::HbStep::Keep
    } else if is_reachable(ws, seen, id, now_seen) || is_registered(reg_age) {
        crate::heartbeat::HbStep::Forget { id }
    } else {
        crate::heartbeat::HbStep::Beat { id, now }
    }
}

/// Every heartbeat is one of those steps.
pub proof fn law_heartbeat_is_a_step(
    switches: Switches,
    uptime: u128,
    ws: crate::ws::WsState,
    seen: crate::heartbeat::Heard,
    now_seen: u128,
    first: crate::heartbeat::Heard,
    id: Seq<char>,
    reg_age: Option<u128>,
    now: u128,
)
    ensures
        should_use_ws(switches, uptime, ws, seen, now_seen, first, id, reg_age, now).1
            == crate::heartbeat::stepped(
            first,
            step_of(switches, uptime, ws, seen, now_seen, id, reg_age, now),
        ),
{
}

/// A client that sends heartbeats but is never reachable nor registered is told from half a minute
/// after its first heartbeat on, and not before, whatever heartbeats of all clients come between
/// and whatever they do to the table, as long as none finds this client reachable or registered;
/// ten minutes after the first, the count starts again.
pub proof fn law_unreachable_client_is_told(
    switches: Switches,
    uptime: u128,
    ws: crate::ws::WsState,
    seen: crate::heartbeat::Heard,
    now_seen: u128,
    first: crate::heartbeat::Heard,
    id: Seq<char>,
    reg_age: Option<u128>,
    start: u128,
    steps: Seq<crate::heartbeat::HbStep>,
    now: u128,
)
    requires
        may_tell(switches, uptime),
        !is_reachable(ws, seen, id, now_seen),
        !is_registered(reg_age),
        !first.remembers(id, start),
        first.ids.contains_key(id) || first.made_room(id, start).ids.len()
            < crate::heartbeat::HB_CAP,
        forall|i: int|
            0 <= i < steps.len() ==> crate::heartbeat::spares(#[trigger] steps[i], id, start),
        now < start + 600_000_000_000,
    ensures
        should_use_ws(
            switches,
            uptime,
            ws,
            seen,
            now_seen,
            crate::heartbeat::stepped_all(first.beaten(id, start), steps),
            id,
            reg_age,
            now,
        ).0 == (now >= start + 30_000_000_000),
{
    crate::heartbeat::law_age_counts_from_the_first_heartbeat(first, id, start, steps, now);
}

/// With registration over WebSocket off, no client is ever told, and nothing is remembered of it.
pub proof fn law_off_tells_no_one(
    switches: Switches,
    uptime: u128,
    ws: crate::ws::WsState,
    seen: crate::heartbeat::Heard,
    now_seen: u128,
    first: crate::heartbeat::Heard,
    id: Seq<char>,
    reg_age: Option<u128>,
    now: u128,
)
    requires
        !switches.ws_register,
    ensures
        should_use_ws(switches, uptime, ws, seen, now_seen, first, id, reg_age, now) == (
            false,
            first,
        ),
{
}

/// A client that is found reachable or registered starts again: its next heartbeat, once it is
/// neither, is its first, and it is not told then, whatever heartbeats of others come between.
pub proof fn law_reachable_client_starts_again(
    switches: Switches,
    uptime: u128,
    ws: crate::ws::WsState,
    seen: crate::heartbeat::Heard,
    now_seen: u128,
    first: crate::heartbeat::Heard,
    id: Seq<char>,
    reg_age: Option<u128>,
    now: u128,
    steps: Seq<crate::heartbeat::HbStep>,
    next: u128,
)
    requires
        may_tell(switches, uptime),
        is_reachable(ws, seen, id, now_seen) || is_registered(reg_age),
        forall|i: int|
            0 <= i < steps.len() ==> !((#[trigger] steps[i]) is Beat && steps[i]->Beat_id == id),
    ensures
        ({
            let (told, kept) = should_use_ws(
                switches,
                uptime,
                ws,
                seen,
                now_seen,
                first,
                id,
                reg_age,
                now,
            );
            &&& !told
            &&& kept == first.forgotten(id)
            &&& crate::heartbeat::stepped_all(kept, steps).age(id, next) == 0
        }),
{
    crate::heartbeat::law_no_age_without_a_heartbeat(first.forgotten(id), id, steps, next);
}

/// A peer counts as registered for every age of its last registration below thirty seconds, and for
/// no other; one that the peer table does not know does not.
pub proof fn law_who_counts_as_registered(age: u128)
    ensures
        is_registered(Some(age)) <==> age < 30_000_000_000,
        !is_registered(None),
{
}

/// The first step asks to look the client up exactly where registration over WebSocket is on, the
/// server has run for a minute, and the client has neither a WebSocket route nor a UDP packet of
/// the last two minutes. It forgets the client's first heartbeat exactly where the client has one
/// of the two and the other conditions hold; otherwise it leaves the table alone.
pub proof fn law_first_step(
    switches: Switches,
    uptime: u128,
    ws: crate::ws::WsState,
    seen: crate::heartbeat::Heard,
    now_seen: u128,
    first: crate::heartbeat::Heard,
    id: Seq<char>,
)
    ensures
        ({
            let (step, kept) = checked(switches, uptime, ws, seen, now_seen, first, id);
            let judged = switches.ws_register && uptime >= 60_000_000_000;
            let reachable = ws.routes.contains_key(id) || seen.ids.contains_key(id) && now_seen
                < seen.ids[id] + 120_000_000_000;
            &&& step == WsCheck::LookUp <==> judged && !reachable
            &&& judged && reachable ==> kept.ids == first.ids.remove(id) && kept.last_sweep
                == first.last_sweep
            &&& !(judged && reachable) ==> kept == first
        }),
{
}

/// The second step tells a client exactly where it has no registration younger than thirty seconds
/// and its first heartbeat is in the table, thirty seconds old or more and less than ten minutes.
/// It forgets that heartbeat where there is such a registration, and otherwise counts this one.
pub proof fn law_second_step(
    first: crate::heartbeat::Heard,
    id: Seq<char>,
    reg_age: Option<u128>,
    now: u128,
)
    ensures
        ({
            let (told, kept) = decided(first, id, reg_age, now);
            let registered = reg_age is Some && reg_age->0 < 30_000_000_000;
            &&& told <==> !registered && first.ids.contains_key(id) && first.ids[id]
                + 30_000_000_000 <= now < first.ids[id] + 600_000_000_000
            &&& registered ==> kept.ids == first.ids.remove(id) && kept.last_sweep
                == first.last_sweep
            &&& !registered ==> kept == first.beaten(id, now)
        }),
{
}

/// A heartbeat is taken for the id that it gives exactly where that is 1 to 64 bytes long.
pub proof fn law_which_ids_are_accepted(id: Seq<char>)
    ensures
        1 <= vstd::utf8::encode_utf8(id).len() <= 64 ==> accepted_id(Some(id)) == Some(id),
        !(1 <= vstd::utf8::encode_utf8(id).len() <= 64) ==> accepted_id(Some(id)) is None,
        accepted_id(None) is None,
{
}

} // verus!
