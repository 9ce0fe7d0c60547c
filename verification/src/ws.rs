//! Peers registered over WebSocket, reachable by id on their own connection.

use crate::stats::{inc, Counters, Stat};
use crate::table::Table;
use bytes::Bytes;
use tokio::sync::mpsc::UnboundedSender;
use vstd::prelude::*;
use vstd::string::*;

verus! {

/// `tokio::sync::mpsc::UnboundedSender`, the sending half of a connection's queue. Nothing is
/// known of what is queued, nor of whether the receiving half is still there.
#[verifier::external_type_specification]
#[verifier::external_body]
#[verifier::reject_recursive_types(T)]
pub struct ExUnboundedSender<T>(UnboundedSender<T>);

/// Whether a call that queues `bytes` on `tx` may come back with `sent`. It says which bytes went
/// to which queue, not which of the two answers came back.
pub uninterp spec fn may_give(tx: UnboundedSender<Bytes>, bytes: Seq<u8>, sent: bool) -> bool;

/// Calls `tokio::sync::mpsc::UnboundedSender::send`, which queues `bytes` on `tx` without waiting,
/// and tells whether it did. The result is one that this call may give. It fails where the
/// receiving half is closed or gone, which only the connection knows: when that is, and when the
/// bytes come out at the other end, is left unsaid. (A queue that already holds half of
/// `usize::MAX` messages would abort the process.)
#[verifier::external_body]
fn queue(tx: &UnboundedSender<Bytes>, bytes: Bytes) -> (sent: bool)
    ensures
        may_give(*tx, crate::payload::bytes_of(bytes), sent),
{
    tx.send(bytes).is_ok()
}

/// The route to a peer: the connection it registered on.
pub struct WsPeer {
    pub conn_id: u64,
    pub tx: UnboundedSender<Bytes>,
}

/// The routes, by the id of the peer, and the id that the next connection gets.
#[verifier::ext_equal]
pub struct WsState {
    pub routes: Map<Seq<char>, WsPeer>,
    pub next_conn_id: u64,
}

impl WsState {
    /// The state after the connection of `tx` registered as the route to `id`.
    pub open spec fn added(self, id: Seq<char>, tx: UnboundedSender<Bytes>) -> Self {
        WsState {
            routes: self.routes.insert(id, WsPeer { conn_id: self.next_conn_id, tx }),
            next_conn_id: crate::stats::next_count(self.next_conn_id),
        }
    }

    /// Whether the route to `id` belongs to the connection `conn_id`.
    pub open spec fn belongs(self, id: Seq<char>, conn_id: u64) -> bool {
        self.routes.contains_key(id) && self.routes[id].conn_id == conn_id
    }

    /// The state without the route to `id`.
    pub open spec fn without(self, id: Seq<char>) -> Self {
        WsState { routes: self.routes.remove(id), ..self }
    }

    /// The state after the connection `conn_id` of `id` closed.
    pub open spec fn closed_conn(self, id: Seq<char>, conn_id: u64) -> Self {
        if self.belongs(id, conn_id) {
            self.without(id)
        } else {
            self
        }
    }

    /// The state after a message to `id` was queued, or could not be: then the route is gone.
    pub open spec fn settled(self, id: Seq<char>, sent: bool) -> Self {
        if self.routes.contains_key(id) && !sent {
            self.without(id)
        } else {
            self
        }
    }
}

/// The counts after a message to `id`.
pub open spec fn settled_counts(s: WsState, counts: Seq<u64>, id: Seq<char>, sent: bool) -> Seq<
    u64,
> {
    if !s.routes.contains_key(id) {
        counts
    } else if sent {
        crate::stats::counted(counts, Stat::WsRouted)
    } else {
        crate::stats::counted(counts, Stat::WsRouteLost)
    }
}

/// The peers that are reachable over WebSocket.
pub struct WsPeers {
    peers: Table<String, WsPeer>,
    next_conn_id: u64,
}

impl View for WsPeers {
    type V = WsState;

    closed spec fn view(&self) -> WsState {
        WsState { routes: self.peers@, next_conn_id: self.next_conn_id }
    }
}

impl WsPeers {
    /// The table is sound.
    pub closed spec fn wf(&self) -> bool {
        self.peers.wf()
    }

    /// No peer is reachable; the first connection gets the id 1.
    pub fn new() -> (r: Self)
        ensures
            r.wf(),
            r@ == (WsState { routes: Map::empty(), next_conn_id: 1 }),
    {
        WsPeers { peers: Table::new(), next_conn_id: 1 }
    }

    /// How many peers are reachable.
    pub fn len(&self) -> (r: usize)
        requires
            self.wf(),
        ensures
            r == self@.routes.len(),
    {
        self.peers.len()
    }
}

/// Registers the connection as the route to `id`, replacing an older one. Returns its conn id.
pub fn ws_peer_add(peers: &mut WsPeers, id: &str, tx: UnboundedSender<Bytes>) -> (r: u64)
    requires
        old(peers).wf(),
    ensures
        final(peers).wf(),
        r == old(peers)@.next_conn_id,
        final(peers)@ == old(peers)@.added(id@, tx),
{
    let conn_id = peers.next_conn_id;
    let next = if conn_id == u64::MAX {
        0
    } else {
        conn_id + 1
    };
    peers.next_conn_id = next;
    peers.peers.insert(id.to_owned(), WsPeer { conn_id, tx });
    conn_id
}

/// Removes the route if it still belongs to `conn_id`. True when this call removed it.
pub fn ws_peer_remove(peers: &mut WsPeers, id: &str, conn_id: u64) -> (r: bool)
    requires
        old(peers).wf(),
    ensures
        final(peers).wf(),
        r == old(peers)@.belongs(id@, conn_id),
        final(peers)@ == old(peers)@.closed_conn(id@, conn_id),
{
    let key = id.to_owned();
    let belongs = match peers.peers.get(&key) {
        Some(p) => p.conn_id == conn_id,
        None => false,
    };
    if belongs {
        peers.peers.remove(&key);
    }
    belongs
}

/// Whether `id` is reachable over WebSocket.
pub fn ws_peer_exists(peers: &WsPeers, id: &str) -> (r: bool)
    requires
        peers.wf(),
    ensures
        r == peers@.routes.contains_key(id@),
{
    peers.peers.contains_key(&id.to_owned())
}

/// The queue of the connection that `id` is reachable on, if any.
pub fn ws_peer_route<'a>(peers: &'a WsPeers, id: &str) -> (r: Option<&'a UnboundedSender<Bytes>>)
    requires
        peers.wf(),
    ensures
        r is Some == peers@.routes.contains_key(id@),
        r is Some ==> *r->0 == peers@.routes[id@].tx,
{
    match peers.peers.get(&id.to_owned()) {
        Some(p) => Some(&p.tx),
        None => None,
    }
}

/// What a message to `id` leaves behind and is answered, once it is known whether the connection
/// took it: see `ws_peer_send`.
pub fn ws_peer_settle(peers: &mut WsPeers, counters: &mut Counters, id: &str, sent: bool) -> (r:
    Option<bool>)
    requires
        old(peers).wf(),
    ensures
        final(peers).wf(),
        r == if old(peers)@.routes.contains_key(id@) {
            Some(sent)
        } else {
            None
        },
        final(peers)@ == old(peers)@.settled(id@, sent),
        final(counters)@ == settled_counts(old(peers)@, old(counters)@, id@, sent),
{
    if !ws_peer_exists(peers, id) {
        return None;
    }
    if sent {
        inc(counters, Stat::WsRouted);
    } else {
        peers.peers.remove(&id.to_owned());
        inc(counters, Stat::WsRouteLost);
    }
    Some(sent)
}

/// Queues `bytes` on the connection that `id` is reachable on.
/// None: `id` is not a WebSocket peer (use UDP as usual). Some(true): queued on its connection.
/// Some(false): the connection is gone; the caller should answer that the peer is offline.
pub fn ws_peer_send(peers: &mut WsPeers, counters: &mut Counters, id: &str, bytes: Bytes) -> (r:
    Option<bool>)
    requires
        old(peers).wf(),
    ensures
        final(peers).wf(),
        r is Some == old(peers)@.routes.contains_key(id@),
        exists|sent: bool|
            (r is Some ==> r == Some(sent) && may_give(
                old(peers)@.routes[id@].tx,
                crate::payload::bytes_of(bytes),
                sent,
            )) && final(peers)@ == #[trigger] old(peers)@.settled(id@, sent) && final(counters)@
                == settled_counts(old(peers)@, old(counters)@, id@, sent),
{
    let sent = match ws_peer_route(peers, id) {
        Some(tx) => queue(tx, bytes),
        None => false,
    };
    ws_peer_settle(peers, counters, id, sent)
}

/// A connection that registered is the route to its peer, and its own closing takes the route
/// away.
pub proof fn law_registered_until_closed(s: WsState, id: Seq<char>, tx: UnboundedSender<Bytes>)
    ensures
        s.added(id, tx).belongs(id, s.next_conn_id),
        s.added(id, tx).routes[id].tx == tx,
        !s.added(id, tx).closed_conn(id, s.next_conn_id).routes.contains_key(id),
{
}

/// A route that was lost is not tried again: the peer is no longer a WebSocket peer.
pub proof fn law_lost_route_is_gone(s: WsState, id: Seq<char>)
    ensures
        !s.settled(id, false).routes.contains_key(id),
        s.settled(id, true) == s,
{
    if !s.routes.contains_key(id) {
        assert(s.settled(id, false) == s);
    }
}

/// What changes the routes: a connection registers, a connection closes, or it is known whether
/// the connection took a message.
pub enum WsStep {
    Add { id: Seq<char>, tx: UnboundedSender<Bytes> },
    Close { id: Seq<char>, conn_id: u64 },
    Settle { id: Seq<char>, sent: bool },
}

impl WsStep {
    /// The peer that the step is about.
    pub open spec fn id(self) -> Seq<char> {
        match self {
            WsStep::Add { id, .. } => id,
            WsStep::Close { id, .. } => id,
            WsStep::Settle { id, .. } => id,
        }
    }

    /// Whether `id` registers.
    pub open spec fn registers(self, id: Seq<char>) -> bool {
        self is Add && self.id() == id
    }

    /// Whether the step takes the route to `id` away where it finds `s`: a removal that succeeds,
    /// or a message that is lost.
    pub open spec fn removes(self, s: WsState, id: Seq<char>) -> bool {
        match self {
            WsStep::Add { .. } => false,
            WsStep::Close { id: i, conn_id } => i == id && s.belongs(id, conn_id),
            WsStep::Settle { id: i, sent } => i == id && !sent,
        }
    }
}

/// The state after one step.
pub open spec fn stepped(s: WsState, step: WsStep) -> WsState {
    match step {
        WsStep::Add { id, tx } => s.added(id, tx),
        WsStep::Close { id, conn_id } => s.closed_conn(id, conn_id),
        WsStep::Settle { id, sent } => s.settled(id, sent),
    }
}

/// The state after `steps`, in their order.
pub open spec fn stepped_all(s: WsState, steps: Seq<WsStep>) -> WsState
    decreases steps.len(),
{
    if steps.len() == 0 {
        s
    } else {
        stepped(stepped_all(s, steps.drop_last()), steps.last())
    }
}

/// How many registrations are among `steps`.
pub open spec fn registrations(steps: Seq<WsStep>) -> nat
    decreases steps.len(),
{
    if steps.len() == 0 {
        0
    } else {
        registrations(steps.drop_last()) + if steps.last() is Add {
            1nat
        } else {
            0
        }
    }
}

/// Whether step `k` is the last registration of `id` and nothing took the route away since. A `k`
/// of -1 stands for a route that was there before the first step.
pub open spec fn stands_since(s: WsState, steps: Seq<WsStep>, id: Seq<char>, k: int) -> bool {
    &&& -1 <= k < steps.len()
    &&& if k == -1 {
        s.routes.contains_key(id)
    } else {
        steps[k].registers(id)
    }
    &&& forall|j: int|
        k < j < steps.len() ==> !(#[trigger] steps[j]).registers(id) && !steps[j].removes(
            stepped_all(s, steps.take(j)),
            id,
        )
}

/// The route that a registration as step `k` made, or that was there before the first step.
pub open spec fn route_made(s: WsState, steps: Seq<WsStep>, id: Seq<char>, k: int) -> WsPeer {
    if k == -1 {
        s.routes[id]
    } else {
        WsPeer { conn_id: stepped_all(s, steps.take(k)).next_conn_id, tx: steps[k]->Add_tx }
    }
}

/// What stands after all steps but the last, and is neither made anew nor taken away by the last,
/// stands after all; and what stands after all without being made by the last stood before it.
proof fn lemma_stands_one_more(s: WsState, steps: Seq<WsStep>, id: Seq<char>, k: int)
    requires
        steps.len() > 0,
        k < steps.len() - 1,
    ensures
        stands_since(s, steps, id, k) == (stands_since(s, steps.drop_last(), id, k)
            && !steps.last().registers(id) && !steps.last().removes(
            stepped_all(s, steps.drop_last()),
            id,
        )),
        0 <= k ==> route_made(s, steps, id, k) == route_made(s, steps.drop_last(), id, k),
{
    let rest = steps.drop_last();
    let n = rest.len() as int;
    assert(steps.take(n) =~= rest);
    assert(steps[n] == steps.last());
    assert forall|j: int| 0 <= j < n implies #[trigger] rest[j] == steps[j] && rest.take(j)
        == steps.take(j) by {
        assert(rest.take(j) =~= steps.take(j));
    }
    if stands_since(s, steps, id, k) {
        assert(!steps[n].registers(id));
        assert forall|j: int| k < j < n implies !(#[trigger] rest[j]).registers(id)
            && !rest[j].removes(stepped_all(s, rest.take(j)), id) by {
            assert(!steps[j].registers(id));
        }
    }
    if stands_since(s, rest, id, k) && !steps.last().registers(id) && !steps.last().removes(
        stepped_all(s, rest),
        id,
    ) {
        assert forall|j: int| k < j < steps.len() implies !(#[trigger] steps[j]).registers(id)
            && !steps[j].removes(stepped_all(s, steps.take(j)), id) by {
            if j < n {
                assert(!rest[j].registers(id));
            }
        }
    }
}

/// A peer has a route exactly while, since its last registration, no removal of it succeeded and no
/// message to it was lost, and the route is to the connection of that registration, whatever
/// registrations, closings and messages of this peer and of others come.
pub proof fn law_route_stands_since_registration(s: WsState, steps: Seq<WsStep>, id: Seq<char>)
    ensures
        stepped_all(s, steps).routes.contains_key(id) <==> exists|k: int|
            stands_since(s, steps, id, k),
        forall|k: int| #[trigger]
            stands_since(s, steps, id, k) ==> stepped_all(s, steps).routes[id] == route_made(
                s,
                steps,
                id,
                k,
            ),
    decreases steps.len(),
{
    if steps.len() == 0 {
        if s.routes.contains_key(id) {
            assert(stands_since(s, steps, id, -1));
        }
    } else {
        let rest = steps.drop_last();
        let last = steps.last();
        let n = rest.len() as int;
        let mid = stepped_all(s, rest);
        let end = stepped_all(s, steps);
        law_route_stands_since_registration(s, rest, id);
        assert(steps[n] == last);
        assert(steps.take(n) =~= rest);
        if last.registers(id) {
            assert(stands_since(s, steps, id, n));
        }
        assert forall|k: int| #[trigger] stands_since(s, steps, id, k) implies {
            &&& end.routes.contains_key(id)
            &&& end.routes[id] == route_made(s, steps, id, k)
        } by {
            if k < n {
                lemma_stands_one_more(s, steps, id, k);
                assert(mid.routes.contains_key(id));
            }
        }
        if end.routes.contains_key(id) && !last.registers(id) {
            assert(mid.routes.contains_key(id));
            let k = choose|k: int| stands_since(s, rest, id, k);
            lemma_stands_one_more(s, steps, id, k);
            assert(stands_since(s, steps, id, k));
        }
    }
}

/// What happens to other peers leaves a route as it is, or leaves a peer without one.
pub proof fn law_peers_do_not_share(s: WsState, steps: Seq<WsStep>, other: Seq<char>)
    requires
        forall|i: int| 0 <= i < steps.len() ==> (#[trigger] steps[i]).id() != other,
    ensures
        stepped_all(s, steps).routes.contains_key(other) == s.routes.contains_key(other),
        s.routes.contains_key(other) ==> stepped_all(s, steps).routes[other] == s.routes[other],
    decreases steps.len(),
{
    if steps.len() > 0 {
        let rest = steps.drop_last();
        assert forall|i: int| 0 <= i < rest.len() implies (#[trigger] rest[i]).id() != other by {
            assert(rest[i] == steps[i]);
        }
        law_peers_do_not_share(s, rest, other);
        assert(steps[steps.len() - 1] == steps.last());
    }
}

/// Connection ids count up from one registration to the next, whatever closes or is lost between,
/// and start again only after the largest number: two registrations have different ids unless
/// that many others lie between.
pub proof fn law_connection_ids_count_up(s: WsState, steps: Seq<WsStep>)
    ensures
        stepped_all(s, steps).next_conn_id == (s.next_conn_id + registrations(steps))
            % 0x1_0000_0000_0000_0000,
        0 < registrations(steps) < 0x1_0000_0000_0000_0000 ==> stepped_all(s, steps).next_conn_id
            != s.next_conn_id,
    decreases steps.len(),
{
    if steps.len() > 0 {
        law_connection_ids_count_up(s, steps.drop_last());
    }
}

/// A registration among `steps` counts one more than those before it.
proof fn lemma_registrations_before(steps: Seq<WsStep>, k: int)
    requires
        0 <= k < steps.len(),
        steps[k] is Add,
    ensures
        registrations(steps.take(k)) + 1 <= registrations(steps),
    decreases steps.len(),
{
    let rest = steps.drop_last();
    if k == rest.len() {
        assert(steps.take(k) =~= rest);
    } else {
        assert(rest[k] == steps[k]);
        assert(rest.take(k) =~= steps.take(k));
        lemma_registrations_before(rest, k);
    }
}

/// When a peer has registered again since, the closing of its older connection takes nothing away,
/// whatever else happened in between, unless so many registrations came that the ids start again.
pub proof fn law_old_connection_cannot_unregister(
    s: WsState,
    id: Seq<char>,
    tx: UnboundedSender<Bytes>,
    steps: Seq<WsStep>,
)
    requires
        exists|k: int| 0 <= k < steps.len() && (#[trigger] steps[k]).registers(id),
        registrations(steps) < 0x1_0000_0000_0000_0000,
    ensures
        ({
            let end = stepped_all(s.added(id, tx), steps);
            !end.belongs(id, s.next_conn_id) && end.closed_conn(id, s.next_conn_id) == end
        }),
{
    let start = s.added(id, tx);
    let end = stepped_all(start, steps);
    law_route_stands_since_registration(start, steps, id);
    if end.routes.contains_key(id) {
        let again = choose|k: int| 0 <= k < steps.len() && (#[trigger] steps[k]).registers(id);
        let k = choose|k: int| stands_since(start, steps, id, k);
        assert(again <= k);
        law_connection_ids_count_up(start, steps.take(k));
        lemma_registrations_before(steps, k);
    }
}

/// A registration gives the connection the next id, whatever the peer, makes it the route, and
/// moves the next id up by one; after the largest it starts again at zero.
pub proof fn law_what_a_registration_does(
    s: WsState,
    id: Seq<char>,
    tx: UnboundedSender<Bytes>,
    other: Seq<char>,
)
    ensures
        ({
            let end = s.added(id, tx);
            &&& end.routes.contains_key(id)
            &&& end.routes[id].conn_id == s.next_conn_id
            &&& end.routes[id].tx == tx
            &&& end.next_conn_id == if s.next_conn_id == 0xffff_ffff_ffff_ffff {
                0
            } else {
                s.next_conn_id + 1
            }
            &&& other != id ==> end.routes.contains_key(other) == s.routes.contains_key(other)
                && end.routes[other] == s.routes[other]
        }),
{
}

/// The closing of a connection takes the route to the peer away exactly where the route is there
/// and has that connection's id; otherwise nothing changes.
pub proof fn law_what_a_closing_does(s: WsState, id: Seq<char>, conn_id: u64)
    ensures
        s.belongs(id, conn_id) <==> s.routes.contains_key(id) && s.routes[id].conn_id == conn_id,
        s.routes.contains_key(id) && s.routes[id].conn_id == conn_id ==> s.closed_conn(
            id,
            conn_id,
        ).routes == s.routes.remove(id),
        !(s.routes.contains_key(id) && s.routes[id].conn_id == conn_id) ==> s.closed_conn(
            id,
            conn_id,
        ).routes == s.routes,
        s.closed_conn(id, conn_id).next_conn_id == s.next_conn_id,
{
}

/// A message that the connection took leaves every route; one that was lost takes away the route
/// to its peer and no other. With a route, either is counted, each under its own name; without,
/// nothing is.
pub proof fn law_what_a_message_does(s: WsState, counts: Seq<u64>, id: Seq<char>, sent: bool)
    ensures
        s.settled(id, sent).routes == if sent {
            s.routes
        } else {
            s.routes.remove(id)
        },
        s.settled(id, sent).next_conn_id == s.next_conn_id,
        s.routes.contains_key(id) && sent ==> settled_counts(s, counts, id, sent)
            == crate::stats::counted(counts, Stat::WsRouted),
        s.routes.contains_key(id) && !sent ==> settled_counts(s, counts, id, sent)
            == crate::stats::counted(counts, Stat::WsRouteLost),
        !s.routes.contains_key(id) ==> settled_counts(s, counts, id, sent) == counts,
{
    if !s.routes.contains_key(id) {
        assert(s.routes.remove(id) =~= s.routes);
    }
}

} // verus!
