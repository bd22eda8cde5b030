//! Peers management of the libp2p transport: which peers we want to be
//! connected to, dialing them, queuing messages while they are disconnected,
//! and dispatching incoming and outgoing messages. Peers are identified by a
//! numeric key, connections by their numeric id, and times are milliseconds.
use vstd::prelude::*;
use crate::sequences::lemma_filter_take_step;

verus! {

/// Maximum number of messages queued for a disconnected peer.
pub const MAX_PEER_QUEUE: usize = 20;

/// Expiration of a message queued for a disconnected peer when none is given.
pub const DEFAULT_DIALING_MESSAGE_TIMEOUT_MS: u64 = 5_000;

/// Time after which a peer that got dialed can be dialed again.
pub const REDIAL_INTERVAL_MS: u64 = 30_000;

/// Time between two checks for peers to dial.
pub const REDIAL_CHECK_INTERVAL_MS: u64 = 5_000;

pub type PeerKey = u64;
pub type ConnectionId = u64;

#[derive(Debug, Copy, Clone, PartialEq, Eq, Structural)]
pub enum PeerStatus {
    Connected,
    Disconnected,
}

/// Connection handler to which an outgoing message is given.
#[derive(Debug, Copy, Clone, PartialEq, Eq, Structural)]
pub enum NotifyHandler {
    One(ConnectionId),
    Any,
}

/// Incoming message from a peer.
#[derive(Debug)]
pub struct ExocoreBehaviourMessage<M> {
    pub source: PeerKey,
    pub connection: ConnectionId,
    pub message: M,
}

/// Event emitted by the behaviour to the transport.
#[derive(Debug)]
pub enum ExocoreBehaviourEvent<M> {
    Message(ExocoreBehaviourMessage<M>),
    PeerStatus(PeerKey, PeerStatus),
}

/// Action for the swarm to execute.
#[derive(Debug)]
pub enum BehaviourAction<M> {
    /// Give an outgoing message to a connection handler of the peer.
    NotifyHandler { peer_id: PeerKey, handler: NotifyHandler, event: M },
    /// Dial the peer, unless it is already being dialed.
    Dial { peer_id: PeerKey },
    /// Close all connections with the peer.
    CloseConnection { peer_id: PeerKey },
    /// Emit an event to the transport.
    GenerateEvent(ExocoreBehaviourEvent<M>),
}

/// Action queued for a peer that may not be connected yet. It gets discarded
/// if it expires before the peer gets connected.
#[derive(Debug)]
pub struct QueuedPeerEvent<M> {
    pub event: BehaviourAction<M>,
    pub expiration: Option<u64>,
}

/// A peer that the behaviour connects with, or may be connecting to.
#[derive(Debug)]
pub struct Peer<M> {
    peer_id: PeerKey,
    addresses: Vec<String>,
    temp_queue: Vec<QueuedPeerEvent<M>>,
    status: PeerStatus,
    last_dial: Option<u64>,
}

/// State of a peer.
pub struct PeerView<M> {
    pub peer_id: PeerKey,
    pub addresses: Seq<Seq<char>>,
    /// Messages queued while the peer is disconnected, oldest first.
    pub queue: Seq<QueuedPeerEvent<M>>,
    pub status: PeerStatus,
    pub last_dial: Option<u64>,
}

impl<M> Peer<M> {
    pub closed spec fn view(&self) -> PeerView<M> {
        PeerView {
            peer_id: self.peer_id,
            addresses: addresses_view(self.addresses@),
            queue: self.temp_queue@,
            status: self.status,
            last_dial: self.last_dial,
        }
    }
}

/// State of the behaviour: its peers in the order they got added, the actions
/// for the swarm in the order they get executed, and the last time peers to
/// dial were looked for.
pub struct BehaviourState<M> {
    pub peers: Seq<PeerView<M>>,
    pub actions: Seq<BehaviourAction<M>>,
    pub last_redial_check: Option<u64>,
}

pub open spec fn has_expired<M>(e: QueuedPeerEvent<M>, now: u64) -> bool {
    e.expiration matches Some(exp) && exp <= now
}

pub open spec fn addresses_view(addresses: Seq<String>) -> Seq<Seq<char>> {
    addresses.map_values(|a: String| a@)
}

/// Position of the peer with the given key.
pub open spec fn peer_index<M>(peers: Seq<PeerView<M>>, peer_id: PeerKey) -> Option<int> {
    if exists|i: int| 0 <= i < peers.len() && #[trigger] peers[i].peer_id == peer_id {
        Some(choose|i: int| 0 <= i < peers.len() && #[trigger] peers[i].peer_id == peer_id)
    } else {
        None
    }
}

/// Peers have distinct keys, connected peers have no queued message, and no
/// queue holds more than `MAX_PEER_QUEUE` messages.
pub open spec fn peers_wf<M>(peers: Seq<PeerView<M>>) -> bool {
    &&& forall|i: int, j: int| 0 <= i < peers.len() && 0 <= j < peers.len() && i != j
        ==> #[trigger] peers[i].peer_id != #[trigger] peers[j].peer_id
    &&& forall|i: int| 0 <= i < peers.len() ==> (#[trigger] peers[i]).queue.len() <= MAX_PEER_QUEUE
    &&& forall|i: int| 0 <= i < peers.len() ==> ((#[trigger] peers[i]).status == PeerStatus::Connected ==> peers[i].queue.len() == 0)
}

/// The peer can be dialed at `now`: it has addresses, is disconnected, and
/// either wasn't dialed in the last `REDIAL_INTERVAL_MS` or `force` is set.
pub open spec fn should_dial<M>(peer: PeerView<M>, force: bool, now: u64) -> bool {
    &&& peer.addresses.len() > 0
    &&& peer.status == PeerStatus::Disconnected
    &&& (force || match peer.last_dial {
        None => true,
        Some(t) => now > t + REDIAL_INTERVAL_MS,
    })
}

/// State after dialing the peer if it should be dialed.
pub open spec fn dial_spec<M>(s: BehaviourState<M>, peer_id: PeerKey, force: bool, now: u64) -> BehaviourState<M> {
    match peer_index(s.peers, peer_id) {
        Some(i) => if should_dial(s.peers[i], force, now) {
            BehaviourState {
                peers: s.peers.update(i, PeerView { last_dial: Some(now), ..s.peers[i] }),
                actions: s.actions.push(BehaviourAction::Dial { peer_id }),
                ..s
            }
        } else {
            s
        },
        None => s,
    }
}

/// Queue after adding an event, dropping the oldest ones beyond the limit.
pub open spec fn bounded_push<M>(queue: Seq<QueuedPeerEvent<M>>, e: QueuedPeerEvent<M>) -> Seq<QueuedPeerEvent<M>> {
    let q = queue.push(e);
    if q.len() > MAX_PEER_QUEUE {
        q.subrange(q.len() - MAX_PEER_QUEUE, q.len() as int)
    } else {
        q
    }
}

/// Handler that gets a message sent on the given connection, if any.
pub open spec fn handler_of(connection: Option<ConnectionId>) -> NotifyHandler {
    match connection {
        Some(c) => NotifyHandler::One(c),
        None => NotifyHandler::Any,
    }
}

/// State after sending a message to a peer: unknown peers drop it, connected
/// peers get it right away, disconnected peers get it queued until the
/// expiration (5 seconds by default) while they get dialed.
pub open spec fn send_message_spec<M>(
    s: BehaviourState<M>,
    peer_id: PeerKey,
    expiration: Option<u64>,
    connection: Option<ConnectionId>,
    msg: M,
    now: u64,
) -> BehaviourState<M> {
    let event = BehaviourAction::NotifyHandler { peer_id, handler: handler_of(connection), event: msg };
    match peer_index(s.peers, peer_id) {
        Some(i) => if s.peers[i].status == PeerStatus::Connected {
            BehaviourState { actions: s.actions.push(event), ..s }
        } else {
            let exp = match expiration {
                Some(e) => e,
                None => (now + DEFAULT_DIALING_MESSAGE_TIMEOUT_MS) as u64,
            };
            let queued = QueuedPeerEvent { event, expiration: Some(exp) };
            let s1 = BehaviourState {
                peers: s.peers.update(i, PeerView { queue: bounded_push(s.peers[i].queue, queued), ..s.peers[i] }),
                ..s
            };
            dial_spec(s1, peer_id, false, now)
        },
        None => s,
    }
}

/// Events of the queue that haven't expired, in order.
pub open spec fn unexpired<M>(queue: Seq<QueuedPeerEvent<M>>, now: u64) -> Seq<QueuedPeerEvent<M>> {
    queue.filter(|e: QueuedPeerEvent<M>| !has_expired(e, now))
}

pub open spec fn queued_actions<M>(queue: Seq<QueuedPeerEvent<M>>) -> Seq<BehaviourAction<M>> {
    queue.map_values(|e: QueuedPeerEvent<M>| e.event)
}

/// State after a peer got connected: its status changes and gets reported,
/// then its queued messages that haven't expired get sent, in order.
pub open spec fn mark_connected_spec<M>(s: BehaviourState<M>, peer_id: PeerKey, now: u64) -> BehaviourState<M> {
    match peer_index(s.peers, peer_id) {
        Some(i) => if s.peers[i].status == PeerStatus::Connected {
            s
        } else {
            BehaviourState {
                peers: s.peers.update(i, PeerView { status: PeerStatus::Connected, queue: seq![], ..s.peers[i] }),
                actions: s.actions.push(BehaviourAction::GenerateEvent(ExocoreBehaviourEvent::PeerStatus(peer_id, PeerStatus::Connected)))
                    + queued_actions(unexpired(s.peers[i].queue, now)),
                ..s
            }
        },
        None => s,
    }
}

/// State after all connections to a peer closed: its status changes and gets
/// reported, its expired queued messages get dropped, and it gets dialed.
pub open spec fn connection_closed_spec<M>(s: BehaviourState<M>, peer_id: PeerKey, now: u64) -> BehaviourState<M> {
    match peer_index(s.peers, peer_id) {
        Some(i) => {
            let s1 = BehaviourState {
                peers: s.peers.update(i, PeerView { status: PeerStatus::Disconnected, queue: unexpired(s.peers[i].queue, now), ..s.peers[i] }),
                actions: s.actions.push(BehaviourAction::GenerateEvent(ExocoreBehaviourEvent::PeerStatus(peer_id, PeerStatus::Disconnected))),
                ..s
            };
            dial_spec(s1, peer_id, true, now)
        },
        None => s,
    }
}

/// State after adding a node's peer with its addresses: nothing changes if the
/// peer exists with the same addresses, otherwise its addresses are set (or
/// it gets added, disconnected) and it gets dialed.
pub open spec fn add_node_spec<M>(s: BehaviourState<M>, peer_id: PeerKey, addresses: Seq<Seq<char>>, now: u64) -> BehaviourState<M> {
    match peer_index(s.peers, peer_id) {
        Some(i) => if s.peers[i].addresses == addresses {
            s
        } else {
            dial_spec(BehaviourState { peers: s.peers.update(i, PeerView { addresses, ..s.peers[i] }), ..s }, peer_id, true, now)
        },
        None => dial_spec(
            BehaviourState {
                peers: s.peers.push(PeerView { peer_id, addresses, queue: seq![], status: PeerStatus::Disconnected, last_dial: None }),
                ..s
            },
            peer_id,
            true,
            now,
        ),
    }
}

/// State after all peers got their last dial forgotten and their connections
/// closed, in the order they got added.
pub open spec fn reset_spec<M>(s: BehaviourState<M>) -> BehaviourState<M> {
    BehaviourState {
        peers: s.peers.map_values(|p: PeerView<M>| PeerView { last_dial: None, ..p }),
        actions: s.actions + s.peers.map_values(|p: PeerView<M>| BehaviourAction::<M>::CloseConnection { peer_id: p.peer_id }),
        ..s
    }
}

/// State after a message came from a peer on a connection: it gets emitted if
/// the peer is known.
pub open spec fn handler_event_spec<M>(s: BehaviourState<M>, peer_id: PeerKey, connection: ConnectionId, message: M) -> BehaviourState<M> {
    match peer_index(s.peers, peer_id) {
        Some(_) => BehaviourState {
            actions: s.actions.push(BehaviourAction::GenerateEvent(
                ExocoreBehaviourEvent::Message(ExocoreBehaviourMessage { source: peer_id, connection, message }),
            )),
            ..s
        },
        None => s,
    }
}

/// Addresses to dial for an outbound connection to the peer: none for an
/// unknown peer.
pub open spec fn outbound_addresses<M>(s: BehaviourState<M>, peer_id: PeerKey) -> Seq<Seq<char>> {
    match peer_index(s.peers, peer_id) {
        Some(i) => s.peers[i].addresses,
        None => seq![],
    }
}

/// Peers are looked for to dial when none was looked for yet, or the last
/// look was more than `REDIAL_CHECK_INTERVAL_MS` ago.
pub open spec fn redial_due(last_check: Option<u64>, now: u64) -> bool {
    match last_check {
        None => true,
        Some(t) => now > t + REDIAL_CHECK_INTERVAL_MS,
    }
}

/// State after a poll looked for peers to dial, before it hands out an action.
pub open spec fn poll_redial_spec<M>(s: BehaviourState<M>, now: u64) -> BehaviourState<M> {
    if redial_due(s.last_redial_check, now) {
        dial_all_spec(
            BehaviourState { last_redial_check: Some(now), ..s },
            s.peers.map_values(|p: PeerView<M>| p.peer_id),
            now,
        )
    } else {
        s
    }
}

/// State after trying to dial each of the given peers, in order.
pub open spec fn dial_all_spec<M>(s: BehaviourState<M>, peer_ids: Seq<PeerKey>, now: u64) -> BehaviourState<M>
    decreases peer_ids.len(),
{
    if peer_ids.len() == 0 {
        s
    } else {
        dial_all_spec(dial_spec(s, peer_ids[0], false, now), peer_ids.drop_first(), now)
    }
}

/// Whether the queued event expired at `now`.
fn event_expired<M>(e: &QueuedPeerEvent<M>, now: u64) -> (res: bool)
    ensures
        res == has_expired(*e, now),
{
    match e.expiration {
        Some(exp) => exp <= now,
        None => false,
    }
}

/// Appends to `actions` the events of the queue that haven't expired, in order.
fn push_unexpired<M>(actions: &mut Vec<BehaviourAction<M>>, queue: Vec<QueuedPeerEvent<M>>, now: u64)
    ensures
        final(actions)@ == old(actions)@ + queued_actions(unexpired(queue@, now)),
{
    let ghost q0 = queue@;
    let ghost a0 = actions@;
    let ghost pred = |e: QueuedPeerEvent<M>| !has_expired(e, now);
    let mut queue = queue;
    let total = queue.len();
    let mut k: usize = 0;
    while queue.len() > 0
        invariant
            k <= q0.len(),
            queue@ == q0.skip(k as int),
            queue@.len() == q0.len() - k,
            q0.len() == total,
            actions@ == a0 + queued_actions(q0.take(k as int).filter(pred)),
            pred == (|e: QueuedPeerEvent<M>| !has_expired(e, now)),
        decreases queue@.len(),
    {
        let e = queue.remove(0);
        proof {
            assert(e == q0[k as int]);
            lemma_filter_take_step(q0, k as int, pred);
        }
        let ghost before = actions@;
        if !event_expired(&e, now) {
            actions.push(e.event);
            proof {
                assert(queued_actions(q0.take(k as int + 1).filter(pred))
                    =~= queued_actions(q0.take(k as int).filter(pred)).push(e.event));
                assert(actions@ =~= a0 + queued_actions(q0.take(k as int + 1).filter(pred)));
            }
        }
        proof {
            assert(queue@ =~= q0.skip(k as int + 1));
        }
        k = k + 1;
    }
    proof {
        assert(q0.take(k as int) =~= q0);
    }
}

/// The events of the queue that haven't expired, in order.
fn retain_unexpired<M>(queue: Vec<QueuedPeerEvent<M>>, now: u64) -> (res: Vec<QueuedPeerEvent<M>>)
    ensures
        res@ == unexpired(queue@, now),
{
    let ghost q0 = queue@;
    let ghost pred = |e: QueuedPeerEvent<M>| !has_expired(e, now);
    let mut queue = queue;
    let total = queue.len();
    let mut res: Vec<QueuedPeerEvent<M>> = Vec::new();
    let mut k: usize = 0;
    while queue.len() > 0
        invariant
            k <= q0.len(),
            queue@ == q0.skip(k as int),
            queue@.len() == q0.len() - k,
            q0.len() == total,
            res@ == q0.take(k as int).filter(pred),
            pred == (|e: QueuedPeerEvent<M>| !has_expired(e, now)),
        decreases queue@.len(),
    {
        let e = queue.remove(0);
        proof {
            assert(e == q0[k as int]);
            lemma_filter_take_step(q0, k as int, pred);
        }
        if !event_expired(&e, now) {
            res.push(e);
        }
        proof {
            assert(queue@ =~= q0.skip(k as int + 1));
        }
        k = k + 1;
    }
    proof {
        assert(q0.take(k as int) =~= q0);
    }
    res
}

/// Adds the event to the queue, dropping the oldest events beyond the limit.
fn push_bounded<M>(queue: &mut Vec<QueuedPeerEvent<M>>, e: QueuedPeerEvent<M>)
    ensures
        final(queue)@ == bounded_push(old(queue)@, e),
{
    let ghost full = old(queue)@.push(e);
    queue.push(e);
    while queue.len() > MAX_PEER_QUEUE
        invariant
            queue@.len() <= full.len(),
            queue@ == full.subrange(full.len() - queue@.len(), full.len() as int),
            full.len() > MAX_PEER_QUEUE ==> queue@.len() >= MAX_PEER_QUEUE,
            full.len() <= MAX_PEER_QUEUE ==> queue@ == full,
        decreases queue@.len(),
    {
        queue.remove(0);
    }
    proof {
        if full.len() > MAX_PEER_QUEUE {
            assert(queue@ =~= full.subrange(full.len() - MAX_PEER_QUEUE, full.len() as int));
        }
    }
}

/// In peers with distinct keys, the peer at a position is found there by its key.
proof fn lemma_peer_index_at<M>(peers: Seq<PeerView<M>>, j: int)
    requires
        peers_wf(peers),
        0 <= j < peers.len(),
    ensures
        peer_index(peers, peers[j].peer_id) == Some(j),
{
    let p = peers[j].peer_id;
    assert(exists|i: int| 0 <= i < peers.len() && #[trigger] peers[i].peer_id == p);
    let c = choose|i: int| 0 <= i < peers.len() && #[trigger] peers[i].peer_id == p;
    if c != j {
        assert(peers[c].peer_id != peers[j].peer_id);
    }
}

/// Dialing changes no peer but for the time it was last dialed.
proof fn lemma_dial_keeps_peers<M>(s: BehaviourState<M>, peer_id: PeerKey, force: bool, now: u64)
    requires
        peers_wf(s.peers),
    ensures
        ({
            let d = dial_spec(s, peer_id, force, now);
            &&& d.peers.len() == s.peers.len()
            &&& peers_wf(d.peers)
            &&& forall|j: int| 0 <= j < s.peers.len() ==> {
                &&& (#[trigger] d.peers[j]).peer_id == s.peers[j].peer_id
                &&& d.peers[j].addresses == s.peers[j].addresses
                &&& d.peers[j].queue == s.peers[j].queue
                &&& d.peers[j].status == s.peers[j].status
            }
            &&& d.actions.len() >= s.actions.len()
            &&& d.actions.subrange(0, s.actions.len() as int) == s.actions
        }),
{
    let d = dial_spec(s, peer_id, force, now);
    assert(d.actions.subrange(0, s.actions.len() as int) =~= s.actions);
}

/// Adding a node's peer a second time with the same addresses changes
/// nothing: the peer doesn't get dialed again.
pub proof fn lemma_add_node_twice<M>(s: BehaviourState<M>, peer_id: PeerKey, addresses: Seq<Seq<char>>, now1: u64, now2: u64)
    requires
        peers_wf(s.peers),
    ensures
        add_node_spec(add_node_spec(s, peer_id, addresses, now1), peer_id, addresses, now2)
            == add_node_spec(s, peer_id, addresses, now1),
{
    let s1 = add_node_spec(s, peer_id, addresses, now1);
    match peer_index(s.peers, peer_id) {
        Some(i) => {
            assert(0 <= i < s.peers.len() && s.peers[i].peer_id == peer_id);
            if s.peers[i].addresses == addresses {
            } else {
                let u = BehaviourState { peers: s.peers.update(i, PeerView { addresses, ..s.peers[i] }), ..s };
                assert(peers_wf(u.peers));
                lemma_dial_keeps_peers(u, peer_id, true, now1);
                lemma_peer_index_at(s1.peers, i);
            }
        },
        None => {
            let pv = PeerView { peer_id, addresses, queue: seq![], status: PeerStatus::Disconnected, last_dial: None };
            let u = BehaviourState { peers: s.peers.push(pv), ..s };
            assert forall|j: int| 0 <= j < s.peers.len() implies s.peers[j].peer_id != peer_id by {
                if s.peers[j].peer_id == peer_id {
                    assert(exists|k: int| 0 <= k < s.peers.len() && #[trigger] s.peers[k].peer_id == peer_id);
                }
            }
            assert(peers_wf(u.peers));
            lemma_dial_keeps_peers(u, peer_id, true, now1);
            lemma_peer_index_at(s1.peers, s.peers.len() as int);
        },
    }
}

/// A message sent to a known peer that is disconnected gets handed out, as
/// the last action, when the peer gets connected before the message expires.
pub proof fn lemma_queued_message_delivered<M>(
    s: BehaviourState<M>,
    peer_id: PeerKey,
    expiration: Option<u64>,
    connection: Option<ConnectionId>,
    msg: M,
    now: u64,
    connected_at: u64,
)
    requires
        peers_wf(s.peers),
        peer_index(s.peers, peer_id) is Some,
        s.peers[peer_index(s.peers, peer_id)->0].status == PeerStatus::Disconnected,
        expiration is None ==> now + DEFAULT_DIALING_MESSAGE_TIMEOUT_MS <= u64::MAX,
        connected_at < match expiration {
            Some(e) => e as int,
            None => now + DEFAULT_DIALING_MESSAGE_TIMEOUT_MS,
        },
    ensures
        ({
            let s2 = mark_connected_spec(send_message_spec(s, peer_id, expiration, connection, msg, now), peer_id, connected_at);
            &&& s2.actions.len() > 0
            &&& s2.actions.last() == BehaviourAction::NotifyHandler { peer_id, handler: handler_of(connection), event: msg }
        }),
{
    let i = peer_index(s.peers, peer_id)->0;
    assert(0 <= i < s.peers.len() && s.peers[i].peer_id == peer_id);
    let event = BehaviourAction::NotifyHandler { peer_id, handler: handler_of(connection), event: msg };
    let exp: u64 = match expiration {
        Some(e) => e,
        None => (now + DEFAULT_DIALING_MESSAGE_TIMEOUT_MS) as u64,
    };
    let queued = QueuedPeerEvent { event, expiration: Some(exp) };
    let q = bounded_push(s.peers[i].queue, queued);
    let u = BehaviourState { peers: s.peers.update(i, PeerView { queue: q, ..s.peers[i] }), ..s };
    assert(q.len() > 0 && q.last() == queued);
    assert(peers_wf(u.peers));
    lemma_dial_keeps_peers(u, peer_id, false, now);
    let s1 = send_message_spec(s, peer_id, expiration, connection, msg, now);
    assert(s1 == dial_spec(u, peer_id, false, now));
    lemma_peer_index_at(s1.peers, i);
    assert(s1.peers[i].queue == q);
    assert(s1.peers[i].status == PeerStatus::Disconnected);
    let pred = |e: QueuedPeerEvent<M>| !has_expired(e, connected_at);
    assert(pred(q.last()));
    assert(q.drop_last().push(q.last()) =~= q);
    q.drop_last().lemma_filter_push(q.last(), pred);
    let sent = queued_actions(unexpired(q, connected_at));
    assert(sent.len() > 0 && sent.last() == event);
    let s2 = mark_connected_spec(s1, peer_id, connected_at);
    let pre = s1.actions.push(BehaviourAction::GenerateEvent(ExocoreBehaviourEvent::PeerStatus(peer_id, PeerStatus::Connected)));
    assert(s2.actions == pre + sent);
    assert((pre + sent).last() == sent.last());
}

/// Why an outbound connection was refused.
#[derive(Debug, Copy, Clone, PartialEq, Eq, Structural)]
pub enum ConnectionDenied {
    /// The connection is to no peer in particular.
    MissingPeerId,
}

/// Whether two lists of addresses hold the same addresses in the same order.
fn addresses_equal(a: &Vec<String>, b: &Vec<String>) -> (res: bool)
    ensures
        res == (addresses_view(a@) == addresses_view(b@)),
{
    if a.len() != b.len() {
        proof {
            assert(addresses_view(a@).len() != addresses_view(b@).len());
        }
        return false;
    }
    let mut k: usize = 0;
    while k < a.len()
        invariant
            k <= a@.len(),
            a@.len() == b@.len(),
            forall|j: int| 0 <= j < k ==> a@[j]@ == b@[j]@,
        decreases a@.len() - k,
    {
        if a[k] != b[k] {
            proof {
                assert(addresses_view(a@)[k as int] != addresses_view(b@)[k as int]);
            }
            return false;
        }
        k = k + 1;
    }
    proof {
        assert(addresses_view(a@) =~= addresses_view(b@));
    }
    true
}

/// A copy of the addresses.
fn clone_addresses(a: &Vec<String>) -> (res: Vec<String>)
    ensures
        addresses_view(res@) == addresses_view(a@),
{
    let mut res: Vec<String> = Vec::new();
    let mut k: usize = 0;
    while k < a.len()
        invariant
            k <= a@.len(),
            res@.len() == k,
            forall|j: int| 0 <= j < k ==> res@[j]@ == a@[j]@,
        decreases a@.len() - k,
    {
        res.push(a[k].clone());
        k = k + 1;
    }
    proof {
        assert(addresses_view(res@) =~= addresses_view(a@));
    }
    res
}

/// Outgoing event from the transport's handles to the behaviour.
#[derive(Debug)]
pub enum TransportOutEvent<M> {
    /// A message to a node, by its peer, if it has a destination.
    Message { destination: Option<PeerKey>, expiration: Option<u64>, connection: Option<ConnectionId>, data: M },
    /// Close all connections and forget when peers were dialed.
    Reset,
}

/// The `k`-th event is a message of the data to the `k`-th destination.
pub open spec fn message_to(e: TransportOutEvent<Vec<u8>>, peer_id: PeerKey, expiration: Option<u64>, connection: Option<ConnectionId>, data: Seq<u8>) -> bool {
    e matches TransportOutEvent::Message { destination: Some(d), expiration: x, connection: c, data: m }
        && d == peer_id && x == expiration && c == connection && m@ == data
}

/// Expands an outgoing message to several nodes into one message event per
/// destination, in the order of the destinations, repeats included, each
/// with its own copy of the data.
pub fn message_per_destination(
    destinations: &Vec<PeerKey>,
    expiration: Option<u64>,
    connection: Option<ConnectionId>,
    data: &Vec<u8>,
) -> (res: Vec<TransportOutEvent<Vec<u8>>>)
    ensures
        res@.len() == destinations@.len(),
        forall|k: int| 0 <= k < destinations@.len() ==> #[trigger] message_to(res@[k], destinations@[k], expiration, connection, data@),
{
    let mut res: Vec<TransportOutEvent<Vec<u8>>> = Vec::new();
    let mut k: usize = 0;
    while k < destinations.len()
        invariant
            k <= destinations@.len(),
            res@.len() == k,
            forall|i: int| 0 <= i < k ==> #[trigger] message_to(res@[i], destinations@[i], expiration, connection, data@),
        decreases destinations@.len() - k,
    {
        let copy = data.clone();
        proof {
            assert(copy@ =~= data@);
        }
        res.push(TransportOutEvent::Message { destination: Some(destinations[k]), expiration, connection, data: copy });
        k = k + 1;
    }
    res
}

/// Libp2p's behaviour for Exocore transport.
pub struct ExocoreBehaviour<M> {
    actions: Vec<BehaviourAction<M>>,
    peers: Vec<Peer<M>>,
    last_redial_check: Option<u64>,
}

impl<M> ExocoreBehaviour<M> {
    pub closed spec fn state(&self) -> BehaviourState<M> {
        BehaviourState {
            peers: self.peers@.map_values(|p: Peer<M>| p.view()),
            actions: self.actions@,
            last_redial_check: self.last_redial_check,
        }
    }

    pub open spec fn wf(&self) -> bool {
        peers_wf(self.state().peers)
    }

    /// A behaviour with no peer and no pending action.
    pub fn new() -> (res: ExocoreBehaviour<M>)
        ensures
            res.wf(),
            res.state().peers.len() == 0,
            res.state().actions.len() == 0,
            res.state().last_redial_check is None,
    {
        ExocoreBehaviour { actions: Vec::new(), peers: Vec::new(), last_redial_check: None }
    }

    fn find_peer(&self, peer_id: PeerKey) -> (res: Option<usize>)
        requires
            self.wf(),
        ensures
            match res {
                Some(i) => peer_index(self.state().peers, peer_id) == Some(i as int) && i < self.peers@.len(),
                None => peer_index(self.state().peers, peer_id) is None,
            },
    {
        let ghost peers = self.state().peers;
        let mut i: usize = 0;
        while i < self.peers.len()
            invariant
                i <= self.peers@.len(),
                peers == self.state().peers,
                peers.len() == self.peers@.len(),
                peers_wf(peers),
                forall|j: int| 0 <= j < i ==> peers[j].peer_id != peer_id,
            decreases self.peers@.len() - i,
        {
            if self.peers[i].peer_id == peer_id {
                proof {
                    assert(peers[i as int].peer_id == peer_id);
                    let c = choose|j: int| 0 <= j < peers.len() && #[trigger] peers[j].peer_id == peer_id;
                    if c != i {
                        assert(peers[c].peer_id != peers[i as int].peer_id);
                    }
                }
                return Some(i);
            }
            i = i + 1;
        }
        None
    }

    /// Dials the peer if it has addresses, is disconnected, and either wasn't
    /// dialed in the last 30 seconds or `force_expire` is set.
    fn dial_peer(&mut self, peer_id: PeerKey, force_expire: bool, now: u64)
        requires
            old(self).wf(),
        ensures
            final(self).wf(),
            final(self).state() == dial_spec(old(self).state(), peer_id, force_expire, now),
    {
        let i = match self.find_peer(peer_id) {
            Some(i) => i,
            None => return,
        };
        let ghost s = self.state();
        if self.peers[i].addresses.len() == 0 {
            return;
        }
        if self.peers[i].status != PeerStatus::Disconnected {
            return;
        }
        let dial_expired = match self.peers[i].last_dial {
            None => true,
            Some(t) => (now as u128) > (t as u128) + (REDIAL_INTERVAL_MS as u128),
        };
        if !dial_expired && !force_expire {
            return;
        }
        let mut peer = self.peers.remove(i);
        peer.last_dial = Some(now);
        self.peers.insert(i, peer);
        self.actions.push(BehaviourAction::Dial { peer_id });
        proof {
            assert(self.state().peers =~= s.peers.update(i as int, PeerView { last_dial: Some(now), ..s.peers[i as int] }));
        }
    }

    /// Notes that the peer got connected: its status changes and gets
    /// reported, then the messages queued for it that haven't expired get sent.
    pub fn mark_peer_connected(&mut self, peer_id: PeerKey, now: u64)
        requires
            old(self).wf(),
        ensures
            final(self).wf(),
            final(self).state() == mark_connected_spec(old(self).state(), peer_id, now),
    {
        let i = match self.find_peer(peer_id) {
            Some(i) => i,
            None => return,
        };
        if self.peers[i].status == PeerStatus::Connected {
            return;
        }
        let ghost s = self.state();
        let mut peer = self.peers.remove(i);
        peer.status = PeerStatus::Connected;
        let mut queue: Vec<QueuedPeerEvent<M>> = Vec::new();
        std::mem::swap(&mut queue, &mut peer.temp_queue);
        self.actions.push(
            BehaviourAction::GenerateEvent(ExocoreBehaviourEvent::PeerStatus(peer_id, PeerStatus::Connected)),
        );
        push_unexpired(&mut self.actions, queue, now);
        self.peers.insert(i, peer);
        proof {
            assert(peer.view() == PeerView { status: PeerStatus::Connected, queue: seq![], ..s.peers[i as int] });
            assert(self.state().peers =~= s.peers.update(
                i as int,
                PeerView { status: PeerStatus::Connected, queue: seq![], ..s.peers[i as int] },
            ));
        }
    }

    /// Notes that the ping of the peer succeeded, which means it is connected.
    pub fn report_ping_success(&mut self, peer_id: PeerKey, now: u64)
        requires
            old(self).wf(),
        ensures
            final(self).wf(),
            final(self).state() == mark_connected_spec(old(self).state(), peer_id, now),
    {
        self.mark_peer_connected(peer_id, now);
    }

    /// Notes that all connections with the peer closed: its status changes and
    /// gets reported, its expired messages get dropped, and it gets dialed.
    pub fn handle_connection_closed(&mut self, peer_id: PeerKey, now: u64)
        requires
            old(self).wf(),
        ensures
            final(self).wf(),
            final(self).state() == connection_closed_spec(old(self).state(), peer_id, now),
    {
        let i = match self.find_peer(peer_id) {
            Some(i) => i,
            None => return,
        };
        let ghost s = self.state();
        let mut peer = self.peers.remove(i);
        peer.status = PeerStatus::Disconnected;
        self.actions.push(
            BehaviourAction::GenerateEvent(ExocoreBehaviourEvent::PeerStatus(peer_id, PeerStatus::Disconnected)),
        );
        let mut queue: Vec<QueuedPeerEvent<M>> = Vec::new();
        std::mem::swap(&mut queue, &mut peer.temp_queue);
        let ghost q0 = queue@;
        peer.temp_queue = retain_unexpired(queue, now);
        self.peers.insert(i, peer);
        proof {
            q0.lemma_filter_len(|e: QueuedPeerEvent<M>| !has_expired(e, now));
            assert(self.state().peers =~= s.peers.update(
                i as int,
                PeerView { status: PeerStatus::Disconnected, queue: unexpired(s.peers[i as int].queue, now), ..s.peers[i as int] },
            ));
        }
        self.dial_peer(peer_id, true, now);
    }

    /// Sends a message to the peer: right away if it is connected, otherwise
    /// it gets queued until `expiration` (5 seconds after `now` if none) and
    /// the peer gets dialed. Messages to unknown peers are dropped.
    pub fn send_message(
        &mut self,
        peer_id: PeerKey,
        expiration: Option<u64>,
        connection: Option<ConnectionId>,
        msg: M,
        now: u64,
    )
        requires
            old(self).wf(),
            expiration is None ==> now + DEFAULT_DIALING_MESSAGE_TIMEOUT_MS <= u64::MAX,
        ensures
            final(self).wf(),
            final(self).state() == send_message_spec(old(self).state(), peer_id, expiration, connection, msg, now),
    {
        let handler = match connection {
            Some(c) => NotifyHandler::One(c),
            None => NotifyHandler::Any,
        };
        let i = match self.find_peer(peer_id) {
            Some(i) => i,
            None => return,
        };
        let event = BehaviourAction::NotifyHandler { peer_id, handler, event: msg };
        if self.peers[i].status == PeerStatus::Connected {
            self.actions.push(event);
            return;
        }
        let exp = match expiration {
            Some(e) => e,
            None => now + DEFAULT_DIALING_MESSAGE_TIMEOUT_MS,
        };
        let ghost s = self.state();
        let ghost queued = QueuedPeerEvent { event, expiration: Some(exp) };
        let mut peer = self.peers.remove(i);
        push_bounded(&mut peer.temp_queue, QueuedPeerEvent { event, expiration: Some(exp) });
        self.peers.insert(i, peer);
        proof {
            assert(self.state().peers =~= s.peers.update(
                i as int,
                PeerView { queue: bounded_push(s.peers[i as int].queue, queued), ..s.peers[i as int] },
            ));
        }
        self.dial_peer(peer_id, false, now);
    }

    /// Adds the peer of a node with its addresses, or sets the addresses of a
    /// known peer, and dials it. Nothing happens if the peer is known with the
    /// same addresses, so that it doesn't get dialed again.
    pub fn add_node(&mut self, peer_id: PeerKey, addresses: Vec<String>, now: u64)
        requires
            old(self).wf(),
        ensures
            final(self).wf(),
            final(self).state() == add_node_spec(old(self).state(), peer_id, addresses_view(addresses@), now),
    {
        let ghost s = self.state();
        let ghost addrs = addresses_view(addresses@);
        match self.find_peer(peer_id) {
            Some(i) => {
                if addresses_equal(&self.peers[i].addresses, &addresses) {
                    return;
                }
                let mut peer = self.peers.remove(i);
                peer.addresses = addresses;
                self.peers.insert(i, peer);
                proof {
                    assert(self.state().peers =~= s.peers.update(i as int, PeerView { addresses: addrs, ..s.peers[i as int] }));
                }
            },
            None => {
                let peer = Peer {
                    peer_id,
                    addresses,
                    temp_queue: Vec::new(),
                    status: PeerStatus::Disconnected,
                    last_dial: None,
                };
                self.peers.push(peer);
                proof {
                    let pv = PeerView { peer_id, addresses: addrs, queue: seq![], status: PeerStatus::Disconnected, last_dial: None };
                    assert(peer.view() == pv);
                    assert(self.state().peers =~= s.peers.push(pv));
                    assert forall|j: int| 0 <= j < s.peers.len() implies s.peers[j].peer_id != peer_id by {
                        if s.peers[j].peer_id == peer_id {
                            assert(exists|k: int| 0 <= k < s.peers.len() && #[trigger] s.peers[k].peer_id == peer_id);
                        }
                    }
                }
            },
        }
        self.dial_peer(peer_id, true, now);
    }


    /// Forgets when each peer was last dialed and closes all connections, in
    /// the order the peers got added.
    pub fn reset_peers(&mut self)
        requires
            old(self).wf(),
        ensures
            final(self).wf(),
            final(self).state() == reset_spec(old(self).state()),
    {
        let ghost s = self.state();
        let ghost close = |p: PeerView<M>| BehaviourAction::<M>::CloseConnection { peer_id: p.peer_id };
        let mut j: usize = 0;
        while j < self.peers.len()
            invariant
                j <= self.peers@.len(),
                self.peers@.len() == s.peers.len(),
                self.last_redial_check == s.last_redial_check,
                forall|k: int| 0 <= k < j ==> self.state().peers[k] == (PeerView { last_dial: None, ..s.peers[k] }),
                forall|k: int| j <= k < self.peers@.len() ==> self.state().peers[k] == s.peers[k],
                self.actions@ == s.actions + s.peers.take(j as int).map_values(close),
                close == (|p: PeerView<M>| BehaviourAction::<M>::CloseConnection { peer_id: p.peer_id }),
            decreases self.peers@.len() - j,
        {
            let peer_id = self.peers[j].peer_id;
            let ghost before = self.state().peers;
            let mut peer = self.peers.remove(j);
            peer.last_dial = None;
            self.peers.insert(j, peer);
            self.actions.push(BehaviourAction::CloseConnection { peer_id });
            proof {
                assert(self.state().peers =~= before.update(j as int, PeerView { last_dial: None, ..before[j as int] }));
                assert(s.peers.take(j as int + 1).map_values(close) =~= s.peers.take(j as int).map_values(close).push(close(s.peers[j as int])));
            }
            j = j + 1;
        }
        proof {
            assert(s.peers.take(j as int) =~= s.peers);
            assert(self.state().peers =~= reset_spec(s).peers);
        }
    }

    /// Emits a message that came from a known peer on one of its connections.
    pub fn on_connection_handler_event(&mut self, peer_id: PeerKey, connection: ConnectionId, message: M)
        requires
            old(self).wf(),
        ensures
            final(self).wf(),
            final(self).state() == handler_event_spec(old(self).state(), peer_id, connection, message),
    {
        if self.find_peer(peer_id).is_some() {
            self.actions.push(
                BehaviourAction::GenerateEvent(
                    ExocoreBehaviourEvent::Message(ExocoreBehaviourMessage { source: peer_id, connection, message }),
                ),
            );
        }
    }

    /// Addresses to dial for an outbound connection: those of the peer, none
    /// for an unknown peer. A connection to no peer in particular is refused.
    pub fn handle_pending_outbound_connection(&self, peer_id: Option<PeerKey>) -> (res: Result<Vec<String>, ConnectionDenied>)
        requires
            self.wf(),
        ensures
            match peer_id {
                None => res == Err::<Vec<String>, ConnectionDenied>(ConnectionDenied::MissingPeerId),
                Some(p) => res is Ok && addresses_view(res->Ok_0@) == outbound_addresses(self.state(), p),
            },
    {
        let peer_id = match peer_id {
            Some(p) => p,
            None => return Err(ConnectionDenied::MissingPeerId),
        };
        match self.find_peer(peer_id) {
            Some(i) => Ok(clone_addresses(&self.peers[i].addresses)),
            None => {
                let res: Vec<String> = Vec::new();
                proof {
                    assert(addresses_view(res@) =~= seq![]);
                }
                Ok(res)
            },
        }
    }

    /// Looks for peers to dial if none was looked for in the last 5 seconds,
    /// then hands out the oldest action for the swarm to execute, if any.
    pub fn poll(&mut self, now: u64) -> (res: Option<BehaviourAction<M>>)
        requires
            old(self).wf(),
        ensures
            final(self).wf(),
            ({
                let s1 = poll_redial_spec(old(self).state(), now);
                if s1.actions.len() > 0 {
                    res == Some(s1.actions[0]) && final(self).state() == BehaviourState { actions: s1.actions.drop_first(), ..s1 }
                } else {
                    res is None && final(self).state() == s1
                }
            }),
    {
        let due = match self.last_redial_check {
            None => true,
            Some(t) => (now as u128) > (t as u128) + (REDIAL_CHECK_INTERVAL_MS as u128),
        };
        if due {
            let ghost s0 = self.state();
            self.last_redial_check = Some(now);
            let mut peer_ids: Vec<PeerKey> = Vec::new();
            let mut j: usize = 0;
            while j < self.peers.len()
                invariant
                    j <= self.peers@.len(),
                    self.state() == (BehaviourState { last_redial_check: Some(now), ..s0 }),
                    peer_ids@ == s0.peers.take(j as int).map_values(|p: PeerView<M>| p.peer_id),
                decreases self.peers@.len() - j,
            {
                peer_ids.push(self.peers[j].peer_id);
                proof {
                    assert(s0.peers.take(j as int + 1).map_values(|p: PeerView<M>| p.peer_id)
                        =~= s0.peers.take(j as int).map_values(|p: PeerView<M>| p.peer_id).push(s0.peers[j as int].peer_id));
                }
                j = j + 1;
            }
            proof {
                assert(s0.peers.take(j as int) =~= s0.peers);
            }
            let ghost ids = peer_ids@;
            let ghost target = dial_all_spec(BehaviourState { last_redial_check: Some(now), ..s0 }, ids, now);
            proof {
                assert(ids.skip(0) =~= ids);
            }
            let mut k: usize = 0;
            while k < peer_ids.len()
                invariant
                    k <= ids.len(),
                    peer_ids@ == ids,
                    self.wf(),
                    dial_all_spec(self.state(), ids.skip(k as int), now) == target,
                decreases ids.len() - k,
            {
                let ghost before = self.state();
                self.dial_peer(peer_ids[k], false, now);
                proof {
                    assert(ids.skip(k as int).drop_first() =~= ids.skip(k as int + 1));
                    assert(ids.skip(k as int)[0] == ids[k as int]);
                }
                k = k + 1;
            }
            proof {
                assert(ids.skip(k as int) =~= Seq::<PeerKey>::empty());
            }
        }
        if self.actions.len() > 0 {
            let ghost a = self.actions@;
            let action = self.actions.remove(0);
            proof {
                assert(self.actions@ =~= a.drop_first());
            }
            Some(action)
        } else {
            None
        }
    }


    /// Applies an outgoing event of the transport: a message with a
    /// destination gets sent to its peer, one without gets dropped; a reset
    /// resets the peers. Tells whether the event got applied.
    pub fn handle_out_event(&mut self, event: TransportOutEvent<M>, now: u64) -> (applied: bool)
        requires
            old(self).wf(),
            event matches TransportOutEvent::Message { expiration: None, .. } ==> now + DEFAULT_DIALING_MESSAGE_TIMEOUT_MS <= u64::MAX,
        ensures
            final(self).wf(),
            match event {
                TransportOutEvent::Message { destination: Some(peer_id), expiration, connection, data } => {
                    &&& applied
                    &&& final(self).state() == send_message_spec(old(self).state(), peer_id, expiration, connection, data, now)
                },
                TransportOutEvent::Message { destination: None, .. } => !applied && final(self).state() == old(self).state(),
                TransportOutEvent::Reset => applied && final(self).state() == reset_spec(old(self).state()),
            },
    {
        match event {
            TransportOutEvent::Message { destination, expiration, connection, data } => {
                match destination {
                    Some(peer_id) => {
                        self.send_message(peer_id, expiration, connection, data, now);
                        true
                    },
                    None => false,
                }
            },
            TransportOutEvent::Reset => {
                self.reset_peers();
                true
            },
        }
    }

}

} // verus!
