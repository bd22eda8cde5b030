//! WebSocket transport, made for communication from WASM / Web clients.
//!
//! It is not a full transport: it can't send messages to nodes of the cell,
//! only to inbound connections. Each connection is given a temporary node id
//! under which it is known while it is open.
use vstd::prelude::*;
use crate::transport::str_eq;

verus! {

/// Configuration of the WebSocket transport.
#[derive(Clone, Copy, Debug, PartialEq, Eq, Structural)]
pub struct WebSocketTransportConfig {
    pub handle_in_channel_size: usize,
    pub handle_out_channel_size: usize,
    pub handle_out_to_websocket_channel_size: usize,
}

impl Default for WebSocketTransportConfig {
    fn default() -> (res: Self)
        ensures
            res.handle_in_channel_size == 1000,
            res.handle_out_channel_size == 1000,
            res.handle_out_to_websocket_channel_size == 1000,
    {
        WebSocketTransportConfig {
            handle_in_channel_size: 1000,
            handle_out_channel_size: 1000,
            handle_out_to_websocket_channel_size: 1000,
        }
    }
}

/// Name of the WebSocket sub-protocol that a connection must ask for.
pub open spec fn websocket_protocol() -> Seq<char> {
    "exocore_websocket"@
}

/// Whether an incoming connection is accepted: it must list the transport's
/// sub-protocol among the protocols it asks for.
pub fn accepts_protocols(protocols: &Vec<String>) -> (ok: bool)
    ensures
        ok == exists|i: int| 0 <= i < protocols@.len() && #[trigger] protocols@[i]@ == websocket_protocol(),
{
    let mut i: usize = 0;
    while i < protocols.len()
        invariant
            i <= protocols@.len(),
            forall|j: int| 0 <= j < i ==> #[trigger] protocols@[j]@ != websocket_protocol(),
        decreases protocols@.len() - i,
    {
        if str_eq(protocols[i].as_str(), "exocore_websocket") {
            return true;
        }
        i = i + 1;
    }
    false
}

/// A message received on a connection, by kind.
pub enum WsMessage {
    Text(String),
    Binary(Vec<u8>),
    Ping(Vec<u8>),
    Pong(Vec<u8>),
    Close,
}

/// What is done with a message received on a connection.
pub enum WsIncoming {
    /// The data is an envelope to hand to every handle of the transport.
    Deliver(Vec<u8>),
    /// The connection is closing: nothing more is read from it.
    Stop,
    /// The message is of a kind that the transport doesn't handle.
    Unhandled,
}

/// Binary messages carry envelopes; a close message ends the connection's
/// stream; any other message is refused.
pub fn incoming_action(message: WsMessage) -> (res: WsIncoming)
    ensures
        match message {
            WsMessage::Binary(data) => res == WsIncoming::Deliver(data),
            WsMessage::Close => res is Stop,
            _ => res is Unhandled,
        },
{
    match message {
        WsMessage::Binary(data) => WsIncoming::Deliver(data),
        WsMessage::Close => WsIncoming::Stop,
        _ => WsIncoming::Unhandled,
    }
}

/// Temporary node ids of the open connections.
pub struct WsConnections {
    nodes: Vec<String>,
}

pub open spec fn is_open_in(nodes: Seq<String>, node: Seq<char>) -> bool {
    exists|i: int| 0 <= i < nodes.len() && #[trigger] nodes[i]@ == node
}

impl WsConnections {
    /// Ids of the open connections.
    pub closed spec fn view(&self) -> Set<Seq<char>> {
        Set::new(|node: Seq<char>| is_open_in(self.nodes@, node))
    }

    /// Each connection is noted once.
    pub closed spec fn wf(&self) -> bool {
        forall|i: int, j: int|
            0 <= i < self.nodes@.len() && 0 <= j < self.nodes@.len() && i != j
                ==> #[trigger] self.nodes@[i]@ != #[trigger] self.nodes@[j]@
    }

    pub fn new() -> (res: Self)
        ensures
            res.wf(),
            res@ == Set::<Seq<char>>::empty(),
    {
        let res = WsConnections { nodes: Vec::new() };
        proof {
            assert(res@ =~= Set::<Seq<char>>::empty());
        }
        res
    }

    fn find(&self, node_id: &String) -> (res: Option<usize>)
        ensures
            match res {
                Some(i) => i < self.nodes@.len() && self.nodes@[i as int]@ == node_id@,
                None => !is_open_in(self.nodes@, node_id@),
            },
    {
        let mut i: usize = 0;
        while i < self.nodes.len()
            invariant
                i <= self.nodes@.len(),
                forall|j: int| 0 <= j < i ==> self.nodes@[j]@ != node_id@,
            decreases self.nodes@.len() - i,
        {
            if str_eq(self.nodes[i].as_str(), node_id.as_str()) {
                return Some(i);
            }
            i = i + 1;
        }
        None
    }

    /// Whether a connection is open under the node id.
    pub fn contains(&self, node_id: &String) -> (res: bool)
        ensures
            res == self@.contains(node_id@),
    {
        self.find(node_id).is_some()
    }

    /// Notes a connection, newly accepted under the node id.
    pub fn open(&mut self, node_id: &String)
        requires
            old(self).wf(),
        ensures
            final(self).wf(),
            final(self)@ == old(self)@.insert(node_id@),
    {
        let ghost before = self.nodes@;
        if self.find(node_id).is_none() {
            self.nodes.push(node_id.clone());
            proof {
                let n = before.len() as int;
                assert(self.nodes@[n]@ == node_id@);
                assert forall|a: int, b: int|
                    0 <= a < self.nodes@.len() && 0 <= b < self.nodes@.len() && a != b
                        implies #[trigger] self.nodes@[a]@ != #[trigger] self.nodes@[b]@ by {
                    if a == n {
                        assert(!(before[b]@ == node_id@));
                    } else if b == n {
                        assert(!(before[a]@ == node_id@));
                    }
                }
                assert forall|node: Seq<char>| #[trigger] is_open_in(self.nodes@, node) == (is_open_in(before, node) || node == node_id@) by {
                    if is_open_in(before, node) {
                        let j = choose|j: int| 0 <= j < before.len() && #[trigger] before[j]@ == node;
                        assert(self.nodes@[j]@ == node);
                    }
                    if is_open_in(self.nodes@, node) && node != node_id@ {
                        let j = choose|j: int| 0 <= j < self.nodes@.len() && #[trigger] self.nodes@[j]@ == node;
                        assert(before[j]@ == node);
                    }
                }
            }
        }
        proof {
            assert(self@ =~= old(self)@.insert(node_id@));
        }
    }

    /// Forgets the connection of the node id, once it is closed or failed.
    pub fn close(&mut self, node_id: &String)
        requires
            old(self).wf(),
        ensures
            final(self).wf(),
            final(self)@ == old(self)@.remove(node_id@),
    {
        let ghost before = self.nodes@;
        match self.find(node_id) {
            Some(i) => {
                self.nodes.remove(i);
                proof {
                    assert forall|a: int, b: int|
                        0 <= a < self.nodes@.len() && 0 <= b < self.nodes@.len() && a != b
                            implies #[trigger] self.nodes@[a]@ != #[trigger] self.nodes@[b]@ by {
                        let a0 = if a < i { a } else { a + 1 };
                        let b0 = if b < i { b } else { b + 1 };
                        assert(self.nodes@[a] == before[a0]);
                        assert(self.nodes@[b] == before[b0]);
                    }
                    assert forall|node: Seq<char>| #[trigger] is_open_in(self.nodes@, node) == (is_open_in(before, node) && node != node_id@) by {
                        if is_open_in(self.nodes@, node) {
                            let j = choose|j: int| 0 <= j < self.nodes@.len() && #[trigger] self.nodes@[j]@ == node;
                            let j0 = if j < i { j } else { j + 1 };
                            assert(self.nodes@[j] == before[j0]);
                            assert(before[j0]@ == node);
                            assert(j0 != i);
                        }
                        if is_open_in(before, node) && node != node_id@ {
                            let j = choose|j: int| 0 <= j < before.len() && #[trigger] before[j]@ == node;
                            assert(j != i);
                            let j1 = if j < i { j } else { j - 1 };
                            assert(self.nodes@[j1] == before[j]);
                        }
                    }
                    assert(self@ =~= old(self)@.remove(node_id@));
                }
            },
            None => {
                proof {
                    assert(self@ =~= old(self)@.remove(node_id@));
                }
            },
        }
    }

    /// The nodes of a message's destination that a connection is open for, in
    /// order: the message is sent to those, and the others are skipped.
    pub fn dispatch_targets(&self, to: Vec<String>) -> (res: Vec<String>)
        ensures
            res@ == to@.filter(|n: String| self@.contains(n@)),
    {
        let ghost t0 = to@;
        let ghost pred = |n: String| self@.contains(n@);
        let mut to = to;
        let total = to.len();
        let mut res: Vec<String> = Vec::new();
        let mut k: usize = 0;
        while to.len() > 0
            invariant
                k <= t0.len(),
                to@ == t0.skip(k as int),
                to@.len() == t0.len() - k,
                t0.len() == total,
                res@ == t0.take(k as int).filter(pred),
                pred == (|n: String| self@.contains(n@)),
            decreases to@.len(),
        {
            let node = to.remove(0);
            proof {
                assert(node == t0[k as int]);
                crate::sequences::lemma_filter_take_step(t0, k as int, pred);
            }
            if self.contains(&node) {
                res.push(node);
            }
            proof {
                assert(to@ =~= t0.skip(k as int + 1));
            }
            k = k + 1;
        }
        proof {
            assert(t0.take(k as int) =~= t0);
        }
        res
    }
}

/// A message sent to a connection that was just opened is dispatched to it,
/// and one sent to a connection that was just closed is not.
pub proof fn lemma_dispatch_follows_open_and_close(conns: WsConnections, node: String)
    ensures
        conns@.insert(node@).contains(node@),
        !conns@.remove(node@).contains(node@),
        seq![node].filter(|n: String| conns@.insert(node@).contains(n@)) == seq![node],
        seq![node].filter(|n: String| conns@.remove(node@).contains(n@)) == Seq::<String>::empty(),
{
    let s = seq![node];
    assert(s =~= Seq::<String>::empty().push(node));
    Seq::<String>::empty().lemma_filter_push(node, |n: String| conns@.insert(node@).contains(n@));
    Seq::<String>::empty().lemma_filter_push(node, |n: String| conns@.remove(node@).contains(n@));
    assert(Seq::<String>::empty().filter(|n: String| conns@.insert(node@).contains(n@)) =~= Seq::<String>::empty());
    assert(Seq::<String>::empty().filter(|n: String| conns@.remove(node@).contains(n@)) =~= Seq::<String>::empty());
}

} // verus!
