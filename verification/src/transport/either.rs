//! Routing of a transport handle that wraps two transports: it notes from
//! which transport each node's messages came, so that messages to a node go
//! back through the same transport. A node from which no message came yet is
//! reached through the first (left) transport.
use vstd::prelude::*;
use crate::node_map::NodeMap;

verus! {

/// One of the two wrapped transports.
#[derive(Debug, Copy, Clone, PartialEq, Eq, Structural)]
pub enum Side {
    Left,
    Right,
}

/// Error of the routing of an outgoing message.
#[derive(Debug, Copy, Clone, PartialEq, Eq, Structural)]
pub enum EitherError {
    /// The message had no destination node.
    NoDestination,
}

/// Side through which a message to the nodes goes, given the side of each
/// node that sent a message.
pub open spec fn route_spec(sides: Map<Seq<char>, Side>, destinations: Seq<Seq<char>>) -> Result<Side, EitherError> {
    if destinations.len() == 0 {
        Err(EitherError::NoDestination)
    } else if sides.contains_key(destinations[0]) && sides[destinations[0]] == Side::Right {
        Ok(Side::Right)
    } else {
        Ok(Side::Left)
    }
}

/// Transport through which the messages of each node came last, by node id.
pub struct EitherRouter {
    node_map: NodeMap<Side>,
}

impl EitherRouter {
    /// Side of each node that sent a message.
    pub closed spec fn view(&self) -> Map<Seq<char>, Side> {
        self.node_map@
    }

    pub closed spec fn wf(&self) -> bool {
        self.node_map.wf()
    }

    /// A router that knows no node.
    pub fn new() -> (res: EitherRouter)
        ensures
            res.wf(),
            res@ == Map::<Seq<char>, Side>::empty(),
    {
        EitherRouter { node_map: NodeMap::new() }
    }

    /// Side through which the node's messages came last, if any came.
    pub fn get_side(&self, node_id: &String) -> (res: Option<Side>)
        requires
            self.wf(),
        ensures
            res == (if self@.contains_key(node_id@) { Some(self@[node_id@]) } else { None::<Side> }),
    {
        self.node_map.get(node_id)
    }

    /// Notes that a message from the node came through the side.
    pub fn maybe_add_node(&mut self, node_id: &String, side: Side)
        requires
            old(self).wf(),
        ensures
            final(self).wf(),
            final(self)@ == old(self)@.insert(node_id@, side),
    {
        if self.node_map.get(node_id) == Some(side) {
            proof {
                assert(self@ =~= old(self)@.insert(node_id@, side));
            }
            return;
        }
        self.node_map.insert(node_id, side);
    }

    /// Side through which a message to the given nodes goes: that of the
    /// first node if it is the right one, the left one otherwise. A message
    /// to no node can't be routed.
    pub fn route(&self, destinations: &Vec<String>) -> (res: Result<Side, EitherError>)
        requires
            self.wf(),
        ensures
            res == route_spec(self@, destinations@.map_values(|d: String| d@)),
    {
        if destinations.len() == 0 {
            return Err(EitherError::NoDestination);
        }
        match self.get_side(&destinations[0]) {
            Some(Side::Right) => Ok(Side::Right),
            _ => Ok(Side::Left),
        }
    }
}

/// Once a message came from a node through a side, messages to the node go
/// through that side; messages to a node from which none came go through
/// the left side.
pub proof fn lemma_route_follows_last_side(sides: Map<Seq<char>, Side>, node: Seq<char>, side: Side, destinations: Seq<Seq<char>>)
    ensures
        destinations.len() > 0 && destinations[0] == node ==> route_spec(sides.insert(node, side), destinations) == Ok::<Side, EitherError>(side),
        destinations.len() > 0 && !sides.contains_key(destinations[0]) ==> route_spec(sides, destinations) == Ok::<Side, EitherError>(Side::Left),
{
    if destinations.len() > 0 && destinations[0] == node {
        match side {
            Side::Left => {},
            Side::Right => {},
        }
    }
}

} // verus!
