//! Messages exchanged between nodes: an envelope that says to which layer a
//! message goes, its type, the cell and node it comes from, the message it
//! follows (for responses), and its data.
use vstd::prelude::*;
use crate::transport::error::Error;
use crate::transport::layer::{layer_code, TransportLayer};

verus! {

/// Envelope of a message, with its data.
#[derive(Debug, Clone)]
pub struct Envelope {
    /// Code of the layer the message goes to.
    pub layer: u8,
    pub message_type: u16,
    pub cell_id: Vec<u8>,
    pub from_node_id: String,
    /// Id of the message this one follows, 0 if none.
    pub follow_id: u64,
    pub data: Vec<u8>,
}

/// Message to be sent to one or more other nodes, by their ids.
#[derive(Debug, Clone)]
pub struct OutMessage {
    pub to: Vec<String>,
    pub envelope: Envelope,
}

/// Message received from another node.
#[derive(Debug, Clone)]
pub struct InMessage {
    pub from: String,
    pub layer: TransportLayer,
    pub follow_id: Option<u64>,
    pub message_type: u16,
    pub envelope: Envelope,
}

impl OutMessage {
    /// A message of the given type and data, from the local node of the cell,
    /// to the given layer of other nodes, following no message and to no node
    /// yet.
    pub fn from_framed_message(
        cell_id: Vec<u8>,
        local_node_id: String,
        to_layer: TransportLayer,
        message_type: u16,
        data: Vec<u8>,
    ) -> (res: Result<OutMessage, Error>)
        ensures
            res matches Ok(m) && m.to@.len() == 0 && m.envelope == (Envelope {
                layer: layer_code(to_layer),
                message_type,
                cell_id,
                from_node_id: local_node_id,
                follow_id: 0,
                data,
            }),
    {
        Ok(OutMessage {
            to: Vec::new(),
            envelope: Envelope { layer: to_layer.to_code(), message_type, cell_id, from_node_id: local_node_id, follow_id: 0, data },
        })
    }

    /// The message, to the given node only.
    pub fn with_to_node(self, to_node: String) -> (res: Self)
        ensures
            res.to@ == seq![to_node],
            res.envelope == self.envelope,
    {
        let mut res = self;
        res.to = vec![to_node];
        res
    }

    /// The message, to the given nodes.
    pub fn with_to_nodes(self, nodes: Vec<String>) -> (res: Self)
        ensures
            res.to == nodes,
            res.envelope == self.envelope,
    {
        let mut res = self;
        res.to = nodes;
        res
    }

    /// The message, following the given one.
    pub fn with_follow_id(self, follow_id: u64) -> (res: Self)
        ensures
            res.to == self.to,
            res.envelope == (Envelope { follow_id, ..self.envelope }),
    {
        let mut res = self;
        res.envelope.follow_id = follow_id;
        res
    }
}

impl InMessage {
    /// Reads a message received from a node: it follows the message of its
    /// envelope's follow id unless that id is 0; a message to an unknown
    /// layer is refused.
    pub fn from_node_and_frame(from: String, envelope: Envelope) -> (res: Result<InMessage, Error>)
        ensures
            match res {
                Ok(m) => {
                    &&& layer_code(m.layer) == envelope.layer
                    &&& m.from == from
                    &&& m.follow_id == if envelope.follow_id != 0 { Some(envelope.follow_id) } else { None }
                    &&& m.message_type == envelope.message_type
                    &&& m.envelope == envelope
                },
                Err(e) => envelope.layer != 1 && envelope.layer != 2 && envelope.layer != 3 && e is Other,
            },
    {
        let follow_id = if envelope.follow_id != 0 { Some(envelope.follow_id) } else { None };
        let layer = match TransportLayer::from_code(envelope.layer) {
            Some(layer) => layer,
            None => return Err(Error::Other("Got message with invalid layer id".to_string())),
        };
        let message_type = envelope.message_type;
        Ok(InMessage { from, layer, follow_id, message_type, envelope })
    }

    /// Data of the message.
    pub fn get_data(&self) -> (res: &Vec<u8>)
        ensures
            *res == self.envelope.data,
    {
        &self.envelope.data
    }

    /// A response to the message, from the local node of the cell to the node
    /// the message came from, on the same layer, following the message. A
    /// message that has no follow id can't be responded to.
    pub fn to_response_message(
        &self,
        cell_id: Vec<u8>,
        local_node_id: String,
        message_type: u16,
        data: Vec<u8>,
    ) -> (res: Result<OutMessage, Error>)
        ensures
            match self.follow_id {
                Some(f) => res matches Ok(m) && m.to@ == seq![self.from] && m.envelope == (Envelope {
                    layer: layer_code(self.layer),
                    message_type,
                    cell_id,
                    from_node_id: local_node_id,
                    follow_id: f,
                    data,
                }),
                None => res matches Err(e) && e is Other,
            },
    {
        let out = match OutMessage::from_framed_message(cell_id, local_node_id, self.layer, message_type, data) {
            Ok(out) => out,
            Err(e) => return Err(e),
        };
        let out = out.with_to_node(self.from.clone());
        let follow_id = match self.follow_id {
            Some(f) => f,
            None => return Err(Error::Other("Tried to respond to an InMessage without a follow id".to_string())),
        };
        Ok(out.with_follow_id(follow_id))
    }
}

/// A response to a message that follows another one, once received, follows
/// that same message, on the same layer, and comes from the responding node.
pub proof fn lemma_response_follows_request(request: InMessage, response: OutMessage, responder: String, received: InMessage)
    requires
        request.follow_id matches Some(f) && f != 0,
        response.envelope.follow_id == request.follow_id->0,
        response.envelope.layer == layer_code(request.layer),
        received.from == responder,
        layer_code(received.layer) == response.envelope.layer,
        received.follow_id == if response.envelope.follow_id != 0 { Some(response.envelope.follow_id) } else { None },
    ensures
        received.follow_id == request.follow_id,
        received.layer == request.layer,
{
    match (received.layer, request.layer) {
        (TransportLayer::Meta, TransportLayer::Meta) => {},
        (TransportLayer::Common, TransportLayer::Common) => {},
        (TransportLayer::Data, TransportLayer::Data) => {},
        _ => {},
    }
}

} // verus!
