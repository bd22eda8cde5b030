use vstd::prelude::*;

verus! {

/// Layer of the Exocore architecture to which a message is intended or from
/// which it originates.
#[derive(Copy, Clone, Debug, PartialEq, Eq, Structural)]
pub enum TransportLayer {
    Meta,
    Common,
    Data,
}

/// The wire code of each layer.
pub open spec fn layer_code(layer: TransportLayer) -> u8 {
    match layer {
        TransportLayer::Meta => 1,
        TransportLayer::Common => 2,
        TransportLayer::Data => 3,
    }
}

/// Each layer has its own code, so that decoding a layer's code gives back
/// the layer.
pub proof fn lemma_layer_code_injective(a: TransportLayer, b: TransportLayer)
    requires
        layer_code(a) == layer_code(b),
    ensures
        a == b,
{
    match (a, b) {
        (TransportLayer::Meta, TransportLayer::Meta) => {},
        (TransportLayer::Common, TransportLayer::Common) => {},
        (TransportLayer::Data, TransportLayer::Data) => {},
        _ => {},
    }
}

impl TransportLayer {
    /// Decodes a layer from its wire code; unknown codes give `None`.
    pub fn from_code(code: u8) -> (res: Option<TransportLayer>)
        ensures
            match res {
                Some(layer) => layer_code(layer) == code,
                None => code != 1 && code != 2 && code != 3,
            },
    {
        match code {
            1 => Some(TransportLayer::Meta),
            2 => Some(TransportLayer::Common),
            3 => Some(TransportLayer::Data),
            _ => None,
        }
    }

    /// Encodes the layer to its wire code.
    pub fn to_code(self) -> (res: u8)
        ensures
            res == layer_code(self),
    {
        match self {
            TransportLayer::Meta => 1,
            TransportLayer::Common => 2,
            TransportLayer::Data => 3,
        }
    }
}

} // verus!
