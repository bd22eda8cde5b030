//! Errors of the transport layer.
use vstd::prelude::*;

verus! {

/// Transport related error. Errors of outside libraries are kept by their
/// message.
#[derive(Debug, Clone, PartialEq, Eq)]
pub enum Error {
    /// Error of the libp2p transport.
    Libp2pTransport(String),
    /// Error in capnp serialization: its kind and message.
    Serialization(String, String),
    /// Field is not in capnp schema, by its code.
    SerializationNotInSchema(u16),
    /// IO error, by its message.
    IO(String),
    /// Could not upgrade a weak reference.
    Upgrade,
    /// Tried to lock a mutex that was poisoned.
    Poisoned,
    /// Any other error, by its message.
    Other(String),
}

} // verus!
