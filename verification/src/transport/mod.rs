//! Transport layer: framing, peers management and HTTP requests handling.
use vstd::prelude::*;

pub mod either;
pub mod error;
pub mod http;
pub mod layer;
pub mod messages;
pub mod p2p;
pub mod ws;

verus! {

/// Service of a cell to which a message is destined.
#[derive(Copy, Clone, Debug, PartialEq, Eq, Structural)]
pub enum ServiceType {
    Chain,
    Store,
}

/// Connection status of a remote node.
#[derive(Copy, Clone, Debug, PartialEq, Eq, Structural)]
pub enum ConnectionStatus {
    Connected,
    Disconnected,
}

/// Compares two strings by content.
pub fn str_eq(a: &str, b: &str) -> (res: bool)
    ensures
        res == (a@ == b@),
{
    broadcast use vstd::string::group_string_axioms;
    let a_owned = a.to_string();
    let b_owned = b.to_string();
    a_owned == b_owned
}

} // verus!
