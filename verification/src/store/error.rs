//! Errors of the store. Errors of outside libraries are kept by their
//! message.
use vstd::prelude::*;

verus! {

/// Error of the store.
#[derive(Debug, Clone, PartialEq, Eq)]
pub enum Error {
    /// Query parsing error, by its message.
    QueryParsing(String),
    /// Error in the index, by its message.
    Tantivy(String),
    /// Error opening the index's directory, by its message.
    TantivyOpenDirectoryError(String),
    /// Error parsing the index's query, by its message.
    TantitvyQueryParsing(String),
    /// Error of the chain engine, by its message, and whether the engine
    /// deems it fatal.
    ChainEngine(String, bool),
    /// Chain error, by its message.
    Chain(String),
    /// Chain block error, by its message.
    ChainBlock(String),
    /// Transport error, by its message.
    Transport(String),
    /// Error in capnp serialization, by its message.
    Serialization(String),
    /// Protobuf error, by its message.
    Proto(String),
    /// A protobuf field was expected, but was empty.
    ProtoFieldExpected(String),
    /// IO error, by its message.
    Io(String),
    /// Error from remote store.
    Remote(String),
    /// Timeout error: time waited and timeout, in milliseconds.
    Timeout(u64, u64),
    /// Watched query got unregistered.
    WatchedUnregistered,
    /// Not connected to any store node.
    NotConnected,
    /// Tried to lock a mutex that was poisoned.
    Poisoned,
    /// Query or mutation got cancelled.
    Cancelled,
    /// Dropped or couldn't get locked.
    Dropped,
    /// A fatal error occurred.
    Fatal(String),
    /// Any other error, by its message.
    Other(String),
}

/// Errors after which the store can't go on.
pub open spec fn fatal(err: Error) -> bool {
    match err {
        Error::Fatal(_) | Error::Poisoned | Error::Dropped | Error::Io(_) | Error::TantivyOpenDirectoryError(_) => true,
        Error::ChainEngine(_, engine_fatal) => engine_fatal,
        _ => false,
    }
}

impl Error {
    /// Whether the store can't go on after the error: a fatal error, a
    /// poisoned lock, a dropped store, an IO error, an index directory that
    /// couldn't be opened, or an error that the chain engine deems fatal.
    pub fn is_fatal(&self) -> (res: bool)
        ensures
            res == fatal(*self),
    {
        match self {
            Error::Fatal(_) | Error::Poisoned | Error::Dropped | Error::Io(_) | Error::TantivyOpenDirectoryError(_) => true,
            Error::ChainEngine(_, engine_fatal) => *engine_fatal,
            _ => false,
        }
    }
}

} // verus!
