# exocore

Verified core of the Exocore entity store and transport layers, written in
Verus: each function states in its contract what it computes, and Verus
proves it.

## Layout

- `src/store/`: the entity store. Mutation requests and their builder,
  ordering values, extraction of top results, the dynamic fields mapping of
  trait messages and the terms indexed for them, the entity mutations cache,
  the decisions of the entities index (chain indexing, divergence, chain
  events, re-indexing of the pending index, traits of results), the garbage
  collector, the mutation tracker, and the registries of the remote client
  and server.
- `src/transport/`: transport layers, message envelopes, routing between two
  transports, peers and outbound queue of the p2p transport, message framing,
  the byte channel reader, HTTP request routing and tracking, and the
  WebSocket connections registry.
- `src/node_map.rs`, `src/sequences.rs`: shared values by node id and facts
  on sequences.
- `app/`: clocks (chrono) and the computations on floating point scores,
  which stay out of the verified library.
- `tests/`: tests of the library.

## What stays outside

The library holds the decisions; the work that needs an engine or the
network is done by the caller, which hands the library plain values and
performs what it answers: the full-text index engine (tantivy), the chain
layer, the libp2p swarm, the HTTP server (hyper), the WebSocket server and
the async runtime (tokio, futures). None of these is a dependency of this
crate.
