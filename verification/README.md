# crdt_canvas

A shared pixel canvas without a server: conflict-free replicated data types (CRDTs), the gossip
protocol that spreads them between nodes, and the canvas that is built on both. The library is
written in Verus: what each function does is stated in its contract, and proved.

## Layout

- `src/traits.rs`: `Crdt` and `DeltaCrdt`, with the laws that every type proves: merging is
  commutative, associative and idempotent, a delta brings a lagging replica up to date, and so on.
- `src/clocks.rs`, `src/counters/`, `src/registers/`, `src/sets/`, `src/maps/`: the data types.
- `src/canvas/`: the canvas document, its leaderboard and client views, and the laws of the whole:
  what each operation keeps, and that in a mesh delta gossip does what full-state gossip does.
- `src/net/`: addresses, configuration, framing, the peer registry, the gossip engine and mDNS
  discovery, each as decisions on plain values.
- `src/state.rs`, `src/api.rs`: the state of a node, and what its interface answers.
- `src/text.rs`, `src/collections.rs`, `src/counts.rs`: what the rest is built on.
- `app/`: the program around the library: HTTP, WebSocket, TCP, mDNS, JSON.
- `tests/`: scenarios that run the library.

## Running a node

```bash
canvas --port 8080 --gossip-port 9090
canvas --port 8081 --gossip-port 9091 --peers 127.0.0.1:9090
```

Browsers talk to `--port`, nodes to each other on `--gossip-port`. On one subnet nodes find each
other by mDNS; elsewhere one address of any node of the mesh is enough.

## What is left to trust

The contracts of five small functions that call other crates: `BTreeMap::pop_first` and
`BTreeSet::pop_first` of the standard library, writing and reading a UUID with `uuid`, and picking
peers at random with `rand`. Each says in its documentation what it claims.

## Known limits

- Removing an element from an observed-remove set leaves tombstones that are never collected.
- The document dates every removal, so that deltas carry it, and keeps the dates as long as the
  tombstones. An observed-remove set by itself has no dates: its own delta leaves out the removal of
  an element whose addition the receiver has seen.
- Cursors have no tombstones. They are dropped on a merge when their user is no longer active. A
  delta brings no drop of a cursor, and a client sees it with its next snapshot.
