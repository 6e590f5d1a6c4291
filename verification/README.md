# StellarConduit Sync Engine

The offline transaction engine of a mesh payment device, written in Rust and verified
with Verus. It queues and signs a device's own Stellar payments without a network
connection, reserves their sequence numbers, tracks each payment until it settles, and
detects and resolves double spends from relay evidence.

## Layout

- `src/` is the verified library. Contracts speak of mathematical views of the data; only
  what a clock shows and what chance draws is left open. What spans several functions is
  stated as public proof functions.
  - `queue`: priority tiers, the emergency guard, sequence reservation, dispatch window,
    expiry, reputation, spendable balance, and delay-function evidence for ordering.
  - `envelope`: offline signing coupled to sequence reservation, multisig envelopes,
    post-quantum signatures, and reading transaction XDR.
  - `conflict`: detection, relay quorums, the VRF tie-break, compressed relay chains,
    reconciliation and escalation.
  - `settlement`: the status machine, its invariants, and the transparency log.
  - `engine`: the restart-safe state machine around storage, with its crash-consistency
    laws.
  - `encryption`, `metrics`, `ffi`, `cli`: encryption at rest, counters, and what the
    interfaces check and render.
  - `sim`: adversarial agents, with proofs that the conflict logic defends against them and
    that a seed fixes a whole run.
- `app/` is ordinary Rust around the library: SQLite storage, the C interface, the command
  line, and the calls into the mesh layer.
- `tests/` runs the library.

## Trust

Calls into outside crates stand behind small wrappers. Where a few lines can say what such
a call returns, the wrapper's contract says it; elsewhere the result has a name, and the
contract says what it depends on. The mesh layer computes message ids and checks relay
signatures; the library takes both as arguments, and its results hold for every value of
them.
