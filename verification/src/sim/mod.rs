//! Deterministic simulation harness and Byzantine adversarial agents.
//!
//! A seeded harness with a virtual clock, an append-only execution [`trace::Trace`] and
//! adversarial agents that attack the real conflict logic:
//!
//! | Agent | Attack |
//! |-------|--------|
//! | [`agents::ForgedProofAgent`] | Tampered / cross-wired relay proofs |
//! | [`agents::ReplayAgent`] | Re-inject valid observations out of context |
//! | [`agents::RaceAgent`] | Conflicting envelopes at the same tick, in any order |
//!
//! Agents touch neither wall clocks nor the system's entropy: their random draws come
//! from the harness's seeded generator. So a seed fixes a run: see [`run`].
pub mod agents;
pub mod harness;
pub mod run;
pub mod sweep;
pub mod trace;
pub mod world;

pub use agents::{AgentCtx, AgentOutcome, ForgedProofAgent, RaceAgent, ReplayAgent};
pub use harness::{SimConfig, SimHarness, SimReport};
pub use sweep::{Sweep, SweepConfig, SweepReport};
pub use trace::{Trace, TraceEvent};
pub use world::{SimDevice, SimWorld};
