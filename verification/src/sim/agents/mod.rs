//! Byzantine adversarial agents for the simulation harness.
//!
//! An agent first draws what it needs from the seeded generator. Where its attack needs
//! relay signatures, they are made and checked between that and its turn, outside the
//! simulation.
pub mod forged_proof;
pub mod race;
pub mod replay;

pub use forged_proof::{ForgedProofAgent, ForgeryPlan, RelayProofs};
pub use race::RaceAgent;
pub use replay::{ReplayAgent, ReplayPlan};

use crate::clock::MockClock;
use crate::sim::trace::Trace;
use crate::sim::world::SimWorld;
use rand::seq::SliceRandom;
use rand::{RngCore, SeedableRng};
use vstd::prelude::*;

verus! {

/// The 32 bytes of a seed's ChaCha12 stream from a position, in 32-bit words.
pub uninterp spec fn chacha12_bytes(seed: u64, position: u128) -> [u8; 32];

/// Calls `fill_bytes` of a `rand_chacha::ChaCha12Rng` that was seeded from a number and
/// set to a position. The claim: the bytes depend on the seed and the position alone.
#[verifier::external_body]
fn chacha_fill(seed: u64, position: u128) -> (bytes: [u8; 32])
    ensures
        bytes == chacha12_bytes(seed, position),
{
    let mut rng = rand_chacha::ChaCha12Rng::seed_from_u64(seed);
    rng.set_word_pos(position);
    let mut bytes = [0u8; 32];
    rng.fill_bytes(&mut bytes);
    bytes
}

/// The items in the order in which a seed's ChaCha12 stream shuffles them from a
/// position, and the position after that.
pub uninterp spec fn chacha12_shuffled(
    seed: u64,
    position: u128,
    items: Seq<[u8; 32]>,
) -> (Seq<[u8; 32]>, u128);

/// Calls `shuffle` of `rand::seq::SliceRandom` with a `rand_chacha::ChaCha12Rng` that was
/// seeded from a number and set to a position. The claims: the order, and the position
/// after the call, depend on the arguments alone; and the items are the same.
#[verifier::external_body]
fn chacha_shuffle(seed: u64, position: u128, items: &mut Vec<[u8; 32]>) -> (after: u128)
    ensures
        (final(items)@, after) == chacha12_shuffled(seed, position, old(items)@),
        final(items)@.to_multiset() == old(items)@.to_multiset(),
{
    let mut rng = rand_chacha::ChaCha12Rng::seed_from_u64(seed);
    rng.set_word_pos(position);
    items.shuffle(&mut rng);
    rng.get_word_pos()
}

/// A seeded generator: a seed, and how far its stream was read, in 32-bit words. Equal
/// generators draw equal values.
#[derive(Debug, Clone, Copy, PartialEq, Eq)]
pub struct SimRng {
    pub seed: u64,
    pub position: u128,
}

impl SimRng {
    /// The next 32 bytes.
    pub open spec fn next(self) -> [u8; 32] {
        chacha12_bytes(self.seed, self.position)
    }

    /// The generator after 32 bytes were drawn.
    pub open spec fn stepped(self) -> SimRng {
        SimRng {
            position: if self.position <= u128::MAX - 8 {
                (self.position + 8) as u128
            } else {
                (self.position + 8 - u128::MAX - 1) as u128
            },
            ..self
        }
    }

    /// A generator at the start of a seed's stream.
    pub fn new(seed: u64) -> (rng: SimRng)
        ensures
            rng == (SimRng { seed, position: 0 }),
    {
        SimRng { seed, position: 0 }
    }

    /// Draw 32 bytes.
    pub fn draw32(&mut self) -> (bytes: [u8; 32])
        ensures
            bytes == old(self).next(),
            *final(self) == old(self).stepped(),
    {
        let bytes = chacha_fill(self.seed, self.position);
        self.position = self.position.wrapping_add(8);
        bytes
    }

    /// Put items into a random order.
    pub fn shuffle(&mut self, items: &mut Vec<[u8; 32]>)
        ensures
            final(self).seed == old(self).seed,
            (final(items)@, final(self).position) == chacha12_shuffled(
                old(self).seed,
                old(self).position,
                old(items)@,
            ),
            final(items)@.to_multiset() == old(items)@.to_multiset(),
    {
        self.position = chacha_shuffle(self.seed, self.position, items);
    }
}

/// Mutable state an agent gets for one turn.
pub struct AgentCtx {
    pub seed: u64,
    pub rng: SimRng,
    pub clock: MockClock,
    pub world: SimWorld,
    pub trace: Trace,
}

/// Result of one agent turn. `InvariantViolation` fails the harness run.
#[derive(Debug, Clone, PartialEq, Eq)]
pub enum AgentOutcome {
    /// Attack was mounted and the system defended correctly.
    Defended { summary: String },
    /// Attack exposed a real bug / invariant break.
    InvariantViolation { summary: String },
}

impl AgentOutcome {
    /// The summary.
    pub open spec fn summary(self) -> Seq<char> {
        match self {
            AgentOutcome::Defended { summary } => summary@,
            AgentOutcome::InvariantViolation { summary } => summary@,
        }
    }
}

/// A relay proof that an agent needs: a statement of the relay with this signing seed
/// that it forwarded an envelope.
#[derive(Debug, Clone, Copy, PartialEq, Eq)]
pub struct ProofRequest {
    pub relay_seed: [u8; 32],
    pub message_id: [u8; 32],
    pub chain_hash: [u8; 32],
    pub sequence: u64,
}

/// A draw moves the generator on by eight words of its own stream, and round to its start at
/// the end.
pub proof fn draws_move_the_generator_on(rng: SimRng)
    ensures
        rng.stepped().seed == rng.seed,
        rng.position <= u128::MAX - 8 ==> rng.stepped().position == rng.position + 8,
        rng.position > u128::MAX - 8 ==> rng.stepped().position + u128::MAX + 1 == rng.position + 8,
        rng.next() == chacha12_bytes(rng.seed, rng.position),
{
}

} // verus!
