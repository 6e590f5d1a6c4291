//! Agent that replays previously-valid relay observations out of context.
use super::{AgentCtx, AgentOutcome, ProofRequest, SimRng};
use crate::bytes::bytes32_eq;
use crate::conflict::detector::{conflicts_between, QueuedSlot};
use crate::conflict::resolver::{
    corroborating_relays, corroboration, resolve_conflict, ConflictEvidence, RelayObservation,
};
use crate::errors::SyncEngineError;
use crate::keys::{ed25519_public, public_key};
use crate::message::RelayChainProof;
use crate::sim::world::observed;
use crate::text::{append_decimal, decimal, hex_of};
use vstd::prelude::*;
use vstd::string::*;

verus! {

/// Captures a valid observation, then replays it against the wrong sequence and after
/// its TTL - neither replay may decide a conflict.
#[derive(Debug, Clone, Copy)]
pub struct ReplayAgent;

/// What the agent draws: the ids of two envelopes, and the relay that observes the
/// first.
#[derive(Debug, Clone, Copy)]
pub struct ReplayPlan {
    pub id_a: [u8; 32],
    pub id_b: [u8; 32],
    pub relay_seed: [u8; 32],
}

/// The plan is what the generator draws: two ids, of which the second is made different
/// where it is not, and the relay's seed.
pub open spec fn is_planned(plan: ReplayPlan, rng: SimRng) -> bool {
    let id_b = rng.stepped().next();
    &&& plan.id_a == rng.next()
    &&& if plan.id_a == id_b {
        plan.id_b@ == flipped(id_b)
    } else {
        plan.id_b == id_b
    }
    &&& plan.relay_seed == rng.stepped().stepped().next()
}

/// The id with its first byte flipped.
pub open spec fn flipped(id: [u8; 32]) -> Seq<u8> {
    id@.update(0, id@[0] ^ 0xff)
}

/// The second id, made different from the first where it is not.
pub fn distinct_from(id_a: &[u8; 32], id_b: [u8; 32]) -> (r: [u8; 32])
    ensures
        r != *id_a,
        *id_a != id_b ==> r == id_b,
        *id_a == id_b ==> r@ == flipped(id_b),
{
    let mut r: [u8; 32] = id_b;
    if bytes32_eq(id_a, &id_b) {
        let byte: u8 = r[0];
        assert(byte ^ 0xffu8 != byte) by (bit_vector);
        r[0] = byte ^ 0xff;
        assert(r@ =~= flipped(id_b));
        assert(r@[0] != id_a@[0]);
    }
    r
}

/// The words of a truth value.
pub open spec fn truth(b: bool) -> Seq<char> {
    if b {
        "true"@
    } else {
        "false"@
    }
}

pub(crate) fn append_truth(out: &mut String, b: bool)
    ensures
        final(out)@ == old(out)@ + truth(b),
{
    if b {
        out.append("true");
    } else {
        out.append("false");
    }
}

/// A single observation is not a quorum.
proof fn lemma_one_relay(observation: RelayObservation, sequence: i64)
    ensures
        corroboration(seq![observation], sequence) <= 1,
        corroboration(Seq::<RelayObservation>::empty(), sequence) == 0,
{
    let one = seq![observation];
    assert(one.drop_last() =~= Seq::<RelayObservation>::empty());
    assert(corroborating_relays(one.drop_last(), sequence) == Set::<[u8; 32]>::empty());
}

/// The plan was drawn, and nothing but the generator moved.
pub open spec fn planned(before: AgentCtx, after: AgentCtx, plan: ReplayPlan) -> bool {
    &&& is_planned(plan, before.rng)
    &&& after.rng == before.rng.stepped().stepped().stepped()
    &&& after.seed == before.seed
    &&& after.clock == before.clock
    &&& after.world == before.world
    &&& after.trace == before.trace
}

/// The attack was mounted and defended: the victim took note of the relay's observation,
/// the time moved past the observation's time to live, and neither replay decided.
pub open spec fn replayed(
    before: AgentCtx,
    after: AgentCtx,
    plan: ReplayPlan,
    proof_of_relay: RelayChainProof,
    attested: bool,
    outcome: AgentOutcome,
) -> bool {
    &&& after.world.wf()
    &&& after.seed == before.seed
    &&& after.rng == before.rng
    &&& after.world.account == before.world.account
    &&& after.world.sequence == before.world.sequence
    &&& after.world.observation_ttl_secs == before.world.observation_ttl_secs
    &&& after.clock.current_time == before.clock.current_time + before.world.observation_ttl_secs
        + 1
    &&& after.world.observation_accepted_at@ == before.world.observation_accepted_at@.insert(
        hex_of(plan.id_a@),
        before.clock.current_time,
    )
    &&& exists|list: Vec<RelayObservation>| #[trigger]
        observed(
            before.world.devices@,
            after.world.devices@,
            "replay-victim"@,
            hex_of(plan.id_a@),
            list,
        ) && list@ == seq![
            (RelayObservation {
                relay_pubkey: ed25519_public(plan.relay_seed@),
                proof: proof_of_relay,
                attested,
            }),
        ]
    &&& after.trace@ == before.trace@.recorded(
        after.clock.current_time,
        "replay"@,
        "replay_attempts"@,
        "wrong_seq_defended="@ + truth(true) + " stale_lone_proof_unresolved="@ + truth(true)
            + " ttl="@ + decimal(before.world.observation_ttl_secs as nat),
    )
    &&& outcome matches AgentOutcome::Defended { summary } && summary@
        == "stale/out-of-sequence replays did not resolve a conflict"@
}

impl ReplayAgent {
    /// The name of the agent.
    pub fn name(&self) -> (name: &'static str)
        ensures
            name@ == "replay"@,
    {
        "replay"
    }

    /// Draw the ids and the relay. The two ids always differ.
    pub fn plan(&self, ctx: &mut AgentCtx) -> (plan: ReplayPlan)
        ensures
            plan.id_a != plan.id_b,
            planned(*old(ctx), *final(ctx), plan),
    {
        let id_a = ctx.rng.draw32();
        let drawn = ctx.rng.draw32();
        let id_b = distinct_from(&id_a, drawn);
        let relay_seed = ctx.rng.draw32();
        ReplayPlan { id_a, id_b, relay_seed }
    }

    /// The proof that the plan needs: the relay forwarded the first envelope.
    pub fn request(&self, plan: &ReplayPlan, sequence: i64) -> (r: ProofRequest)
        ensures
            r.relay_seed == plan.relay_seed,
            r.message_id == plan.id_a,
            r.chain_hash@ == Seq::new(32, |i: int| 9u8),
            r.sequence == sequence as u64,
    {
        let chain_hash: [u8; 32] = [9; 32];
        assert(chain_hash@ =~= Seq::new(32, |i: int| 9u8));
        ProofRequest {
            relay_seed: plan.relay_seed,
            message_id: plan.id_a,
            chain_hash,
            sequence: sequence as u64,
        }
    }

    /// Mount the attack with the relay's proof, given whether its signature was found
    /// to be valid. Neither replay decides a conflict, whatever the proof says: the
    /// outcome is always `Defended`.
    pub fn act(
        &self,
        ctx: &mut AgentCtx,
        plan: &ReplayPlan,
        proof_of_relay: RelayChainProof,
        attested: bool,
    ) -> (outcome: AgentOutcome)
        requires
            old(ctx).world.wf(),
            old(ctx).world.sequence < i64::MAX,
            old(ctx).clock.current_time + old(ctx).world.observation_ttl_secs + 1 <= u64::MAX,
            plan.id_a != plan.id_b,
        ensures
            replayed(*old(ctx), *final(ctx), *plan, proof_of_relay, attested, outcome),
            outcome is Defended,
    {
        let sequence: i64 = ctx.world.sequence;
        let at: u64 = ctx.clock.current_time;
        let slot_a = QueuedSlot {
            source_account: ctx.world.account.clone(),
            sequence,
            message_id: plan.id_a,
        };
        let slot_b = QueuedSlot {
            source_account: ctx.world.account.clone(),
            sequence,
            message_id: plan.id_b,
        };
        let conflict = conflicts_between(&slot_a, &slot_b).unwrap();
        let fresh = RelayObservation {
            relay_pubkey: public_key(&plan.relay_seed),
            proof: proof_of_relay,
            attested,
        };

        // Record acceptance time for TTL reasoning.
        let mut accepted: Vec<RelayObservation> = Vec::new();
        accepted.push(fresh.duplicate());
        assert(accepted@ =~= seq![fresh]);
        ctx.world.record_observations("replay-victim", &plan.id_a, accepted, at);

        // Advance simulated time past the observation TTL.
        let ttl: u64 = ctx.world.observation_ttl_secs;
        ctx.clock.advance(ttl + 1);
        let later: u64 = ctx.clock.current_time;

        // First replay: same proof, but the conflict's sequence is shifted.
        let shifted_a = QueuedSlot {
            source_account: ctx.world.account.clone(),
            sequence: sequence + 1,
            message_id: plan.id_a,
        };
        let shifted_b = QueuedSlot {
            source_account: ctx.world.account.clone(),
            sequence: sequence + 1,
            message_id: plan.id_b,
        };
        let wrong_seq_conflict = conflicts_between(&shifted_a, &shifted_b).unwrap();
        let mut replayed: Vec<RelayObservation> = Vec::new();
        replayed.push(fresh.duplicate());
        assert(replayed@ =~= seq![fresh]);
        let replayed_wrong_seq = ConflictEvidence {
            envelope_a_timestamp: at,
            envelope_b_timestamp: at,
            envelope_a_observations: replayed,
            envelope_b_observations: Vec::new(),
        };
        proof {
            lemma_one_relay(fresh, wrong_seq_conflict.sequence);
            lemma_one_relay(fresh, conflict.sequence);
            assert(replayed_wrong_seq.envelope_b_observations@ =~= Seq::<
                RelayObservation,
            >::empty());
        }
        let wrong_seq_ok = match resolve_conflict(&wrong_seq_conflict, &replayed_wrong_seq) {
            Err(SyncEngineError::UnresolvedConflict(_)) => true,
            _ => false,
        };

        // Second replay: same sequence, but past the TTL. A lone stale observation is
        // below the quorum.
        let mut stale: Vec<RelayObservation> = Vec::new();
        stale.push(fresh);
        assert(stale@ =~= seq![fresh]);
        let stale_evidence = ConflictEvidence {
            envelope_a_timestamp: at,
            envelope_b_timestamp: at,
            envelope_a_observations: stale,
            envelope_b_observations: Vec::new(),
        };
        assert(stale_evidence.envelope_b_observations@ =~= Seq::<RelayObservation>::empty());
        let stale_ok = match resolve_conflict(&conflict, &stale_evidence) {
            Err(SyncEngineError::UnresolvedConflict(_)) => true,
            _ => false,
        };

        let mut detail = "wrong_seq_defended=".to_owned();
        append_truth(&mut detail, wrong_seq_ok);
        detail.append(" stale_lone_proof_unresolved=");
        append_truth(&mut detail, stale_ok);
        detail.append(" ttl=");
        append_decimal(&mut detail, ttl);
        ctx.trace.record(later, self.name(), "replay_attempts", detail.as_str());

        if wrong_seq_ok && stale_ok {
            AgentOutcome::Defended {
                summary: "stale/out-of-sequence replays did not resolve a conflict".to_owned(),
            }
        } else {
            let mut msg = "replay slipped through: wrong_seq_ok=".to_owned();
            append_truth(&mut msg, wrong_seq_ok);
            msg.append(" stale_ok=");
            append_truth(&mut msg, stale_ok);
            ctx.trace.fail(msg.as_str());
            AgentOutcome::InvariantViolation { summary: msg }
        }
    }
}

/// A flipped id differs from the id in its first byte, and nowhere else.
pub proof fn flipping_changes_the_first_byte(id: [u8; 32], i: int)
    requires
        0 <= i < 32,
    ensures
        flipped(id).len() == 32,
        flipped(id)[i] == id@[i] <==> i != 0,
{
    let byte: u8 = id@[0];
    assert(byte ^ 0xffu8 != byte) by (bit_vector);
}

/// A plan is drawn from the generator: the first id and the relay as they come, and the second
/// id as it comes where it differs from the first. The two ids always differ.
pub proof fn plans_name_two_envelopes(plan: ReplayPlan, rng: SimRng)
    requires
        is_planned(plan, rng),
    ensures
        plan.id_a == rng.next(),
        plan.relay_seed == rng.stepped().stepped().next(),
        rng.next() != rng.stepped().next() ==> plan.id_b == rng.stepped().next(),
        plan.id_a != plan.id_b,
{
    if rng.next() == rng.stepped().next() {
        flipping_changes_the_first_byte(rng.stepped().next(), 0);
    }
}

/// A replay is mounted after the observation has gone stale, leaves one event that says that
/// neither replay decided, and is defended.
pub proof fn replays_come_too_late(
    before: AgentCtx,
    after: AgentCtx,
    plan: ReplayPlan,
    proof_of_relay: RelayChainProof,
    attested: bool,
    outcome: AgentOutcome,
)
    requires
        replayed(before, after, plan, proof_of_relay, attested, outcome),
    ensures
        outcome is Defended,
        after.clock.current_time > before.clock.current_time + before.world.observation_ttl_secs,
        after.trace@.events.len() == before.trace@.events.len() + 1,
        after.trace@.failure == before.trace@.failure,
        after.world.observation_accepted_at@.dom().contains(hex_of(plan.id_a@)),
        after.world.observation_accepted_at@[hex_of(plan.id_a@)] == before.clock.current_time,
{
}

} // verus!
