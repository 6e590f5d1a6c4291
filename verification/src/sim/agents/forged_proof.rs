//! Agent that forges / tampers relay-chain proofs and injects them into conflict
//! evidence.
use super::{AgentCtx, AgentOutcome, ProofRequest, SimRng};
use crate::conflict::detector::{conflicts_between, QueuedSlot};
use crate::conflict::resolver::{
    corroborating_relays, corroboration, resolve_conflict, standing_of, ConflictEvidence,
    QuorumStanding, RelayObservation,
};
use crate::bytes::bytes32_eq;
use crate::keys::{ed25519_public, public_key};
use crate::message::RelayChainProof;
use crate::sim::trace::TraceView;
use crate::text::{hex_of, hex_string};
use vstd::prelude::*;
use vstd::string::*;

verus! {

/// Crafts four classes of bad proofs; none of them may win a conflict against an honest
/// quorum.
#[derive(Debug, Clone, Copy)]
pub struct ForgedProofAgent;

/// What the agent draws: two envelopes, two honest relays that forwarded the first, the
/// hash of the relay chain, and a relay of the adversary's own.
#[derive(Debug, Clone, Copy)]
pub struct ForgeryPlan {
    pub honest_a: [u8; 32],
    pub honest_b: [u8; 32],
    pub relay1_seed: [u8; 32],
    pub relay2_seed: [u8; 32],
    pub chain_hash: [u8; 32],
    pub sybil_seed: [u8; 32],
}

/// The proofs that the relays of a plan made.
#[derive(Debug, Clone, Copy)]
pub struct RelayProofs {
    /// Of the first honest relay, for the first envelope.
    pub relay1: RelayChainProof,
    /// Of the second honest relay, for the first envelope.
    pub relay2: RelayChainProof,
    /// Of the adversary's relay, for the second envelope.
    pub sybil: RelayChainProof,
}

/// Bytes, each combined with a tag.
pub open spec fn tagged(tag: u8, mix: Seq<u8>) -> Seq<u8> {
    Seq::new(mix.len(), |i: int| tag ^ mix[i])
}

/// The plan is what the generator draws: the two ids with their tags, the seeds of the
/// honest relays, the chain hash, and the seed of the adversary's relay.
pub open spec fn is_planned(plan: ForgeryPlan, rng: SimRng) -> bool {
    let second = rng.stepped();
    let third = second.stepped();
    let fourth = third.stepped();
    let fifth = fourth.stepped();
    &&& plan.honest_a@ == tagged(0xa1, rng.next()@)
    &&& plan.honest_b@ == tagged(0xb2, second.next()@)
    &&& plan.relay1_seed == third.next()
    &&& plan.relay2_seed == fourth.next()
    &&& plan.chain_hash == fifth.next()
    &&& plan.sybil_seed == fifth.stepped().next()
}

/// A message id: drawn bytes, each combined with a tag.
pub fn tagged_id(tag: u8, mix: &[u8; 32]) -> (id: [u8; 32])
    ensures
        id@ == tagged(tag, mix@),
{
    let mut id: [u8; 32] = [0; 32];
    let mut i: usize = 0;
    while i < 32
        invariant
            i <= 32,
            forall|j: int| 0 <= j < i ==> id@[j] == tag ^ mix@[j],
        decreases 32 - i,
    {
        id[i] = tag ^ mix[i];
        i += 1;
    }
    assert(id@ =~= tagged(tag, mix@));
    id
}

/// An observation by the relay with a signing seed.
pub open spec fn is_observation(
    o: RelayObservation,
    seed: [u8; 32],
    signature: Seq<u8>,
    chain_hash: Seq<u8>,
    sequence: u64,
) -> bool {
    &&& o.relay_pubkey == ed25519_public(seed@)
    &&& o.proof.signature@ == signature
    &&& o.proof.chain_hash@ == chain_hash
    &&& o.proof.sequence == sequence
}

/// The observation is the proof as the relay made it.
pub open spec fn is_genuine(o: RelayObservation, seed: [u8; 32], p: RelayChainProof) -> bool {
    is_observation(o, seed, p.signature@, p.chain_hash@, p.sequence)
}

/// The evidence that the agent makes of the relays' proofs: for the first envelope the
/// two honest observations, the first with bits of its signature flipped and the second
/// with another chain hash; for the second envelope the first honest observation, and
/// that of the adversary's relay.
pub open spec fn is_forged(
    evidence: ConflictEvidence,
    plan: ForgeryPlan,
    proofs: RelayProofs,
    at: u64,
) -> bool {
    let a = evidence.envelope_a_observations@;
    let b = evidence.envelope_b_observations@;
    &&& evidence.envelope_a_timestamp == at
    &&& evidence.envelope_b_timestamp == if at == u64::MAX {
        at
    } else {
        (at + 1) as u64
    }
    &&& a.len() == 4
    &&& b.len() == 2
    &&& is_genuine(a[0], plan.relay1_seed, proofs.relay1)
    &&& is_genuine(a[1], plan.relay2_seed, proofs.relay2)
    &&& is_observation(
        a[2],
        plan.relay1_seed,
        proofs.relay1.signature@.update(0, proofs.relay1.signature@[0] ^ 0xff).update(
            31,
            proofs.relay1.signature@[31] ^ 0xaa,
        ),
        proofs.relay1.chain_hash@,
        proofs.relay1.sequence,
    )
    &&& is_observation(
        a[3],
        plan.relay2_seed,
        proofs.relay2.signature@,
        proofs.relay2.chain_hash@.update(0, proofs.relay2.chain_hash@[0] ^ 0x5a),
        proofs.relay2.sequence,
    )
    &&& is_genuine(b[0], plan.relay1_seed, proofs.relay1)
    &&& is_genuine(b[1], plan.sybil_seed, proofs.sybil)
}

/// What becomes of the attack where the relays weigh in as given.
pub open spec fn forgery_outcome(
    plan: ForgeryPlan,
    standing: QuorumStanding,
    outcome: AgentOutcome,
) -> bool {
    match standing {
        QuorumStanding::Decisive(winner) => if winner == plan.honest_a {
            outcome matches AgentOutcome::Defended { summary } && summary@
                == "forged/tampered proofs did not overturn honest quorum"@
        } else {
            outcome matches AgentOutcome::InvariantViolation { summary } && summary@
                == "forged proofs caused unexpected winner "@ + hex_of(winner@)
        },
        _ => outcome matches AgentOutcome::Defended { summary } && summary@
            == "resolver left conflict unresolved rather than trusting forgeries"@,
    }
}

/// The trace after the attack.
pub open spec fn forgery_trace(
    before: TraceView,
    at: u64,
    plan: ForgeryPlan,
    evidence: ConflictEvidence,
    standing: QuorumStanding,
) -> TraceView {
    let a = evidence.envelope_a_observations@;
    let b = evidence.envelope_b_observations@;
    let injected = before.recorded(
        at,
        "forged_proof"@,
        "injected_forgeries"@,
        "tampered_sig="@ + hex_of(a[2].proof.signature@) + " mutated_hash="@ + hex_of(
            a[3].proof.chain_hash@,
        ) + " cross_wired="@ + hex_of(b[0].relay_pubkey@) + " sybil="@ + hex_of(
            b[1].relay_pubkey@,
        ),
    );
    match standing {
        QuorumStanding::Decisive(winner) => if winner == plan.honest_a {
            injected.recorded(
                at,
                "forged_proof"@,
                "forged_proof_rejected"@,
                "winner="@ + hex_of(winner@),
            )
        } else {
            injected.failed("forged proofs caused unexpected winner "@ + hex_of(winner@))
        },
        _ => injected.recorded(
            at,
            "forged_proof"@,
            "forged_proof_unresolved"@,
            "resolver refused to decide under forged evidence"@,
        ),
    }
}

/// How the conflict between the two envelopes of a plan stands on the evidence.
pub open spec fn forgery_standing(
    plan: ForgeryPlan,
    account: String,
    sequence: i64,
    evidence: ConflictEvidence,
) -> QuorumStanding {
    standing_of(
        crate::conflict::detector::Conflict {
            source_account: account,
            sequence,
            envelope_a: plan.honest_a,
            envelope_b: plan.honest_b,
        },
        corroboration(evidence.envelope_a_observations@, sequence),
        corroboration(evidence.envelope_b_observations@, sequence),
    )
}

/// The plan was drawn, and nothing but the generator moved.
pub open spec fn planned(before: AgentCtx, after: AgentCtx, plan: ForgeryPlan) -> bool {
    &&& is_planned(plan, before.rng)
    &&& after.rng == before.rng.stepped().stepped().stepped().stepped().stepped().stepped()
    &&& after.seed == before.seed
    &&& after.clock == before.clock
    &&& after.world == before.world
    &&& after.trace == before.trace
}

/// The attack was mounted: it is traced and judged by how the conflict stands on the
/// evidence, and nothing else changes.
pub open spec fn forged(
    before: AgentCtx,
    after: AgentCtx,
    plan: ForgeryPlan,
    evidence: ConflictEvidence,
    outcome: AgentOutcome,
) -> bool {
    let standing = forgery_standing(plan, before.world.account, before.world.sequence, evidence);
    &&& after.seed == before.seed
    &&& after.rng == before.rng
    &&& after.clock == before.clock
    &&& after.world == before.world
    &&& after.trace@ == forgery_trace(
        before.trace@,
        before.clock.current_time,
        plan,
        evidence,
        standing,
    )
    &&& forgery_outcome(plan, standing, outcome)
}

impl ForgedProofAgent {
    /// The name of the agent.
    pub fn name(&self) -> (name: &'static str)
        ensures
            name@ == "forged_proof"@,
    {
        "forged_proof"
    }

    /// Draw the envelopes, relays and chain hash.
    pub fn plan(&self, ctx: &mut AgentCtx) -> (plan: ForgeryPlan)
        ensures
            planned(*old(ctx), *final(ctx), plan),
    {
        let mix_a = ctx.rng.draw32();
        let mix_b = ctx.rng.draw32();
        let relay1_seed = ctx.rng.draw32();
        let relay2_seed = ctx.rng.draw32();
        let chain_hash = ctx.rng.draw32();
        let sybil_seed = ctx.rng.draw32();
        ForgeryPlan {
            honest_a: tagged_id(0xa1, &mix_a),
            honest_b: tagged_id(0xb2, &mix_b),
            relay1_seed,
            relay2_seed,
            chain_hash,
            sybil_seed,
        }
    }

    /// The proofs that the plan needs: of the two honest relays for the first envelope,
    /// and of the adversary's relay for the second.
    pub fn requests(&self, plan: &ForgeryPlan, sequence: i64) -> (r: (
        ProofRequest,
        ProofRequest,
        ProofRequest,
    ))
        ensures
            r.0 == (ProofRequest {
                relay_seed: plan.relay1_seed,
                message_id: plan.honest_a,
                chain_hash: plan.chain_hash,
                sequence: sequence as u64,
            }),
            r.1 == (ProofRequest {
                relay_seed: plan.relay2_seed,
                message_id: plan.honest_a,
                chain_hash: plan.chain_hash,
                sequence: sequence as u64,
            }),
            r.2 == (ProofRequest {
                relay_seed: plan.sybil_seed,
                message_id: plan.honest_b,
                chain_hash: plan.chain_hash,
                sequence: sequence as u64,
            }),
    {
        let sequence: u64 = sequence as u64;
        (
            ProofRequest {
                relay_seed: plan.relay1_seed,
                message_id: plan.honest_a,
                chain_hash: plan.chain_hash,
                sequence,
            },
            ProofRequest {
                relay_seed: plan.relay2_seed,
                message_id: plan.honest_a,
                chain_hash: plan.chain_hash,
                sequence,
            },
            ProofRequest {
                relay_seed: plan.sybil_seed,
                message_id: plan.honest_b,
                chain_hash: plan.chain_hash,
                sequence,
            },
        )
    }

    /// Make the forged evidence of the relays' proofs. None of it counts as attested
    /// until its signatures were checked.
    pub fn forge(&self, plan: &ForgeryPlan, proofs: &RelayProofs, at: u64) -> (evidence:
        ConflictEvidence)
        ensures
            is_forged(evidence, *plan, *proofs, at),
            forall|i: int|
                0 <= i < 4 ==> !(#[trigger] evidence.envelope_a_observations@[i]).attested,
            forall|i: int|
                0 <= i < 2 ==> !(#[trigger] evidence.envelope_b_observations@[i]).attested,
    {
        let relay1 = public_key(&plan.relay1_seed);
        let relay2 = public_key(&plan.relay2_seed);
        let sybil = public_key(&plan.sybil_seed);
        let honest1 = RelayObservation {
            relay_pubkey: relay1,
            proof: proofs.relay1,
            attested: false,
        };
        let honest2 = RelayObservation {
            relay_pubkey: relay2,
            proof: proofs.relay2,
            attested: false,
        };

        // Flip bits in a valid signature (classic tamper).
        let mut signature: [u8; 64] = proofs.relay1.signature;
        let byte0: u8 = signature[0];
        signature[0] = byte0 ^ 0xff;
        let byte31: u8 = signature[31];
        signature[31] = byte31 ^ 0xaa;
        let tampered = RelayObservation {
            relay_pubkey: relay1,
            proof: RelayChainProof {
                signature,
                chain_hash: proofs.relay1.chain_hash,
                sequence: proofs.relay1.sequence,
            },
            attested: false,
        };

        // Change the chain hash after signing, so the signature is over the old one.
        let mut chain_hash: [u8; 32] = proofs.relay2.chain_hash;
        let first: u8 = chain_hash[0];
        chain_hash[0] = first ^ 0x5a;
        let mutated_hash = RelayObservation {
            relay_pubkey: relay2,
            proof: RelayChainProof {
                signature: proofs.relay2.signature,
                chain_hash,
                sequence: proofs.relay2.sequence,
            },
            attested: false,
        };

        // A proof signed for the first envelope, attached as evidence for the second.
        let cross_wired = honest1.duplicate();

        // A relay of the adversary's own that really vouches for the second envelope.
        let sybil_obs = RelayObservation {
            relay_pubkey: sybil,
            proof: proofs.sybil,
            attested: false,
        };

        let mut envelope_a_observations: Vec<RelayObservation> = Vec::new();
        envelope_a_observations.push(honest1);
        envelope_a_observations.push(honest2);
        envelope_a_observations.push(tampered);
        envelope_a_observations.push(mutated_hash);
        let mut envelope_b_observations: Vec<RelayObservation> = Vec::new();
        envelope_b_observations.push(cross_wired);
        envelope_b_observations.push(sybil_obs);
        ConflictEvidence {
            envelope_a_timestamp: at,
            envelope_b_timestamp: at.saturating_add(1),
            envelope_a_observations,
            envelope_b_observations,
        }
    }

    /// Mount the attack with the forged evidence, after its signatures were checked. It
    /// is an invariant violation only where the resolver awards the second envelope.
    pub fn act(&self, ctx: &mut AgentCtx, plan: &ForgeryPlan, evidence: &ConflictEvidence) -> (
    outcome: AgentOutcome)
        requires
            plan.honest_a != plan.honest_b,
            evidence.envelope_a_observations@.len() == 4,
            evidence.envelope_b_observations@.len() == 2,
        ensures
            forged(*old(ctx), *final(ctx), *plan, *evidence, outcome),
    {
        let sequence: i64 = ctx.world.sequence;
        let at: u64 = ctx.clock.current_time;
        let slot_a = QueuedSlot {
            source_account: ctx.world.account.clone(),
            sequence,
            message_id: plan.honest_a,
        };
        let slot_b = QueuedSlot {
            source_account: ctx.world.account.clone(),
            sequence,
            message_id: plan.honest_b,
        };
        let conflict = conflicts_between(&slot_a, &slot_b).unwrap();
        let a = &evidence.envelope_a_observations;
        let b = &evidence.envelope_b_observations;

        let mut detail = "tampered_sig=".to_owned();
        detail.append(hex_string(a[2].proof.signature.as_slice()).as_str());
        detail.append(" mutated_hash=");
        detail.append(hex_string(a[3].proof.chain_hash.as_slice()).as_str());
        detail.append(" cross_wired=");
        detail.append(hex_string(b[0].relay_pubkey.as_slice()).as_str());
        detail.append(" sybil=");
        detail.append(hex_string(b[1].relay_pubkey.as_slice()).as_str());
        ctx.trace.record(at, self.name(), "injected_forgeries", detail.as_str());

        match resolve_conflict(&conflict, evidence) {
            Ok(winner) => {
                if bytes32_eq(&winner, &plan.honest_a) {
                    // Expected: the honest quorum stands; forgeries add nothing.
                    let mut detail = "winner=".to_owned();
                    detail.append(hex_string(winner.as_slice()).as_str());
                    ctx.trace.record(at, self.name(), "forged_proof_rejected", detail.as_str());
                    AgentOutcome::Defended {
                        summary: "forged/tampered proofs did not overturn honest quorum".to_owned(),
                    }
                } else {
                    let mut msg = "forged proofs caused unexpected winner ".to_owned();
                    msg.append(hex_string(winner.as_slice()).as_str());
                    ctx.trace.fail(msg.as_str());
                    AgentOutcome::InvariantViolation { summary: msg }
                }
            },
            Err(_) => {
                // Also acceptable: no side was awarded. The resolver has no other error.
                ctx.trace.record(
                    at,
                    self.name(),
                    "forged_proof_unresolved",
                    "resolver refused to decide under forged evidence",
                );
                AgentOutcome::Defended {
                    summary:
                        "resolver left conflict unresolved rather than trusting forgeries".to_owned(),
                }
            },
        }
    }
}

/// The relays that corroborate a side with two observations.
proof fn lemma_two(o: Seq<RelayObservation>, sequence: i64)
    requires
        o.len() == 2,
        !o[0].counts(sequence),
    ensures
        corroboration(o, sequence) <= 1,
{
    let one = o.drop_last();
    assert(one.drop_last() =~= Seq::<RelayObservation>::empty());
    assert(corroborating_relays(one.drop_last(), sequence) == Set::<[u8; 32]>::empty());
    assert(corroborating_relays(one, sequence) == Set::<[u8; 32]>::empty());
}

/// A relay whose observation counts is among the corroborating ones.
proof fn lemma_counted(o: Seq<RelayObservation>, sequence: i64, i: int)
    requires
        0 <= i < o.len(),
        o[i].counts(sequence),
    ensures
        corroborating_relays(o, sequence).contains(o[i].relay_pubkey),
        corroborating_relays(o, sequence).finite(),
    decreases o.len(),
{
    lemma_finite(o, sequence);
    if i < o.len() - 1 {
        lemma_counted(o.drop_last(), sequence, i);
    }
}

proof fn lemma_finite(o: Seq<RelayObservation>, sequence: i64)
    ensures
        corroborating_relays(o, sequence).finite(),
    decreases o.len(),
{
    if o.len() > 0 {
        lemma_finite(o.drop_last(), sequence);
    }
}

/// Forgeries never win: a proof that was signed for the first envelope does not count
/// for the second, and the adversary's single relay is below the quorum. Whatever else
/// is attested, the attack is defended.
pub proof fn forgeries_never_win(
    plan: ForgeryPlan,
    account: String,
    sequence: i64,
    evidence: ConflictEvidence,
    outcome: AgentOutcome,
)
    requires
        evidence.envelope_b_observations@.len() == 2,
        !evidence.envelope_b_observations@[0].attested,
        forgery_outcome(plan, forgery_standing(plan, account, sequence, evidence), outcome),
    ensures
        outcome is Defended,
{
    lemma_two(evidence.envelope_b_observations@, sequence);
}

/// Forgeries do not poison the honest side: where the two honest observations are
/// attested by two different relays, the first envelope wins.
pub proof fn honest_quorum_stands(
    plan: ForgeryPlan,
    account: String,
    sequence: i64,
    evidence: ConflictEvidence,
)
    requires
        evidence.envelope_a_observations@.len() == 4,
        evidence.envelope_b_observations@.len() == 2,
        evidence.envelope_a_observations@[0].counts(sequence),
        evidence.envelope_a_observations@[1].counts(sequence),
        evidence.envelope_a_observations@[0].relay_pubkey
            != evidence.envelope_a_observations@[1].relay_pubkey,
        !evidence.envelope_b_observations@[0].attested,
    ensures
        forgery_standing(plan, account, sequence, evidence) == QuorumStanding::Decisive(
            plan.honest_a,
        ),
{
    let a = evidence.envelope_a_observations@;
    lemma_two(evidence.envelope_b_observations@, sequence);
    lemma_counted(a, sequence, 0);
    lemma_counted(a, sequence, 1);
    let relays = corroborating_relays(a, sequence);
    let two = Set::<[u8; 32]>::empty().insert(a[0].relay_pubkey).insert(a[1].relay_pubkey);
    assert(two.subset_of(relays));
    vstd::set_lib::lemma_len_subset(two, relays);
    assert(two.len() == 2);
}

/// A tag can be taken off again.
pub proof fn tags_can_be_taken_off(tag: u8, mix: Seq<u8>)
    ensures
        tagged(tag, tagged(tag, mix)) == mix,
        tagged(tag, mix).len() == mix.len(),
{
    assert forall|i: int| 0 <= i < mix.len() implies tagged(tag, tagged(tag, mix))[i] == mix[i] by {
        let b: u8 = mix[i];
        assert(tag ^ (tag ^ b) == b) by (bit_vector);
    }
    assert(tagged(tag, tagged(tag, mix)) =~= mix);
}

/// The attack breaks an invariant exactly where the resolver awards another envelope than the
/// honest one; a failure of the trace says so, and every other attack adds two events.
pub proof fn only_a_wrong_winner_breaks_the_invariant(
    before: TraceView,
    at: u64,
    plan: ForgeryPlan,
    evidence: ConflictEvidence,
    standing: QuorumStanding,
    outcome: AgentOutcome,
)
    requires
        forgery_outcome(plan, standing, outcome),
        before.failure is None,
    ensures
        outcome is InvariantViolation <==> (standing matches QuorumStanding::Decisive(winner)
            && winner != plan.honest_a),
        ({
            let after = forgery_trace(before, at, plan, evidence, standing);
            &&& outcome is InvariantViolation <==> after.failure is Some
            &&& outcome is InvariantViolation ==> after.failure == Some(outcome.summary())
            &&& after.events.len() == before.events.len() + if outcome is Defended {
                2int
            } else {
                1int
            }
        }),
{
}

/// The forged evidence holds what its relays signed, and forgeries that they did not: for the
/// first envelope a changed signature of the first relay and a changed chain hash of the
/// second, and for the second envelope a proof that the first relay made for the first one.
pub proof fn forgeries_differ_from_what_was_signed(
    evidence: ConflictEvidence,
    plan: ForgeryPlan,
    proofs: RelayProofs,
    at: u64,
)
    requires
        is_forged(evidence, plan, proofs, at),
    ensures
        ({
            let a = evidence.envelope_a_observations@;
            let b = evidence.envelope_b_observations@;
            &&& a.len() == 4 && b.len() == 2
            &&& a[0].proof == proofs.relay1 && a[1].proof == proofs.relay2
            &&& b[0].proof == proofs.relay1 && b[1].proof == proofs.sybil
            &&& a[2].relay_pubkey == a[0].relay_pubkey && a[2].proof.signature
                != proofs.relay1.signature && a[2].proof.chain_hash == proofs.relay1.chain_hash
            &&& a[3].relay_pubkey == a[1].relay_pubkey && a[3].proof.chain_hash
                != proofs.relay2.chain_hash && a[3].proof.signature == proofs.relay2.signature
            &&& a[0].relay_pubkey == ed25519_public(plan.relay1_seed@)
            &&& a[1].relay_pubkey == ed25519_public(plan.relay2_seed@)
            &&& b[0].relay_pubkey == a[0].relay_pubkey
            &&& b[1].relay_pubkey == ed25519_public(plan.sybil_seed@)
            &&& evidence.envelope_a_timestamp == at
        }),
{
    let a = evidence.envelope_a_observations@;
    let b = evidence.envelope_b_observations@;
    assert(a[0].proof.signature =~= proofs.relay1.signature);
    assert(a[0].proof.chain_hash =~= proofs.relay1.chain_hash);
    assert(a[1].proof.signature =~= proofs.relay2.signature);
    assert(a[1].proof.chain_hash =~= proofs.relay2.chain_hash);
    assert(b[0].proof.signature =~= proofs.relay1.signature);
    assert(b[0].proof.chain_hash =~= proofs.relay1.chain_hash);
    assert(b[1].proof.signature =~= proofs.sybil.signature);
    assert(b[1].proof.chain_hash =~= proofs.sybil.chain_hash);
    assert(a[2].proof.chain_hash =~= proofs.relay1.chain_hash);
    assert(a[3].proof.signature =~= proofs.relay2.signature);
    let x: u8 = proofs.relay1.signature@[0];
    assert(x ^ 0xffu8 != x) by (bit_vector);
    assert(a[2].proof.signature@[0] != proofs.relay1.signature@[0]);
    let y: u8 = proofs.relay2.chain_hash@[0];
    assert(y ^ 0x5au8 != y) by (bit_vector);
    assert(a[3].proof.chain_hash@[0] != proofs.relay2.chain_hash@[0]);
}

/// A plan is drawn from six draws in a row: taking the tags off the ids gives the first two, and
/// the others are taken as they come.
pub proof fn plans_are_drawn_in_order(plan: ForgeryPlan, rng: SimRng)
    requires
        is_planned(plan, rng),
    ensures
        tagged(0xa1, plan.honest_a@) == rng.next()@,
        tagged(0xb2, plan.honest_b@) == rng.stepped().next()@,
        plan.relay1_seed == rng.stepped().stepped().next(),
        plan.relay2_seed == rng.stepped().stepped().stepped().next(),
        plan.chain_hash == rng.stepped().stepped().stepped().stepped().next(),
        plan.sybil_seed == rng.stepped().stepped().stepped().stepped().stepped().next(),
{
    tags_can_be_taken_off(0xa1, rng.next()@);
    tags_can_be_taken_off(0xb2, rng.stepped().next()@);
}

} // verus!
