//! VRF-based deterministic tie-break for conflict resolution.
//!
//! A conflict whose two sides are equally well corroborated is decided, as the
//! last resort before on-chain escalation, by a verifiable random function: the
//! outcome is unpredictable until both envelopes are fixed, yet anyone can check
//! it.
//!
//! * **Canonical input** `alpha`: a hash of the slot and the two envelope ids in
//!   ascending order, so it does not depend on which side is labelled `a`.
//! * **Output selection**: the winner is the smaller id when the first byte of
//!   the VRF output `beta` is even, else the larger.
//! * **Evaluator**: of the relays that corroborated the conflict, the one with
//!   the least hash of `alpha` and its identity. If it is offline the conflict
//!   escalates; there is no fallback, since that would reintroduce a choice.
use crate::bytes::{
    be_bytes, bytes32_eq, bytes64_eq, bytes_lt, lex_lt, lex_lt_is_total, lex_lt_is_transitive,
    u64_to_be_bytes,
};
use crate::conflict::detector::Conflict;
use crate::errors::SyncEngineError;
use crate::hashing::{long_digests_collide, sha512, sha512_digest};
use crate::keys::{ed25519_public, public_key};
use crate::text::{hex_of, hex_string};
use vstd::prelude::*;
use vstd::string::*;
use vstd::utf8::encode_utf8;

verus! {

/// Domain separator folded into the canonical VRF input `alpha`.
pub const INPUT_DOMAIN: &'static str = "stellarconduit/conflict/vrf-tiebreak/v1/input";

/// Domain separator for the evaluator-selection hash.
pub const EVALUATOR_DOMAIN: &'static str = "stellarconduit/conflict/vrf-tiebreak/v1/evaluator";

/// Label of the VRF transcript.
pub const VRF_CONTEXT: &'static str = "stellarconduit/conflict/vrf-tiebreak/v1/vrf";

/// Label for turning the VRF in/out into the selection coin.
pub const OUTPUT_LABEL: &'static str = "stellarconduit/conflict/vrf-tiebreak/v1/winner";

// ---------------------------------------------------------------------------
// The VRF
// ---------------------------------------------------------------------------

/// The VRF public key of the identity with the given seed.
pub uninterp spec fn vrf_public_key(seed: Seq<u8>) -> [u8; 32];

/// The VRF pre-output and output of the identity with the given seed on `alpha`,
/// under a transcript context and an output label.
pub uninterp spec fn vrf_evaluation(
    seed: Seq<u8>,
    context: Seq<u8>,
    label: Seq<u8>,
    alpha: Seq<u8>,
) -> ([u8; 32], [u8; 32]);

/// Why 32 bytes are not a VRF public key; `None` where they are one.
pub uninterp spec fn vrf_key_fault(key: Seq<u8>) -> Option<Seq<char>>;

/// Why 64 bytes are not a VRF proof; `None` where they are one.
pub uninterp spec fn vrf_proof_fault(proof: Seq<u8>) -> Option<Seq<char>>;

/// The outcome of verifying a VRF proof: the VRF output, or why it failed.
pub uninterp spec fn vrf_verification(
    key: Seq<u8>,
    context: Seq<u8>,
    label: Seq<u8>,
    alpha: Seq<u8>,
    preout: Seq<u8>,
    proof: Seq<u8>,
) -> Result<[u8; 32], Seq<char>>;

/// Calls `schnorrkel::MiniSecretKey::expand_to_keypair` in Ed25519 mode. The
/// claim: the public key depends on the seed alone.
#[verifier::external_body]
fn derive_vrf_public(seed: &[u8; 32]) -> (key: [u8; 32])
    ensures
        key == vrf_public_key(seed@),
{
    let mini = schnorrkel::MiniSecretKey::from_bytes(seed).expect("a seed has 32 bytes");
    mini.expand_to_keypair(schnorrkel::ExpansionMode::Ed25519).public.to_bytes()
}

/// Calls `schnorrkel::Keypair::vrf_sign` and `VRFInOut::make_bytes`. The claims:
/// pre-output and output depend on the seed and the input alone (the proof is
/// randomised), and verification of the result under the identity's public key
/// succeeds with the same output, unless the pre-output is the group's identity,
/// which is encoded as zeroes and never verifies.
#[verifier::external_body]
fn vrf_evaluate(seed: &[u8; 32], context: &[u8], label: &[u8], alpha: &[u8; 64]) -> (r: (
    [u8; 32],
    [u8; 64],
    [u8; 32],
))
    ensures
        (r.0, r.2) == vrf_evaluation(seed@, context@, label@, alpha@),
        r.0@ != Seq::new(32, |i: int| 0u8) ==> {
            &&& vrf_key_fault(vrf_public_key(seed@)@) is None
            &&& vrf_proof_fault(r.1@) is None
            &&& vrf_verification(
                vrf_public_key(seed@)@,
                context@,
                label@,
                alpha@,
                r.0@,
                r.1@,
            ) == Ok::<[u8; 32], Seq<char>>(r.2)
        },
{
    let mini = schnorrkel::MiniSecretKey::from_bytes(seed).expect("a seed has 32 bytes");
    let keypair = mini.expand_to_keypair(schnorrkel::ExpansionMode::Ed25519);
    let transcript = schnorrkel::signing_context(context).bytes(alpha);
    let (in_out, proof, _batchable) = keypair.vrf_sign(transcript);
    (in_out.to_preout().to_bytes(), proof.to_bytes(), in_out.make_bytes(label))
}

/// Calls `schnorrkel::PublicKey::from_bytes`. The claim: whether 32 bytes decode
/// to a key, and the message of the error, depend on those bytes alone.
#[verifier::external_body]
fn check_vrf_key(key: &[u8; 32]) -> (r: Result<(), String>)
    ensures
        r is Ok <==> vrf_key_fault(key@) is None,
        r matches Err(e) ==> vrf_key_fault(key@) == Some(e@),
{
    match schnorrkel::PublicKey::from_bytes(key) {
        Ok(_) => Ok(()),
        Err(e) => Err(e.to_string()),
    }
}

/// Calls `schnorrkel::vrf::VRFProof::from_bytes`. The claim: whether 64 bytes
/// decode to a proof, and the message of the error, depend on those bytes alone.
#[verifier::external_body]
fn check_vrf_proof(proof: &[u8; 64]) -> (r: Result<(), String>)
    ensures
        r is Ok <==> vrf_proof_fault(proof@) is None,
        r matches Err(e) ==> vrf_proof_fault(proof@) == Some(e@),
{
    match schnorrkel::vrf::VRFProof::from_bytes(proof) {
        Ok(_) => Ok(()),
        Err(e) => Err(e.to_string()),
    }
}

/// Calls `schnorrkel::PublicKey::vrf_verify` and `VRFInOut::make_bytes`. The
/// claim: the output, or the message of the error, depends on the arguments
/// alone.
#[verifier::external_body]
fn vrf_verify(
    key: &[u8; 32],
    context: &[u8],
    label: &[u8],
    alpha: &[u8; 64],
    preout: &[u8; 32],
    proof: &[u8; 64],
) -> (r: Result<[u8; 32], String>)
    requires
        vrf_key_fault(key@) is None,
        vrf_proof_fault(proof@) is None,
    ensures
        match r {
            Ok(output) => vrf_verification(key@, context@, label@, alpha@, preout@, proof@) == Ok::<
                [u8; 32],
                Seq<char>,
            >(output),
            Err(e) => vrf_verification(key@, context@, label@, alpha@, preout@, proof@) == Err::<
                [u8; 32],
                Seq<char>,
            >(e@),
        },
{
    let public = schnorrkel::PublicKey::from_bytes(key).expect("the key decodes");
    let preout = schnorrkel::vrf::VRFPreOut::from_bytes(preout).expect("32 bytes decode");
    let proof = schnorrkel::vrf::VRFProof::from_bytes(proof).expect("the proof decodes");
    let transcript = schnorrkel::signing_context(context).bytes(alpha);
    match public.vrf_verify(transcript, &preout, &proof) {
        Ok((in_out, _)) => Ok(in_out.make_bytes(label)),
        Err(e) => Err(e.to_string()),
    }
}

// ---------------------------------------------------------------------------
// Tie-break
// ---------------------------------------------------------------------------

/// A relay's committed identity for tie-break purposes: its ed25519 identity key
/// and the VRF public key it published in the same signed record. Both are fixed
/// well before any specific conflict.
#[derive(Debug, Clone, Copy, PartialEq, Eq)]
pub struct RelayVrfIdentity {
    /// ed25519 identity public key (matches `RelayObservation::relay_pubkey`).
    pub identity: [u8; 32],
    /// VRF public key, 32 bytes.
    pub vrf_public: [u8; 32],
}

impl RelayVrfIdentity {
    /// The canonical VRF identity for the ed25519 signing key with this seed. A
    /// relay derives its VRF key this way once, so there is exactly one VRF key
    /// per identity.
    pub fn derive(signing_seed: &[u8; 32]) -> (id: Self)
        ensures
            id.identity == ed25519_public(signing_seed@),
            id.vrf_public == vrf_public_key(signing_seed@),
    {
        RelayVrfIdentity {
            identity: public_key(signing_seed),
            vrf_public: derive_vrf_public(signing_seed),
        }
    }
}

/// A fully self-describing, independently verifiable tie-break decision.
#[derive(Debug, Clone, PartialEq, Eq)]
pub struct TiebreakOutcome {
    /// `message_id` of the winning envelope.
    pub winner: [u8; 32],
    /// The evaluator's ed25519 identity key.
    pub evaluator_identity: [u8; 32],
    /// The evaluator's VRF public key.
    pub evaluator_vrf_public: [u8; 32],
    /// The canonical VRF input `alpha`, echoed for auditability.
    pub canonical_input: [u8; 64],
    /// VRF pre-output (`gamma`), 32 bytes.
    pub vrf_preout: [u8; 32],
    /// Short VRF proof (`pi`), 64 bytes.
    pub vrf_proof: [u8; 64],
    /// The 32-byte VRF output `beta` from which `winner` is derived.
    pub vrf_output: [u8; 32],
}

/// The smaller of the conflict's two envelope ids.
pub open spec fn lower_id(conflict: Conflict) -> [u8; 32] {
    if lex_lt(conflict.envelope_b@, conflict.envelope_a@) {
        conflict.envelope_b
    } else {
        conflict.envelope_a
    }
}

/// The larger of the conflict's two envelope ids.
pub open spec fn upper_id(conflict: Conflict) -> [u8; 32] {
    if lex_lt(conflict.envelope_b@, conflict.envelope_a@) {
        conflict.envelope_a
    } else {
        conflict.envelope_b
    }
}

/// The canonical VRF input of a conflict.
pub open spec fn alpha_of(conflict: Conflict) -> [u8; 64] {
    sha512_digest(
        encode_utf8(INPUT_DOMAIN@) + be_bytes(
            encode_utf8(conflict.source_account@).len() as usize as u64,
        ) + encode_utf8(conflict.source_account@) + be_bytes(conflict.sequence as u64) + lower_id(
            conflict,
        )@ + upper_id(conflict)@,
    )
}

/// The winner that a VRF output selects: the smaller id where the first byte is
/// even, else the larger.
pub open spec fn selected_winner(conflict: Conflict, beta: [u8; 32]) -> [u8; 32] {
    if beta@[0] % 2 == 0 {
        lower_id(conflict)
    } else {
        upper_id(conflict)
    }
}

/// Sorted `(min, max)` of the conflict's two envelope ids.
fn ordered_pair(conflict: &Conflict) -> (r: ([u8; 32], [u8; 32]))
    ensures
        r == (lower_id(*conflict), upper_id(*conflict)),
{
    if bytes_lt(conflict.envelope_b.as_slice(), conflict.envelope_a.as_slice()) {
        (conflict.envelope_b, conflict.envelope_a)
    } else {
        (conflict.envelope_a, conflict.envelope_b)
    }
}

/// `alpha`: the canonical, order-independent VRF input for `conflict`.
pub fn canonical_input(conflict: &Conflict) -> (alpha: [u8; 64])
    ensures
        alpha == alpha_of(*conflict),
{
    let (lo, hi) = ordered_pair(conflict);
    let mut buf: Vec<u8> = Vec::new();
    buf.extend_from_slice(INPUT_DOMAIN.as_bytes());
    let account = conflict.source_account.as_str();
    let account_len: u64 = account.len() as u64;
    buf.extend_from_slice(u64_to_be_bytes(account_len).as_slice());
    buf.extend_from_slice(account.as_bytes());
    buf.extend_from_slice(u64_to_be_bytes(conflict.sequence as u64).as_slice());
    buf.extend_from_slice(lo.as_slice());
    buf.extend_from_slice(hi.as_slice());
    assert(buf@ =~= encode_utf8(INPUT_DOMAIN@) + be_bytes(
        encode_utf8(conflict.source_account@).len() as usize as u64,
    ) + encode_utf8(conflict.source_account@) + be_bytes(conflict.sequence as u64) + lower_id(
        *conflict,
    )@ + upper_id(*conflict)@);
    sha512(buf.as_slice())
}

/// Map a 32-byte `beta` to the winning id: even first byte → `min`, odd → `max`.
pub fn winner_from_output(conflict: &Conflict, beta: &[u8; 32]) -> (winner: [u8; 32])
    ensures
        winner == selected_winner(*conflict, *beta),
{
    let (lo, hi) = ordered_pair(conflict);
    if beta[0] % 2 == 0 {
        lo
    } else {
        hi
    }
}

/// Evaluate the VRF tie-break for `conflict` under the evaluator's signing key,
/// given as its seed. It is for the caller to know that this is the selected
/// evaluator; [`verify_tiebreak_with_evaluator`] checks it.
///
/// Never fails; the `Result` is kept for symmetry with [`verify_tiebreak`].
pub fn vrf_tiebreak(conflict: &Conflict, evaluator_seed: &[u8; 32]) -> (r: Result<
    TiebreakOutcome,
    SyncEngineError,
>)
    ensures
        r matches Ok(o) && {
            let evaluation = vrf_evaluation(
                evaluator_seed@,
                encode_utf8(VRF_CONTEXT@),
                encode_utf8(OUTPUT_LABEL@),
                alpha_of(*conflict)@,
            );
            &&& o.canonical_input == alpha_of(*conflict)
            &&& o.evaluator_identity == ed25519_public(evaluator_seed@)
            &&& o.evaluator_vrf_public == vrf_public_key(evaluator_seed@)
            &&& o.vrf_preout == evaluation.0
            &&& o.vrf_output == evaluation.1
            &&& o.winner == selected_winner(*conflict, evaluation.1)
            &&& o.vrf_preout@ != Seq::new(32, |i: int| 0u8) ==> tiebreak_fault(*conflict, o) is None
        },
{
    let alpha = canonical_input(conflict);
    let (preout, proof, beta) = vrf_evaluate(
        evaluator_seed,
        VRF_CONTEXT.as_bytes(),
        OUTPUT_LABEL.as_bytes(),
        &alpha,
    );
    let winner = winner_from_output(conflict, &beta);
    let id = RelayVrfIdentity::derive(evaluator_seed);
    Ok(
        TiebreakOutcome {
            winner,
            evaluator_identity: id.identity,
            evaluator_vrf_public: id.vrf_public,
            canonical_input: alpha,
            vrf_preout: preout,
            vrf_proof: proof,
            vrf_output: beta,
        },
    )
}

/// The VRF output that a tie-break's proof shows for `alpha`, or why it shows
/// none.
pub open spec fn shown_output(o: TiebreakOutcome, alpha: [u8; 64]) -> Result<[u8; 32], Seq<char>> {
    if vrf_key_fault(o.evaluator_vrf_public@) is Some {
        Err("invalid evaluator VRF key: "@ + vrf_key_fault(o.evaluator_vrf_public@)->0)
    } else if vrf_proof_fault(o.vrf_proof@) is Some {
        Err("invalid VRF proof encoding: "@ + vrf_proof_fault(o.vrf_proof@)->0)
    } else {
        match vrf_verification(
            o.evaluator_vrf_public@,
            encode_utf8(VRF_CONTEXT@),
            encode_utf8(OUTPUT_LABEL@),
            alpha@,
            o.vrf_preout@,
            o.vrf_proof@,
        ) {
            Err(e) => Err("VRF proof failed verification: "@ + e),
            Ok(beta) => Ok(beta),
        }
    }
}

/// The first check that a tie-break fails, given the canonical input and what its
/// proof shows; `None` where it is valid.
pub open spec fn judged_fault(
    conflict: Conflict,
    alpha: [u8; 64],
    o: TiebreakOutcome,
    shown: Result<[u8; 32], Seq<char>>,
) -> Option<Seq<char>> {
    if o.canonical_input != alpha {
        Some("canonical input does not match the conflict"@)
    } else if o.winner != conflict.envelope_a && o.winner != conflict.envelope_b {
        Some("winner is not one of the conflicting envelopes"@)
    } else {
        match shown {
            Err(e) => Some(e),
            Ok(beta) => if beta != o.vrf_output {
                Some("recomputed VRF output does not match the outcome"@)
            } else if selected_winner(conflict, beta) != o.winner {
                Some("winner is not consistent with the VRF output"@)
            } else {
                None
            },
        }
    }
}

/// The first check that a tie-break fails, in words; `None` where it is valid.
pub open spec fn tiebreak_fault(conflict: Conflict, o: TiebreakOutcome) -> Option<Seq<char>> {
    judged_fault(conflict, alpha_of(conflict), o, shown_output(o, alpha_of(conflict)))
}

/// The error of a tie-break that fails a check.
pub open spec fn tiebreak_error(r: Result<(), SyncEngineError>, fault: Option<Seq<char>>) -> bool {
    match r {
        Ok(_) => fault is None,
        Err(e) => e matches SyncEngineError::VrfTiebreak(msg) && fault == Some(msg@),
    }
}

fn tiebreak_err(msg: &str) -> (r: Result<(), SyncEngineError>)
    ensures
        r matches Err(SyncEngineError::VrfTiebreak(m)) && m@ == msg@,
{
    Err(SyncEngineError::VrfTiebreak(msg.to_owned()))
}

fn prefixed(msg: &str, detail: &str) -> (s: String)
    ensures
        s@ == msg@ + detail@,
{
    let mut s: String = msg.to_owned();
    s.append(detail);
    s
}

/// What a proof shows, with the message of an error taken by its characters.
pub open spec fn shown_view(shown: Result<[u8; 32], String>) -> Result<[u8; 32], Seq<char>> {
    match shown {
        Ok(beta) => Ok(beta),
        Err(e) => Err(e@),
    }
}

fn check_proof(outcome: &TiebreakOutcome, alpha: &[u8; 64]) -> (r: Result<[u8; 32], String>)
    ensures
        shown_view(r) == shown_output(*outcome, *alpha),
{
    if let Err(e) = check_vrf_key(&outcome.evaluator_vrf_public) {
        return Err(prefixed("invalid evaluator VRF key: ", e.as_str()));
    }
    if let Err(e) = check_vrf_proof(&outcome.vrf_proof) {
        return Err(prefixed("invalid VRF proof encoding: ", e.as_str()));
    }
    let verified = vrf_verify(
        &outcome.evaluator_vrf_public,
        VRF_CONTEXT.as_bytes(),
        OUTPUT_LABEL.as_bytes(),
        alpha,
        &outcome.vrf_preout,
        &outcome.vrf_proof,
    );
    match verified {
        Err(e) => Err(prefixed("VRF proof failed verification: ", e.as_str())),
        Ok(beta) => Ok(beta),
    }
}

/// Judge a [`TiebreakOutcome`], given the canonical input of the conflict and the
/// VRF output that the outcome's proof shows.
pub fn judge_tiebreak(
    conflict: &Conflict,
    alpha: &[u8; 64],
    outcome: &TiebreakOutcome,
    shown: Result<[u8; 32], String>,
) -> (r: Result<(), SyncEngineError>)
    ensures
        tiebreak_error(r, judged_fault(*conflict, *alpha, *outcome, shown_view(shown))),
{
    if !bytes64_eq(&outcome.canonical_input, alpha) {
        return tiebreak_err("canonical input does not match the conflict");
    }
    let (lo, hi) = ordered_pair(conflict);
    if !bytes32_eq(&outcome.winner, &lo) && !bytes32_eq(&outcome.winner, &hi) {
        return tiebreak_err("winner is not one of the conflicting envelopes");
    }
    match shown {
        Err(e) => Err(SyncEngineError::VrfTiebreak(e)),
        Ok(beta) => {
            if !bytes32_eq(&beta, &outcome.vrf_output) {
                return tiebreak_err("recomputed VRF output does not match the outcome");
            }
            let winner = winner_from_output(conflict, &beta);
            if !bytes32_eq(&winner, &outcome.winner) {
                return tiebreak_err("winner is not consistent with the VRF output");
            }
            Ok(())
        },
    }
}

/// Independently verify a [`TiebreakOutcome`] against `conflict`, using only
/// public inputs. Checks, in order: the canonical input, that the winner is one
/// of the two envelopes, the VRF proof, the VRF output, and that the output
/// selects the winner. Who the evaluator is, is not checked here.
pub fn verify_tiebreak(conflict: &Conflict, outcome: &TiebreakOutcome) -> (r: Result<
    (),
    SyncEngineError,
>)
    ensures
        tiebreak_error(r, tiebreak_fault(*conflict, *outcome)),
{
    let alpha = canonical_input(conflict);
    let shown = check_proof(outcome, &alpha);
    judge_tiebreak(conflict, &alpha, outcome, shown)
}

/// The hash that ranks a candidate evaluator.
pub open spec fn evaluator_rank(conflict: Conflict, identity: [u8; 32]) -> [u8; 64] {
    sha512_digest(encode_utf8(EVALUATOR_DOMAIN@) + alpha_of(conflict)@ + identity@)
}

/// Order of candidate evaluators: by rank, then by identity.
pub open spec fn ranks_before(conflict: Conflict, a: [u8; 32], b: [u8; 32]) -> bool {
    let x = evaluator_rank(conflict, a);
    let y = evaluator_rank(conflict, b);
    lex_lt(x@, y@) || (x == y && lex_lt(a@, b@))
}

/// `i` is the first of the candidates that no other ranks before.
pub open spec fn is_selected(
    conflict: Conflict,
    candidates: Seq<RelayVrfIdentity>,
    i: int,
) -> bool {
    &&& 0 <= i < candidates.len()
    &&& forall|j: int|
        0 <= j < candidates.len() ==> !ranks_before(
            conflict,
            (#[trigger] candidates[j]).identity,
            candidates[i].identity,
        )
    &&& forall|j: int|
        0 <= j < i ==> ranks_before(
            conflict,
            candidates[i].identity,
            (#[trigger] candidates[j]).identity,
        )
}

fn rank_of(alpha: &[u8; 64], identity: &[u8; 32], Ghost(conflict): Ghost<Conflict>) -> (rank: [u8;
    64])
    requires
        *alpha == alpha_of(conflict),
    ensures
        rank == evaluator_rank(conflict, *identity),
{
    let mut buf: Vec<u8> = Vec::new();
    buf.extend_from_slice(EVALUATOR_DOMAIN.as_bytes());
    buf.extend_from_slice(alpha.as_slice());
    buf.extend_from_slice(identity.as_slice());
    assert(buf@ =~= encode_utf8(EVALUATOR_DOMAIN@) + alpha@ + identity@);
    sha512(buf.as_slice())
}

proof fn lemma_ranking_is_total(conflict: Conflict, a: [u8; 32], b: [u8; 32])
    ensures
        a == b || ranks_before(conflict, a, b) || ranks_before(conflict, b, a),
        !(ranks_before(conflict, a, b) && ranks_before(conflict, b, a)),
        !ranks_before(conflict, a, a),
{
    let x = evaluator_rank(conflict, a);
    let y = evaluator_rank(conflict, b);
    lex_lt_is_total(x@, y@);
    lex_lt_is_total(x@, x@);
    lex_lt_is_total(a@, b@);
    lex_lt_is_total(a@, a@);
    if x@ == y@ {
        assert(x =~= y);
    }
    if a@ == b@ {
        assert(a =~= b);
    }
}

proof fn lemma_ranking_is_transitive(conflict: Conflict, a: [u8; 32], b: [u8; 32], c: [u8; 32])
    requires
        ranks_before(conflict, a, b),
        ranks_before(conflict, b, c),
    ensures
        ranks_before(conflict, a, c),
{
    let x = evaluator_rank(conflict, a)@;
    let y = evaluator_rank(conflict, b)@;
    let z = evaluator_rank(conflict, c)@;
    if lex_lt(x, y) && lex_lt(y, z) {
        lex_lt_is_transitive(x, y, z);
    }
    if lex_lt(a@, b@) && lex_lt(b@, c@) {
        lex_lt_is_transitive(a@, b@, c@);
    }
}

/// Deterministically select the relay that must evaluate the tie-break for
/// `conflict` from `candidates`: the one whose hash with `alpha` is least, ties
/// broken by identity. `None` iff `candidates` is empty.
pub fn select_tiebreak_evaluator<'a>(
    conflict: &Conflict,
    candidates: &'a [RelayVrfIdentity],
) -> (r: Option<&'a RelayVrfIdentity>)
    ensures
        r is None <==> candidates@.len() == 0,
        r matches Some(c) ==> exists|i: int| #[trigger]
            is_selected(*conflict, candidates@, i) && *c == candidates@[i],
{
    if candidates.len() == 0 {
        return None;
    }
    let alpha = canonical_input(conflict);
    let mut best: usize = 0;
    let mut best_rank = rank_of(&alpha, &candidates[0].identity, Ghost(*conflict));
    proof {
        lemma_ranking_is_total(*conflict, candidates@[0].identity, candidates@[0].identity);
    }
    let mut i: usize = 1;
    while i < candidates.len()
        invariant
            1 <= i <= candidates.len(),
            best < i,
            alpha == alpha_of(*conflict),
            best_rank == evaluator_rank(*conflict, candidates@[best as int].identity),
            is_selected(*conflict, candidates@.subrange(0, i as int), best as int),
        decreases candidates.len() - i,
    {
        let ghost upto = candidates@.subrange(0, i as int);
        let ghost next = candidates@.subrange(0, i + 1);
        let ghost old_best = best as int;
        let identity = candidates[i].identity;
        let rank = rank_of(&alpha, &identity, Ghost(*conflict));
        let earlier = bytes_lt(rank.as_slice(), best_rank.as_slice()) || (bytes64_eq(
            &rank,
            &best_rank,
        ) && bytes_lt(identity.as_slice(), candidates[best].identity.as_slice()));
        assert(earlier == ranks_before(*conflict, identity, upto[old_best].identity));
        if earlier {
            best = i;
            best_rank = rank;
        }
        proof {
            assert forall|j: int| 0 <= j < next.len() implies !ranks_before(
                *conflict,
                (#[trigger] next[j]).identity,
                next[best as int].identity,
            ) by {
                lemma_ranking_is_total(*conflict, next[j].identity, next[best as int].identity);
                if earlier && j < i {
                    assert(next[j] == upto[j]);
                    lemma_ranking_is_total(*conflict, upto[j].identity, upto[old_best].identity);
                    if ranks_before(*conflict, upto[j].identity, identity) {
                        lemma_ranking_is_transitive(
                            *conflict,
                            upto[j].identity,
                            identity,
                            upto[old_best].identity,
                        );
                    }
                } else if j < i {
                    assert(next[j] == upto[j]);
                }
            }
            assert forall|j: int| 0 <= j < best implies ranks_before(
                *conflict,
                next[best as int].identity,
                (#[trigger] next[j]).identity,
            ) by {
                assert(next[j] == upto[j]);
                if earlier {
                    lemma_ranking_is_total(*conflict, upto[j].identity, upto[old_best].identity);
                    if upto[j].identity != upto[old_best].identity {
                        lemma_ranking_is_transitive(
                            *conflict,
                            identity,
                            upto[old_best].identity,
                            upto[j].identity,
                        );
                    }
                }
            }
        }
        i += 1;
    }
    assert(candidates@.subrange(0, i as int) =~= candidates@);
    Some(&candidates[best])
}

/// There is one selected evaluator.
pub proof fn selected_evaluator_is_unique(
    conflict: Conflict,
    candidates: Seq<RelayVrfIdentity>,
    i: int,
    j: int,
)
    requires
        is_selected(conflict, candidates, i),
        is_selected(conflict, candidates, j),
    ensures
        i == j,
{
    if i < j {
        assert(ranks_before(conflict, candidates[j].identity, candidates[i].identity));
    } else if j < i {
        assert(ranks_before(conflict, candidates[i].identity, candidates[j].identity));
    }
}

/// The first check that a tie-break fails, including that of its evaluator; `None`
/// where it is valid.
pub open spec fn evaluator_fault(
    conflict: Conflict,
    o: TiebreakOutcome,
    candidates: Seq<RelayVrfIdentity>,
) -> Option<Seq<char>> {
    let selected = candidates[choose|i: int| is_selected(conflict, candidates, i)];
    if tiebreak_fault(conflict, o) is Some {
        tiebreak_fault(conflict, o)
    } else if candidates.len() == 0 {
        Some("no candidate relays available to select a tie-break evaluator"@)
    } else if selected.identity != o.evaluator_identity {
        Some(
            "tie-break was evaluated by "@ + hex_of(o.evaluator_identity@)
                + ", but the selected evaluator is "@ + hex_of(selected.identity@),
        )
    } else if selected.vrf_public != o.evaluator_vrf_public {
        Some(
            "outcome's VRF key does not match the selected evaluator's committed VRF key"@,
        )
    } else {
        None
    }
}

/// [`verify_tiebreak`] plus a check that `outcome`'s evaluator is exactly the
/// one [`select_tiebreak_evaluator`] picks from `candidates`.
pub fn verify_tiebreak_with_evaluator(
    conflict: &Conflict,
    outcome: &TiebreakOutcome,
    candidates: &[RelayVrfIdentity],
) -> (r: Result<(), SyncEngineError>)
    ensures
        tiebreak_error(r, evaluator_fault(*conflict, *outcome, candidates@)),
{
    let verified = verify_tiebreak(conflict, outcome);
    if verified.is_err() {
        return verified;
    }
    match select_tiebreak_evaluator(conflict, candidates) {
        None => tiebreak_err("no candidate relays available to select a tie-break evaluator"),
        Some(selected) => {
            proof {
                let i = choose|i: int| #[trigger]
                    is_selected(*conflict, candidates@, i) && *selected == candidates@[i];
                let j = choose|j: int| is_selected(*conflict, candidates@, j);
                selected_evaluator_is_unique(*conflict, candidates@, i, j);
            }
            if !bytes32_eq(&selected.identity, &outcome.evaluator_identity) {
                let mut s: String = "tie-break was evaluated by ".to_owned();
                s.append(hex_string(outcome.evaluator_identity.as_slice()).as_str());
                s.append(", but the selected evaluator is ");
                s.append(hex_string(selected.identity.as_slice()).as_str());
                return Err(SyncEngineError::VrfTiebreak(s));
            }
            if !bytes32_eq(&selected.vrf_public, &outcome.evaluator_vrf_public) {
                return tiebreak_err(
                    "outcome's VRF key does not match the selected evaluator's committed VRF key",
                );
            }
            Ok(())
        },
    }
}

/// The tie-break does not depend on which side is labelled `a`: neither its input
/// nor the winner that an output selects.
pub proof fn tiebreak_ignores_labels(a: Conflict, b: Conflict, beta: [u8; 32])
    requires
        a.source_account@ == b.source_account@,
        a.sequence == b.sequence,
        a.envelope_a == b.envelope_b,
        a.envelope_b == b.envelope_a,
    ensures
        alpha_of(a) == alpha_of(b),
        selected_winner(a, beta) == selected_winner(b, beta),
{
    lex_lt_is_total(a.envelope_a@, a.envelope_b@);
    if a.envelope_a@ == a.envelope_b@ {
        assert(a.envelope_a =~= a.envelope_b);
    }
}

/// Whatever the VRF output, the winner is one of the two envelopes, and which one
/// is decided by the parity of one byte.
pub proof fn tiebreak_winner_is_a_party(conflict: Conflict, beta: [u8; 32])
    ensures
        selected_winner(conflict, beta) == conflict.envelope_a || selected_winner(conflict, beta)
            == conflict.envelope_b,
{
}

/// The outcome is fixed by the conflict and the evaluator's key: two valid
/// tie-breaks of one conflict with the same VRF output name the same winner.
pub proof fn valid_tiebreaks_agree(conflict: Conflict, x: TiebreakOutcome, y: TiebreakOutcome)
    requires
        tiebreak_fault(conflict, x) is None,
        tiebreak_fault(conflict, y) is None,
        x.vrf_output == y.vrf_output,
    ensures
        x.winner == y.winner,
{
}

/// An even VRF output selects the smaller of the two envelope ids, and an odd one the larger.
pub proof fn parity_selects_the_winner(conflict: Conflict, beta: [u8; 32])
    ensures
        lex_lt(conflict.envelope_a@, conflict.envelope_b@) ==> selected_winner(conflict, beta) == (
        if beta@[0] % 2 == 0 {
            conflict.envelope_a
        } else {
            conflict.envelope_b
        }),
        lex_lt(conflict.envelope_b@, conflict.envelope_a@) ==> selected_winner(conflict, beta) == (
        if beta@[0] % 2 == 0 {
            conflict.envelope_b
        } else {
            conflict.envelope_a
        }),
        !lex_lt(upper_id(conflict)@, lower_id(conflict)@),
        lower_id(conflict) == conflict.envelope_a && upper_id(conflict) == conflict.envelope_b
            || lower_id(conflict) == conflict.envelope_b && upper_id(conflict)
            == conflict.envelope_a,
{
    crate::bytes::lex_lt_is_total(conflict.envelope_a@, conflict.envelope_b@);
}

/// A tie-break is valid exactly where it was made for this conflict, its proof shows the VRF
/// output that it gives, and that output selects the winner that it names.
pub proof fn valid_tiebreaks_follow_from_their_proof(conflict: Conflict, o: TiebreakOutcome)
    ensures
        tiebreak_fault(conflict, o) is None <==> {
            &&& o.canonical_input == alpha_of(conflict)
            &&& vrf_key_fault(o.evaluator_vrf_public@) is None
            &&& vrf_proof_fault(o.vrf_proof@) is None
            &&& vrf_verification(
                o.evaluator_vrf_public@,
                encode_utf8(VRF_CONTEXT@),
                encode_utf8(OUTPUT_LABEL@),
                alpha_of(conflict)@,
                o.vrf_preout@,
                o.vrf_proof@,
            ) == Ok::<[u8; 32], Seq<char>>(o.vrf_output)
            &&& o.winner == selected_winner(conflict, o.vrf_output)
        },
{
    tiebreak_winner_is_a_party(conflict, o.vrf_output);
}

/// What a check of a tie-break finds, given what its proof shows: nothing exactly where its
/// input, output and winner are those of the conflict and the proof.
pub proof fn judgements_follow_the_shown_output(
    conflict: Conflict,
    alpha: [u8; 64],
    o: TiebreakOutcome,
    shown: Result<[u8; 32], Seq<char>>,
)
    ensures
        judged_fault(conflict, alpha, o, shown) is None <==> o.canonical_input == alpha && shown
            == Ok::<[u8; 32], Seq<char>>(o.vrf_output) && o.winner == selected_winner(
            conflict,
            o.vrf_output,
        ),
{
    tiebreak_winner_is_a_party(conflict, o.vrf_output);
}

/// Only the selected evaluator's tie-break stands: a tie-break is accepted exactly where it is
/// valid and its evaluator and its VRF key are those of the selected candidate.
pub proof fn only_the_selected_evaluator_is_accepted(
    conflict: Conflict,
    o: TiebreakOutcome,
    candidates: Seq<RelayVrfIdentity>,
    i: int,
)
    requires
        is_selected(conflict, candidates, i),
    ensures
        evaluator_fault(conflict, o, candidates) is None <==> tiebreak_fault(conflict, o) is None
            && candidates[i].identity == o.evaluator_identity && candidates[i].vrf_public
            == o.evaluator_vrf_public,
{
    let k = choose|k: int| is_selected(conflict, candidates, k);
    selected_evaluator_is_unique(conflict, candidates, i, k);
}

/// Without candidates no tie-break is accepted.
pub proof fn tiebreaks_need_candidates(conflict: Conflict, o: TiebreakOutcome)
    ensures
        evaluator_fault(conflict, o, Seq::empty()) is Some,
{
}

/// The selected evaluator has the least hash of all candidates, and of those with the same
/// hash the least identity; among several entries of it, the first.
pub proof fn the_least_hash_is_selected(
    conflict: Conflict,
    candidates: Seq<RelayVrfIdentity>,
    i: int,
    j: int,
)
    requires
        is_selected(conflict, candidates, i),
        0 <= j < candidates.len(),
    ensures
        ({
            let mine = evaluator_rank(conflict, candidates[i].identity);
            let theirs = evaluator_rank(conflict, candidates[j].identity);
            &&& !lex_lt(theirs@, mine@)
            &&& mine == theirs ==> !lex_lt(candidates[j].identity@, candidates[i].identity@)
            &&& candidates[i].identity == candidates[j].identity ==> i <= j
        }),
{
    assert(!ranks_before(conflict, candidates[j].identity, candidates[i].identity));
    if j < i {
        assert(ranks_before(conflict, candidates[i].identity, candidates[j].identity));
        crate::bytes::lex_lt_is_total(
            evaluator_rank(conflict, candidates[i].identity)@,
            evaluator_rank(conflict, candidates[j].identity)@,
        );
        crate::bytes::lex_lt_is_total(candidates[i].identity@, candidates[j].identity@);
    }
}

/// A candidate is ranked by the conflict and its identity: two ranks are the same only for the
/// same identity, unless SHA-512 collides on what they are made of.
pub proof fn ranks_tell_identities_apart(conflict: Conflict, a: [u8; 32], b: [u8; 32])
    requires
        evaluator_rank(conflict, a) == evaluator_rank(conflict, b),
    ensures
        a == b || long_digests_collide(
            encode_utf8(EVALUATOR_DOMAIN@) + alpha_of(conflict)@ + a@,
            encode_utf8(EVALUATOR_DOMAIN@) + alpha_of(conflict)@ + b@,
        ),
{
    let head = encode_utf8(EVALUATOR_DOMAIN@) + alpha_of(conflict)@;
    if head + a@ == head + b@ {
        assert((head + a@).skip(head.len() as int) =~= a@);
        assert((head + b@).skip(head.len() as int) =~= b@);
        assert(a =~= b);
    }
}

/// What the VRF input of a conflict is hashed over.
pub open spec fn alpha_bytes(conflict: Conflict) -> Seq<u8> {
    encode_utf8(INPUT_DOMAIN@) + be_bytes(
        encode_utf8(conflict.source_account@).len() as usize as u64,
    ) + encode_utf8(conflict.source_account@) + be_bytes(conflict.sequence as u64) + lower_id(
        conflict,
    )@ + upper_id(conflict)@
}

/// The VRF input is that of one conflict: two conflicts have the same input only where they are
/// about the same account, the same sequence and the same two envelopes, unless SHA-512
/// collides on what the inputs are made of.
pub proof fn inputs_tell_conflicts_apart(a: Conflict, b: Conflict)
    requires
        alpha_of(a) == alpha_of(b),
        encode_utf8(a.source_account@).len() <= usize::MAX,
        encode_utf8(b.source_account@).len() <= usize::MAX,
    ensures
        long_digests_collide(alpha_bytes(a), alpha_bytes(b)) || {
            &&& a.source_account@ == b.source_account@
            &&& a.sequence == b.sequence
            &&& a.envelope_a == b.envelope_a && a.envelope_b == b.envelope_b || a.envelope_a
                == b.envelope_b && a.envelope_b == b.envelope_a
        },
{
    if alpha_bytes(a) == alpha_bytes(b) {
        let x = alpha_bytes(a);
        let y = alpha_bytes(b);
        let d = encode_utf8(INPUT_DOMAIN@).len() as int;
        let na = encode_utf8(a.source_account@).len() as int;
        let nb = encode_utf8(b.source_account@).len() as int;
        let la = be_bytes(na as usize as u64);
        let lb = be_bytes(nb as usize as u64);
        crate::bytes::big_endian_bytes_give_the_integer_back(na as usize as u64, 0);
        crate::bytes::big_endian_bytes_give_the_integer_back(nb as usize as u64, 0);
        crate::bytes::big_endian_bytes_give_the_integer_back(a.sequence as u64, 0);
        crate::bytes::big_endian_bytes_give_the_integer_back(b.sequence as u64, 0);
        assert(x.subrange(d, d + 8) =~= la);
        assert(y.subrange(d, d + 8) =~= lb);
        assert(na as usize as u64 == nb as usize as u64);
        assert(na == nb);
        let s = d + 8 + na;
        assert(x.subrange(d + 8, s) =~= encode_utf8(a.source_account@));
        assert(y.subrange(d + 8, s) =~= encode_utf8(b.source_account@));
        vstd::utf8::encode_utf8_decode_utf8(a.source_account@);
        vstd::utf8::encode_utf8_decode_utf8(b.source_account@);
        assert(x.subrange(s, s + 8) =~= be_bytes(a.sequence as u64));
        assert(y.subrange(s, s + 8) =~= be_bytes(b.sequence as u64));
        let p: i64 = a.sequence;
        let q: i64 = b.sequence;
        assert(p as u64 as i64 == p) by (bit_vector);
        assert(q as u64 as i64 == q) by (bit_vector);
        assert(x.subrange(s + 8, s + 40) =~= lower_id(a)@);
        assert(y.subrange(s + 8, s + 40) =~= lower_id(b)@);
        assert(x.subrange(s + 40, s + 72) =~= upper_id(a)@);
        assert(y.subrange(s + 40, s + 72) =~= upper_id(b)@);
        assert(lower_id(a) =~= lower_id(b));
        assert(upper_id(a) =~= upper_id(b));
    }
}

/// The verdict says whether a fault was found, and an error which one.
pub proof fn verdicts_report_the_fault(
    r: Result<(), SyncEngineError>,
    fault: Option<Seq<char>>,
    shown: Result<[u8; 32], String>,
)
    requires
        tiebreak_error(r, fault),
    ensures
        r is Ok <==> fault is None,
        fault matches Some(text) ==> (r matches Err(SyncEngineError::VrfTiebreak(msg)) && msg@
            == text),
        shown matches Ok(beta) ==> shown_view(shown) == Ok::<[u8; 32], Seq<char>>(beta),
        shown matches Err(e) ==> shown_view(shown) == Err::<[u8; 32], Seq<char>>(e@),
{
}

} // verus!
