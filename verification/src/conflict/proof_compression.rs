//! Recursive compression of a long relay-chain proof into a constant-size
//! artifact for on-chain dispute escalation.
//!
//! The evidence that an envelope traversed an `n`-hop chain is `n` signatures,
//! and both its size and its on-chain verification cost grow linearly in `n`.
//! This module folds the chain into a hash accumulator, one hop at a time:
//!
//! ```text
//! acc_0 = SHA-256( "SCRC-v1/genesis" ‖ origin_tx_id ‖ sequence_be )
//! acc_i = SHA-256( "SCRC-v1/fold"    ‖ acc_{i-1} ‖ relay_pubkey_i ‖ i_be )   (i ≥ 1)
//! ```
//!
//! Hop `i`'s [`RelayChainProof`] must be signed by its relay over the origin
//! transaction, `chain_hash = acc_{i-1}` and the sequence: each relay signs the
//! accumulator it extends. A [`CompressedChainProof`] carries `acc_n` and a bounded
//! tail of the last [`TAIL_WINDOW`] attestations.
//!
//! What a verified proof attests to: the tail hops verify and fold forward to
//! exactly `acc`; a chain of at most [`TAIL_WINDOW`] hops is checked whole, down to
//! `acc_0`; a longer one is accepted on the strength of the tail relays' recursive
//! attestations; and at least [`MIN_QUORUM`] distinct relays appear in the tail. The
//! trust shift for long chains is deliberate: a collusion of the tail relays can
//! attest to a fabricated prefix.
use crate::bytes::{be_bytes, bytes32_eq, u64_to_be_bytes};
use crate::conflict::resolver::{insert_distinct, RelayObservation, MIN_QUORUM};
use crate::errors::SyncEngineError;
use crate::hashing::{digests_collide, sha256, sha256_digest};
use crate::keys::{check_public_key, ed25519_key_fault};
use crate::message::RelayChainProof;
use crate::text::{append_decimal, decimal, hex_of, hex_string};
use vstd::prelude::*;
use vstd::string::*;
use vstd::utf8::encode_utf8;

verus! {

/// Number of trailing hops whose full attestations a [`CompressedChainProof`]
/// carries.
pub const TAIL_WINDOW: usize = 4;

pub const GENESIS_DOMAIN: &'static str = "SCRC-v1/genesis";

pub const FOLD_DOMAIN: &'static str = "SCRC-v1/fold";

/// `acc_0`: binds the chain's origin transaction id and sequence number.
pub open spec fn genesis_digest(origin_tx_id: [u8; 32], sequence: u64) -> [u8; 32] {
    sha256_digest(encode_utf8(GENESIS_DOMAIN@) + origin_tx_id@ + be_bytes(sequence))
}

/// `acc_i`, from `acc_{i-1}` and the relay of hop `i`.
pub open spec fn step_digest(
    prev_acc: [u8; 32],
    relay_pubkey: [u8; 32],
    hop_index: u64,
) -> [u8; 32] {
    sha256_digest(encode_utf8(FOLD_DOMAIN@) + prev_acc@ + relay_pubkey@ + be_bytes(hop_index))
}

/// The fold's genesis commitment.
pub fn acc_genesis(origin_tx_id: &[u8; 32], sequence: u64) -> (acc: [u8; 32])
    ensures
        acc == genesis_digest(*origin_tx_id, sequence),
{
    let mut buf: Vec<u8> = Vec::new();
    buf.extend_from_slice(GENESIS_DOMAIN.as_bytes());
    buf.extend_from_slice(origin_tx_id.as_slice());
    buf.extend_from_slice(u64_to_be_bytes(sequence).as_slice());
    assert(buf@ =~= encode_utf8(GENESIS_DOMAIN@) + origin_tx_id@ + be_bytes(sequence));
    sha256(buf.as_slice())
}

/// One step of the fold. `hop_index` is 1-based.
pub fn acc_step(prev_acc: &[u8; 32], relay_pubkey: &[u8; 32], hop_index: u64) -> (acc: [u8; 32])
    ensures
        acc == step_digest(*prev_acc, *relay_pubkey, hop_index),
{
    let mut buf: Vec<u8> = Vec::new();
    buf.extend_from_slice(FOLD_DOMAIN.as_bytes());
    buf.extend_from_slice(prev_acc.as_slice());
    buf.extend_from_slice(relay_pubkey.as_slice());
    buf.extend_from_slice(u64_to_be_bytes(hop_index).as_slice());
    assert(buf@ =~= encode_utf8(FOLD_DOMAIN@) + prev_acc@ + relay_pubkey@ + be_bytes(hop_index));
    sha256(buf.as_slice())
}

/// One hop's attestation, retained in a [`CompressedChainProof`]'s bounded tail.
#[derive(Debug, Clone, Copy, PartialEq, Eq)]
pub struct TailHop {
    pub relay_pubkey: [u8; 32],
    /// `acc_{i-1}`: the fold state this hop was folded onto. Equals
    /// `proof.chain_hash` for a well-formed hop.
    pub prev_acc: [u8; 32],
    pub proof: RelayChainProof,
}

/// A constant-size, incrementally-foldable commitment to an arbitrarily long
/// relay chain.
#[derive(Debug, Clone, PartialEq, Eq)]
pub struct CompressedChainProof {
    /// The origin envelope's `message_id` (`tx_id`), bound into `acc_0`.
    pub origin_tx_id: [u8; 32],
    /// The sequence number the disputed slot is on, bound into `acc_0`.
    pub sequence: u64,
    /// Number of hops folded so far (`n`).
    pub length: u64,
    /// `acc_n`: the running fold commitment over the whole chain.
    pub acc: [u8; 32],
    /// The last `min(length, TAIL_WINDOW)` hops' attestations, oldest first.
    pub tail: Vec<TailHop>,
}

/// A [`CompressedChainProof`] with its tail as a sequence.
#[verifier::ext_equal]
pub struct ChainView {
    pub origin_tx_id: [u8; 32],
    pub sequence: u64,
    pub length: u64,
    pub acc: [u8; 32],
    pub tail: Seq<TailHop>,
}

impl View for CompressedChainProof {
    type V = ChainView;

    open spec fn view(&self) -> ChainView {
        ChainView {
            origin_tx_id: self.origin_tx_id,
            sequence: self.sequence,
            length: self.length,
            acc: self.acc,
            tail: self.tail@,
        }
    }
}

/// The result of a successful [`verify_compressed`].
#[derive(Debug, Clone, Copy, PartialEq, Eq)]
pub struct VerifiedChain {
    pub origin_tx_id: [u8; 32],
    pub sequence: u64,
    /// The attested hop count.
    pub length: u64,
    /// Distinct relays in the verified tail (always at least [`MIN_QUORUM`]).
    pub distinct_tail_relays: usize,
}

/// The work [`verify_compressed`] performs.
#[derive(Debug, Clone, Copy, PartialEq, Eq, Structural)]
pub struct VerificationCost {
    pub signature_checks: usize,
    pub hash_steps: usize,
}

/// What checking a hop's key and signature found.
#[derive(Debug, Clone, PartialEq, Eq)]
pub struct HopCheck {
    /// Why the relay's public key is not an ed25519 key; `None` where it is one.
    pub key_fault: Option<String>,
    /// Whether the signature is the relay's, over the chain's origin, the hop's
    /// chain hash and its sequence.
    pub attested: bool,
}

/// A [`HopCheck`] with its message taken by its characters.
pub struct CheckView {
    pub key_fault: Option<Seq<char>>,
    pub attested: bool,
}

impl View for HopCheck {
    type V = CheckView;

    open spec fn view(&self) -> CheckView {
        CheckView {
            key_fault: match self.key_fault {
                Some(e) => Some(e@),
                None => None,
            },
            attested: self.attested,
        }
    }
}

/// The views of a list of checks.
pub open spec fn check_views(checks: Seq<HopCheck>) -> Seq<CheckView> {
    checks.map_values(|c: HopCheck| c@)
}

/// What checking a relay's key and signature finds.
pub open spec fn checked(relay_pubkey: [u8; 32], attested: bool) -> CheckView {
    CheckView { key_fault: ed25519_key_fault(relay_pubkey@), attested }
}

fn check_hop(relay_pubkey: &[u8; 32], attested: bool) -> (c: HopCheck)
    ensures
        c@ == checked(*relay_pubkey, attested),
{
    match check_public_key(relay_pubkey) {
        Ok(_) => HopCheck { key_fault: None, attested },
        Err(e) => HopCheck { key_fault: Some(e), attested },
    }
}

/// The cost [`verify_compressed`] will incur for `proof`, without running it: a
/// signature check and a hash step per tail hop, and one more hash step where the
/// chain is short enough to re-root at genesis.
pub fn verification_cost(proof: &CompressedChainProof) -> (cost: VerificationCost)
    requires
        proof.tail.len() < usize::MAX,
    ensures
        cost.signature_checks == proof.tail@.len(),
        cost.hash_steps == proof.tail@.len() + if proof.length <= TAIL_WINDOW {
            1int
        } else {
            0int
        },
{
    let tail_len: usize = proof.tail.len();
    let reroot: usize = if proof.length <= TAIL_WINDOW as u64 {
        1
    } else {
        0
    };
    VerificationCost { signature_checks: tail_len, hash_steps: tail_len + reroot }
}

/// A length-0 chain whose accumulator is `acc_0`.
pub open spec fn empty_chain(origin_tx_id: [u8; 32], sequence: u64) -> ChainView {
    ChainView {
        origin_tx_id,
        sequence,
        length: 0,
        acc: genesis_digest(origin_tx_id, sequence),
        tail: Seq::empty(),
    }
}

/// Start an empty fold for `(origin_tx_id, sequence)`. Feed hops in with
/// [`fold_hop`].
pub fn genesis(origin_tx_id: [u8; 32], sequence: u64) -> (proof: CompressedChainProof)
    ensures
        proof@ == empty_chain(origin_tx_id, sequence),
{
    let proof = CompressedChainProof {
        origin_tx_id,
        sequence,
        length: 0,
        acc: acc_genesis(&origin_tx_id, sequence),
        tail: Vec::new(),
    };
    assert(proof@ =~= empty_chain(origin_tx_id, sequence));
    proof
}

/// The last [`TAIL_WINDOW`] hops of a list.
pub open spec fn last_window(hops: Seq<TailHop>) -> Seq<TailHop> {
    if hops.len() > TAIL_WINDOW {
        hops.skip(hops.len() - TAIL_WINDOW)
    } else {
        hops
    }
}

/// The chain with one more hop.
pub open spec fn extended(
    chain: ChainView,
    relay_pubkey: [u8; 32],
    hop: RelayChainProof,
) -> ChainView {
    ChainView {
        length: (chain.length + 1) as u64,
        acc: step_digest(chain.acc, relay_pubkey, (chain.length + 1) as u64),
        tail: last_window(
            chain.tail.push(TailHop { relay_pubkey, prev_acc: chain.acc, proof: hop }),
        ),
        ..chain
    }
}

/// Why a hop cannot be folded onto a chain; `None` where it can.
pub open spec fn fold_fault(
    chain: ChainView,
    hop: RelayChainProof,
    check: CheckView,
) -> Option<Seq<char>> {
    if hop.sequence != chain.sequence {
        Some(
            "hop proof sequence "@ + decimal(hop.sequence as nat)
                + " does not match chain sequence "@ + decimal(chain.sequence as nat),
        )
    } else if hop.chain_hash != chain.acc {
        Some(
            "hop does not link to the current fold state: proof.chain_hash "@ + hex_of(
                hop.chain_hash@,
            ) + " != acc "@ + hex_of(chain.acc@),
        )
    } else if check.key_fault is Some {
        Some("relay pubkey is not a valid ed25519 key: "@ + check.key_fault->0)
    } else if !check.attested {
        Some(
            "hop proof signature does not verify against the paired relay pubkey over the chain's origin tx id"@,
        )
    } else {
        None
    }
}

/// The outcome of folding one hop.
pub open spec fn fold_outcome(
    chain: ChainView,
    relay_pubkey: [u8; 32],
    hop: RelayChainProof,
    check: CheckView,
) -> Result<ChainView, Seq<char>> {
    match fold_fault(chain, hop, check) {
        Some(fault) => Err(fault),
        None => Ok(extended(chain, relay_pubkey, hop)),
    }
}

/// The result of folding, by its view.
pub open spec fn is_outcome(
    r: Result<CompressedChainProof, SyncEngineError>,
    outcome: Result<ChainView, Seq<char>>,
) -> bool {
    match outcome {
        Ok(chain) => r matches Ok(proof) && proof@ == chain,
        Err(fault) => r matches Err(SyncEngineError::CompressedProofInvalid(msg)) && msg@ == fault,
    }
}

/// Fold one hop whose key and signature have been checked into `proof`.
pub fn fold_checked_hop(
    proof: &CompressedChainProof,
    relay_pubkey: [u8; 32],
    hop: RelayChainProof,
    check: &HopCheck,
) -> (r: Result<CompressedChainProof, SyncEngineError>)
    requires
        proof.length < u64::MAX,
    ensures
        is_outcome(r, fold_outcome(proof@, relay_pubkey, hop, check@)),
{
    if hop.sequence != proof.sequence {
        let mut s: String = "hop proof sequence ".to_owned();
        append_decimal(&mut s, hop.sequence);
        s.append(" does not match chain sequence ");
        append_decimal(&mut s, proof.sequence);
        return Err(SyncEngineError::CompressedProofInvalid(s));
    }
    if !bytes32_eq(&hop.chain_hash, &proof.acc) {
        let mut s: String =
            "hop does not link to the current fold state: proof.chain_hash ".to_owned();
        s.append(hex_string(hop.chain_hash.as_slice()).as_str());
        s.append(" != acc ");
        s.append(hex_string(proof.acc.as_slice()).as_str());
        return Err(SyncEngineError::CompressedProofInvalid(s));
    }
    if let Some(e) = &check.key_fault {
        let mut s: String = "relay pubkey is not a valid ed25519 key: ".to_owned();
        s.append(e.as_str());
        return Err(SyncEngineError::CompressedProofInvalid(s));
    }
    if !check.attested {
        return Err(
            SyncEngineError::CompressedProofInvalid(
                "hop proof signature does not verify against the paired relay pubkey over the chain's origin tx id".to_owned(),
            ),
        );
    }
    let hop_index: u64 = proof.length + 1;
    let new_acc = acc_step(&proof.acc, &relay_pubkey, hop_index);
    let new_hop = TailHop { relay_pubkey, prev_acc: proof.acc, proof: hop };
    let ghost pushed = proof.tail@.push(new_hop);
    // Keep the newest hops: all of them, or the last of the window less the new one.
    let keep: usize = if proof.tail.len() >= TAIL_WINDOW {
        TAIL_WINDOW - 1
    } else {
        proof.tail.len()
    };
    let first: usize = proof.tail.len() - keep;
    let mut tail: Vec<TailHop> = Vec::new();
    let mut i: usize = first;
    while i < proof.tail.len()
        invariant
            first <= i <= proof.tail.len(),
            tail@ == proof.tail@.subrange(first as int, i as int),
        decreases proof.tail.len() - i,
    {
        tail.push(proof.tail[i]);
        i += 1;
        assert(tail@ =~= proof.tail@.subrange(first as int, i as int));
    }
    tail.push(new_hop);
    assert(tail@ =~= last_window(pushed));
    Ok(
        CompressedChainProof {
            origin_tx_id: proof.origin_tx_id,
            sequence: proof.sequence,
            length: hop_index,
            acc: new_acc,
            tail,
        },
    )
}

/// Fold one hop into `proof`, returning the extended proof. Only the newest tail
/// entries are kept, so the work does not grow with the chain. Fails if the hop's
/// proof is for the wrong sequence, does not link to `proof.acc`, or is not
/// attested by `relay_pubkey`; `attested` is the outcome of checking the hop's
/// signature over `proof.origin_tx_id`.
pub fn fold_hop(
    proof: &CompressedChainProof,
    relay_pubkey: [u8; 32],
    hop: RelayChainProof,
    attested: bool,
) -> (r: Result<CompressedChainProof, SyncEngineError>)
    requires
        proof.length < u64::MAX,
    ensures
        is_outcome(
            r,
            fold_outcome(proof@, relay_pubkey, hop, checked(relay_pubkey, attested)),
        ),
{
    let check = check_hop(&relay_pubkey, attested);
    fold_checked_hop(proof, relay_pubkey, hop, &check)
}

/// The outcome of folding a list of hops onto a chain, one after the other.
pub open spec fn fold_all(
    start: Result<ChainView, Seq<char>>,
    hops: Seq<RelayObservation>,
) -> Result<ChainView, Seq<char>>
    decreases hops.len(),
{
    if hops.len() == 0 {
        start
    } else {
        let last = hops.last();
        match fold_all(start, hops.drop_last()) {
            Err(fault) => Err(fault),
            Ok(chain) => fold_outcome(
                chain,
                last.relay_pubkey,
                last.proof,
                checked(last.relay_pubkey, last.attested),
            ),
        }
    }
}

/// The outcome of folding a whole ordered hop list.
pub open spec fn composed(
    origin_tx_id: [u8; 32],
    sequence: u64,
    hops: Seq<RelayObservation>,
) -> Result<ChainView, Seq<char>> {
    fold_all(Ok(empty_chain(origin_tx_id, sequence)), hops)
}

/// Fold a whole ordered hop list at once: [`genesis`] followed by one
/// [`fold_hop`] per hop. Stops at the first hop that cannot be folded.
pub fn compose(origin_tx_id: [u8; 32], sequence: u64, hops: &[RelayObservation]) -> (r: Result<
    CompressedChainProof,
    SyncEngineError,
>)
    ensures
        is_outcome(r, composed(origin_tx_id, sequence, hops@)),
{
    let mut proof = genesis(origin_tx_id, sequence);
    let mut i: usize = 0;
    while i < hops.len()
        invariant
            i <= hops.len(),
            proof.length == i,
            composed(origin_tx_id, sequence, hops@.subrange(0, i as int)) == Ok::<
                ChainView,
                Seq<char>,
            >(proof@),
        decreases hops.len() - i,
    {
        assert(hops@.subrange(0, i + 1).drop_last() =~= hops@.subrange(0, i as int));
        let folded = fold_hop(&proof, hops[i].relay_pubkey, hops[i].proof, hops[i].attested);
        match folded {
            Ok(next) => {
                proof = next;
            },
            Err(e) => {
                proof {
                    lemma_fold_stops(
                        Ok(empty_chain(origin_tx_id, sequence)),
                        hops@,
                        i + 1,
                    );
                }
                return Err(e);
            },
        }
        i += 1;
    }
    assert(hops@.subrange(0, i as int) =~= hops@);
    Ok(proof)
}

/// Once a hop cannot be folded, the outcome stays.
proof fn lemma_fold_stops(
    start: Result<ChainView, Seq<char>>,
    hops: Seq<RelayObservation>,
    n: int,
)
    requires
        0 <= n <= hops.len(),
        fold_all(start, hops.subrange(0, n)) is Err,
    ensures
        fold_all(start, hops) == fold_all(start, hops.subrange(0, n)),
    decreases hops.len() - n,
{
    if n < hops.len() {
        assert(hops.subrange(0, n + 1).drop_last() =~= hops.subrange(0, n));
        lemma_fold_stops(start, hops, n + 1);
    } else {
        assert(hops.subrange(0, n) =~= hops);
    }
}

// ---------------------------------------------------------------------------
// Verification
// ---------------------------------------------------------------------------

/// The number of tail hops a chain must carry.
pub open spec fn expected_tail(length: u64) -> int {
    if length <= TAIL_WINDOW {
        length as int
    } else {
        TAIL_WINDOW as int
    }
}

/// The accumulator that the first `i` tail hops fold up to.
pub open spec fn running(chain: ChainView, i: int) -> [u8; 32] {
    if i == 0 {
        chain.tail[0].prev_acc
    } else {
        step_digest(
            chain.tail[i - 1].prev_acc,
            chain.tail[i - 1].relay_pubkey,
            (chain.length - chain.tail.len() + i) as u64,
        )
    }
}

/// What is wrong with tail hop `i`; `None` where nothing is.
pub open spec fn hop_fault(
    chain: ChainView,
    sequence: u64,
    check: CheckView,
    i: int,
) -> Option<Seq<char>> {
    let hop = chain.tail[i];
    if hop.prev_acc != running(chain, i) {
        Some(
            "tail hop "@ + decimal(i as nat)
                + " does not chain: its prev_acc breaks the fold from the previous hop"@,
        )
    } else if hop.proof.sequence != sequence {
        Some(
            "tail hop "@ + decimal(i as nat) + " proof is for sequence "@ + decimal(
                hop.proof.sequence as nat,
            ) + ", not "@ + decimal(sequence as nat),
        )
    } else if hop.proof.chain_hash != hop.prev_acc {
        Some(
            "tail hop "@ + decimal(i as nat)
                + " proof was not signed over the accumulator it extends"@,
        )
    } else if check.key_fault is Some {
        Some(
            "tail hop "@ + decimal(i as nat) + " relay pubkey is invalid: "@ + check.key_fault->0,
        )
    } else if !check.attested {
        Some(
            "tail hop "@ + decimal(i as nat)
                + " proof signature does not verify against its relay pubkey"@,
        )
    } else {
        None
    }
}

/// The check of tail hop `i`; a hop without one is not attested.
pub open spec fn check_at(checks: Seq<CheckView>, i: int) -> CheckView {
    if i < checks.len() {
        checks[i]
    } else {
        CheckView { key_fault: None, attested: false }
    }
}

/// What is wrong with the first faulty hop of the first `n` tail hops.
pub open spec fn tail_fault(
    chain: ChainView,
    sequence: u64,
    checks: Seq<CheckView>,
    n: int,
) -> Option<Seq<char>>
    decreases n,
{
    if n <= 0 {
        None
    } else {
        match tail_fault(chain, sequence, checks, n - 1) {
            Some(fault) => Some(fault),
            None => hop_fault(chain, sequence, check_at(checks, n - 1), n - 1),
        }
    }
}

/// The relays of a list of hops.
pub open spec fn hop_relays(hops: Seq<TailHop>) -> Set<[u8; 32]>
    decreases hops.len(),
{
    if hops.len() == 0 {
        Set::empty()
    } else {
        hop_relays(hops.drop_last()).insert(hops.last().relay_pubkey)
    }
}

/// What is wrong with a compressed proof for the given slot; `None` where it is
/// valid.
pub open spec fn compressed_fault(
    chain: ChainView,
    origin_tx_id: [u8; 32],
    sequence: u64,
    checks: Seq<CheckView>,
) -> Option<Seq<char>> {
    let n = chain.tail.len() as int;
    if chain.origin_tx_id != origin_tx_id {
        Some(
            "compressed proof origin tx id "@ + hex_of(chain.origin_tx_id@)
                + " does not match the expected "@ + hex_of(origin_tx_id@),
        )
    } else if chain.sequence != sequence {
        Some(
            "compressed proof sequence "@ + decimal(chain.sequence as nat)
                + " does not match the expected "@ + decimal(sequence as nat),
        )
    } else if chain.length == 0 {
        Some("compressed proof attests to a zero-length chain; nothing to escalate"@)
    } else if n != expected_tail(chain.length) {
        Some(
            "compressed proof tail holds "@ + decimal(n as nat)
                + " hop(s) but a chain of length "@ + decimal(chain.length as nat)
                + " must carry "@ + decimal(expected_tail(chain.length) as nat),
        )
    } else if tail_fault(chain, sequence, checks, n) is Some {
        tail_fault(chain, sequence, checks, n)
    } else if running(chain, n) != chain.acc {
        Some("tail attestations do not fold up to the compressed proof's accumulator"@)
    } else if chain.length <= TAIL_WINDOW && chain.tail[0].prev_acc != genesis_digest(
        origin_tx_id,
        sequence,
    ) {
        Some(
            "short chain's first tail hop does not root at the recomputed genesis accumulator"@,
        )
    } else if hop_relays(chain.tail).len() < MIN_QUORUM {
        Some(
            "compressed proof tail carries only "@ + decimal(hop_relays(chain.tail).len())
                + " distinct relay(s); at least "@ + decimal(MIN_QUORUM as nat)
                + " are required"@,
        )
    } else {
        None
    }
}

/// The result of a verification, by what is wrong with the proof.
pub open spec fn is_verdict(
    r: Result<VerifiedChain, SyncEngineError>,
    chain: ChainView,
    fault: Option<Seq<char>>,
) -> bool {
    match fault {
        Some(fault) => r matches Err(SyncEngineError::CompressedProofInvalid(msg)) && msg@ == fault,
        None => r matches Ok(v) && {
            &&& v.origin_tx_id == chain.origin_tx_id
            &&& v.sequence == chain.sequence
            &&& v.length == chain.length
            &&& v.distinct_tail_relays == hop_relays(chain.tail).len()
        },
    }
}

fn invalid(s: String) -> (r: Result<VerifiedChain, SyncEngineError>)
    ensures
        r matches Err(SyncEngineError::CompressedProofInvalid(msg)) && msg@ == s@,
{
    Err(SyncEngineError::CompressedProofInvalid(s))
}

fn tail_hop_label(offset: usize) -> (s: String)
    ensures
        s@ == "tail hop "@ + decimal(offset as nat),
{
    let mut s: String = "tail hop ".to_owned();
    append_decimal(&mut s, offset as u64);
    s
}

/// Check one tail hop: the message of what is wrong with it, if anything.
fn check_tail_hop(
    hop: &TailHop,
    running_acc: &[u8; 32],
    sequence: u64,
    check: Option<&HopCheck>,
    offset: usize,
    Ghost(chain): Ghost<ChainView>,
    Ghost(checks): Ghost<Seq<CheckView>>,
) -> (r: Option<String>)
    requires
        offset < chain.tail.len(),
        *hop == chain.tail[offset as int],
        *running_acc == running(chain, offset as int),
        match check {
            Some(c) => offset < checks.len() && c@ == checks[offset as int],
            None => offset >= checks.len(),
        },
    ensures
        match hop_fault(chain, sequence, check_at(checks, offset as int), offset as int) {
            Some(fault) => r matches Some(s) && s@ == fault,
            None => r is None,
        },
{
    if !bytes32_eq(&hop.prev_acc, running_acc) {
        let mut s = tail_hop_label(offset);
        s.append(" does not chain: its prev_acc breaks the fold from the previous hop");
        return Some(s);
    }
    if hop.proof.sequence != sequence {
        let mut s = tail_hop_label(offset);
        s.append(" proof is for sequence ");
        append_decimal(&mut s, hop.proof.sequence);
        s.append(", not ");
        append_decimal(&mut s, sequence);
        return Some(s);
    }
    if !bytes32_eq(&hop.proof.chain_hash, &hop.prev_acc) {
        let mut s = tail_hop_label(offset);
        s.append(" proof was not signed over the accumulator it extends");
        return Some(s);
    }
    let attested: bool = match check {
        Some(c) => {
            if let Some(e) = &c.key_fault {
                let mut s = tail_hop_label(offset);
                s.append(" relay pubkey is invalid: ");
                s.append(e.as_str());
                return Some(s);
            }
            c.attested
        },
        None => false,
    };
    if !attested {
        let mut s = tail_hop_label(offset);
        s.append(" proof signature does not verify against its relay pubkey");
        return Some(s);
    }
    None
}

/// Verify a [`CompressedChainProof`] against the slot it claims to be about, given
/// what checking the key and signature of each tail hop found. A hop without a
/// check counts as not attested.
pub fn verify_checked(
    proof: &CompressedChainProof,
    expected_origin_tx_id: &[u8; 32],
    expected_sequence: u64,
    checks: &[HopCheck],
) -> (r: Result<VerifiedChain, SyncEngineError>)
    ensures
        is_verdict(
            r,
            proof@,
            compressed_fault(
                proof@,
                *expected_origin_tx_id,
                expected_sequence,
                check_views(checks@),
            ),
        ),
{
    let ghost chain = proof@;
    let ghost views = check_views(checks@);
    if !bytes32_eq(&proof.origin_tx_id, expected_origin_tx_id) {
        let mut s: String = "compressed proof origin tx id ".to_owned();
        s.append(hex_string(proof.origin_tx_id.as_slice()).as_str());
        s.append(" does not match the expected ");
        s.append(hex_string(expected_origin_tx_id.as_slice()).as_str());
        return invalid(s);
    }
    if proof.sequence != expected_sequence {
        let mut s: String = "compressed proof sequence ".to_owned();
        append_decimal(&mut s, proof.sequence);
        s.append(" does not match the expected ");
        append_decimal(&mut s, expected_sequence);
        return invalid(s);
    }
    if proof.length == 0 {
        return invalid(
            "compressed proof attests to a zero-length chain; nothing to escalate".to_owned(),
        );
    }
    let wanted: usize = if proof.length <= TAIL_WINDOW as u64 {
        proof.length as usize
    } else {
        TAIL_WINDOW
    };
    if proof.tail.len() != wanted {
        let mut s: String = "compressed proof tail holds ".to_owned();
        append_decimal(&mut s, proof.tail.len() as u64);
        s.append(" hop(s) but a chain of length ");
        append_decimal(&mut s, proof.length);
        s.append(" must carry ");
        append_decimal(&mut s, wanted as u64);
        return invalid(s);
    }
    // The 0-based index, in the chain, of the first hop retained in the tail.
    let skipped: u64 = proof.length - proof.tail.len() as u64;
    let mut running_acc: [u8; 32] = proof.tail[0].prev_acc;
    let mut distinct: Vec<[u8; 32]> = Vec::new();
    let mut offset: usize = 0;
    assert(distinct@.to_set() =~= Set::empty());
    while offset < proof.tail.len()
        invariant
            chain == proof@,
            views == check_views(checks@),
            proof.origin_tx_id == *expected_origin_tx_id,
            proof.sequence == expected_sequence,
            offset <= proof.tail.len() == expected_tail(proof.length),
            proof.length > 0,
            skipped + proof.tail.len() == proof.length,
            running_acc == running(chain, offset as int),
            tail_fault(chain, expected_sequence, views, offset as int) is None,
            distinct@.no_duplicates(),
            distinct@.to_set() == hop_relays(proof.tail@.subrange(0, offset as int)),
        decreases proof.tail.len() - offset,
    {
        let hop = proof.tail[offset];
        let check: Option<&HopCheck> = if offset < checks.len() {
            Some(&checks[offset])
        } else {
            None
        };
        let fault = check_tail_hop(
            &hop,
            &running_acc,
            expected_sequence,
            check,
            offset,
            Ghost(chain),
            Ghost(views),
        );
        if let Some(s) = fault {
            proof {
                lemma_first_fault(
                    chain,
                    expected_sequence,
                    views,
                    offset + 1,
                    chain.tail.len() as int,
                );
            }
            return invalid(s);
        }
        running_acc = acc_step(
            &hop.prev_acc,
            &hop.relay_pubkey,
            skipped + (offset as u64) + 1,
        );
        assert(proof.tail@.subrange(0, offset + 1).drop_last() =~= proof.tail@.subrange(
            0,
            offset as int,
        ));
        insert_distinct(&mut distinct, hop.relay_pubkey);
        offset += 1;
    }
    assert(proof.tail@.subrange(0, offset as int) =~= proof.tail@);
    proof {
        distinct@.unique_seq_to_set();
    }
    if !bytes32_eq(&running_acc, &proof.acc) {
        return invalid(
            "tail attestations do not fold up to the compressed proof's accumulator".to_owned(),
        );
    }
    // A short chain's tail is the whole chain, so it must re-root at a freshly
    // recomputed genesis. A long chain's pre-tail prefix is accepted on the tail
    // relays' recursive attestations.
    if proof.length <= TAIL_WINDOW as u64 {
        let g = acc_genesis(&proof.origin_tx_id, proof.sequence);
        if !bytes32_eq(&proof.tail[0].prev_acc, &g) {
            return invalid(
                "short chain's first tail hop does not root at the recomputed genesis accumulator".to_owned(),
            );
        }
    }
    if distinct.len() < MIN_QUORUM {
        let mut s: String = "compressed proof tail carries only ".to_owned();
        append_decimal(&mut s, distinct.len() as u64);
        s.append(" distinct relay(s); at least ");
        append_decimal(&mut s, MIN_QUORUM as u64);
        s.append(" are required");
        return invalid(s);
    }
    Ok(
        VerifiedChain {
            origin_tx_id: proof.origin_tx_id,
            sequence: proof.sequence,
            length: proof.length,
            distinct_tail_relays: distinct.len(),
        },
    )
}

proof fn lemma_first_fault(
    chain: ChainView,
    sequence: u64,
    checks: Seq<CheckView>,
    i: int,
    n: int,
)
    requires
        0 <= i <= n,
        tail_fault(chain, sequence, checks, i) is Some,
    ensures
        tail_fault(chain, sequence, checks, n) == tail_fault(chain, sequence, checks, i),
    decreases n,
{
    if i < n {
        lemma_first_fault(chain, sequence, checks, i, n - 1);
    }
}

/// What checking the tail hops finds, where `attested` are the outcomes of checking
/// their signatures.
pub open spec fn tail_checks(tail: Seq<TailHop>, attested: Seq<bool>) -> Seq<CheckView> {
    Seq::new(
        tail.len(),
        |i: int| checked(tail[i].relay_pubkey, i < attested.len() && attested[i]),
    )
}

/// Verify a [`CompressedChainProof`] against the slot it claims to be about.
/// `attested` holds, for each tail hop, whether its signature is its relay's over
/// `proof.origin_tx_id`; a hop without an entry counts as not attested.
///
/// The cost is [`verification_cost`]: flat in `proof.length`.
pub fn verify_compressed(
    proof: &CompressedChainProof,
    expected_origin_tx_id: &[u8; 32],
    expected_sequence: u64,
    attested: &[bool],
) -> (r: Result<VerifiedChain, SyncEngineError>)
    ensures
        is_verdict(
            r,
            proof@,
            compressed_fault(
                proof@,
                *expected_origin_tx_id,
                expected_sequence,
                tail_checks(proof.tail@, attested@),
            ),
        ),
{
    let mut checks: Vec<HopCheck> = Vec::new();
    let mut i: usize = 0;
    while i < proof.tail.len()
        invariant
            i <= proof.tail.len(),
            checks.len() == i,
            forall|j: int|
                0 <= j < i ==> (#[trigger] checks[j])@ == tail_checks(proof.tail@, attested@)[j],
        decreases proof.tail.len() - i,
    {
        let signed: bool = i < attested.len() && attested[i];
        checks.push(check_hop(&proof.tail[i].relay_pubkey, signed));
        i += 1;
    }
    assert(check_views(checks@) =~= tail_checks(proof.tail@, attested@));
    verify_checked(proof, expected_origin_tx_id, expected_sequence, checks.as_slice())
}

// ---------------------------------------------------------------------------
// Laws
// ---------------------------------------------------------------------------

/// Folding can be interrupted anywhere: folding the rest of the hops onto what the
/// first ones fold to gives what folding all of them at once gives.
pub proof fn folding_resumes(
    start: Result<ChainView, Seq<char>>,
    first: Seq<RelayObservation>,
    rest: Seq<RelayObservation>,
)
    ensures
        fold_all(fold_all(start, first), rest) == fold_all(start, first + rest),
    decreases rest.len(),
{
    let all = first + rest;
    if rest.len() == 0 {
        assert(all =~= first);
    } else {
        folding_resumes(start, first, rest.drop_last());
        assert(all.drop_last() =~= first + rest.drop_last());
        assert(all.last() == rest.last());
    }
}

/// Folding one hop at a time and composing the whole list agree.
pub proof fn incremental_fold_matches_compose(
    origin_tx_id: [u8; 32],
    sequence: u64,
    hops: Seq<RelayObservation>,
    hop: RelayObservation,
)
    ensures
        composed(origin_tx_id, sequence, hops.push(hop)) == match composed(
            origin_tx_id,
            sequence,
            hops,
        ) {
            Err(fault) => Err(fault),
            Ok(chain) => fold_outcome(
                chain,
                hop.relay_pubkey,
                hop.proof,
                checked(hop.relay_pubkey, hop.attested),
            ),
        },
{
    assert(hops.push(hop).drop_last() =~= hops);
}

/// A chain that was folded hop by hop: the tail is as long as it must be, every
/// tail hop links to the one before it, and the last one to the accumulator.
pub open spec fn well_folded(chain: ChainView) -> bool {
    let n = chain.tail.len() as int;
    &&& n == expected_tail(chain.length)
    &&& forall|i: int|
        0 <= i < n ==> {
            &&& (#[trigger] chain.tail[i]).prev_acc == running(chain, i)
            &&& chain.tail[i].proof.sequence == chain.sequence
            &&& chain.tail[i].proof.chain_hash == chain.tail[i].prev_acc
            &&& ed25519_key_fault(chain.tail[i].relay_pubkey@) is None
        }
    &&& n > 0 ==> running(chain, n) == chain.acc
    &&& chain.length <= TAIL_WINDOW ==> (if n > 0 {
        chain.tail[0].prev_acc
    } else {
        chain.acc
    }) == genesis_digest(chain.origin_tx_id, chain.sequence)
}

proof fn lemma_extended_is_well_folded(
    chain: ChainView,
    relay_pubkey: [u8; 32],
    hop: RelayChainProof,
    attested: bool,
)
    requires
        well_folded(chain),
        chain.length < u64::MAX,
        fold_fault(chain, hop, checked(relay_pubkey, attested)) is None,
    ensures
        well_folded(extended(chain, relay_pubkey, hop)),
{
    let next = extended(chain, relay_pubkey, hop);
    let n = chain.tail.len() as int;
    let m = next.tail.len() as int;
    let shift = n + 1 - m;
    let new_hop = TailHop { relay_pubkey, prev_acc: chain.acc, proof: hop };
    let pushed = chain.tail.push(new_hop);
    assert(forall|i: int| 0 <= i < m ==> #[trigger] next.tail[i] == pushed[i + shift]);
    assert forall|i: int| 0 <= i < m implies {
        &&& (#[trigger] next.tail[i]).prev_acc == running(next, i)
        &&& next.tail[i].proof.sequence == next.sequence
        &&& next.tail[i].proof.chain_hash == next.tail[i].prev_acc
        &&& ed25519_key_fault(next.tail[i].relay_pubkey@) is None
    } by {
        let k = i + shift;
        if k < n {
            assert(chain.tail[k].prev_acc == running(chain, k));
            if i > 0 {
                assert(next.tail[i - 1] == chain.tail[k - 1]);
                assert(next.length - m + i == chain.length - n + k);
            }
        } else if i > 0 {
            assert(next.tail[i - 1] == chain.tail[n - 1]);
            assert(running(chain, n) == chain.acc);
            assert(next.length - m + i == chain.length);
        }
    }
    assert(next.tail[m - 1] == new_hop);
}

/// The length of a composed chain is the number of its hops, and it is well
/// folded.
pub proof fn composed_is_well_folded(
    origin_tx_id: [u8; 32],
    sequence: u64,
    hops: Seq<RelayObservation>,
)
    requires
        hops.len() <= u64::MAX,
    ensures
        composed(origin_tx_id, sequence, hops) matches Ok(chain) ==> {
            &&& well_folded(chain)
            &&& chain.length == hops.len()
            &&& chain.origin_tx_id == origin_tx_id
            &&& chain.sequence == sequence
        },
    decreases hops.len(),
{
    if hops.len() > 0 {
        composed_is_well_folded(origin_tx_id, sequence, hops.drop_last());
        let last = hops.last();
        match composed(origin_tx_id, sequence, hops.drop_last()) {
            Ok(chain) => {
                if fold_fault(chain, last.proof, checked(last.relay_pubkey, last.attested)) is None {
                    lemma_extended_is_well_folded(
                        chain,
                        last.relay_pubkey,
                        last.proof,
                        last.attested,
                    );
                }
            },
            Err(_) => {},
        }
    }
}

proof fn lemma_attested_tail_has_no_fault(chain: ChainView, attested: Seq<bool>, n: int)
    requires
        well_folded(chain),
        0 <= n <= chain.tail.len(),
        attested.len() >= chain.tail.len(),
        forall|i: int| 0 <= i < chain.tail.len() ==> #[trigger] attested[i],
    ensures
        tail_fault(chain, chain.sequence, tail_checks(chain.tail, attested), n) is None,
    decreases n,
{
    if n > 0 {
        lemma_attested_tail_has_no_fault(chain, attested, n - 1);
        assert(chain.tail[n - 1].prev_acc == running(chain, n - 1));
        assert(attested[n - 1]);
    }
}

/// What was folded verifies: a chain composed of any number of hops, whose tail
/// signatures check out and whose tail names at least [`MIN_QUORUM`] relays, is a
/// valid proof for its slot.
pub proof fn composed_proofs_verify(
    origin_tx_id: [u8; 32],
    sequence: u64,
    hops: Seq<RelayObservation>,
    chain: ChainView,
    attested: Seq<bool>,
)
    requires
        0 < hops.len() <= u64::MAX,
        composed(origin_tx_id, sequence, hops) == Ok::<ChainView, Seq<char>>(chain),
        attested.len() >= chain.tail.len(),
        forall|i: int| 0 <= i < chain.tail.len() ==> #[trigger] attested[i],
        hop_relays(chain.tail).len() >= MIN_QUORUM,
    ensures
        compressed_fault(chain, origin_tx_id, sequence, tail_checks(chain.tail, attested)) is None,
{
    composed_is_well_folded(origin_tx_id, sequence, hops);
    lemma_attested_tail_has_no_fault(chain, attested, chain.tail.len() as int);
}

/// A tampered hop cannot be folded: a hop that is not signed over the accumulator
/// it extends, or not attested by its relay, stops the fold, and so does every list
/// of hops that contains it at that point.
pub proof fn tampered_hops_stop_the_fold(
    origin_tx_id: [u8; 32],
    sequence: u64,
    hops: Seq<RelayObservation>,
    i: int,
)
    requires
        0 <= i < hops.len(),
        composed(origin_tx_id, sequence, hops.subrange(0, i)) matches Ok(chain) ==> {
            ||| hops[i].proof.chain_hash != chain.acc
            ||| hops[i].proof.sequence != sequence
            ||| !hops[i].attested
        },
        hops.len() <= u64::MAX,
    ensures
        composed(origin_tx_id, sequence, hops) is Err,
{
    let start = Ok::<ChainView, Seq<char>>(empty_chain(origin_tx_id, sequence));
    let upto = hops.subrange(0, i + 1);
    assert(upto.drop_last() =~= hops.subrange(0, i));
    composed_is_well_folded(origin_tx_id, sequence, hops.subrange(0, i));
    lemma_fold_stops(start, hops, i + 1);
}

/// A proof that verifies has exactly the tail that its length calls for, so the
/// cost of verifying it does not depend on its length beyond [`TAIL_WINDOW`].
pub proof fn verification_cost_is_flat(
    chain: ChainView,
    origin_tx_id: [u8; 32],
    sequence: u64,
    checks: Seq<CheckView>,
)
    requires
        compressed_fault(chain, origin_tx_id, sequence, checks) is None,
    ensures
        chain.tail.len() <= TAIL_WINDOW,
        chain.length > TAIL_WINDOW ==> chain.tail.len() == TAIL_WINDOW,
{
}

/// A chain starts from its transaction and sequence: two chains start from the same
/// accumulator only where both are the same, unless SHA-256 collides on what it is made of.
pub proof fn origins_are_bound(
    origin: [u8; 32],
    sequence: u64,
    other_origin: [u8; 32],
    other_sequence: u64,
)
    requires
        genesis_digest(origin, sequence) == genesis_digest(other_origin, other_sequence),
    ensures
        origin == other_origin && sequence == other_sequence || digests_collide(
            encode_utf8(GENESIS_DOMAIN@) + origin@ + be_bytes(sequence),
            encode_utf8(GENESIS_DOMAIN@) + other_origin@ + be_bytes(other_sequence),
        ),
{
    let x = encode_utf8(GENESIS_DOMAIN@) + origin@ + be_bytes(sequence);
    let y = encode_utf8(GENESIS_DOMAIN@) + other_origin@ + be_bytes(other_sequence);
    if x == y {
        let n = encode_utf8(GENESIS_DOMAIN@).len() as int;
        crate::bytes::big_endian_bytes_give_the_integer_back(sequence, 0);
        crate::bytes::big_endian_bytes_give_the_integer_back(other_sequence, 0);
        assert(x.subrange(n, n + 32) =~= origin@);
        assert(y.subrange(n, n + 32) =~= other_origin@);
        assert(origin =~= other_origin);
        assert(x.subrange(n + 32, n + 40) =~= be_bytes(sequence));
        assert(y.subrange(n + 32, n + 40) =~= be_bytes(other_sequence));
    }
}

/// A step of the fold commits to everything before it, to the relay and to its place: two steps
/// lead to the same accumulator only where all three are the same, unless SHA-256 collides on
/// what it is made of.
pub proof fn hops_are_bound(
    acc: [u8; 32],
    relay: [u8; 32],
    index: u64,
    other_acc: [u8; 32],
    other_relay: [u8; 32],
    other_index: u64,
)
    requires
        step_digest(acc, relay, index) == step_digest(other_acc, other_relay, other_index),
    ensures
        acc == other_acc && relay == other_relay && index == other_index || digests_collide(
            encode_utf8(FOLD_DOMAIN@) + acc@ + relay@ + be_bytes(index),
            encode_utf8(FOLD_DOMAIN@) + other_acc@ + other_relay@ + be_bytes(other_index),
        ),
{
    let x = encode_utf8(FOLD_DOMAIN@) + acc@ + relay@ + be_bytes(index);
    let y = encode_utf8(FOLD_DOMAIN@) + other_acc@ + other_relay@ + be_bytes(other_index);
    if x == y {
        let n = encode_utf8(FOLD_DOMAIN@).len() as int;
        crate::bytes::big_endian_bytes_give_the_integer_back(index, 0);
        crate::bytes::big_endian_bytes_give_the_integer_back(other_index, 0);
        assert(x.subrange(n, n + 32) =~= acc@);
        assert(y.subrange(n, n + 32) =~= other_acc@);
        assert(acc =~= other_acc);
        assert(x.subrange(n + 32, n + 64) =~= relay@);
        assert(y.subrange(n + 32, n + 64) =~= other_relay@);
        assert(relay =~= other_relay);
        assert(x.subrange(n + 64, n + 72) =~= be_bytes(index));
        assert(y.subrange(n + 64, n + 72) =~= be_bytes(other_index));
    }
}

/// A hop is folded exactly where it is for the chain's sequence, was signed over the chain's
/// accumulator, and its relay's key and signature check out. The chain is then one hop longer,
/// ends with this hop, and keeps the newest hops, at most four of them.
pub proof fn folded_hops_extend_the_chain(
    chain: ChainView,
    relay_pubkey: [u8; 32],
    hop: RelayChainProof,
    check: CheckView,
)
    requires
        chain.length < u64::MAX,
        chain.tail.len() <= 4,
    ensures
        fold_outcome(chain, relay_pubkey, hop, check) is Ok <==> hop.sequence == chain.sequence
            && hop.chain_hash == chain.acc && check.key_fault is None && check.attested,
        fold_outcome(chain, relay_pubkey, hop, check) matches Ok(next) ==> {
            &&& next.origin_tx_id == chain.origin_tx_id
            &&& next.sequence == chain.sequence
            &&& next.length == chain.length + 1
            &&& next.acc == step_digest(chain.acc, relay_pubkey, next.length)
            &&& next.tail.len() == if chain.tail.len() < 4 {
                chain.tail.len() + 1
            } else {
                4
            }
            &&& next.tail.last().relay_pubkey == relay_pubkey
            &&& next.tail.last().prev_acc == chain.acc
            &&& next.tail.last().proof == hop
            &&& next.tail.drop_last() == chain.tail.skip(
                chain.tail.len() + 1 - next.tail.len(),
            )
        },
{
    if fold_outcome(chain, relay_pubkey, hop, check) is Ok {
        let next = extended(chain, relay_pubkey, hop);
        assert(next.tail.drop_last() =~= chain.tail.skip(chain.tail.len() + 1 - next.tail.len()));
    }
}

/// An empty chain has no hops, and the outcome of a fold is reported as it is.
pub proof fn chains_start_empty(
    origin_tx_id: [u8; 32],
    sequence: u64,
    r: Result<CompressedChainProof, SyncEngineError>,
    outcome: Result<ChainView, Seq<char>>,
)
    ensures
        empty_chain(origin_tx_id, sequence).origin_tx_id == origin_tx_id,
        empty_chain(origin_tx_id, sequence).sequence == sequence,
        empty_chain(origin_tx_id, sequence).length == 0,
        empty_chain(origin_tx_id, sequence).tail.len() == 0,
        empty_chain(origin_tx_id, sequence).acc == genesis_digest(origin_tx_id, sequence),
        composed(origin_tx_id, sequence, Seq::empty()) == Ok::<ChainView, Seq<char>>(
            empty_chain(origin_tx_id, sequence),
        ),
        is_outcome(r, outcome) ==> (r is Ok <==> outcome is Ok),
        is_outcome(r, outcome) ==> (r matches Ok(proof) ==> proof.origin_tx_id
            == outcome->Ok_0.origin_tx_id && proof.sequence == outcome->Ok_0.sequence
            && proof.length == outcome->Ok_0.length && proof.acc == outcome->Ok_0.acc
            && proof.tail@ == outcome->Ok_0.tail),
{
}

/// A key is checked and a signature is taken as it was found, hop by hop; a hop without a
/// finding is not attested.
pub proof fn tail_checks_are_hop_by_hop(tail: Seq<TailHop>, attested: Seq<bool>, i: int)
    requires
        0 <= i < tail.len(),
    ensures
        tail_checks(tail, attested).len() == tail.len(),
        tail_checks(tail, attested)[i].key_fault == ed25519_key_fault(tail[i].relay_pubkey@),
        tail_checks(tail, attested)[i].attested <==> i < attested.len() && attested[i],
{
}

proof fn lemma_no_tail_fault(chain: ChainView, sequence: u64, checks: Seq<CheckView>, n: int)
    requires
        0 <= n,
    ensures
        tail_fault(chain, sequence, checks, n) is None <==> forall|i: int|
            0 <= i < n ==> #[trigger] hop_fault(chain, sequence, check_at(checks, i), i) is None,
    decreases n,
{
    if n > 0 {
        lemma_no_tail_fault(chain, sequence, checks, n - 1);
        if tail_fault(chain, sequence, checks, n) is None {
            assert forall|i: int| 0 <= i < n implies #[trigger] hop_fault(
                chain,
                sequence,
                check_at(checks, i),
                i,
            ) is None by {
                if i < n - 1 {
                    assert(hop_fault(chain, sequence, check_at(checks, i), i) is None);
                }
            }
        }
        if forall|i: int|
            0 <= i < n ==> #[trigger] hop_fault(chain, sequence, check_at(checks, i), i) is None {
            assert(hop_fault(chain, sequence, check_at(checks, n - 1), n - 1) is None);
            assert forall|i: int| 0 <= i < n - 1 implies #[trigger] hop_fault(
                chain,
                sequence,
                check_at(checks, i),
                i,
            ) is None by {
                assert(hop_fault(chain, sequence, check_at(checks, i), i) is None);
            }
        }
    }
}

/// A proof is accepted exactly where it is about the expected transaction and sequence, has at
/// least one hop and carries its last hops, as many as there are but at most four; where each
/// of these was signed for that sequence over the accumulator that it extends by a relay whose
/// key and signature check out; where each leads to the next one's accumulator and the last to
/// the proof's own; where a chain of at most four hops starts from its origin; and where the
/// hops carried are of at least two relays.
pub proof fn accepted_proofs_fold_up(
    chain: ChainView,
    origin_tx_id: [u8; 32],
    sequence: u64,
    checks: Seq<CheckView>,
)
    requires
        checks.len() == chain.tail.len(),
    ensures
        compressed_fault(chain, origin_tx_id, sequence, checks) is None <==> {
            let n = chain.tail.len() as int;
            &&& chain.origin_tx_id == origin_tx_id
            &&& chain.sequence == sequence
            &&& chain.length > 0
            &&& n == chain.length || n == 4 && chain.length > 4
            &&& n <= 4
            &&& forall|i: int|
                0 <= i < n ==> {
                    &&& (#[trigger] chain.tail[i]).proof.sequence == sequence
                    &&& chain.tail[i].proof.chain_hash == chain.tail[i].prev_acc
                    &&& checks[i].key_fault is None
                    &&& checks[i].attested
                    &&& (if i + 1 < n {
                        chain.tail[i + 1].prev_acc
                    } else {
                        chain.acc
                    }) == step_digest(
                        chain.tail[i].prev_acc,
                        chain.tail[i].relay_pubkey,
                        (chain.length - n + i + 1) as u64,
                    )
                }
            &&& chain.length <= 4 ==> chain.tail[0].prev_acc == genesis_digest(
                origin_tx_id,
                sequence,
            )
            &&& hop_relays(chain.tail).len() >= 2
        },
{
    let n = chain.tail.len() as int;
    lemma_no_tail_fault(chain, sequence, checks, n);
    if compressed_fault(chain, origin_tx_id, sequence, checks) is None {
        assert forall|i: int| 0 <= i < n implies {
            &&& (#[trigger] chain.tail[i]).proof.sequence == sequence
            &&& chain.tail[i].proof.chain_hash == chain.tail[i].prev_acc
            &&& checks[i].key_fault is None
            &&& checks[i].attested
            &&& (if i + 1 < n {
                chain.tail[i + 1].prev_acc
            } else {
                chain.acc
            }) == step_digest(
                chain.tail[i].prev_acc,
                chain.tail[i].relay_pubkey,
                (chain.length - n + i + 1) as u64,
            )
        } by {
            assert(hop_fault(chain, sequence, check_at(checks, i), i) is None);
            if i + 1 < n {
                assert(hop_fault(chain, sequence, check_at(checks, i + 1), i + 1) is None);
            }
        }
    }
    if {
        &&& n > 0
        &&& forall|i: int|
            0 <= i < n ==> {
                &&& (#[trigger] chain.tail[i]).proof.sequence == sequence
                &&& chain.tail[i].proof.chain_hash == chain.tail[i].prev_acc
                &&& checks[i].key_fault is None
                &&& checks[i].attested
                &&& (if i + 1 < n {
                    chain.tail[i + 1].prev_acc
                } else {
                    chain.acc
                }) == step_digest(
                    chain.tail[i].prev_acc,
                    chain.tail[i].relay_pubkey,
                    (chain.length - n + i + 1) as u64,
                )
            }
    } {
        assert forall|i: int| 0 <= i < n implies #[trigger] hop_fault(
            chain,
            sequence,
            check_at(checks, i),
            i,
        ) is None by {
            assert(chain.tail[i].proof.sequence == sequence);
            if i > 0 {
                assert(chain.tail[i - 1].proof.sequence == sequence);
            }
        }
        assert(chain.tail[n - 1].proof.sequence == sequence);
    }
}

/// The relays of a tail are those that its hops name.
pub proof fn tail_relays_are_those_named(hops: Seq<TailHop>, relay: [u8; 32])
    ensures
        hop_relays(hops).finite(),
        hop_relays(hops).contains(relay) <==> exists|i: int|
            0 <= i < hops.len() && (#[trigger] hops[i]).relay_pubkey == relay,
    decreases hops.len(),
{
    if hops.len() > 0 {
        let front = hops.drop_last();
        tail_relays_are_those_named(front, relay);
        if hop_relays(front).contains(relay) {
            let i = choose|i: int| 0 <= i < front.len() && (#[trigger] front[i]).relay_pubkey == relay;
            assert(hops[i].relay_pubkey == relay);
        }
        if hops.last().relay_pubkey == relay {
            assert(hops[hops.len() - 1].relay_pubkey == relay);
        }
        if exists|i: int| 0 <= i < hops.len() && (#[trigger] hops[i]).relay_pubkey == relay {
            let i = choose|i: int| 0 <= i < hops.len() && (#[trigger] hops[i]).relay_pubkey == relay;
            if i < front.len() {
                assert(front[i].relay_pubkey == relay);
            }
        }
    }
}

/// A verified chain is reported with its own transaction, sequence and length, and the number
/// of relays that its tail names; a fault is reported as it was found.
pub proof fn verdicts_report_the_chain(
    r: Result<VerifiedChain, SyncEngineError>,
    chain: ChainView,
    fault: Option<Seq<char>>,
)
    requires
        is_verdict(r, chain, fault),
    ensures
        r is Ok <==> fault is None,
        r matches Ok(v) ==> v.origin_tx_id == chain.origin_tx_id && v.sequence == chain.sequence
            && v.length == chain.length && v.distinct_tail_relays == hop_relays(chain.tail).len(),
        fault matches Some(text) ==> (r matches Err(SyncEngineError::CompressedProofInvalid(msg))
            && msg@ == text),
{
}

} // verus!
