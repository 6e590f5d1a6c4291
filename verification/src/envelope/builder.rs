//! Offline construction and signing of `TransactionEnvelope`s.
//!
//! Signing is coupled to sequence-number reservation, so a caller cannot accidentally
//! sign two envelopes for the same account without first reserving distinct sequence
//! numbers. The source account and sequence number are derived from the XDR itself
//! rather than taken on trust from the caller: a mismatch is rejected.
//!
//! ## Multi-signature source accounts
//!
//! A [`PartiallySignedEnvelope`] accumulates the authorizations of an account's weighted
//! signers. It can only become a `TransactionEnvelope` via [`try_promote`], once the
//! account's cached threshold is met. The mesh signature of the promoted envelope
//! authenticates the device that finalized it; it is not one of the account's
//! signatures.
use crate::bytes::bytes32_eq;
use crate::envelope::pq::{apply_policy, signed_under, HybridSignedEnvelope, SigningPolicy};
use crate::envelope::secure_signing::KeySigner;
use crate::envelope::xdr::{
    extract_source_account_and_sequence, with_updated_sequence, xdr_parts, xdr_resequenced,
};
use crate::errors::SyncEngineError;
use crate::hashing::{digests_collide, sha256, sha256_digest};
use crate::maps::{key_at, keys_distinct};
use crate::message::TransactionEnvelope;
use crate::queue::sequence::{
    threshold_of, value_of, weight_of, MultisigAccountRegistry, SequenceReservationManager,
    SequenceView, SignersView,
};
use crate::stellar_address::strkey_address;
use crate::text::str_eq;
use vstd::bytes::{spec_u64_to_le_bytes, u64_to_le_bytes};
use vstd::prelude::*;
use vstd::utf8::encode_utf8;

verus! {

/// The id that the mesh layer gives to a message of a signer, a transaction and a time,
/// and that time (Unix seconds).
#[derive(Debug, Clone, Copy, PartialEq, Eq)]
pub struct MessageStamp {
    pub message_id: [u8; 32],
    pub timestamp: u64,
}

/// An envelope assembled from its parts.
pub open spec fn is_envelope(
    e: TransactionEnvelope,
    stamp: MessageStamp,
    origin_pubkey: [u8; 32],
    tx_xdr: Seq<char>,
    ttl_hops: u8,
    signature: [u8; 64],
) -> bool {
    &&& e.message_id == stamp.message_id
    &&& e.origin_pubkey == origin_pubkey
    &&& e.tx_xdr@ == tx_xdr
    &&& e.ttl_hops == ttl_hops
    &&& e.timestamp == stamp.timestamp
    &&& e.signature == signature
}

/// What comes of sealing an envelope, where signing its message id returned `signed`:
/// the signer's error, or the envelope with that signature and what the policy adds.
pub open spec fn sealed(
    r: Result<HybridSignedEnvelope, SyncEngineError>,
    signed: Result<[u8; 64], SyncEngineError>,
    stamp: MessageStamp,
    origin_pubkey: [u8; 32],
    tx_xdr: Seq<char>,
    ttl_hops: u8,
    policy: SigningPolicy,
) -> bool {
    match signed {
        Err(e) => r == Err::<HybridSignedEnvelope, SyncEngineError>(e),
        Ok(signature) => r matches Ok(e) && is_envelope(
            e.classical_envelope,
            stamp,
            origin_pubkey,
            tx_xdr,
            ttl_hops,
            signature,
        ) && signed_under(e, policy),
    }
}

/// Assemble an envelope around the result of signing its message id.
pub fn seal_signed(
    signed: Result<[u8; 64], SyncEngineError>,
    stamp: &MessageStamp,
    origin_pubkey: [u8; 32],
    tx_xdr: String,
    ttl_hops: u8,
    policy: &SigningPolicy,
) -> (r: Result<HybridSignedEnvelope, SyncEngineError>)
    requires
        policy.wf(),
    ensures
        sealed(r, signed, *stamp, origin_pubkey, tx_xdr@, ttl_hops, *policy),
{
    match signed {
        Err(e) => Err(e),
        Ok(signature) => {
            let classical_envelope = TransactionEnvelope {
                message_id: stamp.message_id,
                origin_pubkey,
                tx_xdr,
                ttl_hops,
                timestamp: stamp.timestamp,
                signature,
            };
            Ok(apply_policy(classical_envelope, policy))
        },
    }
}

/// Sign an envelope's message id and assemble the envelope.
fn seal<S: KeySigner>(
    signer: &S,
    stamp: &MessageStamp,
    tx_xdr: String,
    ttl_hops: u8,
    policy: &SigningPolicy,
) -> (r: Result<HybridSignedEnvelope, SyncEngineError>)
    requires
        policy.wf(),
    ensures
        exists|signed: Result<[u8; 64], SyncEngineError>| #[trigger]
            signer.may_sign(stamp.message_id@, signed) && sealed(
                r,
                signed,
                *stamp,
                signer.key(),
                tx_xdr@,
                ttl_hops,
                *policy,
            ),
{
    let origin_pubkey = signer.public_key();
    let signed = signer.sign(stamp.message_id.as_slice());
    seal_signed(signed, stamp, origin_pubkey, tx_xdr, ttl_hops, policy)
}

/// Builds envelopes offline.
pub struct OfflineEnvelopeBuilder;

/// Why a transaction cannot take its account's next sequence number.
pub enum Refusal {
    /// The XDR does not parse.
    Malformed { message: Seq<char> },
    /// The caller named another account.
    OtherAccount { actual: Seq<char> },
    /// The account was not seeded.
    Unseeded,
    /// The XDR carries another sequence number than the next one.
    OtherSequence { reserved: int, actual: i64 },
}

/// The account and sequence that a transaction takes, or why it cannot: the account is
/// that of the XDR and the caller must have named it, and the sequence is the account's
/// next one and must be that of the XDR.
pub open spec fn claimed_slot(
    sequences: SequenceView,
    source_account: Seq<char>,
    tx_xdr: Seq<char>,
) -> Result<(Seq<char>, i64), Refusal> {
    match xdr_parts(tx_xdr) {
        Err(message) => Err(Refusal::Malformed { message }),
        Ok(parts) => {
            let account = strkey_address(parts.account_key()@);
            let sequence = parts.account_sequence();
            if source_account != account {
                Err(Refusal::OtherAccount { actual: account })
            } else {
                match value_of(sequences.reserved, account) {
                    None => Err(Refusal::Unseeded),
                    Some(last) => if last + 1 != sequence {
                        Err(Refusal::OtherSequence { reserved: last + 1, actual: sequence })
                    } else {
                        Ok((account, sequence))
                    },
                }
            }
        },
    }
}

/// The error of a refusal.
pub open spec fn is_refusal(e: SyncEngineError, source_account: Seq<char>, why: Refusal) -> bool {
    match why {
        Refusal::Malformed { message } => e matches SyncEngineError::XdrParse(msg) && msg@
            == message,
        Refusal::OtherAccount { actual } => e matches SyncEngineError::SourceAccountMismatch {
            claimed: c,
            actual: a,
        } && c@ == source_account && a@ == actual,
        Refusal::Unseeded => e matches SyncEngineError::NoSequenceReserved(a) && a@
            == source_account,
        Refusal::OtherSequence { reserved, actual } =>
        e matches SyncEngineError::SequenceMismatch { account: a, reserved: r, actual: s } && a@
            == source_account && r == reserved && s == actual,
    }
}

/// The outcome of building an envelope. A refused transaction, and one that was not
/// signed, leaves the reservations as they were.
pub open spec fn built<S: KeySigner>(
    before: SequenceView,
    after: SequenceView,
    r: Result<(HybridSignedEnvelope, i64), SyncEngineError>,
    source_account: Seq<char>,
    signer: S,
    policy: SigningPolicy,
    tx_xdr: Seq<char>,
    ttl_hops: u8,
    stamp: MessageStamp,
) -> bool {
    match claimed_slot(before, source_account, tx_xdr) {
        Err(why) => r matches Err(e) && is_refusal(e, source_account, why) && after == before,
        Ok((account, sequence)) => exists|signed: Result<[u8; 64], SyncEngineError>| #[trigger]
            signer.may_sign(stamp.message_id@, signed) && match signed {
                Err(e) => {
                    &&& r == Err::<(HybridSignedEnvelope, i64), SyncEngineError>(e)
                    &&& after == before
                },
                Ok(signature) => {
                    &&& r matches Ok((e, s)) && s == sequence && is_envelope(
                        e.classical_envelope,
                        stamp,
                        signer.key(),
                        tx_xdr,
                        ttl_hops,
                        signature,
                    ) && signed_under(e, policy)
                    &&& after == before.with_reserved(source_account, sequence)
                },
            },
    }
}

impl OfflineEnvelopeBuilder {
    /// Reserve the slot that a transaction takes: derive its account and sequence from
    /// the XDR, cross-check the caller's claim, reserve the account's next sequence and
    /// check that it is the one in the XDR. A refused transaction leaves the
    /// reservations as they were.
    pub fn reserve_slot(
        sequences: &mut SequenceReservationManager,
        source_account: &str,
        tx_xdr: &str,
    ) -> (r: Result<i64, SyncEngineError>)
        requires
            old(sequences).wf(),
            value_of(old(sequences)@.reserved, source_account@) != Some(i64::MAX),
        ensures
            final(sequences).wf(),
            match claimed_slot(old(sequences)@, source_account@, tx_xdr@) {
                Ok((account, sequence)) => r matches Ok(s) && s == sequence && final(sequences)@
                    == old(sequences)@.with_reserved(source_account@, sequence),
                Err(why) => r matches Err(e) && is_refusal(e, source_account@, why) && final(
                    sequences
                )@ == old(sequences)@,
            },
    {
        // Trust the XDR, not the caller: the true source account and sequence are encoded
        // in the already-built transaction.
        let (xdr_account, xdr_sequence) = match extract_source_account_and_sequence(tx_xdr) {
            Ok(pair) => pair,
            Err(e) => {
                return Err(e);
            },
        };
        if !str_eq(source_account, xdr_account.as_str()) {
            return Err(
                SyncEngineError::SourceAccountMismatch {
                    claimed: source_account.to_owned(),
                    actual: xdr_account,
                },
            );
        }
        let ghost before = sequences@;
        let reserved: i64 = match sequences.reserve_next(xdr_account.as_str()) {
            Ok(reserved) => reserved,
            Err(e) => {
                return Err(e);
            },
        };
        if reserved != xdr_sequence {
            // Nothing got signed, so roll the reservation back.
            let _ = sequences.release(xdr_account.as_str(), reserved);
            assert(sequences@.reserved =~= before.reserved);
            return Err(
                SyncEngineError::SequenceMismatch {
                    account: xdr_account,
                    reserved,
                    actual: xdr_sequence,
                },
            );
        }
        Ok(xdr_sequence)
    }

    /// Derive the source account and sequence number from `tx_xdr`, reserve that
    /// sequence, and build and sign an envelope wrapping `tx_xdr`. `stamp` is the message
    /// id for the signer's public key and `tx_xdr`.
    ///
    /// Returns the signed envelope along with the sequence number it occupies. Where
    /// nothing gets signed, the reservation is rolled back.
    pub fn build_and_sign<S: KeySigner>(
        sequences: &mut SequenceReservationManager,
        source_account: &str,
        signer: &S,
        policy: &SigningPolicy,
        tx_xdr: String,
        ttl_hops: u8,
        stamp: &MessageStamp,
    ) -> (r: Result<(HybridSignedEnvelope, i64), SyncEngineError>)
        requires
            old(sequences).wf(),
            value_of(old(sequences)@.reserved, source_account@) != Some(i64::MAX),
            policy.wf(),
        ensures
            final(sequences).wf(),
            built(
                old(sequences)@,
                final(sequences)@,
                r,
                source_account@,
                *signer,
                *policy,
                tx_xdr@,
                ttl_hops,
                *stamp,
            ),
    {
        let ghost before = sequences@;
        let xdr_sequence: i64 = match Self::reserve_slot(
            sequences,
            source_account,
            tx_xdr.as_str(),
        ) {
            Ok(sequence) => sequence,
            Err(e) => {
                return Err(e);
            },
        };
        let sealing = seal(signer, stamp, tx_xdr, ttl_hops, policy);
        match sealing {
            Ok(envelope) => Ok((envelope, xdr_sequence)),
            Err(e) => {
                // Nothing got signed, so roll the reservation back.
                let _ = sequences.release(source_account, xdr_sequence);
                assert(sequences@.reserved =~= before.reserved);
                Err(e)
            },
        }
    }
}

/// Parses the old envelope's `tx_xdr`, rewrites its sequence number, re-serializes it,
/// and produces a freshly-signed envelope with `stamp` as its new message id. The other
/// transaction semantics are preserved unchanged.
pub fn resequence_and_resign<S: KeySigner>(
    old_envelope: &TransactionEnvelope,
    new_sequence: i64,
    signer: &S,
    policy: &SigningPolicy,
    stamp: &MessageStamp,
) -> (r: Result<HybridSignedEnvelope, SyncEngineError>)
    requires
        policy.wf(),
    ensures
        match xdr_parts(old_envelope.tx_xdr@) {
            Err(message) => r matches Err(SyncEngineError::XdrParse(msg)) && msg@ == message,
            Ok(parts) => {
                let tx_xdr = xdr_resequenced(old_envelope.tx_xdr@, new_sequence);
                &&& xdr_parts(tx_xdr) matches Ok(p) && p == parts.with_sequence(new_sequence)
                &&& exists|signed: Result<[u8; 64], SyncEngineError>| #[trigger]
                    signer.may_sign(stamp.message_id@, signed) && sealed(
                        r,
                        signed,
                        *stamp,
                        signer.key(),
                        tx_xdr,
                        old_envelope.ttl_hops,
                        *policy,
                    )
            },
        },
{
    let new_tx_xdr = match with_updated_sequence(old_envelope.tx_xdr.as_str(), new_sequence) {
        Ok(text) => text,
        Err(e) => {
            return Err(e);
        },
    };
    seal(signer, stamp, new_tx_xdr, old_envelope.ttl_hops, policy)
}

// ---------------------------------------------------------------------------
// Multisig accounts
// ---------------------------------------------------------------------------

/// The hash that an account's signers authorize.
pub open spec fn multisig_digest(
    source_account: Seq<char>,
    sequence: i64,
    tx_xdr: Seq<char>,
) -> [u8; 32] {
    sha256_digest(
        encode_utf8(source_account) + spec_u64_to_le_bytes(sequence as u64) + encode_utf8(tx_xdr),
    )
}

/// The hash that an account's signers authorize.
pub fn multisig_payload_hash(source_account: &str, sequence: i64, tx_xdr: &str) -> (h: [u8; 32])
    ensures
        h == multisig_digest(source_account@, sequence, tx_xdr@),
{
    let mut buf: Vec<u8> = Vec::new();
    buf.extend_from_slice(source_account.as_bytes());
    buf.extend_from_slice(u64_to_le_bytes(sequence as u64).as_slice());
    buf.extend_from_slice(tx_xdr.as_bytes());
    assert(buf@ =~= encode_utf8(source_account@) + spec_u64_to_le_bytes(sequence as u64)
        + encode_utf8(tx_xdr@));
    sha256(buf.as_slice())
}

/// An envelope for a Stellar multisig source account that has accumulated some, but not
/// yet enough, weighted signer authorizations to be dispatched.
#[derive(Debug)]
pub struct PartiallySignedEnvelope {
    pub source_account: String,
    pub sequence: i64,
    pub tx_xdr: String,
    /// Each contributing signer's public key and its authorization. A signer re-signing
    /// overwrites its own prior contribution.
    pub contributions: Vec<([u8; 32], [u8; 64])>,
}

/// The list with a signer's contribution added, in place of an earlier one of the same
/// signer.
pub open spec fn contributed(
    list: Seq<([u8; 32], [u8; 64])>,
    pubkey: [u8; 32],
    signature: [u8; 64],
) -> Seq<([u8; 32], [u8; 64])>
    decreases list.len(),
{
    if list.len() == 0 {
        seq![(pubkey, signature)]
    } else if list.last().0 == pubkey {
        list.drop_last().push((pubkey, signature))
    } else if exists|i: int| key_at(list.drop_last(), pubkey, i) {
        contributed(list.drop_last(), pubkey, signature).push(list.last())
    } else {
        list.push((pubkey, signature))
    }
}

/// The sum of the weights of the contributing signers; one that is not known to the
/// account contributes nothing.
pub open spec fn total_weight(
    list: Seq<([u8; 32], [u8; 64])>,
    accounts: Map<Seq<char>, SignersView>,
    account: Seq<char>,
) -> nat
    decreases list.len(),
{
    if list.len() == 0 {
        0
    } else {
        total_weight(list.drop_last(), accounts, account) + weight_or_zero(
            accounts,
            account,
            list.last().0,
        )
    }
}

/// The weight of a signer, zero where it is not known.
pub open spec fn weight_or_zero(
    accounts: Map<Seq<char>, SignersView>,
    account: Seq<char>,
    pubkey: [u8; 32],
) -> nat {
    match weight_of(accounts, account, pubkey) {
        Some(weight) => weight as nat,
        None => 0,
    }
}

proof fn lemma_contributed_elsewhere(
    list: Seq<([u8; 32], [u8; 64])>,
    at: int,
    pubkey: [u8; 32],
    signature: [u8; 64],
)
    requires
        keys_distinct(list),
        key_at(list, pubkey, at),
    ensures
        contributed(list, pubkey, signature) == list.update(at, (pubkey, signature)),
    decreases list.len(),
{
    let front = list.drop_last();
    let last = list.len() - 1;
    if list.last().0 == pubkey {
        if at < last {
            assert(list[at].0 != list[last].0);
        }
        assert(list.drop_last().push((pubkey, signature)) =~= list.update(at, (pubkey, signature)));
    } else {
        assert(key_at(front, pubkey, at));
        assert(keys_distinct(front)) by {
            assert forall|i: int, j: int| 0 <= i < j < front.len() implies (#[trigger] front[i]).0
                != (#[trigger] front[j]).0 by {
                assert(list[i].0 != list[j].0);
            }
        }
        lemma_contributed_elsewhere(front, at, pubkey, signature);
        assert(front.update(at, (pubkey, signature)).push(list.last()) =~= list.update(
            at,
            (pubkey, signature),
        ));
    }
}

proof fn lemma_contributed_anew(
    list: Seq<([u8; 32], [u8; 64])>,
    pubkey: [u8; 32],
    signature: [u8; 64],
)
    requires
        forall|i: int| !key_at(list, pubkey, i),
    ensures
        contributed(list, pubkey, signature) == list.push((pubkey, signature)),
{
    if list.len() == 0 {
        assert(list.push((pubkey, signature)) =~= seq![(pubkey, signature)]);
    } else {
        assert(!key_at(list, pubkey, list.len() - 1));
        assert forall|i: int| !key_at(list.drop_last(), pubkey, i) by {
            assert(!key_at(list, pubkey, i));
        }
    }
}

impl PartiallySignedEnvelope {
    /// The contributions so far.
    pub open spec fn contributions(self) -> Seq<([u8; 32], [u8; 64])> {
        self.contributions@
    }

    /// Every signer contributed at most once.
    pub open spec fn wf(self) -> bool {
        keys_distinct(self.contributions())
    }

    /// The accumulated weight.
    pub open spec fn weight(self, accounts: Map<Seq<char>, SignersView>) -> nat {
        total_weight(self.contributions(), accounts, self.source_account@)
    }

    /// The accumulated weight has reached the account's threshold.
    pub open spec fn promotable(self, accounts: Map<Seq<char>, SignersView>) -> bool {
        threshold_of(accounts, self.source_account@) matches Some(required) && self.weight(accounts)
            >= required
    }

    /// An envelope without contributions.
    pub fn new(source_account: String, sequence: i64, tx_xdr: String) -> (p: Self)
        ensures
            p.wf(),
            p.source_account == source_account,
            p.sequence == sequence,
            p.tx_xdr == tx_xdr,
            p.contributions() == Seq::<([u8; 32], [u8; 64])>::empty(),
    {
        PartiallySignedEnvelope { source_account, sequence, tx_xdr, contributions: Vec::new() }
    }

    /// Number of distinct signers who have contributed so far.
    pub fn contributor_count(&self) -> (n: usize)
        ensures
            n == self.contributions().len(),
    {
        self.contributions.len()
    }

    /// Sum of `registry`-cached weights for every contributing signer. Contributors not
    /// found in `registry` contribute no weight.
    pub fn accumulated_weight(&self, registry: &MultisigAccountRegistry) -> (weight: u32)
        requires
            registry.wf(),
            self.weight(registry@) <= u32::MAX,
        ensures
            weight == self.weight(registry@),
    {
        let mut weight: u32 = 0;
        let mut i: usize = 0;
        while i < self.contributions.len()
            invariant
                registry.wf(),
                self.weight(registry@) <= u32::MAX,
                i <= self.contributions.len(),
                weight == total_weight(
                    self.contributions@.subrange(0, i as int),
                    registry@,
                    self.source_account@,
                ),
            decreases self.contributions.len() - i,
        {
            proof {
                let upto = self.contributions@.subrange(0, i + 1);
                assert(upto.drop_last() =~= self.contributions@.subrange(0, i as int));
                lemma_weight_grows(self.contributions@, i + 1, registry@, self.source_account@);
            }
            match registry.signer_weight(self.source_account.as_str(), &self.contributions[i].0) {
                Some(w) => {
                    weight = weight + w;
                },
                None => {},
            }
            i += 1;
        }
        assert(self.contributions@.subrange(0, i as int) =~= self.contributions@);
        weight
    }

    /// Whether the accumulated weight has reached `registry`'s cached threshold for this
    /// envelope's source account. `false` if the account hasn't been seeded.
    pub fn meets_threshold(&self, registry: &MultisigAccountRegistry) -> (r: bool)
        requires
            registry.wf(),
            self.weight(registry@) <= u32::MAX,
        ensures
            r == self.promotable(registry@),
    {
        match registry.threshold(self.source_account.as_str()) {
            Some(required) => self.accumulated_weight(registry) >= required,
            None => false,
        }
    }

    fn record(&mut self, pubkey: [u8; 32], signature: [u8; 64])
        requires
            old(self).wf(),
        ensures
            final(self).wf(),
            final(self).source_account == old(self).source_account,
            final(self).sequence == old(self).sequence,
            final(self).tx_xdr == old(self).tx_xdr,
            final(self).contributions() == contributed(
                old(self).contributions(),
                pubkey,
                signature,
            ),
    {
        let ghost before = self.contributions@;
        let mut i: usize = 0;
        while i < self.contributions.len()
            invariant
                i <= self.contributions.len(),
                self.contributions@ == before,
                before == old(self).contributions(),
                self.source_account == old(self).source_account,
                self.sequence == old(self).sequence,
                self.tx_xdr == old(self).tx_xdr,
                keys_distinct(before),
                forall|j: int| 0 <= j < i ==> (#[trigger] before[j]).0 != pubkey,
            decreases self.contributions.len() - i,
        {
            if bytes32_eq(&self.contributions[i].0, &pubkey) {
                proof {
                    lemma_contributed_elsewhere(before, i as int, pubkey, signature);
                }
                self.contributions.set(i, (pubkey, signature));
                assert(keys_distinct(self.contributions@));
                return ;
            }
            i += 1;
        }
        proof {
            assert forall|j: int| !key_at(before, pubkey, j) by {
                if 0 <= j < before.len() {
                    assert(before[j].0 != pubkey);
                }
            }
            lemma_contributed_anew(before, pubkey, signature);
        }
        self.contributions.push((pubkey, signature));
    }
}

proof fn lemma_weight_grows(
    list: Seq<([u8; 32], [u8; 64])>,
    n: int,
    accounts: Map<Seq<char>, SignersView>,
    account: Seq<char>,
)
    requires
        0 <= n <= list.len(),
    ensures
        total_weight(list.subrange(0, n), accounts, account) <= total_weight(
            list,
            accounts,
            account,
        ),
    decreases list.len(),
{
    if n < list.len() {
        lemma_weight_grows(list.drop_last(), n, accounts, account);
        assert(list.drop_last().subrange(0, n) =~= list.subrange(0, n));
    } else {
        assert(list.subrange(0, n) =~= list);
    }
}

/// Add the signer's authorization to `partial`.
///
/// A signature from a key that is not among the account's cached signers never counts
/// toward the threshold: it is rejected with `UnknownMultisigSigner`.
pub fn add_signature<S: KeySigner>(
    partial: &mut PartiallySignedEnvelope,
    registry: &MultisigAccountRegistry,
    signer: &S,
) -> (r: Result<(), SyncEngineError>)
    requires
        old(partial).wf(),
        registry.wf(),
    ensures
        final(partial).wf(),
        final(partial).source_account == old(partial).source_account,
        final(partial).sequence == old(partial).sequence,
        final(partial).tx_xdr == old(partial).tx_xdr,
        if weight_of(registry@, old(partial).source_account@, signer.key()) is None {
            &&& r matches Err(SyncEngineError::UnknownMultisigSigner { account }) && account@ == old(
                partial
            ).source_account@
            &&& final(partial).contributions() == old(partial).contributions()
        } else {
            exists|signed: Result<[u8; 64], SyncEngineError>| #[trigger]
                signer.may_sign(
                    multisig_digest(
                        old(partial).source_account@,
                        old(partial).sequence,
                        old(partial).tx_xdr@,
                    )@,
                    signed,
                ) && match signed {
                    Err(e) => r == Err::<(), SyncEngineError>(e) && final(partial).contributions()
                        == old(partial).contributions(),
                    Ok(signature) => r is Ok && final(partial).contributions() == contributed(
                        old(partial).contributions(),
                        signer.key(),
                        signature,
                    ),
                }
        },
{
    let pubkey = signer.public_key();
    if !registry.is_known_signer(partial.source_account.as_str(), &pubkey) {
        return Err(
            SyncEngineError::UnknownMultisigSigner { account: partial.source_account.clone() },
        );
    }
    let hash = multisig_payload_hash(
        partial.source_account.as_str(),
        partial.sequence,
        partial.tx_xdr.as_str(),
    );
    match signer.sign(hash.as_slice()) {
        Err(e) => Err(e),
        Ok(signature) => {
            partial.record(pubkey, signature);
            Ok(())
        },
    }
}

/// Promote `partial` into a mesh-dispatchable envelope once its accumulated signer weight
/// meets the account's cached threshold. This is the only path from a
/// [`PartiallySignedEnvelope`] to a `TransactionEnvelope`.
pub fn try_promote<S: KeySigner>(
    partial: &PartiallySignedEnvelope,
    registry: &MultisigAccountRegistry,
    mesh_signer: &S,
    policy: &SigningPolicy,
    ttl_hops: u8,
    stamp: &MessageStamp,
) -> (r: Result<HybridSignedEnvelope, SyncEngineError>)
    requires
        registry.wf(),
        partial.weight(registry@) <= u32::MAX,
        policy.wf(),
    ensures
        if !partial.promotable(registry@) {
            r matches Err(
                SyncEngineError::MultisigThresholdNotMet {
                    account,
                    accumulated_weight,
                    required_threshold,
                },
            ) && account@ == partial.source_account@ && accumulated_weight == partial.weight(
                registry@,
            ) && required_threshold == match threshold_of(registry@, partial.source_account@) {
                Some(required) => required,
                None => 0,
            }
        } else {
            exists|signed: Result<[u8; 64], SyncEngineError>| #[trigger]
                mesh_signer.may_sign(stamp.message_id@, signed) && sealed(
                    r,
                    signed,
                    *stamp,
                    mesh_signer.key(),
                    partial.tx_xdr@,
                    ttl_hops,
                    *policy,
                )
        },
{
    if !partial.meets_threshold(registry) {
        let required_threshold: u32 = match registry.threshold(partial.source_account.as_str()) {
            Some(required) => required,
            None => 0,
        };
        return Err(
            SyncEngineError::MultisigThresholdNotMet {
                account: partial.source_account.clone(),
                accumulated_weight: partial.accumulated_weight(registry),
                required_threshold,
            },
        );
    }
    seal(mesh_signer, stamp, partial.tx_xdr.clone(), ttl_hops, policy)
}

/// A signer counts once: contributing again does not change the accumulated weight.
pub proof fn signing_twice_counts_once(
    list: Seq<([u8; 32], [u8; 64])>,
    pubkey: [u8; 32],
    signature: [u8; 64],
    at: int,
    accounts: Map<Seq<char>, SignersView>,
    account: Seq<char>,
)
    requires
        keys_distinct(list),
        key_at(list, pubkey, at),
    ensures
        total_weight(contributed(list, pubkey, signature), accounts, account) == total_weight(
            list,
            accounts,
            account,
        ),
        contributed(list, pubkey, signature).len() == list.len(),
{
    lemma_contributed_elsewhere(list, at, pubkey, signature);
    lemma_weight_of_update(list, at, (pubkey, signature), accounts, account);
}

proof fn lemma_weight_of_update(
    list: Seq<([u8; 32], [u8; 64])>,
    at: int,
    entry: ([u8; 32], [u8; 64]),
    accounts: Map<Seq<char>, SignersView>,
    account: Seq<char>,
)
    requires
        0 <= at < list.len(),
        list[at].0 == entry.0,
    ensures
        total_weight(list.update(at, entry), accounts, account) == total_weight(
            list,
            accounts,
            account,
        ),
    decreases list.len(),
{
    let front = list.drop_last();
    let after = list.update(at, entry);
    if at < front.len() {
        lemma_weight_of_update(front, at, entry, accounts, account);
        assert(after.drop_last() =~= front.update(at, entry));
    } else {
        assert(after.drop_last() =~= front);
    }
}

/// A new signer adds exactly its weight.
pub proof fn new_signers_add_their_weight(
    list: Seq<([u8; 32], [u8; 64])>,
    pubkey: [u8; 32],
    signature: [u8; 64],
    accounts: Map<Seq<char>, SignersView>,
    account: Seq<char>,
)
    requires
        forall|i: int| !key_at(list, pubkey, i),
    ensures
        total_weight(contributed(list, pubkey, signature), accounts, account) == total_weight(
            list,
            accounts,
            account,
        ) + weight_or_zero(accounts, account, pubkey),
{
    lemma_contributed_anew(list, pubkey, signature);
    assert(list.push((pubkey, signature)).drop_last() =~= list);
}

/// No two envelopes of an account are signed for the same sequence number: after one
/// took its slot, the next one takes the next sequence, and the transaction of the first
/// is refused.
pub proof fn successive_envelopes_take_successive_sequences(
    before: SequenceView,
    account: Seq<char>,
    first_xdr: Seq<char>,
    second_xdr: Seq<char>,
)
    requires
        claimed_slot(before, account, first_xdr) is Ok,
    ensures
        ({
            let first = claimed_slot(before, account, first_xdr)->Ok_0.1;
            let after = before.with_reserved(account, first);
            &&& claimed_slot(after, account, first_xdr) is Err
            &&& claimed_slot(after, account, second_xdr) matches Ok((_, second)) ==> second == first
                + 1
        }),
{
}

/// An envelope takes the slot that its transaction encodes: the account is the one that
/// the XDR names, and the sequence the one that it carries.
pub proof fn envelopes_take_their_own_slot(
    before: SequenceView,
    account: Seq<char>,
    tx_xdr: Seq<char>,
)
    requires
        claimed_slot(before, account, tx_xdr) is Ok,
    ensures
        xdr_parts(tx_xdr) matches Ok(parts) && strkey_address(parts.account_key()@) == account
            && parts.account_sequence() == claimed_slot(before, account, tx_xdr)->Ok_0.1,
{
}

/// A signer counts with the weight that the account's signer set holds for it: where it is new
/// among the contributors, its contribution raises the accumulated weight by exactly that
/// number, and where the set does not hold it, by nothing. So a sole contributor gives its
/// own weight.
pub proof fn contributions_count_with_the_registered_weight(
    list: Seq<([u8; 32], [u8; 64])>,
    pubkey: [u8; 32],
    signature: [u8; 64],
    accounts: Map<Seq<char>, SignersView>,
    account: Seq<char>,
)
    requires
        forall|i: int| 0 <= i < list.len() ==> (#[trigger] list[i]).0 != pubkey,
    ensures
        total_weight(Seq::empty(), accounts, account) == 0,
        accounts.dom().contains(account) && accounts[account].signers.dom().contains(pubkey)
            ==> total_weight(contributed(list, pubkey, signature), accounts, account)
            == total_weight(list, accounts, account) + accounts[account].signers[pubkey],
        accounts.dom().contains(account) && accounts[account].signers.dom().contains(pubkey)
            ==> total_weight(seq![(pubkey, signature)], accounts, account)
            == accounts[account].signers[pubkey],
        !accounts.dom().contains(account) || !accounts[account].signers.dom().contains(pubkey)
            ==> total_weight(contributed(list, pubkey, signature), accounts, account)
            == total_weight(list, accounts, account),
{
    assert forall|i: int| !key_at(list, pubkey, i) by {
        if 0 <= i < list.len() {
            assert(list[i].0 != pubkey);
        }
    }
    new_signers_add_their_weight(list, pubkey, signature, accounts, account);
    let one = seq![(pubkey, signature)];
    assert(one.drop_last() =~= Seq::<([u8; 32], [u8; 64])>::empty());
}

/// A contribution is kept, and nobody else's is touched: afterwards the signer has contributed
/// this signature and no other, the other contributions are those from before, and there is
/// one more of them exactly where the signer is new.
pub proof fn contributions_are_kept(
    list: Seq<([u8; 32], [u8; 64])>,
    pubkey: [u8; 32],
    signature: [u8; 64],
    entry: ([u8; 32], [u8; 64]),
)
    requires
        keys_distinct(list),
    ensures
        ({
            let after = contributed(list, pubkey, signature);
            &&& after.contains(entry) <==> if entry.0 == pubkey {
                entry.1 == signature
            } else {
                list.contains(entry)
            }
            &&& after.len() == list.len() + if exists|i: int|
                0 <= i < list.len() && (#[trigger] list[i]).0 == pubkey {
                0int
            } else {
                1int
            }
        }),
{
    if exists|i: int| 0 <= i < list.len() && (#[trigger] list[i]).0 == pubkey {
        let at = choose|i: int| 0 <= i < list.len() && (#[trigger] list[i]).0 == pubkey;
        assert(key_at(list, pubkey, at));
        lemma_contributed_elsewhere(list, at, pubkey, signature);
        let after = list.update(at, (pubkey, signature));
        assert(after[at] == (pubkey, signature));
        if after.contains(entry) {
            let k = choose|k: int| 0 <= k < after.len() && after[k] == entry;
            if k != at {
                assert(list[k] == entry);
                if k < at {
                    assert(list[k].0 != list[at].0);
                } else {
                    assert(list[at].0 != list[k].0);
                }
            }
        }
        if entry.0 != pubkey && list.contains(entry) {
            let k = choose|k: int| 0 <= k < list.len() && list[k] == entry;
            assert(after[k] == entry);
        }
    } else {
        assert forall|i: int| !key_at(list, pubkey, i) by {
            if 0 <= i < list.len() {
                assert(list[i].0 != pubkey);
            }
        }
        lemma_contributed_anew(list, pubkey, signature);
        let after = list.push((pubkey, signature));
        assert(after[list.len() as int] == (pubkey, signature));
        if after.contains(entry) {
            let k = choose|k: int| 0 <= k < after.len() && after[k] == entry;
            if k < list.len() {
                assert(list[k] == entry);
                assert(list.contains(entry));
            }
        }
        if list.contains(entry) {
            let k = choose|k: int| 0 <= k < list.len() && list[k] == entry;
            assert(after[k] == entry);
            assert(list[k].0 != pubkey);
        }
    }
}

/// An envelope may be promoted as soon as the accumulated weight has reached the threshold
/// that the account was seeded with, and not before; never for an unknown account.
pub proof fn promotion_takes_the_full_threshold(
    partial: PartiallySignedEnvelope,
    accounts: Map<Seq<char>, SignersView>,
)
    ensures
        partial.weight(accounts) == total_weight(
            partial.contributions@,
            accounts,
            partial.source_account@,
        ),
        accounts.dom().contains(partial.source_account@) ==> {
            &&& partial.weight(accounts) < accounts[partial.source_account@].threshold
                ==> !partial.promotable(accounts)
            &&& partial.weight(accounts) >= accounts[partial.source_account@].threshold
                ==> partial.promotable(accounts)
        },
        !accounts.dom().contains(partial.source_account@) ==> !partial.promotable(accounts),
{
}

/// What a signer authorizes is one transaction at one sequence of one account: for an account,
/// authorizations of two different transactions or sequences are made over different bytes,
/// of which the digests differ unless SHA-256 collides on them.
pub proof fn authorizations_are_for_one_transaction(
    account: Seq<char>,
    sequence: i64,
    tx_xdr: Seq<char>,
    other_sequence: i64,
    other_xdr: Seq<char>,
)
    requires
        multisig_digest(account, sequence, tx_xdr) == multisig_digest(
            account,
            other_sequence,
            other_xdr,
        ),
    ensures
        sequence == other_sequence && tx_xdr == other_xdr || digests_collide(
            encode_utf8(account) + spec_u64_to_le_bytes(sequence as u64) + encode_utf8(tx_xdr),
            encode_utf8(account) + spec_u64_to_le_bytes(other_sequence as u64) + encode_utf8(
                other_xdr,
            ),
        ),
{
    let x = encode_utf8(account) + spec_u64_to_le_bytes(sequence as u64) + encode_utf8(tx_xdr);
    let y = encode_utf8(account) + spec_u64_to_le_bytes(other_sequence as u64) + encode_utf8(
        other_xdr,
    );
    if x == y {
        let n = encode_utf8(account).len() as int;
        vstd::bytes::lemma_auto_spec_u64_to_from_le_bytes();
        assert(x.subrange(n, n + 8) =~= spec_u64_to_le_bytes(sequence as u64));
        assert(y.subrange(n, n + 8) =~= spec_u64_to_le_bytes(other_sequence as u64));
        assert(x.skip(n + 8) =~= encode_utf8(tx_xdr));
        assert(y.skip(n + 8) =~= encode_utf8(other_xdr));
        vstd::utf8::encode_utf8_decode_utf8(tx_xdr);
        vstd::utf8::encode_utf8_decode_utf8(other_xdr);
        assert(sequence as u64 as i64 == sequence) by (bit_vector);
        assert(other_sequence as u64 as i64 == other_sequence) by (bit_vector);
    }
}

/// A sealed envelope holds what it was made of: the stamp's id and time, the signer's key, the
/// transaction, the hops and the signature. Where signing failed there is no envelope.
pub proof fn sealed_envelopes_hold_what_they_were_made_of(
    r: Result<HybridSignedEnvelope, SyncEngineError>,
    signed: Result<[u8; 64], SyncEngineError>,
    stamp: MessageStamp,
    origin_pubkey: [u8; 32],
    tx_xdr: Seq<char>,
    ttl_hops: u8,
    policy: SigningPolicy,
)
    requires
        sealed(r, signed, stamp, origin_pubkey, tx_xdr, ttl_hops, policy),
    ensures
        r is Ok <==> signed is Ok,
        r matches Err(e) ==> signed == Err::<[u8; 64], SyncEngineError>(e),
        r matches Ok(e) ==> {
            &&& e.classical_envelope.message_id == stamp.message_id
            &&& e.classical_envelope.timestamp == stamp.timestamp
            &&& e.classical_envelope.origin_pubkey == origin_pubkey
            &&& e.classical_envelope.tx_xdr@ == tx_xdr
            &&& e.classical_envelope.ttl_hops == ttl_hops
            &&& signed == Ok::<[u8; 64], SyncEngineError>(e.classical_envelope.signature)
            &&& policy is ClassicalOnly <==> e.pq_signature is None
        },
{
}

/// A transaction takes a slot exactly where it parses, names the account that the caller
/// named, the account was seeded, and it carries the number after the account's last one.
/// Otherwise the first of these that fails is the reason.
pub proof fn slots_are_taken_in_turn(
    sequences: SequenceView,
    account: Seq<char>,
    tx_xdr: Seq<char>,
)
    ensures
        claimed_slot(sequences, account, tx_xdr) is Ok <==> {
            &&& xdr_parts(tx_xdr) is Ok
            &&& strkey_address(xdr_parts(tx_xdr)->Ok_0.account_key()@) == account
            &&& sequences.reserved.dom().contains(account)
            &&& xdr_parts(tx_xdr)->Ok_0.account_sequence() == sequences.reserved[account] + 1
        },
        claimed_slot(sequences, account, tx_xdr) matches Ok((named, sequence)) ==> named == account
            && sequence == sequences.reserved[account] + 1,
        claimed_slot(sequences, account, tx_xdr) matches Err(why) ==> {
            &&& why is Malformed <==> xdr_parts(tx_xdr) is Err
            &&& why is Unseeded ==> !sequences.reserved.dom().contains(account)
            &&& why matches Refusal::OtherAccount { actual } ==> actual != account && actual
                == strkey_address(xdr_parts(tx_xdr)->Ok_0.account_key()@)
            &&& why matches Refusal::OtherSequence { reserved, actual } ==> reserved
                == sequences.reserved[account] + 1 && actual
                == xdr_parts(tx_xdr)->Ok_0.account_sequence() && actual != reserved
        },
{
}

/// Building an envelope either takes the account's next number and no other, or changes no
/// reservation: whatever fails, the number that was to be taken is free again.
pub proof fn building_takes_one_number_or_none<S: KeySigner>(
    before: SequenceView,
    after: SequenceView,
    r: Result<(HybridSignedEnvelope, i64), SyncEngineError>,
    account: Seq<char>,
    signer: S,
    policy: SigningPolicy,
    tx_xdr: Seq<char>,
    ttl_hops: u8,
    stamp: MessageStamp,
    other: Seq<char>,
)
    requires
        built(before, after, r, account, signer, policy, tx_xdr, ttl_hops, stamp),
        other != account,
    ensures
        r is Err ==> after == before,
        r matches Ok((e, sequence)) ==> {
            &&& value_of(after.reserved, account) == Some(sequence)
            &&& before.reserved.dom().contains(account)
            &&& sequence == before.reserved[account] + 1
            &&& value_of(after.reserved, other) == value_of(before.reserved, other)
            &&& after.baseline == before.baseline
            &&& e.classical_envelope.message_id == stamp.message_id
            &&& e.classical_envelope.timestamp == stamp.timestamp
            &&& e.classical_envelope.origin_pubkey == signer.key()
            &&& e.classical_envelope.tx_xdr@ == tx_xdr
            &&& e.classical_envelope.ttl_hops == ttl_hops
            &&& signer.may_sign(stamp.message_id@, Ok(e.classical_envelope.signature))
            &&& signed_under(e, policy)
        },
{
}

/// Each refusal has an error of its own, which says what was refused.
pub proof fn refusals_say_what_was_refused(
    e: SyncEngineError,
    account: Seq<char>,
    why: Refusal,
)
    requires
        is_refusal(e, account, why),
    ensures
        why is Malformed <==> e is XdrParse,
        why is OtherAccount <==> e is SourceAccountMismatch,
        why is Unseeded <==> e is NoSequenceReserved,
        why is OtherSequence <==> e is SequenceMismatch,
        why matches Refusal::Malformed { message } ==> e->XdrParse_0@ == message,
        why is Unseeded ==> e->NoSequenceReserved_0@ == account,
        (why matches Refusal::OtherSequence { reserved, actual } ==> (
        e matches SyncEngineError::SequenceMismatch { account: a, reserved: r, actual: s } && a@
            == account && r == reserved && s == actual)),
        (why matches Refusal::OtherAccount { actual } ==> (
        e matches SyncEngineError::SourceAccountMismatch { claimed: c, actual: a } && c@ == account
            && a@ == actual)),
{
}

} // verus!
