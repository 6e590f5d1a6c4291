//! Builds the on-chain dispute escalation payload for a [`Conflict`] that could
//! not be settled off-chain. Submitting it to the `dispute-resolver` contract is
//! for a relay node with connectivity.
use crate::bytes::bytes32_eq;
use crate::conflict::detector::Conflict;
use crate::errors::SyncEngineError;
use crate::message::RelayChainProof;
use crate::stellar_address::{pubkey_to_stellar_address, strkey_address};
use crate::text::{append_signed, hex_of, hex_string, signed_decimal};
use vstd::prelude::*;
use vstd::string::*;

verus! {

/// Everything this device knows about one side of a [`Conflict`] that's needed to
/// build a [`DisputeEscalation`].
#[derive(Debug, Clone, Copy, PartialEq, Eq)]
pub struct EscalationInput {
    /// Must match one of `conflict.envelope_a` / `conflict.envelope_b`.
    pub message_id: [u8; 32],
    /// The raw ed25519 key of the device that originally created this envelope.
    pub origin_pubkey: [u8; 32],
    /// When this device first observed this envelope, per its own local clock.
    /// Used only to order initiator vs respondent.
    pub first_seen_locally_at: u64,
    /// A relay-chain proof corroborating this envelope.
    pub proof: RelayChainProof,
}

/// A fully-formed, ready-to-submit payload for the `dispute-resolver` contract.
#[derive(Debug, Clone, PartialEq)]
pub struct DisputeEscalation {
    /// Stellar `G...` StrKey address of the side treated as having raised the
    /// dispute.
    pub initiator: String,
    /// Stellar `G...` StrKey address of the other side.
    pub respondent: String,
    /// The initiator's `message_id`.
    pub tx_id: [u8; 32],
    /// Corroborating relay-chain proof for `tx_id`.
    pub proof: RelayChainProof,
}

/// The side treated as the initiator: the one seen first, `a` on a tie.
pub open spec fn initiating(a: EscalationInput, b: EscalationInput) -> EscalationInput {
    if a.first_seen_locally_at <= b.first_seen_locally_at {
        a
    } else {
        b
    }
}

/// The side treated as the respondent.
pub open spec fn responding(a: EscalationInput, b: EscalationInput) -> EscalationInput {
    if a.first_seen_locally_at <= b.first_seen_locally_at {
        b
    } else {
        a
    }
}

/// Build a [`DisputeEscalation`] for `conflict` from the two sides' evidence.
///
/// The side this device saw first is treated as the initiator; ties fall back to
/// `envelope_a`. Fails with `InvalidEnvelope` if the evidence is for other
/// envelopes.
pub fn build_escalation(
    conflict: &Conflict,
    envelope_a: &EscalationInput,
    envelope_b: &EscalationInput,
) -> (r: Result<DisputeEscalation, SyncEngineError>)
    ensures
        r is Ok <==> envelope_a.message_id == conflict.envelope_a && envelope_b.message_id
            == conflict.envelope_b,
        r matches Ok(d) ==> {
            let initiator = initiating(*envelope_a, *envelope_b);
            let respondent = responding(*envelope_a, *envelope_b);
            &&& d.initiator@ == strkey_address(initiator.origin_pubkey@)
            &&& d.respondent@ == strkey_address(respondent.origin_pubkey@)
            &&& d.tx_id == initiator.message_id
            &&& d.proof == initiator.proof
        },
        r matches Err(e) ==> e matches SyncEngineError::InvalidEnvelope(msg) && msg@
            == "escalation evidence message ids ("@ + hex_of(envelope_a.message_id@) + ", "@
            + hex_of(envelope_b.message_id@) + ") do not match conflict envelopes ("@ + hex_of(
            conflict.envelope_a@,
        ) + ", "@ + hex_of(conflict.envelope_b@) + ") for account "@ + conflict.source_account@
            + " sequence "@ + signed_decimal(conflict.sequence as int),
{
    if !bytes32_eq(&envelope_a.message_id, &conflict.envelope_a) || !bytes32_eq(
        &envelope_b.message_id,
        &conflict.envelope_b,
    ) {
        let mut s: String = "escalation evidence message ids (".to_owned();
        s.append(hex_string(envelope_a.message_id.as_slice()).as_str());
        s.append(", ");
        s.append(hex_string(envelope_b.message_id.as_slice()).as_str());
        s.append(") do not match conflict envelopes (");
        s.append(hex_string(conflict.envelope_a.as_slice()).as_str());
        s.append(", ");
        s.append(hex_string(conflict.envelope_b.as_slice()).as_str());
        s.append(") for account ");
        s.append(conflict.source_account.as_str());
        s.append(" sequence ");
        append_signed(&mut s, conflict.sequence);
        return Err(SyncEngineError::InvalidEnvelope(s));
    }
    let (initiator, respondent) = if envelope_a.first_seen_locally_at
        <= envelope_b.first_seen_locally_at {
        (envelope_a, envelope_b)
    } else {
        (envelope_b, envelope_a)
    };
    Ok(
        DisputeEscalation {
            initiator: pubkey_to_stellar_address(&initiator.origin_pubkey),
            respondent: pubkey_to_stellar_address(&respondent.origin_pubkey),
            tx_id: initiator.message_id,
            proof: initiator.proof,
        },
    )
}

/// The initiator is the side that was seen first, and `a` where both were seen at once; the
/// respondent is the other side.
pub proof fn the_side_seen_first_initiates(a: EscalationInput, b: EscalationInput)
    ensures
        initiating(a, b).first_seen_locally_at <= responding(a, b).first_seen_locally_at,
        initiating(a, b) == a && responding(a, b) == b || initiating(a, b) == b && responding(a, b)
            == a,
        a.first_seen_locally_at == b.first_seen_locally_at ==> initiating(a, b) == a,
{
}

} // verus!
