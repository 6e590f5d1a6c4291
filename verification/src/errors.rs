//! The library's error type and its recovery classification.
use crate::text::{append_decimal, append_signed, debug_quoted, decimal, quote_debug, signed_decimal};
use vstd::prelude::*;
use vstd::string::*;

verus! {

/// Classifies a [`SyncEngineError`] into one of three recovery buckets.
///
/// This is the single source of truth for retry/recovery policy.
///
/// - **`Permanent`**: a caller-code bug or an irrecoverable logical invariant
///   violation. No amount of retrying will help.
/// - **`Transient`**: likely caused by environmental conditions that may resolve
///   on their own. A short retry with back-off is appropriate.
/// - **`RequiresEscalation`**: neither retry nor give-up is the right move; the
///   situation needs human intervention or an on-chain escalation.
#[derive(Debug, Clone, Copy, PartialEq, Eq, Structural)]
pub enum ErrorClass {
    Permanent,
    Transient,
    RequiresEscalation,
}

/// Everything that can go wrong in the sync engine. The storage and
/// serialization variants carry the message of the underlying error.
#[allow(inconsistent_fields)]
#[derive(Debug)]
pub enum SyncEngineError {
    NoSequenceReserved(String),
    SequenceOutOfOrder { account: String, requested: i64, last_reserved: i64 },
    InvalidEnvelope(String),
    XdrParse(String),
    SourceAccountMismatch { claimed: String, actual: String },
    SequenceMismatch { account: String, reserved: i64, actual: i64 },
    EnvelopeNotFound(String),
    InvalidStateTransition { from: String, to: String },
    BackpressureWindowFull { max_in_flight: usize },
    DuplicateInFlight,
    InvalidDispatchWindow(String),
    /// Returned when a per-tier expiry policy is out of order, zero, or beyond its
    /// sanity ceiling.
    InvalidExpiryPolicy(String),
    UnresolvedConflict(String),
    /// Returned when a VRF tie-break proof is malformed, fails verification, or
    /// was produced by a party other than the selected evaluator.
    VrfTiebreak(String),
    /// Returned when a compressed relay-chain proof is malformed, fails to fold,
    /// or fails verification. A bad proof is bad on every attempt.
    CompressedProofInvalid(String),
    /// Returned when queuing an Emergency-tier envelope would push the device
    /// past its configured spending guard. The embedding wallet should prompt the
    /// user for extra confirmation.
    EmergencyQueueLimitExceeded { current: usize, max: usize, window_secs: u64 },
    /// Returned when the signing key presented does not belong to the account's
    /// cached signer set.
    UnknownMultisigSigner { account: String },
    /// Returned when the accumulated signer weight has not yet reached the
    /// account's cached threshold.
    MultisigThresholdNotMet { account: String, accumulated_weight: u32, required_threshold: u32 },
    ConnectionError(String),
    SqliteError(String),
    SerializationError(String),
    DeserializationError(String),
    PqVerificationFailed,
    /// Returned when at-rest envelope compression cannot produce or decode a
    /// storage frame.
    CompressionError(String),
    /// Returned when encryption or decryption operations fail.
    EncryptionError(String),
    /// Returned when opening an encrypted database without the correct key, or an
    /// unencrypted one as if it were encrypted.
    EncryptionKeyMismatch,
    /// Returned when an encrypted database is opened with a key that doesn't match
    /// the one used to create it.
    DecryptionFailed,
    /// Returned when the target of a snapshot import already contains rows.
    ImportTargetNotEmpty,
    /// Returned when a snapshot's embedded schema version is not this build's.
    IncompatibleSnapshotSchemaVersion { found: u32, expected: u32 },
    TeeUnavailable,
    TeeSignerUnimplemented,
    InvalidAttestation(String),
}

impl SyncEngineError {
    /// The recovery bucket of each variant.
    pub open spec fn class(self) -> ErrorClass {
        match self {
            SyncEngineError::UnresolvedConflict(_) => ErrorClass::RequiresEscalation,
            SyncEngineError::EmergencyQueueLimitExceeded { .. } => ErrorClass::RequiresEscalation,
            SyncEngineError::BackpressureWindowFull { .. } => ErrorClass::Transient,
            SyncEngineError::ConnectionError(_) => ErrorClass::Transient,
            SyncEngineError::SqliteError(_) => ErrorClass::Transient,
            _ => ErrorClass::Permanent,
        }
    }

    /// Classify this error into a recovery bucket.
    ///
    /// The match is exhaustive with no wildcard arm: adding a variant without
    /// classifying it is a compile error.
    pub fn classify(&self) -> (c: ErrorClass)
        ensures
            c == self.class(),
    {
        match self {
            SyncEngineError::NoSequenceReserved(_) => ErrorClass::Permanent,
            SyncEngineError::SequenceOutOfOrder { .. } => ErrorClass::Permanent,
            SyncEngineError::InvalidEnvelope(_) => ErrorClass::Permanent,
            SyncEngineError::XdrParse(_) => ErrorClass::Permanent,
            SyncEngineError::SourceAccountMismatch { .. } => ErrorClass::Permanent,
            SyncEngineError::SequenceMismatch { .. } => ErrorClass::Permanent,
            SyncEngineError::EnvelopeNotFound(_) => ErrorClass::Permanent,
            SyncEngineError::InvalidStateTransition { .. } => ErrorClass::Permanent,
            SyncEngineError::BackpressureWindowFull { .. } => ErrorClass::Transient,
            SyncEngineError::DuplicateInFlight => ErrorClass::Permanent,
            SyncEngineError::InvalidDispatchWindow(_) => ErrorClass::Permanent,
            SyncEngineError::InvalidExpiryPolicy(_) => ErrorClass::Permanent,
            SyncEngineError::UnresolvedConflict(_) => ErrorClass::RequiresEscalation,
            SyncEngineError::VrfTiebreak(_) => ErrorClass::Permanent,
            SyncEngineError::CompressedProofInvalid(_) => ErrorClass::Permanent,
            SyncEngineError::EmergencyQueueLimitExceeded { .. } => ErrorClass::RequiresEscalation,
            SyncEngineError::UnknownMultisigSigner { .. } => ErrorClass::Permanent,
            SyncEngineError::MultisigThresholdNotMet { .. } => ErrorClass::Permanent,
            SyncEngineError::ConnectionError(_) => ErrorClass::Transient,
            SyncEngineError::SqliteError(_) => ErrorClass::Transient,
            SyncEngineError::SerializationError(_) => ErrorClass::Permanent,
            SyncEngineError::DeserializationError(_) => ErrorClass::Permanent,
            SyncEngineError::PqVerificationFailed => ErrorClass::Permanent,
            SyncEngineError::CompressionError(_) => ErrorClass::Permanent,
            SyncEngineError::EncryptionError(_) => ErrorClass::Permanent,
            SyncEngineError::EncryptionKeyMismatch => ErrorClass::Permanent,
            SyncEngineError::DecryptionFailed => ErrorClass::Permanent,
            SyncEngineError::ImportTargetNotEmpty => ErrorClass::Permanent,
            SyncEngineError::IncompatibleSnapshotSchemaVersion { .. } => ErrorClass::Permanent,
            SyncEngineError::TeeUnavailable => ErrorClass::Permanent,
            SyncEngineError::TeeSignerUnimplemented => ErrorClass::Permanent,
            SyncEngineError::InvalidAttestation(_) => ErrorClass::Permanent,
        }
    }

    /// The message of each variant.
    pub open spec fn message(self) -> Seq<char> {
        match self {
            SyncEngineError::NoSequenceReserved(detail) => "no sequence number reserved for account "@ + detail@,
            SyncEngineError::SequenceOutOfOrder { account, requested, last_reserved } => "sequence number "@ + signed_decimal(requested as int) + " is not greater than last reserved "@ + signed_decimal(last_reserved as int) + " for account "@ + account@,
            SyncEngineError::InvalidEnvelope(detail) => "envelope validation failed: "@ + detail@,
            SyncEngineError::XdrParse(detail) => "failed to parse transaction XDR: "@ + detail@,
            SyncEngineError::SourceAccountMismatch { claimed, actual } => "caller-claimed source account "@ + claimed@ + " does not match the source account "@ + actual@ + " encoded in the transaction XDR"@,
            SyncEngineError::SequenceMismatch { account, reserved, actual } => "reserved sequence "@ + signed_decimal(reserved as int) + " does not match the sequence "@ + signed_decimal(actual as int) + " encoded in the transaction XDR for account "@ + account@,
            SyncEngineError::EnvelopeNotFound(detail) => "no queued envelope found for message_id "@ + detail@,
            SyncEngineError::InvalidStateTransition { from, to } => "invalid settlement state transition from "@ + debug_quoted(from@) + " to "@ + debug_quoted(to@),
            SyncEngineError::BackpressureWindowFull { max_in_flight } => "dispatch backpressure window is full ("@ + decimal(max_in_flight as nat) + " in flight); wait for acknowledgments or timeouts before dispatching more"@,
            SyncEngineError::DuplicateInFlight => "message is already in flight in the dispatch window"@,
            SyncEngineError::InvalidDispatchWindow(detail) => "invalid dispatch window configuration: "@ + detail@,
            SyncEngineError::InvalidExpiryPolicy(detail) => "invalid expiry policy: "@ + detail@,
            SyncEngineError::UnresolvedConflict(detail) => "conflict between envelopes could not be resolved off-chain: "@ + detail@,
            SyncEngineError::VrfTiebreak(detail) => "VRF conflict tie-break is invalid: "@ + detail@,
            SyncEngineError::CompressedProofInvalid(detail) => "compressed relay-chain proof is invalid: "@ + detail@,
            SyncEngineError::EmergencyQueueLimitExceeded { current, max, window_secs } => "emergency-tier queue limit exceeded: "@ + decimal(current as nat) + "/"@ + decimal(max as nat) + " Emergency payments already queued within the last "@ + decimal(window_secs as nat) + "s; extra confirmation is required before queuing another"@,
            SyncEngineError::UnknownMultisigSigner { account } => "signing key is not a known/authorized signer for account "@ + account@,
            SyncEngineError::MultisigThresholdNotMet { account, accumulated_weight, required_threshold } => "multisig threshold not met for account "@ + account@ + ": accumulated weight "@ + decimal(accumulated_weight as nat) + " < required threshold "@ + decimal(required_threshold as nat),
            SyncEngineError::ConnectionError(detail) => "SQLite connection error: "@ + detail@,
            SyncEngineError::SqliteError(detail) => "SQLite database error: "@ + detail@,
            SyncEngineError::SerializationError(detail) => "serialization error: "@ + detail@,
            SyncEngineError::DeserializationError(detail) => "deserialization error: "@ + detail@,
            SyncEngineError::PqVerificationFailed => "post-quantum signature verification failed"@,
            SyncEngineError::CompressionError(detail) => "at-rest compression error: "@ + detail@,
            SyncEngineError::EncryptionError(detail) => "encryption error: "@ + detail@,
            SyncEngineError::EncryptionKeyMismatch => "database encryption key mismatch or missing key"@,
            SyncEngineError::DecryptionFailed => "decryption failed: wrong key or corrupted data"@,
            SyncEngineError::ImportTargetNotEmpty => "cannot import snapshot: target database is not empty (import_snapshot requires an empty database — see SyncEngineDb::import_snapshot's documented policy)"@,
            SyncEngineError::IncompatibleSnapshotSchemaVersion { found, expected } => "snapshot schema version "@ + decimal(found as nat) + " is incompatible with this build's expected version "@ + decimal(expected as nat),
            SyncEngineError::TeeUnavailable => "TEE signing is requested but no genuine TEE is available on this device"@,
            SyncEngineError::TeeSignerUnimplemented => "TEE signing is currently a stub waiting for FFI integration"@,
            SyncEngineError::InvalidAttestation(detail) => "invalid or forged TEE attestation statement: "@ + detail@,
        }
    }

    /// The message of this error.
    pub fn to_string(&self) -> (s: String)
        ensures
            s@ == self.message(),
    {
        match self {
            SyncEngineError::NoSequenceReserved(detail) => {
                let mut s: String = "no sequence number reserved for account ".to_owned();
                s.append(detail.as_str());
                s
            },
            SyncEngineError::SequenceOutOfOrder { account, requested, last_reserved } => {
                let mut s: String = "sequence number ".to_owned();
                append_signed(&mut s, *requested);
                s.append(" is not greater than last reserved ");
                append_signed(&mut s, *last_reserved);
                s.append(" for account ");
                s.append(account.as_str());
                s
            },
            SyncEngineError::InvalidEnvelope(detail) => {
                let mut s: String = "envelope validation failed: ".to_owned();
                s.append(detail.as_str());
                s
            },
            SyncEngineError::XdrParse(detail) => {
                let mut s: String = "failed to parse transaction XDR: ".to_owned();
                s.append(detail.as_str());
                s
            },
            SyncEngineError::SourceAccountMismatch { claimed, actual } => {
                let mut s: String = "caller-claimed source account ".to_owned();
                s.append(claimed.as_str());
                s.append(" does not match the source account ");
                s.append(actual.as_str());
                s.append(" encoded in the transaction XDR");
                s
            },
            SyncEngineError::SequenceMismatch { account, reserved, actual } => {
                let mut s: String = "reserved sequence ".to_owned();
                append_signed(&mut s, *reserved);
                s.append(" does not match the sequence ");
                append_signed(&mut s, *actual);
                s.append(" encoded in the transaction XDR for account ");
                s.append(account.as_str());
                s
            },
            SyncEngineError::EnvelopeNotFound(detail) => {
                let mut s: String = "no queued envelope found for message_id ".to_owned();
                s.append(detail.as_str());
                s
            },
            SyncEngineError::InvalidStateTransition { from, to } => {
                let mut s: String = "invalid settlement state transition from ".to_owned();
                s.append(quote_debug(from.as_str()).as_str());
                s.append(" to ");
                s.append(quote_debug(to.as_str()).as_str());
                s
            },
            SyncEngineError::BackpressureWindowFull { max_in_flight } => {
                let mut s: String = "dispatch backpressure window is full (".to_owned();
                append_decimal(&mut s, *max_in_flight as u64);
                s.append(" in flight); wait for acknowledgments or timeouts before dispatching more");
                s
            },
            SyncEngineError::DuplicateInFlight => "message is already in flight in the dispatch window".to_owned(),
            SyncEngineError::InvalidDispatchWindow(detail) => {
                let mut s: String = "invalid dispatch window configuration: ".to_owned();
                s.append(detail.as_str());
                s
            },
            SyncEngineError::InvalidExpiryPolicy(detail) => {
                let mut s: String = "invalid expiry policy: ".to_owned();
                s.append(detail.as_str());
                s
            },
            SyncEngineError::UnresolvedConflict(detail) => {
                let mut s: String = "conflict between envelopes could not be resolved off-chain: ".to_owned();
                s.append(detail.as_str());
                s
            },
            SyncEngineError::VrfTiebreak(detail) => {
                let mut s: String = "VRF conflict tie-break is invalid: ".to_owned();
                s.append(detail.as_str());
                s
            },
            SyncEngineError::CompressedProofInvalid(detail) => {
                let mut s: String = "compressed relay-chain proof is invalid: ".to_owned();
                s.append(detail.as_str());
                s
            },
            SyncEngineError::EmergencyQueueLimitExceeded { current, max, window_secs } => {
                let mut s: String = "emergency-tier queue limit exceeded: ".to_owned();
                append_decimal(&mut s, *current as u64);
                s.append("/");
                append_decimal(&mut s, *max as u64);
                s.append(" Emergency payments already queued within the last ");
                append_decimal(&mut s, *window_secs);
                s.append("s; extra confirmation is required before queuing another");
                s
            },
            SyncEngineError::UnknownMultisigSigner { account } => {
                let mut s: String = "signing key is not a known/authorized signer for account ".to_owned();
                s.append(account.as_str());
                s
            },
            SyncEngineError::MultisigThresholdNotMet { account, accumulated_weight, required_threshold } => {
                let mut s: String = "multisig threshold not met for account ".to_owned();
                s.append(account.as_str());
                s.append(": accumulated weight ");
                append_decimal(&mut s, *accumulated_weight as u64);
                s.append(" < required threshold ");
                append_decimal(&mut s, *required_threshold as u64);
                s
            },
            SyncEngineError::ConnectionError(detail) => {
                let mut s: String = "SQLite connection error: ".to_owned();
                s.append(detail.as_str());
                s
            },
            SyncEngineError::SqliteError(detail) => {
                let mut s: String = "SQLite database error: ".to_owned();
                s.append(detail.as_str());
                s
            },
            SyncEngineError::SerializationError(detail) => {
                let mut s: String = "serialization error: ".to_owned();
                s.append(detail.as_str());
                s
            },
            SyncEngineError::DeserializationError(detail) => {
                let mut s: String = "deserialization error: ".to_owned();
                s.append(detail.as_str());
                s
            },
            SyncEngineError::PqVerificationFailed => "post-quantum signature verification failed".to_owned(),
            SyncEngineError::CompressionError(detail) => {
                let mut s: String = "at-rest compression error: ".to_owned();
                s.append(detail.as_str());
                s
            },
            SyncEngineError::EncryptionError(detail) => {
                let mut s: String = "encryption error: ".to_owned();
                s.append(detail.as_str());
                s
            },
            SyncEngineError::EncryptionKeyMismatch => "database encryption key mismatch or missing key".to_owned(),
            SyncEngineError::DecryptionFailed => "decryption failed: wrong key or corrupted data".to_owned(),
            SyncEngineError::ImportTargetNotEmpty => "cannot import snapshot: target database is not empty (import_snapshot requires an empty database — see SyncEngineDb::import_snapshot's documented policy)".to_owned(),
            SyncEngineError::IncompatibleSnapshotSchemaVersion { found, expected } => {
                let mut s: String = "snapshot schema version ".to_owned();
                append_decimal(&mut s, *found as u64);
                s.append(" is incompatible with this build's expected version ");
                append_decimal(&mut s, *expected as u64);
                s
            },
            SyncEngineError::TeeUnavailable => "TEE signing is requested but no genuine TEE is available on this device".to_owned(),
            SyncEngineError::TeeSignerUnimplemented => "TEE signing is currently a stub waiting for FFI integration".to_owned(),
            SyncEngineError::InvalidAttestation(detail) => {
                let mut s: String = "invalid or forged TEE attestation statement: ".to_owned();
                s.append(detail.as_str());
                s
            },
        }
    }
}

/// What to do about an error: storage trouble and a full dispatch window pass; a conflict that
/// relays did not decide and an exhausted emergency limit need somebody to step in; everything
/// else stays as it is, however often it is tried.
pub proof fn errors_are_classified_by_what_helps(e: SyncEngineError)
    ensures
        e.class() is Transient <==> e is ConnectionError || e is SqliteError
            || e is BackpressureWindowFull,
        e.class() is RequiresEscalation <==> e is UnresolvedConflict
            || e is EmergencyQueueLimitExceeded,
{
}

/// The messages that give two values of a kind give each under its own words.
pub proof fn messages_give_each_value_in_its_place(e: SyncEngineError)
    ensures
        e matches SyncEngineError::SequenceOutOfOrder { account, requested, last_reserved }
            ==> e.message() == "sequence number "@ + signed_decimal(requested as int)
            + " is not greater than last reserved "@ + signed_decimal(last_reserved as int)
            + " for account "@ + account@,
        e matches SyncEngineError::SourceAccountMismatch { claimed, actual } ==> e.message()
            == "caller-claimed source account "@ + claimed@ + " does not match the source account "@
            + actual@ + " encoded in the transaction XDR"@,
        e matches SyncEngineError::SequenceMismatch { account, reserved, actual } ==> e.message()
            == "reserved sequence "@ + signed_decimal(reserved as int)
            + " does not match the sequence "@ + signed_decimal(actual as int)
            + " encoded in the transaction XDR for account "@ + account@,
        e matches SyncEngineError::MultisigThresholdNotMet {
            account,
            accumulated_weight,
            required_threshold,
        } ==> e.message() == "multisig threshold not met for account "@ + account@
            + ": accumulated weight "@ + decimal(accumulated_weight as nat)
            + " < required threshold "@ + decimal(required_threshold as nat),
{
}

} // verus!
