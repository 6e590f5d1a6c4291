use stellarconduit_sync_engine::errors::{ErrorClass, SyncEngineError};

// ── Helpers to construct every variant ──────────────────────────────────

fn all_variants() -> Vec<SyncEngineError> {
    vec![
        SyncEngineError::NoSequenceReserved("GTEST".into()),
        SyncEngineError::SequenceOutOfOrder {
            account: "GTEST".into(),
            requested: 5,
            last_reserved: 10,
        },
        SyncEngineError::InvalidEnvelope("bad payload".into()),
        SyncEngineError::XdrParse("bad xdr".into()),
        SyncEngineError::SourceAccountMismatch {
            claimed: "GCLAIMED".into(),
            actual: "GACTUAL".into(),
        },
        SyncEngineError::SequenceMismatch {
            account: "GTEST".into(),
            reserved: 5,
            actual: 6,
        },
        SyncEngineError::EnvelopeNotFound("deadbeef".into()),
        SyncEngineError::InvalidStateTransition {
            from: "queued".into(),
            to: "settled".into(),
        },
        SyncEngineError::UnresolvedConflict("slot 42".into()),
        SyncEngineError::VrfTiebreak("bad proof".into()),
        SyncEngineError::CompressedProofInvalid("bad fold".into()),
        SyncEngineError::EmergencyQueueLimitExceeded {
            current: 3,
            max: 3,
            window_secs: 60,
        },
        SyncEngineError::UnknownMultisigSigner {
            account: "GTEST".into(),
        },
        SyncEngineError::MultisigThresholdNotMet {
            account: "GTEST".into(),
            accumulated_weight: 1,
            required_threshold: 2,
        },
        SyncEngineError::ConnectionError(
            tokio_rusqlite::Error::Rusqlite(rusqlite::Error::InvalidQuery).to_string(),
        ),
        SyncEngineError::SqliteError(rusqlite::Error::InvalidQuery.to_string()),
        SyncEngineError::SerializationError(rmp_serde::encode::Error::UnknownLength.to_string()),
        SyncEngineError::DeserializationError(rmp_serde::decode::Error::Syntax("test".into()).to_string()),
        SyncEngineError::PqVerificationFailed,
        SyncEngineError::CompressionError("bad frame magic".into()),
        SyncEngineError::EncryptionError("test encryption error".into()),
        SyncEngineError::EncryptionKeyMismatch,
        SyncEngineError::DecryptionFailed,
        SyncEngineError::ImportTargetNotEmpty,
        SyncEngineError::IncompatibleSnapshotSchemaVersion {
            found: 1,
            expected: 2,
        },
        SyncEngineError::TeeUnavailable,
        SyncEngineError::TeeSignerUnimplemented,
        SyncEngineError::InvalidAttestation("forged".into()),
    ]
}

/// Living checklist: every variant must be constructible here and must
/// return one of the three defined classes without panicking.
/// A new variant added to `SyncEngineError` without a corresponding entry
/// in `all_variants()` is a sign the classification audit is incomplete.
#[test]
fn test_every_variant_has_a_classification() {
    let valid_classes = [
        ErrorClass::Permanent,
        ErrorClass::Transient,
        ErrorClass::RequiresEscalation,
    ];
    for variant in all_variants() {
        let class = variant.classify();
        assert!(
            valid_classes.contains(&class),
            "classify() returned an unexpected value for {:?}",
            variant
        );
    }
}

// ── Per-class tests ─────────────────────────────────────────────────────

#[test]
fn test_sequence_errors_are_permanent() {
    assert_eq!(
        SyncEngineError::NoSequenceReserved("GTEST".into()).classify(),
        ErrorClass::Permanent
    );
    assert_eq!(
        SyncEngineError::SequenceOutOfOrder {
            account: "GTEST".into(),
            requested: 1,
            last_reserved: 5,
        }
        .classify(),
        ErrorClass::Permanent
    );
}

#[test]
fn test_storage_errors_are_transient() {
    assert_eq!(
        SyncEngineError::ConnectionError(
            tokio_rusqlite::Error::Rusqlite(rusqlite::Error::InvalidQuery).to_string(),
        )
        .classify(),
        ErrorClass::Transient
    );
    assert_eq!(
        SyncEngineError::SqliteError(rusqlite::Error::InvalidQuery.to_string()).classify(),
        ErrorClass::Transient
    );
}

#[test]
fn test_unresolved_conflict_requires_escalation() {
    assert_eq!(
        SyncEngineError::UnresolvedConflict("slot conflict".into()).classify(),
        ErrorClass::RequiresEscalation
    );
}

#[test]
fn test_emergency_queue_limit_requires_escalation() {
    assert_eq!(
        SyncEngineError::EmergencyQueueLimitExceeded {
            current: 3,
            max: 3,
            window_secs: 60,
        }
        .classify(),
        ErrorClass::RequiresEscalation
    );
}

#[test]
fn test_invalid_envelope_is_permanent() {
    assert_eq!(
        SyncEngineError::InvalidEnvelope("malformed".into()).classify(),
        ErrorClass::Permanent
    );
}

#[test]
fn test_vrf_tiebreak_is_permanent() {
    assert_eq!(
        SyncEngineError::VrfTiebreak("proof failed verification".into()).classify(),
        ErrorClass::Permanent
    );
}

#[test]
fn test_compressed_proof_invalid_is_permanent() {
    assert_eq!(
        SyncEngineError::CompressedProofInvalid("tail does not fold to acc".into()).classify(),
        ErrorClass::Permanent
    );
}

#[test]
fn test_xdr_derivation_errors_are_permanent() {
    assert_eq!(
        SyncEngineError::XdrParse("bad xdr".into()).classify(),
        ErrorClass::Permanent
    );
    assert_eq!(
        SyncEngineError::SourceAccountMismatch {
            claimed: "GCLAIMED".into(),
            actual: "GACTUAL".into(),
        }
        .classify(),
        ErrorClass::Permanent
    );
    assert_eq!(
        SyncEngineError::SequenceMismatch {
            account: "GTEST".into(),
            reserved: 5,
            actual: 6,
        }
        .classify(),
        ErrorClass::Permanent
    );
}

#[test]
fn test_envelope_not_found_is_permanent() {
    assert_eq!(
        SyncEngineError::EnvelopeNotFound("deadbeef".into()).classify(),
        ErrorClass::Permanent
    );
}

#[test]
fn test_invalid_state_transition_is_permanent() {
    assert_eq!(
        SyncEngineError::InvalidStateTransition {
            from: "queued".into(),
            to: "settled".into(),
        }
        .classify(),
        ErrorClass::Permanent
    );
}

#[test]
fn test_multisig_errors_are_permanent() {
    assert_eq!(
        SyncEngineError::UnknownMultisigSigner {
            account: "GTEST".into()
        }
        .classify(),
        ErrorClass::Permanent
    );
    assert_eq!(
        SyncEngineError::MultisigThresholdNotMet {
            account: "GTEST".into(),
            accumulated_weight: 1,
            required_threshold: 2,
        }
        .classify(),
        ErrorClass::Permanent
    );
}

#[test]
fn test_serde_errors_are_permanent() {
    let enc_err = SyncEngineError::SerializationError(rmp_serde::encode::Error::UnknownLength.to_string());
    assert_eq!(enc_err.classify(), ErrorClass::Permanent);

    let dec_err =
        SyncEngineError::DeserializationError(rmp_serde::decode::Error::Syntax("test".into()).to_string());
    assert_eq!(dec_err.classify(), ErrorClass::Permanent);

    assert_eq!(
        SyncEngineError::PqVerificationFailed.classify(),
        ErrorClass::Permanent
    );
}
