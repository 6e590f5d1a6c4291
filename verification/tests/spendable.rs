use stellarconduit_sync_engine::message::TransactionEnvelope;
use stellarconduit_sync_engine::queue::{estimate_spendable, QueuedEnvelopeSpend, TxPriority};
use stellarconduit_sync_engine::settlement::SettlementStatus;
use stellarconduit_sync_engine::storage::QueuedEnvelopeRecord;

fn spend(account: &str, id: u8, amount: i64, status: SettlementStatus) -> QueuedEnvelopeSpend {
    QueuedEnvelopeSpend::new(
        QueuedEnvelopeRecord {
            envelope: TransactionEnvelope {
                message_id: [id; 32],
                origin_pubkey: [0; 32],
                tx_xdr: String::new(),
                ttl_hops: 0,
                timestamp: 0,
                signature: [0; 64],
            },
            source_account: account.to_string(),
            sequence: i64::from(id),
            priority: TxPriority::Normal,
            enqueued_at: 0,
        },
        amount,
        status,
    )
}

#[test]
fn test_spendable_excludes_settled_and_failed() {
    let queued = [
        spend("G-account", 1, 30, SettlementStatus::Settled),
        spend("G-account", 2, 20, SettlementStatus::Failed),
        spend("other", 3, 100, SettlementStatus::Queued),
    ];

    assert_eq!(estimate_spendable("G-account", 100, &queued), 100);
}

#[test]
fn test_spendable_includes_queued_and_propagating() {
    let queued = [
        spend("G-account", 1, 30, SettlementStatus::Queued),
        spend("G-account", 2, 20, SettlementStatus::Propagating),
    ];

    assert_eq!(estimate_spendable("G-account", 100, &queued), 50);
}

#[test]
fn test_spendable_disputed_handling_matches_documented_policy() {
    let queued = [spend("G-account", 1, 40, SettlementStatus::Disputed)];

    assert_eq!(estimate_spendable("G-account", 100, &queued), 60);
}

#[test]
fn test_multiple_queued_envelopes_for_same_account_sum_correctly() {
    let queued = [
        spend("G-account", 1, 25, SettlementStatus::Queued),
        spend("G-account", 2, 35, SettlementStatus::Propagating),
        spend("G-account", 3, 15, SettlementStatus::Disputed),
    ];

    assert_eq!(estimate_spendable("G-account", 100, &queued), 25);
}
