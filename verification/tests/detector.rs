use stellarconduit_sync_engine::conflict::{
    conflicts_between, detect_conflicts, detect_nway_conflicts, Conflict, NWayConflict, QueuedSlot,
};

fn slot(account: &str, sequence: i64, id: u8) -> QueuedSlot {
    QueuedSlot {
        source_account: account.to_string(),
        sequence,
        message_id: [id; 32],
    }
}

#[test]
fn same_slot_with_different_envelopes_conflicts() {
    let conflict = conflicts_between(&slot("GABC", 101, 1), &slot("GABC", 101, 2)).unwrap();
    assert_eq!(
        conflict,
        Conflict {
            source_account: "GABC".to_string(),
            sequence: 101,
            envelope_a: [1; 32],
            envelope_b: [2; 32],
        }
    );
}

#[test]
fn other_slots_and_the_same_envelope_do_not_conflict() {
    assert!(conflicts_between(&slot("GABC", 101, 1), &slot("GABC", 102, 2)).is_none());
    assert!(conflicts_between(&slot("GABC", 101, 1), &slot("GXYZ", 101, 2)).is_none());
    assert!(conflicts_between(&slot("GABC", 101, 1), &slot("GABC", 101, 1)).is_none());
}

#[test]
fn every_colliding_pair_is_reported_once_in_a_fixed_order() {
    let slots = vec![
        slot("GB", 7, 9),
        slot("GA", 5, 3),
        slot("GA", 5, 1),
        slot("GA", 5, 2),
        slot("GA", 6, 4),
        slot("GB", 7, 8),
        slot("GA", 5, 1),
    ];
    let mut reversed = slots.clone();
    reversed.reverse();

    let pairs: Vec<(u8, u8)> = detect_conflicts(&slots)
        .iter()
        .map(|c| (c.envelope_a[0], c.envelope_b[0]))
        .collect();
    assert_eq!(pairs, vec![(1, 2), (1, 3), (2, 3), (8, 9)]);
    assert_eq!(detect_conflicts(&slots), detect_conflicts(&reversed));
}

#[test]
fn contested_slots_list_all_their_envelopes() {
    let slots = vec![
        slot("GB", 7, 9),
        slot("GA", 5, 3),
        slot("GA", 5, 1),
        slot("GA", 6, 4),
        slot("GB", 7, 8),
        slot("GA", 5, 2),
    ];
    let mut reversed = slots.clone();
    reversed.reverse();

    let nway = detect_nway_conflicts(&slots);
    assert_eq!(
        nway,
        vec![
            NWayConflict {
                source_account: "GA".to_string(),
                sequence: 5,
                message_ids: vec![[1; 32], [2; 32], [3; 32]],
            },
            NWayConflict {
                source_account: "GB".to_string(),
                sequence: 7,
                message_ids: vec![[8; 32], [9; 32]],
            },
        ]
    );
    assert_eq!(nway, detect_nway_conflicts(&reversed));
    assert!(detect_nway_conflicts(&[slot("GA", 5, 1)]).is_empty());
}
