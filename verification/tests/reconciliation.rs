use stellarconduit_sync_engine::conflict::reconciliation::classify;
use stellarconduit_sync_engine::conflict::{reconverge, DivergenceClass, Reconvergence, ResolutionSummary};

fn summary(causal_depth: u64, first_hash_byte: u8) -> ResolutionSummary {
    let mut payload_hash = [0u8; 32];
    payload_hash[0] = first_hash_byte;
    ResolutionSummary {
        causal_depth,
        payload_hash,
    }
}

#[test]
fn test_from_payload_is_stable_and_hides_payload() {
    let a = ResolutionSummary::from_payload(7, b"resolution-payload");
    let b = ResolutionSummary::from_payload(7, b"resolution-payload");
    assert_eq!(a, b);
    assert_eq!(a.causal_depth, 7);
    // The 32-byte hash never equals the 18-byte input.
    assert_ne!(&a.payload_hash[..], b"resolution-payload".as_slice());
}

#[test]
fn test_classify_buckets() {
    let s1 = summary(1, 1);
    let s2 = summary(2, 2);
    assert_eq!(classify(None, None), DivergenceClass::Converged);
    assert_eq!(classify(Some(s1), Some(s1)), DivergenceClass::Converged);
    assert_eq!(
        classify(Some(s1), None),
        DivergenceClass::OneSidedResolution
    );
    assert_eq!(
        classify(None, Some(s2)),
        DivergenceClass::OneSidedResolution
    );
    assert_eq!(
        classify(Some(s1), Some(s2)),
        DivergenceClass::DoublyResolved
    );
}

#[test]
fn test_reconverge_prefers_earlier_causal_depth() {
    let earlier = summary(3, 9);
    let later = summary(10, 1);
    assert_eq!(reconverge(earlier, later), Reconvergence::LocalWins);
    assert_eq!(reconverge(later, earlier), Reconvergence::RemoteWins);
}

#[test]
fn test_reconverge_breaks_causal_depth_tie_by_hash() {
    let low_hash = summary(5, 1);
    let high_hash = summary(5, 200);
    assert_eq!(reconverge(low_hash, high_hash), Reconvergence::LocalWins);
    assert_eq!(reconverge(high_hash, low_hash), Reconvergence::RemoteWins);
}

#[test]
fn test_reconverge_identical_is_already_converged() {
    let s = summary(5, 42);
    assert_eq!(reconverge(s, s), Reconvergence::AlreadyConverged);
}

/// The named winner (as a concrete summary) is identical no matter which side is passed
/// first.
#[test]
fn test_reconverge_is_order_independent() {
    let depths = [0, 1, 5, u64::MAX];
    let hashes = [[0u8; 32], [1u8; 32], [0x7f; 32], [0xff; 32]];
    for d1 in depths {
        for h1 in hashes {
            for d2 in depths {
                for h2 in hashes {
                    let a = ResolutionSummary {
                        causal_depth: d1,
                        payload_hash: h1,
                    };
                    let b = ResolutionSummary {
                        causal_depth: d2,
                        payload_hash: h2,
                    };
                    let winner_ab = match reconverge(a, b) {
                        Reconvergence::LocalWins => Some(a),
                        Reconvergence::RemoteWins => Some(b),
                        Reconvergence::AlreadyConverged => None,
                    };
                    let winner_ba = match reconverge(b, a) {
                        Reconvergence::LocalWins => Some(b),
                        Reconvergence::RemoteWins => Some(a),
                        Reconvergence::AlreadyConverged => None,
                    };
                    assert_eq!(winner_ab, winner_ba);
                }
            }
        }
    }
}
