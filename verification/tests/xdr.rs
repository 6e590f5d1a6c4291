use stellar_xdr::curr::{
    AccountId, Asset, ClaimPredicate, Claimant, ClaimantV0, CreateClaimableBalanceOp, FeeBumpTransaction, FeeBumpTransactionEnvelope,
    FeeBumpTransactionExt, FeeBumpTransactionInnerTx, HostFunction, InvokeContractArgs,
    InvokeHostFunctionOp, Limits, Memo, MuxedAccount, MuxedAccountMed25519, Operation,
    OperationBody, Preconditions, PublicKey, ScAddress, ScSymbol, ScVal, ScVec, SequenceNumber,
    Transaction, TransactionEnvelope, TransactionExt, TransactionV1Envelope, Uint256, VecM,
    WriteXdr,
};
use stellarconduit_sync_engine::envelope::extract_source_account_and_sequence;
use stellarconduit_sync_engine::envelope::xdr::with_updated_sequence;
use stellarconduit_sync_engine::errors::SyncEngineError;

const SOURCE_G: &str = "GAIRCEIRCEIRCEIRCEIRCEIRCEIRCEIRCEIRCEIRCEIRCEIRCEIRCF6M";
const FEE_SOURCE_G: &str = "GAZTGMZTGMZTGMZTGMZTGMZTGMZTGMZTGMZTGMZTGMZTGMZTGMZTHCM6";
const SEQ: i64 = 103_720_918_407_610_369;

/// A payment from the account with the key `[0x11; 32]`.
fn transaction(source_account: MuxedAccount, sequence: i64) -> Transaction {
    Transaction {
        source_account,
        fee: 100,
        seq_num: SequenceNumber(sequence),
        cond: Preconditions::None,
        memo: Memo::None,
        operations: VecM::default(),
        ext: TransactionExt::V0,
    }
}

fn v1_envelope(source_account: MuxedAccount, sequence: i64) -> String {
    TransactionEnvelope::Tx(TransactionV1Envelope {
        tx: transaction(source_account, sequence),
        signatures: VecM::default(),
    })
    .to_xdr_base64(Limits::none())
    .unwrap()
}

fn fixture(name: &str) -> String {
    let source = MuxedAccount::Ed25519(Uint256([0x11; 32]));
    match name {
        "transaction_v1_envelope.b64" => v1_envelope(source, SEQ),
        "transaction_v1_envelope_muxed.b64" => v1_envelope(
            MuxedAccount::MuxedEd25519(MuxedAccountMed25519 {
                id: 7,
                ed25519: Uint256([0x11; 32]),
            }),
            SEQ,
        ),
        "fee_bump_envelope.b64" => TransactionEnvelope::TxFeeBump(FeeBumpTransactionEnvelope {
            tx: FeeBumpTransaction {
                fee_source: MuxedAccount::Ed25519(Uint256([0x33; 32])),
                fee: 200,
                inner_tx: FeeBumpTransactionInnerTx::Tx(TransactionV1Envelope {
                    tx: transaction(source, SEQ),
                    signatures: VecM::default(),
                }),
                ext: FeeBumpTransactionExt::V0,
            },
            signatures: VecM::default(),
        })
        .to_xdr_base64(Limits::none())
        .unwrap(),
        other => panic!("no fixture {other}"),
    }
}

#[test]
fn test_extract_account_and_sequence_from_valid_xdr() {
    let xdr = fixture("transaction_v1_envelope.b64");
    let (account, sequence) = extract_source_account_and_sequence(&xdr).unwrap();
    assert_eq!(account, SOURCE_G);
    assert_eq!(sequence, SEQ);
}

#[test]
fn test_extract_from_muxed_source_yields_base_account() {
    // A muxed (M...) source must collapse onto the same base G-account, so
    // that conflict detection keys the sequence on the right account.
    let xdr = fixture("transaction_v1_envelope_muxed.b64");
    let (account, sequence) = extract_source_account_and_sequence(&xdr).unwrap();
    assert_eq!(account, SOURCE_G);
    assert_eq!(sequence, SEQ);
}

#[test]
fn test_extract_from_fee_bump_uses_inner_transaction() {
    // The fee source differs from the inner source; the sequence is
    // consumed on the inner transaction's source, which is what we return.
    let xdr = fixture("fee_bump_envelope.b64");
    let (account, sequence) = extract_source_account_and_sequence(&xdr).unwrap();
    assert_eq!(account, SOURCE_G);
    assert_ne!(account, FEE_SOURCE_G);
    assert_eq!(sequence, SEQ);
}

#[test]
fn test_extract_rejects_malformed_base64() {
    // '!' is not a base64 character.
    let result = extract_source_account_and_sequence("not valid base64 !!!");
    assert!(matches!(result, Err(SyncEngineError::XdrParse(_))));
}

#[test]
fn test_extract_rejects_truncated_xdr() {
    // Valid base64 of a truncated envelope: decodes to bytes, but the XDR
    // structure is incomplete.
    let full = fixture("transaction_v1_envelope.b64");
    let truncated = &full[..full.len() / 2];
    let result = extract_source_account_and_sequence(truncated);
    assert!(matches!(result, Err(SyncEngineError::XdrParse(_))));
}

#[test]
fn test_extract_rejects_empty_input() {
    let result = extract_source_account_and_sequence("");
    assert!(matches!(result, Err(SyncEngineError::XdrParse(_))));
}

/// The base64 text of some bytes.
fn base64(bytes: &[u8]) -> String {
    const DIGITS: &[u8; 64] = b"ABCDEFGHIJKLMNOPQRSTUVWXYZabcdefghijklmnopqrstuvwxyz0123456789+/";
    let mut text = String::new();
    for chunk in bytes.chunks(3) {
        let mut group = [0u8; 3];
        group[..chunk.len()].copy_from_slice(chunk);
        let bits = u32::from_be_bytes([0, group[0], group[1], group[2]]);
        for i in 0..4 {
            if i <= chunk.len() {
                text.push(DIGITS[(bits >> (18 - 6 * i)) as usize & 63] as char);
            } else {
                text.push('=');
            }
        }
    }
    text
}

/// An envelope with one operation.
fn with_operation(body: OperationBody) -> TransactionEnvelope {
    let source = MuxedAccount::Ed25519(Uint256([0x11; 32]));
    TransactionEnvelope::Tx(TransactionV1Envelope {
        tx: Transaction {
            operations: vec![Operation { source_account: None, body }].try_into().unwrap(),
            ..transaction(source, SEQ)
        },
        signatures: VecM::default(),
    })
}

/// The text of an envelope, with `levels` more copies of `level` put before the only place
/// where it stands.
fn nested(envelope: TransactionEnvelope, level: &[u8], levels: usize) -> String {
    let bytes = envelope.to_xdr(Limits::none()).unwrap();
    let at = bytes.windows(level.len()).rposition(|w| w == level).unwrap();
    let mut deep = bytes[..at].to_vec();
    for _ in 0..levels {
        deep.extend_from_slice(level);
    }
    deep.extend_from_slice(&bytes[at..]);
    base64(&deep)
}

/// A claimable balance whose only predicate is negated `levels + 1` times.
fn negated(levels: usize) -> String {
    let predicate = ClaimPredicate::Not(Some(Box::new(ClaimPredicate::Unconditional)));
    let claimant = Claimant::ClaimantTypeV0(ClaimantV0 {
        destination: AccountId(PublicKey::PublicKeyTypeEd25519(Uint256([0x22; 32]))),
        predicate,
    });
    let op = CreateClaimableBalanceOp {
        asset: Asset::Native,
        amount: 1,
        claimants: vec![claimant].try_into().unwrap(),
    };
    let envelope = with_operation(OperationBody::CreateClaimableBalance(op));
    nested(envelope, &[0, 0, 0, 3, 0, 0, 0, 1], levels)
}

/// A contract call with one argument, a void in `levels + 1` vectors.
fn boxed(levels: usize) -> String {
    let one = ScVal::Vec(Some(ScVec(vec![ScVal::Void].try_into().unwrap())));
    let args = InvokeContractArgs {
        contract_address: ScAddress::Contract(stellar_xdr::curr::Hash([0x44; 32])),
        function_name: ScSymbol("f".try_into().unwrap()),
        args: vec![one].try_into().unwrap(),
    };
    let op = InvokeHostFunctionOp {
        host_function: HostFunction::InvokeContract(args),
        auth: VecM::default(),
    };
    let envelope = with_operation(OperationBody::InvokeHostFunction(op));
    nested(envelope, &[0, 0, 0, 16, 0, 0, 0, 1, 0, 0, 0, 1], levels)
}

#[test]
fn nested_values_are_read_and_written() {
    for text in [negated(0), negated(100), boxed(0), boxed(50)] {
        assert_eq!(
            extract_source_account_and_sequence(&text).unwrap(),
            (SOURCE_G.to_string(), SEQ)
        );
        let moved = with_updated_sequence(&text, SEQ + 1).unwrap();
        assert_eq!(
            extract_source_account_and_sequence(&moved).unwrap(),
            (SOURCE_G.to_string(), SEQ + 1)
        );
        assert_eq!(with_updated_sequence(&moved, SEQ).unwrap(), text);
    }
}

#[test]
fn too_deeply_nested_values_are_an_error() {
    for text in [negated(1_000), negated(1_000_000), boxed(1_000), boxed(500_000)] {
        assert!(matches!(
            extract_source_account_and_sequence(&text),
            Err(SyncEngineError::XdrParse(_))
        ));
        assert!(matches!(
            with_updated_sequence(&text, 1),
            Err(SyncEngineError::XdrParse(_))
        ));
    }
}
