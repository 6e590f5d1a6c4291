//! Deriving the true source account and sequence number from an already-built Stellar
//! transaction envelope XDR, so that callers can be held to what they actually signed
//! rather than trusted at their word.
use crate::errors::SyncEngineError;
use crate::stellar_address::{pubkey_to_stellar_address, strkey_address};
use stellar_xdr::curr::{
    FeeBumpTransactionInnerTx, Limits, MuxedAccount, ReadXdr, SequenceNumber, TransactionEnvelope,
    WriteXdr,
};
use vstd::prelude::*;

verus! {

/// A source account: a bare ed25519 key, or one with a multiplexing id.
#[derive(Debug, Clone, Copy, PartialEq, Eq)]
pub enum SourceAccount {
    Ed25519([u8; 32]),
    Muxed(u64, [u8; 32]),
}

/// What a transaction envelope says of its source account and sequence number, by the
/// form of the envelope. A fee-bump envelope wraps an inner transaction.
#[derive(Debug, Clone, Copy, PartialEq, Eq)]
pub enum EnvelopeParts {
    V0([u8; 32], i64),
    V1(SourceAccount, i64),
    FeeBump(SourceAccount, i64),
}

impl EnvelopeParts {
    /// The same envelope with another sequence number.
    pub open spec fn with_sequence(self, sequence: i64) -> EnvelopeParts {
        match self {
            EnvelopeParts::V0(source, _) => EnvelopeParts::V0(source, sequence),
            EnvelopeParts::V1(source, _) => EnvelopeParts::V1(source, sequence),
            EnvelopeParts::FeeBump(source, _) => EnvelopeParts::FeeBump(source, sequence),
        }
    }

    /// The base account whose sequence number the transaction consumes.
    pub open spec fn account_key(self) -> [u8; 32] {
        match self {
            EnvelopeParts::V0(source, _) => source,
            EnvelopeParts::V1(source, _) => base_key(source),
            EnvelopeParts::FeeBump(source, _) => base_key(source),
        }
    }

    /// The sequence number that the transaction consumes.
    pub open spec fn account_sequence(self) -> i64 {
        match self {
            EnvelopeParts::V0(_, sequence) => sequence,
            EnvelopeParts::V1(_, sequence) => sequence,
            EnvelopeParts::FeeBump(_, sequence) => sequence,
        }
    }
}

/// The key of the base account: a multiplexed account shares its base account's
/// sequence number.
pub open spec fn base_key(account: SourceAccount) -> [u8; 32] {
    match account {
        SourceAccount::Ed25519(key) => key,
        SourceAccount::Muxed(_, key) => key,
    }
}

/// How deeply the values of an envelope may be nested. A deeper one is malformed: reading
/// it would take an unbounded part of the stack.
pub const XDR_MAX_DEPTH: u32 = 500;

/// The parts of the envelope that a base64 XDR text encodes, or why it encodes none that is
/// nested at most `depth` deep.
pub uninterp spec fn xdr_parts_within(tx_xdr: Seq<char>, depth: u32) -> Result<
    EnvelopeParts,
    Seq<char>,
>;

/// The base64 XDR text of an envelope, nested at most `depth` deep, with its sequence number
/// replaced.
pub uninterp spec fn xdr_resequenced_within(
    tx_xdr: Seq<char>,
    sequence: i64,
    depth: u32,
) -> Seq<char>;

/// The parts of the envelope that a base64 XDR text encodes, or why it encodes none.
pub open spec fn xdr_parts(tx_xdr: Seq<char>) -> Result<EnvelopeParts, Seq<char>> {
    xdr_parts_within(tx_xdr, XDR_MAX_DEPTH)
}

/// The base64 XDR text of an envelope with its sequence number replaced.
pub open spec fn xdr_resequenced(tx_xdr: Seq<char>, sequence: i64) -> Seq<char> {
    xdr_resequenced_within(tx_xdr, sequence, XDR_MAX_DEPTH)
}

/// Calls `stellar_xdr::curr::TransactionEnvelope::from_xdr_base64` with a limit on how deeply
/// it recurses. The claim: the envelope, or the message of the error, depends on the text and
/// the limit alone. A text that exceeds it is an error.
#[verifier::external_body]
fn read_envelope(tx_xdr: &str, depth: u32) -> (r: Result<EnvelopeParts, String>)
    requires
        depth <= XDR_MAX_DEPTH,
    ensures
        match r {
            Ok(parts) => xdr_parts_within(tx_xdr@, depth) == Ok::<EnvelopeParts, Seq<char>>(
                parts,
            ),
            Err(e) => xdr_parts_within(tx_xdr@, depth) == Err::<EnvelopeParts, Seq<char>>(e@),
        },
{
    let source = |a| match a {
        MuxedAccount::Ed25519(k) => SourceAccount::Ed25519(k.0),
        MuxedAccount::MuxedEd25519(m) => SourceAccount::Muxed(m.id, m.ed25519.0),
    };
    match TransactionEnvelope::from_xdr_base64(tx_xdr, Limits::depth(depth)) {
        Err(e) => Err(e.to_string()),
        Ok(TransactionEnvelope::TxV0(e)) => Ok(
            EnvelopeParts::V0(e.tx.source_account_ed25519.0, e.tx.seq_num.0)),
        Ok(TransactionEnvelope::Tx(e)) => Ok(
            EnvelopeParts::V1(source(e.tx.source_account), e.tx.seq_num.0)),
        Ok(TransactionEnvelope::TxFeeBump(e)) => match e.tx.inner_tx {
            FeeBumpTransactionInnerTx::Tx(i) => Ok(
                EnvelopeParts::FeeBump(source(i.tx.source_account), i.tx.seq_num.0)) },
    }
}

/// Calls `from_xdr_base64` of a `stellar_xdr::curr::TransactionEnvelope`, sets its
/// sequence number (for a fee bump, that of the inner transaction) and calls
/// `to_xdr_base64`, both with the same limit; writing counts depth as reading does. The
/// claims: it succeeds exactly where the text encodes an envelope within the limit, with the same error otherwise; the new text depends on the arguments alone; it
/// encodes the same parts with the new sequence number; and nothing but the sequence
/// number changes, so that replacing it again gives what replacing it at once gives.
#[verifier::external_body]
fn write_sequence(tx_xdr: &str, sequence: i64, depth: u32) -> (r: Result<
    String,
    String,
>)
    requires
        depth <= XDR_MAX_DEPTH,
    ensures
        match xdr_parts_within(tx_xdr@, depth) {
            Ok(parts) => r matches Ok(text) && {
                &&& text@ == xdr_resequenced_within(tx_xdr@, sequence, depth)
                &&& xdr_parts_within(text@, depth) == Ok::<EnvelopeParts, Seq<char>>(
                    parts.with_sequence(sequence),
                )
                &&& forall|other: i64| #[trigger]
                    xdr_resequenced_within(text@, other, depth) == xdr_resequenced_within(
                        tx_xdr@,
                        other,
                        depth,
                    )
            },
            Err(e) => r matches Err(msg) && msg@ == e,
        },
{
    let mut envelope = TransactionEnvelope::from_xdr_base64(tx_xdr, Limits::depth(depth))
        .map_err(|e| e.to_string())?;
    match &mut envelope {
        TransactionEnvelope::TxV0(e) => e.tx.seq_num = SequenceNumber(sequence),
        TransactionEnvelope::Tx(e) => e.tx.seq_num = SequenceNumber(sequence),
        TransactionEnvelope::TxFeeBump(e) => match &mut e.tx.inner_tx {
            FeeBumpTransactionInnerTx::Tx(i) => i.tx.seq_num = SequenceNumber(sequence),
        },
    }
    envelope.to_xdr_base64(Limits::depth(depth)).map_err(|e| e.to_string())
}

/// The source account and sequence number of an envelope whose parts are known. For a
/// fee bump those of the inner transaction: the fee bump only changes who pays the fee.
/// For a multiplexed source the underlying base account: the sequence number lives
/// there.
pub fn source_of_parts(parts: &EnvelopeParts) -> (r: (String, i64))
    ensures
        r.0@ == strkey_address(parts.account_key()@),
        r.1 == parts.account_sequence(),
{
    let (account, sequence): (SourceAccount, i64) = match parts {
        EnvelopeParts::V0(source, sequence) => (SourceAccount::Ed25519(*source), *sequence),
        EnvelopeParts::V1(source, sequence) => (*source, *sequence),
        EnvelopeParts::FeeBump(source, sequence) => (*source, *sequence),
    };
    let key = match account {
        SourceAccount::Ed25519(key) => key,
        SourceAccount::Muxed(_, key) => key,
    };
    (pubkey_to_stellar_address(&key), sequence)
}

/// Base64-decode and parse `tx_xdr` as a Stellar transaction envelope, returning the
/// `(source_account, sequence)` pair actually encoded inside it. The source account is
/// returned as a `G...` StrKey string. Malformed input, too deeply nested input
/// among it, is an error.
pub fn extract_source_account_and_sequence(tx_xdr: &str) -> (r: Result<
    (String, i64),
    SyncEngineError,
>)
    ensures
        match xdr_parts(tx_xdr@) {
            Ok(parts) => r matches Ok((account, sequence)) && account@ == strkey_address(
                parts.account_key()@,
            ) && sequence == parts.account_sequence(),
            Err(e) => r matches Err(SyncEngineError::XdrParse(msg)) && msg@ == e,
        },
{
    match read_envelope(tx_xdr, XDR_MAX_DEPTH) {
        Ok(parts) => Ok(source_of_parts(&parts)),
        Err(e) => Err(SyncEngineError::XdrParse(e)),
    }
}

/// Parses an existing transaction envelope XDR, updates its sequence number to
/// `new_sequence`, and returns the re-serialized XDR base64 string. Nothing else
/// changes.
pub fn with_updated_sequence(tx_xdr: &str, new_sequence: i64) -> (r: Result<
    String,
    SyncEngineError,
>)
    ensures
        match xdr_parts(tx_xdr@) {
            Ok(parts) => r matches Ok(text) && {
                &&& text@ == xdr_resequenced(tx_xdr@, new_sequence)
                &&& xdr_parts(text@) == Ok::<EnvelopeParts, Seq<char>>(
                    parts.with_sequence(new_sequence),
                )
                &&& forall|other: i64| #[trigger]
                    xdr_resequenced(text@, other) == xdr_resequenced(tx_xdr@, other)
            },
            Err(e) => r matches Err(SyncEngineError::XdrParse(msg)) && msg@ == e,
        },
{
    match write_sequence(tx_xdr, new_sequence, XDR_MAX_DEPTH) {
        Ok(text) => Ok(text),
        Err(e) => Err(SyncEngineError::XdrParse(e)),
    }
}

/// Replacing the sequence number leaves the account alone, and what is read back is the
/// number that was written.
pub proof fn resequencing_keeps_the_account(parts: EnvelopeParts, sequence: i64)
    ensures
        parts.with_sequence(sequence).account_key() == parts.account_key(),
        parts.with_sequence(sequence).account_sequence() == sequence,
{
}

/// The account and the sequence of an envelope are those of the transaction that it carries, of
/// a fee bump those of the inner one, and of a multiplexed account those of the base account.
pub proof fn envelopes_are_of_their_base_account(key: [u8; 32], id: u64, sequence: i64)
    ensures
        EnvelopeParts::V0(key, sequence).account_key() == key,
        EnvelopeParts::V1(SourceAccount::Ed25519(key), sequence).account_key() == key,
        EnvelopeParts::V1(SourceAccount::Muxed(id, key), sequence).account_key() == key,
        EnvelopeParts::FeeBump(SourceAccount::Ed25519(key), sequence).account_key() == key,
        EnvelopeParts::FeeBump(SourceAccount::Muxed(id, key), sequence).account_key() == key,
        EnvelopeParts::V0(key, sequence).account_sequence() == sequence,
        forall|source: SourceAccount|
            #[trigger] EnvelopeParts::V1(source, sequence).account_sequence() == sequence,
        forall|source: SourceAccount|
            #[trigger] EnvelopeParts::FeeBump(source, sequence).account_sequence() == sequence,
{
}

} // verus!
