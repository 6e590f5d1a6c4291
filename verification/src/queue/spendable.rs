//! Spendable-balance estimation for locally queued envelopes.
//!
//! The envelope's `tx_xdr` is opaque at this layer: the caller provides the amount
//! of each queued payment.
use crate::settlement::tracker::SettlementStatus;
use crate::storage::QueuedEnvelopeRecord;
use crate::text::str_eq;
use vstd::prelude::*;

verus! {

/// A queued envelope plus the caller-supplied payment amount and its current
/// settlement status. `amount` is in the balance asset's smallest unit and must be
/// non-negative.
#[derive(Debug, Clone, PartialEq)]
pub struct QueuedEnvelopeSpend {
    pub record: QueuedEnvelopeRecord,
    pub amount: i64,
    pub status: SettlementStatus,
}

impl QueuedEnvelopeSpend {
    /// Combine a queued record with its caller-supplied amount and status.
    pub fn new(record: QueuedEnvelopeRecord, amount: i64, status: SettlementStatus) -> (s: Self)
        ensures
            s == (QueuedEnvelopeSpend { record, amount, status }),
    {
        QueuedEnvelopeSpend { record, amount, status }
    }

    /// Whether the payment's funds are committed: it is the account's, may still
    /// settle, and its amount is not negative.
    pub open spec fn reserves(self, account: Seq<char>) -> bool {
        &&& self.record.source_account@ == account
        &&& self.status is Queued || self.status is Propagating || self.status is Disputed
        &&& self.amount >= 0
    }

    fn is_reserved_for(&self, account: &str) -> (r: bool)
        ensures
            r == self.reserves(account@),
    {
        let open = match self.status {
            SettlementStatus::Queued => true,
            SettlementStatus::Propagating => true,
            SettlementStatus::Disputed => true,
            SettlementStatus::Settled => false,
            SettlementStatus::Failed => false,
        };
        open && self.amount >= 0 && str_eq(self.record.source_account.as_str(), account)
    }
}

/// The sum of the payments that reserve funds of `account`.
pub open spec fn reserved_total(queued: Seq<QueuedEnvelopeSpend>, account: Seq<char>) -> int
    decreases queued.len(),
{
    if queued.len() == 0 {
        0
    } else {
        let before = reserved_total(queued.drop_last(), account);
        if queued.last().reserves(account) {
            before + queued.last().amount
        } else {
            before
        }
    }
}

/// `n` cut off at the ends of the range of `i64`.
pub open spec fn saturated(n: int) -> i64 {
    if n > i64::MAX {
        i64::MAX
    } else if n < i64::MIN {
        i64::MIN
    } else {
        n as i64
    }
}

/// Estimate how much of an account's last-known balance remains spendable.
///
/// Every matching envelope in `queued` that is `Queued`, `Propagating` or `Disputed`
/// is treated as a reservation; `Settled` and `Failed` envelopes are excluded. A
/// disputed envelope remains reserved because it may still settle. Negative amounts
/// are ignored, and arithmetic saturates.
pub fn estimate_spendable(
    account: &str,
    known_balance: i64,
    queued: &[QueuedEnvelopeSpend],
) -> (r: i64)
    ensures
        r == saturated(known_balance - saturated(reserved_total(queued@, account@))),
{
    let mut reserved: i64 = 0;
    let mut i: usize = 0;
    while i < queued.len()
        invariant
            i <= queued.len(),
            reserved >= 0,
            reserved_total(queued@.subrange(0, i as int), account@) >= 0,
            reserved == saturated(reserved_total(queued@.subrange(0, i as int), account@)),
        decreases queued.len() - i,
    {
        assert(queued@.subrange(0, i + 1).drop_last() =~= queued@.subrange(0, i as int));
        if queued[i].is_reserved_for(account) {
            let amount: i64 = queued[i].amount;
            reserved = if reserved > i64::MAX - amount {
                i64::MAX
            } else {
                reserved + amount
            };
        }
        i += 1;
    }
    assert(queued@.subrange(0, i as int) =~= queued@);
    if known_balance < i64::MIN + reserved {
        i64::MIN
    } else {
        known_balance - reserved
    }
}

/// Queuing another payment never raises the estimate, and a payment that is settled
/// or failed, or of another account, leaves it as it is.
pub proof fn queuing_never_frees_funds(
    queued: Seq<QueuedEnvelopeSpend>,
    spend: QueuedEnvelopeSpend,
    account: Seq<char>,
)
    ensures
        reserved_total(queued.push(spend), account) >= reserved_total(queued, account),
        !spend.reserves(account) ==> reserved_total(queued.push(spend), account) == reserved_total(
            queued,
            account,
        ),
{
    assert(queued.push(spend).drop_last() =~= queued);
}

/// What a payment commits: a payment of the account that is queued, propagating or disputed
/// adds exactly its amount to the reserved total, where that is not negative, and whatever
/// else the record says. Any other payment adds nothing.
pub proof fn a_payment_reserves_its_amount(
    queued: Seq<QueuedEnvelopeSpend>,
    spend: QueuedEnvelopeSpend,
    account: Seq<char>,
)
    ensures
        reserved_total(Seq::<QueuedEnvelopeSpend>::empty(), account) == 0,
        spend.record.source_account@ == account && spend.amount >= 0 && (spend.status
            == SettlementStatus::Queued || spend.status == SettlementStatus::Propagating
            || spend.status == SettlementStatus::Disputed) ==> reserved_total(
            queued.push(spend),
            account,
        ) == reserved_total(queued, account) + spend.amount,
        spend.record.source_account@ != account || spend.amount < 0 || spend.status
            == SettlementStatus::Settled || spend.status == SettlementStatus::Failed
            ==> reserved_total(queued.push(spend), account) == reserved_total(queued, account),
{
    assert(queued.push(spend).drop_last() =~= queued);
}

/// Reservations add up: two lists reserve what they reserve one by one, in any order.
pub proof fn reservations_add_up(
    first: Seq<QueuedEnvelopeSpend>,
    second: Seq<QueuedEnvelopeSpend>,
    account: Seq<char>,
)
    ensures
        reserved_total(first + second, account) == reserved_total(first, account) + reserved_total(
            second,
            account,
        ),
        reserved_total(first + second, account) == reserved_total(second + first, account),
{
    lemma_concatenated(first, second, account);
    lemma_concatenated(second, first, account);
}

proof fn lemma_concatenated(
    first: Seq<QueuedEnvelopeSpend>,
    second: Seq<QueuedEnvelopeSpend>,
    account: Seq<char>,
)
    ensures
        reserved_total(first + second, account) == reserved_total(first, account) + reserved_total(
            second,
            account,
        ),
    decreases second.len(),
{
    if second.len() == 0 {
        assert(first + second =~= first);
    } else {
        assert((first + second).drop_last() =~= first + second.drop_last());
        lemma_concatenated(first, second.drop_last(), account);
    }
}

/// The estimate and the reserved total add up to the balance, wherever both can be told in
/// 64 bits. Where they cannot, the estimate stops at the end of the range.
pub proof fn estimates_add_up_to_the_balance(known_balance: i64, reserved: int)
    requires
        reserved >= 0,
    ensures
        ({
            let estimate = saturated(known_balance - saturated(reserved));
            &&& estimate <= known_balance
            &&& reserved <= i64::MAX && known_balance - reserved >= i64::MIN ==> estimate
                + reserved == known_balance
            &&& reserved <= i64::MAX && known_balance - reserved < i64::MIN ==> estimate
                == i64::MIN
            &&& reserved > i64::MAX && known_balance >= 0 ==> estimate == known_balance - i64::MAX
            &&& reserved > i64::MAX && known_balance < -1 ==> estimate == i64::MIN
        }),
{
}

} // verus!
