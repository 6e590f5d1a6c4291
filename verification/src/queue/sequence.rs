//! Stellar sequence-number reservation for offline-queued transactions.
//!
//! A Stellar account's sequence number must increase by exactly 1 per transaction.
//! When several transactions from the same source account are queued while offline,
//! each must be assigned a distinct, strictly-increasing sequence number before
//! signing; otherwise two envelopes become mutually exclusive.
use crate::errors::SyncEngineError;
use crate::maps::{IdMap, NameMap};
use vstd::prelude::*;

verus! {

/// What a fresh on-chain observation says of the local view of an account.
#[derive(Debug, Clone, PartialEq, Eq)]
pub enum ReconciliationOutcome {
    /// The observed chain sequence equals the local baseline sequence.
    NoDrift,
    /// The observed chain sequence has advanced past the local baseline. Contains
    /// the in-flight reserved sequence numbers that are now provably stale and the
    /// updated baseline.
    BehindReality { stale_sequences: Vec<i64>, new_baseline: i64 },
    /// The observed chain sequence is lower than the local baseline.
    AheadOfReality { observed: i64, baseline: i64 },
}

/// Hands out sequence numbers per account.
#[derive(Debug)]
pub struct SequenceReservationManager {
    /// Baseline sequence number per Stellar source account as last observed
    /// on-chain.
    baseline: NameMap<i64>,
    /// Last reserved sequence number per Stellar source account.
    reserved: NameMap<i64>,
}

/// What a manager knows of its accounts.
pub struct SequenceView {
    pub baseline: Map<Seq<char>, i64>,
    pub reserved: Map<Seq<char>, i64>,
}

impl View for SequenceReservationManager {
    type V = SequenceView;

    closed spec fn view(&self) -> SequenceView {
        SequenceView { baseline: self.baseline@, reserved: self.reserved@ }
    }
}

/// The value of a key, if it has one.
pub open spec fn value_of<K, V>(map: Map<K, V>, key: K) -> Option<V> {
    if map.dom().contains(key) {
        Some(map[key])
    } else {
        None
    }
}

impl SequenceView {
    /// With an account seeded.
    pub open spec fn seeded(self, account: Seq<char>, sequence: i64) -> SequenceView {
        SequenceView {
            baseline: self.baseline.insert(account, sequence),
            reserved: self.reserved.insert(account, sequence),
        }
    }

    /// With another last reserved sequence.
    pub open spec fn with_reserved(self, account: Seq<char>, sequence: i64) -> SequenceView {
        SequenceView { reserved: self.reserved.insert(account, sequence), ..self }
    }

    /// The last reserved sequence of an account, or its baseline.
    pub open spec fn reserved_or_baseline(self, account: Seq<char>) -> i64 {
        if self.reserved.dom().contains(account) {
            self.reserved[account]
        } else {
            self.baseline[account]
        }
    }

    /// After an on-chain observation.
    pub open spec fn reconciled(self, account: Seq<char>, observed: i64) -> SequenceView {
        if !self.baseline.dom().contains(account) {
            self.seeded(account, observed)
        } else if observed <= self.baseline[account] {
            self
        } else {
            SequenceView {
                baseline: self.baseline.insert(account, observed),
                reserved: if observed > self.reserved_or_baseline(account) {
                    self.reserved.insert(account, observed)
                } else {
                    self.reserved
                },
            }
        }
    }
}

/// The integers after `from` up to `to`.
pub open spec fn run_of(from: int, to: int) -> Seq<i64> {
    if to <= from {
        Seq::empty()
    } else {
        Seq::new((to - from) as nat, |i: int| (from + 1 + i) as i64)
    }
}

impl SequenceReservationManager {
    /// The maps are well formed.
    pub closed spec fn wf(self) -> bool {
        self.baseline.wf() && self.reserved.wf()
    }

    /// A manager that knows no account.
    pub fn new() -> (m: Self)
        ensures
            m.wf(),
            m@ == (SequenceView { baseline: Map::empty(), reserved: Map::empty() }),
    {
        SequenceReservationManager { baseline: NameMap::new(), reserved: NameMap::new() }
    }

    /// Seed the manager with an account's current on-chain sequence number, as last
    /// observed while the device had connectivity.
    pub fn seed(&mut self, account: &str, current_chain_sequence: i64)
        requires
            old(self).wf(),
        ensures
            final(self).wf(),
            final(self)@ == old(self)@.seeded(account@, current_chain_sequence),
    {
        self.baseline.insert(account.to_owned(), current_chain_sequence);
        self.reserved.insert(account.to_owned(), current_chain_sequence);
    }

    /// Reserve and return the next sequence number for `account`. The account must
    /// have been seeded first.
    pub fn reserve_next(&mut self, account: &str) -> (r: Result<i64, SyncEngineError>)
        requires
            old(self).wf(),
            old(self)@.reserved.dom().contains(account@) ==> old(self)@.reserved[account@]
                < i64::MAX,
        ensures
            final(self).wf(),
            r is Ok <==> old(self)@.reserved.dom().contains(account@),
            r matches Ok(next) ==> {
                &&& next == old(self)@.reserved[account@] + 1
                &&& final(self)@ == old(self)@.with_reserved(account@, next)
            },
            r matches Err(e) ==> {
                &&& final(self)@ == old(self)@
                &&& e matches SyncEngineError::NoSequenceReserved(a) && a@ == account@
            },
    {
        let last: i64 = match self.reserved.get(account) {
            Some(last) => *last,
            None => {
                return Err(SyncEngineError::NoSequenceReserved(account.to_owned()));
            },
        };
        let next: i64 = last + 1;
        self.reserved.insert(account.to_owned(), next);
        Ok(next)
    }

    /// The last reserved sequence of `account`.
    pub fn last_reserved(&self, account: &str) -> (r: Option<i64>)
        requires
            self.wf(),
        ensures
            r == value_of(self@.reserved, account@),
    {
        match self.reserved.get(account) {
            Some(last) => Some(*last),
            None => None,
        }
    }

    /// The on-chain sequence of `account` as last observed.
    pub fn baseline(&self, account: &str) -> (r: Option<i64>)
        requires
            self.wf(),
        ensures
            r == value_of(self@.baseline, account@),
    {
        match self.baseline.get(account) {
            Some(baseline) => Some(*baseline),
            None => None,
        }
    }

    /// Roll back the most recent reservation for `account`, e.g. when envelope
    /// construction fails after a sequence number was reserved. `sequence` must
    /// equal the most recently reserved value.
    pub fn release(&mut self, account: &str, sequence: i64) -> (r: Result<(), SyncEngineError>)
        requires
            old(self).wf(),
            sequence > i64::MIN || value_of(old(self)@.reserved, account@) != Some(sequence),
        ensures
            final(self).wf(),
            r is Ok <==> value_of(old(self)@.reserved, account@) == Some(sequence),
            r is Ok ==> final(self)@ == old(self)@.with_reserved(account@, (sequence - 1) as i64),
            r matches Err(e) ==> {
                &&& final(self)@ == old(self)@
                &&& match value_of(old(self)@.reserved, account@) {
                    None => e matches SyncEngineError::NoSequenceReserved(a) && a@ == account@,
                    Some(last) => e matches SyncEngineError::SequenceOutOfOrder {
                        account: a,
                        requested,
                        last_reserved,
                    } && a@ == account@ && requested == sequence && last_reserved == last,
                }
            },
    {
        let last: i64 = match self.reserved.get(account) {
            Some(last) => *last,
            None => {
                return Err(SyncEngineError::NoSequenceReserved(account.to_owned()));
            },
        };
        if last != sequence {
            return Err(
                SyncEngineError::SequenceOutOfOrder {
                    account: account.to_owned(),
                    requested: sequence,
                    last_reserved: last,
                },
            );
        }
        self.reserved.insert(account.to_owned(), last - 1);
        Ok(())
    }

    /// Reconcile local baseline and reservations against a fresh on-chain
    /// observation: identifies the in-flight reserved sequences that are now
    /// provably stale and moves the baseline forward.
    pub fn reconcile(&mut self, account: &str, observed_chain_sequence: i64) -> (r:
        ReconciliationOutcome)
        requires
            old(self).wf(),
        ensures
            final(self).wf(),
            final(self)@ == old(self)@.reconciled(account@, observed_chain_sequence),
            match value_of(old(self)@.baseline, account@) {
                None => r is NoDrift,
                Some(baseline) => if observed_chain_sequence == baseline {
                    r is NoDrift
                } else if observed_chain_sequence < baseline {
                    r == (ReconciliationOutcome::AheadOfReality {
                        observed: observed_chain_sequence,
                        baseline,
                    })
                } else {
                    r matches ReconciliationOutcome::BehindReality { stale_sequences, new_baseline }
                        && new_baseline == observed_chain_sequence && stale_sequences@ == run_of(
                        baseline as int,
                        if observed_chain_sequence < old(self)@.reserved_or_baseline(account@) {
                            observed_chain_sequence as int
                        } else {
                            old(self)@.reserved_or_baseline(account@) as int
                        },
                    )
                },
            },
    {
        let current_baseline: i64 = match self.baseline.get(account) {
            Some(baseline) => *baseline,
            None => {
                self.seed(account, observed_chain_sequence);
                return ReconciliationOutcome::NoDrift;
            },
        };
        if observed_chain_sequence == current_baseline {
            return ReconciliationOutcome::NoDrift;
        }
        if observed_chain_sequence < current_baseline {
            return ReconciliationOutcome::AheadOfReality {
                observed: observed_chain_sequence,
                baseline: current_baseline,
            };
        }
        let current_reserved: i64 = match self.reserved.get(account) {
            Some(last) => *last,
            None => current_baseline,
        };
        let stale_end: i64 = if observed_chain_sequence < current_reserved {
            observed_chain_sequence
        } else {
            current_reserved
        };
        let mut stale_sequences: Vec<i64> = Vec::new();
        let mut last: i64 = current_baseline;
        while last < stale_end
            invariant
                current_baseline <= last,
                last <= stale_end || last == current_baseline,
                stale_sequences@ == run_of(current_baseline as int, last as int),
            decreases stale_end - last,
        {
            last = last + 1;
            stale_sequences.push(last);
            assert(stale_sequences@ =~= run_of(current_baseline as int, last as int));
        }
        assert(stale_sequences@ =~= run_of(current_baseline as int, stale_end as int));
        self.baseline.insert(account.to_owned(), observed_chain_sequence);
        if observed_chain_sequence > current_reserved {
            self.reserved.insert(account.to_owned(), observed_chain_sequence);
        }
        ReconciliationOutcome::BehindReality {
            stale_sequences,
            new_baseline: observed_chain_sequence,
        }
    }
}

impl Default for SequenceReservationManager {
    fn default() -> (m: Self)
        ensures
            m.wf(),
            m@ == (SequenceView { baseline: Map::empty(), reserved: Map::empty() }),
    {
        Self::new()
    }
}

/// Releasing the sequence that was just reserved restores the state, so the next
/// reservation hands out the same number again.
pub proof fn release_undoes_reserve(state: SequenceView, account: Seq<char>)
    requires
        state.reserved.dom().contains(account),
        state.reserved[account] < i64::MAX,
    ensures
        ({
            let next = (state.reserved[account] + 1) as i64;
            state.with_reserved(account, next).with_reserved(account, (next - 1) as i64) == state
        }),
{
    let next = (state.reserved[account] + 1) as i64;
    assert(state.with_reserved(account, next).with_reserved(
        account,
        (next - 1) as i64,
    ).reserved =~= state.reserved);
}

/// Accounts are independent: a reservation for one leaves the others as they are.
pub proof fn accounts_are_independent(
    state: SequenceView,
    account: Seq<char>,
    other: Seq<char>,
    sequence: i64,
)
    requires
        account != other,
    ensures
        value_of(state.with_reserved(account, sequence).reserved, other) == value_of(
            state.reserved,
            other,
        ),
        value_of(state.reconciled(account, sequence).reserved, other) == value_of(
            state.reserved,
            other,
        ),
        value_of(state.reconciled(account, sequence).baseline, other) == value_of(
            state.baseline,
            other,
        ),
{
}

/// The number handed out next for an account, given its last reserved one.
pub open spec fn next_after(last: i64) -> int {
    last + 1
}

/// Reservations never collide: between two reservations for an account the last
/// reserved number does not fall, whatever is observed on-chain in between, so the
/// later one is larger.
pub proof fn reservations_strictly_increase(
    state: SequenceView,
    account: Seq<char>,
    observed: i64,
)
    requires
        state.reserved.dom().contains(account),
        state.baseline.dom().contains(account),
    ensures
        state.reconciled(account, observed).reserved.dom().contains(account),
        next_after(state.reconciled(account, observed).reserved[account]) > state.reserved[account],
{
}

/// After reconciliation the next reservation lies beyond what is on chain, as long
/// as no reservation was released below the baseline.
pub proof fn reconciled_reservations_are_fresh(
    state: SequenceView,
    account: Seq<char>,
    observed: i64,
)
    requires
        state.reserved.dom().contains(account),
        state.baseline.dom().contains(account),
        state.reserved[account] >= state.baseline[account],
    ensures
        next_after(state.reconciled(account, observed).reserved[account]) > observed,
{
}

/// The stale sequences are exactly the reserved ones that the chain has reached.
pub proof fn stale_sequences_are_those_reached(
    baseline: i64,
    reserved: i64,
    observed: i64,
    sequence: i64,
)
    requires
        observed > baseline,
    ensures
        run_of(
            baseline as int,
            if observed < reserved {
                observed as int
            } else {
                reserved as int
            },
        ).contains(sequence) <==> baseline < sequence <= reserved && sequence <= observed,
{
    let end = if observed < reserved {
        observed as int
    } else {
        reserved as int
    };
    let run = run_of(baseline as int, end);
    if baseline < sequence <= end {
        assert(run[sequence - baseline - 1] == sequence);
    }
}

// ---------------------------------------------------------------------------
// Multisig accounts
// ---------------------------------------------------------------------------

/// The signers of an account with their weights, and the weight a transaction must
/// accumulate before it may be dispatched.
#[derive(Debug)]
pub struct AccountSigners {
    pub signers: IdMap<u32>,
    pub threshold: u32,
}

/// Cached multisig signer sets. Like an account's sequence number, its signer list
/// isn't fetchable without connectivity, so it is seeded from a snapshot taken while
/// the device last had connectivity. A single effective threshold is kept per
/// account.
#[derive(Debug)]
pub struct MultisigAccountRegistry {
    accounts: NameMap<AccountSigners>,
}

/// The signer set of an account.
pub struct SignersView {
    pub signers: Map<[u8; 32], u32>,
    pub threshold: u32,
}

/// The weights of a list of signers; of a signer listed twice, the last.
pub open spec fn signer_map(list: Seq<([u8; 32], u32)>) -> Map<[u8; 32], u32>
    decreases list.len(),
{
    if list.len() == 0 {
        Map::empty()
    } else {
        signer_map(list.drop_last()).insert(list.last().0, list.last().1)
    }
}

impl View for MultisigAccountRegistry {
    type V = Map<Seq<char>, SignersView>;

    closed spec fn view(&self) -> Map<Seq<char>, SignersView> {
        self.accounts@.map_values(
            |a: AccountSigners| SignersView { signers: a.signers@, threshold: a.threshold },
        )
    }
}

/// The weight of a signer of an account, if both are known.
pub open spec fn weight_of(
    accounts: Map<Seq<char>, SignersView>,
    account: Seq<char>,
    pubkey: [u8; 32],
) -> Option<u32> {
    match value_of(accounts, account) {
        Some(a) => value_of(a.signers, pubkey),
        None => None,
    }
}

/// The threshold of an account, if it is known.
pub open spec fn threshold_of(
    accounts: Map<Seq<char>, SignersView>,
    account: Seq<char>,
) -> Option<u32> {
    match value_of(accounts, account) {
        Some(a) => Some(a.threshold),
        None => None,
    }
}

impl MultisigAccountRegistry {
    /// The maps are well formed.
    pub closed spec fn wf(self) -> bool {
        &&& self.accounts.wf()
        &&& forall|account: Seq<char>|
            self.accounts@.dom().contains(account) ==> (
            #[trigger] self.accounts@[account]).signers.wf()
    }

    /// A registry that knows no account.
    pub fn new() -> (r: Self)
        ensures
            r.wf(),
            r@ == Map::<Seq<char>, SignersView>::empty(),
    {
        let r = MultisigAccountRegistry { accounts: NameMap::new() };
        assert(r@ =~= Map::<Seq<char>, SignersView>::empty());
        r
    }

    /// Cache `account`'s signer set and threshold. Replaces any previous entry for
    /// the same account.
    pub fn seed(&mut self, account: &str, signers: &[([u8; 32], u32)], threshold: u32)
        requires
            old(self).wf(),
        ensures
            final(self).wf(),
            final(self)@ == old(self)@.insert(
                account@,
                (SignersView { signers: signer_map(signers@), threshold }),
            ),
    {
        let mut map: IdMap<u32> = IdMap::new();
        let mut i: usize = 0;
        while i < signers.len()
            invariant
                i <= signers.len(),
                map.wf(),
                map@ == signer_map(signers@.subrange(0, i as int)),
            decreases signers.len() - i,
        {
            assert(signers@.subrange(0, i + 1).drop_last() =~= signers@.subrange(0, i as int));
            map.insert(signers[i].0, signers[i].1);
            i += 1;
        }
        assert(signers@.subrange(0, i as int) =~= signers@);
        let entry = AccountSigners { signers: map, threshold };
        self.accounts.insert(account.to_owned(), entry);
        assert(self@ =~= old(self)@.insert(
            account@,
            (SignersView { signers: signer_map(signers@), threshold }),
        ));
    }

    /// The cached weight for `pubkey` on `account`, or `None` if `account` hasn't
    /// been seeded or `pubkey` isn't one of its known signers.
    pub fn signer_weight(&self, account: &str, pubkey: &[u8; 32]) -> (r: Option<u32>)
        requires
            self.wf(),
        ensures
            r == weight_of(self@, account@, *pubkey),
    {
        match self.accounts.get(account) {
            Some(entry) => match entry.signers.get(pubkey) {
                Some(weight) => Some(*weight),
                None => None,
            },
            None => None,
        }
    }

    /// The cached signing threshold for `account`, or `None` if it hasn't been
    /// seeded.
    pub fn threshold(&self, account: &str) -> (r: Option<u32>)
        requires
            self.wf(),
        ensures
            r == threshold_of(self@, account@),
    {
        match self.accounts.get(account) {
            Some(entry) => Some(entry.threshold),
            None => None,
        }
    }

    /// Whether `pubkey` is among `account`'s cached authorized signers.
    pub fn is_known_signer(&self, account: &str, pubkey: &[u8; 32]) -> (r: bool)
        requires
            self.wf(),
        ensures
            r == weight_of(self@, account@, *pubkey) is Some,
    {
        self.signer_weight(account, pubkey).is_some()
    }
}

impl Default for MultisigAccountRegistry {
    fn default() -> (r: Self)
        ensures
            r.wf(),
            r@ == Map::<Seq<char>, SignersView>::empty(),
    {
        Self::new()
    }
}

/// Reconciling leaves no gap: after an observation beyond the baseline, the baseline is the
/// observed sequence, and the last reserved one is the larger of the observed one and the
/// one reserved before. So where the chain has passed every reservation, the next number
/// is the one right after the observed one.
pub proof fn reconciling_leaves_no_gap(state: SequenceView, account: Seq<char>, observed: i64)
    requires
        state.baseline.dom().contains(account),
        observed > state.baseline[account],
    ensures
        ({
            let after = state.reconciled(account, observed);
            &&& value_of(after.baseline, account) == Some(observed)
            &&& state.reserved.dom().contains(account) && state.reserved[account] >= observed
                ==> value_of(after.reserved, account) == Some(state.reserved[account])
            &&& !state.reserved.dom().contains(account) || state.reserved[account] < observed
                ==> value_of(after.reserved, account) == Some(observed)
            &&& state.reserved.dom().contains(account) && state.reserved[account] < observed
                ==> next_after(after.reserved[account]) == observed + 1
        }),
{
}

/// An observation that is not news changes nothing, and the first observation of an account
/// seeds it: the next number is the one right after it.
pub proof fn old_observations_change_nothing(
    state: SequenceView,
    account: Seq<char>,
    observed: i64,
)
    ensures
        state.baseline.dom().contains(account) && observed <= state.baseline[account] ==> {
            &&& state.reconciled(account, observed).baseline == state.baseline
            &&& state.reconciled(account, observed).reserved == state.reserved
        },
        !state.baseline.dom().contains(account) ==> {
            &&& value_of(state.reconciled(account, observed).baseline, account) == Some(observed)
            &&& value_of(state.reconciled(account, observed).reserved, account) == Some(observed)
        },
{
}

/// Seeding an account starts it at the given sequence, whatever was known before, and leaves
/// the other accounts alone. A reservation moves the last reserved number only.
pub proof fn seeding_starts_over(
    state: SequenceView,
    account: Seq<char>,
    other: Seq<char>,
    sequence: i64,
)
    requires
        account != other,
    ensures
        value_of(state.seeded(account, sequence).baseline, account) == Some(sequence),
        value_of(state.seeded(account, sequence).reserved, account) == Some(sequence),
        value_of(state.seeded(account, sequence).baseline, other) == value_of(
            state.baseline,
            other,
        ),
        value_of(state.seeded(account, sequence).reserved, other) == value_of(
            state.reserved,
            other,
        ),
        value_of(state.with_reserved(account, sequence).reserved, account) == Some(sequence),
        state.with_reserved(account, sequence).baseline == state.baseline,
{
}

/// The next number is one more than the last, and a key's value is what the map holds of it.
pub proof fn numbers_follow_one_another(last: i64, map: Map<Seq<char>, i64>, account: Seq<char>)
    ensures
        next_after(last) - last == 1,
        value_of(map.insert(account, last), account) == Some(last),
        value_of(map.remove(account), account) == None::<i64>,
{
}

/// The stale sequences of an account are those that were handed out since the baseline and
/// that the chain has reached, each once, in ascending order.
pub proof fn stale_sequences_were_handed_out(
    state: SequenceView,
    account: Seq<char>,
    observed: i64,
    sequence: i64,
)
    requires
        state.baseline.dom().contains(account),
        observed > state.baseline[account],
    ensures
        ({
            let last = state.reserved_or_baseline(account);
            let stale = run_of(
                state.baseline[account] as int,
                if observed < last {
                    observed as int
                } else {
                    last as int
                },
            );
            &&& state.reserved.dom().contains(account) ==> (stale.contains(sequence)
                <==> state.baseline[account] < sequence <= state.reserved[account] && sequence
                <= observed)
            &&& !state.reserved.dom().contains(account) ==> stale.len() == 0
            &&& forall|i: int, j: int|
                0 <= i < j < stale.len() ==> #[trigger] stale[i] < #[trigger] stale[j]
        }),
{
    stale_sequences_are_those_reached(
        state.baseline[account],
        state.reserved_or_baseline(account),
        observed,
        sequence,
    );
}

/// A list of signers gives each its weight: one that is listed last has that weight, whatever
/// was listed for it before, and the others keep theirs.
pub proof fn signers_have_their_listed_weight(
    list: Seq<([u8; 32], u32)>,
    pubkey: [u8; 32],
    weight: u32,
    other: [u8; 32],
)
    requires
        pubkey != other,
    ensures
        value_of(signer_map(list.push((pubkey, weight))), pubkey) == Some(weight),
        value_of(signer_map(list.push((pubkey, weight))), other) == value_of(
            signer_map(list),
            other,
        ),
        value_of(signer_map(Seq::empty()), pubkey) == None::<u32>,
{
    assert(list.push((pubkey, weight)).drop_last() =~= list);
}

/// A seeded account has the threshold and the signers that it was seeded with, and no
/// others; other accounts are not affected.
pub proof fn seeded_accounts_have_their_signers(
    accounts: Map<Seq<char>, SignersView>,
    account: Seq<char>,
    other: Seq<char>,
    set: SignersView,
    pubkey: [u8; 32],
)
    requires
        account != other,
    ensures
        threshold_of(accounts.insert(account, set), account) == Some(set.threshold),
        set.signers.dom().contains(pubkey) ==> weight_of(
            accounts.insert(account, set),
            account,
            pubkey,
        ) == Some(set.signers[pubkey]),
        !set.signers.dom().contains(pubkey) ==> weight_of(
            accounts.insert(account, set),
            account,
            pubkey,
        ) is None,
        weight_of(accounts.insert(account, set), other, pubkey) == weight_of(
            accounts,
            other,
            pubkey,
        ),
        threshold_of(accounts.insert(account, set), other) == threshold_of(accounts, other),
        !accounts.dom().contains(account) ==> weight_of(accounts, account, pubkey) is None
            && threshold_of(accounts, account) is None,
{
}

} // verus!
