//! FROST threshold-signing session model: the parameter and session-state types a
//! `t`-of-`n` signing coordinator needs. Nothing here performs cryptography.
use crate::text::{append_decimal, decimal};
use vstd::prelude::*;
use vstd::string::*;

verus! {

/// A signing participant, identified by its FROST participant index. Indices are
/// 1-based.
#[derive(Debug, Clone, Copy, PartialEq, Eq, PartialOrd, Ord, Hash, Structural)]
pub struct ParticipantId(pub u16);

/// Why a `t`-of-`n` configuration was rejected.
#[derive(Debug, Clone, Copy, PartialEq, Eq, Structural)]
pub enum ThresholdConfigError {
    /// `n` was zero: a group needs at least one participant.
    NoParticipants,
    /// `t` was zero: a threshold of zero would let anyone sign.
    ZeroThreshold,
    /// `t > n`: the threshold could never be met.
    ThresholdExceedsParticipants { threshold: u16, participants: u16 },
}

impl ThresholdConfigError {
    /// The message of each error.
    pub open spec fn message(self) -> Seq<char> {
        match self {
            ThresholdConfigError::NoParticipants =>
            "threshold group needs at least one participant"@,
            ThresholdConfigError::ZeroThreshold => "threshold must be at least 1"@,
            ThresholdConfigError::ThresholdExceedsParticipants { threshold, participants } =>
            "threshold "@ + decimal(threshold as nat) + " exceeds participant count "@ + decimal(
                participants as nat,
            ),
        }
    }

    /// The message of this error.
    pub fn to_string(&self) -> (s: String)
        ensures
            s@ == self.message(),
    {
        match self {
            ThresholdConfigError::NoParticipants =>
            "threshold group needs at least one participant".to_owned(),
            ThresholdConfigError::ZeroThreshold => "threshold must be at least 1".to_owned(),
            ThresholdConfigError::ThresholdExceedsParticipants { threshold, participants } => {
                let mut s: String = "threshold ".to_owned();
                append_decimal(&mut s, *threshold as u64);
                s.append(" exceeds participant count ");
                append_decimal(&mut s, *participants as u64);
                s
            },
        }
    }
}

/// A validated `t`-of-`n` FROST configuration.
#[derive(Debug, Clone, Copy, PartialEq, Eq, Structural)]
pub struct ThresholdParams {
    threshold: u16,
    participants: u16,
}

/// The participants in a list.
pub open spec fn present_set(present: Seq<ParticipantId>) -> Set<ParticipantId>
    decreases present.len(),
{
    if present.len() == 0 {
        Set::empty()
    } else {
        present_set(present.drop_last()).insert(present.last())
    }
}

impl ThresholdParams {
    /// The number of shares required (`t`).
    pub closed spec fn t(self) -> u16 {
        self.threshold
    }

    /// The number of participants (`n`).
    pub closed spec fn n(self) -> u16 {
        self.participants
    }

    /// The threshold is positive and can be met.
    pub open spec fn wf(self) -> bool {
        0 < self.t() <= self.n()
    }

    /// Validate and construct a `t`-of-`n` configuration.
    pub fn new(threshold: u16, participants: u16) -> (r: Result<Self, ThresholdConfigError>)
        ensures
            r is Ok <==> 0 < threshold <= participants,
            r matches Ok(p) ==> p.wf() && p.t() == threshold && p.n() == participants,
            r matches Err(e) ==> e == if participants == 0 {
                ThresholdConfigError::NoParticipants
            } else if threshold == 0 {
                ThresholdConfigError::ZeroThreshold
            } else {
                ThresholdConfigError::ThresholdExceedsParticipants { threshold, participants }
            },
    {
        if participants == 0 {
            return Err(ThresholdConfigError::NoParticipants);
        }
        if threshold == 0 {
            return Err(ThresholdConfigError::ZeroThreshold);
        }
        if threshold > participants {
            return Err(
                ThresholdConfigError::ThresholdExceedsParticipants { threshold, participants },
            );
        }
        Ok(ThresholdParams { threshold, participants })
    }

    /// The number of signature shares required to produce a signature (`t`).
    pub fn threshold(&self) -> (t: u16)
        ensures
            t == self.t(),
    {
        self.threshold
    }

    /// The total number of participants in the group (`n`).
    pub fn participants(&self) -> (n: u16)
        ensures
            n == self.n(),
    {
        self.participants
    }

    /// Whether `present` contains enough distinct participants to produce a
    /// signature. Duplicate ids are counted once.
    pub fn has_signing_quorum(&self, present: &[ParticipantId]) -> (r: bool)
        ensures
            r == (present_set(present@).len() >= self.t()),
    {
        let mut distinct: Vec<ParticipantId> = Vec::new();
        let mut i: usize = 0;
        assert(distinct@.to_set() =~= Set::empty());
        while i < present.len()
            invariant
                i <= present.len(),
                distinct@.no_duplicates(),
                distinct@.to_set() == present_set(present@.subrange(0, i as int)),
            decreases present.len() - i,
        {
            let id = present[i];
            assert(present@.subrange(0, i + 1).drop_last() =~= present@.subrange(0, i as int));
            let ghost before = distinct@;
            let mut k: usize = 0;
            while k < distinct.len() && distinct[k] != id
                invariant
                    k <= distinct.len(),
                    forall|j: int| 0 <= j < k ==> distinct@[j] != id,
                decreases distinct.len() - k,
            {
                k += 1;
            }
            if k == distinct.len() {
                distinct.push(id);
                proof {
                    assert forall|p: ParticipantId| distinct@.to_set().contains(p)
                        <==> before.to_set().insert(id).contains(p) by {
                        if before.contains(p) {
                            let j = choose|j: int| 0 <= j < before.len() && before[j] == p;
                            assert(distinct@[j] == p);
                        }
                        assert(distinct@[before.len() as int] == id);
                    }
                    assert(distinct@.to_set() =~= before.to_set().insert(id));
                }
            } else {
                assert(distinct@.contains(id));
                assert(before.to_set() =~= before.to_set().insert(id));
            }
            i += 1;
        }
        proof {
            assert(present@.subrange(0, i as int) =~= present@);
            distinct@.unique_seq_to_set();
        }
        distinct.len() >= self.threshold as usize
    }
}

/// Where a signing session sits in the two-round FROST protocol.
#[derive(Debug, Clone, Copy, PartialEq, Eq, Structural)]
pub enum SigningRound {
    /// Round 1: collecting per-participant nonce commitments.
    Commitment,
    /// Round 2: collecting signature shares.
    SignatureShare,
    /// `t` shares have been aggregated into a final signature.
    Aggregated,
    /// The session was abandoned.
    Abandoned,
}

/// A monotonic per-session epoch. Bumping it on retry invalidates every Round-1
/// commitment from the previous attempt, so a retried session never reuses a nonce.
#[derive(Debug, Clone, Copy, PartialEq, Eq, PartialOrd, Ord, Structural)]
pub struct SessionEpoch(pub u64);

impl SessionEpoch {
    /// The next epoch. Retrying a session always moves strictly forward.
    pub fn bump(self) -> (next: Self)
        requires
            self.0 < u64::MAX,
        ensures
            next.0 == self.0 + 1,
    {
        SessionEpoch(self.0 + 1)
    }
}

/// A participant cannot reach the threshold by submitting its share twice: a repeated
/// id leaves the set of those present as it is.
pub proof fn repeated_shares_count_once(present: Seq<ParticipantId>, id: ParticipantId)
    requires
        present.contains(id),
    ensures
        present_set(present.push(id)) == present_set(present),
{
    assert(present.push(id).drop_last() =~= present);
    lemma_present_set(present, id);
    assert(present_set(present).insert(id) =~= present_set(present));
}

proof fn lemma_present_set(present: Seq<ParticipantId>, id: ParticipantId)
    ensures
        present_set(present).contains(id) <==> present.contains(id),
        present_set(present).finite(),
        present_set(present).len() <= present.len(),
    decreases present.len(),
{
    if present.len() > 0 {
        let front = present.drop_last();
        lemma_present_set(front, id);
        if front.contains(id) {
            let i = choose|i: int| 0 <= i < front.len() && front[i] == id;
            assert(present[i] == id);
        }
        if present.contains(id) && present.last() != id {
            let i = choose|i: int| 0 <= i < present.len() && present[i] == id;
            assert(front[i] == id);
        }
        assert(present[present.len() - 1] == present.last());
    }
}

/// Fewer submissions than the threshold never make a quorum.
pub proof fn below_threshold_is_no_quorum(params: ThresholdParams, present: Seq<ParticipantId>)
    requires
        present.len() < params.t(),
    ensures
        present_set(present).len() < params.t(),
{
    lemma_present_set(present, ParticipantId(0));
}

/// Participants are counted, not submissions: those present are those who submitted, so that a
/// newcomer adds one to their number.
pub proof fn participants_are_counted_once(present: Seq<ParticipantId>, id: ParticipantId)
    ensures
        present_set(present).contains(id) <==> present.contains(id),
        present_set(present).finite(),
        !present.contains(id) ==> present_set(present.push(id)).len() == present_set(present).len()
            + 1,
        present_set(Seq::<ParticipantId>::empty()).len() == 0,
    decreases present.len(),
{
    assert(present.push(id).drop_last() =~= present);
    if present.len() > 0 {
        let front = present.drop_last();
        participants_are_counted_once(front, id);
        if front.contains(id) {
            let k = choose|k: int| 0 <= k < front.len() && front[k] == id;
            assert(present[k] == id);
        }
        if present.contains(id) {
            let k = choose|k: int| 0 <= k < present.len() && present[k] == id;
            if k < front.len() {
                assert(front[k] == id);
            }
        }
        assert(present[present.len() - 1] == present.last());
    }
}

} // verus!
