//! Agent that races conflicting envelopes into detection at the same simulated tick, in
//! an arrival order drawn from the seeded generator.
use super::replay::{append_truth, truth};
use super::{chacha12_shuffled, AgentCtx, AgentOutcome, SimRng};
use crate::bytes::{bytes32_eq, bytes_lt, lex_lt, lex_lt_is_total, lex_lt_is_transitive};
use crate::conflict::detector::{
    canonical, canonical_is_canonical, canonical_is_unique, colliding_pairs, conflict_views, contested, contested_slots,
    detect_conflicts, detect_nway_conflicts, detection_ignores_order, groups, nway_views, row, rows,
    slot_views, Conflict, ConflictView, NWayConflict, NWayConflictView, QueuedSlot, SlotView,
};
use crate::sim::trace::TraceView;
use crate::sim::world::{
    all_slots, device_at, in_name_order, is_first, is_merged, merged_is_unique,
    replacing_is_deterministic, same_slots, slots_replaced, slots_replaced_at, SimDevice,
};
use crate::text::{append_decimal, decimal, hex_of, hex_string, str_eq};
use vstd::prelude::*;
use vstd::string::*;

verus! {

/// Schedules three distinct envelopes for the same (account, sequence) slot. A correct
/// detector must:
///
/// 1. Report exactly the three pairwise conflicts, and one N-way conflict, no matter the
///    arrival order.
/// 2. Produce the same conflict list for every order.
#[derive(Debug, Clone, Copy)]
pub struct RaceAgent;

/// One slot for each id.
pub open spec fn slots_for(account: Seq<char>, sequence: i64, ids: Seq<[u8; 32]>) -> Seq<SlotView> {
    ids.map_values(|id: [u8; 32]| SlotView { account, sequence, message_id: id })
}

/// The ids in hexadecimal, with commas between them.
pub open spec fn id_list(ids: Seq<[u8; 32]>) -> Seq<char>
    decreases ids.len(),
{
    if ids.len() == 0 {
        Seq::empty()
    } else if ids.len() == 1 {
        hex_of(ids[0]@)
    } else {
        id_list(ids.drop_last()) + ","@ + hex_of(ids.last()@)
    }
}

/// What the agent found: the conflicts in one order, and in the other.
pub struct RaceFindings {
    pub pairs: Seq<ConflictView>,
    pub nway: Seq<NWayConflictView>,
    pub pairs_rev: Seq<ConflictView>,
    pub nway_rev: Seq<NWayConflictView>,
}

impl RaceFindings {
    /// The findings for the slots of all devices, and for the slots in reverse order.
    pub open spec fn of(merged: Seq<SlotView>, opposite: Seq<SlotView>) -> RaceFindings {
        RaceFindings {
            pairs: colliding_pairs(merged),
            nway: contested_slots(merged),
            pairs_rev: colliding_pairs(opposite),
            nway_rev: contested_slots(opposite),
        }
    }

    /// One N-way conflict of three envelopes either way.
    pub open spec fn nway_ok(self) -> bool {
        &&& self.nway.len() == 1
        &&& self.nway_rev.len() == 1
        &&& self.nway[0].message_ids.len() == 3
        &&& self.nway_rev[0].message_ids.len() == 3
    }

    /// Three pairwise conflicts either way.
    pub open spec fn pairs_ok(self) -> bool {
        self.pairs.len() == 3 && self.pairs_rev.len() == 3
    }

    /// The same lists either way.
    pub open spec fn order_stable(self) -> bool {
        self.pairs == self.pairs_rev && self.nway == self.nway_rev
    }

    /// The failure, if there is one.
    pub open spec fn failure(self) -> Option<Seq<char>> {
        if !(self.pairs_ok() && self.nway_ok()) {
            Some(
                "race missed conflicts: pairs="@ + decimal(self.pairs.len())
                    + " (want 3) nway_ok="@ + truth(self.nway_ok()),
            )
        } else if !self.order_stable() {
            Some(
                "detect_conflicts/detect_nway_conflicts output depends on slot insertion order (HashMap iteration) \u{2014} breaks seeded reproducibility"@,
            )
        } else {
            None
        }
    }

    /// The trace after the turn.
    pub open spec fn traced(self, before: TraceView, at: u64, order: Seq<[u8; 32]>) -> TraceView {
        let recorded = before.recorded(
            at,
            "race"@,
            "race_conflicts_detected"@,
            "perm="@ + id_list(order) + " pairs="@ + decimal(self.pairs.len()) + " nway="@
                + decimal(self.nway.len()) + " order_stable="@ + truth(self.order_stable()),
        );
        match self.failure() {
            Some(message) => recorded.failed(message),
            None => recorded,
        }
    }

    /// The outcome of the turn.
    pub open spec fn judged(self, outcome: AgentOutcome) -> bool {
        match self.failure() {
            Some(message) => outcome matches AgentOutcome::InvariantViolation { summary }
                && summary@ == message,
            None => outcome matches AgentOutcome::Defended { summary } && summary@
                == "race detected 3 pairs + 1 n-way conflict; output order-stable"@,
        }
    }
}

/// One slot for each id.
fn slots_of(account: &str, sequence: i64, ids: &[[u8; 32]]) -> (slots: Vec<QueuedSlot>)
    ensures
        slot_views(slots@) == slots_for(account@, sequence, ids@),
{
    let mut slots: Vec<QueuedSlot> = Vec::new();
    let mut i: usize = 0;
    while i < ids.len()
        invariant
            i <= ids.len(),
            slot_views(slots@) == slots_for(account@, sequence, ids@.subrange(0, i as int)),
        decreases ids.len() - i,
    {
        let ghost before = slots@;
        slots.push(
            QueuedSlot { source_account: account.to_owned(), sequence, message_id: ids[i] },
        );
        i += 1;
        proof {
            assert(slot_views(slots@) =~= slot_views(before).push(slots@.last()@));
            assert(slot_views(slots@) =~= slots_for(
                account@,
                sequence,
                ids@.subrange(0, i as int),
            ));
        }
    }
    assert(ids@.subrange(0, i as int) =~= ids@);
    slots
}

/// The ids in hexadecimal, with commas between them.
fn id_list_string(ids: &[[u8; 32]]) -> (out: String)
    ensures
        out@ == id_list(ids@),
{
    let mut out = "".to_owned();
    proof {
        reveal_strlit("");
        assert(out@ =~= Seq::<char>::empty());
    }
    let mut i: usize = 0;
    while i < ids.len()
        invariant
            i <= ids.len(),
            out@ == id_list(ids@.subrange(0, i as int)),
        decreases ids.len() - i,
    {
        assert(ids@.subrange(0, i + 1).drop_last() =~= ids@.subrange(0, i as int));
        let ghost before = out@;
        if i > 0 {
            out.append(",");
        }
        out.append(hex_string(ids[i].as_slice()).as_str());
        if i == 0 {
            assert(out@ =~= hex_of(ids[0]@));
        }
        i += 1;
    }
    assert(ids@.subrange(0, i as int) =~= ids@);
    out
}

/// Whether two lists of conflicts are the same.
fn same_conflicts(a: &[Conflict], b: &[Conflict]) -> (r: bool)
    ensures
        r == (conflict_views(a@) == conflict_views(b@)),
{
    if a.len() != b.len() {
        assert(conflict_views(a@).len() != conflict_views(b@).len());
        return false;
    }
    let mut i: usize = 0;
    while i < a.len()
        invariant
            i <= a.len(),
            a.len() == b.len(),
            forall|j: int| 0 <= j < i ==> (#[trigger] a@[j])@ == b@[j]@,
        decreases a.len() - i,
    {
        let same = a[i].sequence == b[i].sequence && str_eq(
            a[i].source_account.as_str(),
            b[i].source_account.as_str(),
        ) && bytes32_eq(&a[i].envelope_a, &b[i].envelope_a) && bytes32_eq(
            &a[i].envelope_b,
            &b[i].envelope_b,
        );
        if !same {
            assert(conflict_views(a@)[i as int] == a@[i as int]@);
            assert(conflict_views(b@)[i as int] == b@[i as int]@);
            return false;
        }
        i += 1;
    }
    assert(conflict_views(a@) =~= conflict_views(b@));
    true
}

/// Whether two lists of ids are the same.
fn same_ids(a: &[[u8; 32]], b: &[[u8; 32]]) -> (r: bool)
    ensures
        r == (a@ == b@),
{
    if a.len() != b.len() {
        return false;
    }
    let mut i: usize = 0;
    while i < a.len()
        invariant
            i <= a.len(),
            a.len() == b.len(),
            forall|j: int| 0 <= j < i ==> #[trigger] a@[j] == b@[j],
        decreases a.len() - i,
    {
        if !bytes32_eq(&a[i], &b[i]) {
            return false;
        }
        i += 1;
    }
    assert(a@ =~= b@);
    true
}

/// Whether two lists of N-way conflicts are the same.
fn same_nway(a: &[NWayConflict], b: &[NWayConflict]) -> (r: bool)
    ensures
        r == (nway_views(a@) == nway_views(b@)),
{
    if a.len() != b.len() {
        assert(nway_views(a@).len() != nway_views(b@).len());
        return false;
    }
    let mut i: usize = 0;
    while i < a.len()
        invariant
            i <= a.len(),
            a.len() == b.len(),
            forall|j: int| 0 <= j < i ==> (#[trigger] a@[j])@ == b@[j]@,
        decreases a.len() - i,
    {
        let same = a[i].sequence == b[i].sequence && str_eq(
            a[i].source_account.as_str(),
            b[i].source_account.as_str(),
        ) && same_ids(a[i].message_ids.as_slice(), b[i].message_ids.as_slice());
        if !same {
            assert(nway_views(a@)[i as int] == a@[i as int]@);
            assert(nway_views(b@)[i as int] == b@[i as int]@);
            return false;
        }
        i += 1;
    }
    assert(nway_views(a@) =~= nway_views(b@));
    true
}

/// The ids are in ascending order, each occurs once.
pub open spec fn ids_ascend(ids: Seq<[u8; 32]>) -> bool {
    forall|i: int, j: int|
        0 <= i < j < ids.len() ==> lex_lt((#[trigger] ids[i])@, (#[trigger] ids[j])@)
}

/// An ascending list with an id put where it belongs, unless it is there.
pub open spec fn with_id(ids: Seq<[u8; 32]>, id: [u8; 32]) -> Seq<[u8; 32]>
    decreases ids.len(),
{
    if ids.len() == 0 {
        seq![id]
    } else if ids.last() == id {
        ids
    } else if lex_lt(ids.last()@, id@) {
        ids.push(id)
    } else {
        with_id(ids.drop_last(), id).push(ids.last())
    }
}

/// The ids that a generator draws until there are three, in ascending order, and the
/// generator after that. `None` where the attempts do not suffice.
pub open spec fn three_ids(rng: SimRng, ids: Seq<[u8; 32]>, attempts: nat) -> Option<
    (Seq<[u8; 32]>, SimRng),
>
    decreases attempts,
{
    if ids.len() >= 3 {
        Some((ids, rng))
    } else if attempts == 0 {
        None
    } else {
        three_ids(rng.stepped(), with_id(ids, rng.next()), (attempts - 1) as nat)
    }
}

proof fn lemma_with_id(ids: Seq<[u8; 32]>, id: [u8; 32], at: int)
    requires
        ids_ascend(ids),
        0 <= at <= ids.len(),
        forall|k: int| 0 <= k < at ==> lex_lt((#[trigger] ids[k])@, id@),
        at < ids.len() ==> ids[at] == id || lex_lt(id@, ids[at]@),
    ensures
        with_id(ids, id) == if at < ids.len() && ids[at] == id {
            ids
        } else {
            ids.insert(at, id)
        },
    decreases ids.len(),
{
    lex_lt_is_total(id@, id@);
    if ids.len() == 0 {
        assert(ids.insert(at, id) =~= seq![id]);
    } else {
        let last = ids.len() - 1;
        if at == ids.len() {
            assert(ids.insert(at, id) =~= ids.push(id));
        } else if at == last && ids[at] == id {
        } else {
            // The last id is after `id`.
            if at < last {
                assert(lex_lt(ids[at]@, ids[last]@));
                if ids[at] != id {
                    lex_lt_is_transitive(id@, ids[at]@, ids[last]@);
                }
            }
            assert(lex_lt(id@, ids[last]@));
            lex_lt_is_total(id@, ids[last]@);
            let front = ids.drop_last();
            assert forall|i: int, j: int| 0 <= i < j < front.len() implies lex_lt(
                (#[trigger] front[i])@,
                (#[trigger] front[j])@,
            ) by {
                assert(lex_lt(ids[i]@, ids[j]@));
            }
            lemma_with_id(front, id, at);
            if at < front.len() && front[at] == id {
                assert(front.push(ids[last]) =~= ids);
            } else {
                assert(front.insert(at, id).push(ids[last]) =~= ids.insert(at, id));
            }
        }
    }
}

/// Put an id into an ascending list, unless it is there.
fn insert_id(ids: &mut Vec<[u8; 32]>, id: [u8; 32])
    requires
        ids_ascend(old(ids)@),
    ensures
        ids_ascend(final(ids)@),
        final(ids)@ == with_id(old(ids)@, id),
        final(ids)@.len() <= old(ids)@.len() + 1,
{
    let ghost before = ids@;
    let mut at: usize = 0;
    while at < ids.len() && bytes_lt(ids[at].as_slice(), id.as_slice())
        invariant
            at <= ids.len(),
            ids@ == before,
            before == old(ids)@,
            forall|k: int| 0 <= k < at ==> lex_lt((#[trigger] before[k])@, id@),
        decreases ids.len() - at,
    {
        at += 1;
    }
    proof {
        if at < before.len() {
            lex_lt_is_total(before[at as int]@, id@);
            if before[at as int]@ == id@ {
                assert(before[at as int] =~= id);
            }
        }
        lemma_with_id(before, id, at as int);
    }
    if at < ids.len() && bytes32_eq(&ids[at], &id) {
        return ;
    }
    ids.insert(at, id);
    proof {
        let after = ids@;
        assert(after =~= before.insert(at as int, id));
        assert forall|i: int, j: int| 0 <= i < j < after.len() implies lex_lt(
            (#[trigger] after[i])@,
            (#[trigger] after[j])@,
        ) by {
            if i < at {
                if j < at {
                    assert(lex_lt(before[i]@, before[j]@));
                } else if j > at {
                    assert(lex_lt(before[i]@, before[j - 1]@));
                }
            } else if i > at {
                assert(lex_lt(before[i - 1]@, before[j - 1]@));
            } else if j - 1 > at {
                assert(lex_lt(before[at as int]@, before[j - 1]@));
                lex_lt_is_transitive(id@, before[at as int]@, before[j - 1]@);
            }
        }
    }
}

impl RaceAgent {
    /// The name of the agent.
    pub fn name(&self) -> (name: &'static str)
        ensures
            name@ == "race"@,
    {
        "race"
    }

    /// Draw three distinct ids, in ascending order. `None` where no draw is new any
    /// more, after 2^64 - 1 attempts.
    fn draw_ids(&self, ctx: &mut AgentCtx) -> (r: Option<Vec<[u8; 32]>>)
        ensures
            final(ctx).seed == old(ctx).seed,
            final(ctx).clock == old(ctx).clock,
            final(ctx).world == old(ctx).world,
            final(ctx).trace == old(ctx).trace,
            match three_ids(old(ctx).rng, Seq::empty(), u64::MAX as nat) {
                Some((ids, rng)) => r matches Some(v) && v@ == ids && ids.len() == 3 && ids_ascend(
                    ids,
                ) && final(ctx).rng == rng,
                None => r is None,
            },
    {
        let mut ids: Vec<[u8; 32]> = Vec::new();
        let mut attempts: u64 = u64::MAX;
        while ids.len() < 3
            invariant
                ids@.len() <= 3,
                ids_ascend(ids@),
                three_ids(old(ctx).rng, Seq::empty(), u64::MAX as nat) == three_ids(
                    ctx.rng,
                    ids@,
                    attempts as nat,
                ),
                ctx.seed == old(ctx).seed,
                ctx.clock == old(ctx).clock,
                ctx.world == old(ctx).world,
                ctx.trace == old(ctx).trace,
            decreases attempts,
        {
            if attempts == 0 {
                return None;
            }
            attempts -= 1;
            let id = ctx.rng.draw32();
            insert_id(&mut ids, id);
        }
        Some(ids)
    }

    /// Race the envelopes with the given ids, which arrive in the given order: one
    /// device sees the first arrival, another the rest, and the two views are merged.
    pub fn race(&self, ctx: &mut AgentCtx, ids: &Vec<[u8; 32]>, order: &Vec<[u8; 32]>) -> (outcome:
        AgentOutcome)
        requires
            old(ctx).world.wf(),
            order@.len() > 0,
        ensures
            final(ctx).world.wf(),
            final(ctx).seed == old(ctx).seed,
            final(ctx).rng == old(ctx).rng,
            final(ctx).clock == old(ctx).clock,
            final(ctx).world.account == old(ctx).world.account,
            final(ctx).world.sequence == old(ctx).world.sequence,
            final(ctx).world.observation_ttl_secs == old(ctx).world.observation_ttl_secs,
            final(ctx).world.observation_accepted_at == old(ctx).world.observation_accepted_at,
            split_between_devices(
                old(ctx).world.devices@,
                final(ctx).world.devices@,
                slots_for(old(ctx).world.account@, old(ctx).world.sequence, order@),
            ),
            exists|merged: Seq<SlotView>| #[trigger]
                is_merged(merged, all_slots(final(ctx).world.devices@)) && {
                    let findings = RaceFindings::of(
                        merged,
                        slots_for(
                            old(ctx).world.account@,
                            old(ctx).world.sequence,
                            ids@.reverse(),
                        ),
                    );
                    &&& final(ctx).trace@ == findings.traced(
                        old(ctx).trace@,
                        old(ctx).clock.current_time,
                        order@,
                    )
                    &&& findings.judged(outcome)
                },
    {
        let account = ctx.world.account.clone();
        let sequence: i64 = ctx.world.sequence;
        let at: u64 = ctx.clock.current_time;
        let ghost arriving = slots_for(account@, sequence, order@);

        // Split-brain: one device sees the first arrival, the other the rest.
        let first = slots_of(
            account.as_str(),
            sequence,
            vstd::slice::slice_subrange(order.as_slice(), 0, 1),
        );
        let rest = slots_of(
            account.as_str(),
            sequence,
            vstd::slice::slice_subrange(order.as_slice(), 1, order.len()),
        );
        proof {
            assert(slot_views(first@) =~= arriving.subrange(0, 1));
            assert(slot_views(rest@) =~= arriving.subrange(1, arriving.len() as int));
        }
        let ghost before = ctx.world.devices@;
        ctx.world.replace_slots("race-0", first);
        let ghost mid = ctx.world.devices@;
        ctx.world.replace_slots("race-1", rest);
        assert(slots_replaced(before, mid, "race-0"@, arriving.subrange(0, 1)));
        assert(split_between_devices(before, ctx.world.devices@, arriving));

        let merged = ctx.world.merged_slots();
        let conflicts = detect_conflicts(merged.as_slice());
        let nway = detect_nway_conflicts(merged.as_slice());

        // Once more in the opposite order; results must match exactly.
        let mut reversed: Vec<[u8; 32]> = Vec::new();
        let mut i: usize = ids.len();
        while i > 0
            invariant
                i <= ids.len(),
                reversed@.len() == ids@.len() - i,
                forall|j: int|
                    0 <= j < reversed@.len() ==> #[trigger] reversed@[j] == ids@[ids@.len() - 1
                        - j],
            decreases i,
        {
            i -= 1;
            reversed.push(ids[i]);
        }
        assert(reversed@ =~= ids@.reverse());
        let opposite = slots_of(account.as_str(), sequence, reversed.as_slice());
        let conflicts_rev = detect_conflicts(opposite.as_slice());
        let nway_rev = detect_nway_conflicts(opposite.as_slice());
        let ghost findings = RaceFindings::of(slot_views(merged@), slot_views(opposite@));
        proof {
            assert(conflict_views(conflicts@) == findings.pairs);
            assert(conflict_views(conflicts_rev@) == findings.pairs_rev);
            assert(nway_views(nway@) == findings.nway);
            assert(nway_views(nway_rev@) == findings.nway_rev);
        }

        let pairs_ok = conflicts.len() == 3 && conflicts_rev.len() == 3;
        let nway_ok = nway.len() == 1 && nway_rev.len() == 1 && nway[0].message_ids.len() == 3
            && nway_rev[0].message_ids.len() == 3;
        proof {
            if nway@.len() == 1 {
                assert(findings.nway[0] == nway@[0]@);
            }
            if nway_rev@.len() == 1 {
                assert(findings.nway_rev[0] == nway_rev@[0]@);
            }
        }
        let order_stable = same_conflicts(conflicts.as_slice(), conflicts_rev.as_slice())
            && same_nway(nway.as_slice(), nway_rev.as_slice());

        let mut detail = "perm=".to_owned();
        detail.append(id_list_string(order.as_slice()).as_str());
        detail.append(" pairs=");
        append_decimal(&mut detail, conflicts.len() as u64);
        detail.append(" nway=");
        append_decimal(&mut detail, nway.len() as u64);
        detail.append(" order_stable=");
        append_truth(&mut detail, order_stable);
        ctx.trace.record(at, self.name(), "race_conflicts_detected", detail.as_str());

        if !(pairs_ok && nway_ok) {
            let mut msg = "race missed conflicts: pairs=".to_owned();
            append_decimal(&mut msg, conflicts.len() as u64);
            msg.append(" (want 3) nway_ok=");
            append_truth(&mut msg, nway_ok);
            ctx.trace.fail(msg.as_str());
            return AgentOutcome::InvariantViolation { summary: msg };
        }
        if !order_stable {
            let msg =
                "detect_conflicts/detect_nway_conflicts output depends on slot insertion order (HashMap iteration) \u{2014} breaks seeded reproducibility".to_owned();
            ctx.trace.fail(msg.as_str());
            return AgentOutcome::InvariantViolation { summary: msg };
        }
        AgentOutcome::Defended {
            summary: "race detected 3 pairs + 1 n-way conflict; output order-stable".to_owned(),
        }
    }

    /// Draw three distinct ids and an order in which they arrive, and race them. The
    /// detector defends where no other device has slots.
    pub fn act(&self, ctx: &mut AgentCtx) -> (r: Option<AgentOutcome>)
        requires
            old(ctx).world.wf(),
        ensures
            match three_ids(old(ctx).rng, Seq::empty(), u64::MAX as nat) {
                None => r is None && final(ctx).seed == old(ctx).seed && final(ctx).clock == old(
                    ctx,
                ).clock && final(ctx).world == old(ctx).world && final(ctx).trace == old(ctx).trace,
                Some(_) => r matches Some(outcome) && drawn_and_raced(
                    *old(ctx),
                    *final(ctx),
                    outcome,
                ),
            },
    {
        let ids = match self.draw_ids(ctx) {
            Some(ids) => ids,
            None => {
                return None;
            },
        };
        let mut order: Vec<[u8; 32]> = Vec::new();
        let mut i: usize = 0;
        while i < ids.len()
            invariant
                i <= ids.len(),
                order@ == ids@.subrange(0, i as int),
            decreases ids.len() - i,
        {
            order.push(ids[i]);
            i += 1;
            assert(order@ =~= ids@.subrange(0, i as int));
        }
        assert(order@ =~= ids@);
        ctx.rng.shuffle(&mut order);
        proof {
            lemma_same_len(order@, ids@);
        }
        let outcome = self.race(ctx, &ids, &order);
        assert(raced(*old(ctx), *ctx, ids@, order@, outcome));
        assert(drawn_and_raced(*old(ctx), *ctx, outcome));
        Some(outcome)
    }
}

proof fn lemma_same_len(a: Seq<[u8; 32]>, b: Seq<[u8; 32]>)
    requires
        a.to_multiset() == b.to_multiset(),
    ensures
        a.len() == b.len(),
{
    a.to_multiset_ensures();
    b.to_multiset_ensures();
}

/// The first of the slots goes to one device, the others to another.
pub open spec fn split_between_devices(
    before: Seq<SimDevice>,
    after: Seq<SimDevice>,
    slots: Seq<SlotView>,
) -> bool {
    exists|mid: Seq<SimDevice>| #[trigger]
        slots_replaced(before, mid, "race-0"@, slots.subrange(0, 1)) && in_name_order(mid)
            && slots_replaced(mid, after, "race-1"@, slots.subrange(1, slots.len() as int))
}

/// Three distinct ids were raced, in some order of arrival.
pub open spec fn raced(
    before: AgentCtx,
    after: AgentCtx,
    ids: Seq<[u8; 32]>,
    order: Seq<[u8; 32]>,
    outcome: AgentOutcome,
) -> bool {
    &&& ids.len() == 3
    &&& ids_ascend(ids)
    &&& order.to_multiset() == ids.to_multiset()
    &&& split_between_devices(
        before.world.devices@,
        after.world.devices@,
        slots_for(before.world.account@, before.world.sequence, order),
    )
    &&& exists|merged: Seq<SlotView>| #[trigger]
        is_merged(merged, all_slots(after.world.devices@)) && {
            let findings = RaceFindings::of(
                merged,
                slots_for(before.world.account@, before.world.sequence, ids.reverse()),
            );
            &&& after.trace@ == findings.traced(
                before.trace@,
                before.clock.current_time,
                order,
            )
            &&& findings.judged(outcome)
        }
}

/// The three ids that the generator draws were raced, in the order in which it shuffles
/// them.
pub open spec fn drawn_and_raced(before: AgentCtx, after: AgentCtx, outcome: AgentOutcome) -> bool {
    &&& after.world.wf()
    &&& after.seed == before.seed
    &&& after.clock == before.clock
    &&& after.world.account == before.world.account
    &&& after.world.sequence == before.world.sequence
    &&& after.world.observation_ttl_secs == before.world.observation_ttl_secs
    &&& after.world.observation_accepted_at == before.world.observation_accepted_at
    &&& three_ids(before.rng, Seq::empty(), u64::MAX as nat) matches Some((ids, rng)) && {
        let shuffled = chacha12_shuffled(rng.seed, rng.position, ids);
        &&& after.rng == (SimRng { seed: rng.seed, position: shuffled.1 })
        &&& raced(before, after, ids, shuffled.0, outcome)
    }
}

// ---------------------------------------------------------------------------
// The detector defends
// ---------------------------------------------------------------------------

/// No two devices have the same name.
spec fn names_differ(devices: Seq<SimDevice>) -> bool {
    forall|i: int, j: int|
        0 <= i < j < devices.len() ==> (#[trigger] devices[i]).id@ != (#[trigger] devices[j]).id@
}

proof fn lemma_replaced(
    before: Seq<SimDevice>,
    after: Seq<SimDevice>,
    id: Seq<char>,
    slots: Seq<SlotView>,
)
    requires
        names_differ(before),
        slots_replaced(before, after, id, slots),
    ensures
        names_differ(after),
        exists|i: int| device_at(after, id, i),
        forall|i: int|
            0 <= i < after.len() ==> if (#[trigger] after[i]).id@ == id {
                slot_views(after[i].slots@) == slots
            } else {
                before.contains(after[i])
            },
        forall|k: int|
            0 <= k < before.len() && (#[trigger] before[k]).id@ != id ==> after.contains(before[k]),
{
    let at = choose|at: int| #[trigger] slots_replaced_at(before, after, id, slots, at);
    let there = device_at(before, id, at);
    assert forall|i: int| 0 <= i < after.len() && i != at implies (#[trigger] after[i]).id@ != id
        && before.contains(after[i]) by {
        let k = if there || i < at {
            i
        } else {
            i - 1
        };
        assert(before[k] == after[i]);
        if there {
            if k < at {
                assert(before[k].id@ != before[at].id@);
            } else {
                assert(before[at].id@ != before[k].id@);
            }
        } else {
            assert(!device_at(before, id, k));
        }
    }
    assert forall|i: int, j: int| 0 <= i < j < after.len() implies (#[trigger] after[i]).id@ != (
    #[trigger] after[j]).id@ by {
        if i != at && j != at {
            let k = if there || i < at {
                i
            } else {
                i - 1
            };
            let m = if there || j < at {
                j
            } else {
                j - 1
            };
            assert(before[k] == after[i] && before[m] == after[j]);
            assert(before[k].id@ != before[m].id@);
        }
    }
    assert forall|k: int| 0 <= k < before.len() && (#[trigger] before[k]).id@
        != id implies after.contains(before[k]) by {
        let i = if there || k < at {
            k
        } else {
            k + 1
        };
        assert(after[i] == before[k]);
    }
}

/// The device at `i` has this slot.
spec fn has_slot(devices: Seq<SimDevice>, s: SlotView, i: int) -> bool {
    0 <= i < devices.len() && slot_views(devices[i].slots@).contains(s)
}

/// Every slot among all slots is a device's.
proof fn lemma_slot_has_device(devices: Seq<SimDevice>, s: SlotView) -> (i: int)
    requires
        all_slots(devices).contains(s),
    ensures
        has_slot(devices, s, i),
    decreases devices.len(),
{
    let all = all_slots(devices);
    let m = choose|m: int| 0 <= m < all.len() && all[m] == s;
    let front = all_slots(devices.drop_last());
    if m < front.len() {
        assert(front[m] == s);
        let i = lemma_slot_has_device(devices.drop_last(), s);
        assert(devices[i] == devices.drop_last()[i]);
        i
    } else {
        assert(slot_views(devices.last().slots@)[m - front.len()] == s);
        devices.len() - 1
    }
}

/// Every device's slot is among all slots.
proof fn lemma_device_has_slot(devices: Seq<SimDevice>, s: SlotView, i: int)
    requires
        has_slot(devices, s, i),
    ensures
        all_slots(devices).contains(s),
    decreases devices.len(),
{
    let all = all_slots(devices);
    let front = all_slots(devices.drop_last());
    if i < devices.len() - 1 {
        assert(devices.drop_last()[i] == devices[i]);
        lemma_device_has_slot(devices.drop_last(), s, i);
        let m = choose|m: int| 0 <= m < front.len() && front[m] == s;
        assert(all[m] == s);
    } else {
        let last = slot_views(devices.last().slots@);
        let m = choose|m: int| 0 <= m < last.len() && last[m] == s;
        assert(all[front.len() + m] == s);
    }
}

/// Of slots that differ in their ids only, every one is the first with its id.
proof fn lemma_all_are_first(slots: Seq<SlotView>, account: Seq<char>, sequence: i64, s: SlotView)
    requires
        forall|i: int|
            0 <= i < slots.len() ==> (#[trigger] slots[i]).account == account && slots[i].sequence
                == sequence,
        slots.contains(s),
    ensures
        is_first(slots, s),
    decreases slots.len(),
{
    let i = choose|i: int| 0 <= i < slots.len() && slots[i] == s;
    if i < slots.len() - 1 || slots.drop_last().contains(s) {
        let front = slots.drop_last();
        if i < slots.len() - 1 {
            assert(front[i] == s);
        }
        assert forall|k: int| 0 <= k < front.len() implies (#[trigger] front[k]).account == account
            && front[k].sequence == sequence by {
            assert(slots[k].account == account);
        }
        lemma_all_are_first(front, account, sequence, s);
        let k = choose|k: int|
            0 <= k < front.len() && #[trigger] front[k] == s && forall|j: int|
                0 <= j < k ==> (#[trigger] front[j]).message_id != s.message_id;
        assert(slots[k] == s);
        assert forall|j: int| 0 <= j < k implies (#[trigger] slots[j]).message_id
            != s.message_id by {
            assert(front[j].message_id != s.message_id);
        }
    } else {
        assert forall|j: int| 0 <= j < i implies (#[trigger] slots[j]).message_id
            != s.message_id by {
            if slots[j].message_id == s.message_id {
                assert(slots[j] == s);
                assert(slots.drop_last()[j] == s);
            }
        }
    }
}

/// Three slots of one account and sequence are three pairs, and one N-way conflict.
proof fn lemma_three_way(account: Seq<char>, sequence: i64, ids: Seq<[u8; 32]>)
    requires
        ids.len() == 3,
        ids_ascend(ids),
    ensures
        colliding_pairs(slots_for(account, sequence, ids.reverse())).len() == 3,
        contested_slots(slots_for(account, sequence, ids.reverse())).len() == 1,
        contested_slots(slots_for(account, sequence, ids.reverse()))[0].message_ids.len() == 3,
{
    let slots = slots_for(account, sequence, ids.reverse());
    let list = slots_for(account, sequence, ids);
    assert forall|s: SlotView| list.contains(s) <==> slots.contains(s) by {
        if list.contains(s) {
            let i = choose|i: int| 0 <= i < list.len() && list[i] == s;
            assert(slots[2 - i] == s);
        }
        if slots.contains(s) {
            let i = choose|i: int| 0 <= i < slots.len() && slots[i] == s;
            assert(list[2 - i] == s);
        }
    }
    assert forall|i: int, j: int| 0 <= i < j < list.len() implies (#[trigger] list[i]).before(
        #[trigger] list[j],
    ) by {
        assert(lex_lt(ids[i]@, ids[j]@));
    }
    canonical_is_canonical(slots);
    canonical_is_unique(canonical(slots), list);
    assert(ids[0] != ids[1] && ids[1] != ids[2] && ids[0] != ids[2]) by {
        assert(lex_lt(ids[0]@, ids[1]@) && lex_lt(ids[1]@, ids[2]@) && lex_lt(ids[0]@, ids[2]@));
        lex_lt_is_total(ids[0]@, ids[0]@);
        lex_lt_is_total(ids[1]@, ids[1]@);
    }
    reveal_with_fuel(rows, 4);
    reveal_with_fuel(row, 4);
    assert(row(list, 0, 3).len() == 2);
    assert(row(list, 1, 3).len() == 1);
    assert(row(list, 2, 3).len() == 0);
    assert(rows(list, 3).len() == 3);
    let g0 = groups(list, 0);
    let g1 = groups(list, 1);
    let g2 = groups(list, 2);
    let g3 = groups(list, 3);
    assert(g1.len() == 1 && g1[0].message_ids.len() == 1);
    assert(g2.len() == 1 && g2[0].message_ids.len() == 2);
    assert(g3.len() == 1 && g3[0].message_ids.len() == 3);
    assert(contested(g3.drop_last()) =~= Seq::<NWayConflictView>::empty());
}

/// Every race is defended: where no other device has slots, all three pairs and the
/// N-way conflict are found, and the results do not depend on the order of arrival.
pub proof fn races_are_defended(
    before: AgentCtx,
    after: AgentCtx,
    ids: Seq<[u8; 32]>,
    order: Seq<[u8; 32]>,
    outcome: AgentOutcome,
)
    requires
        before.world.wf(),
        raced(before, after, ids, order, outcome),
        forall|i: int|
            0 <= i < before.world.devices@.len() ==> (#[trigger] before.world.devices@[i]).id@
                == "race-0"@ || before.world.devices@[i].id@ == "race-1"@
                || before.world.devices@[i].slots@.len() == 0,
    ensures
        outcome is Defended,
        after.trace@.failure == before.trace@.failure,
{
    let account = before.world.account@;
    let sequence = before.world.sequence;
    let devices = before.world.devices@;
    let arriving = slots_for(account, sequence, order);
    let first = arriving.subrange(0, 1);
    let rest = arriving.subrange(1, arriving.len() as int);
    lemma_same_len(order, ids);
    assert(names_differ(devices)) by {
        assert forall|i: int, j: int| 0 <= i < j < devices.len() implies (
        #[trigger] devices[i]).id@ != (#[trigger] devices[j]).id@ by {
            lex_lt_is_total(
                vstd::utf8::encode_utf8(devices[i].id@),
                vstd::utf8::encode_utf8(devices[j].id@),
            );
        }
    }
    let mid = choose|mid: Seq<SimDevice>| #[trigger]
        slots_replaced(devices, mid, "race-0"@, first) && in_name_order(mid) && slots_replaced(
            mid,
            after.world.devices@,
            "race-1"@,
            rest,
        );
    let end = after.world.devices@;
    lemma_replaced(devices, mid, "race-0"@, first);
    lemma_replaced(mid, end, "race-1"@, rest);
    assert("race-0"@ != "race-1"@) by {
        reveal_strlit("race-0");
        reveal_strlit("race-1");
        assert("race-0"@[5] != "race-1"@[5]);
    }
    let all = all_slots(end);
    // The devices hold the three slots, and nothing else.
    assert forall|s: SlotView| #[trigger] all.contains(s) <==> arriving.contains(s) by {
        if all.contains(s) {
            let i = lemma_slot_has_device(end, s);
            if end[i].id@ == "race-1"@ {
                let k = choose|k: int| 0 <= k < rest.len() && rest[k] == s;
                assert(arriving[k + 1] == s);
            } else {
                assert(mid.contains(end[i]));
                let m = choose|m: int| 0 <= m < mid.len() && mid[m] == end[i];
                if mid[m].id@ == "race-0"@ {
                    let k = choose|k: int| 0 <= k < first.len() && first[k] == s;
                    assert(arriving[k] == s);
                } else {
                    assert(devices.contains(mid[m]));
                    let n = choose|n: int| 0 <= n < devices.len() && devices[n] == mid[m];
                    assert(devices[n].slots@.len() == 0);
                }
            }
        }
        if arriving.contains(s) {
            let k = choose|k: int| 0 <= k < arriving.len() && arriving[k] == s;
            if k == 0 {
                let m = choose|m: int| device_at(mid, "race-0"@, m);
                assert(mid[m].id@ != "race-1"@);
                assert(end.contains(mid[m]));
                let i = choose|i: int| 0 <= i < end.len() && end[i] == mid[m];
                assert(slot_views(end[i].slots@) == first);
                assert(first[0] == s);
                assert(slot_views(end[i].slots@).contains(s));
                lemma_device_has_slot(end, s, i);
            } else {
                let i = choose|i: int| device_at(end, "race-1"@, i);
                assert(slot_views(end[i].slots@) == rest);
                assert(rest[k - 1] == s);
                assert(slot_views(end[i].slots@).contains(s));
                lemma_device_has_slot(end, s, i);
            }
        }
    }
    let opposite = slots_for(account, sequence, ids.reverse());
    let merged = choose|merged: Seq<SlotView>| #[trigger]
        is_merged(merged, all) && {
            let findings = RaceFindings::of(merged, opposite);
            &&& after.trace@ == findings.traced(before.trace@, before.clock.current_time, order)
            &&& findings.judged(outcome)
        };
    assert forall|s: SlotView| merged.contains(s) <==> opposite.contains(s) by {
        assert(all.contains(s) <==> arriving.contains(s));
        if merged.contains(s) {
            assert(is_first(all, s));
            assert(all.contains(s));
            let k = choose|k: int| 0 <= k < arriving.len() && arriving[k] == s;
            lemma_in_both(order, ids, order[k]);
            let m = choose|m: int| 0 <= m < ids.len() && ids[m] == order[k];
            assert(opposite[ids.len() - 1 - m] == s);
        }
        if opposite.contains(s) {
            let m = choose|m: int| 0 <= m < opposite.len() && opposite[m] == s;
            let id = ids[ids.len() - 1 - m];
            lemma_in_both(ids, order, id);
            let k = choose|k: int| 0 <= k < order.len() && order[k] == id;
            assert(arriving[k] == s);
            assert forall|i: int| 0 <= i < all.len() implies (#[trigger] all[i]).account == account
                && all[i].sequence == sequence by {
                assert(all.contains(all[i]));
                assert(arriving.contains(all[i]));
            }
            lemma_all_are_first(all, account, sequence, s);
        }
    }
    detection_ignores_order(merged, opposite);
    lemma_three_way(account, sequence, ids);
}

proof fn lemma_in_both(a: Seq<[u8; 32]>, b: Seq<[u8; 32]>, id: [u8; 32])
    requires
        a.to_multiset() == b.to_multiset(),
        a.contains(id),
    ensures
        b.contains(id),
{
    a.to_multiset_ensures();
    b.to_multiset_ensures();
    assert(a.to_multiset().count(id) > 0);
}

/// Races are deterministic: two races of the same ids in the same order, on devices with
/// the same slots at the same time, are traced and judged alike, and leave devices with
/// the same slots. Which ids are drawn, and in which order they arrive, is fixed by the
/// generator: see [`RaceAgent::act`].
pub proof fn races_are_deterministic(
    before_a: AgentCtx,
    after_a: AgentCtx,
    outcome_a: AgentOutcome,
    before_b: AgentCtx,
    after_b: AgentCtx,
    outcome_b: AgentOutcome,
    ids: Seq<[u8; 32]>,
    order: Seq<[u8; 32]>,
)
    requires
        before_a.world.wf(),
        after_a.world.wf(),
        after_b.world.wf(),
        raced(before_a, after_a, ids, order, outcome_a),
        raced(before_b, after_b, ids, order, outcome_b),
        same_slots(before_a.world.devices@, before_b.world.devices@),
        before_a.world.account@ == before_b.world.account@,
        before_a.world.sequence == before_b.world.sequence,
        before_a.clock == before_b.clock,
        before_a.trace@ == before_b.trace@,
    ensures
        after_a.trace@ == after_b.trace@,
        outcome_a is Defended <==> outcome_b is Defended,
        outcome_a.summary() == outcome_b.summary(),
        same_slots(after_a.world.devices@, after_b.world.devices@),
{
    let slots = slots_for(before_a.world.account@, before_a.world.sequence, order);
    let first = slots.subrange(0, 1);
    let rest = slots.subrange(1, slots.len() as int);
    let mid_a = choose|mid: Seq<SimDevice>| #[trigger]
        slots_replaced(before_a.world.devices@, mid, "race-0"@, first) && in_name_order(mid)
            && slots_replaced(mid, after_a.world.devices@, "race-1"@, rest);
    let mid_b = choose|mid: Seq<SimDevice>| #[trigger]
        slots_replaced(before_b.world.devices@, mid, "race-0"@, first) && in_name_order(mid)
            && slots_replaced(mid, after_b.world.devices@, "race-1"@, rest);
    replacing_is_deterministic(
        before_a.world.devices@,
        mid_a,
        before_b.world.devices@,
        mid_b,
        "race-0"@,
        first,
    );
    replacing_is_deterministic(
        mid_a,
        after_a.world.devices@,
        mid_b,
        after_b.world.devices@,
        "race-1"@,
        rest,
    );
    let opposite = slots_for(before_a.world.account@, before_a.world.sequence, ids.reverse());
    let merged_a = choose|merged: Seq<SlotView>| #[trigger]
        is_merged(merged, all_slots(after_a.world.devices@)) && {
            let findings = RaceFindings::of(merged, opposite);
            &&& after_a.trace@ == findings.traced(
                before_a.trace@,
                before_a.clock.current_time,
                order,
            )
            &&& findings.judged(outcome_a)
        };
    let merged_b = choose|merged: Seq<SlotView>| #[trigger]
        is_merged(merged, all_slots(after_b.world.devices@)) && {
            let findings = RaceFindings::of(merged, opposite);
            &&& after_b.trace@ == findings.traced(
                before_b.trace@,
                before_b.clock.current_time,
                order,
            )
            &&& findings.judged(outcome_b)
        };
    merged_is_unique(merged_a, merged_b, all_slots(after_a.world.devices@));
}

/// A race is defended exactly where the detector finds the three pairs and the one conflict of
/// three envelopes, and the same of the slots in reverse; a failure of the trace says what it
/// missed.
pub proof fn races_are_judged_by_what_was_found(
    findings: RaceFindings,
    before: TraceView,
    at: u64,
    order: Seq<[u8; 32]>,
    outcome: AgentOutcome,
)
    requires
        findings.judged(outcome),
        before.failure is None,
    ensures
        outcome is Defended <==> {
            &&& findings.pairs.len() == 3
            &&& findings.nway.len() == 1
            &&& findings.nway[0].message_ids.len() == 3
            &&& findings.pairs_rev == findings.pairs
            &&& findings.nway_rev == findings.nway
        },
        findings.traced(before, at, order).failure is None <==> outcome is Defended,
        outcome is InvariantViolation ==> findings.traced(before, at, order).failure == Some(
            outcome.summary(),
        ),
        findings.traced(before, at, order).events.len() == before.events.len() + 1,
{
}

/// Each id claims the slot, in the order in which they are given, and is listed in hexadecimal.
pub proof fn every_id_claims_the_slot(
    account: Seq<char>,
    sequence: i64,
    ids: Seq<[u8; 32]>,
    id: [u8; 32],
)
    ensures
        slots_for(account, sequence, ids).len() == ids.len(),
        slots_for(account, sequence, ids.push(id)) == slots_for(account, sequence, ids).push(
            SlotView { account, sequence, message_id: id },
        ),
        id_list(seq![id]) == hex_of(id@),
        ids.len() > 0 ==> id_list(ids.push(id)) == id_list(ids) + ","@ + hex_of(id@),
{
    assert(slots_for(account, sequence, ids.push(id)) =~= slots_for(account, sequence, ids).push(
        SlotView { account, sequence, message_id: id },
    ));
    assert(ids.push(id).drop_last() =~= ids);
}

} // verus!
