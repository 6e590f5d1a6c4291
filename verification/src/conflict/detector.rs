//! Structural detection of double spends: two different envelopes that claim the
//! same (account, sequence) slot can never both settle.
use crate::bytes::{
    bytes32_eq, bytes_lt, lex_lt, lex_lt_is_total, lex_lt_is_transitive, ordered_list_is_unique,
};
use crate::text::str_eq;
use vstd::prelude::*;
use vstd::utf8::{encode_utf8, encode_utf8_decode_utf8};

verus! {

/// One queued envelope and the slot it claims.
#[derive(Debug, Clone, PartialEq, Eq)]
pub struct QueuedSlot {
    pub source_account: String,
    pub sequence: i64,
    pub message_id: [u8; 32],
}

/// Two different envelopes on the same slot.
#[derive(Debug, Clone, PartialEq, Eq)]
pub struct Conflict {
    pub source_account: String,
    pub sequence: i64,
    pub envelope_a: [u8; 32],
    pub envelope_b: [u8; 32],
}

/// All envelopes of one contested slot, in ascending order.
#[derive(Debug, Clone, PartialEq, Eq)]
pub struct NWayConflict {
    pub source_account: String,
    pub sequence: i64,
    pub message_ids: Vec<[u8; 32]>,
}

/// A [`QueuedSlot`], with the account taken by its characters.
pub struct SlotView {
    pub account: Seq<char>,
    pub sequence: i64,
    pub message_id: [u8; 32],
}

/// A [`Conflict`], with the account taken by its characters.
pub struct ConflictView {
    pub account: Seq<char>,
    pub sequence: i64,
    pub envelope_a: [u8; 32],
    pub envelope_b: [u8; 32],
}

/// An [`NWayConflict`], with the account taken by its characters.
#[verifier::ext_equal]
pub struct NWayConflictView {
    pub account: Seq<char>,
    pub sequence: i64,
    pub message_ids: Seq<[u8; 32]>,
}

impl View for QueuedSlot {
    type V = SlotView;

    open spec fn view(&self) -> SlotView {
        SlotView {
            account: self.source_account@,
            sequence: self.sequence,
            message_id: self.message_id,
        }
    }
}

impl View for Conflict {
    type V = ConflictView;

    open spec fn view(&self) -> ConflictView {
        ConflictView {
            account: self.source_account@,
            sequence: self.sequence,
            envelope_a: self.envelope_a,
            envelope_b: self.envelope_b,
        }
    }
}

impl View for NWayConflict {
    type V = NWayConflictView;

    open spec fn view(&self) -> NWayConflictView {
        NWayConflictView {
            account: self.source_account@,
            sequence: self.sequence,
            message_ids: self.message_ids@,
        }
    }
}

impl SlotView {
    /// Both claim the same account and sequence.
    pub open spec fn same_slot(self, other: SlotView) -> bool {
        self.account == other.account && self.sequence == other.sequence
    }

    /// Both claim the same slot for different envelopes.
    pub open spec fn collides(self, other: SlotView) -> bool {
        self.same_slot(other) && self.message_id != other.message_id
    }

    /// Order by account, then sequence, then message id.
    pub open spec fn before(self, other: SlotView) -> bool {
        if self.account != other.account {
            lex_lt(encode_utf8(self.account), encode_utf8(other.account))
        } else if self.sequence != other.sequence {
            self.sequence < other.sequence
        } else {
            lex_lt(self.message_id@, other.message_id@)
        }
    }

    /// The conflict between two envelopes on one slot.
    pub open spec fn against(self, other: SlotView) -> ConflictView {
        ConflictView {
            account: self.account,
            sequence: self.sequence,
            envelope_a: self.message_id,
            envelope_b: other.message_id,
        }
    }
}

/// The views of a list of slots.
pub open spec fn slot_views(slots: Seq<QueuedSlot>) -> Seq<SlotView> {
    slots.map_values(|s: QueuedSlot| s@)
}

/// The views of a list of conflicts.
pub open spec fn conflict_views(list: Seq<Conflict>) -> Seq<ConflictView> {
    list.map_values(|c: Conflict| c@)
}

/// The views of a list of N-way conflicts.
pub open spec fn nway_views(list: Seq<NWayConflict>) -> Seq<NWayConflictView> {
    list.map_values(|c: NWayConflict| c@)
}

impl QueuedSlot {
    fn same_slot(&self, other: &QueuedSlot) -> (r: bool)
        ensures
            r == self@.same_slot(other@),
    {
        self.sequence == other.sequence && str_eq(
            self.source_account.as_str(),
            other.source_account.as_str(),
        )
    }

    fn before(&self, other: &QueuedSlot) -> (r: bool)
        ensures
            r == self@.before(other@),
    {
        if !str_eq(self.source_account.as_str(), other.source_account.as_str()) {
            bytes_lt(
                self.source_account.as_str().as_bytes(),
                other.source_account.as_str().as_bytes(),
            )
        } else if self.sequence != other.sequence {
            self.sequence < other.sequence
        } else {
            bytes_lt(self.message_id.as_slice(), other.message_id.as_slice())
        }
    }

    pub(crate) fn duplicate(&self) -> (r: QueuedSlot)
        ensures
            r@ == self@,
    {
        QueuedSlot {
            source_account: self.source_account.clone(),
            sequence: self.sequence,
            message_id: self.message_id,
        }
    }
}

/// The conflict between two slots: there is one when they claim the same
/// account and sequence for different envelopes.
pub fn conflicts_between(a: &QueuedSlot, b: &QueuedSlot) -> (r: Option<Conflict>)
    ensures
        r is Some <==> a@.collides(b@),
        r matches Some(c) ==> c@ == a@.against(b@),
{
    if a.same_slot(b) && !bytes32_eq(&a.message_id, &b.message_id) {
        Some(
            Conflict {
                source_account: a.source_account.clone(),
                sequence: a.sequence,
                envelope_a: a.message_id,
                envelope_b: b.message_id,
            },
        )
    } else {
        None
    }
}

// ---------------------------------------------------------------------------
// The canonical order of slots
// ---------------------------------------------------------------------------

proof fn lemma_before_is_total(a: SlotView, b: SlotView)
    ensures
        a == b || a.before(b) || b.before(a),
        !(a.before(b) && b.before(a)),
        !a.before(a),
{
    lex_lt_is_total(encode_utf8(a.account), encode_utf8(b.account));
    encode_utf8_decode_utf8(a.account);
    encode_utf8_decode_utf8(b.account);
    lex_lt_is_total(a.message_id@, b.message_id@);
    lex_lt_is_total(a.message_id@, a.message_id@);
    if a.message_id@ == b.message_id@ {
        assert(a.message_id =~= b.message_id);
    }
}

proof fn lemma_before_is_transitive(a: SlotView, b: SlotView, c: SlotView)
    requires
        a.before(b),
        b.before(c),
    ensures
        a.before(c),
{
    if a.account == b.account && b.account == c.account {
        if a.sequence == b.sequence && b.sequence == c.sequence {
            lex_lt_is_transitive(a.message_id@, b.message_id@, c.message_id@);
        }
    } else if a.account != b.account && b.account != c.account {
        lex_lt_is_transitive(
            encode_utf8(a.account),
            encode_utf8(b.account),
            encode_utf8(c.account),
        );
        lex_lt_is_total(encode_utf8(a.account), encode_utf8(c.account));
    }
}

/// Strictly ascending.
pub open spec fn ascending(list: Seq<SlotView>) -> bool {
    forall|i: int, j: int|
        0 <= i < j < list.len() ==> (#[trigger] list[i]).before(#[trigger] list[j])
}

/// `list` holds exactly the elements of `slots`, each once, in order.
pub open spec fn is_canonical(list: Seq<SlotView>, slots: Seq<SlotView>) -> bool {
    &&& ascending(list)
    &&& forall|s: SlotView| list.contains(s) <==> slots.contains(s)
}

/// There is only one ascending list of the same elements.
pub proof fn canonical_is_unique(a: Seq<SlotView>, b: Seq<SlotView>)
    requires
        ascending(a),
        ascending(b),
        forall|s: SlotView| a.contains(s) <==> b.contains(s),
    ensures
        a == b,
{
    let before = |s: SlotView, t: SlotView| s.before(t);
    assert forall|s: SlotView, t: SlotView| #[trigger] before(s, t) implies !before(t, s) by {
        lemma_before_is_total(s, t);
    }
    ordered_list_is_unique(a, b, before);
}

/// Put `slot` where it belongs in an ascending list, unless it is there.
fn insert_in_order(list: &mut Vec<QueuedSlot>, slot: &QueuedSlot)
    requires
        ascending(slot_views(old(list)@)),
    ensures
        ascending(slot_views(final(list)@)),
        forall|s: SlotView|
            slot_views(final(list)@).contains(s) <==> slot_views(old(list)@).contains(s) || s
                == slot@,
{
    let ghost before = slot_views(list@);
    let mut at: usize = 0;
    while at < list.len() && list[at].before(slot)
        invariant
            at <= list.len(),
            before == slot_views(list@),
            list@ == old(list)@,
            forall|k: int| 0 <= k < at ==> (#[trigger] before[k]).before(slot@),
        decreases list.len() - at,
    {
        assert(before[at as int] == list[at as int]@);
        at += 1;
    }
    if at < list.len() && !slot.before(&list[at]) {
        proof {
            assert(before[at as int] == list[at as int]@);
            lemma_before_is_total(before[at as int], slot@);
            assert(before.contains(slot@));
        }
        return ;
    }
    list.insert(at, slot.duplicate());
    proof {
        let after = slot_views(list@);
        assert(after =~= before.insert(at as int, slot@));
        assert forall|i: int, j: int| 0 <= i < j < after.len() implies (#[trigger] after[i]).before(
            #[trigger] after[j],
        ) by {
            if i < at {
                if j < at {
                    assert(before[i].before(before[j]));
                } else if j > at {
                    assert(before[i].before(before[j - 1]));
                }
            } else if i > at {
                assert(before[i - 1].before(before[j - 1]));
            } else {
                assert(slot@.before(before[at as int]));
                if j - 1 > at {
                    assert(before[at as int].before(before[j - 1]));
                    lemma_before_is_transitive(slot@, before[at as int], before[j - 1]);
                }
            }
        }
        assert forall|s: SlotView| after.contains(s) <==> before.contains(s) || s == slot@ by {
            if after.contains(s) {
                let k = choose|k: int| 0 <= k < after.len() && after[k] == s;
                if k < at {
                    assert(before[k] == s);
                } else if k > at {
                    assert(before[k - 1] == s);
                }
            }
            if before.contains(s) {
                let k = choose|k: int| 0 <= k < before.len() && before[k] == s;
                if k < at {
                    assert(after[k] == s);
                } else {
                    assert(after[k + 1] == s);
                }
            }
            assert(after[at as int] == slot@);
        }
    }
}

/// The distinct slots of a list, in canonical order.
fn canonical_slots(slots: &[QueuedSlot]) -> (list: Vec<QueuedSlot>)
    ensures
        is_canonical(slot_views(list@), slot_views(slots@)),
{
    let mut list: Vec<QueuedSlot> = Vec::new();
    let mut i: usize = 0;
    while i < slots.len()
        invariant
            i <= slots.len(),
            is_canonical(slot_views(list@), slot_views(slots@.subrange(0, i as int))),
        decreases slots.len() - i,
    {
        let ghost upto = slot_views(slots@.subrange(0, i as int));
        let ghost next = slot_views(slots@.subrange(0, i + 1));
        insert_in_order(&mut list, &slots[i]);
        proof {
            assert(next =~= upto.push(slots[i as int]@));
            assert forall|s: SlotView| next.contains(s) <==> upto.contains(s) || s
                == slots[i as int]@ by {
                if next.contains(s) {
                    let k = choose|k: int| 0 <= k < next.len() && next[k] == s;
                    if k < upto.len() {
                        assert(upto[k] == s);
                    }
                }
                if upto.contains(s) {
                    let k = choose|k: int| 0 <= k < upto.len() && upto[k] == s;
                    assert(next[k] == s);
                }
                assert(next[i as int] == slots[i as int]@);
            }
        }
        i += 1;
    }
    assert(slots@.subrange(0, i as int) =~= slots@);
    list
}

/// The list with `slot` put where it belongs, unless it is there.
pub open spec fn with_slot(list: Seq<SlotView>, slot: SlotView) -> Seq<SlotView>
    decreases list.len(),
{
    if list.len() == 0 {
        seq![slot]
    } else if list.last() == slot {
        list
    } else if list.last().before(slot) {
        list.push(slot)
    } else {
        with_slot(list.drop_last(), slot).push(list.last())
    }
}

/// The distinct slots of a list, ordered by account, sequence and message id.
pub open spec fn canonical(slots: Seq<SlotView>) -> Seq<SlotView>
    decreases slots.len(),
{
    if slots.len() == 0 {
        Seq::empty()
    } else {
        with_slot(canonical(slots.drop_last()), slots.last())
    }
}

proof fn lemma_with_slot(list: Seq<SlotView>, slot: SlotView)
    requires
        ascending(list),
    ensures
        ascending(with_slot(list, slot)),
        forall|s: SlotView| #[trigger]
            with_slot(list, slot).contains(s) <==> list.contains(s) || s == slot,
    decreases list.len(),
{
    let after = with_slot(list, slot);
    if list.len() == 0 {
        assert(after[0] == slot);
        assert forall|s: SlotView| after.contains(s) <==> list.contains(s) || s == slot by {
            if s == slot {
                assert(after[0] == s);
            }
        }
    } else if list.last() == slot {
        assert(list[list.len() - 1] == slot);
    } else {
        let last = list.last();
        let shorter = list.drop_last();
        assert(ascending(shorter)) by {
            assert forall|i: int, j: int| 0 <= i < j < shorter.len() implies (
            #[trigger] shorter[i]).before(#[trigger] shorter[j]) by {
                assert(list[i].before(list[j]));
            }
        }
        assert(forall|k: int| 0 <= k < shorter.len() ==> #[trigger] shorter[k] == list[k]);
        lemma_before_is_total(last, slot);
        let front = if last.before(slot) {
            list
        } else {
            with_slot(shorter, slot)
        };
        let end = if last.before(slot) {
            slot
        } else {
            last
        };
        if !last.before(slot) {
            lemma_with_slot(shorter, slot);
        }
        assert(after == front.push(end));
        assert forall|i: int| 0 <= i < front.len() implies (#[trigger] front[i]).before(end) by {
            assert(front.contains(front[i]));
            if last.before(slot) {
                if i < list.len() - 1 {
                    assert(list[i].before(list[list.len() - 1]));
                    lemma_before_is_transitive(list[i], last, slot);
                }
            } else if front[i] != slot {
                assert(shorter.contains(front[i]));
                let k = choose|k: int| 0 <= k < shorter.len() && shorter[k] == front[i];
                assert(list[k].before(list[list.len() - 1]));
            }
        }
        assert forall|i: int, j: int| 0 <= i < j < after.len() implies (#[trigger] after[i]).before(
            #[trigger] after[j],
        ) by {
            if j < front.len() {
                assert(front[i].before(front[j]));
            } else {
                assert(front[i].before(end));
            }
        }
        assert forall|s: SlotView| after.contains(s) <==> list.contains(s) || s == slot by {
            if after.contains(s) {
                let k = choose|k: int| 0 <= k < after.len() && after[k] == s;
                if k < front.len() {
                    assert(front.contains(s)) by {
                        assert(front[k] == s);
                    }
                    if !last.before(slot) && s != slot {
                        assert(with_slot(shorter, slot).contains(s));
                        assert(shorter.contains(s));
                        let m = choose|m: int| 0 <= m < shorter.len() && shorter[m] == s;
                        assert(list[m] == s);
                    }
                } else {
                    assert(list[list.len() - 1] == last);
                    assert(list.contains(last));
                }
            }
            if list.contains(s) {
                let k = choose|k: int| 0 <= k < list.len() && list[k] == s;
                if last.before(slot) {
                    assert(after[k] == s);
                } else if k < list.len() - 1 {
                    assert(shorter[k] == s);
                    assert(shorter.contains(s));
                    assert(with_slot(shorter, slot).contains(s));
                    assert(front.contains(s));
                    let m = choose|m: int| 0 <= m < front.len() && front[m] == s;
                    assert(after[m] == s);
                } else {
                    assert(after[front.len() as int] == s);
                }
            }
            if s == slot {
                if last.before(slot) {
                    assert(after[front.len() as int] == slot);
                } else {
                    assert(with_slot(shorter, slot).contains(slot));
                    assert(front.contains(slot));
                    let m = choose|m: int| 0 <= m < front.len() && front[m] == slot;
                    assert(after[m] == slot);
                }
            }
        }
    }
}

/// The canonical list is strictly ascending and holds what the list holds.
pub proof fn canonical_is_canonical(slots: Seq<SlotView>)
    ensures
        is_canonical(canonical(slots), slots),
    decreases slots.len(),
{
    if slots.len() > 0 {
        let shorter = slots.drop_last();
        canonical_is_canonical(shorter);
        lemma_with_slot(canonical(shorter), slots.last());
        assert forall|s: SlotView| slots.contains(s) <==> shorter.contains(s) || s
            == slots.last() by {
            if slots.contains(s) {
                let k = choose|k: int| 0 <= k < slots.len() && slots[k] == s;
                if k < shorter.len() {
                    assert(shorter[k] == s);
                }
            }
            if shorter.contains(s) {
                let k = choose|k: int| 0 <= k < shorter.len() && shorter[k] == s;
                assert(slots[k] == s);
            }
            assert(slots[slots.len() - 1] == slots.last());
        }
    } else {
        assert(forall|s: SlotView| !slots.contains(s));
    }
}

// ---------------------------------------------------------------------------
// Pairwise conflicts
// ---------------------------------------------------------------------------

/// The conflicts of entry `i` with the entries after it and before `j`.
pub open spec fn row(list: Seq<SlotView>, i: int, j: int) -> Seq<ConflictView>
    decreases j - i,
{
    if j <= i + 1 {
        Seq::empty()
    } else if list[i].collides(list[j - 1]) {
        row(list, i, j - 1).push(list[i].against(list[j - 1]))
    } else {
        row(list, i, j - 1)
    }
}

/// The conflicts of the first `n` entries with the entries after them.
pub open spec fn rows(list: Seq<SlotView>, n: int) -> Seq<ConflictView>
    decreases n,
{
    if n <= 0 {
        Seq::empty()
    } else {
        rows(list, n - 1) + row(list, n - 1, list.len() as int)
    }
}

/// Every colliding pair of a list of slots, in canonical order.
pub open spec fn colliding_pairs(slots: Seq<SlotView>) -> Seq<ConflictView> {
    rows(canonical(slots), canonical(slots).len() as int)
}

/// All pairwise conflicts among `slots`. The order of the result does not
/// depend on the order of `slots`.
pub fn detect_conflicts(slots: &[QueuedSlot]) -> (r: Vec<Conflict>)
    ensures
        conflict_views(r@) == colliding_pairs(slot_views(slots@)),
{
    let list = canonical_slots(slots);
    let ghost views = slot_views(list@);
    proof {
        canonical_is_canonical(slot_views(slots@));
        canonical_is_unique(views, canonical(slot_views(slots@)));
    }
    let mut out: Vec<Conflict> = Vec::new();
    let mut i: usize = 0;
    assert(conflict_views(out@) =~= rows(views, 0));
    while i < list.len()
        invariant
            i <= list.len(),
            views == slot_views(list@),
            conflict_views(out@) == rows(views, i as int),
        decreases list.len() - i,
    {
        let mut j: usize = i + 1;
        assert(conflict_views(out@) =~= rows(views, i as int) + row(views, i as int, j as int));
        while j < list.len()
            invariant
                i < j <= list.len(),
                views == slot_views(list@),
                conflict_views(out@) == rows(views, i as int) + row(views, i as int, j as int),
            decreases list.len() - j,
        {
            assert(views[i as int] == list[i as int]@ && views[j as int] == list[j as int]@);
            let ghost before = out@;
            match conflicts_between(&list[i], &list[j]) {
                Some(conflict) => {
                    out.push(conflict);
                    assert(conflict_views(out@) =~= conflict_views(before).push(conflict@));
                },
                None => {},
            }
            j += 1;
            assert(conflict_views(out@) =~= rows(views, i as int) + row(views, i as int, j as int));
        }
        i += 1;
    }
    out
}

proof fn lemma_row_members(list: Seq<SlotView>, i: int, j: int, c: ConflictView)
    requires
        0 <= i < list.len(),
        j <= list.len(),
    ensures
        row(list, i, j).contains(c) <==> exists|k: int|
            i < k < j && list[i].collides(#[trigger] list[k]) && c == list[i].against(list[k]),
    decreases j - i,
{
    let r = row(list, i, j);
    if j > i + 1 {
        let shorter = row(list, i, j - 1);
        lemma_row_members(list, i, j - 1, c);
        if r.contains(c) {
            let m = choose|m: int| 0 <= m < r.len() && r[m] == c;
            if m < shorter.len() {
                assert(shorter[m] == c);
                assert(shorter.contains(c));
            } else {
                assert(list[i].collides(list[j - 1]) && c == list[i].against(list[j - 1]));
            }
        }
        if shorter.contains(c) {
            let m = choose|m: int| 0 <= m < shorter.len() && shorter[m] == c;
            assert(r[m] == c);
        }
        if exists|k: int|
            i < k < j && list[i].collides(#[trigger] list[k]) && c == list[i].against(list[k]) {
            let k = choose|k: int|
                i < k < j && list[i].collides(#[trigger] list[k]) && c == list[i].against(list[k]);
            if k == j - 1 {
                assert(r[r.len() - 1] == c);
            } else {
                assert(shorter.contains(c));
            }
        }
    }
}

proof fn lemma_rows_members(list: Seq<SlotView>, n: int, c: ConflictView)
    requires
        0 <= n <= list.len(),
    ensures
        rows(list, n).contains(c) <==> exists|i: int, k: int|
            0 <= i < n && i < k < list.len() && (#[trigger] list[i]).collides(#[trigger] list[k])
                && c == list[i].against(list[k]),
    decreases n,
{
    if n > 0 {
        let front = rows(list, n - 1);
        let back = row(list, n - 1, list.len() as int);
        let all = rows(list, n);
        lemma_rows_members(list, n - 1, c);
        lemma_row_members(list, n - 1, list.len() as int, c);
        if all.contains(c) {
            let m = choose|m: int| 0 <= m < all.len() && all[m] == c;
            if m < front.len() {
                assert(front[m] == c);
                assert(front.contains(c));
            } else {
                assert(back[m - front.len()] == c);
                assert(back.contains(c));
            }
        }
        if front.contains(c) {
            let m = choose|m: int| 0 <= m < front.len() && front[m] == c;
            assert(all[m] == c);
        }
        if back.contains(c) {
            let m = choose|m: int| 0 <= m < back.len() && back[m] == c;
            assert(all[front.len() + m] == c);
        }
        if exists|i: int, k: int|
            0 <= i < n && i < k < list.len() && (#[trigger] list[i]).collides(#[trigger] list[k])
                && c == list[i].against(list[k]) {
            let (i, k) = choose|i: int, k: int|
                0 <= i < n && i < k < list.len() && (#[trigger] list[i]).collides(
                    #[trigger] list[k],
                ) && c == list[i].against(list[k]);
            if i == n - 1 {
                assert(back.contains(c));
            } else {
                assert(front.contains(c));
            }
        }
    }
}

/// Every reported conflict is between two queued slots that share account and
/// sequence and differ in the message id.
pub proof fn detection_is_sound(slots: Seq<SlotView>, c: ConflictView)
    requires
        colliding_pairs(slots).contains(c),
    ensures
        exists|s: SlotView, t: SlotView|
            slots.contains(s) && slots.contains(t) && #[trigger] s.collides(t) && c == s.against(t),
{
    let list = canonical(slots);
    canonical_is_canonical(slots);
    lemma_rows_members(list, list.len() as int, c);
    let (i, k) = choose|i: int, k: int|
        0 <= i < list.len() && i < k < list.len() && (#[trigger] list[i]).collides(
            #[trigger] list[k],
        ) && c == list[i].against(list[k]);
    assert(list.contains(list[i]) && list.contains(list[k]));
    assert(list[i].collides(list[k]));
}

/// No colliding pair is missed: it is reported, with the smaller message id
/// first.
pub proof fn detection_is_complete(slots: Seq<SlotView>, s: SlotView, t: SlotView)
    requires
        slots.contains(s),
        slots.contains(t),
        s.collides(t),
    ensures
        colliding_pairs(slots).contains(s.against(t)) || colliding_pairs(slots).contains(
            t.against(s),
        ),
        lex_lt(s.message_id@, t.message_id@) ==> colliding_pairs(slots).contains(s.against(t)),
{
    let list = canonical(slots);
    canonical_is_canonical(slots);
    assert(list.contains(s) && list.contains(t));
    let i = choose|i: int| 0 <= i < list.len() && list[i] == s;
    let k = choose|k: int| 0 <= k < list.len() && list[k] == t;
    if i < k {
        lemma_rows_members(list, list.len() as int, s.against(t));
        assert(list[i].collides(list[k]));
    } else {
        lemma_rows_members(list, list.len() as int, t.against(s));
        assert(list[k].collides(list[i]));
        assert(list[k].before(list[i]));
        lex_lt_is_total(s.message_id@, t.message_id@);
    }
}

proof fn lemma_row_distinct(list: Seq<SlotView>, i: int, j: int)
    requires
        ascending(list),
        0 <= i < list.len(),
        j <= list.len(),
    ensures
        row(list, i, j).no_duplicates(),
    decreases j - i,
{
    if j > i + 1 {
        lemma_row_distinct(list, i, j - 1);
        if list[i].collides(list[j - 1]) {
            let c = list[i].against(list[j - 1]);
            lemma_row_members(list, i, j - 1, c);
            assert(!row(list, i, j - 1).contains(c)) by {
                if row(list, i, j - 1).contains(c) {
                    let k = choose|k: int|
                        i < k < j - 1 && list[i].collides(#[trigger] list[k])
                            && c == list[i].against(list[k]);
                    assert(list[k].before(list[j - 1]));
                    lemma_before_is_total(list[k], list[j - 1]);
                    assert(list[k] == list[j - 1]);
                }
            }
        }
    }
}

proof fn lemma_rows_distinct(list: Seq<SlotView>, n: int)
    requires
        ascending(list),
        0 <= n <= list.len(),
    ensures
        rows(list, n).no_duplicates(),
    decreases n,
{
    if n > 0 {
        let front = rows(list, n - 1);
        let back = row(list, n - 1, list.len() as int);
        lemma_rows_distinct(list, n - 1);
        lemma_row_distinct(list, n - 1, list.len() as int);
        let all = rows(list, n);
        assert forall|x: int, y: int| 0 <= x < y < all.len() implies all[x] != all[y] by {
            if x < front.len() && y >= front.len() {
                let c = all[x];
                if all[y] == c {
                    assert(front[x] == c && front.contains(c));
                    assert(back[y - front.len()] == c && back.contains(c));
                    lemma_rows_members(list, n - 1, c);
                    lemma_row_members(list, n - 1, list.len() as int, c);
                    let (i, k) = choose|i: int, k: int|
                        0 <= i < n - 1 && i < k < list.len() && (#[trigger] list[i]).collides(
                            #[trigger] list[k],
                        ) && c == list[i].against(list[k]);
                    assert(list[i].before(list[n - 1]));
                    lemma_before_is_total(list[i], list[n - 1]);
                    assert(list[i] == list[n - 1]);
                }
            } else if x >= front.len() {
                assert(back[x - front.len()] != back[y - front.len()]);
            }
        }
    }
}

/// No conflict is reported twice.
pub proof fn detection_reports_each_pair_once(slots: Seq<SlotView>)
    ensures
        colliding_pairs(slots).no_duplicates(),
{
    canonical_is_canonical(slots);
    lemma_rows_distinct(canonical(slots), canonical(slots).len() as int);
}

/// Detection does not depend on the order in which slots are listed, nor on how
/// often one is.
pub proof fn detection_ignores_order(a: Seq<SlotView>, b: Seq<SlotView>)
    requires
        forall|s: SlotView| a.contains(s) <==> b.contains(s),
    ensures
        colliding_pairs(a) == colliding_pairs(b),
        contested_slots(a) == contested_slots(b),
{
    canonical_is_canonical(a);
    canonical_is_canonical(b);
    canonical_is_unique(canonical(a), canonical(b));
}

// ---------------------------------------------------------------------------
// N-way conflicts
// ---------------------------------------------------------------------------

/// The first `n` entries of a canonical list, grouped by slot.
pub open spec fn groups(list: Seq<SlotView>, n: int) -> Seq<NWayConflictView>
    decreases n,
{
    if n <= 0 {
        Seq::empty()
    } else {
        let front = groups(list, n - 1);
        let slot = list[n - 1];
        if front.len() > 0 && front.last().account == slot.account && front.last().sequence
            == slot.sequence {
            front.drop_last().push(
                NWayConflictView {
                    account: slot.account,
                    sequence: slot.sequence,
                    message_ids: front.last().message_ids.push(slot.message_id),
                },
            )
        } else {
            front.push(
                NWayConflictView {
                    account: slot.account,
                    sequence: slot.sequence,
                    message_ids: seq![slot.message_id],
                },
            )
        }
    }
}

/// The groups of two or more.
pub open spec fn contested(list: Seq<NWayConflictView>) -> Seq<NWayConflictView>
    decreases list.len(),
{
    if list.len() == 0 {
        Seq::empty()
    } else if list.last().message_ids.len() >= 2 {
        contested(list.drop_last()).push(list.last())
    } else {
        contested(list.drop_last())
    }
}

/// Every contested slot with all its envelopes, in canonical order.
pub open spec fn contested_slots(slots: Seq<SlotView>) -> Seq<NWayConflictView> {
    contested(groups(canonical(slots), canonical(slots).len() as int))
}

/// All contested slots among `slots`, each with every envelope that claims it.
/// The order of the result does not depend on the order of `slots`.
pub fn detect_nway_conflicts(slots: &[QueuedSlot]) -> (r: Vec<NWayConflict>)
    ensures
        nway_views(r@) == contested_slots(slot_views(slots@)),
{
    let list = canonical_slots(slots);
    let ghost views = slot_views(list@);
    proof {
        canonical_is_canonical(slot_views(slots@));
        canonical_is_unique(views, canonical(slot_views(slots@)));
    }
    let mut all: Vec<NWayConflict> = Vec::new();
    let mut i: usize = 0;
    assert(nway_views(all@) =~= groups(views, 0));
    while i < list.len()
        invariant
            i <= list.len(),
            views == slot_views(list@),
            nway_views(all@) == groups(views, i as int),
        decreases list.len() - i,
    {
        let ghost front = groups(views, i as int);
        let ghost before = all@;
        assert(views[i as int] == list[i as int]@);
        let slot = &list[i];
        let mut message_ids: Vec<[u8; 32]> = Vec::new();
        if all.len() > 0 {
            assert(front.last() == all[all.len() - 1]@);
            let last = &all[all.len() - 1];
            if last.sequence == slot.sequence && str_eq(
                last.source_account.as_str(),
                slot.source_account.as_str(),
            ) {
                let group = all.pop().unwrap();
                message_ids = group.message_ids;
                assert(nway_views(all@) =~= front.drop_last());
            }
        }
        let ghost rest = all@;
        message_ids.push(slot.message_id);
        all.push(
            NWayConflict {
                source_account: slot.source_account.clone(),
                sequence: slot.sequence,
                message_ids,
            },
        );
        i += 1;
        proof {
            assert(nway_views(all@) =~= nway_views(rest).push(all@.last()@));
            assert(all@.last()@ =~= groups(views, i as int).last());
            assert(nway_views(all@) =~= groups(views, i as int));
        }
    }
    let mut out: Vec<NWayConflict> = Vec::new();
    let ghost whole = all@;
    for group in iter: all
        invariant
            iter.seq() == whole,
            nway_views(out@) == contested(nway_views(whole).subrange(0, iter.index())),
    {
        let ghost upto = nway_views(whole).subrange(0, iter.index() + 1);
        assert(upto.drop_last() =~= nway_views(whole).subrange(0, iter.index()));
        assert(upto.last() == group@);
        let ghost before = out@;
        if group.message_ids.len() >= 2 {
            out.push(group);
            assert(nway_views(out@) =~= nway_views(before).push(group@));
        }
    }
    assert(nway_views(whole).subrange(0, whole.len() as int) =~= nway_views(whole));
    out
}

/// The group is that of the slot.
spec fn group_of(c: NWayConflictView, s: SlotView) -> bool {
    c.account == s.account && c.sequence == s.sequence
}

/// The slot of a group's member.
pub open spec fn member_slot(c: NWayConflictView, id: [u8; 32]) -> SlotView {
    SlotView { account: c.account, sequence: c.sequence, message_id: id }
}

/// The groups of an ascending list hold its entries, each in one group, and no two
/// groups are of the same slot.
proof fn lemma_groups(list: Seq<SlotView>, n: int)
    requires
        ascending(list),
        0 <= n <= list.len(),
    ensures
        n > 0 ==> groups(list, n).len() > 0 && group_of(groups(list, n).last(), list[n - 1]),
        forall|k: int, id: [u8; 32]|
            0 <= k < groups(list, n).len() && #[trigger] groups(list, n)[k].message_ids.contains(id)
                ==> list.subrange(0, n).contains(member_slot(groups(list, n)[k], id)),
        forall|i: int|
            0 <= i < n ==> exists|k: int|
                0 <= k < groups(list, n).len() && group_of(
                    #[trigger] groups(list, n)[k],
                    #[trigger] list[i],
                ) && groups(list, n)[k].message_ids.contains(list[i].message_id),
        forall|k: int|
            0 <= k < groups(list, n).len() ==> (#[trigger] groups(list, n)[k]).message_ids.len() > 0
                && groups(list, n)[k].message_ids.no_duplicates(),
        forall|k: int, m: int|
            0 <= k < m < groups(list, n).len() ==> (#[trigger] groups(list, n)[k]).account != (
            #[trigger] groups(list, n)[m]).account || groups(list, n)[k].sequence != groups(
                list,
                n,
            )[m].sequence,
    decreases n,
{
    if n > 0 {
        lemma_groups(list, n - 1);
        let front = groups(list, n - 1);
        let all = groups(list, n);
        let slot = list[n - 1];
        let before = list.subrange(0, n - 1);
        let upto = list.subrange(0, n);
        assert(upto =~= before.push(slot));
        assert forall|s: SlotView| before.contains(s) implies #[trigger] upto.contains(s) by {
            let i = choose|i: int| 0 <= i < before.len() && before[i] == s;
            assert(upto[i] == s);
        }
        assert(upto[n - 1] == slot);
        assert(upto.contains(slot));
        let joins = front.len() > 0 && group_of(front.last(), slot);
        let last = all.len() - 1;
        // The entries before this one come before it in the order.
        assert forall|k: int| 0 <= k < front.len() && group_of(
            #[trigger] front[k],
            slot,
        ) implies joins && k == front.len() - 1 by {
            // The group of the previous entry lies between this group and the slot.
            let id = front[k].message_ids[0];
            assert(front[k].message_ids.contains(id));
            assert(before.contains(member_slot(front[k], id)));
            let i = choose|i: int| 0 <= i < before.len() && before[i] == member_slot(front[k], id);
            let previous = list[n - 2];
            assert(n >= 2);
            assert(group_of(front.last(), previous));
            assert(list[i] == member_slot(front[k], id));
            assert(list[n - 2].before(list[n - 1]));
            if i < n - 2 {
                assert(list[i].before(list[n - 2]));
            }
            lemma_between(list[i], previous, slot);
            if k < front.len() - 1 {
                assert(front[k].account != front[front.len() - 1].account || front[k].sequence
                    != front[front.len() - 1].sequence);
            }
        }
        if joins {
            let grown = all[last];
            assert(all =~= front.drop_last().push(grown));
            assert(grown.message_ids =~= front.last().message_ids.push(slot.message_id));
            assert(!front.last().message_ids.contains(slot.message_id)) by {
                if front.last().message_ids.contains(slot.message_id) {
                    assert(front[front.len() - 1].message_ids.contains(slot.message_id));
                    assert(before.contains(member_slot(front.last(), slot.message_id)));
                    let i = choose|i: int|
                        0 <= i < before.len() && before[i] == member_slot(
                            front.last(),
                            slot.message_id,
                        );
                    assert(list[i].before(list[n - 1]));
                    lemma_before_is_total(slot, slot);
                }
            }
            assert(grown.message_ids.contains(slot.message_id)) by {
                assert(grown.message_ids[grown.message_ids.len() - 1] == slot.message_id);
            }
            assert(front[front.len() - 1].message_ids.no_duplicates());
            assert(grown.message_ids.no_duplicates());
        } else {
            assert(all[last].message_ids =~= seq![slot.message_id]);
            assert(all[last].message_ids[0] == slot.message_id);
            assert(all[last].message_ids.contains(slot.message_id));
        }
        assert forall|k: int, id: [u8; 32]|
            0 <= k < all.len() && #[trigger] all[k].message_ids.contains(
                id,
            ) implies list.subrange(0, n).contains(member_slot(all[k], id)) by {
            if k < last || (joins && id != slot.message_id) {
                if k == last {
                    let m = choose|m: int|
                        0 <= m < all[k].message_ids.len() && all[k].message_ids[m] == id;
                    assert(front.last().message_ids[m] == id);
                }
                assert(front[k].message_ids.contains(id));
                assert(before.contains(member_slot(front[k], id)));
            } else {
                let m = choose|m: int|
                    0 <= m < all[k].message_ids.len() && all[k].message_ids[m] == id;
                assert(member_slot(all[k], id) == slot);
            }
        }
        assert forall|i: int| 0 <= i < n implies exists|k: int|
            0 <= k < all.len() && group_of(#[trigger] all[k], #[trigger] list[i])
                && all[k].message_ids.contains(list[i].message_id) by {
            if i == n - 1 {
                assert(group_of(all[last], list[i]));
            } else {
                let k = choose|k: int|
                    0 <= k < front.len() && group_of(#[trigger] front[k], list[i])
                        && front[k].message_ids.contains(list[i].message_id);
                if joins && k == front.len() - 1 {
                    let m = choose|m: int|
                        0 <= m < front[k].message_ids.len() && front[k].message_ids[m]
                            == list[i].message_id;
                    assert(all[k].message_ids[m] == list[i].message_id);
                }
                assert(group_of(all[k], list[i]) && all[k].message_ids.contains(
                    list[i].message_id,
                ));
            }
        }
        assert forall|k: int| 0 <= k < all.len() implies (#[trigger] all[k]).message_ids.len() > 0
            && all[k].message_ids.no_duplicates() by {
            if k < last {
                assert(front[k].message_ids.no_duplicates());
            }
        }
        assert forall|k: int, m: int| 0 <= k < m < all.len() implies (#[trigger] all[k]).account
            != (#[trigger] all[m]).account || all[k].sequence != all[m].sequence by {
            if m < last {
                assert(front[k].account != front[m].account || front[k].sequence
                    != front[m].sequence);
            } else {
                assert(all[k] == front[k]);
                assert(!group_of(front[k], slot));
            }
        }
    }
}

/// What lies between two entries of one slot is of that slot too.
proof fn lemma_between(a: SlotView, b: SlotView, c: SlotView)
    requires
        a == b || a.before(b),
        b.before(c),
        a.account == c.account,
        a.sequence == c.sequence,
    ensures
        b.account == c.account,
        b.sequence == c.sequence,
{
    if b.account != c.account {
        lex_lt_is_total(encode_utf8(a.account), encode_utf8(b.account));
    }
}

proof fn lemma_contested(list: Seq<NWayConflictView>, c: NWayConflictView)
    ensures
        contested(list).contains(c) <==> list.contains(c) && c.message_ids.len() >= 2,
    decreases list.len(),
{
    if list.len() == 0 {
        assert(!contested(list).contains(c));
    } else {
        let front = list.drop_last();
        lemma_contested(front, c);
        let all = contested(list);
        if all.contains(c) {
            let i = choose|i: int| 0 <= i < all.len() && all[i] == c;
            if i < contested(front).len() {
                assert(contested(front)[i] == c);
                assert(front.contains(c));
                let k = choose|k: int| 0 <= k < front.len() && front[k] == c;
                assert(list[k] == c);
            } else {
                assert(list[list.len() - 1] == c);
            }
        }
        if list.contains(c) && c.message_ids.len() >= 2 {
            let k = choose|k: int| 0 <= k < list.len() && list[k] == c;
            if k < front.len() {
                assert(front[k] == c);
                assert(contested(front).contains(c));
                let i = choose|i: int|
                    0 <= i < contested(front).len() && contested(front)[i] == c;
                assert(all[i] == c);
            } else {
                assert(all[contested(front).len() as int] == c);
            }
        }
    }
}

/// An N-way conflict names envelopes that really claim its slot, at least two of them,
/// each once.
pub proof fn nway_detection_is_sound(
    slots: Seq<SlotView>,
    c: NWayConflictView,
    id: [u8; 32],
)
    requires
        contested_slots(slots).contains(c),
    ensures
        c.message_ids.len() >= 2,
        c.message_ids.no_duplicates(),
        c.message_ids.contains(id) ==> slots.contains(member_slot(c, id)),
{
    let list = canonical(slots);
    canonical_is_canonical(slots);
    let all = groups(list, list.len() as int);
    lemma_groups(list, list.len() as int);
    lemma_contested(all, c);
    let k = choose|k: int| 0 <= k < all.len() && all[k] == c;
    assert(all[k].message_ids.no_duplicates());
    assert(list.subrange(0, list.len() as int) =~= list);
    if c.message_ids.contains(id) {
        assert(all[k].message_ids.contains(id));
        assert(list.contains(member_slot(c, id)));
    }
}

/// Two envelopes that collide are both named by an N-way conflict of their slot, and
/// every other N-way conflict is of another slot.
pub proof fn nway_detection_is_complete(slots: Seq<SlotView>, s: SlotView, t: SlotView) -> (c:
    NWayConflictView)
    requires
        slots.contains(s),
        slots.contains(t),
        s.collides(t),
    ensures
        contested_slots(slots).contains(c),
        c.account == s.account,
        c.sequence == s.sequence,
        c.message_ids.contains(s.message_id),
        c.message_ids.contains(t.message_id),
        forall|d: NWayConflictView| #[trigger]
            contested_slots(slots).contains(d) && d.account == s.account && d.sequence == s.sequence
                ==> d == c,
{
    let list = canonical(slots);
    canonical_is_canonical(slots);
    let all = groups(list, list.len() as int);
    lemma_groups(list, list.len() as int);
    assert(list.contains(s) && list.contains(t));
    let i = choose|i: int| 0 <= i < list.len() && list[i] == s;
    let j = choose|j: int| 0 <= j < list.len() && list[j] == t;
    let k = choose|k: int|
        0 <= k < all.len() && group_of(#[trigger] all[k], list[i])
            && all[k].message_ids.contains(list[i].message_id);
    let m = choose|m: int|
        0 <= m < all.len() && group_of(#[trigger] all[m], list[j])
            && all[m].message_ids.contains(list[j].message_id);
    if k < m {
        assert(all[k].account != all[m].account || all[k].sequence != all[m].sequence);
    } else if m < k {
        assert(all[m].account != all[k].account || all[m].sequence != all[k].sequence);
    }
    let c = all[k];
    let x = choose|x: int| 0 <= x < c.message_ids.len() && c.message_ids[x] == s.message_id;
    let y = choose|y: int| 0 <= y < c.message_ids.len() && c.message_ids[y] == t.message_id;
    assert(x != y);
    assert(all[k] == c);
    assert(all.contains(c));
    lemma_contested(all, c);
    assert forall|d: NWayConflictView| #[trigger]
        contested_slots(slots).contains(d) && d.account == s.account && d.sequence
            == s.sequence implies d == c by {
        lemma_contested(all, d);
        let n = choose|n: int| 0 <= n < all.len() && all[n] == d;
        if n < k {
            assert(all[n].account != all[k].account || all[n].sequence != all[k].sequence);
        } else if k < n {
            assert(all[k].account != all[n].account || all[k].sequence != all[n].sequence);
        }
    }
    c
}

// ---------------------------------------------------------------------------
// What is reported
// ---------------------------------------------------------------------------

/// Two slots are in conflict exactly where they name the same account and the same sequence
/// for different envelopes, and the conflict names that slot and the two envelopes.
pub proof fn conflicts_are_rival_claims(s: QueuedSlot, t: QueuedSlot, c: Conflict)
    ensures
        s@.collides(t@) <==> s.source_account@ == t.source_account@ && s.sequence == t.sequence
            && s.message_id != t.message_id,
        c@ == s@.against(t@) <==> c.source_account@ == s.source_account@ && c.sequence
            == s.sequence && c.envelope_a == s.message_id && c.envelope_b == t.message_id,
{
}

/// A pair is reported exactly where both its envelopes claim its slot, and with the smaller
/// id first. So every two envelopes that claim one slot are reported, and nothing else is.
pub proof fn reported_pairs_are_the_rival_claims(slots: Seq<SlotView>, c: ConflictView)
    ensures
        colliding_pairs(slots).contains(c) <==> {
            &&& slots.contains(
                SlotView { account: c.account, sequence: c.sequence, message_id: c.envelope_a },
            )
            &&& slots.contains(
                SlotView { account: c.account, sequence: c.sequence, message_id: c.envelope_b },
            )
            &&& lex_lt(c.envelope_a@, c.envelope_b@)
        },
{
    let s = SlotView { account: c.account, sequence: c.sequence, message_id: c.envelope_a };
    let t = SlotView { account: c.account, sequence: c.sequence, message_id: c.envelope_b };
    lex_lt_is_total(c.envelope_a@, c.envelope_b@);
    lex_lt_is_total(c.envelope_a@, c.envelope_a@);
    if slots.contains(s) && slots.contains(t) && lex_lt(c.envelope_a@, c.envelope_b@) {
        detection_is_complete(slots, s, t);
    }
    if colliding_pairs(slots).contains(c) {
        let list = canonical(slots);
        canonical_is_canonical(slots);
        lemma_rows_members(list, list.len() as int, c);
        let (i, k) = choose|i: int, k: int|
            0 <= i < list.len() && i < k < list.len() && (#[trigger] list[i]).collides(
                #[trigger] list[k],
            ) && c == list[i].against(list[k]);
        assert(list.contains(list[i]) && list.contains(list[k]));
        assert(list[i].before(list[k]));
        assert(list[i] == s && list[k] == t);
    }
}

proof fn lemma_row_ordered(list: Seq<SlotView>, i: int, j: int)
    requires
        ascending(list),
        0 <= i < list.len(),
        j <= list.len(),
    ensures
        forall|x: int, y: int|
            0 <= x < y < row(list, i, j).len() ==> lex_lt(
                (#[trigger] row(list, i, j)[x]).envelope_b@,
                (#[trigger] row(list, i, j)[y]).envelope_b@,
            ),
    decreases j - i,
{
    if j > i + 1 {
        let shorter = row(list, i, j - 1);
        lemma_row_ordered(list, i, j - 1);
        if list[i].collides(list[j - 1]) {
            assert forall|x: int| 0 <= x < shorter.len() implies lex_lt(
                (#[trigger] shorter[x]).envelope_b@,
                list[j - 1].message_id@,
            ) by {
                let c = shorter[x];
                assert(shorter.contains(c));
                lemma_row_members(list, i, j - 1, c);
                let k = choose|k: int|
                    i < k < j - 1 && list[i].collides(#[trigger] list[k]) && c == list[i].against(
                        list[k],
                    );
                assert(list[k].before(list[j - 1]));
            }
            let r = row(list, i, j);
            assert forall|x: int, y: int| 0 <= x < y < r.len() implies lex_lt(
                (#[trigger] r[x]).envelope_b@,
                (#[trigger] r[y]).envelope_b@,
            ) by {
                assert(r[x] == shorter[x]);
                if y < shorter.len() {
                    assert(r[y] == shorter[y]);
                }
            }
        }
    }
}

/// The pair comes first by account, sequence, first and second envelope.
spec fn pair_before(c: ConflictView, d: ConflictView) -> bool {
    ||| SlotView { account: c.account, sequence: c.sequence, message_id: c.envelope_a }.before(
        SlotView { account: d.account, sequence: d.sequence, message_id: d.envelope_a },
    )
    ||| c.account == d.account && c.sequence == d.sequence && c.envelope_a == d.envelope_a
        && lex_lt(c.envelope_b@, d.envelope_b@)
}

proof fn lemma_rows_ordered(list: Seq<SlotView>, n: int)
    requires
        ascending(list),
        0 <= n <= list.len(),
    ensures
        forall|x: int, y: int|
            0 <= x < y < rows(list, n).len() ==> pair_before(
                #[trigger] rows(list, n)[x],
                #[trigger] rows(list, n)[y],
            ),
    decreases n,
{
    if n > 0 {
        let front = rows(list, n - 1);
        let back = row(list, n - 1, list.len() as int);
        let all = rows(list, n);
        lemma_rows_ordered(list, n - 1);
        lemma_row_ordered(list, n - 1, list.len() as int);
        assert forall|x: int, y: int| 0 <= x < y < all.len() implies pair_before(
            #[trigger] all[x],
            #[trigger] all[y],
        ) by {
            if y < front.len() {
                assert(all[x] == front[x] && all[y] == front[y]);
            } else {
                let d = all[y];
                assert(back[y - front.len()] == d);
                assert(back.contains(d));
                lemma_row_members(list, n - 1, list.len() as int, d);
                if x < front.len() {
                    let c = all[x];
                    assert(front[x] == c);
                    assert(front.contains(c));
                    lemma_rows_members(list, n - 1, c);
                    let (i, k) = choose|i: int, k: int|
                        0 <= i < n - 1 && i < k < list.len() && (#[trigger] list[i]).collides(
                            #[trigger] list[k],
                        ) && c == list[i].against(list[k]);
                    assert(list[i].before(list[n - 1]));
                } else {
                    let c = all[x];
                    assert(back[x - front.len()] == c);
                    assert(back.contains(c));
                    lemma_row_members(list, n - 1, list.len() as int, c);
                }
            }
        }
    }
}

/// Pairs are reported in order: by account, of one account by sequence, of one slot by the
/// first envelope, and then by the second.
pub proof fn reported_pairs_are_in_order(slots: Seq<SlotView>, i: int, j: int)
    requires
        0 <= i < j < colliding_pairs(slots).len(),
    ensures
        ({
            let c = colliding_pairs(slots)[i];
            let d = colliding_pairs(slots)[j];
            ||| lex_lt(encode_utf8(c.account), encode_utf8(d.account))
            ||| c.account == d.account && c.sequence < d.sequence
            ||| c.account == d.account && c.sequence == d.sequence && lex_lt(
                c.envelope_a@,
                d.envelope_a@,
            )
            ||| c.account == d.account && c.sequence == d.sequence && c.envelope_a == d.envelope_a
                && lex_lt(c.envelope_b@, d.envelope_b@)
        }),
{
    canonical_is_canonical(slots);
    lemma_rows_ordered(canonical(slots), canonical(slots).len() as int);
    assert(pair_before(colliding_pairs(slots)[i], colliding_pairs(slots)[j]));
}

/// A contested slot is reported with exactly the envelopes that claim it, and a slot is
/// reported exactly where two different envelopes claim it.
pub proof fn contested_slots_name_every_claim(
    slots: Seq<SlotView>,
    c: NWayConflictView,
    id: [u8; 32],
)
    requires
        contested_slots(slots).contains(c),
    ensures
        c.message_ids.contains(id) <==> slots.contains(
            SlotView { account: c.account, sequence: c.sequence, message_id: id },
        ),
{
    nway_detection_is_sound(slots, c, id);
    let claim = SlotView { account: c.account, sequence: c.sequence, message_id: id };
    assert(member_slot(c, id) == claim);
    if slots.contains(claim) {
        let first = c.message_ids[0];
        let second = c.message_ids[1];
        assert(c.message_ids.contains(first) && c.message_ids.contains(second));
        nway_detection_is_sound(slots, c, first);
        nway_detection_is_sound(slots, c, second);
        let other = if first == id {
            second
        } else {
            first
        };
        let d = nway_detection_is_complete(slots, claim, member_slot(c, other));
    }
}

/// Two different envelopes that claim one slot make it a contested one.
pub proof fn two_claims_contest_a_slot(
    slots: Seq<SlotView>,
    account: Seq<char>,
    sequence: i64,
    id: [u8; 32],
    other: [u8; 32],
) -> (c: NWayConflictView)
    requires
        id != other,
        slots.contains(SlotView { account, sequence, message_id: id }),
        slots.contains(SlotView { account, sequence, message_id: other }),
    ensures
        contested_slots(slots).contains(c),
        c.account == account,
        c.sequence == sequence,
        c.message_ids.contains(id),
        c.message_ids.contains(other),
{
    nway_detection_is_complete(
        slots,
        SlotView { account, sequence, message_id: id },
        SlotView { account, sequence, message_id: other },
    )
}

/// The slot comes first by account and sequence.
spec fn slot_before(c: NWayConflictView, d: NWayConflictView) -> bool {
    ||| c.account != d.account && lex_lt(encode_utf8(c.account), encode_utf8(d.account))
    ||| c.account == d.account && c.sequence < d.sequence
}

spec fn ids_ordered(ids: Seq<[u8; 32]>) -> bool {
    forall|x: int, y: int| 0 <= x < y < ids.len() ==> lex_lt((#[trigger] ids[x])@, (
    #[trigger] ids[y])@)
}

proof fn lemma_groups_ordered(list: Seq<SlotView>, n: int)
    requires
        ascending(list),
        0 <= n <= list.len(),
    ensures
        n > 0 ==> groups(list, n).len() > 0 && groups(list, n).last().message_ids.len() > 0
            && groups(list, n).last().message_ids.last() == list[n - 1].message_id && group_of(
            groups(list, n).last(),
            list[n - 1],
        ),
        n <= 0 ==> groups(list, n).len() == 0,
        forall|k: int|
            0 <= k < groups(list, n).len() ==> ids_ordered((#[trigger] groups(list, n)[k]).message_ids),
        forall|k: int, m: int|
            0 <= k < m < groups(list, n).len() ==> slot_before(
                #[trigger] groups(list, n)[k],
                #[trigger] groups(list, n)[m],
            ),
    decreases n,
{
    if n > 0 {
        lemma_groups_ordered(list, n - 1);
        let front = groups(list, n - 1);
        let all = groups(list, n);
        let slot = list[n - 1];
        if front.len() > 0 {
            assert(n >= 2);
            let last = front.last();
            assert(list[n - 2].before(list[n - 1]));
            if group_of(last, slot) {
                let grown = all.last();
                let ids = last.message_ids;
                assert(front[front.len() - 1] == last);
                assert(ids_ordered(ids));
                assert(grown.message_ids == ids.push(slot.message_id));
                assert(lex_lt(ids.last()@, slot.message_id@));
                assert forall|x: int, y: int| 0 <= x < y < grown.message_ids.len() implies lex_lt(
                    (#[trigger] grown.message_ids[x])@,
                    (#[trigger] grown.message_ids[y])@,
                ) by {
                    if y < ids.len() {
                        assert(lex_lt(ids[x]@, ids[y]@));
                    } else if x < ids.len() - 1 {
                        assert(lex_lt(ids[x]@, ids[ids.len() - 1]@));
                        lex_lt_is_transitive(ids[x]@, ids.last()@, slot.message_id@);
                    }
                }
                assert forall|k: int, m: int| 0 <= k < m < all.len() implies slot_before(
                    #[trigger] all[k],
                    #[trigger] all[m],
                ) by {
                    assert(slot_before(front[k], front[m]));
                }
            } else {
                assert(slot_before(last, all.last()));
                assert forall|k: int, m: int| 0 <= k < m < all.len() implies slot_before(
                    #[trigger] all[k],
                    #[trigger] all[m],
                ) by {
                    if m < front.len() {
                        assert(slot_before(front[k], front[m]));
                    } else if k < front.len() - 1 {
                        assert(slot_before(front[k], front[front.len() - 1]));
                        if front[k].account != last.account && last.account != slot.account {
                            lex_lt_is_transitive(
                                encode_utf8(front[k].account),
                                encode_utf8(last.account),
                                encode_utf8(slot.account),
                            );
                            lex_lt_is_total(
                                encode_utf8(front[k].account),
                                encode_utf8(slot.account),
                            );
                        }
                    }
                }
            }
        }
    }
}

proof fn lemma_contested_keeps_order(list: Seq<NWayConflictView>, i: int, j: int) -> (at: (int, int))
    requires
        0 <= i < j < contested(list).len(),
    ensures
        0 <= at.0 < at.1 < list.len(),
        list[at.0] == contested(list)[i],
        list[at.1] == contested(list)[j],
    decreases list.len(),
{
    let front = list.drop_last();
    if j < contested(front).len() {
        lemma_contested_keeps_order(front, i, j)
    } else {
        let c = contested(list)[i];
        assert(contested(front)[i] == c);
        assert(contested(front).contains(c));
        lemma_contested(front, c);
        let k = choose|k: int| 0 <= k < front.len() && front[k] == c;
        (k, list.len() - 1)
    }
}

/// Contested slots are reported in order, by account and then by sequence, each once, with
/// their envelopes in ascending order.
pub proof fn contested_slots_are_in_order(slots: Seq<SlotView>, i: int, j: int)
    requires
        0 <= i < j < contested_slots(slots).len(),
    ensures
        ({
            let c = contested_slots(slots)[i];
            let d = contested_slots(slots)[j];
            ||| lex_lt(encode_utf8(c.account), encode_utf8(d.account))
            ||| c.account == d.account && c.sequence < d.sequence
        }),
{
    let list = canonical(slots);
    canonical_is_canonical(slots);
    let all = groups(list, list.len() as int);
    lemma_groups_ordered(list, list.len() as int);
    let at = lemma_contested_keeps_order(all, i, j);
    assert(slot_before(all[at.0], all[at.1]));
}

/// The envelopes of a contested slot are named in ascending order.
pub proof fn contested_envelopes_are_in_order(
    slots: Seq<SlotView>,
    c: NWayConflictView,
    x: int,
    y: int,
)
    requires
        contested_slots(slots).contains(c),
        0 <= x < y < c.message_ids.len(),
    ensures
        lex_lt(c.message_ids[x]@, c.message_ids[y]@),
{
    let list = canonical(slots);
    canonical_is_canonical(slots);
    let all = groups(list, list.len() as int);
    lemma_groups_ordered(list, list.len() as int);
    lemma_contested(all, c);
    let k = choose|k: int| 0 <= k < all.len() && all[k] == c;
    assert(ids_ordered(all[k].message_ids));
}

} // verus!
