//! Multi-device simulated mesh state the agents act on: the [`QueuedSlot`]s and
//! [`RelayObservation`]s that the conflict logic consumes, partitioned by simulated
//! device so that race agents can model split views that later merge.
use crate::bytes::{
    bytes32_eq, bytes_lt, lex_lt, lex_lt_is_total, lex_lt_is_transitive, ordered_list_is_unique,
};
use crate::conflict::detector::{slot_views, QueuedSlot, SlotView};
use crate::conflict::resolver::{ConflictEvidence, RelayObservation};
use crate::maps::NameMap;
use crate::queue::sequence::value_of;
use crate::text::{hex_of, hex_string, str_eq};
use vstd::prelude::*;
use vstd::utf8::{encode_utf8, encode_utf8_decode_utf8};

verus! {

/// One simulated peer / relay terminal.
#[derive(Debug)]
pub struct SimDevice {
    pub id: String,
    /// Local view of queued (account, sequence, message_id) slots.
    pub slots: Vec<QueuedSlot>,
    /// Observations this device has collected, keyed by message_id hex.
    pub observations: NameMap<Vec<RelayObservation>>,
}

impl SimDevice {
    /// A device that has seen nothing.
    pub fn new(id: &str) -> (device: Self)
        ensures
            device.id@ == id@,
            device.slots@ == Seq::<QueuedSlot>::empty(),
            device.observations.wf(),
            device.observations@ == Map::<Seq<char>, Vec<RelayObservation>>::empty(),
    {
        SimDevice { id: id.to_owned(), slots: Vec::new(), observations: NameMap::new() }
    }

    /// The observations of an envelope.
    pub open spec fn seen(self, key: Seq<char>) -> Seq<RelayObservation> {
        match value_of(self.observations@, key) {
            Some(list) => list@,
            None => Seq::empty(),
        }
    }
}

/// Shared conceptual state across devices for one harness run.
#[derive(Debug)]
pub struct SimWorld {
    /// The devices, in the order of their names, each name once.
    pub devices: Vec<SimDevice>,
    /// Account used by race / replay scenarios unless overridden.
    pub account: String,
    /// Contested sequence number for the default scenario.
    pub sequence: i64,
    /// Wall-clock (simulated) after which observations are considered stale.
    pub observation_ttl_secs: u64,
    /// When each observation batch was first accepted, by message_id hex.
    pub observation_accepted_at: NameMap<u64>,
}

/// The names are in order, each occurs once.
pub open spec fn in_name_order(devices: Seq<SimDevice>) -> bool {
    forall|i: int, j: int|
        0 <= i < j < devices.len() ==> lex_lt(
            encode_utf8((#[trigger] devices[i]).id@),
            encode_utf8((#[trigger] devices[j]).id@),
        )
}

/// The slots of all devices, one after the other.
pub open spec fn all_slots(devices: Seq<SimDevice>) -> Seq<SlotView>
    decreases devices.len(),
{
    if devices.len() == 0 {
        Seq::empty()
    } else {
        all_slots(devices.drop_last()) + slot_views(devices.last().slots@)
    }
}

/// `slot` is the first of the slots with its message id.
pub open spec fn is_first(slots: Seq<SlotView>, slot: SlotView) -> bool {
    exists|i: int|
        0 <= i < slots.len() && #[trigger] slots[i] == slot && forall|j: int|
            0 <= j < i ==> (#[trigger] slots[j]).message_id != slot.message_id
}

/// The message ids are in ascending order, each occurs once.
pub open spec fn in_id_order(slots: Seq<SlotView>) -> bool {
    forall|i: int, j: int|
        0 <= i < j < slots.len() ==> lex_lt(
            (#[trigger] slots[i]).message_id@,
            (#[trigger] slots[j]).message_id@,
        )
}

/// `merged` holds the first slot of every message id, in the order of the ids.
pub open spec fn is_merged(merged: Seq<SlotView>, slots: Seq<SlotView>) -> bool {
    &&& in_id_order(merged)
    &&& forall|s: SlotView| #[trigger] merged.contains(s) <==> is_first(slots, s)
}

/// The observations of an envelope that the devices have collected, one device after
/// the other.
pub open spec fn all_seen(devices: Seq<SimDevice>, key: Seq<char>) -> Seq<RelayObservation>
    decreases devices.len(),
{
    if devices.len() == 0 {
        Seq::empty()
    } else {
        all_seen(devices.drop_last(), key) + devices.last().seen(key)
    }
}

/// A device with this name is at `i`.
pub open spec fn device_at(devices: Seq<SimDevice>, id: Seq<char>, i: int) -> bool {
    0 <= i < devices.len() && devices[i].id@ == id
}

/// The slots of the device at a place are replaced; the device is added if it is not
/// there. No other device changes.
pub open spec fn slots_replaced_at(
    before: Seq<SimDevice>,
    after: Seq<SimDevice>,
    id: Seq<char>,
    slots: Seq<SlotView>,
    at: int,
) -> bool {
    &&& touched_at(before, after, id, at)
    &&& slot_views(after[at].slots@) == slots
    &&& if device_at(before, id, at) {
        after[at].observations == before[at].observations
    } else {
        after[at].observations@ == Map::<Seq<char>, Vec<RelayObservation>>::empty()
    }
}

/// The slots of one device are replaced, which is added if it is not there. No other
/// device changes.
pub open spec fn slots_replaced(
    before: Seq<SimDevice>,
    after: Seq<SimDevice>,
    id: Seq<char>,
    slots: Seq<SlotView>,
) -> bool {
    exists|at: int| #[trigger] slots_replaced_at(before, after, id, slots, at)
}

/// The observations of one envelope by the device at a place are replaced; the device is
/// added if it is not there. No other device changes.
pub open spec fn observed_at(
    before: Seq<SimDevice>,
    after: Seq<SimDevice>,
    id: Seq<char>,
    key: Seq<char>,
    observations: Vec<RelayObservation>,
    at: int,
) -> bool {
    &&& touched_at(before, after, id, at)
    &&& if device_at(before, id, at) {
        &&& after[at].slots == before[at].slots
        &&& after[at].observations@ == before[at].observations@.insert(key, observations)
    } else {
        &&& after[at].slots@ == Seq::<QueuedSlot>::empty()
        &&& after[at].observations@ == Map::<Seq<char>, Vec<RelayObservation>>::empty().insert(
            key,
            observations,
        )
    }
}

/// One device's observations of one envelope are replaced; the device is added if it is
/// not there. No other device changes.
pub open spec fn observed(
    before: Seq<SimDevice>,
    after: Seq<SimDevice>,
    id: Seq<char>,
    key: Seq<char>,
    observations: Vec<RelayObservation>,
) -> bool {
    exists|at: int| #[trigger] observed_at(before, after, id, key, observations, at)
}

/// Put a slot into a list in id order, unless its id is there.
fn merge_slot(merged: &mut Vec<QueuedSlot>, slot: &QueuedSlot, seen: Ghost<Seq<SlotView>>)
    requires
        is_merged(slot_views(old(merged)@), seen@),
    ensures
        is_merged(slot_views(final(merged)@), seen@.push(slot@)),
{
    let ghost before = slot_views(merged@);
    let ghost after_seen = seen@.push(slot@);
    let mut at: usize = 0;
    while at < merged.len() && bytes_lt(
        merged[at].message_id.as_slice(),
        slot.message_id.as_slice(),
    )
        invariant
            at <= merged.len(),
            merged@ == old(merged)@,
            before == slot_views(merged@),
            forall|k: int|
                0 <= k < at ==> lex_lt((#[trigger] before[k]).message_id@, slot.message_id@),
        decreases merged.len() - at,
    {
        assert(before[at as int] == merged[at as int]@);
        at += 1;
    }
    if at < merged.len() && bytes32_eq(&merged[at].message_id, &slot.message_id) {
        proof {
            let here = before[at as int];
            assert(here == merged[at as int]@);
            assert(before.contains(here));
            assert(is_first(seen@, here));
            assert forall|s: SlotView| #[trigger] before.contains(s) <==> is_first(
                after_seen,
                s,
            ) by {
                lemma_first_after_push(seen@, slot@, s);
                if s == slot@ && is_first(seen@, here) {
                    let i = choose|i: int|
                        0 <= i < seen@.len() && #[trigger] seen@[i] == here && forall|j: int|
                            0 <= j < i ==> (#[trigger] seen@[j]).message_id != here.message_id;
                    assert(has_id(seen@, slot@.message_id, i));
                }
            }
        }
        return ;
    }
    merged.insert(at, slot.duplicate());
    proof {
        let after = slot_views(merged@);
        assert(after =~= before.insert(at as int, slot@));
        if at < before.len() {
            assert(before[at as int] == old(merged)@[at as int]@);
            lex_lt_is_total(before[at as int].message_id@, slot@.message_id@);
            if before[at as int].message_id@ == slot@.message_id@ {
                assert(before[at as int].message_id =~= slot@.message_id);
            }
        }
        assert forall|i: int, j: int| 0 <= i < j < after.len() implies lex_lt(
            (#[trigger] after[i]).message_id@,
            (#[trigger] after[j]).message_id@,
        ) by {
            if i < at {
                if j < at {
                    assert(lex_lt(before[i].message_id@, before[j].message_id@));
                } else if j > at {
                    assert(lex_lt(before[i].message_id@, before[j - 1].message_id@));
                }
            } else if i > at {
                assert(lex_lt(before[i - 1].message_id@, before[j - 1].message_id@));
            } else if j - 1 > at {
                assert(lex_lt(before[at as int].message_id@, before[j - 1].message_id@));
                lex_lt_is_transitive(
                    slot@.message_id@,
                    before[at as int].message_id@,
                    before[j - 1].message_id@,
                );
            }
        }
        // No slot with this id was seen.
        assert forall|i: int| !has_id(seen@, slot@.message_id, i) by {
            if has_id(seen@, slot@.message_id, i) {
                let first = lemma_first_exists(seen@, slot@.message_id, i);
                assert(before.contains(seen@[first]));
                let k = choose|k: int| 0 <= k < before.len() && before[k] == seen@[first];
                if k < at {
                    assert(lex_lt(after[k].message_id@, after[at as int].message_id@));
                } else {
                    assert(lex_lt(after[at as int].message_id@, after[k + 1].message_id@));
                }
                lex_lt_is_total(slot@.message_id@, slot@.message_id@);
            }
        }
        assert forall|s: SlotView| #[trigger] after.contains(s) <==> is_first(after_seen, s) by {
            lemma_first_after_push(seen@, slot@, s);
            assert(before.contains(s) <==> is_first(seen@, s));
            if after.contains(s) {
                let k = choose|k: int| 0 <= k < after.len() && after[k] == s;
                if k < at {
                    assert(before[k] == s);
                } else if k > at {
                    assert(before[k - 1] == s);
                }
            }
            if before.contains(s) {
                let k = choose|k: int| 0 <= k < before.len() && before[k] == s;
                if k < at {
                    assert(after[k] == s);
                } else {
                    assert(after[k + 1] == s);
                }
            }
            assert(after[at as int] == slot@);
        }
    }
}

/// The slot at `i` has this id.
spec fn has_id(slots: Seq<SlotView>, id: [u8; 32], i: int) -> bool {
    0 <= i < slots.len() && slots[i].message_id == id
}

/// Where an id occurs, it occurs a first time.
proof fn lemma_first_exists(slots: Seq<SlotView>, id: [u8; 32], i: int) -> (first: int)
    requires
        has_id(slots, id, i),
    ensures
        0 <= first <= i,
        slots[first].message_id == id,
        is_first(slots, slots[first]),
    decreases i,
{
    if exists|j: int| j < i && has_id(slots, id, j) {
        let j = choose|j: int| j < i && has_id(slots, id, j);
        lemma_first_exists(slots, id, j)
    } else {
        assert forall|j: int| 0 <= j < i implies (#[trigger] slots[j]).message_id != id by {
            assert(!(j < i && has_id(slots, id, j)));
        }
        i
    }
}

/// A further slot is a first one where its id is new; what was a first one stays so.
proof fn lemma_first_after_push(slots: Seq<SlotView>, slot: SlotView, s: SlotView)
    ensures
        is_first(slots.push(slot), s) <==> is_first(slots, s) || (s == slot && forall|i: int|
            !has_id(slots, slot.message_id, i)),
{
    let longer = slots.push(slot);
    if is_first(longer, s) {
        let i = choose|i: int|
            0 <= i < longer.len() && #[trigger] longer[i] == s && forall|j: int|
                0 <= j < i ==> (#[trigger] longer[j]).message_id != s.message_id;
        if i < slots.len() {
            assert(slots[i] == s);
            assert forall|j: int| 0 <= j < i implies (#[trigger] slots[j]).message_id
                != s.message_id by {
                assert(longer[j].message_id != s.message_id);
            }
        } else {
            assert forall|j: int| !has_id(slots, slot.message_id, j) by {
                if 0 <= j < slots.len() {
                    assert(longer[j].message_id != s.message_id);
                }
            }
        }
    }
    if is_first(slots, s) {
        let i = choose|i: int|
            0 <= i < slots.len() && #[trigger] slots[i] == s && forall|j: int|
                0 <= j < i ==> (#[trigger] slots[j]).message_id != s.message_id;
        assert(longer[i] == s);
        assert forall|j: int| 0 <= j < i implies (#[trigger] longer[j]).message_id
            != s.message_id by {
            assert(slots[j].message_id != s.message_id);
        }
    }
    if s == slot && forall|i: int| !has_id(slots, slot.message_id, i) {
        assert(longer[slots.len() as int] == s);
        assert forall|j: int| 0 <= j < slots.len() implies (#[trigger] longer[j]).message_id
            != s.message_id by {
            assert(!has_id(slots, slot.message_id, j));
        }
    }
}

impl SimWorld {
    /// The devices are in order, and their collections well formed.
    pub open spec fn wf(self) -> bool {
        &&& in_name_order(self.devices@)
        &&& self.observation_accepted_at.wf()
        &&& forall|i: int|
            0 <= i < self.devices@.len() ==> (#[trigger] self.devices@[i]).observations.wf()
    }

    /// A world without devices, in which observations are stale after a minute.
    pub fn new(account: &str, sequence: i64) -> (world: Self)
        ensures
            world.wf(),
            world.devices@ == Seq::<SimDevice>::empty(),
            world.account@ == account@,
            world.sequence == sequence,
            world.observation_ttl_secs == 60,
            world.observation_accepted_at@ == Map::<Seq<char>, u64>::empty(),
    {
        SimWorld {
            devices: Vec::new(),
            account: account.to_owned(),
            sequence,
            observation_ttl_secs: 60,
            observation_accepted_at: NameMap::new(),
        }
    }

    /// The position of a device, which is added without slots and observations if it is
    /// not there.
    pub fn ensure_device(&mut self, id: &str) -> (at: usize)
        requires
            old(self).wf(),
        ensures
            final(self).wf(),
            final(self).account == old(self).account,
            final(self).sequence == old(self).sequence,
            final(self).observation_ttl_secs == old(self).observation_ttl_secs,
            final(self).observation_accepted_at == old(self).observation_accepted_at,
            at <= old(self).devices@.len(),
            device_at(final(self).devices@, id@, at as int),
            if device_at(old(self).devices@, id@, at as int) {
                final(self).devices@ == old(self).devices@
            } else {
                &&& forall|i: int| !device_at(old(self).devices@, id@, i)
                &&& final(self).devices@ == old(self).devices@.insert(
                    at as int,
                    final(self).devices@[at as int],
                )
                &&& final(self).devices@[at as int].slots@ == Seq::<QueuedSlot>::empty()
                &&& final(self).devices@[at as int].observations@ == Map::<
                    Seq<char>,
                    Vec<RelayObservation>,
                >::empty()
            },
    {
        let ghost before = self.devices@;
        let mut at: usize = 0;
        while at < self.devices.len() && bytes_lt(
            self.devices[at].id.as_str().as_bytes(),
            id.as_bytes(),
        )
            invariant
                at <= self.devices.len(),
                *self == *old(self),
                before == self.devices@,
                forall|k: int|
                    0 <= k < at ==> lex_lt(encode_utf8((#[trigger] before[k]).id@), encode_utf8(id@)),
            decreases self.devices.len() - at,
        {
            at += 1;
        }
        if at < self.devices.len() && str_eq(self.devices[at].id.as_str(), id) {
            return at;
        }
        proof {
            if at < before.len() {
                lex_lt_is_total(encode_utf8(before[at as int].id@), encode_utf8(id@));
                encode_utf8_decode_utf8(before[at as int].id@);
                encode_utf8_decode_utf8(id@);
            }
        }
        let device = SimDevice::new(id);
        self.devices.insert(at, device);
        proof {
            let after = self.devices@;
            assert(after =~= before.insert(at as int, after[at as int]));
            let name = encode_utf8(id@);
            assert forall|i: int, j: int| 0 <= i < j < after.len() implies lex_lt(
                encode_utf8((#[trigger] after[i]).id@),
                encode_utf8((#[trigger] after[j]).id@),
            ) by {
                if i < at {
                    if j < at {
                        assert(lex_lt(encode_utf8(before[i].id@), encode_utf8(before[j].id@)));
                    } else if j > at {
                        assert(lex_lt(encode_utf8(before[i].id@), encode_utf8(before[j - 1].id@)));
                    }
                } else if i > at {
                    assert(lex_lt(encode_utf8(before[i - 1].id@), encode_utf8(before[j - 1].id@)));
                } else if j - 1 > at {
                    assert(lex_lt(
                        encode_utf8(before[at as int].id@),
                        encode_utf8(before[j - 1].id@),
                    ));
                    lex_lt_is_transitive(
                        name,
                        encode_utf8(before[at as int].id@),
                        encode_utf8(before[j - 1].id@),
                    );
                }
            }
            assert forall|i: int| !device_at(before, id@, i) by {
                if device_at(before, id@, i) {
                    lex_lt_is_total(name, name);
                    if i < at {
                        assert(lex_lt(encode_utf8(after[i].id@), encode_utf8(after[at as int].id@)));
                    } else {
                        assert(lex_lt(
                            encode_utf8(after[at as int].id@),
                            encode_utf8(after[i + 1].id@),
                        ));
                    }
                }
            }
            assert forall|i: int| 0 <= i < after.len() implies (
            #[trigger] after[i]).observations.wf() by {
                if i < at {
                    assert(after[i] == before[i]);
                } else if i > at {
                    assert(after[i] == before[i - 1]);
                }
            }
        }
        at
    }

    /// Replace the slots of a device, which is added if it is not there.
    pub fn replace_slots(&mut self, id: &str, slots: Vec<QueuedSlot>)
        requires
            old(self).wf(),
        ensures
            final(self).wf(),
            final(self).account == old(self).account,
            final(self).sequence == old(self).sequence,
            final(self).observation_ttl_secs == old(self).observation_ttl_secs,
            final(self).observation_accepted_at == old(self).observation_accepted_at,
            slots_replaced(old(self).devices@, final(self).devices@, id@, slot_views(slots@)),
    {
        let ghost before = self.devices@;
        let at: usize = self.ensure_device(id);
        let ghost mid = self.devices@;
        let mut device = self.devices.remove(at);
        device.slots = slots;
        self.devices.insert(at, device);
        proof {
            let after = self.devices@;
            assert(after =~= mid.update(at as int, after[at as int]));
            assert(device_at(after, id@, at as int));
            if !device_at(before, id@, at as int) {
                assert(after =~= before.insert(at as int, after[at as int]));
            }
            assert(slots_replaced_at(before, after, id@, slot_views(slots@), at as int));
            assert forall|i: int, j: int| 0 <= i < j < after.len() implies lex_lt(
                encode_utf8((#[trigger] after[i]).id@),
                encode_utf8((#[trigger] after[j]).id@),
            ) by {
                assert(lex_lt(encode_utf8(mid[i].id@), encode_utf8(mid[j].id@)));
            }
            assert forall|i: int| 0 <= i < after.len() implies (
            #[trigger] after[i]).observations.wf() by {
                assert(mid[i].observations.wf());
            }
        }
    }

    /// Record the observations of an envelope that a device has collected; the device is
    /// added if it is not there.
    pub fn record_observations(
        &mut self,
        id: &str,
        message_id: &[u8; 32],
        observations: Vec<RelayObservation>,
        at_secs: u64,
    )
        requires
            old(self).wf(),
        ensures
            final(self).wf(),
            final(self).account == old(self).account,
            final(self).sequence == old(self).sequence,
            final(self).observation_ttl_secs == old(self).observation_ttl_secs,
            final(self).observation_accepted_at@ == old(self).observation_accepted_at@.insert(
                hex_of(message_id@),
                at_secs,
            ),
            observed(
                old(self).devices@,
                final(self).devices@,
                id@,
                hex_of(message_id@),
                observations,
            ),
    {
        let key = hex_string(message_id.as_slice());
        self.observation_accepted_at.insert(key.clone(), at_secs);
        let ghost before = self.devices@;
        let at: usize = self.ensure_device(id);
        let ghost mid = self.devices@;
        let mut device = self.devices.remove(at);
        device.observations.insert(key, observations);
        self.devices.insert(at, device);
        proof {
            let after = self.devices@;
            assert(after =~= mid.update(at as int, after[at as int]));
            assert(device_at(after, id@, at as int));
            if !device_at(before, id@, at as int) {
                assert(after =~= before.insert(at as int, after[at as int]));
            }
            assert(observed_at(before, after, id@, hex_of(message_id@), observations, at as int));
            assert forall|i: int, j: int| 0 <= i < j < after.len() implies lex_lt(
                encode_utf8((#[trigger] after[i]).id@),
                encode_utf8((#[trigger] after[j]).id@),
            ) by {
                assert(lex_lt(encode_utf8(mid[i].id@), encode_utf8(mid[j].id@)));
            }
            assert forall|i: int| 0 <= i < after.len() implies (
            #[trigger] after[i]).observations.wf() by {
                assert(mid[i].observations.wf());
            }
        }
    }

    /// Union of every device's slots, deduplicated by message id, in the order of the
    /// ids.
    pub fn merged_slots(&self) -> (merged: Vec<QueuedSlot>)
        ensures
            is_merged(slot_views(merged@), all_slots(self.devices@)),
    {
        let mut merged: Vec<QueuedSlot> = Vec::new();
        let mut i: usize = 0;
        assert(forall|s: SlotView| !is_first(all_slots(Seq::<SimDevice>::empty()), s));
        assert(self.devices@.subrange(0, 0) =~= Seq::<SimDevice>::empty());
        while i < self.devices.len()
            invariant
                i <= self.devices.len(),
                is_merged(
                    slot_views(merged@),
                    all_slots(self.devices@.subrange(0, i as int)),
                ),
            decreases self.devices.len() - i,
        {
            let slots = &self.devices[i].slots;
            let ghost earlier = all_slots(self.devices@.subrange(0, i as int));
            let ghost here = slot_views(slots@);
            let mut j: usize = 0;
            assert(earlier + here.subrange(0, 0) =~= earlier);
            while j < slots.len()
                invariant
                    j <= slots.len(),
                    here == slot_views(slots@),
                    is_merged(slot_views(merged@), earlier + here.subrange(0, j as int)),
                decreases slots.len() - j,
            {
                merge_slot(&mut merged, &slots[j], Ghost(earlier + here.subrange(0, j as int)));
                assert((earlier + here.subrange(0, j as int)).push(slots[j as int]@) =~= earlier
                    + here.subrange(0, j + 1));
                j += 1;
            }
            proof {
                assert(here.subrange(0, j as int) =~= here);
                let upto = self.devices@.subrange(0, i + 1);
                assert(upto.drop_last() =~= self.devices@.subrange(0, i as int));
            }
            i += 1;
        }
        assert(self.devices@.subrange(0, i as int) =~= self.devices@);
        merged
    }

    /// Every observation of an envelope that a device has collected.
    pub fn observations_for(&self, message_id: &[u8; 32]) -> (r: Vec<RelayObservation>)
        requires
            self.wf(),
        ensures
            r@ == all_seen(self.devices@, hex_of(message_id@)),
    {
        let key = hex_string(message_id.as_slice());
        let mut out: Vec<RelayObservation> = Vec::new();
        let mut i: usize = 0;
        while i < self.devices.len()
            invariant
                self.wf(),
                i <= self.devices.len(),
                out@ == all_seen(self.devices@.subrange(0, i as int), key@),
            decreases self.devices.len() - i,
        {
            let ghost before = out@;
            match self.devices[i].observations.get(key.as_str()) {
                Some(list) => {
                    let mut j: usize = 0;
                    while j < list.len()
                        invariant
                            j <= list.len(),
                            out@ == before + list@.subrange(0, j as int),
                        decreases list.len() - j,
                    {
                        out.push(list[j].duplicate());
                        j += 1;
                        assert(out@ =~= before + list@.subrange(0, j as int));
                    }
                    assert(list@.subrange(0, j as int) =~= list@);
                },
                None => {
                    assert(out@ =~= before + Seq::<RelayObservation>::empty());
                },
            }
            proof {
                let upto = self.devices@.subrange(0, i + 1);
                assert(upto.drop_last() =~= self.devices@.subrange(0, i as int));
            }
            i += 1;
        }
        assert(self.devices@.subrange(0, i as int) =~= self.devices@);
        out
    }

    /// The evidence that the devices have for two envelopes with the given timestamps.
    pub fn evidence_for_pair(
        &self,
        envelope_a: &[u8; 32],
        envelope_b: &[u8; 32],
        ts_a: u64,
        ts_b: u64,
    ) -> (evidence: ConflictEvidence)
        requires
            self.wf(),
        ensures
            evidence.envelope_a_timestamp == ts_a,
            evidence.envelope_b_timestamp == ts_b,
            evidence.envelope_a_observations@ == all_seen(self.devices@, hex_of(envelope_a@)),
            evidence.envelope_b_observations@ == all_seen(self.devices@, hex_of(envelope_b@)),
    {
        ConflictEvidence {
            envelope_a_timestamp: ts_a,
            envelope_b_timestamp: ts_b,
            envelope_a_observations: self.observations_for(envelope_a),
            envelope_b_observations: self.observations_for(envelope_b),
        }
    }
}

/// There is only one merged list.
pub proof fn merged_is_unique(a: Seq<SlotView>, b: Seq<SlotView>, slots: Seq<SlotView>)
    requires
        is_merged(a, slots),
        is_merged(b, slots),
    ensures
        a == b,
{
    assert forall|s: SlotView| a.contains(s) <==> b.contains(s) by {
        assert(a.contains(s) <==> is_first(slots, s));
        assert(b.contains(s) <==> is_first(slots, s));
    }
    lemma_in_id_order_unique(a, b);
}

proof fn lemma_in_id_order_unique(a: Seq<SlotView>, b: Seq<SlotView>)
    requires
        in_id_order(a),
        in_id_order(b),
        forall|s: SlotView| a.contains(s) <==> b.contains(s),
    ensures
        a == b,
{
    let before = |s: SlotView, t: SlotView| lex_lt(s.message_id@, t.message_id@);
    assert forall|s: SlotView, t: SlotView| #[trigger] before(s, t) implies !before(t, s) by {
        lex_lt_is_total(s.message_id@, t.message_id@);
    }
    ordered_list_is_unique(a, b, before);
}

/// The devices have the same names and the same slots.
pub open spec fn same_slots(a: Seq<SimDevice>, b: Seq<SimDevice>) -> bool {
    &&& a.len() == b.len()
    &&& forall|i: int|
        0 <= i < a.len() ==> (#[trigger] a[i]).id@ == b[i].id@ && slot_views(a[i].slots@)
            == slot_views(b[i].slots@)
}

/// A device that is in both lists, or is added to both in the order of the names, is at
/// the same place in both.
proof fn lemma_same_place(
    before_a: Seq<SimDevice>,
    after_a: Seq<SimDevice>,
    x: int,
    before_b: Seq<SimDevice>,
    after_b: Seq<SimDevice>,
    y: int,
    id: Seq<char>,
)
    requires
        same_slots(before_a, before_b),
        in_name_order(before_a),
        in_name_order(after_a),
        in_name_order(after_b),
        touched_at(before_a, after_a, id, x),
        touched_at(before_b, after_b, id, y),
    ensures
        x == y,
        device_at(before_a, id, x) <==> device_at(before_b, id, y),
{
    let name = encode_utf8(id);
    lex_lt_is_total(name, name);
    if device_at(before_a, id, x) {
        assert(before_a[x].id@ == before_b[x].id@);
        assert(device_at(before_b, id, x));
        assert(device_at(before_b, id, y));
        assert(before_a[y].id@ == before_b[y].id@);
        if x < y {
            assert(lex_lt(encode_utf8(before_a[x].id@), encode_utf8(before_a[y].id@)));
        } else if y < x {
            assert(lex_lt(encode_utf8(before_a[y].id@), encode_utf8(before_a[x].id@)));
        }
    } else {
        if device_at(before_b, id, y) {
            assert(before_a[y].id@ == before_b[y].id@);
            assert(device_at(before_a, id, y));
        }
        if x < y {
            assert(after_a[x + 1] == before_a[x]);
            assert(after_b[x] == before_b[x]);
            assert(before_a[x].id@ == before_b[x].id@);
            assert(lex_lt(encode_utf8(after_a[x].id@), encode_utf8(after_a[x + 1].id@)));
            assert(lex_lt(encode_utf8(after_b[x].id@), encode_utf8(after_b[y].id@)));
            lex_lt_is_total(name, encode_utf8(before_a[x].id@));
        } else if y < x {
            assert(after_b[y + 1] == before_b[y]);
            assert(after_a[y] == before_a[y]);
            assert(before_a[y].id@ == before_b[y].id@);
            assert(lex_lt(encode_utf8(after_b[y].id@), encode_utf8(after_b[y + 1].id@)));
            assert(lex_lt(encode_utf8(after_a[y].id@), encode_utf8(after_a[x].id@)));
            lex_lt_is_total(name, encode_utf8(before_b[y].id@));
        }
    }
}

/// The device with a name is changed or added at a place; the others stay as they are.
pub open spec fn touched_at(
    before: Seq<SimDevice>,
    after: Seq<SimDevice>,
    id: Seq<char>,
    at: int,
) -> bool {
    &&& device_at(after, id, at)
    &&& if device_at(before, id, at) {
        after == before.update(at, after[at])
    } else {
        &&& forall|i: int| !device_at(before, id, i)
        &&& 0 <= at <= before.len()
        &&& after == before.insert(at, after[at])
    }
}

/// Changing the same device in lists with the same slots gives lists with the same slots,
/// if the changed devices have.
proof fn lemma_same_slots_after(
    before_a: Seq<SimDevice>,
    after_a: Seq<SimDevice>,
    x: int,
    before_b: Seq<SimDevice>,
    after_b: Seq<SimDevice>,
    id: Seq<char>,
)
    requires
        same_slots(before_a, before_b),
        touched_at(before_a, after_a, id, x),
        touched_at(before_b, after_b, id, x),
        device_at(before_a, id, x) <==> device_at(before_b, id, x),
        slot_views(after_a[x].slots@) == slot_views(after_b[x].slots@),
    ensures
        same_slots(after_a, after_b),
        all_slots(after_a) == all_slots(after_b),
{
    let there = device_at(before_a, id, x);
    assert forall|i: int| 0 <= i < after_a.len() implies (#[trigger] after_a[i]).id@
        == after_b[i].id@ && slot_views(after_a[i].slots@) == slot_views(after_b[i].slots@) by {
        if i != x {
            let k = if there || i < x {
                i
            } else {
                i - 1
            };
            assert(after_a[i] == before_a[k]);
            assert(after_b[i] == before_b[k]);
        }
    }
    lemma_same_all_slots(after_a, after_b);
}

/// Replacing the same slots in the same devices gives the same devices.
pub proof fn replacing_is_deterministic(
    before_a: Seq<SimDevice>,
    after_a: Seq<SimDevice>,
    before_b: Seq<SimDevice>,
    after_b: Seq<SimDevice>,
    id: Seq<char>,
    slots: Seq<SlotView>,
)
    requires
        same_slots(before_a, before_b),
        in_name_order(before_a),
        in_name_order(after_a),
        in_name_order(after_b),
        slots_replaced(before_a, after_a, id, slots),
        slots_replaced(before_b, after_b, id, slots),
    ensures
        same_slots(after_a, after_b),
        all_slots(after_a) == all_slots(after_b),
{
    let x = choose|at: int| #[trigger] slots_replaced_at(before_a, after_a, id, slots, at);
    let y = choose|at: int| #[trigger] slots_replaced_at(before_b, after_b, id, slots, at);
    lemma_same_place(before_a, after_a, x, before_b, after_b, y, id);
    lemma_same_slots_after(before_a, after_a, x, before_b, after_b, id);
}

/// Recording observations leaves the slots of all devices alone, so that worlds with the
/// same slots keep the same slots.
pub proof fn observing_keeps_the_slots(
    before_a: Seq<SimDevice>,
    after_a: Seq<SimDevice>,
    list_a: Vec<RelayObservation>,
    before_b: Seq<SimDevice>,
    after_b: Seq<SimDevice>,
    list_b: Vec<RelayObservation>,
    id: Seq<char>,
    key: Seq<char>,
)
    requires
        same_slots(before_a, before_b),
        in_name_order(before_a),
        in_name_order(after_a),
        in_name_order(after_b),
        observed(before_a, after_a, id, key, list_a),
        observed(before_b, after_b, id, key, list_b),
    ensures
        same_slots(after_a, after_b),
        all_slots(after_a) == all_slots(after_b),
{
    let x = choose|at: int| #[trigger] observed_at(before_a, after_a, id, key, list_a, at);
    let y = choose|at: int| #[trigger] observed_at(before_b, after_b, id, key, list_b, at);
    lemma_same_place(before_a, after_a, x, before_b, after_b, y, id);
    if device_at(before_a, id, x) {
        assert(before_a[x].id@ == before_b[x].id@);
    } else {
        assert(slot_views(after_a[x].slots@) =~= slot_views(after_b[x].slots@));
    }
    lemma_same_slots_after(before_a, after_a, x, before_b, after_b, id);
}

proof fn lemma_same_all_slots(a: Seq<SimDevice>, b: Seq<SimDevice>)
    requires
        same_slots(a, b),
    ensures
        all_slots(a) == all_slots(b),
    decreases a.len(),
{
    if a.len() > 0 {
        let last = a.len() - 1;
        assert(a[last].id@ == b[last].id@);
        assert forall|i: int| 0 <= i < last implies (#[trigger] a.drop_last()[i]).id@
            == b.drop_last()[i].id@ && slot_views(a.drop_last()[i].slots@) == slot_views(
            b.drop_last()[i].slots@,
        ) by {
            assert(a[i].id@ == b[i].id@);
        }
        lemma_same_all_slots(a.drop_last(), b.drop_last());
    }
}

/// Slots are merged by message id: the merged list holds a slot exactly where some device has
/// it and no earlier slot has its id, in ascending order of the ids.
pub proof fn merging_keeps_the_first_of_each_id(
    merged: Seq<SlotView>,
    slots: Seq<SlotView>,
    i: int,
    x: int,
    y: int,
)
    requires
        is_merged(merged, slots),
        0 <= i < slots.len(),
    ensures
        (forall|j: int| 0 <= j < i ==> (#[trigger] slots[j]).message_id != slots[i].message_id)
            ==> merged.contains(slots[i]),
        0 <= x < y < merged.len() ==> lex_lt(merged[x].message_id@, merged[y].message_id@),
        0 <= x < merged.len() ==> slots.contains(merged[x]),
{
    if forall|j: int| 0 <= j < i ==> (#[trigger] slots[j]).message_id != slots[i].message_id {
        assert(is_first(slots, slots[i]));
    }
    if 0 <= x < merged.len() {
        assert(merged.contains(merged[x]));
        assert(is_first(slots, merged[x]));
    }
}

/// What the devices have is what each of them has, one after the other.
pub proof fn devices_are_read_one_after_the_other(
    devices: Seq<SimDevice>,
    device: SimDevice,
    key: Seq<char>,
)
    ensures
        all_slots(devices.push(device)) == all_slots(devices) + slot_views(device.slots@),
        all_seen(devices.push(device), key) == all_seen(devices, key) + device.seen(key),
        device.observations@.dom().contains(key) ==> device.seen(key)
            == device.observations@[key]@,
        !device.observations@.dom().contains(key) ==> device.seen(key).len() == 0,
        all_slots(Seq::<SimDevice>::empty()).len() == 0,
        all_seen(Seq::<SimDevice>::empty(), key).len() == 0,
{
    assert(devices.push(device).drop_last() =~= devices);
}

} // verus!
