//! The attestation store: for every open slot, the messages that validators
//! have attested there, grouped by content hash.
//!
//! A slot may hold several groups at once, one for each content that some
//! validator has attested. The groups never merge; each counts its own
//! attesters, and a validator is counted in a group once.

use vstd::prelude::*;
use crate::keys::ChainSequenceKey;
use crate::keys::SlotId;
use crate::message::Message;
use crate::message::MessageView;
use crate::message::PendingMessage;
use crate::message::PendingView;
use crate::ordered_map::is_listing;
use crate::ordered_map::OrderedMap;
use crate::principal::Principal;

verus! {

/// The groups of one slot, by content hash.
pub type Groups = Map<Seq<char>, PendingView>;

/// The groups of every open slot.
pub type Pending = Map<SlotId, Groups>;

/// Says that no validator is listed twice in any group.
pub open spec fn attesters_distinct(pending: Pending) -> bool {
    forall|slot: SlotId, hash: Seq<char>|
        pending.dom().contains(slot) && #[trigger] pending[slot].dom().contains(hash)
            ==> pending[slot][hash].validators.no_duplicates()
}

/// Whether the slot has a group for `hash`.
pub open spec fn has_group(pending: Pending, slot: SlotId, hash: Seq<char>) -> bool {
    pending.dom().contains(slot) && pending[slot].dom().contains(hash)
}

/// Whether `validator` has attested the content `hash` in the slot.
pub open spec fn has_attested(pending: Pending, slot: SlotId, hash: Seq<char>, validator: Seq<u8>) -> bool {
    has_group(pending, slot, hash) && pending[slot][hash].validators.contains(validator)
}

/// How many validators have attested the content `hash` in the slot.
pub open spec fn attester_count(pending: Pending, slot: SlotId, hash: Seq<char>) -> nat {
    if has_group(pending, slot, hash) {
        pending[slot][hash].validators.len()
    } else {
        0
    }
}

/// The groups of the slot; none where the slot is not open.
pub open spec fn groups_of(pending: Pending, slot: SlotId) -> Groups {
    if pending.dom().contains(slot) {
        pending[slot]
    } else {
        Map::empty()
    }
}

/// The group for `hash` once `validator` has attested `message` there: the
/// group that was there with the validator added at its end, or a new group
/// of that message and that validator.
pub open spec fn group_after(
    pending: Pending,
    slot: SlotId,
    hash: Seq<char>,
    validator: Seq<u8>,
    message: MessageView,
) -> PendingView {
    if has_group(pending, slot, hash) {
        PendingView {
            message: pending[slot][hash].message,
            validators: pending[slot][hash].validators.push(validator),
        }
    } else {
        PendingView { message, validators: seq![validator] }
    }
}

/// The store once the attestation is recorded: the group for `hash` is
/// replaced or added, and every other group of every slot stays.
pub open spec fn recorded(
    pending: Pending,
    slot: SlotId,
    hash: Seq<char>,
    validator: Seq<u8>,
    message: MessageView,
) -> Pending {
    pending.insert(
        slot,
        groups_of(pending, slot).insert(hash, group_after(pending, slot, hash, validator, message)),
    )
}

/// Recording the attestation of a validator that has not attested the
/// content before keeps every group free of repeated validators.
pub proof fn lemma_recorded_distinct(
    pending: Pending,
    slot: SlotId,
    hash: Seq<char>,
    validator: Seq<u8>,
    message: MessageView,
)
    requires
        attesters_distinct(pending),
        !has_attested(pending, slot, hash, validator),
    ensures
        attesters_distinct(recorded(pending, slot, hash, validator, message)),
{
    let after = recorded(pending, slot, hash, validator, message);
    let group = group_after(pending, slot, hash, validator, message);
    if has_group(pending, slot, hash) {
        let before = pending[slot][hash].validators;
        assert(before.no_duplicates());
        assert forall|i: int, j: int|
            0 <= i < group.validators.len() && 0 <= j < group.validators.len() && i != j implies group.validators[i]
            != group.validators[j] by {
            if i < before.len() && j < before.len() {
                assert(before[i] != before[j]);
            } else if i < before.len() {
                assert(before.contains(before[i]));
            } else {
                assert(before.contains(before[j]));
            }
        }
    }
    assert(group.validators.no_duplicates());
    assert forall|s: SlotId, h: Seq<char>|
        after.dom().contains(s) && #[trigger] after[s].dom().contains(h) implies after[s][h].validators.no_duplicates() by {
        if s == slot {
            if h != hash {
                assert(pending[s].dom().contains(h));
            }
        } else {
            assert(pending[s].dom().contains(h));
        }
    }
}

/// The attestation store.
pub struct PendingStore {
    slots: OrderedMap<ChainSequenceKey, OrderedMap<String, PendingMessage>>,
}

impl View for PendingStore {
    type V = Pending;

    closed spec fn view(&self) -> Pending {
        self.slots@
    }
}

impl PendingStore {
    /// Every store keeps its groups free of repeated validators.
    #[verifier::type_invariant]
    pub open spec fn counted_once(self) -> bool {
        attesters_distinct(self@)
    }

    /// The open slots with their groups, in ascending order of the slots.
    pub closed spec fn listing(&self) -> Seq<(SlotId, Groups)> {
        self.slots.listing()
    }

    /// A store with no open slot.
    pub fn new() -> (store: Self)
        ensures
            store@ == Pending::empty(),
    {
        PendingStore { slots: OrderedMap::new() }
    }

    /// The number of open slots; states what the listing is, and that no
    /// group lists a validator twice.
    pub fn len(&self) -> (n: usize)
        ensures
            n == self.listing().len(),
            is_listing::<ChainSequenceKey, Groups>(self.listing(), self@),
            attesters_distinct(self@),
    {
        proof {
            use_type_invariant(self);
        }
        self.slots.len()
    }

    /// The slot at place `i` of the listing.
    pub fn key_at(&self, i: usize) -> (key: &ChainSequenceKey)
        requires
            i < self.listing().len(),
        ensures
            key@ == self.listing()[i as int].0,
    {
        self.slots.key_at(i)
    }

    /// The groups of the slot at place `i` of the listing.
    pub fn groups_at(&self, i: usize) -> (groups: &OrderedMap<String, PendingMessage>)
        requires
            i < self.listing().len(),
        ensures
            groups@ == self.listing()[i as int].1,
    {
        self.slots.value_at(i)
    }

    /// Whether the slot is open.
    pub fn contains_slot(&self, key: &ChainSequenceKey) -> (open: bool)
        ensures
            open == self@.dom().contains(key@),
    {
        self.slots.contains_key(key)
    }

    /// Whether `validator` has attested the content `hash` in the slot.
    pub fn has_attested(&self, key: &ChainSequenceKey, hash: &String, validator: &Principal) -> (found: bool)
        ensures
            found == has_attested(self@, key@, hash@, validator@),
    {
        match self.slots.get(key) {
            None => false,
            Some(groups) => match groups.get(hash) {
                None => false,
                Some(group) => group.has_attested(validator),
            },
        }
    }

    /// Records that `validator` attests `message`, whose content hash is
    /// `hash`, in the slot; hands back how many validators the group of that
    /// content then lists.
    pub fn record(
        &mut self,
        key: ChainSequenceKey,
        hash: String,
        validator: Principal,
        message: Message,
    ) -> (count: usize)
        requires
            !has_attested(old(self)@, key@, hash@, validator@),
        ensures
            final(self)@ == recorded(old(self)@, key@, hash@, validator@, message@),
            count == group_after(old(self)@, key@, hash@, validator@, message@).validators.len(),
            attesters_distinct(final(self)@),
    {
        proof {
            use_type_invariant(&*self);
            lemma_recorded_distinct(self@, key@, hash@, validator@, message@);
        }
        let ghost before = self@;
        let mut slots: OrderedMap<ChainSequenceKey, OrderedMap<String, PendingMessage>> = OrderedMap::new();
        std::mem::swap(&mut self.slots, &mut slots);
        let mut groups = match slots.remove(&key) {
            Some(groups) => groups,
            None => OrderedMap::new(),
        };
        assert(groups@ == groups_of(before, key@));
        let group = match groups.remove(&hash) {
            Some(group) => group.attest(validator),
            None => PendingMessage::new(message, validator),
        };
        assert(group@ == group_after(before, key@, hash@, validator@, message@));
        let count = group.count();
        groups.insert(hash, group);
        assert(groups@ =~= groups_of(before, key@).insert(hash@, group_after(before, key@, hash@, validator@, message@)));
        slots.insert(key, groups);
        assert(slots@ =~= recorded(before, key@, hash@, validator@, message@));
        self.slots = slots;
        count
    }

    /// Closes the slot, dropping every group in it.
    pub fn remove_slot(&mut self, key: &ChainSequenceKey)
        ensures
            final(self)@ == old(self)@.remove(key@),
            attesters_distinct(final(self)@),
    {
        proof {
            use_type_invariant(&*self);
        }
        let mut slots: OrderedMap<ChainSequenceKey, OrderedMap<String, PendingMessage>> = OrderedMap::new();
        std::mem::swap(&mut self.slots, &mut slots);
        let _ = slots.remove(key);
        self.slots = slots;
    }

    /// Closes every slot.
    pub fn clear(&mut self)
        ensures
            final(self)@ == Pending::empty(),
    {
        self.slots = OrderedMap::new();
    }
}

} // verus!
