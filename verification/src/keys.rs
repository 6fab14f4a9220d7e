//! The keys under which the relay files what it holds.

use vstd::prelude::*;
use crate::order::bytes_precede;
use crate::order::text_precedes;
use crate::order::Key;
use crate::order::Rank;
use crate::principal::Principal;

verus! {

/// The address of one message slot: a chain and a sequence number on it.
#[derive(Debug)]
pub struct ChainSequenceKey {
    pub chain_name: String,
    pub id: u64,
}

/// The address of one validator's watermark on one chain.
pub struct ValidatorWatermarkKey {
    pub chain_name: String,
    pub validator: Principal,
}

/// The mathematical value of a `ChainSequenceKey`.
pub type SlotId = (Seq<char>, u64);

/// The mathematical value of a `ValidatorWatermarkKey`.
pub type WatermarkId = (Seq<char>, Seq<u8>);

/// Slots are ordered by chain name, and on one chain by sequence number.
pub open spec fn slot_precedes(a: SlotId, b: SlotId) -> bool {
    text_precedes(a.0, b.0) || (a.0 == b.0 && a.1 < b.1)
}

/// Watermarks are ordered by chain name, and on one chain by validator.
pub open spec fn watermark_precedes(a: WatermarkId, b: WatermarkId) -> bool {
    text_precedes(a.0, b.0) || (a.0 == b.0 && bytes_precede(a.1, b.1))
}

impl View for ChainSequenceKey {
    type V = SlotId;

    open spec fn view(&self) -> SlotId {
        (self.chain_name@, self.id)
    }
}

impl ChainSequenceKey {
    /// The key of slot `id` of the chain `chain_name`.
    pub fn new(chain_name: &str, id: u64) -> (key: Self)
        ensures
            key@ == (chain_name@, id),
    {
        ChainSequenceKey { chain_name: chain_name.to_owned(), id }
    }
}

impl Key for ChainSequenceKey {
    open spec fn precedes(a: SlotId, b: SlotId) -> bool {
        slot_precedes(a, b)
    }

    proof fn lemma_irreflexive(a: SlotId) {
        String::lemma_irreflexive(a.0);
    }

    proof fn lemma_transitive(a: SlotId, b: SlotId, c: SlotId) {
        if text_precedes(a.0, b.0) && text_precedes(b.0, c.0) {
            String::lemma_transitive(a.0, b.0, c.0);
        }
    }

    fn rank(&self, other: &Self) -> (r: Rank) {
        proof {
            String::lemma_irreflexive(self.chain_name@);
            if text_precedes(self.chain_name@, other.chain_name@) && text_precedes(
                other.chain_name@,
                self.chain_name@,
            ) {
                String::lemma_transitive(self.chain_name@, other.chain_name@, self.chain_name@);
            }
        }
        match self.chain_name.rank(&other.chain_name) {
            Rank::Before => Rank::Before,
            Rank::After => Rank::After,
            Rank::Same => {
                if self.id < other.id {
                    Rank::Before
                } else if self.id == other.id {
                    Rank::Same
                } else {
                    Rank::After
                }
            },
        }
    }

    fn duplicate(&self) -> (copy: Self) {
        ChainSequenceKey { chain_name: self.chain_name.clone(), id: self.id }
    }
}

impl View for ValidatorWatermarkKey {
    type V = WatermarkId;

    open spec fn view(&self) -> WatermarkId {
        (self.chain_name@, self.validator@)
    }
}

impl ValidatorWatermarkKey {
    /// The key of the watermark of `validator` on the chain `chain_name`.
    pub fn new(chain_name: &str, validator: &Principal) -> (key: Self)
        ensures
            key@ == (chain_name@, validator@),
    {
        ValidatorWatermarkKey { chain_name: chain_name.to_owned(), validator: validator.duplicate() }
    }
}

impl Key for ValidatorWatermarkKey {
    open spec fn precedes(a: WatermarkId, b: WatermarkId) -> bool {
        watermark_precedes(a, b)
    }

    proof fn lemma_irreflexive(a: WatermarkId) {
        String::lemma_irreflexive(a.0);
        Principal::lemma_irreflexive(a.1);
    }

    proof fn lemma_transitive(a: WatermarkId, b: WatermarkId, c: WatermarkId) {
        if text_precedes(a.0, b.0) && text_precedes(b.0, c.0) {
            String::lemma_transitive(a.0, b.0, c.0);
        }
        if bytes_precede(a.1, b.1) && bytes_precede(b.1, c.1) {
            Principal::lemma_transitive(a.1, b.1, c.1);
        }
    }

    fn rank(&self, other: &Self) -> (r: Rank) {
        proof {
            String::lemma_irreflexive(self.chain_name@);
            if text_precedes(self.chain_name@, other.chain_name@) && text_precedes(
                other.chain_name@,
                self.chain_name@,
            ) {
                String::lemma_transitive(self.chain_name@, other.chain_name@, self.chain_name@);
            }
        }
        match self.chain_name.rank(&other.chain_name) {
            Rank::Before => Rank::Before,
            Rank::After => Rank::After,
            Rank::Same => self.validator.rank(&other.validator),
        }
    }

    fn duplicate(&self) -> (copy: Self) {
        ValidatorWatermarkKey {
            chain_name: self.chain_name.clone(),
            validator: self.validator.duplicate(),
        }
    }
}

} // verus!
