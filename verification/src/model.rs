//! The relay as a mathematical state, and each operation as a function on it.
//!
//! The executable relay is specified against this model: every operation
//! states which outcome the model gives and which state the model moves to.

use vstd::prelude::*;
use crate::dispatch::invocation_of;
use crate::dispatch::InvocationView;
use crate::error::Attestation;
use crate::error::Error;
use crate::keys::SlotId;
use crate::keys::WatermarkId;
use crate::message::ContentView;
use crate::message::MessageView;
use crate::message::Session;
use crate::message::Sqos;
use crate::pending::group_after;
use crate::pending::has_attested;
use crate::pending::recorded;
use crate::pending::Pending;
use crate::principal::principal_text;

verus! {

/// Everything the relay holds.
pub struct Model {
    /// The identities that administer the roles.
    pub custodians: Set<Seq<u8>>,
    /// The identities that may send.
    pub lockers: Set<Seq<u8>>,
    /// The identities that may attest.
    pub validators: Set<Seq<u8>>,
    /// The open slots, each with its groups by content hash.
    pub pending: Pending,
    /// The messages sent, by destination chain and number.
    pub sent: Map<SlotId, MessageView>,
    /// The messages that reached their quorum and await execution.
    pub executable: Map<SlotId, MessageView>,
    /// For each destination chain, the number of the last message sent.
    pub sent_count: Map<Seq<char>, u64>,
    /// For each chain and validator, the highest number it has attested.
    pub final_received: Map<WatermarkId, u64>,
    /// For each source chain, the highest number ever admitted.
    pub latest: Map<Seq<char>, u64>,
}

/// The name under which the relay's own chain stamps what it sends.
pub open spec fn own_chain() -> Seq<char> {
    "DFINITY"@
}

/// The message that the relay sends for a locker whose textual form is
/// `sender`: stamped with the relay's own chain, the locker as sender and
/// signer, and the fixed quality of service.
pub open spec fn outbound_message(
    to_chain: Seq<char>,
    sender: Seq<char>,
    content: ContentView,
    session: Session,
) -> MessageView {
    MessageView {
        from_chain: own_chain(),
        to_chain,
        sender,
        signer: sender,
        sqos: Sqos { reveal: 1 },
        content,
        session,
    }
}

impl Model {
    /// The state of a relay that holds nothing and has no custodian.
    pub open spec fn empty() -> Model {
        Model {
            custodians: Set::empty(),
            lockers: Set::empty(),
            validators: Set::empty(),
            pending: Map::empty(),
            sent: Map::empty(),
            executable: Map::empty(),
            sent_count: Map::empty(),
            final_received: Map::empty(),
            latest: Map::empty(),
        }
    }

    /// The state of a relay that `caller` has set up: it is the one
    /// custodian, and nothing else is held.
    pub open spec fn init(caller: Seq<u8>) -> Model {
        Model { custodians: set![caller], ..Model::empty() }
    }

    /// The highest number ever admitted from `chain`; 0 before the first.
    pub open spec fn global_watermark(self, chain: Seq<char>) -> u64 {
        if self.latest.dom().contains(chain) {
            self.latest[chain]
        } else {
            0
        }
    }

    /// The highest number that `validator` has attested on `chain`; 0
    /// before the first.
    pub open spec fn validator_watermark(self, chain: Seq<char>, validator: Seq<u8>) -> u64 {
        if self.final_received.dom().contains((chain, validator)) {
            self.final_received[(chain, validator)]
        } else {
            0
        }
    }

    /// The number of the last message sent to `chain`; 0 before the first.
    pub open spec fn sent_message_count(self, chain: Seq<char>) -> u64 {
        if self.sent_count.dom().contains(chain) {
            self.sent_count[chain]
        } else {
            0
        }
    }

    /// The state with `locker` among the lockers.
    pub open spec fn with_locker(self, locker: Seq<u8>) -> Model {
        Model { lockers: self.lockers.insert(locker), ..self }
    }

    /// The state with `validator` among the validators.
    pub open spec fn with_validator(self, validator: Seq<u8>) -> Model {
        Model { validators: self.validators.insert(validator), ..self }
    }

    /// The state with `validator` no longer among the validators.
    pub open spec fn without_validator(self, validator: Seq<u8>) -> Model {
        Model { validators: self.validators.remove(validator), ..self }
    }

    /// Whether the slot `id` of `chain` is admitted for `validator`.
    ///
    /// A number beyond the next one of the chain is a gap. The number that
    /// the validator attested last is refused as received. A number behind
    /// the validator, or behind the chain for a validator that has attested
    /// nothing yet, is admitted only while its slot is open.
    pub open spec fn admission(self, chain: Seq<char>, id: u64, validator: Seq<u8>) -> Result<(), Error> {
        let head = self.global_watermark(chain) + 1;
        let own = self.validator_watermark(chain, validator);
        if id > head {
            Err(Error::FatalSequenceGap)
        } else if own == id {
            Err(Error::AlreadyReceived)
        } else if (id < own || (id < head && own == 0)) && !self.pending.dom().contains((chain, id)) {
            Err(Error::AlreadyCompleted)
        } else {
            Ok(())
        }
    }

    /// The state once the slot is admitted: the chain's watermark moves to
    /// `id` where `id` is the next number, and the validator's watermark
    /// moves to `id` where `id` lies beyond it.
    pub open spec fn admitted(self, chain: Seq<char>, id: u64, validator: Seq<u8>) -> Model {
        Model {
            latest: if id == self.global_watermark(chain) + 1 {
                self.latest.insert(chain, id)
            } else {
                self.latest
            },
            final_received: if id > self.validator_watermark(chain, validator) {
                self.final_received.insert((chain, validator), id)
            } else {
                self.final_received
            },
            ..self
        }
    }

    /// The number of attestations that promote a message: the number of
    /// validators there are when the attestation is made.
    pub open spec fn quorum(self) -> nat {
        self.validators.len()
    }

    /// How many validators the group of the content `hash` lists in the
    /// slot once `validator` has attested `message` under that hash.
    pub open spec fn count_after(
        self,
        slot: SlotId,
        hash: Seq<char>,
        validator: Seq<u8>,
        message: MessageView,
    ) -> nat {
        group_after(self.pending, slot, hash, validator, message).validators.len()
    }

    /// The outcome of recording that `validator` attests `message` in the
    /// slot under the content hash `hash`: refused where it has attested
    /// that content there before; promoted where the group of that content
    /// then reaches the quorum; pending, with the group's count, otherwise.
    pub open spec fn attestation_under(
        self,
        slot: SlotId,
        hash: Seq<char>,
        validator: Seq<u8>,
        message: MessageView,
    ) -> Result<Attestation, Error> {
        if has_attested(self.pending, slot, hash, validator) {
            Err(Error::DuplicateAttestation)
        } else if self.count_after(slot, hash, validator, message) >= self.quorum() {
            Ok(Attestation::Promoted)
        } else {
            Ok(Attestation::Pending(self.count_after(slot, hash, validator, message) as usize))
        }
    }

    /// The state once the attestation is recorded under `hash`. On
    /// promotion the message becomes executable and the whole slot is
    /// closed, with every group in it; otherwise the group of the content
    /// gains the validator.
    pub open spec fn attested_under(
        self,
        slot: SlotId,
        hash: Seq<char>,
        validator: Seq<u8>,
        message: MessageView,
    ) -> Model {
        if self.count_after(slot, hash, validator, message) >= self.quorum() {
            Model {
                executable: self.executable.insert(slot, message),
                pending: self.pending.remove(slot),
                ..self
            }
        } else {
            Model { pending: recorded(self.pending, slot, hash, validator, message), ..self }
        }
    }

    /// The outcome of recording that `validator` attests `message` in the
    /// slot, under the content hash of the message.
    pub open spec fn attestation(self, slot: SlotId, validator: Seq<u8>, message: MessageView) -> Result<
        Attestation,
        Error,
    > {
        self.attestation_under(slot, message.hash(), validator, message)
    }

    /// The state once the attestation is recorded under the content hash of
    /// the message.
    pub open spec fn attested(self, slot: SlotId, validator: Seq<u8>, message: MessageView) -> Model {
        self.attested_under(slot, message.hash(), validator, message)
    }

    /// The outcome of `caller` attesting `message` as number `id` of the
    /// chain it names as its origin.
    pub open spec fn reception(self, caller: Seq<u8>, id: u64, message: MessageView) -> Result<bool, Error> {
        if !self.validators.contains(caller) {
            Err(Error::NotValidator)
        } else {
            match self.admission(message.from_chain, id, caller) {
                Err(refusal) => Err(refusal),
                Ok(_) => {
                    if has_attested(self.pending, (message.from_chain, id), message.hash(), caller) {
                        Err(Error::DuplicateAttestation)
                    } else {
                        Ok(true)
                    }
                },
            }
        }
    }

    /// The state once the attestation of `caller` is accepted: the slot is
    /// admitted, then the attestation recorded.
    pub open spec fn received(self, caller: Seq<u8>, id: u64, message: MessageView) -> Model {
        self.admitted(message.from_chain, id, caller).attested((message.from_chain, id), caller, message)
    }

    /// The number that the next message to `to_chain` gets.
    pub open spec fn next_sent_id(self, to_chain: Seq<char>) -> int {
        self.sent_message_count(to_chain) + 1
    }

    /// The state once `message` is sent to `to_chain`: it is stored under
    /// the next number of that chain, which becomes the chain's count.
    pub open spec fn enqueued(self, to_chain: Seq<char>, message: MessageView) -> Model {
        let id = self.next_sent_id(to_chain) as u64;
        Model {
            sent: self.sent.insert((to_chain, id), message),
            sent_count: self.sent_count.insert(to_chain, id),
            ..self
        }
    }

    /// The state once the locker `caller` has sent `content` to `to_chain`.
    pub open spec fn sent_by(
        self,
        caller: Seq<u8>,
        to_chain: Seq<char>,
        content: ContentView,
        session: Session,
    ) -> Model {
        self.enqueued(to_chain, outbound_message(to_chain, principal_text(caller), content, session))
    }

    /// The state once each of `messages` is sent to `to_chain`, in turn.
    pub open spec fn enqueued_all(self, to_chain: Seq<char>, messages: Seq<MessageView>) -> Model
        decreases messages.len(),
    {
        if messages.len() == 0 {
            self
        } else {
            self.enqueued_all(to_chain, messages.drop_last()).enqueued(to_chain, messages.last())
        }
    }

    /// The outcome of asking for the execution of the slot: the call to
    /// make where the slot holds an executable message, `NotFound` where it
    /// holds none.
    pub open spec fn dispatch(self, slot: SlotId) -> Result<InvocationView, Error> {
        if self.executable.dom().contains(slot) {
            Ok(invocation_of(slot.1, self.executable[slot]))
        } else {
            Err(Error::NotFound)
        }
    }

    /// The state once the executable message of the slot is handed out for
    /// execution: it is no longer held.
    pub open spec fn dispatched(self, slot: SlotId) -> Model {
        Model { executable: self.executable.remove(slot), ..self }
    }

    /// The state once what was received from `chains` is purged: no slot is
    /// open, nothing is executable, and for each of the chains the
    /// watermark of the chain and those of the present validators are gone.
    pub open spec fn received_cleared(self, chains: Set<Seq<char>>) -> Model {
        Model {
            executable: Map::empty(),
            pending: Map::empty(),
            final_received: self.final_received.remove_keys(
                Set::new(|key: WatermarkId| chains.contains(key.0) && self.validators.contains(key.1)),
            ),
            latest: self.latest.remove_keys(chains),
            ..self
        }
    }

    /// The state once what was sent to `chains` is purged: for each of the
    /// chains the messages numbered from 1 to its count are gone, and so is
    /// the count.
    pub open spec fn sent_cleared(self, chains: Set<Seq<char>>) -> Model {
        Model {
            sent: self.sent.remove_keys(
                Set::new(
                    |key: SlotId| chains.contains(key.0) && 1 <= key.1 <= self.sent_message_count(key.0),
                ),
            ),
            sent_count: self.sent_count.remove_keys(chains),
            ..self
        }
    }

    /// Whether `id` is the lowest open slot of `chain` beyond `own`.
    pub open spec fn is_next_open(self, chain: Seq<char>, own: u64, id: u64) -> bool {
        &&& id > own
        &&& self.pending.dom().contains((chain, id))
        &&& forall|other: u64| other > own && #[trigger] self.pending.dom().contains((chain, other)) ==> id <= other
    }

    /// The number that `validator` is to attest next on `chain`: the lowest
    /// open slot of the chain beyond the validator's watermark, or, where
    /// there is none, the number after the chain's watermark.
    pub open spec fn porting_task(self, chain: Seq<char>, validator: Seq<u8>) -> int {
        let own = self.validator_watermark(chain, validator);
        if exists|id: u64| self.is_next_open(chain, own, id) {
            (choose|id: u64| self.is_next_open(chain, own, id)) as int
        } else {
            self.global_watermark(chain) + 1
        }
    }
}

} // verus!
