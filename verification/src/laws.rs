//! What holds of the relay whatever it holds and whoever calls: the laws of
//! sequencing, of the quorum, of dispatch and of the numbering of what is
//! sent. They are stated of the model that the operations are specified by.

use vstd::prelude::*;
use crate::dispatch::InvocationView;
use crate::error::Attestation;
use crate::error::Error;
use crate::keys::SlotId;
use crate::message::ContentView;
use crate::message::MessageView;
use crate::message::Session;
use crate::model::Model;
use crate::pending::attester_count;
use crate::pending::attesters_distinct;
use crate::pending::group_after;
use crate::pending::has_attested;
use crate::pending::lemma_recorded_distinct;
use crate::pending::recorded;

verus! {

/// The watermark of a chain moves in single steps. An accepted attestation
/// of the next number of its chain moves that chain's watermark up by
/// exactly one; any other accepted attestation leaves it where it is; no
/// attestation moves the watermark of another chain; and a number beyond the
/// next one is refused as a gap, whoever among the validators attests it.
pub proof fn law_watermark_steps(pre: Model, caller: Seq<u8>, id: u64, message: MessageView, chain: Seq<char>)
    ensures
        pre.reception(caller, id, message) is Ok ==> id <= pre.global_watermark(message.from_chain) + 1,
        pre.reception(caller, id, message) is Ok ==> pre.received(caller, id, message).global_watermark(chain) == (if chain
            == message.from_chain && id == pre.global_watermark(chain) + 1 {
            pre.global_watermark(chain) + 1
        } else {
            pre.global_watermark(chain) as int
        }),
        pre.validators.contains(caller) && id > pre.global_watermark(message.from_chain) + 1 ==> pre.reception(
            caller,
            id,
            message,
        ) == Err::<bool, Error>(Error::FatalSequenceGap),
{
}

/// The same of the admission alone: an admitted number is at most the next
/// one, and admitting it moves the watermark of its chain by one if it is
/// the next one and not at all otherwise.
pub proof fn law_admission_steps(pre: Model, chain: Seq<char>, id: u64, validator: Seq<u8>)
    ensures
        pre.admission(chain, id, validator) is Ok ==> id <= pre.global_watermark(chain) + 1,
        id > pre.global_watermark(chain) + 1 ==> pre.admission(chain, id, validator) == Err::<(), Error>(
            Error::FatalSequenceGap,
        ),
        pre.admitted(chain, id, validator).global_watermark(chain) == (if id == pre.global_watermark(chain) + 1 {
            pre.global_watermark(chain) + 1
        } else {
            pre.global_watermark(chain) as int
        }),
{
}

/// An attestation counts once and promotes exactly at the quorum, under
/// whatever hash the content is filed. A validator that has attested the
/// content in the slot before is refused. Otherwise the group of the content
/// lists one validator more than before; the message is promoted if and only
/// if that count is at least the number of validators there are at that
/// moment, so a count one short of it never promotes; on promotion the
/// message is executable and the slot is closed; without it, nothing becomes
/// executable.
pub proof fn law_quorum_exact(pre: Model, slot: SlotId, hash: Seq<char>, validator: Seq<u8>, message: MessageView)
    ensures
        has_attested(pre.pending, slot, hash, validator) ==> pre.attestation_under(slot, hash, validator, message)
            == Err::<Attestation, Error>(Error::DuplicateAttestation),
        !has_attested(pre.pending, slot, hash, validator) ==> {
            let before = attester_count(pre.pending, slot, hash);
            let after = pre.count_after(slot, hash, validator, message);
            let post = pre.attested_under(slot, hash, validator, message);
            &&& after == before + 1
            &&& pre.attestation_under(slot, hash, validator, message) is Ok
            &&& pre.attestation_under(slot, hash, validator, message) == Ok::<Attestation, Error>(
                Attestation::Promoted,
            ) <==> after >= pre.quorum()
            &&& after + 1 == pre.quorum() ==> pre.attestation_under(slot, hash, validator, message) == Ok::<
                Attestation,
                Error,
            >(Attestation::Pending(after as usize))
            &&& after >= pre.quorum() ==> post.executable.dom().contains(slot) && post.executable[slot] == message
                && !post.pending.dom().contains(slot)
            &&& after < pre.quorum() ==> post.executable == pre.executable && attester_count(post.pending, slot, hash)
                == after
        },
{
}

/// Where the group of the content lists fewer validators than there are,
/// the attestation promotes if and only if the count then equals the number
/// of validators.
pub proof fn law_quorum_reached_by_equality(
    pre: Model,
    slot: SlotId,
    hash: Seq<char>,
    validator: Seq<u8>,
    message: MessageView,
)
    requires
        !has_attested(pre.pending, slot, hash, validator),
        attester_count(pre.pending, slot, hash) < pre.quorum(),
    ensures
        pre.attestation_under(slot, hash, validator, message) == Ok::<Attestation, Error>(Attestation::Promoted)
            <==> pre.count_after(slot, hash, validator, message) == pre.quorum(),
{
}

/// No group ever lists a validator twice: a new relay has no group, and an
/// accepted attestation keeps the groups free of repeats, so the count of a
/// group is the number of distinct validators that attested its content.
pub proof fn law_attesters_distinct(pre: Model, caller: Seq<u8>, id: u64, message: MessageView)
    requires
        attesters_distinct(pre.pending),
        pre.reception(caller, id, message) is Ok,
    ensures
        attesters_distinct(Model::init(caller).pending),
        attesters_distinct(pre.received(caller, id, message).pending),
        ({
            let group = group_after(pre.pending, (message.from_chain, id), message.hash(), caller, message);
            group.validators.to_set().len() == group.validators.len()
        }),
{
    let slot = (message.from_chain, id);
    let admitted = pre.admitted(message.from_chain, id, caller);
    lemma_recorded_distinct(pre.pending, slot, message.hash(), caller, message);
    let after = recorded(pre.pending, slot, message.hash(), caller, message);
    let group = group_after(pre.pending, slot, message.hash(), caller, message);
    assert(after[slot].dom().contains(message.hash()));
    assert(group.validators.no_duplicates());
    group.validators.unique_seq_to_set();
    assert(admitted.pending == pre.pending);
}

/// A message is handed out for execution once: once the slot has been
/// claimed, asking for it again finds nothing.
pub proof fn law_dispatch_once(pre: Model, slot: SlotId)
    ensures
        pre.dispatched(slot).dispatch(slot) == Err::<InvocationView, Error>(Error::NotFound),
{
}

/// What happens while the call is under way does not bring a claimed
/// message back: neither a message sent meanwhile nor an attestation in
/// another slot makes the claimed slot executable again.
pub proof fn law_dispatch_once_despite_traffic(
    pre: Model,
    slot: SlotId,
    locker: Seq<u8>,
    to_chain: Seq<char>,
    content: ContentView,
    session: Session,
    other: SlotId,
    validator: Seq<u8>,
    message: MessageView,
)
    requires
        other != slot,
    ensures
        pre.dispatched(slot).sent_by(locker, to_chain, content, session).dispatch(slot) == Err::<
            InvocationView,
            Error,
        >(Error::NotFound),
        pre.dispatched(slot).attested(other, validator, message).dispatch(slot) == Err::<
            InvocationView,
            Error,
        >(Error::NotFound),
{
}

/// Messages sent to one chain are numbered in turn, without gaps: after
/// `messages` are sent to a chain whose count was `c`, the count is `c` and
/// their number, and the message sent as the `k`-th of them is stored under
/// `c + k + 1`. On a new relay the first number is 1.
pub proof fn law_outbound_numbering(pre: Model, to_chain: Seq<char>, messages: Seq<MessageView>, caller: Seq<u8>)
    requires
        pre.sent_message_count(to_chain) + messages.len() <= u64::MAX,
    ensures
        pre.enqueued_all(to_chain, messages).sent_message_count(to_chain) == pre.sent_message_count(to_chain)
            + messages.len(),
        forall|k: int|
            #![trigger messages[k]]
            0 <= k < messages.len() ==> pre.enqueued_all(to_chain, messages).sent.contains_pair(
                (to_chain, (pre.sent_message_count(to_chain) + k + 1) as u64),
                messages[k],
            ),
        Model::init(caller).next_sent_id(to_chain) == 1,
    decreases messages.len(),
{
    if messages.len() > 0 {
        let earlier = messages.drop_last();
        law_outbound_numbering(pre, to_chain, earlier, caller);
        let mid = pre.enqueued_all(to_chain, earlier);
        let post = pre.enqueued_all(to_chain, messages);
        assert(post == mid.enqueued(to_chain, messages.last()));
        assert forall|k: int| #![trigger messages[k]] 0 <= k < messages.len() implies post.sent.contains_pair(
            (to_chain, (pre.sent_message_count(to_chain) + k + 1) as u64),
            messages[k],
        ) by {
            if k < earlier.len() {
                assert(earlier[k] == messages[k]);
                assert(mid.sent.contains_pair(
                    (to_chain, (pre.sent_message_count(to_chain) + k + 1) as u64),
                    earlier[k],
                ));
            }
        }
    }
}

/// Catching up: for a number at or below the watermark of its chain that
/// is not the one the validator attested last, and that lies behind the
/// validator's own watermark or finds the validator with none, the slot is
/// admitted if and only if it is still open; once it is closed, the refusal
/// is `AlreadyCompleted`.
pub proof fn law_catch_up(pre: Model, chain: Seq<char>, id: u64, validator: Seq<u8>)
    requires
        id <= pre.global_watermark(chain),
        pre.validator_watermark(chain, validator) != id,
        id < pre.validator_watermark(chain, validator) || pre.validator_watermark(chain, validator) == 0
            || pre.pending.dom().contains((chain, id)),
    ensures
        pre.admission(chain, id, validator) is Ok <==> pre.pending.dom().contains((chain, id)),
        !pre.pending.dom().contains((chain, id)) ==> pre.admission(chain, id, validator) == Err::<(), Error>(
            Error::AlreadyCompleted,
        ),
{
}

/// Catching up, of the whole attestation: under the same conditions a
/// validator that has not attested the content in the slot is accepted if
/// and only if the slot is still open, and refused with `AlreadyCompleted`
/// once it is closed.
pub proof fn law_catch_up_attestation(pre: Model, caller: Seq<u8>, id: u64, message: MessageView)
    requires
        pre.validators.contains(caller),
        id <= pre.global_watermark(message.from_chain),
        pre.validator_watermark(message.from_chain, caller) != id,
        id < pre.validator_watermark(message.from_chain, caller) || pre.validator_watermark(message.from_chain, caller)
            == 0 || pre.pending.dom().contains((message.from_chain, id)),
        !has_attested(pre.pending, (message.from_chain, id), message.hash(), caller),
    ensures
        pre.reception(caller, id, message) is Ok <==> pre.pending.dom().contains((message.from_chain, id)),
        !pre.pending.dom().contains((message.from_chain, id)) ==> pre.reception(caller, id, message) == Err::<
            bool,
            Error,
        >(Error::AlreadyCompleted),
{
}

} // verus!
