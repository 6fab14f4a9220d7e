//! The relay: the role sets, the watermarks, the attestation store and the
//! message stores, and the operations on them.
//!
//! Each operation runs to its end on a state that it alone holds. An
//! operation that is refused leaves the state as it found it.

use vstd::prelude::*;
use crate::dispatch::invocation;
use crate::dispatch::Invocation;
use crate::dispatch::InvocationView;
use crate::error::Attestation;
use crate::error::Error;
use crate::keys::ChainSequenceKey;
use crate::keys::SlotId;
use crate::keys::ValidatorWatermarkKey;
use crate::keys::WatermarkId;
use crate::message::Content;
use crate::message::Message;
use crate::message::MessageView;
use crate::message::PendingMessage;
use crate::message::PendingView;
use crate::message::Session;
use crate::message::Sqos;
use crate::model::outbound_message;
use crate::model::own_chain;
use crate::model::Model;
use crate::order::Key;
use crate::ordered_map::is_listing;
use crate::ordered_map::OrderedMap;
use crate::ordered_set::key_views;
use crate::ordered_set::lists_members;
use crate::pending::attesters_distinct;
use crate::pending::Groups;
use crate::pending::Pending;
use crate::pending::PendingStore;
use crate::principal::principal_text;
use crate::principal::principal_views;
use crate::principal::Principal;
use crate::principal::PrincipalSet;

verus! {

/// The state of a relay.
pub struct State {
    custodians: PrincipalSet,
    lockers: PrincipalSet,
    validators: PrincipalSet,
    pending: PendingStore,
    sent: OrderedMap<ChainSequenceKey, Message>,
    executable: OrderedMap<ChainSequenceKey, Message>,
    sent_count: OrderedMap<String, u64>,
    final_received: OrderedMap<ValidatorWatermarkKey, u64>,
    latest: OrderedMap<String, u64>,
}

impl View for State {
    type V = Model;

    closed spec fn view(&self) -> Model {
        Model {
            custodians: self.custodians@,
            lockers: self.lockers@,
            validators: self.validators@,
            pending: self.pending@,
            sent: self.sent@,
            executable: self.executable@,
            sent_count: self.sent_count@,
            final_received: self.final_received@,
            latest: self.latest@,
        }
    }
}

/// The name under which the relay's own chain stamps what it sends.
pub fn own_chain_name() -> (name: String)
    ensures
        name@ == own_chain(),
{
    "DFINITY".to_owned()
}

/// The message that the relay sends to `to_chain` for a locker whose
/// textual form is `sender`.
pub fn stamp_outbound(to_chain: &str, sender: &str, content: Content, session: Session) -> (message: Message)
    ensures
        message@ == outbound_message(to_chain@, sender@, content@, session),
{
    Message {
        from_chain: own_chain_name(),
        to_chain: to_chain.to_owned(),
        sender: sender.to_owned(),
        signer: sender.to_owned(),
        sqos: Sqos { reveal: 1 },
        content,
        session,
    }
}

/// The value stored under `key`, or 0 where there is none.
fn number_at<K: Key>(numbers: &OrderedMap<K, u64>, key: &K) -> (n: u64)
    ensures
        n == (if numbers@.dom().contains(key@) {
            numbers@[key@]
        } else {
            0
        }),
{
    match numbers.get(key) {
        Some(n) => *n,
        None => 0,
    }
}

/// The views of a list of keyed messages.
pub open spec fn message_entries(list: Seq<(ChainSequenceKey, Message)>) -> Seq<(SlotId, MessageView)> {
    list.map_values(|entry: (ChainSequenceKey, Message)| (entry.0@, entry.1@))
}

/// Copies out the entries of a message store, in ascending order.
fn list_messages(store: &OrderedMap<ChainSequenceKey, Message>) -> (list: Vec<(ChainSequenceKey, Message)>)
    ensures
        is_listing::<ChainSequenceKey, MessageView>(message_entries(list@), store@),
{
    let n = store.len();
    let mut list: Vec<(ChainSequenceKey, Message)> = Vec::new();
    let mut i: usize = 0;
    while i < n
        invariant
            i <= n,
            n == store.listing().len(),
            list@.len() == i,
            forall|j: int| 0 <= j < i ==> #[trigger] message_entries(list@)[j] == store.listing()[j],
        decreases n - i,
    {
        let ghost before = list@;
        list.push((store.key_at(i).duplicate(), store.value_at(i).clone()));
        assert forall|j: int| 0 <= j < i + 1 implies #[trigger] message_entries(list@)[j] == store.listing()[j] by {
            if j < i {
                assert(message_entries(before)[j] == store.listing()[j]);
            }
        }
        i += 1;
    }
    assert(message_entries(list@) =~= store.listing());
    list
}

/// The names in a list of chains.
pub open spec fn chain_names(chains: Seq<String>) -> Set<Seq<char>> {
    Set::new(|name: Seq<char>| exists|i: int| 0 <= i < chains.len() && #[trigger] chains[i]@ == name)
}

/// The names in the first `n + 1` chains are those in the first `n` and
/// the name of the next.
proof fn lemma_chain_names_step(chains: Seq<String>, n: int)
    requires
        0 <= n < chains.len(),
    ensures
        chain_names(chains.take(n + 1)) == chain_names(chains.take(n)).insert(chains[n]@),
{
    let more = chains.take(n + 1);
    let fewer = chains.take(n);
    assert forall|name: Seq<char>| chain_names(more).contains(name) <==> chain_names(fewer).insert(
        chains[n]@,
    ).contains(name) by {
        if chain_names(more).contains(name) {
            let i = choose|i: int| 0 <= i < more.len() && #[trigger] more[i]@ == name;
            if i < n {
                assert(fewer[i]@ == name);
            }
        }
        if chain_names(fewer).contains(name) {
            let i = choose|i: int| 0 <= i < fewer.len() && #[trigger] fewer[i]@ == name;
            assert(more[i]@ == name);
        }
        if name == chains[n]@ {
            assert(more[n]@ == name);
        }
    }
    assert(chain_names(more) =~= chain_names(fewer).insert(chains[n]@));
}

/// The sent messages that a purge of `chains` takes out: those numbered
/// from 1 to the count of their chain.
pub open spec fn purged_sent(count: Map<Seq<char>, u64>, chains: Set<Seq<char>>) -> Set<SlotId> {
    Set::new(
        |key: SlotId|
            chains.contains(key.0) && 1 <= key.1 <= (if count.dom().contains(key.0) {
                count[key.0]
            } else {
                0
            }),
    )
}

/// The watermarks that a purge of `chains` takes out: those of the given
/// validators on those chains.
pub open spec fn purged_watermarks(validators: Set<Seq<u8>>, chains: Set<Seq<char>>) -> Set<WatermarkId> {
    Set::new(|key: WatermarkId| chains.contains(key.0) && validators.contains(key.1))
}

/// Takes out of `sent` the messages of `chain` numbered from 1 to `count`.
fn forget_sent(sent: &mut OrderedMap<ChainSequenceKey, Message>, chain: &str, count: u64)
    ensures
        final(sent)@ == old(sent)@.remove_keys(Set::new(|key: SlotId| key.0 == chain@ && 1 <= key.1 <= count)),
{
    let mut done: u64 = 0;
    assert(sent@ =~= old(sent)@.remove_keys(Set::new(|key: SlotId| key.0 == chain@ && 1 <= key.1 <= done)));
    while done < count
        invariant
            done <= count,
            sent@ == old(sent)@.remove_keys(Set::new(|key: SlotId| key.0 == chain@ && 1 <= key.1 <= done)),
        decreases count - done,
    {
        done += 1;
        let _ = sent.remove(&ChainSequenceKey::new(chain, done));
        assert(sent@ =~= old(sent)@.remove_keys(Set::new(|key: SlotId| key.0 == chain@ && 1 <= key.1 <= done)));
    }
}

/// Purges what was sent to `chains`: chain by chain, the messages numbered
/// from 1 to the chain's count, then the count.
fn purge_sent(
    sent: &mut OrderedMap<ChainSequenceKey, Message>,
    sent_count: &mut OrderedMap<String, u64>,
    chains: &Vec<String>,
)
    ensures
        final(sent)@ == old(sent)@.remove_keys(purged_sent(old(sent_count)@, chain_names(chains@))),
        final(sent_count)@ == old(sent_count)@.remove_keys(chain_names(chains@)),
{
    let mut j: usize = 0;
    assert(sent@ =~= old(sent)@.remove_keys(purged_sent(old(sent_count)@, chain_names(chains@.take(0)))));
    assert(sent_count@ =~= old(sent_count)@.remove_keys(chain_names(chains@.take(0))));
    while j < chains.len()
        invariant
            j <= chains.len(),
            sent@ == old(sent)@.remove_keys(purged_sent(old(sent_count)@, chain_names(chains@.take(j as int)))),
            sent_count@ == old(sent_count)@.remove_keys(chain_names(chains@.take(j as int))),
        decreases chains.len() - j,
    {
        let chain = &chains[j];
        let count = number_at(sent_count, chain);
        forget_sent(sent, chain.as_str(), count);
        let _ = sent_count.remove(chain);
        proof {
            lemma_chain_names_step(chains@, j as int);
            let more = chain_names(chains@.take(j + 1));
            assert(sent@ =~= old(sent)@.remove_keys(purged_sent(old(sent_count)@, more)));
            assert(sent_count@ =~= old(sent_count)@.remove_keys(more));
        }
        j += 1;
    }
    assert(chains@.take(j as int) =~= chains@);
}

/// Takes out of `watermarks` those of the listed validators on `chain`.
fn forget_validators(
    watermarks: &mut OrderedMap<ValidatorWatermarkKey, u64>,
    chain: &str,
    validators: &Vec<Principal>,
)
    ensures
        final(watermarks)@ == old(watermarks)@.remove_keys(
            Set::new(|key: WatermarkId| key.0 == chain@ && principal_views(validators@).contains(key.1)),
        ),
{
    let mut i: usize = 0;
    let ghost all = principal_views(validators@);
    assert(watermarks@ =~= old(watermarks)@.remove_keys(
        Set::new(|key: WatermarkId| key.0 == chain@ && all.take(0).contains(key.1)),
    ));
    while i < validators.len()
        invariant
            i <= validators.len(),
            all == principal_views(validators@),
            watermarks@ == old(watermarks)@.remove_keys(
                Set::new(|key: WatermarkId| key.0 == chain@ && all.take(i as int).contains(key.1)),
            ),
        decreases validators.len() - i,
    {
        let _ = watermarks.remove(&ValidatorWatermarkKey::new(chain, &validators[i]));
        proof {
            let fewer = all.take(i as int);
            let more = all.take(i + 1);
            assert(all[i as int] == validators@[i as int]@);
            assert forall|v: Seq<u8>| more.contains(v) <==> (fewer.contains(v) || v == all[i as int]) by {
                if more.contains(v) {
                    let k = choose|k: int| 0 <= k < more.len() && more[k] == v;
                    if k < i {
                        assert(fewer[k] == v);
                    }
                }
                if fewer.contains(v) {
                    let k = choose|k: int| 0 <= k < fewer.len() && fewer[k] == v;
                    assert(more[k] == v);
                }
                if v == all[i as int] {
                    assert(more[i as int] == v);
                }
            }
            assert(watermarks@ =~= old(watermarks)@.remove_keys(
                Set::new(|key: WatermarkId| key.0 == chain@ && more.contains(key.1)),
            ));
        }
        i += 1;
    }
    assert(all.take(i as int) =~= all);
}

/// Purges the watermarks of `chains`: chain by chain, those of the listed
/// validators, then that of the chain.
fn purge_watermarks(
    watermarks: &mut OrderedMap<ValidatorWatermarkKey, u64>,
    latest: &mut OrderedMap<String, u64>,
    chains: &Vec<String>,
    validators: &Vec<Principal>,
)
    ensures
        final(watermarks)@ == old(watermarks)@.remove_keys(
            purged_watermarks(principal_views(validators@).to_set(), chain_names(chains@)),
        ),
        final(latest)@ == old(latest)@.remove_keys(chain_names(chains@)),
{
    let ghost members = principal_views(validators@).to_set();
    let mut j: usize = 0;
    assert(watermarks@ =~= old(watermarks)@.remove_keys(purged_watermarks(members, chain_names(chains@.take(0)))));
    assert(latest@ =~= old(latest)@.remove_keys(chain_names(chains@.take(0))));
    while j < chains.len()
        invariant
            j <= chains.len(),
            members == principal_views(validators@).to_set(),
            watermarks@ == old(watermarks)@.remove_keys(
                purged_watermarks(members, chain_names(chains@.take(j as int))),
            ),
            latest@ == old(latest)@.remove_keys(chain_names(chains@.take(j as int))),
        decreases chains.len() - j,
    {
        let chain = &chains[j];
        forget_validators(watermarks, chain.as_str(), validators);
        let _ = latest.remove(chain);
        proof {
            lemma_chain_names_step(chains@, j as int);
            let more = chain_names(chains@.take(j + 1));
            assert(watermarks@ =~= old(watermarks)@.remove_keys(purged_watermarks(members, more)));
            assert(latest@ =~= old(latest)@.remove_keys(more));
        }
        j += 1;
    }
    assert(chains@.take(j as int) =~= chains@);
}

/// The views of a list of groups, each under its content hash.
pub open spec fn group_entries(list: Seq<(String, PendingMessage)>) -> Seq<(Seq<char>, PendingView)> {
    list.map_values(|entry: (String, PendingMessage)| (entry.0@, entry.1@))
}

/// The views of a list of slots, each with the list of its groups.
pub open spec fn slot_entries(list: Seq<(ChainSequenceKey, Vec<(String, PendingMessage)>)>) -> Seq<
    (SlotId, Seq<(Seq<char>, PendingView)>),
> {
    list.map_values(|entry: (ChainSequenceKey, Vec<(String, PendingMessage)>)| (entry.0@, group_entries(entry.1@)))
}

/// Says that `list` lists what is pending: every open slot once, in
/// ascending order, each with the listing of its groups.
pub open spec fn lists_pending(list: Seq<(SlotId, Seq<(Seq<char>, PendingView)>)>, pending: Pending) -> bool {
    &&& forall|i: int, j: int|
        0 <= i < j < list.len() ==> ChainSequenceKey::precedes(#[trigger] list[i].0, #[trigger] list[j].0)
    &&& forall|i: int|
        0 <= i < list.len() ==> pending.dom().contains(#[trigger] list[i].0) && is_listing::<String, PendingView>(
            list[i].1,
            pending[list[i].0],
        )
    &&& forall|slot: SlotId|
        pending.dom().contains(slot) ==> exists|i: int| 0 <= i < list.len() && #[trigger] list[i].0 == slot
}

/// Copies out the groups of one slot, in ascending order of their hashes.
fn list_groups(groups: &OrderedMap<String, PendingMessage>) -> (list: Vec<(String, PendingMessage)>)
    ensures
        is_listing::<String, PendingView>(group_entries(list@), groups@),
{
    let n = groups.len();
    let mut list: Vec<(String, PendingMessage)> = Vec::new();
    let mut i: usize = 0;
    while i < n
        invariant
            i <= n,
            n == groups.listing().len(),
            list@.len() == i,
            forall|j: int| 0 <= j < i ==> #[trigger] group_entries(list@)[j] == groups.listing()[j],
        decreases n - i,
    {
        let ghost before = list@;
        list.push((groups.key_at(i).duplicate(), groups.value_at(i).clone()));
        assert forall|j: int| 0 <= j < i + 1 implies #[trigger] group_entries(list@)[j] == groups.listing()[j] by {
            if j < i {
                assert(group_entries(before)[j] == groups.listing()[j]);
            }
        }
        i += 1;
    }
    assert(group_entries(list@) =~= groups.listing());
    list
}

/// The sent messages of one chain.
pub open spec fn sent_to(sent: Map<SlotId, MessageView>, chain: Seq<char>) -> Map<SlotId, MessageView> {
    sent.restrict(Set::new(|key: SlotId| key.0 == chain))
}

/// Copies out the entries of a message store that belong to `chain`, in
/// ascending order of their numbers.
fn list_messages_of(store: &OrderedMap<ChainSequenceKey, Message>, chain: &str) -> (list: Vec<
    (ChainSequenceKey, Message),
>)
    ensures
        is_listing::<ChainSequenceKey, MessageView>(message_entries(list@), sent_to(store@, chain@)),
{
    let name = chain.to_owned();
    let n = store.len();
    let ghost listing = store.listing();
    let ghost mut picks: Seq<int> = Seq::empty();
    let mut list: Vec<(ChainSequenceKey, Message)> = Vec::new();
    let mut i: usize = 0;
    while i < n
        invariant
            i <= n,
            n == listing.len(),
            listing == store.listing(),
            name@ == chain@,
            picks.len() == list@.len(),
            forall|k: int|
                0 <= k < picks.len() ==> 0 <= #[trigger] picks[k] < i && message_entries(list@)[k]
                    == listing[picks[k]] && listing[picks[k]].0.0 == chain@,
            forall|a: int, b: int| 0 <= a < b < picks.len() ==> #[trigger] picks[a] < #[trigger] picks[b],
            forall|m: int|
                0 <= m < i && (#[trigger] listing[m]).0.0 == chain@ ==> exists|k: int|
                    0 <= k < picks.len() && #[trigger] picks[k] == m,
        decreases n - i,
    {
        let key = store.key_at(i);
        if key.chain_name == name {
            let ghost before = list@;
            let ghost picked = picks;
            list.push((key.duplicate(), store.value_at(i).clone()));
            proof {
                picks = picks.push(i as int);
                assert forall|k: int| 0 <= k < picks.len() implies 0 <= #[trigger] picks[k] < i + 1
                    && message_entries(list@)[k] == listing[picks[k]] && listing[picks[k]].0.0 == chain@ by {
                    if k < picked.len() {
                        assert(picks[k] == picked[k]);
                        assert(message_entries(before)[k] == message_entries(list@)[k]);
                    }
                }
                assert forall|m: int| 0 <= m < i + 1 && (#[trigger] listing[m]).0.0 == chain@ implies exists|k: int|
                    0 <= k < picks.len() && #[trigger] picks[k] == m by {
                    if m < i {
                        let k = choose|k: int| 0 <= k < picked.len() && #[trigger] picked[k] == m;
                        assert(picks[k] == m);
                    } else {
                        assert(picks[picked.len() as int] == m);
                    }
                }
            }
        }
        i += 1;
    }
    proof {
        let out = message_entries(list@);
        let wanted = sent_to(store@, chain@);
        assert forall|a: int, b: int| 0 <= a < b < out.len() implies ChainSequenceKey::precedes(
            #[trigger] out[a].0,
            #[trigger] out[b].0,
        ) by {
            assert(picks[a] < picks[b]);
            assert(ChainSequenceKey::precedes(listing[picks[a]].0, listing[picks[b]].0));
        }
        assert forall|k: int| 0 <= k < out.len() implies wanted.contains_pair(#[trigger] out[k].0, out[k].1) by {
            assert(0 <= picks[k] < n);
            assert(store@.contains_pair(listing[picks[k]].0, listing[picks[k]].1));
        }
        assert forall|key: SlotId| wanted.dom().contains(key) implies exists|k: int|
            0 <= k < out.len() && #[trigger] out[k].0 == key by {
            let m = choose|m: int| 0 <= m < listing.len() && #[trigger] listing[m].0 == key;
            assert(listing[m].0.0 == chain@);
            let k = choose|k: int| 0 <= k < picks.len() && #[trigger] picks[k] == m;
            assert(out[k].0 == key);
        }
    }
    list
}

impl Default for State {
    /// The state of a relay that holds nothing and has no custodian.
    fn default() -> (state: State)
        ensures
            state@ == Model::empty(),
    {
        State {
            custodians: PrincipalSet::new(),
            lockers: PrincipalSet::new(),
            validators: PrincipalSet::new(),
            pending: PendingStore::new(),
            sent: OrderedMap::new(),
            executable: OrderedMap::new(),
            sent_count: OrderedMap::new(),
            final_received: OrderedMap::new(),
            latest: OrderedMap::new(),
        }
    }
}

impl State {
    /// The state of a relay that `caller` sets up: the caller is its one
    /// custodian.
    pub fn init(caller: Principal) -> (state: State)
        ensures
            state@ == Model::init(caller@),
    {
        let mut state = State::default();
        state.custodians.insert(caller);
        assert(state@.custodians =~= set![caller@]);
        state
    }

    /// Makes `locker` a locker, on behalf of a custodian; says whether it
    /// was none before.
    pub fn register_locker(&mut self, caller: &Principal, locker: Principal) -> (result: Result<bool, Error>)
        ensures
            result == (if old(self)@.custodians.contains(caller@) {
                Ok(!old(self)@.lockers.contains(locker@))
            } else {
                Err(Error::Unauthorized)
            }),
            final(self)@ == (if result is Ok {
                old(self)@.with_locker(locker@)
            } else {
                old(self)@
            }),
    {
        if self.custodians.contains(caller) {
            Ok(self.lockers.insert(locker))
        } else {
            Err(Error::Unauthorized)
        }
    }

    /// Makes `validator` a validator, on behalf of a custodian; says
    /// whether it was none before.
    pub fn register_validator(&mut self, caller: &Principal, validator: Principal) -> (result: Result<
        bool,
        Error,
    >)
        ensures
            result == (if old(self)@.custodians.contains(caller@) {
                Ok(!old(self)@.validators.contains(validator@))
            } else {
                Err(Error::Unauthorized)
            }),
            final(self)@ == (if result is Ok {
                old(self)@.with_validator(validator@)
            } else {
                old(self)@
            }),
    {
        if self.custodians.contains(caller) {
            Ok(self.validators.insert(validator))
        } else {
            Err(Error::Unauthorized)
        }
    }

    /// Takes the validator role from `validator`, on behalf of a custodian;
    /// says whether it held the role.
    pub fn un_register_validator(&mut self, caller: &Principal, validator: &Principal) -> (result: Result<
        bool,
        Error,
    >)
        ensures
            result == (if old(self)@.custodians.contains(caller@) {
                Ok(old(self)@.validators.contains(validator@))
            } else {
                Err(Error::Unauthorized)
            }),
            final(self)@ == (if result is Ok {
                old(self)@.without_validator(validator@)
            } else {
                old(self)@
            }),
    {
        if self.custodians.contains(caller) {
            Ok(self.validators.remove(validator))
        } else {
            Err(Error::Unauthorized)
        }
    }

    /// Decides whether the slot `id` of `chain` is admitted for `validator`,
    /// and changes nothing.
    pub fn check_admission(&self, chain: &str, id: u64, validator: &Principal) -> (result: Result<(), Error>)
        ensures
            result == self@.admission(chain@, id, validator@),
    {
        let latest = self.get_latest_message_id(chain);
        let own = self.get_final_received_message_id(chain, validator);
        if id > latest && id - latest > 1 {
            Err(Error::FatalSequenceGap)
        } else if own == id {
            Err(Error::AlreadyReceived)
        } else if (id < own || (id <= latest && own == 0)) && !self.pending.contains_slot(
            &ChainSequenceKey::new(chain, id),
        ) {
            Err(Error::AlreadyCompleted)
        } else {
            Ok(())
        }
    }

    /// Admits the slot `id` of `chain` for `validator`, or refuses it: on
    /// admission the watermarks of the chain and of the validator move.
    pub fn admit_slot(&mut self, chain: &str, id: u64, validator: &Principal) -> (result: Result<(), Error>)
        ensures
            result == old(self)@.admission(chain@, id, validator@),
            final(self)@ == (if result is Ok {
                old(self)@.admitted(chain@, id, validator@)
            } else {
                old(self)@
            }),
    {
        match self.check_admission(chain, id, validator) {
            Err(refusal) => Err(refusal),
            Ok(_) => {
                if id > self.get_latest_message_id(chain) {
                    self.latest.insert(chain.to_owned(), id);
                }
                if id > self.get_final_received_message_id(chain, validator) {
                    self.final_received.insert(ValidatorWatermarkKey::new(chain, validator), id);
                }
                Ok(())
            },
        }
    }

    /// Records that `validator` attests `message` in the slot `id` of
    /// `chain`, under the content hash `hash` that the caller hands in. The
    /// attestation is refused where the validator has attested that content
    /// in that slot before. Otherwise the group of the content gains the
    /// validator, and where the group then lists at least as many validators
    /// as there are, the message becomes executable and the slot is closed.
    /// No group lists a validator twice.
    pub fn record_under_hash(
        &mut self,
        chain: &str,
        id: u64,
        validator: &Principal,
        hash: String,
        message: Message,
    ) -> (result: Result<Attestation, Error>)
        ensures
            result == old(self)@.attestation_under((chain@, id), hash@, validator@, message@),
            final(self)@ == (if result is Ok {
                old(self)@.attested_under((chain@, id), hash@, validator@, message@)
            } else {
                old(self)@
            }),
            attesters_distinct(final(self)@.pending),
    {
        let key = ChainSequenceKey::new(chain, id);
        if self.pending.has_attested(&key, &hash, validator) {
            proof {
                use_type_invariant(&self.pending);
            }
            return Err(Error::DuplicateAttestation);
        }
        let quorum = self.validators.len();
        let count = self.pending.record(key.duplicate(), hash, validator.clone(), message.clone());
        if count >= quorum {
            self.pending.remove_slot(&key);
            self.executable.insert(key, message);
            assert(self@.pending =~= old(self)@.pending.remove(key@));
            Ok(Attestation::Promoted)
        } else {
            Ok(Attestation::Pending(count))
        }
    }

    /// Records that `validator` attests `message` in the slot `id` of
    /// `chain`, under the content hash of the message.
    pub fn record_attestation(&mut self, chain: &str, id: u64, validator: &Principal, message: Message) -> (result:
        Result<Attestation, Error>)
        ensures
            result == old(self)@.attestation((chain@, id), validator@, message@),
            final(self)@ == (if result is Ok {
                old(self)@.attested((chain@, id), validator@, message@)
            } else {
                old(self)@
            }),
            attesters_distinct(final(self)@.pending),
    {
        let hash = message.to_hash();
        self.record_under_hash(chain, id, validator, hash, message)
    }

    /// Takes the attestation of `caller` that `message` is number `id` of
    /// the chain it names as its origin: the caller has to be a validator,
    /// the slot has to be admitted for it, and it must not have attested
    /// that content there before. Then the watermarks move and the
    /// attestation is recorded; otherwise nothing changes.
    pub fn receive_message(&mut self, caller: &Principal, id: u64, message: Message) -> (result: Result<
        bool,
        Error,
    >)
        ensures
            result == old(self)@.reception(caller@, id, message@),
            final(self)@ == (if result is Ok {
                old(self)@.received(caller@, id, message@)
            } else {
                old(self)@
            }),
            attesters_distinct(final(self)@.pending),
    {
        proof {
            use_type_invariant(&self.pending);
        }
        if !self.validators.contains(caller) {
            return Err(Error::NotValidator);
        }
        let chain = message.from_chain.clone();
        match self.check_admission(chain.as_str(), id, caller) {
            Err(refusal) => {
                return Err(refusal);
            },
            Ok(_) => {},
        }
        let hash = message.to_hash();
        if self.pending.has_attested(&ChainSequenceKey::new(chain.as_str(), id), &hash, caller) {
            return Err(Error::DuplicateAttestation);
        }
        let _ = self.admit_slot(chain.as_str(), id, caller);
        let _ = self.record_under_hash(chain.as_str(), id, caller, hash, message);
        Ok(true)
    }

    /// Stores a message from the locker `caller` to `to_chain` under the
    /// next number of that chain, and hands the message back. The message
    /// is stamped with the relay's own chain as its origin, with the
    /// caller's textual form as sender and signer, and with the fixed
    /// quality of service.
    pub fn enqueue_outbound(&mut self, caller: &Principal, to_chain: &str, content: Content, session: Session) -> (result:
        Result<Message, Error>)
        requires
            old(self)@.sent_message_count(to_chain@) < u64::MAX,
        ensures
            match result {
                Ok(message) => old(self)@.lockers.contains(caller@) && message@ == outbound_message(
                    to_chain@,
                    principal_text(caller@),
                    content@,
                    session,
                ) && final(self)@ == old(self)@.sent_by(caller@, to_chain@, content@, session),
                Err(refusal) => !old(self)@.lockers.contains(caller@) && refusal == Error::Unauthorized
                    && final(self)@ == old(self)@,
            },
    {
        if !self.lockers.contains(caller) {
            return Err(Error::Unauthorized);
        }
        let id = self.get_sent_message_count(to_chain) + 1;
        let message = stamp_outbound(to_chain, caller.to_text().as_str(), content, session);
        self.sent.insert(ChainSequenceKey::new(to_chain, id), message.clone());
        self.sent_count.insert(to_chain.to_owned(), id);
        Ok(message)
    }

    /// Sends `content` to `to_chain` on behalf of the locker `caller`.
    pub fn send_message(&mut self, caller: &Principal, to_chain: &str, content: Content, session: Session) -> (result:
        Result<(), Error>)
        requires
            old(self)@.sent_message_count(to_chain@) < u64::MAX,
        ensures
            result == (if old(self)@.lockers.contains(caller@) {
                Ok::<(), Error>(())
            } else {
                Err::<(), Error>(Error::Unauthorized)
            }),
            final(self)@ == (if result is Ok {
                old(self)@.sent_by(caller@, to_chain@, content@, session)
            } else {
                old(self)@
            }),
    {
        match self.enqueue_outbound(caller, to_chain, content, session) {
            Ok(_) => Ok(()),
            Err(refusal) => Err(refusal),
        }
    }

    /// Claims the executable message of the slot `id` of `from_chain` for
    /// execution: the message leaves the relay before the call is made, so
    /// that whatever becomes of the call, and whoever asks meanwhile, the
    /// message is handed out once. Hands back the call to make.
    pub fn execute_message(&mut self, from_chain: &str, id: u64) -> (result: Result<Invocation, Error>)
        ensures
            match result {
                Ok(call) => old(self)@.dispatch((from_chain@, id)) == Ok::<InvocationView, Error>(call@),
                Err(refusal) => old(self)@.dispatch((from_chain@, id)) == Err::<InvocationView, Error>(refusal),
            },
            final(self)@ == (if result is Ok {
                old(self)@.dispatched((from_chain@, id))
            } else {
                old(self)@
            }),
    {
        match self.executable.remove(&ChainSequenceKey::new(from_chain, id)) {
            Some(message) => Ok(invocation(id, message)),
            None => {
                assert(self@.executable =~= old(self)@.executable);
                Err(Error::NotFound)
            },
        }
    }

    /// The number that `validator` is to attest next on `from_chain`: the
    /// lowest open slot of the chain beyond the validator's watermark, or,
    /// where there is none, the number after the chain's watermark.
    pub fn get_msg_porting_task(&self, from_chain: &str, validator: &Principal) -> (task: u64)
        requires
            self@.global_watermark(from_chain@) < u64::MAX,
        ensures
            task == self@.porting_task(from_chain@, validator@),
    {
        let own = self.get_final_received_message_id(from_chain, validator);
        let chain = from_chain.to_owned();
        let n = self.pending.len();
        let ghost listing = self.pending.listing();
        let mut i: usize = 0;
        while i < n
            invariant
                i <= n,
                n == listing.len(),
                listing == self.pending.listing(),
                is_listing::<ChainSequenceKey, Groups>(listing, self@.pending),
                chain@ == from_chain@,
                own == self@.validator_watermark(from_chain@, validator@),
                forall|j: int| 0 <= j < i ==> !((#[trigger] listing[j]).0.0 == chain@ && listing[j].0.1 > own),
            decreases n - i,
        {
            let key = self.pending.key_at(i);
            if key.chain_name == chain && key.id > own {
                proof {
                    let found = key.id;
                    assert(self@.pending.contains_pair(listing[i as int].0, listing[i as int].1));
                    assert forall|other: u64|
                        other > own && #[trigger] self@.pending.dom().contains((chain@, other)) implies found
                        <= other by {
                        let m = choose|m: int| 0 <= m < listing.len() && #[trigger] listing[m].0 == (chain@, other);
                        String::lemma_irreflexive(chain@);
                        if m > i {
                            assert(ChainSequenceKey::precedes(listing[i as int].0, listing[m].0));
                        }
                    }
                    assert(self@.is_next_open(chain@, own, found));
                    let chosen = choose|id: u64| self@.is_next_open(chain@, own, id);
                    assert(self@.is_next_open(chain@, own, chosen));
                    assert(self@.pending.dom().contains((chain@, chosen)));
                    assert(self@.pending.dom().contains((chain@, found)));
                    assert(found <= chosen && chosen <= found);
                }
                return key.id;
            }
            i += 1;
        }
        proof {
            assert forall|id: u64| !self@.is_next_open(chain@, own, id) by {
                if self@.is_next_open(chain@, own, id) {
                    let m = choose|m: int| 0 <= m < listing.len() && #[trigger] listing[m].0 == (chain@, id);
                    assert(listing[m].0.0 == chain@ && listing[m].0.1 > own);
                }
            }
        }
        self.get_latest_message_id(from_chain) + 1
    }

    /// The messages sent, in ascending order of chain and number.
    pub fn get_sent_message(&self) -> (list: Vec<(ChainSequenceKey, Message)>)
        ensures
            is_listing::<ChainSequenceKey, MessageView>(message_entries(list@), self@.sent),
    {
        list_messages(&self.sent)
    }

    /// The messages sent to `chain_name`, in ascending order of their
    /// numbers.
    pub fn get_sent_message_by_chain(&self, chain_name: &str) -> (list: Vec<(ChainSequenceKey, Message)>)
        ensures
            is_listing::<ChainSequenceKey, MessageView>(message_entries(list@), sent_to(self@.sent, chain_name@)),
    {
        list_messages_of(&self.sent, chain_name)
    }

    /// The messages that await execution, in ascending order of chain and
    /// number.
    pub fn get_executable_message(&self) -> (list: Vec<(ChainSequenceKey, Message)>)
        ensures
            is_listing::<ChainSequenceKey, MessageView>(message_entries(list@), self@.executable),
    {
        list_messages(&self.executable)
    }

    /// The open slots in ascending order of chain and number, each with its
    /// groups in ascending order of their content hashes. No group lists a
    /// validator twice.
    pub fn get_pending_message(&self) -> (list: Vec<(ChainSequenceKey, Vec<(String, PendingMessage)>)>)
        ensures
            lists_pending(slot_entries(list@), self@.pending),
            attesters_distinct(self@.pending),
    {
        let n = self.pending.len();
        let ghost listing = self.pending.listing();
        let mut list: Vec<(ChainSequenceKey, Vec<(String, PendingMessage)>)> = Vec::new();
        let mut i: usize = 0;
        while i < n
            invariant
                i <= n,
                n == listing.len(),
                listing == self.pending.listing(),
                list@.len() == i,
                forall|j: int| 0 <= j < i ==> (#[trigger] slot_entries(list@)[j]).0 == listing[j].0,
                forall|j: int|
                    0 <= j < i ==> is_listing::<String, PendingView>(
                        (#[trigger] slot_entries(list@)[j]).1,
                        listing[j].1,
                    ),
            decreases n - i,
        {
            let ghost before = list@;
            let groups = list_groups(self.pending.groups_at(i));
            list.push((self.pending.key_at(i).duplicate(), groups));
            proof {
                assert forall|j: int| 0 <= j < i + 1 implies (#[trigger] slot_entries(list@)[j]).0 == listing[j].0
                    && is_listing::<String, PendingView>(slot_entries(list@)[j].1, listing[j].1) by {
                    if j < i {
                        assert(slot_entries(before)[j] == slot_entries(list@)[j]);
                    }
                }
            }
            i += 1;
        }
        proof {
            let out = slot_entries(list@);
            let pending = self@.pending;
            assert forall|a: int, b: int| 0 <= a < b < out.len() implies ChainSequenceKey::precedes(
                #[trigger] out[a].0,
                #[trigger] out[b].0,
            ) by {
                assert(ChainSequenceKey::precedes(listing[a].0, listing[b].0));
            }
            assert forall|j: int| 0 <= j < out.len() implies pending.dom().contains(#[trigger] out[j].0)
                && is_listing::<String, PendingView>(out[j].1, pending[out[j].0]) by {
                assert(pending.contains_pair(listing[j].0, listing[j].1));
            }
            assert forall|slot: SlotId| pending.dom().contains(slot) implies exists|j: int|
                0 <= j < out.len() && #[trigger] out[j].0 == slot by {
                let j = choose|j: int| 0 <= j < listing.len() && #[trigger] listing[j].0 == slot;
                assert(out[j].0 == slot);
            }
        }
        list
    }

    /// Purges what was received from `chains`, on behalf of a custodian:
    /// every open slot and every executable message goes, and for each of
    /// the chains the watermark of the chain and those of the present
    /// validators.
    pub fn clear_received_message(&mut self, caller: &Principal, chains: Vec<String>) -> (result: Result<
        bool,
        Error,
    >)
        ensures
            result == (if old(self)@.custodians.contains(caller@) {
                Ok::<bool, Error>(true)
            } else {
                Err::<bool, Error>(Error::Unauthorized)
            }),
            final(self)@ == (if result is Ok {
                old(self)@.received_cleared(chain_names(chains@))
            } else {
                old(self)@
            }),
    {
        if !self.custodians.contains(caller) {
            return Err(Error::Unauthorized);
        }
        self.executable.clear();
        self.pending.clear();
        let validators = self.validators.to_vec();
        purge_watermarks(&mut self.final_received, &mut self.latest, &chains, &validators);
        proof {
            let listed = principal_views(validators@);
            assert(listed =~= key_views::<Principal>(validators@));
            assert forall|v: Seq<u8>| listed.to_set().contains(v) <==> self@.validators.contains(v) by {
                if listed.contains(v) {
                    let k = choose|k: int| 0 <= k < listed.len() && listed[k] == v;
                    assert(self@.validators.contains(listed[k]));
                }
                if self@.validators.contains(v) {
                    let k = choose|k: int| 0 <= k < listed.len() && #[trigger] listed[k] == v;
                    assert(listed.contains(v));
                }
            }
            assert(listed.to_set() =~= self@.validators);
            assert(purged_watermarks(listed.to_set(), chain_names(chains@)) =~= Set::new(
                |key: WatermarkId| chain_names(chains@).contains(key.0) && old(self)@.validators.contains(key.1),
            ));
        }
        Ok(true)
    }

    /// Purges what was sent to `chains`, on behalf of a custodian: for each
    /// of the chains the messages numbered from 1 to its count go, and the
    /// count with them.
    pub fn clear_sent_message(&mut self, caller: &Principal, chains: Vec<String>) -> (result: Result<bool, Error>)
        ensures
            result == (if old(self)@.custodians.contains(caller@) {
                Ok::<bool, Error>(true)
            } else {
                Err::<bool, Error>(Error::Unauthorized)
            }),
            final(self)@ == (if result is Ok {
                old(self)@.sent_cleared(chain_names(chains@))
            } else {
                old(self)@
            }),
    {
        if !self.custodians.contains(caller) {
            return Err(Error::Unauthorized);
        }
        purge_sent(&mut self.sent, &mut self.sent_count, &chains);
        proof {
            assert(purged_sent(old(self)@.sent_count, chain_names(chains@)) =~= Set::new(
                |key: SlotId|
                    chain_names(chains@).contains(key.0) && 1 <= key.1 <= old(self)@.sent_message_count(key.0),
            ));
        }
        Ok(true)
    }

    /// Whether `principal` is a validator.
    pub fn is_validator(&self, principal: &Principal) -> (held: bool)
        ensures
            held == self@.validators.contains(principal@),
    {
        self.validators.contains(principal)
    }

    /// Whether `principal` is a locker.
    pub fn is_locker(&self, principal: &Principal) -> (held: bool)
        ensures
            held == self@.lockers.contains(principal@),
    {
        self.lockers.contains(principal)
    }

    /// Whether `principal` is a custodian.
    pub fn is_custodian(&self, principal: &Principal) -> (held: bool)
        ensures
            held == self@.custodians.contains(principal@),
    {
        self.custodians.contains(principal)
    }

    /// The lockers, in ascending order.
    pub fn get_lockers(&self) -> (list: Vec<Principal>)
        ensures
            lists_members::<Principal>(principal_views(list@), self@.lockers),
    {
        self.lockers.to_vec()
    }

    /// The custodians, in ascending order.
    pub fn get_custodians(&self) -> (list: Vec<Principal>)
        ensures
            lists_members::<Principal>(principal_views(list@), self@.custodians),
    {
        self.custodians.to_vec()
    }

    /// The validators, in ascending order.
    pub fn get_validators(&self) -> (list: Vec<Principal>)
        ensures
            lists_members::<Principal>(principal_views(list@), self@.validators),
    {
        self.validators.to_vec()
    }

    /// The number of the last message sent to `chain_name`; 0 before the
    /// first.
    pub fn get_sent_message_count(&self, chain_name: &str) -> (count: u64)
        ensures
            count == self@.sent_message_count(chain_name@),
    {
        number_at(&self.sent_count, &chain_name.to_owned())
    }

    /// The highest number that `validator` has attested on `chain_name`; 0
    /// before the first.
    pub fn get_final_received_message_id(&self, chain_name: &str, validator: &Principal) -> (id: u64)
        ensures
            id == self@.validator_watermark(chain_name@, validator@),
    {
        number_at(&self.final_received, &ValidatorWatermarkKey::new(chain_name, validator))
    }

    /// The highest number ever admitted from `chain_name`; 0 before the
    /// first.
    pub fn get_latest_message_id(&self, chain_name: &str) -> (id: u64)
        ensures
            id == self@.global_watermark(chain_name@),
    {
        number_at(&self.latest, &chain_name.to_owned())
    }

    /// The message sent to `chain_name` under the number `id`.
    pub fn get_sent_message_by_id(&self, chain_name: &str, id: u64) -> (result: Result<Message, Error>)
        ensures
            match result {
                Ok(message) => self@.sent.dom().contains((chain_name@, id)) && message@ == self@.sent[(
                    chain_name@,
                    id,
                )],
                Err(refusal) => !self@.sent.dom().contains((chain_name@, id)) && refusal == Error::NotFound,
            },
    {
        match self.sent.get(&ChainSequenceKey::new(chain_name, id)) {
            Some(message) => Ok(message.clone()),
            None => Err(Error::NotFound),
        }
    }
}

} // verus!
