//! A small service on top of the relay: it sends greetings to other chains
//! through the relay, and keeps the greetings that the relay delivers.

use vstd::prelude::*;
use vstd::string::StringExecFns;
use crate::message::Content;
use crate::message::ContentView;
use crate::message::Session;
use crate::model::own_chain;
use crate::ordered_map::OrderedMap;
use crate::ordered_set::lists_members;
use crate::ordered_set::OrderedSet;
use crate::order::Key;
use crate::principal::principal_views;
use crate::principal::Principal;
use crate::principal::PrincipalSet;
use crate::state::own_chain_name;

verus! {

/// A greeting.
#[derive(Debug)]
pub struct Greeting {
    pub title: String,
    pub content: String,
    pub date: String,
}

/// The mathematical value of a `Greeting`.
pub struct GreetingView {
    pub title: Seq<char>,
    pub content: Seq<char>,
    pub date: Seq<char>,
}

impl View for Greeting {
    type V = GreetingView;

    open spec fn view(&self) -> GreetingView {
        GreetingView { title: self.title@, content: self.content@, date: self.date@ }
    }
}

impl Clone for Greeting {
    fn clone(&self) -> (copy: Self)
        ensures
            copy@ == self@,
    {
        Greeting { title: self.title.clone(), content: self.content.clone(), date: self.date.clone() }
    }
}

/// The contract on another chain that takes an action of this service, and
/// the name of the action there.
#[derive(Debug)]
pub struct DstContract {
    pub contract_address: String,
    pub action_name: String,
}

/// The mathematical value of a `DstContract`.
pub struct DstContractView {
    pub contract_address: Seq<char>,
    pub action_name: Seq<char>,
}

impl View for DstContract {
    type V = DstContractView;

    open spec fn view(&self) -> DstContractView {
        DstContractView { contract_address: self.contract_address@, action_name: self.action_name@ }
    }
}

/// Why an operation of the service was refused.
#[derive(Clone, Copy, Debug, PartialEq, Eq, Structural)]
pub enum GreetingError {
    /// The caller is no custodian of the service.
    NotCustodian,
    /// The caller is not the relay that the service listens to.
    NotCrossChainCanister,
    /// The sender already has the permission.
    AlreadyPermitted,
    /// No contract is registered for the destination chain.
    ChainNotRegistered,
    /// The destination chain has no contract for the action.
    ActionNotRegistered,
    /// The service has not been told its relay.
    CanisterNotSet,
}

/// What the service asks of its relay to send a greeting: the relay to
/// call, and the destination, content and session to hand to it.
#[derive(Debug)]
pub struct GreetingCall {
    pub canister: Principal,
    pub to_chain: String,
    pub content: Content,
    pub session: Session,
}

/// Everything the service holds.
pub struct GreetingModel {
    /// The identities that administer the service.
    pub custodians: Set<Seq<u8>>,
    /// The relay that the service sends through and listens to.
    pub cross_chain_canister: Option<Seq<u8>>,
    /// The latest greeting from each chain.
    pub greeting_data: Map<Seq<char>, GreetingView>,
    /// For each chain and action, the contract that takes the action.
    pub destination_contract: Map<Seq<char>, Map<Seq<char>, DstContractView>>,
    /// For each chain and sender, the actions that the sender may ask for.
    pub permitted_contract: Map<Seq<char>, Map<Seq<char>, Set<Seq<char>>>>,
}

/// The action by which a greeting is delivered.
pub open spec fn greeting_action() -> Seq<char> {
    "receiveGreeting"@
}

/// The payload of a greeting: the four texts as a list under the name
/// `greeting`, the relay's own chain first.
pub open spec fn greeting_payload(title: Seq<char>, content: Seq<char>, date: Seq<char>) -> Seq<char> {
    "{\"greeting\": [\""@ + own_chain() + "\",\""@ + title + "\",\""@ + content + "\",\""@ + date + "\"]}"@
}

impl GreetingModel {
    /// The state of a service that holds nothing and has no custodian.
    pub open spec fn empty() -> GreetingModel {
        GreetingModel {
            custodians: Set::empty(),
            cross_chain_canister: None,
            greeting_data: Map::empty(),
            destination_contract: Map::empty(),
            permitted_contract: Map::empty(),
        }
    }

    /// The state of a service that `caller` has set up.
    pub open spec fn init(caller: Seq<u8>) -> GreetingModel {
        GreetingModel { custodians: set![caller], ..GreetingModel::empty() }
    }

    /// The contracts registered for `chain`, by action.
    pub open spec fn destinations(self, chain: Seq<char>) -> Map<Seq<char>, DstContractView> {
        if self.destination_contract.dom().contains(chain) {
            self.destination_contract[chain]
        } else {
            Map::empty()
        }
    }

    /// The senders of `chain` with their permitted actions.
    pub open spec fn senders(self, chain: Seq<char>) -> Map<Seq<char>, Set<Seq<char>>> {
        if self.permitted_contract.dom().contains(chain) {
            self.permitted_contract[chain]
        } else {
            Map::empty()
        }
    }

    /// The actions that `sender` of `chain` may ask for.
    pub open spec fn permissions(self, chain: Seq<char>, sender: Seq<char>) -> Set<Seq<char>> {
        if self.senders(chain).dom().contains(sender) {
            self.senders(chain)[sender]
        } else {
            Set::empty()
        }
    }

    /// The state once `destination` takes `action` on `chain`.
    pub open spec fn with_destination(
        self,
        chain: Seq<char>,
        action: Seq<char>,
        destination: DstContractView,
    ) -> GreetingModel {
        GreetingModel {
            destination_contract: self.destination_contract.insert(
                chain,
                self.destinations(chain).insert(action, destination),
            ),
            ..self
        }
    }

    /// The state once `sender` of `chain` may ask for `action`.
    pub open spec fn with_permission(self, chain: Seq<char>, sender: Seq<char>, action: Seq<char>) -> GreetingModel {
        GreetingModel {
            permitted_contract: self.permitted_contract.insert(
                chain,
                self.senders(chain).insert(sender, self.permissions(chain, sender).insert(action)),
            ),
            ..self
        }
    }

    /// The outcome of preparing a greeting to `to_chain`: refused where the
    /// chain has no contract, where it has none for greetings, or where the
    /// relay is not set, in this order.
    pub open spec fn preparation(self, to_chain: Seq<char>) -> Result<(), GreetingError> {
        if !self.destination_contract.dom().contains(to_chain) {
            Err(GreetingError::ChainNotRegistered)
        } else if !self.destination_contract[to_chain].dom().contains(greeting_action()) {
            Err(GreetingError::ActionNotRegistered)
        } else if self.cross_chain_canister is None {
            Err(GreetingError::CanisterNotSet)
        } else {
            Ok(())
        }
    }

    /// The content that carries a greeting to `to_chain`: the registered
    /// contract and action, and the payload of the greeting.
    pub open spec fn greeting_content(
        self,
        to_chain: Seq<char>,
        title: Seq<char>,
        content: Seq<char>,
        date: Seq<char>,
    ) -> ContentView {
        ContentView {
            contract: self.destination_contract[to_chain][greeting_action()].contract_address,
            action: self.destination_contract[to_chain][greeting_action()].action_name,
            data: greeting_payload(title, content, date),
        }
    }
}

/// The view of a relay that may not be set.
pub open spec fn canister_view(canister: Option<Principal>) -> Option<Seq<u8>> {
    match canister {
        Some(principal) => Some(principal@),
        None => None,
    }
}

/// The state of the greeting service.
pub struct GreetingState {
    custodians: PrincipalSet,
    cross_chain_canister: Option<Principal>,
    greeting_data: OrderedMap<String, Greeting>,
    destination_contract: OrderedMap<String, OrderedMap<String, DstContract>>,
    permitted_contract: OrderedMap<String, OrderedMap<String, OrderedSet<String>>>,
}

impl View for GreetingState {
    type V = GreetingModel;

    closed spec fn view(&self) -> GreetingModel {
        GreetingModel {
            custodians: self.custodians@,
            cross_chain_canister: canister_view(self.cross_chain_canister),
            greeting_data: self.greeting_data@,
            destination_contract: self.destination_contract@,
            permitted_contract: self.permitted_contract@,
        }
    }
}

/// Builds the payload of a greeting.
pub fn build_greeting_payload(title: &str, content: &str, date: &str) -> (payload: String)
    ensures
        payload@ == greeting_payload(title@, content@, date@),
{
    let mut payload = "{\"greeting\": [\"".to_owned();
    payload.append(own_chain_name().as_str());
    payload.append("\",\"");
    payload.append(title);
    payload.append("\",\"");
    payload.append(content);
    payload.append("\",\"");
    payload.append(date);
    payload.append("\"]}");
    payload
}

/// Reports the outcome of the call that asked the relay to send a
/// greeting: `Ok(true)` where it succeeded, a message where it did not.
pub fn greeting_result(succeeded: bool) -> (result: Result<bool, String>)
    ensures
        succeeded ==> result == Ok::<bool, String>(true),
        !succeeded ==> result is Err && result->Err_0@ == "call cross canister failed"@,
{
    if succeeded {
        Ok(true)
    } else {
        Err("call cross canister failed".to_owned())
    }
}

impl Default for GreetingState {
    /// The state of a service that holds nothing and has no custodian.
    fn default() -> (state: GreetingState)
        ensures
            state@ == GreetingModel::empty(),
    {
        GreetingState {
            custodians: PrincipalSet::new(),
            cross_chain_canister: None,
            greeting_data: OrderedMap::new(),
            destination_contract: OrderedMap::new(),
            permitted_contract: OrderedMap::new(),
        }
    }
}

impl GreetingState {
    /// The state of a service that `caller` sets up: the caller is its one
    /// custodian.
    pub fn init(caller: Principal) -> (state: GreetingState)
        ensures
            state@ == GreetingModel::init(caller@),
    {
        let mut state = GreetingState::default();
        state.custodians.insert(caller);
        assert(state@.custodians =~= set![caller@]);
        state
    }

    /// Registers the contract that takes `action_name` on `chain_name`, in
    /// place of the one registered before.
    pub fn register_dst_contract(
        &mut self,
        chain_name: String,
        action_name: String,
        contract_address: String,
        contract_action_name: String,
    )
        ensures
            final(self)@ == old(self)@.with_destination(
                chain_name@,
                action_name@,
                DstContractView { contract_address: contract_address@, action_name: contract_action_name@ },
            ),
    {
        let mut actions = match self.destination_contract.remove(&chain_name) {
            Some(actions) => actions,
            None => OrderedMap::new(),
        };
        actions.insert(action_name, DstContract { contract_address, action_name: contract_action_name });
        self.destination_contract.insert(chain_name, actions);
        assert(self@.destination_contract =~= old(self)@.with_destination(
            chain_name@,
            action_name@,
            DstContractView { contract_address: contract_address@, action_name: contract_action_name@ },
        ).destination_contract);
    }

    /// Permits `sender` of `chain_name` to ask for `action_name`; refused
    /// where it is permitted already.
    pub fn register_permitted_contract(&mut self, chain_name: String, sender: String, action_name: String) -> (result:
        Result<(), GreetingError>)
        ensures
            result == (if old(self)@.permissions(chain_name@, sender@).contains(action_name@) {
                Err::<(), GreetingError>(GreetingError::AlreadyPermitted)
            } else {
                Ok::<(), GreetingError>(())
            }),
            final(self)@ == (if result is Ok {
                old(self)@.with_permission(chain_name@, sender@, action_name@)
            } else {
                old(self)@
            }),
    {
        let permitted = match self.permitted_contract.get(&chain_name) {
            None => false,
            Some(senders) => match senders.get(&sender) {
                None => false,
                Some(actions) => actions.contains(&action_name),
            },
        };
        if permitted {
            return Err(GreetingError::AlreadyPermitted);
        }
        let mut senders = match self.permitted_contract.remove(&chain_name) {
            Some(senders) => senders,
            None => OrderedMap::new(),
        };
        let mut actions = match senders.remove(&sender) {
            Some(actions) => actions,
            None => OrderedSet::new(),
        };
        actions.insert(action_name);
        senders.insert(sender, actions);
        assert(senders@ =~= old(self)@.senders(chain_name@).insert(
            sender@,
            old(self)@.permissions(chain_name@, sender@).insert(action_name@),
        ));
        self.permitted_contract.insert(chain_name, senders);
        assert(self@.permitted_contract =~= old(self)@.with_permission(
            chain_name@,
            sender@,
            action_name@,
        ).permitted_contract);
        Ok(())
    }

    /// Keeps the greeting that the relay delivers from `from_chain`, in
    /// place of the one kept before; refused where the caller is not the
    /// relay that the service listens to.
    pub fn receive_greeting(
        &mut self,
        caller: &Principal,
        from_chain: String,
        title: String,
        content: String,
        date: String,
    ) -> (result: Result<(), GreetingError>)
        ensures
            result == (if old(self)@.cross_chain_canister == Some(caller@) {
                Ok::<(), GreetingError>(())
            } else {
                Err::<(), GreetingError>(GreetingError::NotCrossChainCanister)
            }),
            final(self)@ == (if result is Ok {
                GreetingModel {
                    greeting_data: old(self)@.greeting_data.insert(
                        from_chain@,
                        GreetingView { title: title@, content: content@, date: date@ },
                    ),
                    ..old(self)@
                }
            } else {
                old(self)@
            }),
    {
        let known = match &self.cross_chain_canister {
            Some(canister) => canister.same(caller),
            None => false,
        };
        if !known {
            return Err(GreetingError::NotCrossChainCanister);
        }
        self.greeting_data.insert(from_chain, Greeting { title, content, date });
        Ok(())
    }

    /// Prepares a greeting to `to_chain`: hands back what to ask of the
    /// relay, namely to send, to that chain, the registered contract and
    /// action with the payload of the greeting, in a session of its own.
    pub fn send_greeting(&self, to_chain: String, title: &str, content: &str, date: &str) -> (result: Result<
        GreetingCall,
        GreetingError,
    >)
        ensures
            match result {
                Ok(call) => {
                    &&& self@.preparation(to_chain@) is Ok
                    &&& Some(call.canister@) == self@.cross_chain_canister
                    &&& call.to_chain@ == to_chain@
                    &&& call.content@ == self@.greeting_content(to_chain@, title@, content@, date@)
                    &&& call.session == (Session { res_type: 0, id: 0 })
                },
                Err(refusal) => self@.preparation(to_chain@) == Err::<(), GreetingError>(refusal),
            },
    {
        let action = "receiveGreeting".to_owned();
        let destination = match self.destination_contract.get(&to_chain) {
            None => {
                return Err(GreetingError::ChainNotRegistered);
            },
            Some(actions) => match actions.get(&action) {
                None => {
                    return Err(GreetingError::ActionNotRegistered);
                },
                Some(destination) => destination,
            },
        };
        let canister = match &self.cross_chain_canister {
            None => {
                return Err(GreetingError::CanisterNotSet);
            },
            Some(canister) => canister.duplicate(),
        };
        Ok(
            GreetingCall {
                canister,
                to_chain,
                content: Content {
                    contract: destination.contract_address.clone(),
                    action: destination.action_name.clone(),
                    data: build_greeting_payload(title, content, date),
                },
                session: Session { res_type: 0, id: 0 },
            },
        )
    }

    /// Tells the service its relay, on behalf of a custodian.
    pub fn set_cross_chain_canister(&mut self, caller: &Principal, cross_chain_canister: Principal) -> (result:
        Result<(), GreetingError>)
        ensures
            result == (if old(self)@.custodians.contains(caller@) {
                Ok::<(), GreetingError>(())
            } else {
                Err::<(), GreetingError>(GreetingError::NotCustodian)
            }),
            final(self)@ == (if result is Ok {
                GreetingModel { cross_chain_canister: Some(cross_chain_canister@), ..old(self)@ }
            } else {
                old(self)@
            }),
    {
        if !self.custodians.contains(caller) {
            return Err(GreetingError::NotCustodian);
        }
        self.cross_chain_canister = Some(cross_chain_canister);
        Ok(())
    }

    /// The relay of the service, if it is set.
    pub fn get_cross_chain_canister(&self) -> (canister: Option<Principal>)
        ensures
            canister_view(canister) == self@.cross_chain_canister,
    {
        match &self.cross_chain_canister {
            Some(canister) => Some(canister.duplicate()),
            None => None,
        }
    }

    /// The custodians, in ascending order.
    pub fn get_custodians(&self) -> (list: Vec<Principal>)
        ensures
            lists_members::<Principal>(principal_views(list@), self@.custodians),
    {
        self.custodians.to_vec()
    }

    /// The latest greeting from `from_chain`, if there is one.
    pub fn get_greeting_data(&self, from_chain: &str) -> (greeting: Option<Greeting>)
        ensures
            greeting is Some <==> self@.greeting_data.dom().contains(from_chain@),
            greeting matches Some(found) ==> found@ == self@.greeting_data[from_chain@],
    {
        match self.greeting_data.get(&from_chain.to_owned()) {
            Some(greeting) => Some(greeting.clone()),
            None => None,
        }
    }
}

} // verus!
