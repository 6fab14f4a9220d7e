use cross_chain::greeting::build_greeting_payload;
use cross_chain::greeting::greeting_result;
use cross_chain::greeting::GreetingError;
use cross_chain::greeting::GreetingState;
use cross_chain::message::Session;
use cross_chain::principal::Principal;
use cross_chain::state::State;

fn party(tag: u8) -> Principal {
    Principal::from_slice(&[tag, 42]).unwrap()
}

fn service() -> GreetingState {
    let mut state = GreetingState::init(party(0));
    state.register_dst_contract(
        "chainY".to_string(),
        "receiveGreeting".to_string(),
        "0xgreeter".to_string(),
        "receive_greeting".to_string(),
    );
    state
}

#[test]
fn greeting_payload_lists_the_four_texts() {
    assert_eq!(
        build_greeting_payload("Hi", "How are you", "2022-08-01"),
        "{\"greeting\": [\"DFINITY\",\"Hi\",\"How are you\",\"2022-08-01\"]}",
    );
    assert_eq!(build_greeting_payload("", "", ""), "{\"greeting\": [\"DFINITY\",\"\",\"\",\"\"]}");
}

#[test]
fn new_service_has_one_custodian_and_no_relay() {
    let state = GreetingState::init(party(0));
    let custodians = state.get_custodians();
    assert_eq!(custodians.len(), 1);
    assert!(custodians[0].same(&party(0)));
    assert!(state.get_cross_chain_canister().is_none());
    assert!(state.get_greeting_data("chainX").is_none());
    assert!(GreetingState::default().get_custodians().is_empty());
    assert!(State::default().get_custodians().is_empty());
}

#[test]
fn relay_is_set_by_a_custodian_only() {
    let mut state = service();
    assert_eq!(state.set_cross_chain_canister(&party(1), party(7)), Err(GreetingError::NotCustodian));
    assert!(state.get_cross_chain_canister().is_none());
    assert_eq!(state.set_cross_chain_canister(&party(0), party(7)), Ok(()));
    assert!(state.get_cross_chain_canister().unwrap().same(&party(7)));
    assert_eq!(state.set_cross_chain_canister(&party(0), party(8)), Ok(()));
    assert!(state.get_cross_chain_canister().unwrap().same(&party(8)));
}

#[test]
fn greeting_is_taken_from_the_relay_only() {
    let mut state = service();
    let from_nobody = state.receive_greeting(
        &party(7),
        "chainX".to_string(),
        "t".to_string(),
        "c".to_string(),
        "d".to_string(),
    );
    assert_eq!(from_nobody, Err(GreetingError::NotCrossChainCanister));
    assert_eq!(state.set_cross_chain_canister(&party(0), party(7)), Ok(()));
    let from_other = state.receive_greeting(
        &party(0),
        "chainX".to_string(),
        "t".to_string(),
        "c".to_string(),
        "d".to_string(),
    );
    assert_eq!(from_other, Err(GreetingError::NotCrossChainCanister));
    assert!(state.get_greeting_data("chainX").is_none());

    let first = state.receive_greeting(
        &party(7),
        "chainX".to_string(),
        "t1".to_string(),
        "c1".to_string(),
        "d1".to_string(),
    );
    assert_eq!(first, Ok(()));
    let second = state.receive_greeting(
        &party(7),
        "chainX".to_string(),
        "t2".to_string(),
        "c2".to_string(),
        "d2".to_string(),
    );
    assert_eq!(second, Ok(()));
    let kept = state.get_greeting_data("chainX").unwrap();
    assert_eq!(kept.title, "t2");
    assert_eq!(kept.content, "c2");
    assert_eq!(kept.date, "d2");
    assert!(state.get_greeting_data("chainY").is_none());
}

#[test]
fn permission_is_given_once() {
    let mut state = service();
    let give = |state: &mut GreetingState, chain: &str, sender: &str, action: &str| {
        state.register_permitted_contract(chain.to_string(), sender.to_string(), action.to_string())
    };
    assert_eq!(give(&mut state, "chainY", "0xa", "greet"), Ok(()));
    assert_eq!(give(&mut state, "chainY", "0xa", "greet"), Err(GreetingError::AlreadyPermitted));
    assert_eq!(give(&mut state, "chainY", "0xa", "wave"), Ok(()));
    assert_eq!(give(&mut state, "chainY", "0xb", "greet"), Ok(()));
    assert_eq!(give(&mut state, "chainZ", "0xa", "greet"), Ok(()));
    assert_eq!(give(&mut state, "chainZ", "0xa", "greet"), Err(GreetingError::AlreadyPermitted));
    assert_eq!(give(&mut state, "chainY", "0xb", "greet"), Err(GreetingError::AlreadyPermitted));
}

#[test]
fn greeting_is_prepared_for_a_registered_destination() {
    let mut state = service();
    assert_eq!(
        state.send_greeting("chainQ".to_string(), "t", "c", "d").err(),
        Some(GreetingError::ChainNotRegistered),
    );
    state.register_dst_contract("chainQ".to_string(), "other".to_string(), "0x1".to_string(), "o".to_string());
    assert_eq!(
        state.send_greeting("chainQ".to_string(), "t", "c", "d").err(),
        Some(GreetingError::ActionNotRegistered),
    );
    assert_eq!(
        state.send_greeting("chainY".to_string(), "t", "c", "d").err(),
        Some(GreetingError::CanisterNotSet),
    );
    assert_eq!(state.set_cross_chain_canister(&party(0), party(7)), Ok(()));

    let call = state.send_greeting("chainY".to_string(), "Hi", "there", "today").unwrap();
    assert!(call.canister.same(&party(7)));
    assert_eq!(call.to_chain, "chainY");
    assert_eq!(call.content.contract, "0xgreeter");
    assert_eq!(call.content.action, "receive_greeting");
    assert_eq!(call.content.data, "{\"greeting\": [\"DFINITY\",\"Hi\",\"there\",\"today\"]}");
    assert_eq!(call.session, Session { res_type: 0, id: 0 });
}

#[test]
fn later_registration_replaces_the_destination() {
    let mut state = service();
    assert_eq!(state.set_cross_chain_canister(&party(0), party(7)), Ok(()));
    state.register_dst_contract(
        "chainY".to_string(),
        "receiveGreeting".to_string(),
        "0xnew".to_string(),
        "hello".to_string(),
    );
    let call = state.send_greeting("chainY".to_string(), "a", "b", "c").unwrap();
    assert_eq!(call.content.contract, "0xnew");
    assert_eq!(call.content.action, "hello");
}

#[test]
fn outcome_of_the_greeting_call_is_reported() {
    assert_eq!(greeting_result(true), Ok(true));
    assert_eq!(greeting_result(false), Err("call cross canister failed".to_string()));
}

#[test]
fn greeting_goes_through_the_relay() {
    let mut greeter = service();
    let relay_id = party(7);
    let greeter_id = party(8);
    assert_eq!(greeter.set_cross_chain_canister(&party(0), party(7)), Ok(()));
    let mut relay = State::init(party(0));
    assert_eq!(relay.register_locker(&party(0), party(8)), Ok(true));

    let call = greeter.send_greeting("chainY".to_string(), "Hi", "there", "today").unwrap();
    assert!(call.canister.same(&relay_id));
    assert_eq!(relay.send_message(&greeter_id, &call.to_chain, call.content, call.session), Ok(()));

    let sent = relay.get_sent_message_by_id("chainY", 1).unwrap();
    assert_eq!(sent.sender, greeter_id.to_text());
    assert_eq!(sent.content.contract, "0xgreeter");
    assert_eq!(sent.content.data, "{\"greeting\": [\"DFINITY\",\"Hi\",\"there\",\"today\"]}");
}
