use cross_chain::dispatch::execution_result;
use cross_chain::error::Error;
use cross_chain::message::Content;
use cross_chain::message::Message;
use cross_chain::message::Session;
use cross_chain::message::Sqos;
use cross_chain::principal::Principal;
use cross_chain::state::State;

fn principal(tag: u8) -> Principal {
    Principal::from_slice(&[tag, 7, 7]).unwrap()
}

fn message(from_chain: &str, data: &str) -> Message {
    Message {
        from_chain: from_chain.to_string(),
        to_chain: "DFINITY".to_string(),
        sender: "alice".to_string(),
        signer: "alice".to_string(),
        sqos: Sqos { reveal: 1 },
        content: Content {
            contract: "aaaaa-aa".to_string(),
            action: "receiveGreeting".to_string(),
            data: data.to_string(),
        },
        session: Session { res_type: 0, id: 0 },
    }
}

fn content(data: &str) -> Content {
    Content { contract: "0xabc".to_string(), action: "greet".to_string(), data: data.to_string() }
}

fn relay_with_validators(count: u8) -> State {
    let custodian = principal(0);
    let mut state = State::init(principal(0));
    for tag in 1..=count {
        assert_eq!(state.register_validator(&custodian, principal(tag)), Ok(true));
    }
    state
}

#[test]
fn three_validators_promote_on_the_third_attestation() {
    let mut state = relay_with_validators(3);
    let hash = message("chainX", "(1)").to_hash();

    assert_eq!(state.receive_message(&principal(1), 1, message("chainX", "(1)")), Ok(true));
    assert_eq!(state.receive_message(&principal(2), 1, message("chainX", "(1)")), Ok(true));

    let pending = state.get_pending_message();
    assert_eq!(pending.len(), 1);
    assert_eq!(pending[0].0.chain_name, "chainX");
    assert_eq!(pending[0].0.id, 1);
    assert_eq!(pending[0].1.len(), 1);
    assert_eq!(pending[0].1[0].0, hash);
    assert_eq!(pending[0].1[0].1.count(), 2);
    assert!(pending[0].1[0].1.validators()[0].same(&principal(1)));
    assert!(pending[0].1[0].1.validators()[1].same(&principal(2)));
    assert!(state.get_executable_message().is_empty());

    assert_eq!(state.receive_message(&principal(3), 1, message("chainX", "(1)")), Ok(true));

    assert!(state.get_pending_message().is_empty());
    let executable = state.get_executable_message();
    assert_eq!(executable.len(), 1);
    assert_eq!(executable[0].0.chain_name, "chainX");
    assert_eq!(executable[0].0.id, 1);
    assert_eq!(executable[0].1.to_hash(), hash);
    assert_eq!(executable[0].1.content.data, "(1)");
}

#[test]
fn three_sends_are_numbered_one_to_three() {
    let custodian = principal(0);
    let locker = principal(9);
    let mut state = State::init(principal(0));
    assert_eq!(state.register_locker(&custodian, principal(9)), Ok(true));

    assert_eq!(state.send_message(&locker, "chainY", content("first"), Session { res_type: 0, id: 1 }), Ok(()));
    assert_eq!(state.send_message(&locker, "chainY", content("second"), Session { res_type: 1, id: 2 }), Ok(()));
    assert_eq!(state.send_message(&locker, "chainY", content("third"), Session { res_type: 2, id: 3 }), Ok(()));

    assert_eq!(state.get_sent_message_count("chainY"), 3);
    let second = state.get_sent_message_by_id("chainY", 2).unwrap();
    assert_eq!(second.content.data, "second");
    assert_eq!(second.session, Session { res_type: 1, id: 2 });
    assert_eq!(second.from_chain, "DFINITY");
    assert_eq!(second.to_chain, "chainY");
    assert_eq!(second.sender, locker.to_text());
    assert_eq!(second.signer, locker.to_text());
    assert_eq!(second.sqos, Sqos { reveal: 1 });
}

#[test]
fn gap_is_refused_and_the_watermark_stays() {
    let mut state = relay_with_validators(1);
    for id in 1..=3u64 {
        assert_eq!(state.receive_message(&principal(1), id, message("chainX", "(0)")), Ok(true));
    }
    assert_eq!(state.get_latest_message_id("chainX"), 3);

    assert_eq!(
        state.receive_message(&principal(1), 5, message("chainX", "(0)")),
        Err(Error::FatalSequenceGap),
    );

    assert_eq!(state.get_latest_message_id("chainX"), 3);
    assert_eq!(state.get_final_received_message_id("chainX", &principal(1)), 3);
    assert!(state.get_pending_message().is_empty());
    assert_eq!(state.get_executable_message().len(), 3);
}

#[test]
fn failed_execution_drops_the_message() {
    let mut state = relay_with_validators(1);
    assert_eq!(state.receive_message(&principal(1), 1, message("chainX", "(\"hi\")")), Ok(true));
    assert_eq!(state.get_executable_message().len(), 1);

    let call = state.execute_message("chainX", 1).unwrap();
    assert_eq!(call.contract, "aaaaa-aa");
    assert_eq!(call.action, "receiveGreeting");
    assert_eq!(call.data, "(\"hi\")");
    assert_eq!(call.context.id, 1);
    assert_eq!(execution_result(false), Err(Error::ExecuteMessageFailed));

    assert!(state.get_executable_message().is_empty());
    assert_eq!(state.execute_message("chainX", 1).err(), Some(Error::NotFound));
}
