use cross_chain::error::Error;
use cross_chain::message::Content;
use cross_chain::message::Message;
use cross_chain::message::Session;
use cross_chain::message::Sqos;
use cross_chain::principal::Principal;
use cross_chain::state::State;

fn actor(tag: u8) -> Principal {
    Principal::from_slice(&[tag, 0, tag]).unwrap()
}

fn parcel(data: &str) -> Content {
    Content { contract: "c".to_string(), action: "a".to_string(), data: data.to_string() }
}

fn report(from_chain: &str, data: &str) -> Message {
    Message {
        from_chain: from_chain.to_string(),
        to_chain: "DFINITY".to_string(),
        sender: "s".to_string(),
        signer: "s".to_string(),
        sqos: Sqos { reveal: 1 },
        content: parcel(data),
        session: Session { res_type: 0, id: 0 },
    }
}

fn busy_relay() -> State {
    let mut state = State::init(actor(0));
    assert_eq!(state.register_locker(&actor(0), actor(1)), Ok(true));
    assert_eq!(state.register_validator(&actor(0), actor(2)), Ok(true));
    assert_eq!(state.register_validator(&actor(0), actor(3)), Ok(true));
    let session = Session { res_type: 0, id: 0 };
    for data in ["y1", "y2", "y3"] {
        assert_eq!(state.send_message(&actor(1), "chainY", parcel(data), session), Ok(()));
    }
    for data in ["z1", "z2"] {
        assert_eq!(state.send_message(&actor(1), "chainZ", parcel(data), session), Ok(()));
    }
    assert_eq!(state.receive_message(&actor(2), 1, report("chainX", "x1")), Ok(true));
    assert_eq!(state.receive_message(&actor(3), 1, report("chainX", "x1")), Ok(true));
    assert_eq!(state.receive_message(&actor(2), 2, report("chainX", "x2")), Ok(true));
    assert_eq!(state.receive_message(&actor(2), 1, report("chainW", "w1")), Ok(true));
    state
}

#[test]
fn purging_needs_a_custodian() {
    let mut state = busy_relay();
    assert_eq!(state.clear_sent_message(&actor(1), vec!["chainY".to_string()]), Err(Error::Unauthorized));
    assert_eq!(state.clear_received_message(&actor(2), vec!["chainX".to_string()]), Err(Error::Unauthorized));
    assert_eq!(state.get_sent_message_count("chainY"), 3);
    assert_eq!(state.get_sent_message().len(), 5);
    assert_eq!(state.get_latest_message_id("chainX"), 2);
    assert_eq!(state.get_pending_message().len(), 2);
    assert_eq!(state.get_executable_message().len(), 1);
}

#[test]
fn purge_of_sent_messages_takes_the_named_chains() {
    let mut state = busy_relay();
    assert_eq!(
        state.clear_sent_message(&actor(0), vec!["chainY".to_string(), "chainQ".to_string(), "chainY".to_string()]),
        Ok(true),
    );
    assert_eq!(state.get_sent_message_count("chainY"), 0);
    assert_eq!(state.get_sent_message_count("chainZ"), 2);
    assert_eq!(state.get_sent_message_by_id("chainY", 1).err(), Some(Error::NotFound));
    assert_eq!(state.get_sent_message_by_id("chainZ", 2).unwrap().content.data, "z2");
    assert_eq!(state.get_sent_message().len(), 2);

    let session = Session { res_type: 0, id: 0 };
    assert_eq!(state.send_message(&actor(1), "chainY", parcel("again"), session), Ok(()));
    assert_eq!(state.get_sent_message_count("chainY"), 1);
    assert_eq!(state.get_sent_message_by_id("chainY", 1).unwrap().content.data, "again");
}

#[test]
fn purge_of_no_chain_changes_nothing_sent() {
    let mut state = busy_relay();
    assert_eq!(state.clear_sent_message(&actor(0), vec![]), Ok(true));
    assert_eq!(state.get_sent_message().len(), 5);
    assert_eq!(state.get_sent_message_count("chainY"), 3);
}

#[test]
fn purge_of_received_messages_resets_the_named_chains() {
    let mut state = busy_relay();
    assert_eq!(state.clear_received_message(&actor(0), vec!["chainX".to_string()]), Ok(true));

    assert!(state.get_pending_message().is_empty());
    assert!(state.get_executable_message().is_empty());
    assert_eq!(state.get_latest_message_id("chainX"), 0);
    assert_eq!(state.get_final_received_message_id("chainX", &actor(2)), 0);
    assert_eq!(state.get_final_received_message_id("chainX", &actor(3)), 0);
    assert_eq!(state.get_latest_message_id("chainW"), 1);
    assert_eq!(state.get_final_received_message_id("chainW", &actor(2)), 1);
    assert_eq!(state.get_sent_message().len(), 5);

    assert_eq!(state.receive_message(&actor(2), 1, report("chainX", "new")), Ok(true));
    assert_eq!(state.get_latest_message_id("chainX"), 1);
}

#[test]
fn purge_keeps_the_watermark_of_a_former_validator() {
    let mut state = busy_relay();
    assert_eq!(state.un_register_validator(&actor(0), &actor(3)), Ok(true));
    assert_eq!(state.clear_received_message(&actor(0), vec!["chainX".to_string()]), Ok(true));
    assert_eq!(state.get_final_received_message_id("chainX", &actor(2)), 0);
    assert_eq!(state.get_final_received_message_id("chainX", &actor(3)), 1);
    assert_eq!(state.get_latest_message_id("chainX"), 0);
}
