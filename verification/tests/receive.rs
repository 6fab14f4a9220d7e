use cross_chain::error::Attestation;
use cross_chain::error::Error;
use cross_chain::message::Content;
use cross_chain::message::Message;
use cross_chain::message::Session;
use cross_chain::message::Sqos;
use cross_chain::principal::Principal;
use cross_chain::state::State;

fn who(tag: u8) -> Principal {
    Principal::from_slice(&[tag]).unwrap()
}

fn note(from_chain: &str, data: &str) -> Message {
    Message {
        from_chain: from_chain.to_string(),
        to_chain: "DFINITY".to_string(),
        sender: "0xsender".to_string(),
        signer: "0xsigner".to_string(),
        sqos: Sqos { reveal: 1 },
        content: Content { contract: "aaaaa-aa".to_string(), action: "act".to_string(), data: data.to_string() },
        session: Session { res_type: 0, id: 0 },
    }
}

fn relay(validators: u8) -> State {
    let mut state = State::init(who(0));
    for tag in 1..=validators {
        assert_eq!(state.register_validator(&who(0), who(tag)), Ok(true));
    }
    state
}

#[test]
fn attestation_by_a_stranger_is_refused() {
    let mut state = relay(2);
    assert_eq!(state.receive_message(&who(9), 1, note("chainX", "a")), Err(Error::NotValidator));
    assert_eq!(state.receive_message(&who(0), 1, note("chainX", "a")), Err(Error::NotValidator));
    assert_eq!(state.get_latest_message_id("chainX"), 0);
    assert!(state.get_pending_message().is_empty());
}

#[test]
fn watermark_moves_by_one_for_each_new_head() {
    let mut state = relay(2);
    assert_eq!(state.get_latest_message_id("chainX"), 0);
    for id in 1..=4u64 {
        assert_eq!(state.receive_message(&who(1), id, note("chainX", "a")), Ok(true));
        assert_eq!(state.get_latest_message_id("chainX"), id);
        assert_eq!(state.get_final_received_message_id("chainX", &who(1)), id);
    }
    assert_eq!(state.receive_message(&who(2), 2, note("chainX", "a")), Ok(true));
    assert_eq!(state.get_latest_message_id("chainX"), 4);
    assert_eq!(state.get_final_received_message_id("chainX", &who(2)), 2);
    assert_eq!(state.get_latest_message_id("chainY"), 0);
}

#[test]
fn watermarks_of_two_chains_are_apart() {
    let mut state = relay(2);
    assert_eq!(state.receive_message(&who(1), 1, note("chainX", "a")), Ok(true));
    assert_eq!(state.receive_message(&who(1), 1, note("chainY", "a")), Ok(true));
    assert_eq!(state.receive_message(&who(1), 2, note("chainY", "a")), Ok(true));
    assert_eq!(state.get_latest_message_id("chainX"), 1);
    assert_eq!(state.get_latest_message_id("chainY"), 2);
    assert_eq!(state.get_final_received_message_id("chainX", &who(1)), 1);
    assert_eq!(state.get_final_received_message_id("chainY", &who(1)), 2);
    assert_eq!(state.get_final_received_message_id("chainY", &who(2)), 0);
}

#[test]
fn number_beyond_the_next_is_a_gap() {
    let mut state = relay(2);
    assert_eq!(state.receive_message(&who(1), 2, note("chainX", "a")), Err(Error::FatalSequenceGap));
    assert_eq!(state.check_admission("chainX", 2, &who(1)), Err(Error::FatalSequenceGap));
    assert_eq!(state.admit_slot("chainX", u64::MAX, &who(1)), Err(Error::FatalSequenceGap));
    assert_eq!(state.get_latest_message_id("chainX"), 0);
    assert_eq!(state.get_final_received_message_id("chainX", &who(1)), 0);
    assert_eq!(state.check_admission("chainX", 1, &who(1)), Ok(()));
}

#[test]
fn number_zero_is_refused_as_received() {
    let mut state = relay(1);
    assert_eq!(state.receive_message(&who(1), 0, note("chainX", "a")), Err(Error::AlreadyReceived));
}

#[test]
fn number_attested_last_is_refused_as_received() {
    let mut state = relay(3);
    assert_eq!(state.receive_message(&who(1), 1, note("chainX", "a")), Ok(true));
    assert_eq!(state.receive_message(&who(1), 1, note("chainX", "a")), Err(Error::AlreadyReceived));
    assert_eq!(state.receive_message(&who(1), 1, note("chainX", "b")), Err(Error::AlreadyReceived));
    let pending = state.get_pending_message();
    assert_eq!(pending.len(), 1);
    assert_eq!(pending[0].1.len(), 1);
    assert_eq!(pending[0].1[0].1.count(), 1);
}

#[test]
fn repeated_attestation_is_refused_and_not_counted() {
    let mut state = relay(3);
    assert_eq!(state.receive_message(&who(1), 1, note("chainX", "a")), Ok(true));
    assert_eq!(state.receive_message(&who(1), 2, note("chainX", "b")), Ok(true));
    assert_eq!(state.receive_message(&who(1), 1, note("chainX", "a")), Err(Error::DuplicateAttestation));
    assert_eq!(
        state.record_attestation("chainX", 1, &who(1), note("chainX", "a")),
        Err(Error::DuplicateAttestation),
    );
    let pending = state.get_pending_message();
    assert_eq!(pending.len(), 2);
    assert_eq!(pending[0].0.id, 1);
    assert_eq!(pending[0].1[0].1.count(), 1);
    assert_eq!(state.get_final_received_message_id("chainX", &who(1)), 2);
}

#[test]
fn one_attester_short_does_not_promote() {
    let mut state = relay(4);
    assert_eq!(
        state.record_attestation("chainX", 1, &who(1), note("chainX", "a")),
        Ok(Attestation::Pending(1)),
    );
    assert_eq!(
        state.record_attestation("chainX", 1, &who(2), note("chainX", "a")),
        Ok(Attestation::Pending(2)),
    );
    assert_eq!(
        state.record_attestation("chainX", 1, &who(3), note("chainX", "a")),
        Ok(Attestation::Pending(3)),
    );
    assert!(state.get_executable_message().is_empty());
    assert_eq!(state.record_attestation("chainX", 1, &who(4), note("chainX", "a")), Ok(Attestation::Promoted));
    assert_eq!(state.get_executable_message().len(), 1);
    assert!(state.get_pending_message().is_empty());
}

#[test]
fn single_validator_promotes_at_once() {
    let mut state = relay(1);
    assert_eq!(state.receive_message(&who(1), 1, note("chainX", "a")), Ok(true));
    assert!(state.get_pending_message().is_empty());
    assert_eq!(state.get_executable_message().len(), 1);
}

#[test]
fn competing_contents_are_counted_apart() {
    let mut state = relay(3);
    assert_eq!(state.receive_message(&who(1), 1, note("chainX", "a")), Ok(true));
    assert_eq!(state.receive_message(&who(2), 1, note("chainX", "b")), Ok(true));
    assert_eq!(state.receive_message(&who(3), 1, note("chainX", "b")), Ok(true));

    assert!(state.get_executable_message().is_empty());
    let pending = state.get_pending_message();
    assert_eq!(pending.len(), 1);
    let groups = &pending[0].1;
    assert_eq!(groups.len(), 2);
    assert!(groups[0].0 < groups[1].0);
    let hash_a = note("chainX", "a").to_hash();
    let hash_b = note("chainX", "b").to_hash();
    for (hash, group) in groups.iter() {
        if *hash == hash_a {
            assert_eq!(group.count(), 1);
            assert_eq!(group.message().content.data, "a");
        } else {
            assert_eq!(*hash, hash_b);
            assert_eq!(group.count(), 2);
            assert_eq!(group.message().content.data, "b");
        }
    }
}

#[test]
fn promotion_closes_the_slot_with_every_group() {
    let mut state = relay(2);
    assert_eq!(state.receive_message(&who(1), 1, note("chainX", "a")), Ok(true));
    assert_eq!(state.receive_message(&who(1), 2, note("chainX", "c")), Ok(true));
    assert_eq!(state.receive_message(&who(2), 1, note("chainX", "b")), Ok(true));
    assert_eq!(state.get_pending_message()[0].1.len(), 2);

    assert_eq!(state.receive_message(&who(1), 1, note("chainX", "b")), Ok(true));

    let pending = state.get_pending_message();
    assert_eq!(pending.len(), 1);
    assert_eq!(pending[0].0.id, 2);
    let executable = state.get_executable_message();
    assert_eq!(executable.len(), 1);
    assert_eq!(executable[0].0.id, 1);
    assert_eq!(executable[0].1.content.data, "b");
}

#[test]
fn quorum_is_read_when_the_attestation_is_made() {
    let mut state = relay(3);
    assert_eq!(state.receive_message(&who(1), 1, note("chainX", "a")), Ok(true));
    assert_eq!(state.un_register_validator(&who(0), &who(3)), Ok(true));
    assert_eq!(state.get_pending_message().len(), 1);
    assert!(state.get_executable_message().is_empty());

    assert_eq!(state.receive_message(&who(2), 1, note("chainX", "a")), Ok(true));

    assert!(state.get_pending_message().is_empty());
    assert_eq!(state.get_executable_message().len(), 1);
}

#[test]
fn quorum_grows_with_the_validators() {
    let mut state = relay(2);
    assert_eq!(state.receive_message(&who(1), 1, note("chainX", "a")), Ok(true));
    assert_eq!(state.register_validator(&who(0), who(3)), Ok(true));
    assert_eq!(state.receive_message(&who(2), 1, note("chainX", "a")), Ok(true));
    assert!(state.get_executable_message().is_empty());
    assert_eq!(state.get_pending_message()[0].1[0].1.count(), 2);
    assert_eq!(state.receive_message(&who(3), 1, note("chainX", "a")), Ok(true));
    assert_eq!(state.get_executable_message().len(), 1);
}

#[test]
fn count_beyond_a_shrunken_quorum_promotes() {
    let mut state = relay(4);
    assert_eq!(state.receive_message(&who(1), 1, note("chainX", "a")), Ok(true));
    assert_eq!(state.receive_message(&who(2), 1, note("chainX", "a")), Ok(true));
    assert_eq!(state.un_register_validator(&who(0), &who(2)), Ok(true));
    assert_eq!(state.un_register_validator(&who(0), &who(3)), Ok(true));
    assert_eq!(state.un_register_validator(&who(0), &who(4)), Ok(true));
    assert_eq!(state.register_validator(&who(0), who(5)), Ok(true));
    assert_eq!(state.get_validators().len(), 2);

    assert_eq!(state.record_attestation("chainX", 1, &who(5), note("chainX", "a")), Ok(Attestation::Promoted));
    assert_eq!(state.get_executable_message().len(), 1);
}

#[test]
fn lagging_validator_catches_up_while_the_slot_is_open() {
    let mut state = relay(2);
    assert_eq!(state.receive_message(&who(1), 1, note("chainX", "a")), Ok(true));
    assert_eq!(state.receive_message(&who(1), 2, note("chainX", "b")), Ok(true));
    assert_eq!(state.get_latest_message_id("chainX"), 2);

    assert_eq!(state.receive_message(&who(2), 1, note("chainX", "a")), Ok(true));
    assert_eq!(state.get_final_received_message_id("chainX", &who(2)), 1);
    assert_eq!(state.get_latest_message_id("chainX"), 2);
    assert_eq!(state.get_executable_message().len(), 1);

    assert_eq!(state.receive_message(&who(2), 2, note("chainX", "b")), Ok(true));
    assert_eq!(state.get_executable_message().len(), 2);
    assert!(state.get_pending_message().is_empty());
}

#[test]
fn catching_up_on_a_closed_slot_is_refused_as_completed() {
    let mut state = relay(1);
    assert_eq!(state.receive_message(&who(1), 1, note("chainX", "a")), Ok(true));
    assert_eq!(state.receive_message(&who(1), 2, note("chainX", "b")), Ok(true));
    assert_eq!(state.register_validator(&who(0), who(2)), Ok(true));

    assert_eq!(state.receive_message(&who(2), 1, note("chainX", "a")), Err(Error::AlreadyCompleted));
    assert_eq!(state.receive_message(&who(2), 2, note("chainX", "b")), Err(Error::AlreadyCompleted));
    assert_eq!(state.receive_message(&who(1), 1, note("chainX", "a")), Err(Error::AlreadyCompleted));
    assert_eq!(state.get_final_received_message_id("chainX", &who(2)), 0);
    assert_eq!(state.get_executable_message().len(), 2);
    assert!(state.get_pending_message().is_empty());
}

#[test]
fn validator_between_its_watermark_and_the_chain_is_admitted() {
    let mut state = relay(1);
    assert_eq!(state.register_validator(&who(0), who(2)), Ok(true));
    assert_eq!(state.receive_message(&who(1), 1, note("chainX", "a")), Ok(true));
    assert_eq!(state.receive_message(&who(1), 2, note("chainX", "b")), Ok(true));
    assert_eq!(state.receive_message(&who(1), 3, note("chainX", "c")), Ok(true));
    assert_eq!(state.receive_message(&who(2), 1, note("chainX", "a")), Ok(true));
    assert_eq!(state.receive_message(&who(2), 2, note("chainX", "b")), Ok(true));
    assert_eq!(state.receive_message(&who(2), 3, note("chainX", "c")), Ok(true));
    assert!(state.get_pending_message().is_empty());
    assert_eq!(state.register_validator(&who(0), who(3)), Ok(true));
    assert_eq!(state.receive_message(&who(1), 4, note("chainX", "d")), Ok(true));
    assert_eq!(state.receive_message(&who(1), 5, note("chainX", "e")), Ok(true));
    assert_eq!(state.clear_received_message(&who(0), vec![]), Ok(true));
    assert_eq!(state.get_final_received_message_id("chainX", &who(2)), 3);
    assert_eq!(state.get_latest_message_id("chainX"), 5);

    assert_eq!(state.check_admission("chainX", 4, &who(2)), Ok(()));
    assert_eq!(state.check_admission("chainX", 2, &who(2)), Err(Error::AlreadyCompleted));
    assert_eq!(state.check_admission("chainX", 4, &who(3)), Err(Error::AlreadyCompleted));
}

#[test]
fn admission_moves_the_watermarks_and_refusal_moves_nothing() {
    let mut state = relay(2);
    assert_eq!(state.admit_slot("chainX", 1, &who(1)), Ok(()));
    assert_eq!(state.get_latest_message_id("chainX"), 1);
    assert_eq!(state.get_final_received_message_id("chainX", &who(1)), 1);
    assert_eq!(state.admit_slot("chainX", 1, &who(1)), Err(Error::AlreadyReceived));
    assert_eq!(state.admit_slot("chainX", 1, &who(2)), Err(Error::AlreadyCompleted));
    assert_eq!(state.admit_slot("chainX", 3, &who(2)), Err(Error::FatalSequenceGap));
    assert_eq!(state.get_latest_message_id("chainX"), 1);
    assert_eq!(state.get_final_received_message_id("chainX", &who(2)), 0);
}

#[test]
fn porting_task_is_the_lowest_open_slot_beyond_the_validator() {
    let mut state = relay(3);
    assert_eq!(state.get_msg_porting_task("chainX", &who(1)), 1);
    for id in 1..=3u64 {
        assert_eq!(state.receive_message(&who(1), id, note("chainX", "a")), Ok(true));
    }
    assert_eq!(state.receive_message(&who(1), 1, note("chainA", "a")), Ok(true));
    assert_eq!(state.receive_message(&who(2), 1, note("chainX", "a")), Ok(true));

    assert_eq!(state.get_msg_porting_task("chainX", &who(1)), 4);
    assert_eq!(state.get_msg_porting_task("chainX", &who(2)), 2);
    assert_eq!(state.get_msg_porting_task("chainX", &who(3)), 1);
    assert_eq!(state.get_msg_porting_task("chainA", &who(3)), 1);
    assert_eq!(state.get_msg_porting_task("chainA", &who(1)), 2);
    assert_eq!(state.get_msg_porting_task("chainB", &who(1)), 1);
}

#[test]
fn pending_slots_are_listed_in_ascending_order() {
    let mut state = relay(2);
    assert_eq!(state.receive_message(&who(1), 1, note("zeta", "a")), Ok(true));
    assert_eq!(state.receive_message(&who(1), 1, note("alpha", "a")), Ok(true));
    assert_eq!(state.receive_message(&who(1), 2, note("alpha", "a")), Ok(true));
    assert_eq!(state.receive_message(&who(1), 1, note("alphabet", "a")), Ok(true));
    assert_eq!(state.receive_message(&who(1), 1, note("Zeta", "a")), Ok(true));
    let listed: Vec<(String, u64)> =
        state.get_pending_message().iter().map(|entry| (entry.0.chain_name.clone(), entry.0.id)).collect();
    assert_eq!(
        listed,
        vec![
            ("Zeta".to_string(), 1),
            ("alpha".to_string(), 1),
            ("alpha".to_string(), 2),
            ("alphabet".to_string(), 1),
            ("zeta".to_string(), 1),
        ],
    );
}

#[test]
fn groups_are_kept_under_the_hash_handed_in() {
    let mut state = relay(2);
    assert_eq!(
        state.record_under_hash("chainX", 1, &who(1), "h1".to_string(), note("chainX", "a")),
        Ok(Attestation::Pending(1)),
    );
    assert_eq!(
        state.record_under_hash("chainX", 1, &who(2), "h2".to_string(), note("chainX", "b")),
        Ok(Attestation::Pending(1)),
    );
    assert_eq!(
        state.record_under_hash("chainX", 1, &who(2), "h2".to_string(), note("chainX", "b")),
        Err(Error::DuplicateAttestation),
    );
    let pending = state.get_pending_message();
    assert_eq!(pending.len(), 1);
    assert_eq!(pending[0].1.len(), 2);
    assert_eq!(pending[0].1[0].0, "h1");
    assert_eq!(pending[0].1[1].0, "h2");
    assert_eq!(pending[0].1[0].1.count(), 1);
    assert_eq!(pending[0].1[1].1.count(), 1);

    assert_eq!(
        state.record_under_hash("chainX", 1, &who(1), "h2".to_string(), note("chainX", "b")),
        Ok(Attestation::Promoted),
    );
    assert!(state.get_pending_message().is_empty());
    let executable = state.get_executable_message();
    assert_eq!(executable.len(), 1);
    assert_eq!(executable[0].1.content.data, "b");
}
