use candouble::can::CANMessage;
use candouble::predicate::Predicate;
use candouble::response::{Behavior, GenerateError, ResponseTemplate};
use candouble::stub::Stub;
use std::time::{Duration, Instant};

fn template(id: &str, data: &[&str], behaviors: Option<Vec<Behavior>>) -> ResponseTemplate {
    ResponseTemplate::new(id.to_string(), data.iter().map(|s| s.to_string()).collect(), behaviors)
}

fn ids(stub: &mut Stub) -> Vec<u64> {
    let reply = stub.generate_responses(&CANMessage::new()).unwrap();
    reply.messages.iter().map(|m| m.id).collect()
}

#[test]
fn cycles_through_multiple_responses() {
    let mut stub = Stub::new(
        vec![],
        vec![template("0x01", &["0x17"], None), template("0x02", &["0x17"], None)],
    );

    let response1 = stub.generate_responses(&CANMessage::new()).unwrap().messages[0];
    assert_eq!(0x01, response1.id);
    let response2 = stub.generate_responses(&CANMessage::new()).unwrap().messages[0];
    assert_eq!(0x02, response2.id);
    let response3 = stub.generate_responses(&CANMessage::new()).unwrap().messages[0];
    assert_eq!(0x01, response3.id);
}

#[test]
fn wait_behavior_waits_before_responding() {
    let mut stub = Stub::new(
        vec![],
        vec![template("0x01", &["0x17"], Some(vec![Behavior::Wait(50)]))],
    );

    let start = Instant::now();
    let reply = stub.generate_responses(&CANMessage::new()).unwrap();
    for ms in reply.waits.iter() {
        let until = Instant::now() + Duration::from_millis(*ms);
        while Instant::now() < until {
            std::hint::spin_loop();
        }
    }
    let end = Instant::now();
    assert!(end.duration_since(start).subsec_millis() >= 50);
    assert_eq!(vec![50], reply.waits);
    assert_eq!(1, reply.messages.len());
}

#[test]
fn repeat_behavior_repeats_a_message() {
    let mut stub = Stub::new(
        vec![],
        vec![
            template("0x01", &["0x17"], Some(vec![Behavior::Repeat(2)])),
            template("0x02", &["0x17"], None),
        ],
    );

    let response1 = stub.generate_responses(&CANMessage::new()).unwrap().messages[0];
    assert_eq!(0x01, response1.id);
    let response2 = stub.generate_responses(&CANMessage::new()).unwrap().messages[0];
    assert_eq!(0x01, response2.id);
    let response3 = stub.generate_responses(&CANMessage::new()).unwrap().messages[0];
    assert_eq!(0x02, response3.id);
    let response4 = stub.generate_responses(&CANMessage::new()).unwrap().messages[0];
    assert_eq!(0x01, response4.id);
}

#[test]
fn drop_behavior_drops_a_message() {
    let mut stub = Stub::new(
        vec![],
        vec![
            template("0x01", &[], Some(vec![Behavior::Drop(true)])),
            template("0x02", &[], None),
        ],
    );

    let responses = stub.generate_responses(&CANMessage::new()).unwrap().messages;
    assert_eq!(0, responses.len());
    let response2 = stub.generate_responses(&CANMessage::new()).unwrap().messages[0];
    assert_eq!(0x02, response2.id);
}

#[test]
fn concat_behavior_concatenates_messages() {
    let mut stub = Stub::new(
        vec![],
        vec![
            template("0x01", &[], Some(vec![Behavior::Concat(true)])),
            template("0x02", &[], Some(vec![Behavior::Concat(true)])),
            template("0x03", &[], None),
            template("0x04", &[], None),
        ],
    );

    let responses = stub.generate_responses(&CANMessage::new()).unwrap().messages;
    assert_eq!(3, responses.len());
    assert_eq!(0x01, responses[0].id);
    assert_eq!(0x02, responses[1].id);
    assert_eq!(0x03, responses[2].id);
    let responses = stub.generate_responses(&CANMessage::new()).unwrap().messages;
    assert_eq!(1, responses.len());
    assert_eq!(0x04, responses[0].id);
}

#[test]
fn repeat_and_concat_behaviors_can_be_combined() {
    let mut stub = Stub::new(
        vec![],
        vec![
            template("0x01", &[], Some(vec![Behavior::Concat(true), Behavior::Repeat(2)])),
            template("0x02", &[], None),
            template("0x03", &[], None),
        ],
    );

    let responses1 = stub.generate_responses(&CANMessage::new()).unwrap().messages;
    assert_eq!(2, responses1.len());
    let responses2 = stub.generate_responses(&CANMessage::new()).unwrap().messages;
    assert_eq!(2, responses2.len());
    let responses3 = stub.generate_responses(&CANMessage::new()).unwrap().messages;
    assert_eq!(1, responses3.len());
}

#[test]
fn repeat_and_concat_replay_the_whole_group() {
    let mut stub = Stub::new(
        vec![],
        vec![
            template("0x01", &[], Some(vec![Behavior::Concat(true), Behavior::Repeat(2)])),
            template("0x02", &[], None),
            template("0x03", &[], None),
        ],
    );
    assert_eq!(vec![1, 2], ids(&mut stub));
    assert_eq!(vec![1, 2], ids(&mut stub));
    assert_eq!(vec![3], ids(&mut stub));
    assert_eq!(vec![1, 2], ids(&mut stub));
    assert_eq!(vec![1, 2], ids(&mut stub));
    assert_eq!(vec![3], ids(&mut stub));
}

#[test]
fn it_stubs_it_stub_matches_when_all_predicates_are_true() {
    let stub = Stub::new(
        vec![
            Predicate::Equals { id: "0x0101".to_string() },
            Predicate::Message { id: "*".to_string(), data: vec!["0xCA".to_string(), "*".to_string()] },
        ],
        vec![template("0x0102", &["0x01"], None)],
    );
    let message = CANMessage::with_content(0x0101, 0, &[0xCA, 0xFE]);
    assert_eq!(true, stub.matches_message(&message));
}

#[test]
fn it_stub_matches_when_at_least_one_predicate_is_false() {
    let stub = Stub::new(
        vec![
            Predicate::Equals { id: "0x0101".to_string() },
            Predicate::Message { id: "*".to_string(), data: vec!["0xCA".to_string(), "*".to_string()] },
        ],
        vec![template("0x0102", &["0x01"], None)],
    );
    let message = CANMessage::with_content(0x0102, 0, &[0xCA, 0xFE]);
    assert_eq!(false, stub.matches_message(&message));
}

#[test]
fn stub_without_predicates_matches_every_message() {
    let stub = Stub::new(vec![], vec![]);
    assert_eq!(true, stub.matches_message(&CANMessage::new()));
    assert_eq!(true, stub.matches_message(&CANMessage::with_content(u64::MAX, 255, &[1, 2, 3])));
}

#[test]
fn stub_with_single_plain_template_always_answers_alike() {
    let mut stub = Stub::new(vec![], vec![template("0x21", &["1", "2"], None)]);
    let expected = CANMessage::with_content(0x21, 0, &[1, 2]);
    for _ in 0..5 {
        let reply = stub.generate_responses(&CANMessage::new()).unwrap();
        assert_eq!(vec![expected], reply.messages);
        assert_eq!(Vec::<u64>::new(), reply.waits);
    }
}

#[test]
fn stub_without_responses_cannot_answer() {
    let mut stub = Stub::new(vec![], vec![]);
    assert_eq!(Err(GenerateError::NoResponses), stub.generate_responses(&CANMessage::new()).map(|r| r.messages));
}

#[test]
fn malformed_template_fails_when_it_is_reached_and_leaves_the_stub_alone() {
    let mut stub = Stub::new(
        vec![],
        vec![template("0x01", &[], None), template("oops", &[], None)],
    );
    assert_eq!(vec![1], ids(&mut stub));
    for _ in 0..3 {
        let outcome = stub.generate_responses(&CANMessage::new()).map(|r| r.messages);
        assert_eq!(Err(GenerateError::BadNumber), outcome);
    }
}

#[test]
fn failure_inside_a_group_leaves_the_cursor_where_it_was() {
    let mut stub = Stub::new(
        vec![],
        vec![
            template("0x01", &[], None),
            template("0x02", &[], Some(vec![Behavior::Concat(true)])),
            template("1", &["1", "2", "3", "4", "5", "6", "7", "8", "9"], None),
        ],
    );
    assert_eq!(vec![1], ids(&mut stub));
    let outcome = stub.generate_responses(&CANMessage::new()).map(|r| r.messages);
    assert_eq!(Err(GenerateError::TooMuchData), outcome);
    let again = stub.generate_responses(&CANMessage::new()).map(|r| r.messages);
    assert_eq!(Err(GenerateError::TooMuchData), again);
}

#[test]
fn repeat_of_zero_is_refused_while_nothing_is_owed() {
    let mut stub = Stub::new(vec![], vec![template("1", &[], Some(vec![Behavior::Repeat(0)]))]);
    let outcome = stub.generate_responses(&CANMessage::new()).map(|r| r.messages);
    assert_eq!(Err(GenerateError::ZeroRepeat), outcome);
}

#[test]
fn repeat_of_zero_counts_down_while_repetitions_are_owed() {
    let mut stub = Stub::new(
        vec![],
        vec![
            template("1", &[], Some(vec![Behavior::Repeat(3), Behavior::Repeat(0)])),
            template("2", &[], None),
        ],
    );
    assert_eq!(vec![1], ids(&mut stub));
    let outcome = stub.generate_responses(&CANMessage::new()).map(|r| r.messages);
    assert_eq!(Err(GenerateError::ZeroRepeat), outcome);
}

#[test]
fn endless_concatenation_is_refused() {
    let mut one = Stub::new(vec![], vec![template("1", &[], Some(vec![Behavior::Concat(true)]))]);
    assert_eq!(Err(GenerateError::Endless), one.generate_responses(&CANMessage::new()).map(|r| r.messages));
    let mut two = Stub::new(
        vec![],
        vec![
            template("1", &[], Some(vec![Behavior::Concat(true)])),
            template("2", &[], Some(vec![Behavior::Concat(false), Behavior::Concat(true)])),
        ],
    );
    assert_eq!(Err(GenerateError::Endless), two.generate_responses(&CANMessage::new()).map(|r| r.messages));
}

#[test]
fn concatenation_may_wrap_round_the_end_of_the_list() {
    let mut stub = Stub::new(
        vec![],
        vec![
            template("1", &[], None),
            template("2", &[], Some(vec![Behavior::Concat(true)])),
        ],
    );
    assert_eq!(vec![1], ids(&mut stub));
    assert_eq!(vec![2, 1], ids(&mut stub));
    assert_eq!(vec![2, 1], ids(&mut stub));
}

#[test]
fn last_concat_of_a_template_decides() {
    let mut stub = Stub::new(
        vec![],
        vec![
            template("1", &[], Some(vec![Behavior::Concat(true), Behavior::Concat(false)])),
            template("2", &[], None),
        ],
    );
    assert_eq!(vec![1], ids(&mut stub));
    assert_eq!(vec![2], ids(&mut stub));
}

#[test]
fn drop_false_keeps_the_message() {
    let mut stub = Stub::new(vec![], vec![template("1", &[], Some(vec![Behavior::Drop(false)]))]);
    assert_eq!(vec![1], ids(&mut stub));
}

#[test]
fn dropped_message_still_moves_the_cursor_within_a_group() {
    let mut stub = Stub::new(
        vec![],
        vec![
            template("1", &[], Some(vec![Behavior::Drop(true), Behavior::Concat(true)])),
            template("2", &[], None),
            template("3", &[], None),
        ],
    );
    assert_eq!(vec![2], ids(&mut stub));
    assert_eq!(vec![3], ids(&mut stub));
    assert_eq!(vec![2], ids(&mut stub));
}

#[test]
fn drop_withholds_only_its_own_message() {
    let mut stub = Stub::new(
        vec![],
        vec![
            template("1", &[], Some(vec![Behavior::Concat(true)])),
            template("2", &[], Some(vec![Behavior::Drop(true), Behavior::Drop(true), Behavior::Drop(false)])),
        ],
    );
    assert_eq!(vec![1], ids(&mut stub));
}

#[test]
fn waits_are_collected_in_order_across_a_group() {
    let mut stub = Stub::new(
        vec![],
        vec![
            template("1", &[], Some(vec![Behavior::Wait(5), Behavior::Concat(true), Behavior::Wait(7)])),
            template("2", &[], Some(vec![Behavior::Wait(0), Behavior::Drop(true)])),
        ],
    );
    let reply = stub.generate_responses(&CANMessage::new()).unwrap();
    assert_eq!(vec![5, 7, 0], reply.waits);
    assert_eq!(1, reply.messages.len());
    assert_eq!(1, reply.messages[0].id);
}

#[test]
fn repeat_of_one_does_not_repeat() {
    let mut stub = Stub::new(
        vec![],
        vec![template("1", &[], Some(vec![Behavior::Repeat(1)])), template("2", &[], None)],
    );
    assert_eq!(vec![1], ids(&mut stub));
    assert_eq!(vec![2], ids(&mut stub));
    assert_eq!(vec![1], ids(&mut stub));
}

#[test]
fn repeat_of_three_yields_three_in_a_row() {
    let mut stub = Stub::new(
        vec![],
        vec![template("1", &[], Some(vec![Behavior::Repeat(3)])), template("2", &[], None)],
    );
    assert_eq!(vec![1], ids(&mut stub));
    assert_eq!(vec![1], ids(&mut stub));
    assert_eq!(vec![1], ids(&mut stub));
    assert_eq!(vec![2], ids(&mut stub));
    assert_eq!(vec![1], ids(&mut stub));
}

#[test]
fn stub_clone_carries_the_cursor() {
    let mut stub = Stub::new(
        vec![],
        vec![template("1", &[], None), template("2", &[], None), template("3", &[], None)],
    );
    assert_eq!(vec![1], ids(&mut stub));
    let mut copy = stub.clone();
    assert_eq!(vec![2], ids(&mut copy));
    assert_eq!(vec![3], ids(&mut copy));
    assert_eq!(vec![2], ids(&mut stub));
}
