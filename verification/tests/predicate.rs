use candouble::can::CANMessage;
use candouble::predicate::Predicate;

fn eq(id: &str) -> Predicate {
    Predicate::Equals { id: id.to_string() }
}

fn msg(id: &str, data: &[&str]) -> Predicate {
    Predicate::Message { id: id.to_string(), data: data.iter().map(|s| s.to_string()).collect() }
}

#[test]
fn pattern_matches_value_when_decimal_number_is_equal() {
    assert_eq!(true, Predicate::matches_value("256", 0x0100));
}

#[test]
fn pattern_does_not_match_value_when_decimal_number_is_not_equal() {
    assert_eq!(false, Predicate::matches_value("257", 0x0100));
}

#[test]
fn pattern_matches_value_when_hexadecimal_number_is_equal() {
    assert_eq!(true, Predicate::matches_value("0x0101", 0x0101));
}

#[test]
fn pattern_matches_value_when_pattern_is_asterisk() {
    assert_eq!(true, Predicate::matches_value("*", 0x0101));
}

#[test]
fn asterisk_matches_every_value() {
    for value in [0u64, 1, 0x7ff, u64::MAX] {
        assert_eq!(true, Predicate::matches_value("*", value));
    }
}

#[test]
fn malformed_pattern_never_matches() {
    for pattern in ["", "**", "* ", "0x", "abc", "0X10", "12z", "-1"] {
        for value in [0u64, 1, 16, 0x10, u64::MAX] {
            assert_eq!(false, Predicate::matches_value(pattern, value), "{}", pattern);
        }
    }
}

#[test]
fn pattern_matches_exactly_the_number_it_denotes() {
    assert_eq!(true, Predicate::matches_value("0x10", 16));
    assert_eq!(false, Predicate::matches_value("0x10", 10));
    assert_eq!(true, Predicate::matches_value("18446744073709551615", u64::MAX));
    assert_eq!(false, Predicate::matches_value("18446744073709551616", 0));
}

#[test]
fn matches_if_id_is_equal() {
    let p = eq("0x0101");
    let message = CANMessage::with_content(0x0101, 0, &[]);
    assert_eq!(true, p.eval(&message));
}

#[test]
fn does_not_match_if_id_is_not_equal() {
    let p = eq("0x0101");
    let message = CANMessage::with_content(0x0102, 0, &[]);
    assert_eq!(false, p.eval(&message));
}

#[test]
fn matches_when_id_and_literal_data_match() {
    let p = msg("0x0101", &["0x01"]);
    let message = CANMessage::with_content(0x0101, 0, &[0x01]);
    assert_eq!(true, p.eval(&message));
}

#[test]
fn matches_when_id_and_data_with_asterisk_match() {
    let p = msg("0x0101", &["*", "0x02"]);
    let message = CANMessage::with_content(0x0101, 0, &[0x01, 0x02]);
    assert_eq!(true, p.eval(&message));
}

#[test]
fn does_not_match_when_id_matches_but_data_does_not() {
    let p = msg("0x0101", &["0x02"]);
    let message = CANMessage::with_content(0x101, 0, &[0x01]);
    assert_eq!(false, p.eval(&message));
}

#[test]
fn does_not_match_when_data_matches_but_id_does_not() {
    let p = msg("0x0102", &["*"]);
    let message = CANMessage::with_content(0x0101, 0, &[0x01]);
    assert_eq!(false, p.eval(&message));
}

#[test]
fn equals_and_matches_template_agree_with_eval() {
    let message = CANMessage::with_content(0x0101, 0, &[0x01, 0x02]);
    assert_eq!(true, Predicate::equals(&message, &"257".to_string()));
    assert_eq!(false, Predicate::equals(&message, &"258".to_string()));
    let data = vec!["1".to_string(), "2".to_string()];
    assert_eq!(true, Predicate::matches_template(&message, &"*".to_string(), &data));
    assert_eq!(false, Predicate::matches_template(&message, &"0".to_string(), &data));
}

#[test]
fn template_without_data_patterns_checks_the_identifier_only() {
    let p = msg("0x0101", &[]);
    assert_eq!(true, p.eval(&CANMessage::with_content(0x0101, 0, &[9, 9, 9])));
    assert_eq!(false, p.eval(&CANMessage::with_content(0x0100, 0, &[9, 9, 9])));
}

#[test]
fn template_may_constrain_bytes_past_the_length_of_the_message() {
    let p = msg("*", &["0x01", "0", "0"]);
    assert_eq!(true, p.eval(&CANMessage::with_content(1, 0, &[0x01])));
    let q = msg("*", &["0x01", "0", "5"]);
    assert_eq!(false, q.eval(&CANMessage::with_content(1, 0, &[0x01])));
}

#[test]
fn template_with_eight_patterns_matches_and_with_nine_never_does() {
    let message = CANMessage::with_content(1, 0, &[1, 2, 3, 4, 5, 6, 7, 8]);
    let eight = msg("1", &["1", "2", "3", "4", "5", "6", "7", "8"]);
    assert_eq!(true, eight.eval(&message));
    let nine = msg("1", &["1", "2", "3", "4", "5", "6", "7", "8", "*"]);
    assert_eq!(false, nine.eval(&message));
    let stars = msg("*", &["*", "*", "*", "*", "*", "*", "*", "*", "*"]);
    assert_eq!(false, stars.eval(&message));
}

#[test]
fn data_pattern_above_a_byte_never_matches() {
    let p = msg("*", &["256"]);
    assert_eq!(false, p.eval(&CANMessage::with_content(1, 0, &[0])));
}

#[test]
fn malformed_predicate_does_not_match() {
    let message = CANMessage::with_content(0x0101, 0, &[0x01]);
    assert_eq!(false, eq("nonsense").eval(&message));
    assert_eq!(false, msg("0x0101", &["nonsense"]).eval(&message));
}

#[test]
fn predicate_clone_evaluates_alike() {
    let p = msg("0x0101", &["*", "0x02"]);
    let q = p.clone();
    let yes = CANMessage::with_content(0x0101, 0, &[0x01, 0x02]);
    let no = CANMessage::with_content(0x0101, 0, &[0x01, 0x03]);
    assert_eq!(p.eval(&yes), q.eval(&yes));
    assert_eq!(p.eval(&no), q.eval(&no));
    assert_eq!(true, q.eval(&yes));
    assert_eq!(false, q.eval(&no));
}
