use risk::api::{
    clamp_event_count, contains_pattern, event_offset, events_window, heat_turn, is_valid_char,
    leaderboard_turn, nonempty_or, player_batch, poll_response_outcome, search_limit,
    search_pattern, single_match, split_list, team_filter, team_status_code, territories_turn, PlayerIdString,
    DEFAULT_EVENT_COUNT, MAX_EVENT_COUNT,
};
use risk::error::Error;
use risk::team::Latest;

const UUID_TEXT: &str = "550e8400-e29b-41d4-a716-446655440000";
const UUID_VALUE: u128 = 0x550e8400_e29b_41d4_a716_446655440000;

fn is_uuid(id: &PlayerIdString, v: u128) -> bool {
    matches!(id, PlayerIdString::Uuid(u) if *u == v)
}

fn is_name(id: &PlayerIdString, n: &str) -> bool {
    matches!(id, PlayerIdString::Name(s) if s == n)
}

#[test]
fn player_id_from_text() {
    assert!(is_uuid(&PlayerIdString::from(String::from(UUID_TEXT)), UUID_VALUE));
    assert!(is_name(&PlayerIdString::from(String::from("alice")), "alice"));
}

#[test]
fn player_id_from_param() {
    assert!(is_name(&PlayerIdString::from_param("bob_the-2nd").unwrap(), "bob_the-2nd"));
    assert!(is_uuid(&PlayerIdString::from_param(UUID_TEXT).unwrap(), UUID_VALUE));
    assert_eq!(PlayerIdString::from_param("").unwrap_err(), "");
    assert_eq!(PlayerIdString::from_param("bad name").unwrap_err(), "bad name");
    assert_eq!(PlayerIdString::from_param("semi;colon").unwrap_err(), "semi;colon");
    let long = "a".repeat(37);
    assert_eq!(PlayerIdString::from_param(&long).unwrap_err(), long);
    assert!(PlayerIdString::from_param(&"a".repeat(36)).is_ok());
}

#[test]
fn valid_identifier_characters() {
    assert!(is_valid_char('a'));
    assert!(is_valid_char('Z'));
    assert!(is_valid_char('7'));
    assert!(is_valid_char('_'));
    assert!(is_valid_char('-'));
    assert!(is_valid_char('é'));
    assert!(!is_valid_char(' '));
    assert!(!is_valid_char('!'));
    assert!(!is_valid_char('/'));
}

#[test]
fn split_list_keeps_empty_pieces() {
    assert_eq!(split_list("a,b,,c"), vec!["a", "b", "", "c"]);
    assert_eq!(split_list(""), vec![""]);
    assert_eq!(split_list("solo"), vec!["solo"]);
    assert_eq!(split_list(","), vec!["", ""]);
}

#[test]
fn split_then_join_gives_the_list_back() {
    for s in ["a,b,,c", "", ",", "x", "one,two"] {
        let pieces = split_list(s);
        assert!(pieces.iter().all(|p| !p.contains(',')));
        assert_eq!(pieces.join(","), s);
    }
}

#[test]
fn player_batch_names_each_piece() {
    let batch = player_batch(&format!("alice,{},bob", UUID_TEXT));
    assert_eq!(batch.len(), 3);
    assert!(is_name(&batch[0], "alice"));
    assert!(is_uuid(&batch[1], UUID_VALUE));
    assert!(is_name(&batch[2], "bob"));
}

#[test]
fn events_window_defaults_and_caps() {
    assert_eq!(events_window(None, None, false, false), Ok((DEFAULT_EVENT_COUNT, 0)));
    assert_eq!(events_window(Some(500), Some(2), true, false), Ok((MAX_EVENT_COUNT, 2)));
    assert_eq!(events_window(Some(30), None, false, true), Ok((30, 0)));
}

#[test]
fn events_window_refusals() {
    assert_eq!(events_window(Some(0), None, false, false), Err(Error::BadRequest {}));
    assert_eq!(events_window(Some(-5), None, false, false), Err(Error::BadRequest {}));
    assert_eq!(events_window(None, Some(-1), false, false), Err(Error::BadRequest {}));
    assert_eq!(events_window(None, None, true, true), Err(Error::BadRequest {}));
}

#[test]
fn paging_helpers() {
    assert_eq!(event_offset(250, 2), 500);
    assert_eq!(event_offset(100, 0), 0);
    assert_eq!(clamp_event_count(Some(150)), Some(100));
    assert_eq!(clamp_event_count(Some(5)), Some(5));
    assert_eq!(clamp_event_count(None), None);
    assert_eq!(search_limit(None), 10);
    assert_eq!(search_limit(Some(20)), 20);
    assert_eq!(search_limit(Some(50)), 50);
    assert_eq!(search_limit(Some(51)), 10);
}

#[test]
fn search_patterns() {
    assert_eq!(search_pattern(String::from("ab")), "ab%");
    assert_eq!(contains_pattern("ab"), "%ab%");
}

#[test]
fn turn_defaults() {
    let now = Latest { season: 2, day: 10, id: 77 };
    assert_eq!(leaderboard_turn(Some(1), Some(3), now), (1, 3));
    assert_eq!(leaderboard_turn(None, Some(3), now), (2, 9));
    assert_eq!(leaderboard_turn(None, None, now), (2, 9));
    assert_eq!(heat_turn(Some(1), None, now), (1, 9));
    assert_eq!(heat_turn(None, Some(4), now), (2, 4));
    assert_eq!(territories_turn(None, None, now), (2, 10));
    assert_eq!(territories_turn(Some(1), Some(1), now), (1, 1));
}

#[test]
fn team_filter_decodes() {
    assert_eq!(team_filter(None), Ok(None));
    assert_eq!(team_filter(Some(String::from("Texas%20A%26M"))), Ok(Some(String::from("Texas A&M"))));
    assert_eq!(team_filter(Some(String::from("Rice"))), Ok(Some(String::from("Rice"))));
    assert_eq!(team_filter(Some(String::from("%FF"))), Err(Error::FromUtf8Error {}));
}

#[test]
fn nonempty_lists() {
    assert_eq!(nonempty_or(vec![1, 2], Error::NotFound {}), Ok(vec![1, 2]));
    assert_eq!(nonempty_or(Vec::<i32>::new(), Error::NotFound {}), Err(Error::NotFound {}));
}

#[test]
fn small_answers() {
    assert_eq!(team_status_code(true), 0);
    assert_eq!(team_status_code(false), -1);
    assert_eq!(poll_response_outcome(1), Ok(true));
    assert_eq!(poll_response_outcome(0), Err(Error::InternalServerError {}));
    assert_eq!(poll_response_outcome(2), Err(Error::InternalServerError {}));
}

#[test]
fn single_matches() {
    assert_eq!(single_match(vec![7]), Some(7));
    assert_eq!(single_match(Vec::<i32>::new()), None);
    assert_eq!(single_match(vec![1, 2]), None);
}
