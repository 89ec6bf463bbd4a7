use risk::auth::{
    captcha_passes, is_suspended, login_player_name, merge_user, needs_verified_email,
    player_name, token_expiry, AuthProvider, Discord, DiscordUserInfo, LoginAs, MergeCase, Reddit,
    COOKIE_DURATION,
};
use risk::error::Error;

#[test]
fn platforms_and_names() {
    let d = Discord { foreign_id: String::from("123"), foreign_name: Some(String::from("bob#1")) };
    assert_eq!(d.platform(), "discord");
    assert_eq!(d.foreign_id(), "123");
    assert_eq!(d.foreign_name(), Some(String::from("bob#1")));
    let r = Reddit { foreign_id: String::from("t2_x"), foreign_name: None };
    assert_eq!(r.platform(), "reddit");
    assert_eq!(r.foreign_id(), "t2_x");
    assert_eq!(r.foreign_name(), None);
    let l = LoginAs { foreign_id: String::from("9"), foreign_name: String::from("carol") };
    assert_eq!(l.platform(), "loginas");
    assert_eq!(l.foreign_id(), "9");
    assert_eq!(l.foreign_name(), Some(String::from("carol")));
}

#[test]
fn discord_full_name() {
    let info = DiscordUserInfo {
        id: String::from("1"),
        username: String::from("bob"),
        discriminator: String::from("1234"),
    };
    assert_eq!(info.name(), "bob#1234");
}

#[test]
fn new_player_names() {
    assert_eq!(player_name("reddit", Some(String::from("bob")), String::from("x1")), "reddit_bob");
    assert_eq!(player_name("reddit", None, String::from("x1")), "reddit_x1");
    let l = LoginAs { foreign_id: String::from("9"), foreign_name: String::from("carol") };
    assert_eq!(login_player_name(&l), "loginas_carol");
}

#[test]
fn new_player_without_a_name_gets_random_letters() {
    let d = Discord { foreign_id: String::from("123"), foreign_name: None };
    let n = login_player_name(&d);
    assert!(n.starts_with("discord_"));
    let tail = &n["discord_".len()..];
    assert_eq!(tail.chars().count(), 7);
    assert!(tail.chars().all(|c| c.is_ascii_alphanumeric()));
}

#[test]
fn session_expiry() {
    assert_eq!(COOKIE_DURATION, 30 * 24 * 60 * 60);
    assert_eq!(token_expiry(1_000, COOKIE_DURATION as usize), 2_593_000);
}

#[test]
fn login_checks() {
    assert!(!needs_verified_email(Some(true), 0));
    assert!(needs_verified_email(Some(false), 0));
    assert!(needs_verified_email(None, 0));
    assert!(!needs_verified_email(None, 1));
    assert!(is_suspended(Some(true)));
    assert!(!is_suspended(Some(false)));
    assert!(!is_suspended(None));
}

#[test]
fn captcha_answers() {
    let expected = String::from("abc12");
    assert!(captcha_passes(1_000, 1_000, &expected, &String::from("abc12")));
    assert!(!captcha_passes(1_000, 1_000, &expected, &String::from("abc13")));
    assert!(captcha_passes(1_599, 1_000, &expected, &String::from("abc12")));
    assert!(!captcha_passes(1_600, 1_000, &expected, &String::from("abc12")));
}

#[test]
fn merge_cases() {
    assert_eq!(merge_user(&vec![], &vec![], None), Ok(MergeCase::NoMoves));
    assert_eq!(merge_user(&vec![3], &vec![], None), Ok(MergeCase::OneSided));
    assert_eq!(merge_user(&vec![], &vec![4], None), Ok(MergeCase::OneSided));
    assert_eq!(merge_user(&vec![1, 2], &vec![3, 4], None), Ok(MergeCase::Disjoint));
    assert_eq!(merge_user(&vec![1, 2], &vec![2, 5], None), Err(Error::Unauthorized {}));
    assert_eq!(merge_user(&vec![1, 2], &vec![2, 5], Some(7)), Ok(MergeCase::Overlapping));
}

#[test]
fn merge_case_does_not_depend_on_direction() {
    let pairs: Vec<(Vec<i32>, Vec<i32>)> = vec![
        (vec![], vec![]),
        (vec![1], vec![]),
        (vec![1, 2], vec![3]),
        (vec![1, 2], vec![2]),
    ];
    for (a, b) in pairs {
        assert_eq!(merge_user(&a, &b, Some(1)), merge_user(&b, &a, Some(1)));
    }
}
