use risk::arith::div_toward_zero;
use risk::cases::{case_insert_allowed, CaseType};
use risk::error::{Error, MapRre};
use risk::player::{Rating, Stat};
use risk::ratings::Stats;
use risk::sys::{robots, EitherPorS, Httperror, Log, Playername, RateLimitGuard, SysInfo, SysSettings, user_agent_or_unknown};
use risk::team::{Team, TeamWithColors};

#[test]
fn error_statuses() {
    assert_eq!(Error::Unauthorized {}.status_code(), 401);
    assert_eq!(Error::NotFound {}.status_code(), 404);
    assert_eq!(Error::BadRequest {}.status_code(), 400);
    assert_eq!(Error::InternalServerError {}.status_code(), 500);
    assert_eq!(Error::FromUtf8Error {}.status_code(), 400);
    assert_eq!(Error::Teapot.status_code(), 418);
    assert_eq!(Error::Diesel {}.status_code(), 500);
    assert_eq!(Error::Reqwest {}.status_code(), 500);
    assert_eq!(Error::SerdeJson {}.status_code(), 500);
    assert_eq!(Error::Yeet {}.status_code(), 500);
}

#[test]
fn error_shortcuts() {
    assert_eq!(Error::unauthorized::<i32>(), Err(Error::Unauthorized {}));
    assert_eq!(Error::not_found::<i32>(), Err(Error::NotFound {}));
    assert_eq!(Ok::<i32, Error>(4).map_rre(), Ok(4));
    assert_eq!(Err::<i32, Error>(Error::BadRequest {}).map_rre(), Err(Error::BadRequest {}));
}

#[test]
fn case_limits() {
    assert!(case_insert_allowed(false, 0, CaseType::AccountDelete));
    assert!(!case_insert_allowed(false, 1, CaseType::AccountDelete));
    assert!(case_insert_allowed(true, 100, CaseType::AccountDelete));
    assert!(case_insert_allowed(false, 19, CaseType::AccountReport));
    assert!(!case_insert_allowed(false, 20, CaseType::AccountReport));
    assert!(case_insert_allowed(false, 4, CaseType::Other));
    assert!(!case_insert_allowed(false, 5, CaseType::Other));
}

#[test]
fn truncating_division() {
    assert_eq!(div_toward_zero(7, 2), 3);
    assert_eq!(div_toward_zero(-7, 2), -3);
    assert_eq!(div_toward_zero(7, -2), -3);
    assert_eq!(div_toward_zero(-8, -2), 4);
}

#[test]
fn player_rating_is_one_star() {
    let r = Rating::from(Stat { turns: 500, game_turns: 40, mvps: 30, streak: 30 });
    assert_eq!(r, Rating { overall: 1, turns: 1, game_turns: 1, mvps: 1, streak: 1 });
}

#[test]
fn stats_from_counts() {
    let s = Stats::from_counts(Some(4), None, Some(2), None);
    assert_eq!((s.totalTurns, s.gameTurns, s.mvps, s.streak), (4, 0, 2, 0));
}

#[test]
fn robots_txt() {
    assert_eq!(robots(), "User-agent: *\n    Disallow:\n    Disallow: /auth/");
}

#[test]
fn default_settings() {
    let s = SysSettings::default();
    assert_eq!(s.name, "AggieRisk Local");
    assert_eq!(s.base_url, "http://localhost:8000");
    assert_eq!(s.cookie_key.len(), 24);
    assert!(s.cookie_key.chars().all(|c| c.is_ascii_alphanumeric()));
    let info = SysInfo::with_version(String::from("v1.2"));
    assert_eq!(info.version, "v1.2");
    assert_eq!(info.settings.cookie_key.len(), 24);
    assert!(info.settings.cookie_key.chars().all(|c| c.is_ascii_alphanumeric()));
    assert!(info.reddit);
    assert!(!info.discord && !info.groupme && !info.image && !info.captcha);
}

#[test]
fn player_names_length() {
    assert!(!Playername::valid("abcd"));
    assert!(Playername::valid("abcde"));
    assert!(Playername::valid(&"x".repeat(63)));
    assert!(!Playername::valid(&"x".repeat(64)));
}

#[test]
fn small_bodies() {
    assert_eq!(RateLimitGuard::per_second(), 10);
    assert_eq!(Httperror::new(404).status, 404);
    match EitherPorS::unauthenticated() {
        EitherPorS::StatusWrapper(w) => {
            assert_eq!(w.code, 4000);
            assert_eq!(w.message, "Unauthenticated");
        }
        EitherPorS::String(_) => panic!("expected a status"),
    }
    let l = Log::begin(String::from("/api/me"), String::from("a=1"));
    assert_eq!((l.route.as_str(), l.query.as_str(), l.payload.as_str()), ("/api/me", "a=1", ""));
    assert_eq!(user_agent_or_unknown(None), "unknown");
    assert_eq!(user_agent_or_unknown(Some(String::from("curl"))), "curl");
}

#[test]
fn team_colors() {
    let d = TeamWithColors::default();
    assert!(d.name.is_none());
    assert_eq!((d.colors.primary.as_str(), d.colors.secondary.as_str()), ("#000", "#000"));
    let t = TeamWithColors::from_team(Team {
        name: Some(String::from("Rice")),
        color_1: Some(String::from("#00205B")),
        color_2: None,
    });
    assert_eq!(t.name.as_deref(), Some("Rice"));
    assert_eq!((t.colors.primary.as_str(), t.colors.secondary.as_str()), ("#00205B", "#000"));
}

#[test]
fn fewer_open_cases_never_block() {
    for t in [CaseType::AccountReport, CaseType::Other, CaseType::AccountMerge] {
        for n in 0..30usize {
            if case_insert_allowed(false, n, t) {
                for m in 0..=n {
                    assert!(case_insert_allowed(false, m, t));
                }
            }
        }
    }
}
