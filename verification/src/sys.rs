//! What the API reports about itself, and the small response bodies it sends.
use vstd::prelude::*;
use vstd::string::*;
use crate::rng::{ascii_alphanumeric, random_alphanumeric};

verus! {

/// The configuration of the backend.
#[derive(Debug)]
pub struct SysInfo {
    pub version: String,
    pub discord: bool,
    pub reddit: bool,
    pub groupme: bool,
    pub image: bool,
    pub captcha: bool,
    pub settings: SysSettings,
}

/// The site settings of the backend.
#[derive(Debug)]
pub struct SysSettings {
    pub name: String,
    pub base_url: String,
    pub cookie_key: String,
}

impl Default for SysSettings {
    /// The settings of a local instance, with a random 24-character cookie key.
    fn default() -> (r: SysSettings)
        ensures
            r.name@ == "AggieRisk Local"@,
            r.base_url@ == "http://localhost:8000"@,
            r.cookie_key@.len() == 24,
            forall|i: int| 0 <= i < r.cookie_key@.len() ==> ascii_alphanumeric(#[trigger] r.cookie_key@[i]),
    {
        SysSettings {
            name: String::from_str("AggieRisk Local"),
            base_url: String::from_str("http://localhost:8000"),
            cookie_key: random_alphanumeric(24),
        }
    }
}

impl SysInfo {
    /// The default configuration for a backend of version `version`: Reddit
    /// login on, everything else off, default settings.
    pub fn with_version(version: String) -> (r: SysInfo)
        ensures
            r.version@ == version@,
            r.reddit,
            !r.discord && !r.groupme && !r.image && !r.captcha,
            r.settings.name@ == "AggieRisk Local"@,
            r.settings.base_url@ == "http://localhost:8000"@,
            r.settings.cookie_key@.len() == 24,
            forall|i: int| 0 <= i < r.settings.cookie_key@.len() ==> ascii_alphanumeric(#[trigger] r.settings.cookie_key@[i]),
    {
        SysInfo {
            version,
            discord: false,
            reddit: true,
            groupme: false,
            image: false,
            captcha: false,
            settings: SysSettings::default(),
        }
    }
}

/// The configuration of a game server as its status page reports it.
#[derive(Debug)]
pub struct ServerSysInfo {
    pub name: String,
    pub base_url: String,
    pub version: String,
    pub discord: bool,
    pub reddit: bool,
    pub groupme: bool,
}

/// Settings of the application front end.
#[derive(Debug)]
pub struct AppSettings {
    /// Time string for the next roll
    pub rolltime: String,
    /// Map URL
    pub map: String,
    /// ViewBox for the map
    pub viewbox: String,
    /// Website title
    pub webtitle: String,
}

/// Information about the configuration of the backend.
#[derive(Debug)]
pub struct SystemInformation {
    /// The version of the backend at compile time
    pub version: String,
    /// Whether login by Discord is enabled
    pub discord: bool,
    /// Whether login by Reddit is enabled
    pub reddit: bool,
    /// Whether login by GroupMe is enabled
    pub groupme: bool,
    /// Whether chaos is enabled
    pub chaos: bool,
    /// Whether images for sharing are created at roll time
    pub image: bool,
    /// Whether likely alts must enter a captcha
    pub captcha: bool,
}

/// The body of an error page.
#[derive(Clone, Copy, Debug, PartialEq, Eq, Structural)]
pub struct Httperror {
    pub status: i32,
}

impl Httperror {
    /// The body for an HTTP status.
    pub fn new(status: i32) -> (r: Httperror)
        ensures
            r.status == status,
    {
        Httperror { status }
    }
}

/// A status code with a message.
#[derive(Debug)]
pub struct StatusWrapper {
    pub code: i32,
    pub message: String,
}

/// A response body: a status, or a string.
#[derive(Debug)]
pub enum EitherPorS {
    StatusWrapper(StatusWrapper),
    String(String),
}

impl EitherPorS {
    /// The answer to a request that needs a logged-in player: status 4000,
    /// "Unauthenticated".
    pub fn unauthenticated() -> (r: EitherPorS)
        ensures
            r matches EitherPorS::StatusWrapper(w) && w.code == 4000 && w.message@ == "Unauthenticated"@,
    {
        EitherPorS::StatusWrapper(StatusWrapper { code: 4000, message: String::from_str("Unauthenticated") })
    }
}

/// A new player name submitted in a form.
#[derive(Debug)]
pub struct Playername {
    pub username: String,
}

impl Playername {
    /// Whether `username` is acceptable: 5 to 63 bytes long.
    pub fn valid(username: &str) -> (r: bool)
        ensures
            r == (5 <= username.len() < 64),
    {
        let n = username.len();
        5 <= n && n < 64
    }
}

/// The rate limit of the API.
#[derive(Clone, Copy, Debug)]
pub struct RateLimitGuard;

impl RateLimitGuard {
    /// Requests per second that one client may make.
    pub fn per_second() -> (r: u32)
        ensures
            r == 10,
    {
        10
    }
}

/// The robots.txt of the site: everything may be crawled but `/auth/`.
pub fn robots() -> (r: String)
    ensures
        r@ == "User-agent: *\n    Disallow:\n    Disallow: /auth/"@,
{
    String::from_str("User-agent: *\n    Disallow:\n    Disallow: /auth/")
}

/// A request log entry.
#[derive(Debug)]
pub struct Log {
    pub route: String,
    pub query: String,
    pub payload: String,
}

impl Log {
    /// A log entry for route `r` with query `q` and an empty payload.
    pub fn begin(r: String, q: String) -> (l: Log)
        ensures
            l.route@ == r@,
            l.query@ == q@,
            l.payload@ == Seq::<char>::empty(),
    {
        Log { route: r, query: q, payload: String::new() }
    }
}

/// The user agent of a request, `unknown` when it sends none.
pub fn user_agent_or_unknown(ua: Option<String>) -> (r: String)
    ensures
        r@ == (match ua {
            Some(s) => s@,
            None => "unknown"@,
        }),
{
    match ua {
        Some(s) => s,
        None => String::from_str("unknown"),
    }
}

} // verus!
