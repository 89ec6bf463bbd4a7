//! Logging in: the identity that each login platform provides, the name of a
//! new player, the lifetime of a session token, and the checks at login.
use vstd::prelude::*;
use vstd::string::*;
use crate::error::Error;
use crate::rng::{ascii_alphanumeric, random_alphanumeric};

verus! {

/// A login platform's view of a player.
pub trait AuthProvider {
    /// The platform's name.
    spec fn spec_platform(&self) -> Seq<char>;
    /// The platform's name for the player.
    spec fn spec_foreign_name(&self) -> Option<Seq<char>>;

    fn platform(&self) -> (r: String)
        ensures
            r@ == self.spec_platform();

    fn foreign_id(&self) -> String;

    fn foreign_name(&self) -> (r: Option<String>)
        ensures
            option_view(r) == self.spec_foreign_name();
}

/// A player as Discord identifies them.
#[derive(Debug)]
pub struct Discord {
    pub foreign_id: String,
    pub foreign_name: Option<String>,
}

/// A player as Reddit identifies them.
#[derive(Debug)]
pub struct Reddit {
    pub foreign_id: String,
    pub foreign_name: Option<String>,
}

/// A player as a moderator logging in on their behalf names them.
#[derive(Debug)]
pub struct LoginAs {
    pub foreign_id: String,
    pub foreign_name: String,
}

pub open spec fn option_view(o: Option<String>) -> Option<Seq<char>> {
    match o {
        Some(s) => Some(s@),
        None => None,
    }
}

fn clone_option(o: &Option<String>) -> (r: Option<String>)
    ensures
        option_view(r) == option_view(*o),
{
    match o {
        Some(s) => Some(s.clone()),
        None => None,
    }
}

impl AuthProvider for Discord {
    open spec fn spec_platform(&self) -> Seq<char> {
        "discord"@
    }

    open spec fn spec_foreign_name(&self) -> Option<Seq<char>> {
        option_view(self.foreign_name)
    }

    fn platform(&self) -> (r: String)
    {
        String::from_str("discord")
    }

    fn foreign_id(&self) -> (r: String)
        ensures
            r@ == self.foreign_id@,
    {
        self.foreign_id.clone()
    }

    fn foreign_name(&self) -> (r: Option<String>)
    {
        clone_option(&self.foreign_name)
    }
}

impl AuthProvider for Reddit {
    open spec fn spec_platform(&self) -> Seq<char> {
        "reddit"@
    }

    open spec fn spec_foreign_name(&self) -> Option<Seq<char>> {
        option_view(self.foreign_name)
    }

    fn platform(&self) -> (r: String)
    {
        String::from_str("reddit")
    }

    fn foreign_id(&self) -> (r: String)
        ensures
            r@ == self.foreign_id@,
    {
        self.foreign_id.clone()
    }

    fn foreign_name(&self) -> (r: Option<String>)
    {
        clone_option(&self.foreign_name)
    }
}

impl AuthProvider for LoginAs {
    open spec fn spec_platform(&self) -> Seq<char> {
        "loginas"@
    }

    open spec fn spec_foreign_name(&self) -> Option<Seq<char>> {
        Some(self.foreign_name@)
    }

    fn platform(&self) -> (r: String)
    {
        String::from_str("loginas")
    }

    fn foreign_id(&self) -> (r: String)
        ensures
            r@ == self.foreign_id@,
    {
        self.foreign_id.clone()
    }

    fn foreign_name(&self) -> (r: Option<String>)
    {
        Some(self.foreign_name.clone())
    }
}

/// A Reddit account as its profile describes it.
#[derive(Debug)]
pub struct RedditUserInfo {
    pub name: String,
}

/// A Discord account as its profile describes it.
#[derive(Debug)]
pub struct DiscordUserInfo {
    pub id: String,
    pub username: String,
    pub discriminator: String,
}

impl DiscordUserInfo {
    /// The account's full name: the username, `#` and the discriminator.
    pub fn name(&self) -> (r: String)
        ensures
            r@ == self.username@ + "#"@ + self.discriminator@,
    {
        let mut n = self.username.clone();
        n.append("#");
        n.append(self.discriminator.as_str());
        n
    }
}

/// The claims of a session token.
#[derive(Debug)]
pub struct Claims {
    pub id: i32,
    pub user: String,
    pub token: Option<String>,
    pub refresh_token: Option<String>,
    pub exp: usize,
}

/// Seconds that a session lasts: thirty days.
pub const COOKIE_DURATION: i64 = 2592000;

/// When a token issued at `now` (seconds) for `lifetime` seconds expires.
pub fn token_expiry(now: usize, lifetime: usize) -> (r: usize)
    requires
        now + lifetime <= usize::MAX,
    ensures
        r == now + lifetime,
{
    lifetime + now
}

/// The platform, `_`, and `name`, or `fallback` where there is no name.
pub open spec fn spec_player_name(platform: Seq<char>, name: Option<Seq<char>>, fallback: Seq<char>) -> Seq<char> {
    platform + "_"@ + (match name {
        Some(n) => n,
        None => fallback,
    })
}

/// The name of a new player who logs in from `platform`: the platform, `_`,
/// and the platform's name for the player, or `fallback` where it has none.
pub fn player_name(platform: &str, foreign_name: Option<String>, fallback: String) -> (r: String)
    ensures
        r@ == spec_player_name(platform@, option_view(foreign_name), fallback@),
{
    let mut name = String::from_str(platform);
    name.append("_");
    match foreign_name {
        Some(n) => name.append(n.as_str()),
        None => name.append(fallback.as_str()),
    }
    name
}

/// The name of a new player who logs in with `login`: the platform, `_`, and
/// the platform's name for the player, or seven random letters and digits
/// where it has none.
pub fn login_player_name<P: AuthProvider>(login: &P) -> (r: String)
    ensures
        exists|fallback: Seq<char>| #![trigger spec_player_name(login.spec_platform(), login.spec_foreign_name(), fallback)]
            fallback.len() == 7 && (forall|i: int| 0 <= i < 7 ==> ascii_alphanumeric(#[trigger] fallback[i]))
            && r@ == spec_player_name(login.spec_platform(), login.spec_foreign_name(), fallback),
{
    let fallback = random_alphanumeric(7);
    let platform = login.platform();
    let ghost fb = fallback@;
    let r = player_name(platform.as_str(), login.foreign_name(), fallback);
    assert(r@ == spec_player_name(login.spec_platform(), login.spec_foreign_name(), fb));
    r
}

/// Whether a Reddit login is sent to the e-mail error page: the account has
/// no verified e-mail (or does not say) and is not exempted by a ban entry
/// of class 3.
pub fn needs_verified_email(has_verified_email: Option<bool>, exemptions: i64) -> (r: bool)
    ensures
        r == (!(has_verified_email == Some(true)) && exemptions < 1),
{
    let verified = match has_verified_email {
        Some(v) => v,
        None => false,
    };
    !verified && exemptions < 1
}

/// Whether a Reddit account is flagged as suspended; an account that does not
/// say is not.
pub fn is_suspended(flag: Option<bool>) -> (r: bool)
    ensures
        r == (flag == Some(true)),
{
    match flag {
        Some(v) => v,
        None => false,
    }
}

/// Whether a captcha answer passes: the answer matches, and the captcha's
/// creation time minus `now` is under ten minutes.
pub fn captcha_passes(creation: i64, now: i64, expected: &String, given: &String) -> (r: bool)
    requires
        i64::MIN <= creation - now <= i64::MAX,
    ensures
        r == (creation - now < 600 && given@ == expected@),
{
    creation - now < 600 && *given == *expected
}

// ---------------------------------------------------------------------------
// Merging accounts

/// How the moves of two accounts that merge relate.
#[derive(Clone, Copy, Debug, PartialEq, Eq, Structural)]
pub enum MergeCase {
    /// Neither account has moves
    NoMoves,
    /// One account has moves, the other none
    OneSided,
    /// Both accounts have moves, on different turns
    Disjoint,
    /// Both accounts have moves on some turn
    Overlapping,
}

/// Some turn has moves of both accounts.
pub open spec fn moves_overlap(a: Seq<i32>, b: Seq<i32>) -> bool {
    exists|i: int, j: int| 0 <= i < a.len() && 0 <= j < b.len() && a[i] == b[j]
}

/// The case of merging an account whose moves were on the turns `source`
/// into one whose moves were on the turns `destination`.
pub open spec fn merge_case(destination: Seq<i32>, source: Seq<i32>) -> MergeCase {
    if destination.len() == 0 && source.len() == 0 {
        MergeCase::NoMoves
    } else if destination.len() == 0 || source.len() == 0 {
        MergeCase::OneSided
    } else if moves_overlap(destination, source) {
        MergeCase::Overlapping
    } else {
        MergeCase::Disjoint
    }
}

/// Decides the merge of the account `source_user` into `destination_user`,
/// each given by the turns of its moves: the case it falls under, refused as
/// unauthorized when the moves overlap and no admin authorizes it.
pub fn merge_user(destination_user: &Vec<i32>, source_user: &Vec<i32>, admin: Option<u128>) -> (r: Result<MergeCase, Error>)
    ensures
        merge_case(destination_user@, source_user@) == MergeCase::Overlapping && admin is None
            ==> r == Err::<MergeCase, Error>(Error::Unauthorized {}),
        !(merge_case(destination_user@, source_user@) == MergeCase::Overlapping && admin is None)
            ==> r == Ok::<MergeCase, Error>(merge_case(destination_user@, source_user@)),
{
    if destination_user.len() == 0 && source_user.len() == 0 {
        return Ok(MergeCase::NoMoves);
    }
    if destination_user.len() == 0 || source_user.len() == 0 {
        return Ok(MergeCase::OneSided);
    }
    let mut overlap = false;
    let mut i: usize = 0;
    while i < destination_user.len()
        invariant
            0 <= i <= destination_user.len(),
            overlap <==> exists|a: int, b: int| 0 <= a < i && 0 <= b < source_user@.len() && destination_user@[a] == source_user@[b],
        decreases destination_user.len() - i,
    {
        let mut j: usize = 0;
        while j < source_user.len()
            invariant
                0 <= j <= source_user.len(),
                0 <= i < destination_user.len(),
                overlap <==> (exists|a: int, b: int| 0 <= a < i && 0 <= b < source_user@.len() && destination_user@[a] == source_user@[b])
                    || (exists|b: int| 0 <= b < j && destination_user@[i as int] == source_user@[b]),
            decreases source_user.len() - j,
        {
            if destination_user[i] == source_user[j] {
                overlap = true;
            }
            j = j + 1;
        }
        i = i + 1;
    }
    if overlap {
        match admin {
            Some(_) => Ok(MergeCase::Overlapping),
            None => Err(Error::Unauthorized {}),
        }
    } else {
        Ok(MergeCase::Disjoint)
    }
}

/// Merging `a` into `b` falls under the same case as merging `b` into `a`.
pub proof fn lemma_merge_case_symmetric(a: Seq<i32>, b: Seq<i32>)
    ensures
        merge_case(a, b) == merge_case(b, a),
{
    if moves_overlap(a, b) {
        let (i, j) = choose|i: int, j: int| 0 <= i < a.len() && 0 <= j < b.len() && a[i] == b[j];
        assert(0 <= j < b.len() && 0 <= i < a.len() && b[j] == a[i]);
    }
    if moves_overlap(b, a) {
        let (i, j) = choose|i: int, j: int| 0 <= i < b.len() && 0 <= j < a.len() && b[i] == a[j];
        assert(0 <= j < a.len() && 0 <= i < b.len() && a[j] == b[i]);
    }
}

} // verus!
