//! The checks and defaults that the web API applies to its request parameters.
use vstd::prelude::*;
use vstd::string::*;
use crate::error::Error;
use crate::team::Latest;
use crate::text::{is_alphanumeric, parse_uuid, parsed_uuid, unicode_alphanumeric, url_decode, url_decoded};

verus! {

// ---------------------------------------------------------------------------
// Player identifiers

/// A player named in a request: by UUID (its 128-bit value) or by name.
#[derive(Debug)]
pub enum PlayerIdString {
    Uuid(u128),
    Name(String),
}

/// `id` is what a request parameter `s` names: the UUID when `s` reads as
/// one, the name `s` otherwise.
pub open spec fn names_player(id: PlayerIdString, s: Seq<char>) -> bool {
    match id {
        PlayerIdString::Uuid(u) => parsed_uuid(s) == Some(u),
        PlayerIdString::Name(n) => parsed_uuid(s) is None && n@ == s,
    }
}

impl PlayerIdString {
    /// The player that `value` names: its UUID when it reads as one,
    /// otherwise the name `value`.
    pub fn from(value: String) -> (r: PlayerIdString)
        ensures
            names_player(r, value@),
    {
        match parse_uuid(value.as_str()) {
            Some(u) => PlayerIdString::Uuid(u),
            None => PlayerIdString::Name(value),
        }
    }

    /// The player that the path parameter `param` names. A parameter of 1 to
    /// 36 characters, each alphanumeric, `_` or `-`, names a player; any other
    /// is refused and handed back.
    pub fn from_param(param: &str) -> (r: Result<PlayerIdString, String>)
        ensures
            valid_id_param(param@) ==> (r matches Ok(id) && names_player(id, param@)),
            !valid_id_param(param@) ==> (r matches Err(e) && e@ == param@),
    {
        let n = param.unicode_len();
        let mut ok = 1 <= n && n <= 36;
        if ok {
            let mut i: usize = 0;
            while i < n
                invariant
                    0 <= i <= n,
                    n == param@.len(),
                    ok <==> forall|k: int| 0 <= k < i ==> valid_id_char(#[trigger] param@[k]),
                decreases n - i,
            {
                let c = param.get_char(i);
                if !is_valid_char(c) {
                    ok = false;
                }
                i = i + 1;
            }
        }
        if ok {
            Ok(PlayerIdString::from(String::from_str(param)))
        } else {
            Err(String::from_str(param))
        }
    }
}

/// A character that a player identifier may hold.
pub open spec fn valid_id_char(c: char) -> bool {
    unicode_alphanumeric(c) || c == '_' || c == '-'
}

/// A path parameter that names a player: 1 to 36 characters, each one that
/// an identifier may hold.
pub open spec fn valid_id_param(s: Seq<char>) -> bool {
    &&& 1 <= s.len() <= 36
    &&& forall|k: int| 0 <= k < s.len() ==> valid_id_char(#[trigger] s[k])
}

/// Whether `val` may stand in a player identifier: alphanumeric, `_` or `-`.
pub fn is_valid_char(val: char) -> (r: bool)
    ensures
        r == valid_id_char(val),
{
    is_alphanumeric(val) || val == '_' || val == '-'
}

// ---------------------------------------------------------------------------
// Comma-separated lists

/// The pieces of `s` between commas, as `str::split(',')` gives them.
pub open spec fn split_commas(s: Seq<char>) -> Seq<Seq<char>>
    decreases s.len(),
{
    if s.len() == 0 {
        seq![Seq::empty()]
    } else {
        let parts = split_commas(s.drop_last());
        if s.last() == ',' {
            parts.push(Seq::empty())
        } else {
            parts.update(parts.len() - 1, parts.last().push(s.last()))
        }
    }
}

proof fn lemma_split_commas_nonempty(s: Seq<char>)
    ensures
        split_commas(s).len() >= 1,
    decreases s.len(),
{
    if s.len() > 0 {
        lemma_split_commas_nonempty(s.drop_last());
    }
}

/// The pieces of `list` between commas, in order.
pub fn split_list(list: &str) -> (r: Vec<String>)
    ensures
        r@.map_values(|p: String| p@) == split_commas(list@),
{
    let n = list.unicode_len();
    let mut parts: Vec<String> = Vec::new();
    let mut start: usize = 0;
    let mut i: usize = 0;
    assert(list@.take(0) =~= Seq::<char>::empty());
    assert(parts@.map_values(|p: String| p@).push(list@.subrange(0, 0)) =~= seq![Seq::<char>::empty()]);
    while i < n
        invariant
            0 <= start <= i <= n,
            n == list@.len(),
            split_commas(list@.take(i as int)) == parts@.map_values(|p: String| p@).push(list@.subrange(start as int, i as int)),
        decreases n - i,
    {
        let c = list.get_char(i);
        let ghost pre = list@.take(i as int);
        assert(list@.take(i as int + 1).drop_last() =~= pre);
        assert(list@.take(i as int + 1).last() == c);
        proof {
            lemma_split_commas_nonempty(pre);
        }
        if c == ',' {
            let piece = String::from_str(list.substring_char(start, i));
            parts.push(piece);
            start = i + 1;
            assert(list@.subrange(start as int, i as int + 1) =~= Seq::<char>::empty());
        } else {
            assert(list@.subrange(start as int, i as int + 1) =~= list@.subrange(start as int, i as int).push(c));
        }
        i = i + 1;
        assert(split_commas(list@.take(i as int)) =~= parts@.map_values(|p: String| p@).push(list@.subrange(start as int, i as int)));
    }
    let last = String::from_str(list.substring_char(start, n));
    parts.push(last);
    assert(list@.take(n as int) =~= list@);
    assert(parts@.map_values(|p: String| p@) =~= split_commas(list@));
    parts
}

/// The players named in the comma-separated list `players`, in order.
pub fn player_batch(players: &str) -> (r: Vec<PlayerIdString>)
    ensures
        r@.len() == split_commas(players@).len(),
        forall|i: int| 0 <= i < r@.len() ==> names_player(#[trigger] r@[i], split_commas(players@)[i]),
{
    let pieces = split_list(players);
    let ghost views = pieces@.map_values(|p: String| p@);
    let mut out: Vec<PlayerIdString> = Vec::new();
    let mut pieces = pieces;
    let ghost all = pieces@;
    // consume the pieces from the back, then restore the order
    let mut rev: Vec<PlayerIdString> = Vec::new();
    while pieces.len() > 0
        invariant
            pieces@ == all.take(pieces@.len() as int),
            pieces@.len() <= all.len(),
            rev@.len() == all.len() - pieces@.len(),
            forall|i: int| 0 <= i < rev@.len() ==> names_player(#[trigger] rev@[i], all[all.len() - 1 - i]@),
        decreases pieces@.len(),
    {
        let p = pieces.pop().unwrap();
        rev.push(PlayerIdString::from(p));
        assert(pieces@ =~= all.take(pieces@.len() as int));
    }
    while rev.len() > 0
        invariant
            rev@.len() + out@.len() == all.len(),
            forall|i: int| 0 <= i < rev@.len() ==> names_player(#[trigger] rev@[i], all[all.len() - 1 - i]@),
            forall|i: int| 0 <= i < out@.len() ==> names_player(#[trigger] out@[i], all[i]@),
        decreases rev@.len(),
    {
        let id = rev.pop().unwrap();
        out.push(id);
    }
    assert forall|i: int| 0 <= i < out@.len() implies names_player(#[trigger] out@[i], split_commas(players@)[i]) by {
        assert(views[i] == all[i]@);
    }
    out
}

// ---------------------------------------------------------------------------
// Paging and limits

/// Events per page when none is asked for.
pub const DEFAULT_EVENT_COUNT: i64 = 100;
/// The most events per page.
pub const MAX_EVENT_COUNT: i64 = 250;

/// The page size and page number for the event list: the count asked for
/// (100 when none) capped at 250, and the page asked for (0 when none).
/// Refused as a bad request when the count is not positive, the page is
/// negative, or both a time and an event to start after are given.
pub open spec fn spec_events_window(count: Option<i64>, page: Option<i64>, has_since: bool, has_after: bool) -> Result<(i64, i64), Error> {
    let c = match count { Some(c) => c, None => DEFAULT_EVENT_COUNT };
    let c = if c < MAX_EVENT_COUNT { c } else { MAX_EVENT_COUNT };
    let p = match page { Some(p) => p, None => 0 };
    if c <= 0 || p < 0 || (has_since && has_after) {
        Err(Error::BadRequest {})
    } else {
        Ok((c, p))
    }
}

/// The page size and page number for the event list: see [`spec_events_window`].
pub fn events_window(count: Option<i64>, page: Option<i64>, has_since: bool, has_after: bool) -> (r: Result<(i64, i64), Error>)
    ensures
        r == spec_events_window(count, page, has_since, has_after),
{
    let c = match count { Some(c) => c, None => DEFAULT_EVENT_COUNT };
    let c = if c < MAX_EVENT_COUNT { c } else { MAX_EVENT_COUNT };
    let p = match page { Some(p) => p, None => 0 };
    if c <= 0 || p < 0 || (has_since && has_after) {
        Err(Error::BadRequest {})
    } else {
        Ok((c, p))
    }
}

/// The number of events skipped before page `page` of `count` events.
pub fn event_offset(count: i64, page: i64) -> (r: i64)
    requires
        i64::MIN <= page * count <= i64::MAX,
    ensures
        r == page * count,
{
    page * count
}

/// The number of events per page for the transfer and notification lists:
/// a count above 100 becomes 100; no count stays none.
pub fn clamp_event_count(count: Option<i64>) -> (r: Option<i64>)
    ensures
        r == (match count {
            Some(c) => Some(if c > 100 { 100 } else { c }),
            None => None::<i64>,
        }),
{
    match count {
        Some(c) => if c > 100 { Some(100) } else { Some(c) },
        None => None,
    }
}

/// The number of names a player search returns: the limit asked for when it
/// is at most 50, 10 otherwise and when none is asked for.
pub fn search_limit(limit: Option<i32>) -> (r: i32)
    ensures
        r == (match limit {
            Some(x) => if x <= 50 { x } else { 10 },
            None => 10,
        }),
{
    match limit {
        Some(x) => if x <= 50 { x } else { 10 },
        None => 10,
    }
}

/// The pattern a player search matches names against: the names starting
/// with `s`.
pub fn search_pattern(s: String) -> (r: String)
    ensures
        r@ == s@.push('%'),
{
    let mut s = s;
    let ghost before = s@;
    s.append("%");
    proof {
        reveal_strlit("%");
    }
    assert(s@ =~= before.push('%'));
    s
}

// ---------------------------------------------------------------------------
// Defaults of the statistics routes

/// The turn that the leaderboard shows: the season and day asked for when
/// both are given, otherwise the current season and the day before the
/// current one.
pub fn leaderboard_turn(season: Option<i32>, day: Option<i32>, current: Latest) -> (r: (i32, i32))
    requires
        season is None || day is None ==> current.day > i32::MIN,
    ensures
        r == (match (season, day) {
            (Some(s), Some(d)) => (s, d),
            _ => (current.season, (current.day - 1) as i32),
        }),
{
    match (season, day) {
        (Some(s), Some(d)) => (s, d),
        _ => (current.season, current.day - 1),
    }
}

/// The turn that the heat map shows: the season asked for, else the current
/// one; the day asked for, else the day before the current one.
pub fn heat_turn(season: Option<i32>, day: Option<i32>, current: Latest) -> (r: (i32, i32))
    requires
        current.day > i32::MIN,
    ensures
        r.0 == (match season { Some(s) => s, None => current.season }),
        r.1 == (match day { Some(d) => d, None => (current.day - 1) as i32 }),
{
    let previous_day = current.day - 1;
    let s = match season { Some(s) => s, None => current.season };
    let d = match day { Some(d) => d, None => previous_day };
    (s, d)
}

/// The turn whose territory map is shown: the season and the day asked for,
/// else the current ones.
pub fn territories_turn(season: Option<i32>, day: Option<i32>, current: Latest) -> (r: (i32, i32))
    ensures
        r.0 == (match season { Some(s) => s, None => current.season }),
        r.1 == (match day { Some(d) => d, None => current.day }),
{
    let s = match season { Some(s) => s, None => current.season };
    let d = match day { Some(d) => d, None => current.day };
    (s, d)
}

/// The team whose roster is asked for, URL-decoded; no team when none is
/// given. Text that does not decode to UTF-8 is refused.
pub fn team_filter(team: Option<String>) -> (r: Result<Option<String>, Error>)
    ensures
        team is None ==> r matches Ok(None),
        team matches Some(t) ==> (match url_decoded(t@) {
            Some(d) => (r matches Ok(Some(n)) && n@ == d),
            None => r == Err::<Option<String>, Error>(Error::FromUtf8Error {}),
        }),
{
    match team {
        None => Ok(None),
        Some(t) => match url_decode(t.as_str()) {
            Some(d) => Ok(Some(d)),
            None => Err(Error::FromUtf8Error {}),
        },
    }
}

/// A list answered as found when it holds at least one item (its length
/// taken as an `i32`), otherwise `err`.
pub fn nonempty_or<T>(items: Vec<T>, err: Error) -> (r: Result<Vec<T>, Error>)
    ensures
        (items@.len() as i32) >= 1 ==> (r matches Ok(v) && v@ == items@),
        !((items@.len() as i32) >= 1) ==> r == Err::<Vec<T>, Error>(err),
{
    if items.len() as i32 >= 1 {
        Ok(items)
    } else {
        Err(err)
    }
}

/// The one record that a lookup by name found: none when it found none or
/// several.
pub fn single_match<T>(records: Vec<T>) -> (r: Option<T>)
    ensures
        records@.len() == 1 ==> r == Some(records@[0]),
        records@.len() != 1 ==> r is None,
{
    if records.len() == 1 {
        let mut records = records;
        records.pop()
    } else {
        None
    }
}

/// The pattern a partial-name search matches names against: the names
/// holding `s`.
pub fn contains_pattern(s: &str) -> (r: String)
    ensures
        r@ == seq!['%'] + s@ + seq!['%'],
{
    let mut p = String::from_str("%");
    p.append(s);
    p.append("%");
    proof {
        reveal_strlit("%");
    }
    assert(p@ =~= seq!['%'] + s@ + seq!['%']);
    p
}

/// The filter on a player's team in the player queries: 0 for players with
/// a team assigned, -1 otherwise (the rows whose team equals it are left out).
pub fn team_status_code(team_assigned: bool) -> (r: i32)
    ensures
        r == (if team_assigned { 0i32 } else { -1i32 }),
{
    if team_assigned { 0 } else { -1 }
}

/// The answer to a poll response: accepted when exactly one row was written,
/// an internal error otherwise.
pub fn poll_response_outcome(rows: usize) -> (r: Result<bool, Error>)
    ensures
        r == (if rows == 1 { Ok::<bool, Error>(true) } else { Err::<bool, Error>(Error::InternalServerError {}) }),
{
    if rows == 1 { Ok(true) } else { Err(Error::InternalServerError {}) }
}

/// The pieces `parts` joined with commas.
pub open spec fn join_commas(parts: Seq<Seq<char>>) -> Seq<char>
    decreases parts.len(),
{
    if parts.len() == 0 {
        Seq::empty()
    } else if parts.len() == 1 {
        parts[0]
    } else {
        join_commas(parts.drop_last()) + seq![','] + parts.last()
    }
}

/// Splitting a list at its commas loses nothing: no piece holds a comma, and
/// the pieces joined with commas give back the list.
pub proof fn lemma_split_join(s: Seq<char>)
    ensures
        join_commas(split_commas(s)) == s,
        forall|i: int| 0 <= i < split_commas(s).len() ==> !(#[trigger] split_commas(s)[i]).contains(','),
    decreases s.len(),
{
    if s.len() == 0 {
        assert(join_commas(split_commas(s)) =~= s);
        assert forall|i: int| 0 <= i < split_commas(s).len() implies !(#[trigger] split_commas(s)[i]).contains(',') by {
            assert(split_commas(s)[i] =~= Seq::<char>::empty());
        }
    } else {
        let prev = s.drop_last();
        let parts = split_commas(prev);
        let c = s.last();
        lemma_split_join(prev);
        lemma_split_commas_nonempty(prev);
        let n = parts.len();
        if c == ',' {
            let r = parts.push(Seq::empty());
            assert(r.drop_last() =~= parts);
            assert(join_commas(r) =~= s);
            assert forall|i: int| 0 <= i < r.len() implies !(#[trigger] r[i]).contains(',') by {
                if i < n {
                    assert(r[i] == parts[i]);
                } else {
                    assert(r[i] =~= Seq::<char>::empty());
                }
            }
        } else {
            let x = parts.last();
            let r = parts.update(n - 1, x.push(c));
            if n == 1 {
                assert(join_commas(r) == r[0]);
                assert(join_commas(r) =~= s);
            } else {
                assert(r.drop_last() =~= parts.drop_last());
                let head = join_commas(parts.drop_last());
                assert(join_commas(parts) == head + seq![','] + x);
                assert(join_commas(r) == head + seq![','] + x.push(c));
                assert(s =~= prev.push(c));
                assert(join_commas(r) =~= s);
            }
            assert forall|i: int| 0 <= i < r.len() implies !(#[trigger] r[i]).contains(',') by {
                if i < n - 1 {
                    assert(r[i] == parts[i]);
                } else {
                    assert(!parts[n - 1].contains(','));
                    if r[i].contains(',') {
                        let k = choose|k: int| 0 <= k < r[i].len() && r[i][k] == ',';
                        if k < x.len() {
                            assert(x[k] == ',');
                        }
                    }
                }
            }
        }
    }
}

/// An accepted event window asks for 1 to 250 events from a page that is not
/// negative.
pub proof fn lemma_events_window_bounds(count: Option<i64>, page: Option<i64>, has_since: bool, has_after: bool)
    ensures
        spec_events_window(count, page, has_since, has_after) matches Ok((c, p))
            ==> 1 <= c <= MAX_EVENT_COUNT && p >= 0,
{
}

} // verus!
