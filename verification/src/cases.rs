//! Support cases that players open, and how many they may keep open.
use vstd::prelude::*;

verus! {

/// The state of a case.
#[derive(Clone, Copy, Debug, PartialEq, Eq, Structural)]
pub enum CaseStatus {
    /// Created, not yet acted upon
    Open,
    /// Awaiting user action
    WaitingOnUser,
    /// In progress
    InProgress,
    /// Completed
    ClosedCompleted,
    /// Rejected
    ClosedRejected,
}

/// What a case is about.
#[derive(Clone, Copy, Debug, PartialEq, Eq, Structural)]
pub enum CaseType {
    /// Update team (home)
    AccountUpdateTeam,
    /// Update team (guest)
    AccountUpdatePlayingFor,
    /// Update teams (both home and guest)
    AccountUpdateTeams,
    /// Delete account
    AccountDelete,
    /// Merge account (when there are overlapping objects)
    AccountMerge,
    /// Report an account
    AccountReport,
    /// Request streak reinstatement
    AccountStreak,
    /// Other miscellaneous cases
    Other,
}

/// Whether a player with `open_cases` open cases of type `case_type` may open
/// another: always when overridden or with none open; up to 20 open reports;
/// up to 5 open miscellaneous cases; otherwise not.
pub open spec fn spec_case_allowed(overridden: bool, open_cases: int, case_type: CaseType) -> bool {
    overridden || open_cases == 0 || (open_cases < 20 && case_type == CaseType::AccountReport)
        || (open_cases < 5 && case_type == CaseType::Other)
}

/// Whether another case may be opened: see [`spec_case_allowed`].
pub fn case_insert_allowed(overridden: bool, open_cases: usize, case_type: CaseType) -> (r: bool)
    ensures
        r == spec_case_allowed(overridden, open_cases as int, case_type),
{
    overridden || open_cases == 0 || (open_cases < 20 && case_type == CaseType::AccountReport)
        || (open_cases < 5 && case_type == CaseType::Other)
}

/// The kinds of events in the event log.
#[derive(Clone, Copy, Debug, PartialEq, Eq, Structural)]
pub enum EventType {
    PlayerCreate,
    PlayerNameUpdate,
    PlayerTeamUpdate,
    PlayerAward,
    PlayerMerge,
    PlayerDelete,
    TerritoryDecision,
    TerritoryReroll,
}

/// A player's answer to a notification.
#[derive(Clone, Copy, Debug, PartialEq, Eq, Structural)]
pub enum NotificationResponse {
    Acknowledged,
    Accepted,
    Declined,
    Dismissed,
}

/// A player who may open another case with some number of cases open may
/// also with fewer open.
pub proof fn lemma_case_limit_monotone(overridden: bool, open_cases: int, fewer: int, case_type: CaseType)
    requires
        0 <= fewer <= open_cases,
        spec_case_allowed(overridden, open_cases, case_type),
    ensures
        spec_case_allowed(overridden, fewer, case_type),
{
}

} // verus!
