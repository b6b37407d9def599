//! What the service shows, and how a refresh changes it.

use crate::changes::{log_leaderboard_updates, updates_text};
use crate::clock::{format_moment, moment_text, Moment, Timestamp};
use crate::model::{AppError, LeaderboardEntry};
use crate::text::{begins_with, decimal, decimal_of, ends_with, law_beginnings_and_ends};
use vstd::prelude::*;

verus! {

/// How many seconds pass between two refreshes.
pub const REFRESH_INTERVAL: u64 = 300;

/// The leaderboard, when it was last refreshed, and why the last refresh failed, if it did.
#[derive(Clone, Debug)]
pub struct LeaderboardState {
    pub leaderboard: Vec<LeaderboardEntry>,
    pub last_refreshed_at: Option<Timestamp>,
    pub last_error: Option<String>,
}

impl Default for LeaderboardState {
    /// Before the first refresh nothing is known.
    fn default() -> (state: Self)
        ensures
            state.leaderboard@.len() == 0,
            state.last_refreshed_at is None,
            state.last_error is None,
    {
        LeaderboardState { leaderboard: Vec::new(), last_refreshed_at: None, last_error: None }
    }
}

/// What is said of a refresh that succeeded.
pub open spec fn success_text(count: nat, started_at: Moment) -> Seq<char> {
    "leaderboard refresh succeeded: "@ + decimal(count) + " entries at "@ + moment_text(started_at)
}

/// What is said of a refresh that failed.
pub open spec fn failure_text(error: AppError) -> Seq<char> {
    "leaderboard refresh failed: "@ + error.text()
}

/// What a refresh that succeeded has to say: what changed, and that it succeeded.
#[derive(Clone, Debug)]
pub struct RefreshReport {
    pub updates: String,
    pub success: String,
}

impl LeaderboardState {
    /// Takes over the leaderboard of a refresh that succeeded.
    pub fn refresh_succeeded(
        &mut self,
        leaderboard: Vec<LeaderboardEntry>,
        started_at: Timestamp,
        finished_at: Timestamp,
    ) -> (report: RefreshReport)
        ensures
            final(self).leaderboard == leaderboard,
            final(self).last_refreshed_at == Some(finished_at),
            final(self).last_error is None,
            report.updates@ == updates_text(old(self).leaderboard@, leaderboard@),
            report.success@ == success_text(leaderboard@.len(), started_at@),
    {
        let updates = log_leaderboard_updates(&self.leaderboard, &leaderboard);
        let mut success = String::new();
        success.append("leaderboard refresh succeeded: ");
        success.append(&decimal_of(leaderboard.len() as u64));
        success.append(" entries at ");
        success.append(&format_moment(started_at));
        assert(success@ =~= success_text(leaderboard@.len(), started_at@));
        self.leaderboard = leaderboard;
        self.last_refreshed_at = Some(finished_at);
        self.last_error = None;
        RefreshReport { updates, success }
    }

    /// Notes why a refresh failed. What the last one that succeeded has found stays.
    pub fn refresh_failed(&mut self, error: &AppError) -> (line: String)
        ensures
            final(self).leaderboard == old(self).leaderboard,
            final(self).last_refreshed_at == old(self).last_refreshed_at,
            final(self).last_error matches Some(message) && message@ == error.text(),
            line@ == failure_text(*error),
    {
        self.last_error = Some(error.message().to_owned());
        let mut line = String::new();
        line.append("leaderboard refresh failed: ");
        line.append(error.message());
        assert(line@ =~= failure_text(*error));
        line
    }
}

/// What is said of a refresh names how many entries there are and when it began, or why it
/// failed.
pub proof fn law_reports_name_what_happened(count: nat, started_at: Moment, error: AppError)
    ensures
        begins_with(
            success_text(count, started_at),
            "leaderboard refresh succeeded: "@ + decimal(count) + " entries at "@,
        ),
        ends_with(success_text(count, started_at), moment_text(started_at)),
        success_text(count, started_at).len() == ("leaderboard refresh succeeded: "@ + decimal(
            count,
        ) + " entries at "@).len() + moment_text(started_at).len(),
        begins_with(failure_text(error), "leaderboard refresh failed: "@),
        ends_with(failure_text(error), error.text()),
        failure_text(error).len() == "leaderboard refresh failed: "@.len() + error.text().len(),
{
    let head = "leaderboard refresh succeeded: "@ + decimal(count) + " entries at "@;
    law_beginnings_and_ends(head, head, moment_text(started_at));
    law_beginnings_and_ends(head, moment_text(started_at), head);
    law_beginnings_and_ends(head, "leaderboard refresh failed: "@, error.text());
    law_beginnings_and_ends(head, error.text(), "leaderboard refresh failed: "@);
}

} // verus!
