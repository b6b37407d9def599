//! The data that the leaderboard is made from, and its entries.

use crate::double::Double;
use crate::text::{begins_with, ends_with};
use vstd::prelude::*;

verus! {

/// Why a step could not be carried out.
#[derive(Clone, Debug)]
pub enum AppError {
    /// The service itself failed.
    Internal(String),
    /// GitHub failed, or answered with something unexpected.
    Upstream(String),
}

impl AppError {
    /// The message, whichever side failed.
    pub open spec fn text(&self) -> Seq<char> {
        match self {
            AppError::Internal(message) => message@,
            AppError::Upstream(message) => message@,
        }
    }

    /// The message to show for this error.
    pub fn message(&self) -> (message: &str)
        ensures
            message@ == self.text(),
    {
        match self {
            AppError::Internal(message) => message.as_str(),
            AppError::Upstream(message) => message.as_str(),
        }
    }

    /// A failure of the service: what failed, and the detail.
    pub fn internal(context: &str, detail: &str) -> (error: AppError)
        ensures
            error is Internal,
            error.text() == context@ + ": "@ + detail@,
            error.text() == detailed(context@, detail@),
    {
        AppError::Internal(with_detail(context, detail))
    }

    /// A failure on GitHub's side: what failed, and the detail.
    pub fn upstream(context: &str, detail: &str) -> (error: AppError)
        ensures
            error is Upstream,
            error.text() == context@ + ": "@ + detail@,
            error.text() == detailed(context@, detail@),
    {
        AppError::Upstream(with_detail(context, detail))
    }
}

/// What failed, and the detail.
pub open spec fn detailed(context: Seq<char>, detail: Seq<char>) -> Seq<char> {
    context + ": "@ + detail
}

/// A message tells what failed first, and ends with the detail; a colon and a space stand
/// between them.
pub proof fn law_message_tells_context_and_detail(context: Seq<char>, detail: Seq<char>)
    ensures
        begins_with(detailed(context, detail), context),
        ends_with(detailed(context, detail), detail),
        detailed(context, detail).len() == context.len() + 2 + detail.len(),
        detailed(context, detail)[context.len() as int] == ':',
        detailed(context, detail)[(context.len() + 1) as int] == ' ',
{
    reveal_strlit(": ");
    let s = detailed(context, detail);
    assert(s.take(context.len() as int) =~= context);
    assert(s.skip(s.len() - detail.len()) =~= detail);
}

/// The message of an error is the text that it was made with, whichever side failed.
pub proof fn law_error_tells_its_message(message: String)
    ensures
        AppError::Internal(message).text() == message@,
        AppError::Upstream(message).text() == message@,
{
}

fn with_detail(context: &str, detail: &str) -> (message: String)
    ensures
        message@ == context@ + ": "@ + detail@,
{
    let mut message = String::new();
    message.append(context);
    message.append(": ");
    message.append(detail);
    assert(message@ =~= context@ + ": "@ + detail@);
    message
}

/// A GitHub account.
#[derive(Clone, Debug)]
pub struct GitHubUser {
    pub login: String,
}

/// An issue as GitHub lists it.
#[derive(Clone, Debug)]
pub struct GitHubIssue {
    pub number: u64,
    pub title: String,
    pub html_url: String,
    pub created_at: String,
    pub comments: u64,
    pub user: GitHubUser,
    /// The issue is a pull request.
    pub pull_request: bool,
}

/// A comment on an issue.
#[derive(Clone, Debug)]
pub struct GitHubComment {
    pub body: String,
    pub user: GitHubUser,
}

/// Where the page that listed an issue came from.
#[derive(Clone, Copy, Debug, PartialEq, Eq, Structural)]
pub enum IssueSource {
    Fresh,
    Cached,
}

/// Where to look first for a document.
#[derive(Clone, Copy, Debug, PartialEq, Eq, Structural)]
pub enum HttpFetchPolicy {
    CacheFirst,
    NetworkFirst,
}

/// An issue, and where its page came from.
#[derive(Clone, Debug)]
pub struct SourcedIssue {
    pub issue: GitHubIssue,
    pub source: IssueSource,
}

/// A repository that a participant registered.
#[derive(Clone, Debug)]
pub struct ParticipantSubmission {
    pub id: String,
    pub repo: String,
}

/// What a submission says about itself.
#[derive(Clone, Debug)]
pub struct SubmissionInfo {
    pub participants: Vec<String>,
    pub social: Vec<String>,
    pub stack: Vec<String>,
    pub open_to_work: Option<bool>,
}

/// What is known of a submission besides its result.
#[derive(Clone, Debug)]
pub struct SubmissionMetadata {
    pub participant_names: Vec<String>,
    pub participant_submission_id: Option<String>,
    pub submission_stack: Vec<String>,
    pub github_profile_url: Option<String>,
    pub linkedin_profile_url: Option<String>,
    pub submission_repo_url: Option<String>,
    pub open_to_work: Option<bool>,
}

impl SubmissionMetadata {
    /// Nothing is known.
    pub open spec fn is_blank(&self) -> bool {
        &&& self.participant_names@.len() == 0
        &&& self.participant_submission_id is None
        &&& self.submission_stack@.len() == 0
        &&& self.github_profile_url is None
        &&& self.linkedin_profile_url is None
        &&& self.submission_repo_url is None
        &&& self.open_to_work is None
    }
}

impl Default for SubmissionMetadata {
    fn default() -> (metadata: Self)
        ensures
            metadata.is_blank(),
    {
        SubmissionMetadata {
            participant_names: Vec::new(),
            participant_submission_id: None,
            submission_stack: Vec::new(),
            github_profile_url: None,
            linkedin_profile_url: None,
            submission_repo_url: None,
            open_to_work: None,
        }
    }
}

/// What the results bot reports of one run.
#[derive(Clone, Debug)]
pub struct BenchmarkResult {
    pub runtime_info: RuntimeInfo,
    pub test_results: TestResults,
}

/// The machine and the commit of a run.
#[derive(Clone, Debug)]
pub struct RuntimeInfo {
    pub mem: Double,
    pub cpu: Double,
    pub commit: String,
}

/// What was measured in a run.
#[derive(Clone, Debug)]
pub struct TestResults {
    pub expected: ExpectedResults,
    pub p99: String,
    pub scoring: Scoring,
}

/// The score of a run.
#[derive(Clone, Debug)]
pub struct Scoring {
    pub breakdown: Breakdown,
    pub failure_rate: Option<String>,
    pub weighted_errors: Option<Double>,
    pub error_rate_epsilon: Option<Double>,
    pub final_score: Double,
}

/// How many requests of each kind the run holds.
#[derive(Clone, Copy, Debug)]
pub struct ExpectedResults {
    pub total: Double,
    pub fraud_count: Double,
    pub legit_count: Double,
    pub edge_case_count: Double,
}

/// How the answers of a run were judged.
#[derive(Clone, Copy, Debug)]
pub struct Breakdown {
    pub false_positive_detections: Double,
    pub false_negative_detections: Double,
    pub true_positive_detections: Double,
    pub true_negative_detections: Double,
    pub http_errors: Double,
}

/// One line of the leaderboard.
#[derive(Clone, Debug)]
pub struct LeaderboardEntry {
    pub rank: usize,
    pub username: String,
    pub issue_number: u64,
    pub issue_url: String,
    pub issue_title: String,
    pub created_at: String,
    pub participant_names: Vec<String>,
    pub participant_submission_id: Option<String>,
    pub submission_stack: Vec<String>,
    pub github_profile_url: Option<String>,
    pub linkedin_profile_url: Option<String>,
    pub submission_repo_url: Option<String>,
    pub open_to_work: Option<bool>,
    pub final_score: i64,
    pub expected_total: i64,
    pub expected_legit_count: i64,
    pub expected_fraud_count: i64,
    pub expected_edge_case_count: i64,
    pub failure_rate: Option<String>,
    pub weighted_errors: Option<Double>,
    pub error_rate_epsilon: Option<Double>,
    pub p99_ms: Option<Double>,
    pub true_positives: i64,
    pub true_negatives: i64,
    pub false_positives: i64,
    pub false_negatives: i64,
    pub http_errors: i64,
    pub cpu: Option<Double>,
    pub memory_mb: Option<Double>,
    pub commit: Option<String>,
}

} // verus!
