//! Turning a reported result into an entry of the leaderboard.

use crate::double::{nearest_up, one, Double};
use crate::model::{BenchmarkResult, GitHubIssue, LeaderboardEntry, SubmissionMetadata};
use crate::number::{number_of, parse_number};
use crate::text::{chars_of, ends_with, matches_at, string_between};
use vstd::arithmetic::div_mod::lemma_fundamental_div_mod;
use vstd::arithmetic::power2::lemma_pow2_pos;
use vstd::prelude::*;

verus! {

/// A field of a report that should hold a number.
#[derive(Clone, Debug)]
pub enum NumericField {
    /// There is no value.
    Null,
    /// A number, and its value as a double where it has one.
    Number(Option<Double>),
    /// A text.
    Text(String),
    /// Anything else.
    Other,
}

/// The number of milliseconds that a text such as `12.5ms` states.
pub open spec fn milliseconds(value: Option<Seq<char>>) -> Option<Double> {
    match value {
        Some(raw) if ends_with(raw, "ms"@) => number_of(raw.take(raw.len() - "ms"@.len())),
        _ => None,
    }
}

/// The number that a field holds, or why it holds none.
pub open spec fn numeric(field: NumericField) -> Result<Double, Seq<char>> {
    match field {
        NumericField::Number(Some(number)) => Ok(number),
        NumericField::Number(None) => Err("invalid numeric value"@),
        NumericField::Text(raw) => match number_of(raw@) {
            Some(number) => Ok(number),
            None => Err("invalid numeric string"@),
        },
        _ => Err("expected numeric value"@),
    }
}

/// The number that a field holds or none, or why it holds something else.
pub open spec fn optional_numeric(field: NumericField) -> Result<Option<Double>, Seq<char>> {
    match field {
        NumericField::Null => Ok(None),
        _ => match numeric(field) {
            Ok(number) => Ok(Some(number)),
            Err(reason) => Err(reason),
        },
    }
}

/// The number that a field holds.
pub fn deserialize_number(field: &NumericField) -> (number: Result<Double, &'static str>)
    ensures
        match numeric(*field) {
            Ok(value) => number == Ok::<Double, &'static str>(value),
            Err(reason) => number matches Err(message) && message@ == reason,
        },
{
    match field {
        NumericField::Number(Some(number)) => Ok(*number),
        NumericField::Number(None) => Err("invalid numeric value"),
        NumericField::Text(raw) => match parse_number(raw.as_str()) {
            Some(number) => Ok(number),
            None => Err("invalid numeric string"),
        },
        _ => Err("expected numeric value"),
    }
}

/// The number that a field holds, if any.
pub fn deserialize_optional_number(field: &NumericField) -> (number: Result<
    Option<Double>,
    &'static str,
>)
    ensures
        match optional_numeric(*field) {
            Ok(value) => number == Ok::<Option<Double>, &'static str>(value),
            Err(reason) => number matches Err(message) && message@ == reason,
        },
{
    match field {
        NumericField::Null => Ok(None),
        _ => match deserialize_number(field) {
            Ok(number) => Ok(Some(number)),
            Err(message) => Err(message),
        },
    }
}

/// The nearest whole number.
pub fn round_to_i64(value: Option<Double>) -> (rounded: Option<i64>)
    ensures
        match value {
            Some(number) => rounded matches Some(whole) && whole == number.rounded(),
            None => rounded is None,
        },
{
    match value {
        Some(number) => Some(number.round()),
        None => None,
    }
}

/// Reads a number of milliseconds.
pub fn parse_ms(value: Option<&str>) -> (number: Option<Double>)
    ensures
        match value {
            Some(raw) => number == milliseconds(Some(raw@)),
            None => number is None,
        },
{
    match value {
        None => None,
        Some(raw) => {
            let chars = chars_of(raw);
            let suffix = chars_of("ms");
            if chars.len() < suffix.len() {
                return None;
            }
            let stem: usize = chars.len() - suffix.len();
            assert(raw@.skip(stem as int) =~= raw@.subrange(stem as int, raw@.len() as int));
            if !matches_at(&chars, &suffix, stem) {
                return None;
            }
            let digits = string_between(&chars, 0, stem);
            assert(digits@ =~= raw@.take(stem as int));
            parse_number(&digits)
        },
    }
}

/// `entry` is the entry of a reported result, not yet ranked.
pub open spec fn is_entry_of(
    entry: LeaderboardEntry,
    issue: GitHubIssue,
    result: BenchmarkResult,
    metadata: Option<SubmissionMetadata>,
) -> bool {
    let scoring = result.test_results.scoring;
    let expected = result.test_results.expected;
    &&& entry.rank == 0
    &&& entry.username == issue.user.login
    &&& entry.issue_number == issue.number
    &&& entry.issue_url == issue.html_url
    &&& entry.issue_title == issue.title
    &&& entry.created_at == issue.created_at
    &&& carries_metadata(entry, metadata)
    &&& entry.final_score == scoring.final_score.rounded()
    &&& entry.expected_total == expected.total.rounded()
    &&& entry.expected_legit_count == expected.legit_count.rounded()
    &&& entry.expected_fraud_count == expected.fraud_count.rounded()
    &&& entry.expected_edge_case_count == expected.edge_case_count.rounded()
    &&& entry.failure_rate == scoring.failure_rate
    &&& entry.weighted_errors == scoring.weighted_errors
    &&& entry.error_rate_epsilon == scoring.error_rate_epsilon
    &&& entry.p99_ms == milliseconds(Some(result.test_results.p99@))
    &&& entry.true_positives == scoring.breakdown.true_positive_detections.rounded()
    &&& entry.true_negatives == scoring.breakdown.true_negative_detections.rounded()
    &&& entry.false_positives == scoring.breakdown.false_positive_detections.rounded()
    &&& entry.false_negatives == scoring.breakdown.false_negative_detections.rounded()
    &&& entry.http_errors == scoring.breakdown.http_errors.rounded()
    &&& entry.cpu == Some(result.runtime_info.cpu)
    &&& entry.memory_mb == Some(result.runtime_info.mem)
    &&& entry.commit == Some(result.runtime_info.commit)
}

/// `entry` shows what is known of the submission; where nothing is, its fields are empty.
pub open spec fn carries_metadata(
    entry: LeaderboardEntry,
    metadata: Option<SubmissionMetadata>,
) -> bool {
    match metadata {
        Some(metadata) => {
            &&& entry.participant_names == metadata.participant_names
            &&& entry.participant_submission_id == metadata.participant_submission_id
            &&& entry.submission_stack == metadata.submission_stack
            &&& entry.github_profile_url == metadata.github_profile_url
            &&& entry.linkedin_profile_url == metadata.linkedin_profile_url
            &&& entry.submission_repo_url == metadata.submission_repo_url
            &&& entry.open_to_work == metadata.open_to_work
        },
        None => {
            &&& entry.participant_names@.len() == 0
            &&& entry.participant_submission_id is None
            &&& entry.submission_stack@.len() == 0
            &&& entry.github_profile_url is None
            &&& entry.linkedin_profile_url is None
            &&& entry.submission_repo_url is None
            &&& entry.open_to_work is None
        },
    }
}

impl LeaderboardEntry {
    /// The entry of a reported result. There always is one.
    pub fn from_issue_result(
        issue: &GitHubIssue,
        result: BenchmarkResult,
        metadata: Option<SubmissionMetadata>,
    ) -> (entry: Option<LeaderboardEntry>)
        ensures
            entry matches Some(entry) && is_entry_of(entry, *issue, result, metadata),
            entry->0.weighted_errors == result.test_results.scoring.weighted_errors,
            entry->0.error_rate_epsilon == result.test_results.scoring.error_rate_epsilon,
            entry->0.failure_rate == result.test_results.scoring.failure_rate,
            entry->0.cpu == Some(result.runtime_info.cpu),
            entry->0.memory_mb == Some(result.runtime_info.mem),
            entry->0.commit == Some(result.runtime_info.commit),
            entry->0.username == issue.user.login,
            entry->0.issue_number == issue.number,
    {
        let known = match metadata {
            Some(metadata) => metadata,
            None => SubmissionMetadata::default(),
        };
        let BenchmarkResult { runtime_info, test_results } = result;
        let p99_ms = parse_ms(Some(test_results.p99.as_str()));
        let expected = test_results.expected;
        let scoring = test_results.scoring;
        let breakdown = scoring.breakdown;
        Some(
            LeaderboardEntry {
                rank: 0,
                username: issue.user.login.clone(),
                issue_number: issue.number,
                issue_url: issue.html_url.clone(),
                issue_title: issue.title.clone(),
                created_at: issue.created_at.clone(),
                participant_names: known.participant_names,
                participant_submission_id: known.participant_submission_id,
                submission_stack: known.submission_stack,
                github_profile_url: known.github_profile_url,
                linkedin_profile_url: known.linkedin_profile_url,
                submission_repo_url: known.submission_repo_url,
                open_to_work: known.open_to_work,
                final_score: scoring.final_score.round(),
                expected_total: expected.total.round(),
                expected_legit_count: expected.legit_count.round(),
                expected_fraud_count: expected.fraud_count.round(),
                expected_edge_case_count: expected.edge_case_count.round(),
                failure_rate: scoring.failure_rate,
                weighted_errors: scoring.weighted_errors,
                error_rate_epsilon: scoring.error_rate_epsilon,
                p99_ms,
                true_positives: breakdown.true_positive_detections.round(),
                true_negatives: breakdown.true_negative_detections.round(),
                false_positives: breakdown.false_positive_detections.round(),
                false_negatives: breakdown.false_negative_detections.round(),
                http_errors: breakdown.http_errors.round(),
                cpu: Some(runtime_info.cpu),
                memory_mb: Some(runtime_info.mem),
                commit: Some(runtime_info.commit),
            },
        )
    }
}

/// Everything that the report states without rounding reaches the entry as it is: the error
/// rates, the failure rate, the machine and the commit.
pub proof fn law_entry_tells_the_report(
    entry: LeaderboardEntry,
    issue: GitHubIssue,
    result: BenchmarkResult,
    metadata: Option<SubmissionMetadata>,
)
    requires
        is_entry_of(entry, issue, result, metadata),
    ensures
        result.test_results.scoring.error_rate_epsilon is None <==> entry.error_rate_epsilon is None,
        result.test_results.scoring.weighted_errors is None <==> entry.weighted_errors is None,
        entry.error_rate_epsilon == result.test_results.scoring.error_rate_epsilon,
        entry.weighted_errors == result.test_results.scoring.weighted_errors,
        entry.failure_rate == result.test_results.scoring.failure_rate,
        entry.cpu == Some(result.runtime_info.cpu),
        entry.memory_mb == Some(result.runtime_info.mem),
        entry.commit == Some(result.runtime_info.commit),
{
}

/// `whole` is `number`, rounded to the nearest whole number, halves away from zero; out of
/// the range of an `i64` it is the bound on that side, and zero for what is not a number.
pub open spec fn rounds_to(number: Double, whole: i64) -> bool {
    let distance = number.value() - whole * one();
    if number.is_nan() {
        whole == 0
    } else if number.value() > i64::MAX * one() {
        whole == i64::MAX
    } else if number.value() < i64::MIN * one() {
        whole == i64::MIN
    } else {
        &&& -one() <= 2 * distance <= one()
        &&& 2 * distance == one() ==> number.value() < 0
        &&& 2 * distance == -one() ==> number.value() > 0
    }
}

/// A rounded number is the nearest whole one.
pub proof fn law_rounding_is_to_the_nearest(number: Double)
    ensures
        i64::MIN <= number.rounded() <= i64::MAX,
        rounds_to(number, number.rounded() as i64),
{
    lemma_pow2_pos(1074);
    let (p, q) = (number.size(), one());
    let n = nearest_up(p, q);
    lemma_fundamental_div_mod((2 * p + q) as int, (2 * q) as int);
    let rest = (2 * p + q) % (2 * q);
    assert(2 * p + q == (2 * q) * n + rest);
    assert((2 * q) * n == 2 * (n * q)) by (nonlinear_arith);
    assert(0 <= rest < 2 * q);
    let (top, bottom): (int, int) = (0x7fff_ffff_ffff_ffff, 0x8000_0000_0000_0000);
    if n > top {
        assert(n * q >= (top + 1) * q) by (nonlinear_arith)
            requires
                n > top,
                q > 0,
        ;
        assert((top + 1) * q == top * q + q) by (nonlinear_arith);
    } else {
        assert(n * q <= top * q) by (nonlinear_arith)
            requires
                n <= top,
                q > 0,
        ;
    }
    if n > bottom {
        assert(n * q >= (bottom + 1) * q) by (nonlinear_arith)
            requires
                n > bottom,
                q > 0,
        ;
        assert((bottom + 1) * q == bottom * q + q) by (nonlinear_arith);
    } else {
        assert(n * q <= bottom * q) by (nonlinear_arith)
            requires
                n <= bottom,
                q > 0,
        ;
    }
    assert((-(n as int)) * q == -(n * q)) by (nonlinear_arith);
    let whole = number.rounded();
    assert(whole * q == if number.is_nan() {
        0
    } else if number.negative() {
        if n > bottom {
            -(bottom * q)
        } else {
            -(n * q)
        }
    } else if n > top {
        top * q
    } else {
        (n * q) as int
    }) by {
        assert((-bottom) * q == -(bottom * q)) by (nonlinear_arith);
        assert(0 * q == 0);
    }
    let distance = number.value() - whole * q;
    if !number.is_nan() {
        if number.value() > i64::MAX * q {
            assert(n >= top) by (nonlinear_arith)
                requires
                    2 * p + q == 2 * (n * q) + rest,
                    0 <= rest < 2 * q,
                    p > top * q,
                    q > 0,
            ;
        } else if number.value() < i64::MIN * q {
            assert(n >= bottom) by (nonlinear_arith)
                requires
                    2 * p + q == 2 * (n * q) + rest,
                    0 <= rest < 2 * q,
                    p > bottom * q,
                    q > 0,
            ;
        } else {
            assert(-q <= 2 * distance <= q);
            if p == 0 {
                assert(n * q == 0) by (nonlinear_arith)
                    requires
                        q == 2 * (n * q) + rest,
                        0 <= rest < 2 * q,
                        q > 0,
                ;
            }
        }
    }
}

/// The score and the counts of the entry are those of the report, each rounded to the
/// nearest whole number.
pub proof fn law_entry_counts_are_rounded(
    entry: LeaderboardEntry,
    issue: GitHubIssue,
    result: BenchmarkResult,
    metadata: Option<SubmissionMetadata>,
)
    requires
        is_entry_of(entry, issue, result, metadata),
    ensures
        rounds_to(result.test_results.scoring.final_score, entry.final_score),
        rounds_to(result.test_results.expected.total, entry.expected_total),
        rounds_to(result.test_results.expected.legit_count, entry.expected_legit_count),
        rounds_to(result.test_results.expected.fraud_count, entry.expected_fraud_count),
        rounds_to(result.test_results.expected.edge_case_count, entry.expected_edge_case_count),
        rounds_to(
            result.test_results.scoring.breakdown.true_positive_detections,
            entry.true_positives,
        ),
        rounds_to(
            result.test_results.scoring.breakdown.true_negative_detections,
            entry.true_negatives,
        ),
        rounds_to(
            result.test_results.scoring.breakdown.false_positive_detections,
            entry.false_positives,
        ),
        rounds_to(
            result.test_results.scoring.breakdown.false_negative_detections,
            entry.false_negatives,
        ),
        rounds_to(result.test_results.scoring.breakdown.http_errors, entry.http_errors),
{
    let expected = result.test_results.expected;
    let scoring = result.test_results.scoring;
    law_rounding_is_to_the_nearest(scoring.final_score);
    law_rounding_is_to_the_nearest(expected.total);
    law_rounding_is_to_the_nearest(expected.legit_count);
    law_rounding_is_to_the_nearest(expected.fraud_count);
    law_rounding_is_to_the_nearest(expected.edge_case_count);
    law_rounding_is_to_the_nearest(scoring.breakdown.true_positive_detections);
    law_rounding_is_to_the_nearest(scoring.breakdown.true_negative_detections);
    law_rounding_is_to_the_nearest(scoring.breakdown.false_positive_detections);
    law_rounding_is_to_the_nearest(scoring.breakdown.false_negative_detections);
    law_rounding_is_to_the_nearest(scoring.breakdown.http_errors);
}

/// The entry is about the issue, and not yet ranked.
pub proof fn law_entry_is_about_the_issue(
    entry: LeaderboardEntry,
    issue: GitHubIssue,
    result: BenchmarkResult,
    metadata: Option<SubmissionMetadata>,
)
    requires
        is_entry_of(entry, issue, result, metadata),
    ensures
        entry.rank == 0,
        entry.username@ == issue.user.login@,
        entry.issue_number == issue.number,
        entry.issue_url@ == issue.html_url@,
        entry.issue_title@ == issue.title@,
        entry.created_at@ == issue.created_at@,
{
}

/// What is known of the submission reaches the entry as it is, and without it the entry
/// shows nothing of the kind.
pub proof fn law_entry_shows_the_submission(
    entry: LeaderboardEntry,
    issue: GitHubIssue,
    result: BenchmarkResult,
    metadata: Option<SubmissionMetadata>,
)
    requires
        is_entry_of(entry, issue, result, metadata),
    ensures
        metadata matches Some(known) ==> entry.participant_names@ == known.participant_names@
            && entry.participant_submission_id == known.participant_submission_id
            && entry.submission_stack@ == known.submission_stack@ && entry.github_profile_url
            == known.github_profile_url && entry.linkedin_profile_url == known.linkedin_profile_url
            && entry.submission_repo_url == known.submission_repo_url && entry.open_to_work
            == known.open_to_work,
        metadata is None ==> entry.participant_names@.len() == 0
            && entry.participant_submission_id is None && entry.submission_stack@.len() == 0
            && entry.github_profile_url is None && entry.linkedin_profile_url is None
            && entry.submission_repo_url is None && entry.open_to_work is None,
{
}

/// The text ends with the unit for milliseconds.
pub open spec fn has_unit(raw: Seq<char>) -> bool {
    raw.len() >= 2 && raw[raw.len() - 2] == 'm' && raw[raw.len() - 1] == 's'
}

/// The p99 of the entry is the number before the unit in the report; without the unit, or
/// without a number before it, there is none.
pub proof fn law_p99_is_the_number_before_its_unit(
    entry: LeaderboardEntry,
    issue: GitHubIssue,
    result: BenchmarkResult,
    metadata: Option<SubmissionMetadata>,
    stem: Seq<char>,
)
    requires
        is_entry_of(entry, issue, result, metadata),
    ensures
        result.test_results.p99@ == stem + seq!['m', 's'] ==> entry.p99_ms == number_of(stem),
        !has_unit(result.test_results.p99@) ==> entry.p99_ms is None,
{
    law_milliseconds_need_their_unit(result.test_results.p99@, stem);
}

/// A number of milliseconds is a number with `ms` right after it.
pub proof fn law_milliseconds_need_their_unit(raw: Seq<char>, stem: Seq<char>)
    ensures
        milliseconds(Some(stem + seq!['m', 's'])) == number_of(stem),
        !has_unit(raw) ==> milliseconds(Some(raw)) is None,
        milliseconds(None) is None,
{
    reveal_strlit("ms");
    assert("ms"@ =~= seq!['m', 's']);
    let whole = stem + seq!['m', 's'];
    assert(whole.skip(whole.len() - 2) =~= seq!['m', 's']);
    assert(whole.take(whole.len() - 2) =~= stem);
    if ends_with(raw, "ms"@) {
        assert(raw.skip(raw.len() - 2)[0] == 'm' && raw.skip(raw.len() - 2)[1] == 's');
    }
}

/// A field gives its number, or the number that its text states, and nothing else; only
/// where the number is optional may there be none.
pub proof fn law_numeric_fields(field: NumericField, number: Double)
    ensures
        numeric(field) == Ok::<Double, Seq<char>>(number) <==> field == NumericField::Number(
            Some(number),
        ) || (field matches NumericField::Text(raw) && number_of(raw@) == Some(number)),
        optional_numeric(field) == Ok::<Option<Double>, Seq<char>>(Some(number)) <==> numeric(field)
            == Ok::<Double, Seq<char>>(number),
        optional_numeric(field) == Ok::<Option<Double>, Seq<char>>(None) <==> field
            is Null,
        numeric(field) is Err ==> numeric(field)->Err_0 == (match field {
            NumericField::Number(_) => "invalid numeric value"@,
            NumericField::Text(_) => "invalid numeric string"@,
            _ => "expected numeric value"@,
        }),
        optional_numeric(field) is Err ==> numeric(field) is Err && optional_numeric(field)->Err_0
            == numeric(field)->Err_0,
{
}

} // verus!
