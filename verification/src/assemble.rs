//! Assembling the leaderboard from the issues, one after the other.

use crate::entry::is_entry_of;
use crate::model::{
    AppError, BenchmarkResult, LeaderboardEntry, SourcedIssue, SubmissionMetadata,
};
use crate::ranking::{leaderboard_of, rank_results};
use crate::standings::{law_one_entry_per_user, law_scores_fall_from_rank_to_rank, lists};
use vstd::prelude::*;

verus! {

/// A leaderboard that is being assembled.
#[derive(Clone, Debug)]
pub struct Assembly {
    /// The issues that are yet to come, the next one last.
    pub pending: Vec<SourcedIssue>,
    /// The entries so far.
    pub entries: Vec<LeaderboardEntry>,
}

/// What is to be done next.
#[derive(Clone, Debug)]
pub enum AssemblyStep {
    /// Look for the result of the issue.
    FetchResult(Assembly, SourcedIssue),
    /// Look for what is known of the submission behind the issue, which has this result.
    FetchMetadata(Assembly, SourcedIssue, BenchmarkResult),
    /// Nothing: this is the leaderboard.
    Finished(Vec<LeaderboardEntry>),
    /// Nothing: the leaderboard cannot be assembled.
    Failed(AppError),
}

/// What an assembly holds: the issues to come, the next one first, and the entries so far.
#[verifier::ext_equal]
pub struct AssemblyView {
    pub pending: Seq<SourcedIssue>,
    pub entries: Seq<LeaderboardEntry>,
}

/// A step, with lists as sequences.
#[verifier::ext_equal]
pub enum AssemblyStepView {
    FetchResult(AssemblyView, SourcedIssue),
    FetchMetadata(AssemblyView, SourcedIssue, BenchmarkResult),
    Finished(Seq<LeaderboardEntry>),
    Failed(AppError),
}

impl View for Assembly {
    type V = AssemblyView;

    open spec fn view(&self) -> AssemblyView {
        AssemblyView { pending: self.pending@.reverse(), entries: self.entries@ }
    }
}

impl View for AssemblyStep {
    type V = AssemblyStepView;

    open spec fn view(&self) -> AssemblyStepView {
        match self {
            AssemblyStep::FetchResult(assembly, issue) => AssemblyStepView::FetchResult(
                assembly@,
                *issue,
            ),
            AssemblyStep::FetchMetadata(assembly, issue, result) => AssemblyStepView::FetchMetadata(
                assembly@,
                *issue,
                *result,
            ),
            AssemblyStep::Finished(leaderboard) => AssemblyStepView::Finished(leaderboard@),
            AssemblyStep::Failed(error) => AssemblyStepView::Failed(*error),
        }
    }
}

/// The step towards the next issue; after the last one the entries are ranked.
pub open spec fn next_issue(assembly: AssemblyView) -> AssemblyStepView {
    if assembly.pending.len() == 0 {
        AssemblyStepView::Finished(leaderboard_of(assembly.entries))
    } else {
        AssemblyStepView::FetchResult(
            AssemblyView { pending: assembly.pending.drop_first(), ..assembly },
            assembly.pending[0],
        )
    }
}

/// The step after the issues were listed.
pub open spec fn after_issues(reply: Result<Seq<SourcedIssue>, AppError>) -> AssemblyStepView {
    match reply {
        Err(error) => AssemblyStepView::Failed(error),
        Ok(issues) => next_issue(AssemblyView { pending: issues, entries: Seq::empty() }),
    }
}

/// The step after the result of an issue was looked for. An issue without one is passed over.
pub open spec fn after_result(
    assembly: AssemblyView,
    issue: SourcedIssue,
    reply: Result<Option<BenchmarkResult>, AppError>,
) -> AssemblyStepView {
    match reply {
        Err(error) => AssemblyStepView::Failed(error),
        Ok(None) => next_issue(assembly),
        Ok(Some(result)) => AssemblyStepView::FetchMetadata(assembly, issue, result),
    }
}

/// `step` is the step after the submission behind an issue was looked for: the entry of
/// the issue has joined the entries.
pub open spec fn after_metadata(
    assembly: AssemblyView,
    issue: SourcedIssue,
    result: BenchmarkResult,
    reply: Result<Option<SubmissionMetadata>, AppError>,
    step: AssemblyStepView,
) -> bool {
    match reply {
        Err(error) => step == AssemblyStepView::Failed(error),
        Ok(metadata) => exists|entry: LeaderboardEntry| #[trigger]
            is_entry_of(entry, issue.issue, result, metadata) && step == next_issue(
                AssemblyView { entries: assembly.entries.push(entry), ..assembly },
            ),
    }
}

/// Begins to assemble the leaderboard, from the closed issues.
pub fn leaderboard(reply: Result<Vec<SourcedIssue>, AppError>) -> (step: AssemblyStep)
    ensures
        step@ == after_issues(
            match reply {
                Ok(issues) => Ok(issues@),
                Err(error) => Err(error),
            },
        ),
{
    match reply {
        Err(error) => AssemblyStep::Failed(error),
        Ok(issues) => {
            let ghost all = issues@;
            let mut rest = issues;
            let mut pending: Vec<SourcedIssue> = Vec::new();
            while rest.len() > 0
                invariant
                    rest@.len() + pending@.len() == all.len(),
                    rest@ == all.take(rest@.len() as int),
                    forall|i: int|
                        0 <= i < pending@.len() ==> pending@[i] == all[all.len() - 1 - i],
                decreases rest@.len(),
            {
                match rest.pop() {
                    Some(issue) => pending.push(issue),
                    None => {},
                }
            }
            let assembly = Assembly { pending, entries: Vec::new() };
            assert(assembly.pending@.reverse() =~= all);
            assert(assembly.entries@ =~= Seq::<LeaderboardEntry>::empty());
            assembly.advance()
        },
    }
}

impl Assembly {
    /// Goes to the next issue.
    fn advance(self) -> (step: AssemblyStep)
        ensures
            step@ == next_issue(self@),
    {
        let mut assembly = self;
        match assembly.pending.pop() {
            None => AssemblyStep::Finished(rank_results(assembly.entries)),
            Some(issue) => {
                assert(self.pending@.reverse()[0] == issue);
                assert(self.pending@.reverse().drop_first() =~= assembly.pending@.reverse());
                AssemblyStep::FetchResult(assembly, issue)
            },
        }
    }

    /// Goes on after the result of the issue was looked for.
    pub fn on_result(
        self,
        issue: SourcedIssue,
        reply: Result<Option<BenchmarkResult>, AppError>,
    ) -> (step: AssemblyStep)
        ensures
            step@ == after_result(self@, issue, reply),
    {
        match reply {
            Err(error) => AssemblyStep::Failed(error),
            Ok(None) => self.advance(),
            Ok(Some(result)) => AssemblyStep::FetchMetadata(self, issue, result),
        }
    }

    /// Goes on after the submission behind the issue was looked for.
    pub fn on_metadata(
        self,
        issue: SourcedIssue,
        result: BenchmarkResult,
        reply: Result<Option<SubmissionMetadata>, AppError>,
    ) -> (step: AssemblyStep)
        ensures
            after_metadata(self@, issue, result, reply, step@),
    {
        match reply {
            Err(error) => AssemblyStep::Failed(error),
            Ok(metadata) => {
                let mut assembly = self;
                if let Some(entry) = LeaderboardEntry::from_issue_result(
                    &issue.issue,
                    result,
                    metadata,
                ) {
                    assembly.entries.push(entry);
                    assert(is_entry_of(entry, issue.issue, result, metadata));
                }
                assembly.advance()
            },
        }
    }
}

/// What became of an issue: its result and what is known of its submission, if it has any.
pub struct Outcome {
    pub issue: SourcedIssue,
    pub result: Option<(BenchmarkResult, Option<SubmissionMetadata>)>,
}

/// The entries are those of the outcomes with a result, in that order.
pub open spec fn entries_of(entries: Seq<LeaderboardEntry>, outcomes: Seq<Outcome>) -> bool
    decreases outcomes.len(),
{
    if outcomes.len() == 0 {
        entries.len() == 0
    } else {
        let last = outcomes.last();
        match last.result {
            None => entries_of(entries, outcomes.drop_last()),
            Some((result, metadata)) => entries.len() > 0 && is_entry_of(
                entries.last(),
                last.issue.issue,
                result,
                metadata,
            ) && entries_of(entries.drop_last(), outcomes.drop_last()),
        }
    }
}

/// The step has come about through these outcomes, out of these issues.
pub open spec fn accounts_for(
    step: AssemblyStepView,
    issues: Seq<SourcedIssue>,
    outcomes: Seq<Outcome>,
) -> bool {
    let done = Seq::new(outcomes.len(), |i: int| outcomes[i].issue);
    match step {
        AssemblyStepView::FetchResult(assembly, issue) => {
            &&& entries_of(assembly.entries, outcomes)
            &&& issues == done.push(issue) + assembly.pending
        },
        AssemblyStepView::FetchMetadata(assembly, issue, _) => {
            &&& entries_of(assembly.entries, outcomes)
            &&& issues == done.push(issue) + assembly.pending
        },
        AssemblyStepView::Finished(leaderboard) => {
            &&& issues == done
            &&& exists|entries: Seq<LeaderboardEntry>| #[trigger]
                entries_of(entries, outcomes) && leaderboard == leaderboard_of(entries)
        },
        AssemblyStepView::Failed(_) => true,
    }
}

proof fn lemma_next_accounts(
    assembly: AssemblyView,
    issues: Seq<SourcedIssue>,
    outcomes: Seq<Outcome>,
)
    requires
        entries_of(assembly.entries, outcomes),
        issues == Seq::new(outcomes.len(), |i: int| outcomes[i].issue) + assembly.pending,
    ensures
        accounts_for(next_issue(assembly), issues, outcomes),
{
    let done = Seq::new(outcomes.len(), |i: int| outcomes[i].issue);
    if assembly.pending.len() == 0 {
        assert(issues =~= done);
    } else {
        assert(issues =~= done.push(assembly.pending[0]) + assembly.pending.drop_first());
    }
}

/// At the beginning no issue has an outcome yet.
pub proof fn law_beginning_accounts(issues: Seq<SourcedIssue>)
    ensures
        accounts_for(after_issues(Ok(issues)), issues, Seq::empty()),
{
    let done = Seq::new(0, |i: int| Seq::<Outcome>::empty()[i].issue);
    assert(issues =~= done + issues);
    assert(Seq::new(Seq::<Outcome>::empty().len(), |i: int| Seq::<Outcome>::empty()[i].issue)
        =~= done);
    lemma_next_accounts(
        AssemblyView { pending: issues, entries: Seq::empty() },
        issues,
        Seq::empty(),
    );
}

/// Every issue is looked at once, in order: an issue without a result only adds that
/// outcome, and one with a result stays the current one.
pub proof fn law_result_accounts(
    assembly: AssemblyView,
    issue: SourcedIssue,
    reply: Result<Option<BenchmarkResult>, AppError>,
    issues: Seq<SourcedIssue>,
    outcomes: Seq<Outcome>,
)
    requires
        accounts_for(AssemblyStepView::FetchResult(assembly, issue), issues, outcomes),
    ensures
        accounts_for(
            after_result(assembly, issue, reply),
            issues,
            if reply == Ok::<Option<BenchmarkResult>, AppError>(None) {
                outcomes.push(Outcome { issue, result: None })
            } else {
                outcomes
            },
        ),
{
    if reply matches Ok(None) {
        let more = outcomes.push(Outcome { issue, result: None });
        lemma_more(outcomes, Outcome { issue, result: None });
        lemma_next_accounts(assembly, issues, more);
    }
}

/// An issue with a result adds its entry, and the next issue follows.
pub proof fn law_metadata_accounts(
    assembly: AssemblyView,
    issue: SourcedIssue,
    result: BenchmarkResult,
    reply: Result<Option<SubmissionMetadata>, AppError>,
    step: AssemblyStepView,
    issues: Seq<SourcedIssue>,
    outcomes: Seq<Outcome>,
)
    requires
        accounts_for(AssemblyStepView::FetchMetadata(assembly, issue, result), issues, outcomes),
        after_metadata(assembly, issue, result, reply, step),
    ensures
        match reply {
            Ok(metadata) => accounts_for(
                step,
                issues,
                outcomes.push(Outcome { issue, result: Some((result, metadata)) }),
            ),
            Err(error) => step == AssemblyStepView::Failed(error),
        },
{
    if let Ok(metadata) = reply {
        let entry = choose|entry: LeaderboardEntry| #[trigger]
            is_entry_of(entry, issue.issue, result, metadata) && step == next_issue(
                AssemblyView { entries: assembly.entries.push(entry), ..assembly },
            );
        let outcome = Outcome { issue, result: Some((result, metadata)) };
        lemma_more(outcomes, outcome);
        assert(assembly.entries.push(entry).drop_last() =~= assembly.entries);
        lemma_next_accounts(
            AssemblyView { entries: assembly.entries.push(entry), ..assembly },
            issues,
            outcomes.push(outcome),
        );
    }
}

proof fn lemma_more(outcomes: Seq<Outcome>, outcome: Outcome)
    ensures
        outcomes.push(outcome).drop_last() == outcomes,
        Seq::new(outcomes.push(outcome).len(), |i: int| outcomes.push(outcome)[i].issue)
            == Seq::new(outcomes.len(), |i: int| outcomes[i].issue).push(outcome.issue),
{
    assert(outcomes.push(outcome).drop_last() =~= outcomes);
    assert(Seq::new(outcomes.push(outcome).len(), |i: int| outcomes.push(outcome)[i].issue)
        =~= Seq::new(outcomes.len(), |i: int| outcomes[i].issue).push(outcome.issue));
}

/// `user` opened an issue that has a result.
pub open spec fn has_result(outcomes: Seq<Outcome>, user: Seq<char>) -> bool {
    exists|i: int|
        0 <= i < outcomes.len() && (#[trigger] outcomes[i]).result is Some
            && outcomes[i].issue.issue.user.login@ == user
}

proof fn lemma_entries_users(
    entries: Seq<LeaderboardEntry>,
    outcomes: Seq<Outcome>,
    user: Seq<char>,
)
    requires
        entries_of(entries, outcomes),
    ensures
        lists(entries, user) <==> has_result(outcomes, user),
    decreases outcomes.len(),
{
    if outcomes.len() > 0 {
        let front = outcomes.drop_last();
        let last = outcomes.last();
        let earlier = if last.result is Some {
            entries.drop_last()
        } else {
            entries
        };
        lemma_entries_users(earlier, front, user);
        if lists(entries, user) {
            let i = choose|i: int|
                0 <= i < entries.len() && (#[trigger] entries[i]).username@ == user;
            if i < earlier.len() {
                assert(earlier[i].username@ == user);
                let k = choose|k: int|
                    0 <= k < front.len() && (#[trigger] front[k]).result is Some
                        && front[k].issue.issue.user.login@ == user;
                assert(outcomes[k].result is Some);
            } else {
                assert(outcomes[outcomes.len() - 1].result is Some);
            }
        }
        if has_result(outcomes, user) {
            let k = choose|k: int|
                0 <= k < outcomes.len() && (#[trigger] outcomes[k]).result is Some
                    && outcomes[k].issue.issue.user.login@ == user;
            if k < front.len() {
                assert(front[k].result is Some);
                let i = choose|i: int|
                    0 <= i < earlier.len() && (#[trigger] earlier[i]).username@ == user;
                assert(entries[i].username@ == user);
            } else {
                assert(entries[entries.len() - 1].username@ == user);
            }
        }
    }
}

/// When the leaderboard is finished, those and only those are on it who opened an
/// issue that has a result.
pub proof fn law_results_are_listed(
    leaderboard: Seq<LeaderboardEntry>,
    issues: Seq<SourcedIssue>,
    outcomes: Seq<Outcome>,
    user: Seq<char>,
)
    requires
        accounts_for(AssemblyStepView::Finished(leaderboard), issues, outcomes),
    ensures
        lists(leaderboard, user) <==> has_result(outcomes, user),
{
    let entries = choose|entries: Seq<LeaderboardEntry>| #[trigger]
        entries_of(entries, outcomes) && leaderboard == leaderboard_of(entries);
    lemma_entries_users(entries, outcomes, user);
    law_one_entry_per_user(entries);
    assert(lists(entries, user) <==> lists(leaderboard, user));
}

/// The assembly fails just where a part of it does, with that failure.
pub proof fn law_assembly_fails_with_its_parts(
    assembly: AssemblyView,
    issue: SourcedIssue,
    result: BenchmarkResult,
    issues: Result<Seq<SourcedIssue>, AppError>,
    found: Result<Option<BenchmarkResult>, AppError>,
    known: Result<Option<SubmissionMetadata>, AppError>,
    step: AssemblyStepView,
    error: AppError,
)
    ensures
        after_issues(issues) == AssemblyStepView::Failed(error) <==> issues == Err::<
            Seq<SourcedIssue>,
            AppError,
        >(error),
        after_result(assembly, issue, found) == AssemblyStepView::Failed(error) <==> found == Err::<
            Option<BenchmarkResult>,
            AppError,
        >(error),
        after_metadata(assembly, issue, result, known, step) && step == AssemblyStepView::Failed(
            error,
        ) ==> known == Err::<Option<SubmissionMetadata>, AppError>(error),
        after_metadata(assembly, issue, result, known, step) && known == Err::<
            Option<SubmissionMetadata>,
            AppError,
        >(error) ==> step == AssemblyStepView::Failed(error),
{
}

/// An issue with a result is asked about next, with all that was gathered so far; one
/// without is passed over, and the next issue in line follows.
pub proof fn law_next_step_of_assembly(
    assembly: AssemblyView,
    issue: SourcedIssue,
    result: BenchmarkResult,
)
    ensures
        after_result(assembly, issue, Ok(Some(result))) == AssemblyStepView::FetchMetadata(
            assembly,
            issue,
            result,
        ),
        assembly.pending.len() > 0 ==> (after_result(
            assembly,
            issue,
            Ok(None),
        ) matches AssemblyStepView::FetchResult(next, following) && following
            == assembly.pending[0] && next.pending == assembly.pending.drop_first() && next.entries
            == assembly.entries),
        assembly.pending.len() == 0 ==> after_result(assembly, issue, Ok(None))
            == AssemblyStepView::Finished(leaderboard_of(assembly.entries)),
{
}

/// When the leaderboard is finished nobody is ranked before somebody with a higher score,
/// and nobody is on it twice.
pub proof fn law_finished_leaderboard(
    leaderboard: Seq<LeaderboardEntry>,
    issues: Seq<SourcedIssue>,
    outcomes: Seq<Outcome>,
    i: int,
    j: int,
)
    requires
        accounts_for(AssemblyStepView::Finished(leaderboard), issues, outcomes),
        0 <= i < j < leaderboard.len(),
    ensures
        leaderboard[i].final_score >= leaderboard[j].final_score,
        leaderboard[i].username@ != leaderboard[j].username@,
{
    let entries = choose|entries: Seq<LeaderboardEntry>| #[trigger]
        entries_of(entries, outcomes) && leaderboard == leaderboard_of(entries);
    law_scores_fall_from_rank_to_rank(entries, i, j);
    law_one_entry_per_user(entries);
}

/// The model of an assembly and of its steps leaves nothing out: all entries, in order, and
/// all issues that are yet to come, the next one first.
pub proof fn law_model_shows_the_assembly(assembly: Assembly, step: AssemblyStep)
    ensures
        assembly@.entries == assembly.entries@,
        assembly@.pending.len() == assembly.pending@.len(),
        forall|i: int|
            0 <= i < assembly.pending@.len() ==> #[trigger] assembly@.pending[i]
                == assembly.pending@[assembly.pending@.len() - 1 - i],
        step matches AssemblyStep::FetchResult(assembly, issue) ==> step@
            == AssemblyStepView::FetchResult(assembly@, issue),
        step matches AssemblyStep::FetchMetadata(assembly, issue, result) ==> step@
            == AssemblyStepView::FetchMetadata(assembly@, issue, result),
        step matches AssemblyStep::Finished(leaderboard) ==> step@ == AssemblyStepView::Finished(
            leaderboard@,
        ),
        step matches AssemblyStep::Failed(error) ==> step@ == AssemblyStepView::Failed(error),
{
}

} // verus!
