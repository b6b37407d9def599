//! Finding out what a participant's submission says about itself.

use crate::fetch::{fetch_policy, policy_of};
use crate::model::{
    AppError, HttpFetchPolicy, IssueSource, ParticipantSubmission, SourcedIssue, SubmissionInfo,
    SubmissionMetadata,
};
use crate::text::{decimal, decimal_of, opt_text, texts};
use crate::urls::{
    first_social_link, info_address, link_with, named_repository, participant_registry_url,
    registry_address, repository_address, sanitize_github_url, submission_info_url,
};
use vstd::prelude::*;

verus! {

/// The issue whose submission is looked for.
#[derive(Clone, Copy, Debug)]
pub struct MetadataLookup {
    pub number: u64,
    pub policy: HttpFetchPolicy,
}

/// What is to be done next.
#[derive(Clone, Debug)]
pub enum MetadataStep {
    /// Fetch the participant's list of repositories, if there is one, from this address.
    FetchParticipant(MetadataLookup, String),
    /// Fetch the submission's description, if there is one, from this address.
    FetchInfo(MetadataLookup, SubmissionMetadata, String),
    /// Nothing: this is what is known, and a remark on it.
    Finished(Option<SubmissionMetadata>, Option<String>),
    /// Nothing: the search has failed.
    Failed(AppError),
}

/// What is known of a submission, with texts by their characters.
#[verifier::ext_equal]
pub struct MetadataView {
    pub participant_names: Seq<Seq<char>>,
    pub participant_submission_id: Option<Seq<char>>,
    pub submission_stack: Seq<Seq<char>>,
    pub github_profile_url: Option<Seq<char>>,
    pub linkedin_profile_url: Option<Seq<char>>,
    pub submission_repo_url: Option<Seq<char>>,
    pub open_to_work: Option<bool>,
}

/// A step, with texts by their characters.
pub enum MetadataStepView {
    FetchParticipant(MetadataLookup, Seq<char>),
    FetchInfo(MetadataLookup, MetadataView, Seq<char>),
    Finished(Option<MetadataView>, Option<Seq<char>>),
    Failed(AppError),
}

impl View for SubmissionMetadata {
    type V = MetadataView;

    open spec fn view(&self) -> MetadataView {
        MetadataView {
            participant_names: texts(self.participant_names@),
            participant_submission_id: opt_text(self.participant_submission_id),
            submission_stack: texts(self.submission_stack@),
            github_profile_url: opt_text(self.github_profile_url),
            linkedin_profile_url: opt_text(self.linkedin_profile_url),
            submission_repo_url: opt_text(self.submission_repo_url),
            open_to_work: self.open_to_work,
        }
    }
}

impl View for MetadataStep {
    type V = MetadataStepView;

    open spec fn view(&self) -> MetadataStepView {
        match self {
            MetadataStep::FetchParticipant(lookup, url) => MetadataStepView::FetchParticipant(
                *lookup,
                url@,
            ),
            MetadataStep::FetchInfo(lookup, metadata, url) => MetadataStepView::FetchInfo(
                *lookup,
                metadata@,
                url@,
            ),
            MetadataStep::Finished(metadata, remark) => MetadataStepView::Finished(
                match metadata {
                    Some(metadata) => Some(metadata@),
                    None => None,
                },
                opt_text(*remark),
            ),
            MetadataStep::Failed(error) => MetadataStepView::Failed(*error),
        }
    }
}

/// What a registered repository alone tells.
pub open spec fn registered(submission: ParticipantSubmission) -> MetadataView {
    MetadataView {
        participant_names: Seq::empty(),
        participant_submission_id: Some(submission.id@),
        submission_stack: Seq::empty(),
        github_profile_url: None,
        linkedin_profile_url: None,
        submission_repo_url: match named_repository(submission.repo@) {
            Some((owner, repo)) => Some(repository_address(owner, repo)),
            None => None,
        },
        open_to_work: None,
    }
}

/// `metadata` with what the submission says about itself.
pub open spec fn described(metadata: MetadataView, info: SubmissionInfo) -> MetadataView {
    MetadataView {
        participant_names: texts(info.participants@),
        submission_stack: texts(info.stack@),
        open_to_work: info.open_to_work,
        github_profile_url: opt_text(link_with(info.social@, "github.com"@)),
        linkedin_profile_url: opt_text(link_with(info.social@, "linkedin.com"@)),
        ..metadata
    }
}

/// What is remarked on a repository that is not on GitHub.
pub open spec fn unsupported_remark(number: u64, repo: Seq<char>) -> Seq<char> {
    "leaderboard refresh: issue #"@ + decimal(number as nat)
        + " has unsupported submission repo URL "@ + repo
}

/// The first step of the search.
pub open spec fn first_inquiry(issue: SourcedIssue) -> MetadataStepView {
    MetadataStepView::FetchParticipant(
        MetadataLookup { number: issue.issue.number, policy: policy_of(issue.source) },
        registry_address(issue.issue.user.login@),
    )
}

/// The step after the register was asked. The first repository of the list counts.
pub open spec fn after_participant(
    lookup: MetadataLookup,
    reply: Result<Option<Seq<ParticipantSubmission>>, AppError>,
) -> MetadataStepView {
    match reply {
        Err(error) => MetadataStepView::Failed(error),
        Ok(None) => MetadataStepView::Finished(None, None),
        Ok(Some(list)) => if list.len() == 0 {
            MetadataStepView::Finished(None, None)
        } else {
            match named_repository(list[0].repo@) {
                None => MetadataStepView::Finished(
                    Some(registered(list[0])),
                    Some(unsupported_remark(lookup.number, list[0].repo@)),
                ),
                Some((owner, repo)) => MetadataStepView::FetchInfo(
                    lookup,
                    registered(list[0]),
                    info_address(owner, repo),
                ),
            }
        },
    }
}

/// The step after the description was asked for.
pub open spec fn after_info(
    metadata: MetadataView,
    reply: Result<Option<SubmissionInfo>, AppError>,
) -> MetadataStepView {
    match reply {
        Err(error) => MetadataStepView::Failed(error),
        Ok(None) => MetadataStepView::Finished(Some(metadata), None),
        Ok(Some(info)) => MetadataStepView::Finished(Some(described(metadata, info)), None),
    }
}

/// Begins to look for what is known of the submission behind an issue.
pub fn fetch_submission_metadata(issue: &SourcedIssue) -> (step: MetadataStep)
    ensures
        step@ == first_inquiry(*issue),
{
    MetadataStep::FetchParticipant(
        MetadataLookup { number: issue.issue.number, policy: fetch_policy(issue.source) },
        participant_registry_url(&issue.issue.user.login),
    )
}

/// The first repository of a list.
fn first_of(list: Vec<ParticipantSubmission>) -> (first: Option<ParticipantSubmission>)
    ensures
        match first {
            Some(submission) => list@.len() > 0 && submission == list@[0],
            None => list@.len() == 0,
        },
{
    let mut list = list;
    if list.len() == 0 {
        None
    } else {
        Some(list.remove(0))
    }
}

impl MetadataLookup {
    /// Goes on after the register was asked.
    pub fn on_participant(
        self,
        reply: Result<Option<Vec<ParticipantSubmission>>, AppError>,
    ) -> (step: MetadataStep)
        ensures
            step@ == after_participant(
                self,
                match reply {
                    Ok(Some(list)) => Ok(Some(list@)),
                    Ok(None) => Ok(None),
                    Err(error) => Err(error),
                },
            ),
    {
        let list = match reply {
            Err(error) => {
                return MetadataStep::Failed(error);
            },
            Ok(None) => {
                return MetadataStep::Finished(None, None);
            },
            Ok(Some(list)) => list,
        };
        let submission = match first_of(list) {
            None => {
                return MetadataStep::Finished(None, None);
            },
            Some(submission) => submission,
        };
        let mut metadata = SubmissionMetadata::default();
        metadata.participant_submission_id = Some(submission.id.clone());
        metadata.submission_repo_url = sanitize_github_url(&submission.repo);
        assert(metadata@ =~= registered(submission));
        match submission_info_url(&submission.repo) {
            Some(url) => MetadataStep::FetchInfo(self, metadata, url),
            None => {
                let mut remark = String::new();
                remark.append("leaderboard refresh: issue #");
                remark.append(&decimal_of(self.number));
                remark.append(" has unsupported submission repo URL ");
                remark.append(&submission.repo);
                assert(remark@ =~= unsupported_remark(self.number, submission.repo@));
                MetadataStep::Finished(Some(metadata), Some(remark))
            },
        }
    }

    /// Goes on after the description was asked for.
    pub fn on_info(
        self,
        metadata: SubmissionMetadata,
        reply: Result<Option<SubmissionInfo>, AppError>,
    ) -> (step: MetadataStep)
        ensures
            step@ == after_info(metadata@, reply),
    {
        match reply {
            Err(error) => MetadataStep::Failed(error),
            Ok(None) => MetadataStep::Finished(Some(metadata), None),
            Ok(Some(info)) => {
                let mut metadata = metadata;
                metadata.github_profile_url = first_social_link(&info.social, "github.com");
                metadata.linkedin_profile_url = first_social_link(&info.social, "linkedin.com");
                metadata.participant_names = info.participants;
                metadata.submission_stack = info.stack;
                metadata.open_to_work = info.open_to_work;
                MetadataStep::Finished(Some(metadata), None)
            },
        }
    }
}

/// A description changes neither the registered name of a submission nor the address
/// of its repository.
pub proof fn law_description_keeps_registration(
    submission: ParticipantSubmission,
    info: SubmissionInfo,
)
    ensures
        ({
            let known = described(registered(submission), info);
            &&& known.participant_submission_id == Some(submission.id@)
            &&& known.submission_repo_url == registered(submission).submission_repo_url
        }),
{
}

/// The search begins at the participant's own entry in the register, from the network first
/// where the page of the issue is fresh.
pub proof fn law_search_begins_at_the_register(issue: SourcedIssue)
    ensures
        first_inquiry(issue) matches MetadataStepView::FetchParticipant(lookup, url)
            && lookup.number == issue.issue.number && url == registry_address(
            issue.issue.user.login@,
        ) && (lookup.policy == HttpFetchPolicy::NetworkFirst <==> issue.source
            == IssueSource::Fresh),
{
}

/// Somebody who is not registered, or registered nothing, has no metadata.
pub proof fn law_unregistered_is_unknown(lookup: MetadataLookup, error: AppError)
    ensures
        after_participant(lookup, Ok(None)) == MetadataStepView::Finished(None, None),
        after_participant(lookup, Ok(Some(Seq::empty()))) == MetadataStepView::Finished(None, None),
        after_participant(lookup, Err(error)) == MetadataStepView::Failed(error),
{
}

/// What is known of a repository that is registered and not yet described: its name in the
/// register, and its plain address where it is on GitHub.
pub open spec fn knows_registration(known: MetadataView, submission: ParticipantSubmission) -> bool {
    &&& known.participant_submission_id == Some(submission.id@)
    &&& known.participant_names.len() == 0
    &&& known.submission_stack.len() == 0
    &&& known.github_profile_url is None
    &&& known.linkedin_profile_url is None
    &&& known.open_to_work is None
    &&& match named_repository(submission.repo@) {
        Some((owner, repo)) => known.submission_repo_url == Some(
            "https://github.com/"@ + owner + "/"@ + repo,
        ),
        None => known.submission_repo_url is None,
    }
}

/// The first registered repository is the one that counts. Where it is on GitHub its
/// description is fetched; where it is not, what is known is all there is, and is remarked on.
/// The repositories after the first make no difference.
pub proof fn law_first_repository_counts(
    lookup: MetadataLookup,
    list: Seq<ParticipantSubmission>,
    more: Seq<ParticipantSubmission>,
)
    requires
        list.len() > 0,
    ensures
        after_participant(lookup, Ok(Some(list + more))) == after_participant(
            lookup,
            Ok(Some(list)),
        ),
        match named_repository(list[0].repo@) {
            Some((owner, repo)) => after_participant(
                lookup,
                Ok(Some(list)),
            ) matches MetadataStepView::FetchInfo(next, known, url) && next == lookup && url
                == info_address(owner, repo) && knows_registration(known, list[0]),
            None => after_participant(lookup, Ok(Some(list))) matches MetadataStepView::Finished(
                Some(known),
                remark,
            ) && knows_registration(known, list[0]) && remark == Some(
                "leaderboard refresh: issue #"@ + decimal(lookup.number as nat)
                    + " has unsupported submission repo URL "@ + list[0].repo@,
            ),
        },
{
    assert((list + more)[0] == list[0]);
}

/// A description that is missing leaves what is known, and one that is there adds to it the
/// participants, the stack, whether they look for work, and the first links that mention the
/// two sites.
pub proof fn law_description_is_taken_over(
    known: MetadataView,
    info: SubmissionInfo,
    error: AppError,
)
    ensures
        after_info(known, Err(error)) == MetadataStepView::Failed(error),
        after_info(known, Ok(None)) == MetadataStepView::Finished(Some(known), None),
        after_info(known, Ok(Some(info))) matches MetadataStepView::Finished(Some(now), remark)
            && remark is None && now.participant_names == texts(info.participants@)
            && now.submission_stack == texts(info.stack@) && now.open_to_work == info.open_to_work
            && now.github_profile_url == opt_text(link_with(info.social@, "github.com"@))
            && now.linkedin_profile_url == opt_text(link_with(info.social@, "linkedin.com"@))
            && now.participant_submission_id == known.participant_submission_id
            && now.submission_repo_url == known.submission_repo_url,
{
}

/// The model of what is known, and of a step, leaves nothing out.
pub proof fn law_model_shows_the_inquiry(known: SubmissionMetadata, step: MetadataStep)
    ensures
        known@.participant_names == texts(known.participant_names@),
        known@.participant_submission_id == opt_text(known.participant_submission_id),
        known@.submission_stack == texts(known.submission_stack@),
        known@.github_profile_url == opt_text(known.github_profile_url),
        known@.linkedin_profile_url == opt_text(known.linkedin_profile_url),
        known@.submission_repo_url == opt_text(known.submission_repo_url),
        known@.open_to_work == known.open_to_work,
        step matches MetadataStep::FetchParticipant(lookup, url) ==> step@
            == MetadataStepView::FetchParticipant(lookup, url@),
        step matches MetadataStep::FetchInfo(lookup, metadata, url) ==> step@
            == MetadataStepView::FetchInfo(lookup, metadata@, url@),
        step matches MetadataStep::Finished(metadata, remark) ==> (
        step@ matches MetadataStepView::Finished(seen, line) && line == opt_text(remark) && (
        metadata is Some <==> seen is Some) && (metadata is Some ==> seen == Some(metadata->0@))),
        step matches MetadataStep::Failed(error) ==> step@ == MetadataStepView::Failed(error),
{
}

} // verus!
