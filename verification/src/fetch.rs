//! Getting one document, from the cache or from the network.
//!
//! A fetch is a sequence of steps. The caller carries out each step and hands its
//! outcome back, and gets the next step, until the fetch is finished or has failed.

use crate::model::{AppError, HttpFetchPolicy, IssueSource};
use crate::text::{begins_with, ends_with, law_beginnings_and_ends};
use vstd::prelude::*;

verus! {

/// A fetch that is under way.
#[derive(Clone, Debug)]
pub struct JsonFetch {
    /// Where the document is.
    pub url: String,
    pub policy: HttpFetchPolicy,
    /// The document need not exist.
    pub optional: bool,
    /// Why the network did not deliver, where the cache is asked in its place.
    pub failure: Option<AppError>,
}

/// What is to be done next.
#[derive(Clone, Debug)]
pub enum FetchStep {
    /// Look the document up in the cache.
    ReadCache(JsonFetch),
    /// Ask the network for the document.
    FetchNetwork(JsonFetch),
    /// Put the document into the cache.
    WriteCache(JsonFetch, String),
    /// Nothing: this is the document, or there is none.
    Finished(Option<String>),
    /// Nothing: the fetch has failed.
    Failed(AppError),
}

/// How documents about an issue are fetched: as freshly as the page that lists it.
pub open spec fn policy_of(source: IssueSource) -> HttpFetchPolicy {
    match source {
        IssueSource::Fresh => HttpFetchPolicy::NetworkFirst,
        IssueSource::Cached => HttpFetchPolicy::CacheFirst,
    }
}

/// The first step of a fetch.
pub open spec fn first_step(url: String, policy: HttpFetchPolicy, optional: bool) -> FetchStep {
    let fetch = JsonFetch { url, policy, optional, failure: None };
    match policy {
        HttpFetchPolicy::CacheFirst => FetchStep::ReadCache(fetch),
        HttpFetchPolicy::NetworkFirst => FetchStep::FetchNetwork(fetch),
    }
}

/// The step after the cache was read.
pub open spec fn after_cache(
    fetch: JsonFetch,
    reply: Result<Option<String>, AppError>,
) -> FetchStep {
    match reply {
        Err(error) => FetchStep::Failed(error),
        Ok(Some(body)) => FetchStep::Finished(Some(body)),
        Ok(None) => match fetch.failure {
            Some(error) => FetchStep::Failed(error),
            None => FetchStep::FetchNetwork(fetch),
        },
    }
}

/// The step after the network has answered. Where the network failed, only a document
/// that must exist is looked for in the cache, and only if the cache was not asked first.
pub open spec fn after_network(
    fetch: JsonFetch,
    reply: Result<Option<String>, AppError>,
) -> FetchStep {
    match reply {
        Ok(Some(body)) => FetchStep::WriteCache(fetch, body),
        Ok(None) => FetchStep::Finished(None),
        Err(error) => if fetch.policy == HttpFetchPolicy::NetworkFirst && !fetch.optional {
            FetchStep::ReadCache(JsonFetch { failure: Some(error), ..fetch })
        } else {
            FetchStep::Failed(error)
        },
    }
}

/// The step after the cache was written.
pub open spec fn after_write(body: String, reply: Result<(), AppError>) -> FetchStep {
    match reply {
        Ok(_) => FetchStep::Finished(Some(body)),
        Err(error) => FetchStep::Failed(error),
    }
}

/// How documents about an issue are fetched.
pub fn fetch_policy(source: IssueSource) -> (policy: HttpFetchPolicy)
    ensures
        policy == policy_of(source),
{
    match source {
        IssueSource::Fresh => HttpFetchPolicy::NetworkFirst,
        IssueSource::Cached => HttpFetchPolicy::CacheFirst,
    }
}

/// Begins to fetch a document that must exist.
pub fn get_json_with_policy(url: String, policy: HttpFetchPolicy) -> (step: FetchStep)
    ensures
        step == first_step(url, policy, false),
{
    begin(url, policy, false)
}

/// Begins to fetch a document that need not exist.
pub fn get_optional_json_with_policy(url: String, policy: HttpFetchPolicy) -> (step: FetchStep)
    ensures
        step == first_step(url, policy, true),
{
    begin(url, policy, true)
}

fn begin(url: String, policy: HttpFetchPolicy, optional: bool) -> (step: FetchStep)
    ensures
        step == first_step(url, policy, optional),
{
    let fetch = JsonFetch { url, policy, optional, failure: None };
    match policy {
        HttpFetchPolicy::CacheFirst => FetchStep::ReadCache(fetch),
        HttpFetchPolicy::NetworkFirst => FetchStep::FetchNetwork(fetch),
    }
}

impl JsonFetch {
    /// Goes on after the cache was read.
    pub fn on_cache(self, reply: Result<Option<String>, AppError>) -> (step: FetchStep)
        ensures
            step == after_cache(self, reply),
    {
        match reply {
            Err(error) => FetchStep::Failed(error),
            Ok(Some(body)) => FetchStep::Finished(Some(body)),
            Ok(None) => match self.failure {
                Some(error) => FetchStep::Failed(error),
                None => FetchStep::FetchNetwork(
                    JsonFetch {
                        url: self.url,
                        policy: self.policy,
                        optional: self.optional,
                        failure: None,
                    },
                ),
            },
        }
    }

    /// Goes on after the network has answered: with the document, with nothing where an
    /// optional document does not exist, or with a failure.
    pub fn on_network(self, reply: Result<Option<String>, AppError>) -> (step: FetchStep)
        ensures
            step == after_network(self, reply),
    {
        match reply {
            Ok(Some(body)) => FetchStep::WriteCache(self, body),
            Ok(None) => FetchStep::Finished(None),
            Err(error) => if self.policy == HttpFetchPolicy::NetworkFirst && !self.optional {
                FetchStep::ReadCache(
                    JsonFetch {
                        url: self.url,
                        policy: self.policy,
                        optional: self.optional,
                        failure: Some(error),
                    },
                )
            } else {
                FetchStep::Failed(error)
            },
        }
    }

    /// Goes on after the document was put into the cache.
    pub fn on_written(self, body: String, reply: Result<(), AppError>) -> (step: FetchStep)
        ensures
            step == after_write(body, reply),
    {
        match reply {
            Ok(_) => FetchStep::Finished(Some(body)),
            Err(error) => FetchStep::Failed(error),
        }
    }
}

/// The status code stands for success.
pub open spec fn is_success(status: u16) -> bool {
    200 <= status < 300
}

/// What the status says of a document that need not exist: that it is there, that it is
/// not, or nothing.
pub open spec fn existence(status: u16) -> Option<bool> {
    if status == 404 {
        Some(false)
    } else if is_success(status) {
        Some(true)
    } else {
        None
    }
}

/// What is said of an answer that is no success.
pub open spec fn refusal_text(status_text: Seq<char>, url: Seq<char>) -> Seq<char> {
    "GitHub returned "@ + status_text + " for "@ + url
}

fn refusal(status_text: &str, url: &str) -> (error: AppError)
    ensures
        error is Upstream,
        error.text() == refusal_text(status_text@, url@),
{
    let mut message = String::new();
    message.append("GitHub returned ");
    message.append(status_text);
    message.append(" for ");
    message.append(url);
    assert(message@ =~= refusal_text(status_text@, url@));
    AppError::Upstream(message)
}

/// The failure of a request that got no answer.
pub fn request_failure(detail: &str) -> (error: AppError)
    ensures
        error is Upstream,
        error.text() == "GitHub request failed"@ + ": "@ + detail@,
{
    AppError::upstream("GitHub request failed", detail)
}

/// The failure to read an answer.
pub fn read_failure(detail: &str) -> (error: AppError)
    ensures
        error is Upstream,
        error.text() == "GitHub response read failed"@ + ": "@ + detail@,
{
    AppError::upstream("GitHub response read failed", detail)
}

/// The failure to make sense of a document.
pub fn decode_failure(detail: &str) -> (error: AppError)
    ensures
        error is Upstream,
        error.text() == "GitHub JSON decode failed"@ + ": "@ + detail@,
{
    AppError::upstream("GitHub JSON decode failed", detail)
}

/// Judges the status of an answer to a request for a document that must exist.
pub fn fetch_body_from_network(status: u16, status_text: &str, url: &str) -> (verdict: Result<
    (),
    AppError,
>)
    ensures
        match verdict {
            Ok(_) => is_success(status),
            Err(error) => !is_success(status) && error is Upstream && error.text() == refusal_text(
                status_text@,
                url@,
            ),
        },
{
    if 200 <= status && status < 300 {
        Ok(())
    } else {
        Err(refusal(status_text, url))
    }
}

/// Judges the status of an answer to a request for a document that need not exist:
/// whether it exists.
pub fn fetch_optional_body_from_network(status: u16, status_text: &str, url: &str) -> (verdict:
    Result<bool, AppError>)
    ensures
        match verdict {
            Ok(exists) => if exists {
                is_success(status)
            } else {
                status == 404
            },
            Err(error) => status != 404 && !is_success(status) && error is Upstream && error.text()
                == refusal_text(status_text@, url@),
        },
        match verdict {
            Ok(exists) => existence(status) == Some(exists),
            Err(_) => existence(status) is None,
        },
{
    if status == 404 {
        return Ok(false);
    }
    match fetch_body_from_network(status, status_text, url) {
        Ok(_) => Ok(true),
        Err(error) => Err(error),
    }
}

/// A fetch where the cache works: the step to take, and what the cache holds of the
/// document.
pub struct FetchRun {
    pub step: FetchStep,
    pub cached: Option<String>,
}

/// Carries out up to `count` steps, with this answer from the network.
pub open spec fn carried_out(
    run: FetchRun,
    answer: Result<Option<String>, AppError>,
    count: nat,
) -> FetchRun
    decreases count,
{
    if count == 0 {
        run
    } else {
        let next = match run.step {
            FetchStep::ReadCache(fetch) => FetchRun {
                step: after_cache(fetch, Ok(run.cached)),
                ..run
            },
            FetchStep::FetchNetwork(fetch) => FetchRun { step: after_network(fetch, answer), ..run },
            FetchStep::WriteCache(_, body) => FetchRun {
                step: after_write(body, Ok(())),
                cached: Some(body),
            },
            _ => run,
        };
        carried_out(next, answer, (count - 1) as nat)
    }
}

/// The whole of a fetch.
pub open spec fn whole_fetch(
    url: String,
    policy: HttpFetchPolicy,
    optional: bool,
    cached: Option<String>,
    answer: Result<Option<String>, AppError>,
) -> FetchRun {
    carried_out(FetchRun { step: first_step(url, policy, optional), cached }, answer, 3)
}

/// The network is asked for the document before the fetch ends.
pub open spec fn asks_network(policy: HttpFetchPolicy, cached: Option<String>) -> bool {
    policy == HttpFetchPolicy::NetworkFirst || cached is None
}

/// A fetch ends after three steps at most, and this is how. A cached document is taken
/// at once where the cache comes first. Else a document that the network delivers is put
/// into the cache and taken. Where the network fails, a document that must exist is taken
/// from the cache if it is there, and the failure of the network is the outcome if not.
pub proof fn law_outcome_of_fetch(
    url: String,
    policy: HttpFetchPolicy,
    optional: bool,
    cached: Option<String>,
    answer: Result<Option<String>, AppError>,
)
    ensures
        whole_fetch(url, policy, optional, cached, answer) == if !asks_network(policy, cached) {
            FetchRun { step: FetchStep::Finished(cached), cached }
        } else {
            match answer {
                Ok(Some(body)) => FetchRun {
                    step: FetchStep::Finished(Some(body)),
                    cached: Some(body),
                },
                Ok(None) => FetchRun { step: FetchStep::Finished(None), cached },
                Err(error) => FetchRun {
                    step: if cached is Some && !optional {
                        FetchStep::Finished(cached)
                    } else {
                        FetchStep::Failed(error)
                    },
                    cached,
                },
            }
        },
{
    reveal_with_fuel(carried_out, 4);
}

/// A document that was fetched once is found again without asking the network, where
/// the cache comes first.
pub proof fn law_fetched_document_is_found_again(
    url: String,
    policy: HttpFetchPolicy,
    optional: bool,
    cached: Option<String>,
    answer: Result<Option<String>, AppError>,
    later: Result<Option<String>, AppError>,
)
    ensures
        whole_fetch(url, policy, optional, cached, answer).step matches FetchStep::Finished(
            Some(body),
        ) ==> {
            let held = whole_fetch(url, policy, optional, cached, answer).cached;
            &&& !asks_network(HttpFetchPolicy::CacheFirst, held)
            &&& whole_fetch(url, HttpFetchPolicy::CacheFirst, optional, held, later).step
                == FetchStep::Finished(Some(body))
        },
{
    law_outcome_of_fetch(url, policy, optional, cached, answer);
    let held = whole_fetch(url, policy, optional, cached, answer).cached;
    law_outcome_of_fetch(url, HttpFetchPolicy::CacheFirst, optional, held, later);
}

/// The cache never loses a document.
pub proof fn law_cache_keeps_documents(
    url: String,
    policy: HttpFetchPolicy,
    optional: bool,
    cached: Option<String>,
    answer: Result<Option<String>, AppError>,
)
    ensures
        cached is Some ==> whole_fetch(url, policy, optional, cached, answer).cached is Some,
{
    law_outcome_of_fetch(url, policy, optional, cached, answer);
}

/// Success is the status codes of the two hundreds.
pub proof fn law_success_is_the_two_hundreds(status: u16)
    ensures
        is_success(status) <==> status / 100 == 2,
{
}

/// A document is missing just where the answer is 404, and there just where it is a success;
/// every other answer is a failure.
pub proof fn law_only_not_found_is_missing(status: u16)
    ensures
        existence(status) == Some(false) <==> status == 404,
        existence(status) == Some(true) <==> status / 100 == 2,
        existence(status) is None <==> status != 404 && status / 100 != 2,
{
}

/// A refusal names the status and the address.
pub proof fn law_refusal_names_status_and_address(status: Seq<char>, url: Seq<char>)
    ensures
        begins_with(refusal_text(status, url), "GitHub returned "@ + status),
        ends_with(refusal_text(status, url), " for "@ + url),
        refusal_text(status, url).len() == ("GitHub returned "@ + status).len() + (" for "@
            + url).len(),
{
    let line = refusal_text(status, url);
    assert(line =~= ("GitHub returned "@ + status) + (" for "@ + url));
    law_beginnings_and_ends(line, "GitHub returned "@ + status, " for "@ + url);
    law_beginnings_and_ends(line, " for "@ + url, "GitHub returned "@ + status);
}

/// What belongs to a fresh issue is asked of the network first, and what belongs to a cached
/// one is looked up in the cache first.
pub proof fn law_fresh_issues_ask_the_network(source: IssueSource)
    ensures
        policy_of(source) == HttpFetchPolicy::NetworkFirst <==> source == IssueSource::Fresh,
        policy_of(source) == HttpFetchPolicy::CacheFirst <==> source == IssueSource::Cached,
{
}

/// A fetch begins where its policy says, for its own address, without a failure.
pub proof fn law_fetch_begins_where_its_policy_says(
    url: String,
    policy: HttpFetchPolicy,
    optional: bool,
)
    ensures
        policy == HttpFetchPolicy::CacheFirst ==> (first_step(
            url,
            policy,
            optional,
        ) matches FetchStep::ReadCache(fetch) && fetch.url == url && fetch.policy == policy
            && fetch.optional == optional && fetch.failure is None),
        policy == HttpFetchPolicy::NetworkFirst ==> (first_step(
            url,
            policy,
            optional,
        ) matches FetchStep::FetchNetwork(fetch) && fetch.url == url && fetch.policy == policy
            && fetch.optional == optional && fetch.failure is None),
{
}

/// A failure of the cache is the outcome of the fetch, and so is a failure of the network
/// that the cache cannot make good. The address stays the same through all steps.
pub proof fn law_failures_are_passed_on(fetch: JsonFetch, body: String, error: AppError)
    ensures
        after_cache(fetch, Err(error)) == FetchStep::Failed(error),
        after_write(body, Err(error)) == FetchStep::Failed(error),
        after_write(body, Ok(())) == FetchStep::Finished(Some(body)),
        after_cache(fetch, Ok(Some(body))) == FetchStep::Finished(Some(body)),
        fetch.failure matches Some(earlier) ==> after_cache(fetch, Ok(None)) == FetchStep::Failed(
            earlier,
        ),
        fetch.failure is None ==> after_cache(fetch, Ok(None)) == FetchStep::FetchNetwork(fetch),
        after_network(fetch, Ok(None)) == FetchStep::Finished(None),
        after_network(fetch, Ok(Some(body))) == FetchStep::WriteCache(fetch, body),
        fetch.optional || fetch.policy == HttpFetchPolicy::CacheFirst ==> after_network(
            fetch,
            Err(error),
        ) == FetchStep::Failed(error),
        !fetch.optional && fetch.policy == HttpFetchPolicy::NetworkFirst ==> (after_network(
            fetch,
            Err(error),
        ) matches FetchStep::ReadCache(next) && next.url == fetch.url && next.policy
            == fetch.policy && !next.optional && next.failure == Some(error)),
{
}

} // verus!
