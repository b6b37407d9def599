//! Finding the result of one issue: stored earlier, or in the comments on the issue.

use crate::block::{find_json_block, json_block, OPENING_FENCE};
use crate::fetch::{fetch_policy, policy_of};
use crate::model::{
    AppError, BenchmarkResult, GitHubComment, HttpFetchPolicy, IssueSource, SourcedIssue,
};
use crate::text::{contains, contains_text, decimal, decimal_of, opt_text, same_text};
use crate::urls::{comments_address, comments_url, RESULTS_BOT};
use vstd::prelude::*;

verus! {

/// The issue whose result is looked for.
#[derive(Clone, Copy, Debug)]
pub struct IssueLookup {
    pub number: u64,
    pub source: IssueSource,
}

/// What is to be done next.
#[derive(Clone, Debug)]
pub enum ResultStep {
    /// Look for a stored result under this key.
    ReadStored(IssueLookup, i64),
    /// Read a result out of this stored text.
    ParseStored(IssueLookup, String),
    /// Fetch the comments from this address.
    FetchComments(IssueLookup, String, HttpFetchPolicy),
    /// Read a result out of this text from a comment.
    ParseComment(IssueLookup, String),
    /// Store the text of the result under this key.
    WriteStored(IssueLookup, i64, String, BenchmarkResult),
    /// Nothing: this is the result, or there is none, and a remark on it.
    Finished(Option<BenchmarkResult>, Option<String>),
    /// Nothing: the search has failed.
    Failed(AppError),
}

/// A step, with texts by their characters.
pub enum ResultStepView {
    ReadStored(IssueLookup, i64),
    ParseStored(IssueLookup, Seq<char>),
    FetchComments(IssueLookup, Seq<char>, HttpFetchPolicy),
    ParseComment(IssueLookup, Seq<char>),
    WriteStored(IssueLookup, i64, Seq<char>, BenchmarkResult),
    Finished(Option<BenchmarkResult>, Option<Seq<char>>),
    Failed(AppError),
}

impl View for ResultStep {
    type V = ResultStepView;

    open spec fn view(&self) -> ResultStepView {
        match self {
            ResultStep::ReadStored(lookup, key) => ResultStepView::ReadStored(*lookup, *key),
            ResultStep::ParseStored(lookup, json) => ResultStepView::ParseStored(*lookup, json@),
            ResultStep::FetchComments(lookup, url, policy) => ResultStepView::FetchComments(
                *lookup,
                url@,
                *policy,
            ),
            ResultStep::ParseComment(lookup, json) => ResultStepView::ParseComment(*lookup, json@),
            ResultStep::WriteStored(lookup, key, json, result) => ResultStepView::WriteStored(
                *lookup,
                *key,
                json@,
                *result,
            ),
            ResultStep::Finished(result, remark) => ResultStepView::Finished(
                *result,
                opt_text(*remark),
            ),
            ResultStep::Failed(error) => ResultStepView::Failed(*error),
        }
    }
}

/// The key under which the result of an issue is stored: its number, wrapped around
/// into the signed range.
pub open spec fn key_of(number: u64) -> int {
    if number <= i64::MAX {
        number as int
    } else {
        number - 0x1_0000_0000_0000_0000
    }
}

/// The comment is a report of the results bot.
pub open spec fn is_report(comment: GitHubComment) -> bool {
    comment.user.login@ == RESULTS_BOT@ && contains_text(comment.body@, OPENING_FENCE@)
}

/// The text of the first report among the comments.
pub open spec fn first_report(comments: Seq<GitHubComment>) -> Option<Seq<char>>
    decreases comments.len(),
{
    if comments.len() == 0 {
        None
    } else if is_report(comments[0]) {
        Some(comments[0].body@)
    } else {
        first_report(comments.drop_first())
    }
}

/// A remark on the result of an issue.
pub open spec fn issue_remark(number: u64, what: Seq<char>) -> Seq<char> {
    "leaderboard refresh: issue #"@ + decimal(number as nat) + what
}

/// The first step of the search.
pub open spec fn first_look(lookup: IssueLookup) -> ResultStepView {
    ResultStepView::ReadStored(lookup, key_of(lookup.number) as i64)
}

/// The step after the store was asked.
pub open spec fn after_stored(
    lookup: IssueLookup,
    reply: Result<Option<Seq<char>>, AppError>,
) -> ResultStepView {
    match reply {
        Err(error) => ResultStepView::Failed(error),
        Ok(Some(json)) => ResultStepView::ParseStored(lookup, json),
        Ok(None) => ResultStepView::FetchComments(
            lookup,
            comments_address(lookup.number as nat),
            policy_of(lookup.source),
        ),
    }
}

/// The step after the stored text was read. What cannot be read is ignored.
pub open spec fn after_stored_parse(
    lookup: IssueLookup,
    reply: Result<BenchmarkResult, Seq<char>>,
) -> ResultStepView {
    match reply {
        Ok(result) => ResultStepView::Finished(
            Some(result),
            Some(
                issue_remark(
                    lookup.number,
                    " reused stored result without refetching comments"@,
                ),
            ),
        ),
        Err(error) => ResultStepView::Finished(
            None,
            Some(
                issue_remark(
                    lookup.number,
                    " ignored stored result with unsupported format: "@ + error,
                ),
            ),
        ),
    }
}

/// The step after the comments were fetched.
pub open spec fn after_comments(
    lookup: IssueLookup,
    reply: Result<Seq<GitHubComment>, AppError>,
) -> ResultStepView {
    match reply {
        Err(error) => ResultStepView::Failed(error),
        Ok(comments) => match first_report(comments) {
            None => ResultStepView::Finished(None, None),
            Some(body) => match json_block(body) {
                None => ResultStepView::Finished(None, None),
                Some(json) => ResultStepView::ParseComment(lookup, json),
            },
        },
    }
}

/// The step after the text from a comment was read. What cannot be read is ignored.
pub open spec fn after_comment_parse(
    lookup: IssueLookup,
    json: Seq<char>,
    reply: Result<BenchmarkResult, Seq<char>>,
) -> ResultStepView {
    match reply {
        Ok(result) => ResultStepView::WriteStored(
            lookup,
            key_of(lookup.number) as i64,
            json,
            result,
        ),
        Err(error) => ResultStepView::Finished(
            None,
            Some(
                issue_remark(
                    lookup.number,
                    " ignored comment with unsupported format: "@ + error,
                ),
            ),
        ),
    }
}

/// The step after the result was stored.
pub open spec fn after_stored_write(
    result: BenchmarkResult,
    reply: Result<(), AppError>,
) -> ResultStepView {
    match reply {
        Ok(_) => ResultStepView::Finished(Some(result), None),
        Err(error) => ResultStepView::Failed(error),
    }
}

/// The outcome of reading a text, with the message of a failure by its characters.
pub open spec fn parse_reply(reply: Result<BenchmarkResult, String>) -> Result<
    BenchmarkResult,
    Seq<char>,
> {
    match reply {
        Ok(result) => Ok(result),
        Err(error) => Err(error@),
    }
}

/// The key under which the result of an issue is stored.
pub fn stored_key(number: u64) -> (key: i64)
    ensures
        key == key_of(number),
{
    if number <= 0x7fff_ffff_ffff_ffff {
        number as i64
    } else {
        let wrapped: i128 = number as i128 - 0x1_0000_0000_0000_0000;
        wrapped as i64
    }
}

/// Two issues never share a key.
pub proof fn law_keys_are_distinct(a: u64, b: u64)
    requires
        key_of(a) == key_of(b),
    ensures
        a == b,
{
}

fn remark(number: u64, what: &str, detail: &str) -> (line: String)
    ensures
        line@ == issue_remark(number, what@ + detail@),
{
    let mut line = String::new();
    line.append("leaderboard refresh: issue #");
    line.append(&decimal_of(number));
    line.append(what);
    line.append(detail);
    assert(line@ =~= issue_remark(number, what@ + detail@));
    line
}

/// Begins to look for the result of an issue.
pub fn fetch_issue_result(issue: &SourcedIssue) -> (step: ResultStep)
    ensures
        step@ == first_look(IssueLookup { number: issue.issue.number, source: issue.source }),
{
    let lookup = IssueLookup { number: issue.issue.number, source: issue.source };
    ResultStep::ReadStored(lookup, stored_key(lookup.number))
}

/// The text of the first report among the comments.
fn find_report(comments: Vec<GitHubComment>) -> (body: Option<String>)
    ensures
        opt_text(body) == first_report(comments@),
{
    let ghost all = comments@;
    assert(all.skip(0) == all);
    for comment in it: comments
        invariant
            it.seq() == all,
            first_report(all) == first_report(all.skip(it.index() as int)),
    {
        proof {
            let rest = all.skip(it.index() as int);
            assert(rest[0] == comment);
            assert(rest.drop_first() =~= all.skip(it.index() + 1));
        }
        if same_text(&comment.user.login, RESULTS_BOT) && contains(&comment.body, OPENING_FENCE) {
            return Some(comment.body);
        }
    }
    None
}

impl IssueLookup {
    /// Goes on after the store was asked.
    pub fn on_stored(self, reply: Result<Option<String>, AppError>) -> (step: ResultStep)
        ensures
            step@ == after_stored(
                self,
                match reply {
                    Ok(stored) => Ok(opt_text(stored)),
                    Err(error) => Err(error),
                },
            ),
    {
        match reply {
            Err(error) => ResultStep::Failed(error),
            Ok(Some(json)) => ResultStep::ParseStored(self, json),
            Ok(None) => ResultStep::FetchComments(
                self,
                comments_url(self.number),
                fetch_policy(self.source),
            ),
        }
    }

    /// Goes on after the stored text was read.
    pub fn on_stored_parsed(self, reply: Result<BenchmarkResult, String>) -> (step: ResultStep)
        ensures
            step@ == after_stored_parse(self, parse_reply(reply)),
    {
        match reply {
            Ok(result) => {
                let line = remark(
                    self.number,
                    " reused stored result without refetching comments",
                    "",
                );
                proof {
                    reveal_strlit("");
                    assert(" reused stored result without refetching comments"@ + ""@
                        =~= " reused stored result without refetching comments"@);
                }
                ResultStep::Finished(Some(result), Some(line))
            },
            Err(error) => {
                let line = remark(
                    self.number,
                    " ignored stored result with unsupported format: ",
                    &error,
                );
                ResultStep::Finished(None, Some(line))
            },
        }
    }

    /// Goes on after the comments were fetched.
    pub fn on_comments(self, reply: Result<Vec<GitHubComment>, AppError>) -> (step: ResultStep)
        ensures
            step@ == after_comments(
                self,
                match reply {
                    Ok(comments) => Ok(comments@),
                    Err(error) => Err(error),
                },
            ),
    {
        match reply {
            Err(error) => ResultStep::Failed(error),
            Ok(comments) => match find_report(comments) {
                None => ResultStep::Finished(None, None),
                Some(body) => match find_json_block(&body) {
                    Err(error) => ResultStep::Failed(error),
                    Ok(None) => ResultStep::Finished(None, None),
                    Ok(Some(json)) => ResultStep::ParseComment(self, json),
                },
            },
        }
    }

    /// Goes on after the text from a comment was read.
    pub fn on_comment_parsed(self, json: String, reply: Result<BenchmarkResult, String>) -> (step:
        ResultStep)
        ensures
            step@ == after_comment_parse(self, json@, parse_reply(reply)),
    {
        match reply {
            Ok(result) => ResultStep::WriteStored(self, stored_key(self.number), json, result),
            Err(error) => {
                let line = remark(
                    self.number,
                    " ignored comment with unsupported format: ",
                    &error,
                );
                ResultStep::Finished(None, Some(line))
            },
        }
    }

    /// Goes on after the result was stored.
    pub fn on_stored_written(self, result: BenchmarkResult, reply: Result<(), AppError>) -> (step:
        ResultStep)
        ensures
            step@ == after_stored_write(result, reply),
    {
        match reply {
            Ok(_) => ResultStep::Finished(Some(result), None),
            Err(error) => ResultStep::Failed(error),
        }
    }
}

/// What the results store holds, and how a text is read.
pub struct ResultWorld {
    pub stored: Map<i64, Seq<char>>,
    pub read: spec_fn(Seq<char>) -> Result<BenchmarkResult, Seq<char>>,
}

/// The whole search where the store works: its last step, and the store after it.
pub open spec fn whole_search(
    lookup: IssueLookup,
    world: ResultWorld,
    comments: Result<Seq<GitHubComment>, AppError>,
) -> (ResultStepView, Map<i64, Seq<char>>) {
    let key = key_of(lookup.number) as i64;
    let held = if world.stored.dom().contains(key) {
        Some(world.stored[key])
    } else {
        None
    };
    match after_stored(lookup, Ok(held)) {
        ResultStepView::ParseStored(lookup, json) => (
            after_stored_parse(lookup, (world.read)(json)),
            world.stored,
        ),
        _ => match after_comments(lookup, comments) {
            ResultStepView::ParseComment(lookup, json) => match after_comment_parse(
                lookup,
                json,
                (world.read)(json),
            ) {
                ResultStepView::WriteStored(_, key, json, result) => (
                    after_stored_write(result, Ok(())),
                    world.stored.insert(key, json),
                ),
                last => (last, world.stored),
            },
            last => (last, world.stored),
        },
    }
}

/// A result that was found once is found again, whatever the comments have become
/// since: it comes from the store, and the store stays as it is.
pub proof fn law_result_is_kept(
    lookup: IssueLookup,
    world: ResultWorld,
    comments: Result<Seq<GitHubComment>, AppError>,
    later: Result<Seq<GitHubComment>, AppError>,
)
    ensures
        ({
            let (last, stored) = whole_search(lookup, world, comments);
            last matches ResultStepView::Finished(Some(result), _) ==> {
                let again = whole_search(lookup, ResultWorld { stored, ..world }, later);
                &&& again.0 == after_stored_parse(lookup, Ok(result))
                &&& again.1 == stored
            }
        }),
{
}

/// A search for one issue leaves what is stored for every other issue as it was.
pub proof fn law_other_results_stay(
    lookup: IssueLookup,
    world: ResultWorld,
    comments: Result<Seq<GitHubComment>, AppError>,
    other: u64,
)
    requires
        other != lookup.number,
    ensures
        ({
            let after = whole_search(lookup, world, comments).1;
            let key = key_of(other) as i64;
            &&& after.dom().contains(key) == world.stored.dom().contains(key)
            &&& world.stored.dom().contains(key) ==> after[key] == world.stored[key]
        }),
{
}

/// A text that is read as the report stands in a comment of the results bot. It is the
/// first block of that comment, and no earlier comment of the bot holds a JSON fence.
pub proof fn law_report_is_by_the_bot(lookup: IssueLookup, comments: Seq<GitHubComment>)
    ensures
        after_comments(lookup, Ok(comments)) matches ResultStepView::ParseComment(next, json) ==> {
            &&& next == lookup
            &&& exists|k: int|
                0 <= k < comments.len() && (#[trigger] comments[k]).user.login@
                    == "arinhadebackend"@ && contains_text(comments[k].body@, "```json"@)
                    && json_block(comments[k].body@) == Some(json) && forall|j: int|
                    0 <= j < k ==> (#[trigger] comments[j]).user.login@ != "arinhadebackend"@
                        || !contains_text(comments[j].body@, "```json"@)
        },
{
    lemma_first_report(comments);
}

/// The first comment of the results bot that holds a JSON fence settles the outcome: the
/// block in it is read, and where it has none the issue has no result.
pub proof fn law_first_report_settles(lookup: IssueLookup, comments: Seq<GitHubComment>, k: int)
    requires
        0 <= k < comments.len(),
        comments[k].user.login@ == "arinhadebackend"@,
        contains_text(comments[k].body@, "```json"@),
        forall|j: int|
            0 <= j < k ==> (#[trigger] comments[j]).user.login@ != "arinhadebackend"@
                || !contains_text(comments[j].body@, "```json"@),
    ensures
        after_comments(lookup, Ok(comments)) == match json_block(comments[k].body@) {
            Some(json) => ResultStepView::ParseComment(lookup, json),
            None => ResultStepView::Finished(None, None),
        },
{
    lemma_first_report(comments);
    let body = first_report(comments);
    if body is None {
        assert(!is_report(comments[k]));
    } else {
        let m = choose|m: int|
            0 <= m < comments.len() && is_report(#[trigger] comments[m]) && body == Some(
                comments[m].body@,
            ) && forall|j: int| 0 <= j < m ==> !is_report(#[trigger] comments[j]);
        assert(is_report(comments[k]));
        if m < k {
            assert(!is_report(comments[m]));
        }
    }
}

/// Where no comment of the results bot holds a JSON fence there is no result, whatever
/// anybody else has written.
pub proof fn law_no_report_no_result(lookup: IssueLookup, comments: Seq<GitHubComment>)
    requires
        forall|j: int|
            0 <= j < comments.len() ==> (#[trigger] comments[j]).user.login@ != "arinhadebackend"@
                || !contains_text(comments[j].body@, "```json"@),
    ensures
        after_comments(lookup, Ok(comments)) == ResultStepView::Finished(None, None),
{
    lemma_first_report(comments);
}

proof fn lemma_first_report(comments: Seq<GitHubComment>)
    ensures
        match first_report(comments) {
            Some(body) => exists|k: int|
                0 <= k < comments.len() && is_report(#[trigger] comments[k]) && body
                    == comments[k].body@ && forall|j: int|
                    0 <= j < k ==> !is_report(#[trigger] comments[j]),
            None => forall|j: int| 0 <= j < comments.len() ==> !is_report(#[trigger] comments[j]),
        },
        forall|comment: GitHubComment| #[trigger]
            is_report(comment) <==> comment.user.login@ == "arinhadebackend"@ && contains_text(
                comment.body@,
                "```json"@,
            ),
    decreases comments.len(),
{
    if comments.len() > 0 {
        let rest = comments.drop_first();
        lemma_first_report(rest);
        if !is_report(comments[0]) {
            match first_report(rest) {
                Some(body) => {
                    let k = choose|k: int|
                        0 <= k < rest.len() && is_report(#[trigger] rest[k]) && body
                            == rest[k].body@ && forall|j: int|
                            0 <= j < k ==> !is_report(#[trigger] rest[j]);
                    assert(comments[k + 1] == rest[k]);
                    assert forall|j: int| 0 <= j < k + 1 implies !is_report(
                        #[trigger] comments[j],
                    ) by {
                        if j > 0 {
                            assert(rest[j - 1] == comments[j]);
                        }
                    }
                },
                None => {
                    assert forall|j: int| 0 <= j < comments.len() implies !is_report(
                        #[trigger] comments[j],
                    ) by {
                        if j > 0 {
                            assert(rest[j - 1] == comments[j]);
                        }
                    }
                },
            }
        }
    }
}

proof fn lemma_without_other(comments: Seq<GitHubComment>, k: int)
    requires
        0 <= k < comments.len(),
        !is_report(comments[k]),
    ensures
        first_report(comments.remove(k)) == first_report(comments),
    decreases comments.len(),
{
    let fewer = comments.remove(k);
    if k == 0 {
        assert(fewer =~= comments.drop_first());
    } else {
        assert(fewer[0] == comments[0]);
        if !is_report(comments[0]) {
            lemma_without_other(comments.drop_first(), k - 1);
            assert(fewer.drop_first() =~= comments.drop_first().remove(k - 1));
        }
    }
}

/// Comments of other accounts make no difference: without one of them the step is the same.
pub proof fn law_other_accounts_are_ignored(
    lookup: IssueLookup,
    comments: Seq<GitHubComment>,
    k: int,
)
    requires
        0 <= k < comments.len(),
        comments[k].user.login@ != "arinhadebackend"@,
    ensures
        after_comments(lookup, Ok(comments.remove(k))) == after_comments(lookup, Ok(comments)),
{
    lemma_first_report(comments);
    assert(!is_report(comments[k]));
    lemma_without_other(comments, k);
}

/// A stored result comes before the comments. Without one the comments of this very issue
/// are fetched, from the network first where its page is fresh, else from the cache first.
pub proof fn law_stored_result_comes_first(
    lookup: IssueLookup,
    reply: Result<Option<Seq<char>>, AppError>,
)
    ensures
        match reply {
            Err(error) => after_stored(lookup, reply) == ResultStepView::Failed(error),
            Ok(Some(json)) => after_stored(lookup, reply) == ResultStepView::ParseStored(
                lookup,
                json,
            ),
            Ok(None) => after_stored(lookup, reply) matches ResultStepView::FetchComments(
                next,
                url,
                policy,
            ) && next == lookup && url == comments_address(lookup.number as nat) && (policy
                == HttpFetchPolicy::NetworkFirst <==> lookup.source == IssueSource::Fresh),
        },
        first_look(lookup) matches ResultStepView::ReadStored(next, key) && next == lookup && key
            == key_of(lookup.number),
{
}

/// A result that can be read is the outcome, whatever it holds: a stored one at once, and
/// one from a comment once its text is stored under the key of the issue. What cannot be
/// read counts as no result.
pub proof fn law_readable_result_is_the_outcome(
    lookup: IssueLookup,
    json: Seq<char>,
    result: BenchmarkResult,
    message: Seq<char>,
    failure: AppError,
)
    ensures
        after_stored_parse(lookup, Ok(result)) matches ResultStepView::Finished(found, _) && found
            == Some(result),
        after_stored_parse(lookup, Err(message)) matches ResultStepView::Finished(found, _)
            && found is None,
        after_comment_parse(lookup, json, Ok(result)) matches ResultStepView::WriteStored(
            next,
            key,
            text,
            found,
        ) && next == lookup && key == key_of(lookup.number) && text == json && found == result,
        after_comment_parse(lookup, json, Err(message)) matches ResultStepView::Finished(found, _)
            && found is None,
        after_stored_write(result, Ok(())) == ResultStepView::Finished(Some(result), None),
        after_stored_write(result, Err(failure)) == ResultStepView::Failed(failure),
        after_comments(lookup, Err(failure)) == ResultStepView::Failed(failure),
{
}

/// The remarks name the issue, say what was done with its result, and give the reason where
/// it was ignored.
pub proof fn law_remarks_name_the_issue(
    lookup: IssueLookup,
    json: Seq<char>,
    result: BenchmarkResult,
    message: Seq<char>,
)
    ensures
        after_stored_parse(lookup, Ok(result)) matches ResultStepView::Finished(_, remark)
            && remark == Some(
            "leaderboard refresh: issue #"@ + decimal(lookup.number as nat)
                + " reused stored result without refetching comments"@,
        ),
        after_stored_parse(lookup, Err(message)) matches ResultStepView::Finished(_, remark)
            && remark == Some(
            "leaderboard refresh: issue #"@ + decimal(lookup.number as nat)
                + " ignored stored result with unsupported format: "@ + message,
        ),
        after_comment_parse(lookup, json, Err(message)) matches ResultStepView::Finished(_, remark)
            && remark == Some(
            "leaderboard refresh: issue #"@ + decimal(lookup.number as nat)
                + " ignored comment with unsupported format: "@ + message,
        ),
{
    let start = "leaderboard refresh: issue #"@ + decimal(lookup.number as nat);
    assert(start + (" ignored stored result with unsupported format: "@ + message) =~= start
        + " ignored stored result with unsupported format: "@ + message);
    assert(start + (" ignored comment with unsupported format: "@ + message) =~= start
        + " ignored comment with unsupported format: "@ + message);
}

/// The key is the number itself, as long as it is in the signed range, and differs from it
/// by whole turns around the range in any case.
pub proof fn law_key_is_the_number(number: u64)
    ensures
        i64::MIN <= key_of(number) <= i64::MAX,
        (key_of(number) - number) % 0x1_0000_0000_0000_0000 == 0,
        number <= i64::MAX ==> key_of(number) == number,
{
}

/// The model of a step leaves nothing out.
pub proof fn law_model_shows_the_search(step: ResultStep)
    ensures
        step matches ResultStep::ReadStored(lookup, key) ==> step@ == ResultStepView::ReadStored(
            lookup,
            key,
        ),
        step matches ResultStep::ParseStored(lookup, json) ==> step@
            == ResultStepView::ParseStored(lookup, json@),
        step matches ResultStep::FetchComments(lookup, url, policy) ==> step@
            == ResultStepView::FetchComments(lookup, url@, policy),
        step matches ResultStep::ParseComment(lookup, json) ==> step@
            == ResultStepView::ParseComment(lookup, json@),
        step matches ResultStep::WriteStored(lookup, key, json, result) ==> step@
            == ResultStepView::WriteStored(lookup, key, json@, result),
        step matches ResultStep::Finished(result, remark) ==> (step@ matches ResultStepView::Finished(
            found,
            line,
        ) && found == result && (remark is Some <==> line is Some) && (remark is Some ==> line
            == Some(remark->0@))),
        step matches ResultStep::Failed(error) ==> step@ == ResultStepView::Failed(error),
{
}

} // verus!
