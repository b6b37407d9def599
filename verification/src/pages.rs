//! Walking through the pages of closed issues.
//!
//! Pages are fetched anew until one of them has not changed, or cannot be fetched.
//! From there on the cached pages are taken as they are, as long as there are any.

use crate::model::{AppError, GitHubIssue, IssueSource, SourcedIssue};
use crate::text::{
    begins_with, decimal, decimal_of, ends_with, join, joined, opt_text, texts,
};
use crate::urls::{issues_page_address, issues_page_url};
use vstd::prelude::*;

verus! {

/// How many issues a full page lists.
pub const PAGE_SIZE: usize = 100;

/// A walk that is under way.
#[derive(Clone, Debug)]
pub struct PageWalk {
    /// The page that is worked on, from one.
    pub page: u32,
    /// The issues that count, of the pages before.
    pub issues: Vec<SourcedIssue>,
    /// Cached pages are taken as they are.
    pub use_cached_tail: bool,
    /// The pages that were new or had changed.
    pub updated_pages: Vec<u32>,
    /// What happened to each page.
    pub page_logs: Vec<String>,
}

/// What a page that was fetched turned out to be.
#[derive(Clone, Copy, Debug, PartialEq, Eq, Structural)]
pub enum PageNews {
    /// The same as the cached one.
    Unchanged,
    /// Not the same as the cached one.
    Updated,
    /// Missing among cached pages that are taken as they are.
    TailMissing,
}

/// What is to be done next.
#[derive(Clone, Debug)]
pub enum PageStep {
    /// Look the page up in the cache.
    ReadCache(PageWalk),
    /// Fetch the page; this is the cached one.
    FetchNetwork(PageWalk, Option<String>),
    /// Put the page into the cache.
    WriteCache(PageWalk, PageNews, String),
    /// Read the issues of the page.
    Parse(PageWalk, IssueSource, String),
    /// Nothing: these are the issues, and a summary of the walk.
    Finished(Vec<SourcedIssue>, String),
    /// Nothing: the walk has failed.
    Failed(AppError),
}

/// What a walk knows.
pub struct WalkView {
    pub page: nat,
    pub issues: Seq<SourcedIssue>,
    pub use_cached_tail: bool,
    pub updated_pages: Seq<u32>,
    pub page_logs: Seq<Seq<char>>,
}

/// A step, with texts by their characters.
pub enum PageStepView {
    ReadCache(WalkView),
    FetchNetwork(WalkView, Option<Seq<char>>),
    WriteCache(WalkView, PageNews, Seq<char>),
    Parse(WalkView, IssueSource, Seq<char>),
    Finished(Seq<SourcedIssue>, Seq<char>),
    Failed(AppError),
}

impl View for PageWalk {
    type V = WalkView;

    open spec fn view(&self) -> WalkView {
        WalkView {
            page: self.page as nat,
            issues: self.issues@,
            use_cached_tail: self.use_cached_tail,
            updated_pages: self.updated_pages@,
            page_logs: texts(self.page_logs@),
        }
    }
}

impl View for PageStep {
    type V = PageStepView;

    open spec fn view(&self) -> PageStepView {
        match self {
            PageStep::ReadCache(walk) => PageStepView::ReadCache(walk@),
            PageStep::FetchNetwork(walk, cached) => PageStepView::FetchNetwork(
                walk@,
                opt_text(*cached),
            ),
            PageStep::WriteCache(walk, news, body) => PageStepView::WriteCache(walk@, *news, body@),
            PageStep::Parse(walk, source, body) => PageStepView::Parse(walk@, *source, body@),
            PageStep::Finished(issues, summary) => PageStepView::Finished(issues@, summary@),
            PageStep::Failed(error) => PageStepView::Failed(*error),
        }
    }
}

/// The issue can have a result: it is no pull request and somebody commented on it.
pub open spec fn counts(issue: GitHubIssue) -> bool {
    !issue.pull_request && issue.comments > 0
}

/// The issues of a page that count, in the order of the page.
pub open spec fn counted(batch: Seq<GitHubIssue>, source: IssueSource) -> Seq<SourcedIssue>
    decreases batch.len(),
{
    if batch.len() == 0 {
        Seq::empty()
    } else {
        let earlier = counted(batch.drop_last(), source);
        if counts(batch.last()) {
            earlier.push(SourcedIssue { issue: batch.last(), source })
        } else {
            earlier
        }
    }
}

/// What is noted of a page: its number and what happened.
pub open spec fn page_note(page: nat, what: Seq<char>) -> Seq<char> {
    "page "@ + decimal(page) + ": "@ + what
}

impl WalkView {
    /// The walk with one more note on the current page.
    pub open spec fn noting(self, what: Seq<char>) -> WalkView {
        WalkView { page_logs: self.page_logs.push(page_note(self.page, what)), ..self }
    }

    /// The walk with the current page counted among the updated ones.
    pub open spec fn updating(self) -> WalkView {
        WalkView { updated_pages: self.updated_pages.push(self.page as u32), ..self }
    }

    /// The walk that takes the following pages from the cache.
    pub open spec fn using_tail(self) -> WalkView {
        WalkView { use_cached_tail: true, ..self }
    }
}

/// The walk before the first page.
pub open spec fn new_walk() -> WalkView {
    WalkView {
        page: 1,
        issues: Seq::empty(),
        use_cached_tail: false,
        updated_pages: Seq::empty(),
        page_logs: Seq::empty(),
    }
}

/// The step after the cache was read.
pub open spec fn page_after_cache(
    walk: WalkView,
    reply: Result<Option<Seq<char>>, AppError>,
) -> PageStepView {
    match reply {
        Err(error) => PageStepView::Failed(error),
        Ok(Some(body)) if walk.use_cached_tail => PageStepView::Parse(
            walk.noting("reused cached tail"@),
            IssueSource::Cached,
            body,
        ),
        Ok(cached) => PageStepView::FetchNetwork(walk, cached),
    }
}

/// What a fetched page turns out to be.
pub open spec fn news_of(
    use_cached_tail: bool,
    cached: Option<Seq<char>>,
    body: Seq<char>,
) -> PageNews {
    if use_cached_tail {
        PageNews::TailMissing
    } else if cached == Some(body) {
        PageNews::Unchanged
    } else {
        PageNews::Updated
    }
}

/// The step after the network has answered.
pub open spec fn page_after_network(
    walk: WalkView,
    cached: Option<Seq<char>>,
    reply: Result<Seq<char>, AppError>,
) -> PageStepView {
    match reply {
        Ok(body) => PageStepView::WriteCache(
            walk,
            news_of(walk.use_cached_tail, cached, body),
            body,
        ),
        Err(error) => match cached {
            Some(body) => PageStepView::Parse(
                walk.using_tail().noting(
                    "GitHub failed ("@ + error.text() + "), reused cached page"@,
                ),
                IssueSource::Cached,
                body,
            ),
            None => PageStepView::Failed(error),
        },
    }
}

/// The step after the page was put into the cache.
pub open spec fn page_after_write(
    walk: WalkView,
    news: PageNews,
    body: Seq<char>,
    reply: Result<(), AppError>,
) -> PageStepView {
    match reply {
        Err(error) => PageStepView::Failed(error),
        Ok(_) => PageStepView::Parse(
            match news {
                PageNews::Unchanged => walk.using_tail().noting(
                    "no change from GitHub, remaining pages can reuse cache"@,
                ),
                PageNews::Updated => walk.updating().noting("updated from GitHub"@),
                PageNews::TailMissing => walk.updating().noting(
                    "fetched fresh (cached tail missing)"@,
                ),
            },
            IssueSource::Fresh,
            body,
        ),
    }
}

/// Numbers as a list: `[1, 2]`.
pub open spec fn number_list(numbers: Seq<u32>) -> Seq<char> {
    "["@ + joined(decimals(numbers), ", "@) + "]"@
}

/// Each number in decimal.
pub open spec fn decimals(numbers: Seq<u32>) -> Seq<Seq<char>> {
    Seq::new(numbers.len(), |i: int| decimal(numbers[i] as nat))
}

/// What is said of a walk when it is over.
pub open spec fn walk_summary(walk: WalkView) -> Seq<char> {
    if walk.updated_pages.len() == 0 {
        "leaderboard refresh: no new issue pages found; "@ + joined(walk.page_logs, " | "@)
    } else {
        "leaderboard refresh: updated issue pages "@ + number_list(walk.updated_pages) + "; "@
            + joined(walk.page_logs, " | "@)
    }
}

/// The step after the issues of the page were read. A page that is not full is the last.
pub open spec fn page_after_batch(
    walk: WalkView,
    source: IssueSource,
    reply: Result<Seq<GitHubIssue>, AppError>,
) -> PageStepView {
    match reply {
        Err(error) => PageStepView::Failed(error),
        Ok(batch) => {
            let issues = walk.issues + counted(batch, source);
            if batch.len() < PAGE_SIZE {
                PageStepView::Finished(issues, walk_summary(walk))
            } else {
                PageStepView::ReadCache(WalkView { page: walk.page + 1, issues, ..walk })
            }
        },
    }
}

/// The first step of a walk through the closed issues.
pub fn fetch_all_closed_issues() -> (step: PageStep)
    ensures
        step@ == PageStepView::ReadCache(new_walk()),
{
    let walk = PageWalk {
        page: 1,
        issues: Vec::new(),
        use_cached_tail: false,
        updated_pages: Vec::new(),
        page_logs: Vec::new(),
    };
    assert(texts(walk.page_logs@) =~= Seq::<Seq<char>>::empty());
    PageStep::ReadCache(walk)
}

impl PageWalk {
    /// Where the current page is.
    pub fn url(&self) -> (url: String)
        ensures
            url@ == issues_page_address(self@.page),
    {
        issues_page_url(self.page)
    }

    /// Notes what happened to the current page.
    fn note(&mut self, what: &str)
        ensures
            final(self)@ == old(self)@.noting(what@),
    {
        let mut line = String::new();
        line.append("page ");
        line.append(&decimal_of(self.page as u64));
        line.append(": ");
        line.append(what);
        assert(line@ =~= page_note(self.page as nat, what@));
        self.page_logs.push(line);
        assert(texts(self.page_logs@) =~= texts(old(self).page_logs@).push(line@));
    }

    /// Goes on after the cache was read.
    pub fn on_cache(self, reply: Result<Option<String>, AppError>) -> (step: PageStep)
        ensures
            step@ == page_after_cache(
                self@,
                match reply {
                    Ok(cached) => Ok(opt_text(cached)),
                    Err(error) => Err(error),
                },
            ),
    {
        match reply {
            Err(error) => PageStep::Failed(error),
            Ok(Some(body)) => if self.use_cached_tail {
                let mut walk = self;
                walk.note("reused cached tail");
                PageStep::Parse(walk, IssueSource::Cached, body)
            } else {
                PageStep::FetchNetwork(self, Some(body))
            },
            Ok(None) => PageStep::FetchNetwork(self, None),
        }
    }

    /// Goes on after the network has answered.
    pub fn on_network(self, cached: Option<String>, reply: Result<String, AppError>) -> (step:
        PageStep)
        ensures
            step@ == page_after_network(
                self@,
                opt_text(cached),
                match reply {
                    Ok(body) => Ok(body@),
                    Err(error) => Err(error),
                },
            ),
    {
        match reply {
            Ok(body) => {
                let unchanged: bool = match &cached {
                    Some(old_body) => *old_body == body,
                    None => false,
                };
                let news = if self.use_cached_tail {
                    PageNews::TailMissing
                } else if unchanged {
                    PageNews::Unchanged
                } else {
                    PageNews::Updated
                };
                PageStep::WriteCache(self, news, body)
            },
            Err(error) => match cached {
                None => PageStep::Failed(error),
                Some(body) => {
                    let mut walk = self;
                    walk.use_cached_tail = true;
                    let mut what = String::new();
                    what.append("GitHub failed (");
                    what.append(error.message());
                    what.append("), reused cached page");
                    assert(what@ =~= "GitHub failed ("@ + error.text() + "), reused cached page"@);
                    walk.note(&what);
                    PageStep::Parse(walk, IssueSource::Cached, body)
                },
            },
        }
    }

    /// Goes on after the page was put into the cache.
    pub fn on_written(self, news: PageNews, body: String, reply: Result<(), AppError>) -> (step:
        PageStep)
        ensures
            step@ == page_after_write(self@, news, body@, reply),
    {
        match reply {
            Err(error) => PageStep::Failed(error),
            Ok(_) => {
                let mut walk = self;
                match news {
                    PageNews::Unchanged => {
                        walk.use_cached_tail = true;
                        walk.note("no change from GitHub, remaining pages can reuse cache");
                    },
                    PageNews::Updated => {
                        walk.updated_pages.push(walk.page);
                        walk.note("updated from GitHub");
                    },
                    PageNews::TailMissing => {
                        walk.updated_pages.push(walk.page);
                        walk.note("fetched fresh (cached tail missing)");
                    },
                }
                PageStep::Parse(walk, IssueSource::Fresh, body)
            },
        }
    }

    /// What is said of the walk when it is over.
    fn summary(&self) -> (line: String)
        ensures
            line@ == walk_summary(self@),
    {
        let mut line = String::new();
        if self.updated_pages.len() == 0 {
            line.append("leaderboard refresh: no new issue pages found; ");
        } else {
            line.append("leaderboard refresh: updated issue pages ");
            line.append(&list_of(&self.updated_pages));
            line.append("; ");
        }
        line.append(&join(&self.page_logs, " | "));
        assert(line@ =~= walk_summary(self@));
        line
    }

    /// Goes on after the issues of the page were read.
    pub fn on_batch(self, source: IssueSource, reply: Result<Vec<GitHubIssue>, AppError>) -> (step:
        PageStep)
        requires
            self.page < u32::MAX,
        ensures
            step@ == page_after_batch(
                self@,
                source,
                match reply {
                    Ok(batch) => Ok(batch@),
                    Err(error) => Err(error),
                },
            ),
    {
        match reply {
            Err(error) => PageStep::Failed(error),
            Ok(batch) => {
                let size: usize = batch.len();
                let mut found = counting(batch, source);
                let mut walk = self;
                walk.issues.append(&mut found);
                if size < PAGE_SIZE {
                    let summary = walk.summary();
                    PageStep::Finished(walk.issues, summary)
                } else {
                    walk.page += 1;
                    PageStep::ReadCache(walk)
                }
            },
        }
    }
}

/// The issues of a page that count.
fn counting(batch: Vec<GitHubIssue>, source: IssueSource) -> (found: Vec<SourcedIssue>)
    ensures
        found@ == counted(batch@, source),
{
    let mut found: Vec<SourcedIssue> = Vec::new();
    let ghost all = batch@;
    assert(all.take(0) =~= Seq::<GitHubIssue>::empty());
    for issue in it: batch
        invariant
            it.seq() == all,
            found@ == counted(all.take(it.index() as int), source),
    {
        proof {
            let next = all.take(it.index() + 1);
            assert(next.drop_last() =~= all.take(it.index() as int));
            assert(next.last() == issue);
        }
        if !issue.pull_request && issue.comments > 0 {
            found.push(SourcedIssue { issue, source });
        }
    }
    assert(all.take(all.len() as int) =~= all);
    found
}

/// Numbers as a list.
fn list_of(numbers: &Vec<u32>) -> (s: String)
    ensures
        s@ == number_list(numbers@),
{
    let mut items: Vec<String> = Vec::new();
    let mut i: usize = 0;
    while i < numbers.len()
        invariant
            i <= numbers@.len(),
            items@.len() == i,
            forall|j: int| 0 <= j < i ==> items@[j]@ == decimal(numbers@[j] as nat),
        decreases numbers@.len() - i,
    {
        items.push(decimal_of(numbers[i] as u64));
        i += 1;
    }
    assert(texts(items@) =~= decimals(numbers@));
    let mut s = String::new();
    s.append("[");
    s.append(&join(&items, ", "));
    s.append("]");
    assert(s@ =~= number_list(numbers@));
    s
}

/// The numbers grow, and the last is no greater than `page`.
pub open spec fn grows_up_to(numbers: Seq<u32>, page: nat) -> bool {
    &&& forall|i: int, j: int| 0 <= i < j < numbers.len() ==> numbers[i] < numbers[j]
    &&& forall|i: int| 0 <= i < numbers.len() ==> 1 <= #[trigger] numbers[i] <= page
}

/// What holds of a walk that has dealt with `done` pages: the issues are such as count,
/// there is a note on every page, and the updated pages are among these, in order.
pub open spec fn walk_holds(walk: WalkView, done: nat) -> bool {
    &&& forall|i: int| 0 <= i < walk.issues.len() ==> counts((#[trigger] walk.issues[i]).issue)
    &&& walk.page_logs.len() == done
    &&& grows_up_to(walk.updated_pages, done)
    &&& 1 <= walk.page <= u32::MAX
}

/// What holds at every step of a walk.
pub open spec fn step_holds(step: PageStepView) -> bool {
    match step {
        PageStepView::ReadCache(walk) => walk_holds(walk, (walk.page - 1) as nat),
        PageStepView::FetchNetwork(walk, cached) => {
            &&& walk_holds(walk, (walk.page - 1) as nat)
            &&& walk.use_cached_tail ==> cached is None
        },
        PageStepView::WriteCache(walk, news, _) => {
            &&& walk_holds(walk, (walk.page - 1) as nat)
            &&& walk.use_cached_tail <==> news == PageNews::TailMissing
        },
        PageStepView::Parse(walk, source, _) => {
            &&& walk_holds(walk, walk.page)
            &&& source == IssueSource::Cached ==> walk.use_cached_tail
        },
        PageStepView::Finished(issues, _) => forall|i: int|
            0 <= i < issues.len() ==> counts((#[trigger] issues[i]).issue),
        PageStepView::Failed(_) => true,
    }
}

proof fn lemma_counted(batch: Seq<GitHubIssue>, source: IssueSource)
    ensures
        forall|i: int|
            0 <= i < counted(batch, source).len() ==> counts(
                (#[trigger] counted(batch, source)[i]).issue,
            ) && counted(batch, source)[i].source == source && batch.contains(
                counted(batch, source)[i].issue,
            ),
        forall|i: int|
            0 <= i < batch.len() && counts(#[trigger] batch[i]) ==> counted(
                batch,
                source,
            ).contains(SourcedIssue { issue: batch[i], source }),
    decreases batch.len(),
{
    if batch.len() > 0 {
        let front = batch.drop_last();
        let found = counted(batch, source);
        let earlier = counted(front, source);
        lemma_counted(front, source);
        assert forall|i: int| 0 <= i < found.len() implies counts((#[trigger] found[i]).issue)
            && found[i].source == source && batch.contains(found[i].issue) by {
            if i < earlier.len() {
                assert(found[i] == earlier[i]);
                let k = choose|k: int| 0 <= k < front.len() && front[k] == earlier[i].issue;
                assert(batch[k] == found[i].issue);
            } else {
                assert(batch[batch.len() - 1] == found[i].issue);
            }
        }
        assert forall|i: int| 0 <= i < batch.len() && counts(#[trigger] batch[i]) implies
            found.contains(SourcedIssue { issue: batch[i], source }) by {
            if i < front.len() {
                assert(front[i] == batch[i]);
                let wanted = SourcedIssue { issue: front[i], source };
                assert(earlier.contains(wanted));
                let k = choose|k: int| 0 <= k < earlier.len() && earlier[k] == wanted;
                assert(found[k] == wanted);
            } else {
                assert(found[found.len() - 1] == (SourcedIssue { issue: batch[i], source }));
            }
        }
    }
}

/// Of a page just the issues that count are taken, each with the source of the page.
pub proof fn law_issues_that_count_are_taken(
    batch: Seq<GitHubIssue>,
    source: IssueSource,
    sourced: SourcedIssue,
)
    ensures
        counted(batch, source).contains(sourced) <==> sourced.source == source && counts(
            sourced.issue,
        ) && batch.contains(sourced.issue),
{
    lemma_counted(batch, source);
    let found = counted(batch, source);
    if found.contains(sourced) {
        let k = choose|k: int| 0 <= k < found.len() && found[k] == sourced;
        assert(counts(found[k].issue));
    }
    if sourced.source == source && counts(sourced.issue) && batch.contains(sourced.issue) {
        let k = choose|k: int| 0 <= k < batch.len() && batch[k] == sourced.issue;
        assert(counts(batch[k]));
    }
}

/// Every step of a walk keeps what holds, from the first one on.
pub proof fn law_walk_holds_at_every_step(
    walk: WalkView,
    cached: Option<Seq<char>>,
    news: PageNews,
    source: IssueSource,
    body: Seq<char>,
    lookup: Result<Option<Seq<char>>, AppError>,
    answer: Result<Seq<char>, AppError>,
    written: Result<(), AppError>,
    batch: Result<Seq<GitHubIssue>, AppError>,
)
    ensures
        step_holds(PageStepView::ReadCache(new_walk())),
        step_holds(PageStepView::ReadCache(walk)) ==> step_holds(page_after_cache(walk, lookup)),
        step_holds(PageStepView::FetchNetwork(walk, cached)) ==> step_holds(
            page_after_network(walk, cached, answer),
        ),
        step_holds(PageStepView::WriteCache(walk, news, body)) ==> step_holds(
            page_after_write(walk, news, body, written),
        ),
        step_holds(PageStepView::Parse(walk, source, body)) && walk.page < u32::MAX ==> step_holds(
            page_after_batch(walk, source, batch),
        ),
{
    if let Ok(batch) = batch {
        lemma_counted(batch, source);
        let more = walk.issues + counted(batch, source);
        if step_holds(PageStepView::Parse(walk, source, body)) {
            assert forall|i: int| 0 <= i < more.len() implies counts((#[trigger] more[i]).issue) by {
                if i < walk.issues.len() {
                    assert(counts(walk.issues[i].issue));
                } else {
                    assert(more[i] == counted(batch, source)[i - walk.issues.len()]);
                }
            }
        }
    }
}

/// Once the cached pages are taken as they are, they are to the end of the walk, and a
/// page that is in the cache is not fetched any more.
pub proof fn law_cached_tail_is_not_fetched(
    walk: WalkView,
    cached: Seq<char>,
    source: IssueSource,
    batch: Result<Seq<GitHubIssue>, AppError>,
)
    requires
        walk.use_cached_tail,
    ensures
        page_after_cache(walk, Ok(Some(cached))) matches PageStepView::Parse(next, from, body)
            && next.use_cached_tail && from == IssueSource::Cached && body == cached,
        page_after_batch(walk, source, batch) matches PageStepView::ReadCache(next)
            ==> next.use_cached_tail,
{
}

/// A page that has not changed, or that cannot be fetched but is in the cache, makes
/// the following pages come from the cache.
pub proof fn law_unchanged_page_ends_fetching(
    walk: WalkView,
    cached: Seq<char>,
    error: AppError,
)
    requires
        !walk.use_cached_tail,
    ensures
        page_after_network(walk, Some(cached), Ok(cached)) == PageStepView::WriteCache(
            walk,
            PageNews::Unchanged,
            cached,
        ),
        page_after_write(walk, PageNews::Unchanged, cached, Ok(())) matches PageStepView::Parse(
            next,
            _,
            _,
        ) && next.use_cached_tail && next.updated_pages == walk.updated_pages,
        page_after_network(walk, Some(cached), Err(error)) matches PageStepView::Parse(
            next,
            from,
            body,
        ) && next.use_cached_tail && from == IssueSource::Cached && body == cached,
{
}

/// The walk goes on after a full page, with the next one, and ends with any other.
pub proof fn law_short_page_ends_walk(walk: WalkView, source: IssueSource, batch: Seq<GitHubIssue>)
    ensures
        batch.len() < PAGE_SIZE <==> page_after_batch(walk, source, Ok(batch)) is Finished,
        batch.len() >= PAGE_SIZE ==> (page_after_batch(
            walk,
            source,
            Ok(batch),
        ) matches PageStepView::ReadCache(next) && next.page == walk.page + 1),
{
}

/// The issues that a step holds.
pub open spec fn issues_in(step: PageStepView) -> Seq<SourcedIssue> {
    match step {
        PageStepView::ReadCache(walk) => walk.issues,
        PageStepView::Finished(issues, _) => issues,
        _ => Seq::empty(),
    }
}

proof fn lemma_counted_filter(batch: Seq<GitHubIssue>, source: IssueSource)
    ensures
        counted(batch, source) == batch.filter(
            |issue: GitHubIssue| !issue.pull_request && issue.comments >= 1,
        ).map_values(|issue: GitHubIssue| SourcedIssue { issue, source }),
    decreases batch.len(),
{
    reveal(Seq::filter);
    let wanted = |issue: GitHubIssue| !issue.pull_request && issue.comments >= 1;
    let sourced = |issue: GitHubIssue| SourcedIssue { issue, source };
    if batch.len() > 0 {
        lemma_counted_filter(batch.drop_last(), source);
        let (front, last) = (batch.drop_last(), batch.last());
        assert(batch.filter(wanted) == if wanted(last) {
            front.filter(wanted).push(last)
        } else {
            front.filter(wanted)
        });
        assert(counts(last) == wanted(last));
    }
    assert(counted(batch, source) =~= batch.filter(wanted).map_values(sourced));
}

/// After a page the walk has the issues that it had before, and after them, in the order
/// of the page and each with the source of the page, just those issues that are no pull
/// request and have one comment or more.
pub proof fn law_commented_issues_join_the_walk(
    walk: WalkView,
    source: IssueSource,
    batch: Seq<GitHubIssue>,
)
    ensures
        issues_in(page_after_batch(walk, source, Ok(batch))) == walk.issues + batch.filter(
            |issue: GitHubIssue| !issue.pull_request && issue.comments >= 1,
        ).map_values(|issue: GitHubIssue| SourcedIssue { issue, source }),
{
    lemma_counted_filter(batch, source);
}

/// An issue of the page is among the issues found if and only if it is no pull request and
/// has a comment, however many there are.
pub proof fn law_issue_is_found_by_its_comments(
    walk: WalkView,
    source: IssueSource,
    batch: Seq<GitHubIssue>,
    i: int,
)
    requires
        0 <= i < batch.len(),
    ensures
        !batch[i].pull_request && batch[i].comments >= 1 ==> issues_in(
            page_after_batch(walk, source, Ok(batch)),
        ).contains(SourcedIssue { issue: batch[i], source }),
        batch[i].pull_request || batch[i].comments == 0 ==> !counted(batch, source).contains(
            SourcedIssue { issue: batch[i], source },
        ),
{
    law_issues_that_count_are_taken(
        batch,
        source,
        SourcedIssue { issue: batch[i], source },
    );
    assert(batch.contains(batch[i]));
    assert(counts(batch[i]) == (!batch[i].pull_request && batch[i].comments >= 1));
    let found = counted(batch, source);
    let wanted = SourcedIssue { issue: batch[i], source };
    if found.contains(wanted) {
        let k = choose|k: int| 0 <= k < found.len() && found[k] == wanted;
        let all = issues_in(page_after_batch(walk, source, Ok(batch)));
        assert(all[walk.issues.len() + k] == wanted);
    }
}

/// More comments on an issue never remove it from the issues found.
pub proof fn law_more_comments_keep_an_issue(issue: GitHubIssue, busier: GitHubIssue)
    requires
        busier.pull_request == issue.pull_request,
        busier.comments >= issue.comments,
        counts(issue),
    ensures
        counts(busier),
{
}

/// What a look into the cache leads to: a failure ends the walk, a cached page of the tail
/// is taken as it is, and every other page is fetched.
pub proof fn law_after_cache_lookup(
    walk: WalkView,
    reply: Result<Option<Seq<char>>, AppError>,
)
    ensures
        match reply {
            Err(error) => page_after_cache(walk, reply) == PageStepView::Failed(error),
            Ok(None) => page_after_cache(walk, reply) == PageStepView::FetchNetwork(walk, None),
            Ok(Some(body)) => if walk.use_cached_tail {
                page_after_cache(walk, reply) matches PageStepView::Parse(next, source, text)
                    && source == IssueSource::Cached && text == body && keeps_findings(walk, next)
                    && next.updated_pages == walk.updated_pages && next.use_cached_tail
                    && next.page_logs == walk.page_logs.push(
                    "page "@ + decimal(walk.page) + ": reused cached tail"@,
                )
            } else {
                page_after_cache(walk, reply) == PageStepView::FetchNetwork(walk, Some(body))
            },
        },
{
    reveal_strlit(": ");
    reveal_strlit("reused cached tail");
    reveal_strlit(": reused cached tail");
    assert("page "@ + decimal(walk.page) + ": "@ + "reused cached tail"@ =~= "page "@ + decimal(
        walk.page,
    ) + ": reused cached tail"@);
}

/// The walk is on the same page, with the same issues found before it.
pub open spec fn keeps_findings(walk: WalkView, next: WalkView) -> bool {
    next.page == walk.page && next.issues == walk.issues
}

/// What an answer of the network leads to: a page that was delivered is put into the cache,
/// and in place of one that was not the cached one is read, where there is one.
pub proof fn law_after_network_answer(
    walk: WalkView,
    cached: Option<Seq<char>>,
    reply: Result<Seq<char>, AppError>,
)
    ensures
        match (reply, cached) {
            (Ok(body), _) => page_after_network(walk, cached, reply) matches PageStepView::WriteCache(
                next,
                news,
                text,
            ) && next == walk && text == body && (walk.use_cached_tail <==> news
                == PageNews::TailMissing) && (!walk.use_cached_tail && cached == Some(body)
                <==> news == PageNews::Unchanged) && (!walk.use_cached_tail && cached != Some(body)
                <==> news == PageNews::Updated),
            (Err(error), None) => page_after_network(walk, cached, reply) == PageStepView::Failed(
                error,
            ),
            (Err(error), Some(body)) => page_after_network(
                walk,
                cached,
                reply,
            ) matches PageStepView::Parse(next, source, text) && source == IssueSource::Cached
                && text == body && keeps_findings(walk, next) && next.use_cached_tail
                && next.updated_pages == walk.updated_pages && next.page_logs
                == walk.page_logs.push(
                "page "@ + decimal(walk.page) + ": GitHub failed ("@ + error.text()
                    + "), reused cached page"@,
            ),
        },
{
    if let (Err(error), Some(_)) = (reply, cached) {
        reveal_strlit(": ");
        reveal_strlit("GitHub failed (");
        reveal_strlit(": GitHub failed (");
        assert(": "@ + "GitHub failed ("@ =~= ": GitHub failed ("@);
        assert("page "@ + decimal(walk.page) + ": "@ + ("GitHub failed ("@ + error.text()
            + "), reused cached page"@) =~= "page "@ + decimal(walk.page) + ": GitHub failed ("@
            + error.text() + "), reused cached page"@);
    }
}

/// What follows once a fetched page is in the cache: it is read as a fresh one. One that
/// has not changed ends the fetching, and every other one counts as updated.
pub proof fn law_after_cache_write(
    walk: WalkView,
    news: PageNews,
    body: Seq<char>,
    reply: Result<(), AppError>,
)
    ensures
        match reply {
            Err(error) => page_after_write(walk, news, body, reply) == PageStepView::Failed(error),
            Ok(_) => page_after_write(walk, news, body, reply) matches PageStepView::Parse(
                next,
                source,
                text,
            ) && source == IssueSource::Fresh && text == body && keeps_findings(walk, next)
                && next.use_cached_tail == (walk.use_cached_tail || news == PageNews::Unchanged)
                && next.updated_pages == (if news == PageNews::Unchanged {
                walk.updated_pages
            } else {
                walk.updated_pages.push(walk.page as u32)
            }) && next.page_logs == walk.page_logs.push(
                "page "@ + decimal(walk.page) + match news {
                    PageNews::Unchanged =>
                        ": no change from GitHub, remaining pages can reuse cache"@,
                    PageNews::Updated => ": updated from GitHub"@,
                    PageNews::TailMissing => ": fetched fresh (cached tail missing)"@,
                },
            ),
        },
{
    reveal_strlit(": ");
    reveal_strlit("no change from GitHub, remaining pages can reuse cache");
    reveal_strlit(": no change from GitHub, remaining pages can reuse cache");
    reveal_strlit("updated from GitHub");
    reveal_strlit(": updated from GitHub");
    reveal_strlit("fetched fresh (cached tail missing)");
    reveal_strlit(": fetched fresh (cached tail missing)");
    let start = "page "@ + decimal(walk.page);
    assert(start + ": "@ + "no change from GitHub, remaining pages can reuse cache"@ =~= start
        + ": no change from GitHub, remaining pages can reuse cache"@);
    assert(start + ": "@ + "updated from GitHub"@ =~= start + ": updated from GitHub"@);
    assert(start + ": "@ + "fetched fresh (cached tail missing)"@ =~= start
        + ": fetched fresh (cached tail missing)"@);
}

/// What follows once the issues of a page are read: a page with fewer than a hundred
/// issues is the last, and after every other one the next page comes.
pub proof fn law_after_page_is_read(
    walk: WalkView,
    source: IssueSource,
    reply: Result<Seq<GitHubIssue>, AppError>,
)
    ensures
        match reply {
            Err(error) => page_after_batch(walk, source, reply) == PageStepView::Failed(error),
            Ok(batch) => if batch.len() < 100 {
                page_after_batch(walk, source, reply) is Finished
            } else {
                page_after_batch(walk, source, reply) matches PageStepView::ReadCache(next)
                    && next.page == walk.page + 1 && next.use_cached_tail == walk.use_cached_tail
                    && next.updated_pages == walk.updated_pages && next.page_logs == walk.page_logs
            },
        },
{
}

/// The summary tells whether pages were updated, names them, and ends with the notes on
/// all pages.
pub proof fn law_summary_tells_the_walk(walk: WalkView)
    ensures
        ends_with(walk_summary(walk), "; "@ + joined(walk.page_logs, " | "@)),
        walk.updated_pages.len() == 0 <==> begins_with(
            walk_summary(walk),
            "leaderboard refresh: no new issue pages found"@,
        ),
        walk.updated_pages.len() > 0 ==> begins_with(
            walk_summary(walk),
            "leaderboard refresh: updated issue pages "@ + number_list(walk.updated_pages) + "; "@,
        ),
{
    let notes = joined(walk.page_logs, " | "@);
    let line = walk_summary(walk);
    reveal_strlit("; ");
    reveal_strlit("leaderboard refresh: no new issue pages found; ");
    reveal_strlit("leaderboard refresh: no new issue pages found");
    reveal_strlit("leaderboard refresh: updated issue pages ");
    let none = "leaderboard refresh: no new issue pages found"@;
    let some = "leaderboard refresh: updated issue pages "@;
    assert(line.skip(line.len() - ("; "@ + notes).len()) =~= "; "@ + notes);
    if walk.updated_pages.len() == 0 {
        assert(line.take(none.len() as int) =~= none);
    } else {
        assert(line[21] == some[21]);
        assert(none[21] != some[21]);
        if begins_with(line, none) {
            assert(line.take(none.len() as int)[21] == none[21]);
        }
        let head = some + number_list(walk.updated_pages) + "; "@;
        assert(line.take(head.len() as int) =~= head);
    }
}

/// The model of a walk and of its steps leaves nothing out: all pages, issues, notes and texts
/// are in it.
pub proof fn law_model_shows_the_walk(walk: PageWalk, step: PageStep)
    ensures
        walk@.page == walk.page,
        walk@.issues == walk.issues@,
        walk@.use_cached_tail == walk.use_cached_tail,
        walk@.updated_pages == walk.updated_pages@,
        walk@.page_logs.len() == walk.page_logs@.len(),
        forall|i: int|
            0 <= i < walk.page_logs@.len() ==> #[trigger] walk@.page_logs[i]
                == walk.page_logs@[i]@,
        step matches PageStep::ReadCache(walk) ==> step@ == PageStepView::ReadCache(walk@),
        step matches PageStep::FetchNetwork(walk, cached) ==> (step@ matches PageStepView::FetchNetwork(
            seen,
            body,
        ) && seen == walk@ && (cached is Some <==> body is Some) && (cached is Some ==> body
            == Some(cached->0@))),
        step matches PageStep::WriteCache(walk, news, body) ==> step@ == PageStepView::WriteCache(
            walk@,
            news,
            body@,
        ),
        step matches PageStep::Parse(walk, source, body) ==> step@ == PageStepView::Parse(
            walk@,
            source,
            body@,
        ),
        step matches PageStep::Finished(issues, summary) ==> step@ == PageStepView::Finished(
            issues@,
            summary@,
        ),
        step matches PageStep::Failed(error) ==> step@ == PageStepView::Failed(error),
{
}

/// A list of numbers names all of them, in their order, between brackets.
pub proof fn law_number_list_names_all(numbers: Seq<u32>, k: int)
    ensures
        decimals(numbers).len() == numbers.len(),
        0 <= k < numbers.len() ==> decimals(numbers)[k] == decimal(numbers[k] as nat),
        number_list(numbers) == seq!['['] + joined(decimals(numbers), ", "@) + seq![']'],
{
    reveal_strlit("[");
    reveal_strlit("]");
    assert("["@ =~= seq!['[']);
    assert("]"@ =~= seq![']']);
}

/// A walk begins with the first page, with nothing found, and fetches.
pub proof fn law_walk_begins_with_the_first_page()
    ensures
        new_walk().page == 1,
        new_walk().issues.len() == 0,
        !new_walk().use_cached_tail,
        new_walk().updated_pages.len() == 0,
        new_walk().page_logs.len() == 0,
{
}

} // verus!
