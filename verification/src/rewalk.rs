//! What a walk through the pages leaves in the cache, and what a later walk makes of it.

use crate::model::{AppError, GitHubIssue, IssueSource, SourcedIssue};
use crate::pages::{
    counted, counts, new_walk, page_after_batch, page_after_cache, page_after_network,
    page_after_write, PageStepView, WalkView, PAGE_SIZE,
};
use vstd::prelude::*;

verus! {

/// What the network answers for each page, and how the text of a page is read.
pub struct Pages {
    pub network: spec_fn(nat) -> Result<Seq<char>, AppError>,
    pub read: spec_fn(Seq<char>) -> Result<Seq<GitHubIssue>, AppError>,
}

/// What the cache holds, and the pages that the network was asked for so far.
pub struct Surroundings {
    pub cache: Map<nat, Seq<char>>,
    pub asked: Seq<nat>,
}

impl Surroundings {
    /// What the cache holds of a page.
    pub open spec fn lookup(self, page: nat) -> Option<Seq<char>> {
        if self.cache.dom().contains(page) {
            Some(self.cache[page])
        } else {
            None
        }
    }
}

/// The end of a page: its issues are read.
pub open spec fn end_of_page(step: PageStepView, pages: Pages) -> PageStepView {
    match step {
        PageStepView::Parse(walk, source, body) => page_after_batch(
            walk,
            source,
            (pages.read)(body),
        ),
        other => other,
    }
}

/// All steps for one page, where the cache works.
pub open spec fn one_page(walk: WalkView, around: Surroundings, pages: Pages) -> (
    PageStepView,
    Surroundings,
) {
    match page_after_cache(walk, Ok(around.lookup(walk.page))) {
        PageStepView::FetchNetwork(walk, cached) => {
            let asked = around.asked.push(walk.page);
            match page_after_network(walk, cached, (pages.network)(walk.page)) {
                PageStepView::WriteCache(walk, news, body) => (
                    end_of_page(page_after_write(walk, news, body, Ok(())), pages),
                    Surroundings { cache: around.cache.insert(walk.page, body), asked },
                ),
                step => (end_of_page(step, pages), Surroundings { asked, ..around }),
            }
        },
        step => (end_of_page(step, pages), around),
    }
}

/// A walk over up to `count` pages.
pub open spec fn whole_walk(
    walk: WalkView,
    around: Surroundings,
    pages: Pages,
    count: nat,
) -> (PageStepView, Surroundings)
    decreases count,
{
    if count == 0 {
        (PageStepView::ReadCache(walk), around)
    } else {
        match one_page(walk, around, pages) {
            (PageStepView::ReadCache(next), around) => whole_walk(
                next,
                around,
                pages,
                (count - 1) as nat,
            ),
            last => last,
        }
    }
}

/// The issues, without where they come from.
pub open spec fn plain(issues: Seq<SourcedIssue>) -> Seq<GitHubIssue> {
    Seq::new(issues.len(), |i: int| issues[i].issue)
}

/// The issues of a page that count.
pub open spec fn issues_on(cache: Map<nat, Seq<char>>, pages: Pages, page: nat) -> Seq<GitHubIssue> {
    (pages.read)(cache[page])->Ok_0.filter(
        |issue: GitHubIssue| !issue.pull_request && issue.comments >= 1,
    )
}

/// The issues that count of the first `last` pages in the cache.
pub open spec fn issues_up_to(cache: Map<nat, Seq<char>>, pages: Pages, last: nat) -> Seq<
    GitHubIssue,
>
    decreases last,
{
    if last == 0 {
        Seq::empty()
    } else {
        issues_up_to(cache, pages, (last - 1) as nat) + issues_on(cache, pages, last)
    }
}

/// The page is in the cache, and can be read.
pub open spec fn is_cached(cache: Map<nat, Seq<char>>, pages: Pages, page: nat) -> bool {
    cache.dom().contains(page) && (pages.read)(cache[page]) is Ok
}

/// How many issues the page lists.
pub open spec fn size_of(cache: Map<nat, Seq<char>>, pages: Pages, page: nat) -> nat {
    (pages.read)(cache[page])->Ok_0.len()
}

/// The cache holds all pages up to `last`, which is the first that is not full.
pub open spec fn complete(cache: Map<nat, Seq<char>>, pages: Pages, last: nat) -> bool {
    &&& last >= 1
    &&& forall|page: nat| 1 <= page <= last ==> #[trigger] is_cached(cache, pages, page)
    &&& forall|page: nat| 1 <= page < last ==> #[trigger] size_of(cache, pages, page) >= PAGE_SIZE
    &&& size_of(cache, pages, last) < PAGE_SIZE
}

/// The walk has come to its page over full pages that are all in the cache.
spec fn on_the_way(walk: WalkView, cache: Map<nat, Seq<char>>, pages: Pages) -> bool {
    &&& walk.page >= 1
    &&& forall|page: nat| 1 <= page < walk.page ==> #[trigger] is_cached(cache, pages, page)
    &&& forall|page: nat|
        1 <= page < walk.page ==> #[trigger] size_of(cache, pages, page) >= PAGE_SIZE
    &&& plain(walk.issues) == issues_up_to(cache, pages, (walk.page - 1) as nat)
}

proof fn lemma_counted_plain(batch: Seq<GitHubIssue>, source: IssueSource)
    ensures
        plain(counted(batch, source)) == batch.filter(
            |issue: GitHubIssue| !issue.pull_request && issue.comments >= 1,
        ),
    decreases batch.len(),
{
    let wanted = |issue: GitHubIssue| !issue.pull_request && issue.comments >= 1;
    reveal(Seq::filter);
    if batch.len() > 0 {
        lemma_counted_plain(batch.drop_last(), source);
        assert(counts(batch.last()) == wanted(batch.last()));
        assert(plain(counted(batch, source)) =~= batch.filter(wanted));
    } else {
        assert(plain(counted(batch, source)) =~= batch.filter(wanted));
    }
}

proof fn lemma_plain_adds(a: Seq<SourcedIssue>, b: Seq<SourcedIssue>)
    ensures
        plain(a + b) == plain(a) + plain(b),
{
    assert(plain(a + b) =~= plain(a) + plain(b));
}

/// What stands beyond a page does not matter for the pages up to it.
proof fn lemma_same_pages(
    a: Map<nat, Seq<char>>,
    b: Map<nat, Seq<char>>,
    pages: Pages,
    last: nat,
)
    requires
        forall|page: nat| 1 <= page <= last ==> #[trigger] a[page] == b[page],
    ensures
        issues_up_to(a, pages, last) == issues_up_to(b, pages, last),
    decreases last,
{
    if last > 0 {
        lemma_same_pages(a, b, pages, (last - 1) as nat);
        assert(a[last] == b[last]);
    }
}

/// One page of a walk: what the walk takes from it is what the cache holds afterwards.
proof fn lemma_one_page(walk: WalkView, around: Surroundings, pages: Pages)
    requires
        on_the_way(walk, around.cache, pages),
    ensures
        ({
            let (step, after) = one_page(walk, around, pages);
            match step {
                PageStepView::ReadCache(next) => {
                    &&& next.page == walk.page + 1
                    &&& on_the_way(next, after.cache, pages)
                },
                PageStepView::Finished(issues, _) => {
                    &&& complete(after.cache, pages, walk.page)
                    &&& plain(issues) == issues_up_to(after.cache, pages, walk.page)
                },
                _ => true,
            }
        }),
{
    let (step, after) = one_page(walk, around, pages);
    let page = walk.page;
    assert forall|other: nat| 1 <= other < page implies #[trigger] is_cached(
        after.cache,
        pages,
        other,
    ) && after.cache[other] == around.cache[other] by {
        assert(is_cached(around.cache, pages, other));
    }
    assert forall|other: nat| 1 <= other < page implies #[trigger] size_of(
        after.cache,
        pages,
        other,
    ) >= PAGE_SIZE by {
        assert(is_cached(after.cache, pages, other));
        assert(size_of(around.cache, pages, other) >= PAGE_SIZE);
    }
    assert forall|other: nat| 1 <= other <= page - 1 implies #[trigger] around.cache[other]
        == after.cache[other] by {
        assert(is_cached(after.cache, pages, other));
    }
    lemma_same_pages(around.cache, after.cache, pages, (page - 1) as nat);
    if step is ReadCache || step is Finished {
        assert(is_cached(after.cache, pages, page));
        let batch = (pages.read)(after.cache[page])->Ok_0;
        lemma_counted_plain(batch, IssueSource::Fresh);
        lemma_counted_plain(batch, IssueSource::Cached);
        lemma_plain_adds(walk.issues, counted(batch, IssueSource::Fresh));
        lemma_plain_adds(walk.issues, counted(batch, IssueSource::Cached));
        assert forall|other: nat| 1 <= other < page + 1 implies #[trigger] is_cached(
            after.cache,
            pages,
            other,
        ) by {}
        if let PageStepView::ReadCache(next) = step {
            assert(plain(next.issues) == issues_up_to(after.cache, pages, page));
            assert(size_of(after.cache, pages, page) >= PAGE_SIZE);
        }
    }
}

/// A walk that ends leaves all its pages in the cache, up to the first that is not full.
/// What it has found are the issues that count on these pages, in their order.
pub proof fn law_walk_fills_cache(around: Surroundings, pages: Pages, count: nat) -> (last: nat)
    ensures
        whole_walk(new_walk(), around, pages, count).0 matches PageStepView::Finished(issues, _)
            ==> {
            let cache = whole_walk(new_walk(), around, pages, count).1.cache;
            &&& last <= count
            &&& complete(cache, pages, last)
            &&& plain(issues) == issues_up_to(cache, pages, last)
        },
{
    assert(plain(new_walk().issues) =~= Seq::<GitHubIssue>::empty());
    lemma_walk_fills_cache(new_walk(), around, pages, count)
}

proof fn lemma_walk_fills_cache(
    walk: WalkView,
    around: Surroundings,
    pages: Pages,
    count: nat,
) -> (last: nat)
    requires
        on_the_way(walk, around.cache, pages),
    ensures
        whole_walk(walk, around, pages, count).0 matches PageStepView::Finished(issues, _) ==> {
            let cache = whole_walk(walk, around, pages, count).1.cache;
            &&& last < walk.page + count
            &&& complete(cache, pages, last)
            &&& plain(issues) == issues_up_to(cache, pages, last)
        },
    decreases count,
{
    if count == 0 {
        0
    } else {
        lemma_one_page(walk, around, pages);
        match one_page(walk, around, pages) {
            (PageStepView::ReadCache(next), after) => lemma_walk_fills_cache(
                next,
                after,
                pages,
                (count - 1) as nat,
            ),
            _ => walk.page,
        }
    }
}

/// A walk that takes the cached pages as they are finds what they hold, and asks for nothing.
proof fn lemma_tail_walk(
    walk: WalkView,
    around: Surroundings,
    pages: Pages,
    last: nat,
    count: nat,
)
    requires
        walk.use_cached_tail,
        on_the_way(walk, around.cache, pages),
        complete(around.cache, pages, last),
        walk.page <= last < walk.page + count,
    ensures
        whole_walk(walk, around, pages, count).1 == around,
        whole_walk(walk, around, pages, count).0 matches PageStepView::Finished(issues, _)
            && plain(issues) == issues_up_to(around.cache, pages, last),
    decreases count,
{
    lemma_one_page(walk, around, pages);
    assert(is_cached(around.cache, pages, walk.page));
    if walk.page < last {
        assert(size_of(around.cache, pages, walk.page) >= PAGE_SIZE);
        let next = one_page(walk, around, pages).0->ReadCache_0;
        lemma_tail_walk(next, around, pages, last, (count - 1) as nat);
    }
}

/// Where nothing has changed on GitHub since a walk, or GitHub does not answer, the next
/// walk asks for the first page only and finds the same issues. The cache stays as it is.
pub proof fn law_next_walk_asks_once(
    around: Surroundings,
    pages: Pages,
    count: nat,
    later: spec_fn(nat) -> Result<Seq<char>, AppError>,
)
    requires
        whole_walk(new_walk(), around, pages, count).0 is Finished,
        later(1) is Ok ==> later(1)->Ok_0 == whole_walk(
            new_walk(),
            around,
            pages,
            count,
        ).1.cache[1],
    ensures
        ({
            let (first, after) = whole_walk(new_walk(), around, pages, count);
            let (second, at_end) = whole_walk(
                new_walk(),
                Surroundings { asked: Seq::empty(), ..after },
                Pages { network: later, ..pages },
                count,
            );
            &&& at_end.asked == seq![1nat]
            &&& at_end.cache == after.cache
            &&& second matches PageStepView::Finished(issues, _) && plain(issues) == plain(
                first->Finished_0,
            )
        }),
{
    let walk = new_walk();
    let (first, after) = whole_walk(walk, around, pages, count);
    let last = law_walk_fills_cache(around, pages, count);
    let start = Surroundings { asked: Seq::empty(), ..after };
    let again = Pages { network: later, ..pages };
    assert(plain(walk.issues) =~= Seq::<GitHubIssue>::empty());
    assert(complete(start.cache, again, last)) by {
        assert forall|page: nat| 1 <= page <= last implies #[trigger] is_cached(
            start.cache,
            again,
            page,
        ) by {
            assert(is_cached(after.cache, pages, page));
        }
        assert forall|page: nat| 1 <= page < last implies #[trigger] size_of(
            start.cache,
            again,
            page,
        ) >= PAGE_SIZE by {
            assert(size_of(after.cache, pages, page) >= PAGE_SIZE);
        }
        assert(size_of(after.cache, pages, last) < PAGE_SIZE);
    }
    lemma_same_read(after.cache, pages, again, last);
    assert(is_cached(start.cache, again, 1));
    assert(start.cache.insert(1, start.cache[1]) =~= start.cache);
    lemma_one_page(walk, start, again);
    let (step, next_around) = one_page(walk, start, again);
    assert(next_around.cache == start.cache);
    assert(next_around.asked =~= seq![1nat]);
    if last > 1 {
        assert(size_of(start.cache, again, 1) >= PAGE_SIZE);
        lemma_tail_walk(step->ReadCache_0, next_around, again, last, (count - 1) as nat);
    }
}

proof fn lemma_same_read(cache: Map<nat, Seq<char>>, a: Pages, b: Pages, last: nat)
    requires
        a.read == b.read,
    ensures
        issues_up_to(cache, a, last) == issues_up_to(cache, b, last),
    decreases last,
{
    if last > 0 {
        lemma_same_read(cache, a, b, (last - 1) as nat);
    }
}

} // verus!
