//! What holds of every leaderboard.

use crate::double::Double;
use crate::model::LeaderboardEntry;
use crate::ranking::{
    all_comparable, best_of, comparable, entry_order, in_order, inserted, kept,
    law_ranking_is_consistent, leaderboard_of, lemma_sorted_in_order, lemma_sorted_same,
    lemma_users, not_after, numbered, optional_order, ranks_after, ranks_before, sorted, users_of,
};
use std::cmp::Ordering;
use vstd::prelude::*;

verus! {

/// No user has two entries.
pub open spec fn distinct_users(entries: Seq<LeaderboardEntry>) -> bool {
    forall|i: int, j: int|
        0 <= i < j < entries.len() ==> (#[trigger] entries[i]).username@ != (
        #[trigger] entries[j]).username@
}

/// No two entries stem from the same issue.
pub open spec fn distinct_issues(entries: Seq<LeaderboardEntry>) -> bool {
    forall|i: int, j: int|
        0 <= i < j < entries.len() ==> (#[trigger] entries[i]).issue_number != (
        #[trigger] entries[j]).issue_number
}

/// The user has an entry.
pub open spec fn lists(entries: Seq<LeaderboardEntry>, user: Seq<char>) -> bool {
    exists|i: int| 0 <= i < entries.len() && (#[trigger] entries[i]).username@ == user
}

/// `ranked` is `entry`, but for its rank.
pub open spec fn same_but_rank(ranked: LeaderboardEntry, entry: LeaderboardEntry) -> bool {
    ranked == (LeaderboardEntry { rank: ranked.rank, ..entry })
}

proof fn lemma_contains_same(a: Seq<LeaderboardEntry>, b: Seq<LeaderboardEntry>)
    requires
        a.to_multiset() == b.to_multiset(),
    ensures
        forall|entry: LeaderboardEntry| #[trigger] a.contains(entry) ==> b.contains(entry),
{
    broadcast use vstd::seq_lib::group_to_multiset_ensures;

    assert forall|entry: LeaderboardEntry| #[trigger] a.contains(entry) implies b.contains(
        entry,
    ) by {
        assert(a.to_multiset().count(entry) > 0);
    }
}

/// The kept entries are the best of each user.
proof fn lemma_kept(entries: Seq<LeaderboardEntry>)
    ensures
        distinct_users(kept(entries)),
        forall|i: int|
            0 <= i < kept(entries).len() ==> best_of(
                entries,
                (#[trigger] kept(entries)[i]).username@,
            ) == Some(kept(entries)[i]),
        forall|user: Seq<char>|
            best_of(entries, user) is Some ==> kept(entries).contains(
                (#[trigger] best_of(entries, user))->0,
            ),
{
    lemma_users(entries);
    let users = users_of(entries);
    let list = kept(entries);
    assert forall|i: int| 0 <= i < list.len() implies best_of(
        entries,
        (#[trigger] list[i]).username@,
    ) == Some(list[i]) && list[i].username@ == users[i] by {
        assert(best_of(entries, users[i]) is Some);
    }
    assert forall|user: Seq<char>| best_of(entries, user) is Some implies list.contains(
        (#[trigger] best_of(entries, user))->0,
    ) by {
        assert(users.contains(user));
        let k = choose|k: int| 0 <= k < users.len() && users[k] == user;
        assert(list[k] == best_of(entries, user)->0);
    }
}

/// The same entries in another order have as distinct users.
proof fn lemma_distinct_same(a: Seq<LeaderboardEntry>, b: Seq<LeaderboardEntry>)
    requires
        a.to_multiset() == b.to_multiset(),
        distinct_users(a),
    ensures
        distinct_users(b),
{
    assert(a.no_duplicates());
    a.lemma_multiset_has_no_duplicates();
    assert(forall|x: LeaderboardEntry| b.to_multiset().contains(x) ==> b.to_multiset().count(x)
        == 1);
    b.lemma_multiset_has_no_duplicates_conv();
    lemma_contains_same(b, a);
    assert forall|i: int, j: int| 0 <= i < j < b.len() implies (#[trigger] b[i]).username@ != (
    #[trigger] b[j]).username@ by {
        assert(b.contains(b[i]) && b.contains(b[j]));
        let k = choose|k: int| 0 <= k < a.len() && a[k] == b[i];
        let l = choose|l: int| 0 <= l < a.len() && a[l] == b[j];
        assert(a[k] != a[l]);
        if k < l {
            assert(a[k].username@ != a[l].username@);
        } else {
            assert(a[l].username@ != a[k].username@);
        }
    }
}

/// A user's best entry is ranked behind none of the user's entries.
proof fn lemma_best(entries: Seq<LeaderboardEntry>, user: Seq<char>, i: int)
    requires
        all_comparable(entries),
        0 <= i < entries.len(),
        entries[i].username@ == user,
    ensures
        best_of(entries, user) matches Some(best) && comparable(best) && not_after(
            best,
            entries[i],
        ),
    decreases entries.len(),
{
    let front = entries.drop_last();
    let last = entries.last();
    lemma_users(entries);
    lemma_users(front);
    assert(entries[entries.len() - 1] == last);
    assert(comparable(entries[i]) && comparable(last));
    assert forall|k: int| 0 <= k < front.len() implies comparable(#[trigger] front[k]) by {
        assert(comparable(entries[k]));
    }
    assert(best_of(entries, user) is Some);
    let best = best_of(entries, user)->0;
    let k = choose|k: int| 0 <= k < entries.len() && entries[k] == best;
    assert(comparable(entries[k]));
    if i < entries.len() - 1 {
        assert(front[i] == entries[i]);
        lemma_best(front, user, i);
        let earlier = best_of(front, user)->0;
        law_ranking_is_consistent(last, earlier, entries[i]);
        law_ranking_is_consistent(earlier, last, entries[i]);
    } else if best_of(front, user) is Some {
        let earlier = best_of(front, user)->0;
        let m = choose|m: int| 0 <= m < front.len() && front[m] == earlier;
        assert(comparable(front[m]));
        law_ranking_is_consistent(last, earlier, last);
        law_ranking_is_consistent(earlier, last, last);
    } else {
        law_ranking_is_consistent(last, last, last);
    }
}

/// The ranks are the numbers from one on, in order.
pub proof fn law_ranks_count_up(entries: Seq<LeaderboardEntry>)
    requires
        entries.len() <= usize::MAX,
    ensures
        forall|i: int|
            0 <= i < leaderboard_of(entries).len() ==> (#[trigger] leaderboard_of(
                entries,
            )[i]).rank == i + 1,
{
    lemma_sorted_same(kept(entries));
    lemma_users_bounded(entries);
}

proof fn lemma_users_bounded(entries: Seq<LeaderboardEntry>)
    ensures
        users_of(entries).len() <= entries.len(),
    decreases entries.len(),
{
    if entries.len() > 0 {
        lemma_users_bounded(entries.drop_last());
    }
}

/// Everybody with a result is on the leaderboard, once, and nobody else is.
pub proof fn law_one_entry_per_user(entries: Seq<LeaderboardEntry>)
    ensures
        distinct_users(leaderboard_of(entries)),
        forall|user: Seq<char>|
            lists(leaderboard_of(entries), user) <==> #[trigger] lists(entries, user),
{
    let list = kept(entries);
    let ranked = sorted(list);
    let board = leaderboard_of(entries);
    lemma_sorted_same(list);
    lemma_kept(entries);
    lemma_users(entries);
    lemma_distinct_same(list, ranked);
    lemma_contains_same(list, ranked);
    lemma_contains_same(ranked, list);
    assert forall|i: int, j: int| 0 <= i < j < board.len() implies (#[trigger] board[i]).username@
        != (#[trigger] board[j]).username@ by {
        assert(ranked[i].username@ != ranked[j].username@);
    }
    assert forall|user: Seq<char>| lists(board, user) <==> #[trigger] lists(entries, user) by {
        if lists(board, user) {
            let i = choose|i: int| 0 <= i < board.len() && (#[trigger] board[i]).username@ == user;
            assert(ranked.contains(ranked[i]));
            let k = choose|k: int| 0 <= k < list.len() && list[k] == ranked[i];
            assert(best_of(entries, list[k].username@) == Some(list[k]));
            let m = choose|m: int| 0 <= m < entries.len() && entries[m] == list[k];
            assert(entries[m].username@ == user);
        }
        if lists(entries, user) {
            assert(best_of(entries, user) is Some);
            let best = best_of(entries, user)->0;
            assert(ranked.contains(best));
            let i = choose|i: int| 0 <= i < ranked.len() && ranked[i] == best;
            assert(board[i].username@ == user);
        }
    }
}

/// Every line of the leaderboard is one of the results, and no other result of the same
/// user ranks before it.
pub proof fn law_best_result_is_kept(entries: Seq<LeaderboardEntry>, i: int, j: int)
    requires
        all_comparable(entries),
        0 <= i < leaderboard_of(entries).len(),
    ensures
        exists|k: int|
            0 <= k < entries.len() && #[trigger] same_but_rank(
                leaderboard_of(entries)[i],
                entries[k],
            ),
        0 <= j < entries.len() && entries[j].username@ == leaderboard_of(entries)[i].username@
            ==> not_after(leaderboard_of(entries)[i], entries[j]),
{
    let list = kept(entries);
    let ranked = sorted(list);
    let board = leaderboard_of(entries);
    lemma_sorted_same(list);
    lemma_kept(entries);
    lemma_users(entries);
    lemma_contains_same(ranked, list);
    assert(ranked.contains(ranked[i]));
    let k = choose|k: int| 0 <= k < list.len() && list[k] == ranked[i];
    assert(best_of(entries, list[k].username@) == Some(list[k]));
    let m = choose|m: int| 0 <= m < entries.len() && entries[m] == list[k];
    assert(same_but_rank(board[i], entries[m]));
    if 0 <= j < entries.len() && entries[j].username@ == board[i].username@ {
        lemma_best(entries, list[k].username@, j);
    }
}

/// The best entries of comparable ones are comparable.
proof fn lemma_kept_comparable(entries: Seq<LeaderboardEntry>)
    requires
        all_comparable(entries),
    ensures
        all_comparable(kept(entries)),
{
    lemma_kept(entries);
    lemma_users(entries);
    let list = kept(entries);
    assert forall|i: int| 0 <= i < list.len() implies comparable(#[trigger] list[i]) by {
        assert(best_of(entries, list[i].username@) == Some(list[i]));
        let m = choose|m: int| 0 <= m < entries.len() && entries[m] == list[i];
        assert(comparable(entries[m]));
    }
}

/// The leaderboard is in ranking order.
pub proof fn law_leaderboard_in_order(entries: Seq<LeaderboardEntry>)
    requires
        all_comparable(entries),
    ensures
        in_order(leaderboard_of(entries)),
{
    let list = kept(entries);
    let ranked = sorted(list);
    let board = leaderboard_of(entries);
    lemma_kept_comparable(entries);
    lemma_sorted_in_order(list);
    assert forall|i: int, j: int| 0 <= i < j < board.len() implies not_after(
        #[trigger] board[i],
        #[trigger] board[j],
    ) by {
        assert(not_after(ranked[i], ranked[j]));
    }
}

/// A result that does not rank before the best one that its user has already leaves
/// the leaderboard as it is.
pub proof fn law_worse_result_changes_nothing(
    entries: Seq<LeaderboardEntry>,
    entry: LeaderboardEntry,
)
    requires
        best_of(entries, entry.username@) matches Some(best) && !ranks_before(entry, best),
    ensures
        leaderboard_of(entries.push(entry)) == leaderboard_of(entries),
{
    let more = entries.push(entry);
    assert(more.drop_last() =~= entries);
    lemma_users(entries);
    assert(users_of(more) == users_of(entries));
    assert forall|user: Seq<char>| #[trigger] best_of(more, user) == best_of(entries, user) by {}
    assert(kept(more) =~= kept(entries));
}

/// Each entry ranks before all later ones.
spec fn strictly_in_order(entries: Seq<LeaderboardEntry>) -> bool {
    forall|i: int, j: int|
        0 <= i < j < entries.len() ==> ranks_before(#[trigger] entries[i], #[trigger] entries[j])
}

/// Entries can be put in strict order in one way only.
proof fn lemma_one_strict_order(a: Seq<LeaderboardEntry>, b: Seq<LeaderboardEntry>)
    requires
        all_comparable(a),
        all_comparable(b),
        strictly_in_order(a),
        strictly_in_order(b),
        forall|entry: LeaderboardEntry| #[trigger] a.contains(entry) <==> b.contains(entry),
    ensures
        a == b,
    decreases a.len(),
{
    if a.len() == 0 {
        if b.len() > 0 {
            assert(b.contains(b[0]));
            assert(a.contains(b[0]));
        }
        assert(a =~= b);
    } else {
        assert(a.contains(a[0]));
        let (x, y) = (a.last(), b.last());
        assert(a[a.len() - 1] == x && b.len() > 0 && b[b.len() - 1] == y);
        assert(a.contains(x) && b.contains(y));
        assert(b.contains(x) && a.contains(y));
        let i = choose|i: int| 0 <= i < b.len() && b[i] == x;
        let j = choose|j: int| 0 <= j < a.len() && a[j] == y;
        assert(comparable(a[a.len() - 1]) && comparable(a[j]));
        law_ranking_is_consistent(x, y, x);
        law_ranking_is_consistent(y, x, y);
        assert(i == b.len() - 1);
        assert(x == y);
        let (front_a, front_b) = (a.drop_last(), b.drop_last());
        assert forall|entry: LeaderboardEntry| #[trigger]
            front_a.contains(entry) <==> front_b.contains(entry) by {
            if front_a.contains(entry) {
                let k = choose|k: int| 0 <= k < front_a.len() && front_a[k] == entry;
                assert(a[k] == entry);
                assert(ranks_before(a[k], a[a.len() - 1]));
                assert(a.contains(entry));
                let m = choose|m: int| 0 <= m < b.len() && b[m] == entry;
                assert(m < b.len() - 1);
                assert(front_b[m] == entry);
            }
            if front_b.contains(entry) {
                let k = choose|k: int| 0 <= k < front_b.len() && front_b[k] == entry;
                assert(b[k] == entry);
                assert(ranks_before(b[k], b[b.len() - 1]));
                assert(b.contains(entry));
                assert(a.contains(entry));
                let m = choose|m: int| 0 <= m < a.len() && a[m] == entry;
                assert(m < a.len() - 1);
                assert(front_a[m] == entry);
            }
        }
        assert forall|k: int| 0 <= k < front_a.len() implies comparable(#[trigger] front_a[k]) by {
            assert(comparable(a[k]));
        }
        assert forall|k: int| 0 <= k < front_b.len() implies comparable(#[trigger] front_b[k]) by {
            assert(comparable(b[k]));
        }
        assert forall|k: int, l: int| 0 <= k < l < front_a.len() implies ranks_before(
            #[trigger] front_a[k],
            #[trigger] front_a[l],
        ) by {
            assert(ranks_before(a[k], a[l]));
        }
        assert forall|k: int, l: int| 0 <= k < l < front_b.len() implies ranks_before(
            #[trigger] front_b[k],
            #[trigger] front_b[l],
        ) by {
            assert(ranks_before(b[k], b[l]));
        }
        lemma_one_strict_order(front_a, front_b);
        assert(a =~= front_a.push(x));
        assert(b =~= front_b.push(y));
    }
}

/// The order in which results of different issues come in makes no difference.
pub proof fn law_order_of_results_is_immaterial(
    a: Seq<LeaderboardEntry>,
    b: Seq<LeaderboardEntry>,
)
    requires
        a.to_multiset() == b.to_multiset(),
        all_comparable(a),
        distinct_issues(a),
    ensures
        leaderboard_of(a) == leaderboard_of(b),
{
    lemma_contains_same(a, b);
    lemma_contains_same(b, a);
    lemma_users(a);
    lemma_users(b);
    lemma_kept(a);
    lemma_kept(b);
    assert forall|i: int| 0 <= i < b.len() implies comparable(#[trigger] b[i]) by {
        assert(b.contains(b[i]));
        let k = choose|k: int| 0 <= k < a.len() && a[k] == b[i];
        assert(comparable(a[k]));
    }
    assert forall|user: Seq<char>| #[trigger] best_of(a, user) == best_of(b, user) by {
        lemma_same_best(a, b, user);
    }
    let (kept_a, kept_b) = (kept(a), kept(b));
    let (ranked_a, ranked_b) = (sorted(kept_a), sorted(kept_b));
    lemma_kept_strict(a, a);
    lemma_kept_strict(a, b);
    lemma_sorted_same(kept_a);
    lemma_sorted_same(kept_b);
    lemma_contains_same(kept_a, ranked_a);
    lemma_contains_same(ranked_a, kept_a);
    lemma_contains_same(kept_b, ranked_b);
    lemma_contains_same(ranked_b, kept_b);
    assert forall|entry: LeaderboardEntry| #[trigger]
        ranked_a.contains(entry) <==> ranked_b.contains(entry) by {
        if ranked_a.contains(entry) {
            assert(kept_a.contains(entry));
            let k = choose|k: int| 0 <= k < kept_a.len() && kept_a[k] == entry;
            assert(best_of(a, kept_a[k].username@) == Some(kept_a[k]));
            assert(best_of(b, kept_a[k].username@) is Some);
            assert(kept_b.contains(entry));
        }
        if ranked_b.contains(entry) {
            assert(kept_b.contains(entry));
            let k = choose|k: int| 0 <= k < kept_b.len() && kept_b[k] == entry;
            assert(best_of(b, kept_b[k].username@) == Some(kept_b[k]));
            assert(best_of(a, kept_b[k].username@) is Some);
            assert(kept_a.contains(entry));
        }
    }
    lemma_one_strict_order(ranked_a, ranked_b);
}

/// With results of different issues, the best of a user is the same in every order.
proof fn lemma_same_best(a: Seq<LeaderboardEntry>, b: Seq<LeaderboardEntry>, user: Seq<char>)
    requires
        all_comparable(a),
        all_comparable(b),
        distinct_issues(a),
        forall|entry: LeaderboardEntry| #[trigger] a.contains(entry) ==> b.contains(entry),
        forall|entry: LeaderboardEntry| #[trigger] b.contains(entry) ==> a.contains(entry),
    ensures
        best_of(a, user) == best_of(b, user),
{
    lemma_users(a);
    lemma_users(b);
    if let Some(x) = best_of(a, user) {
        let i = choose|i: int| 0 <= i < b.len() && b[i] == x;
        assert(b.contains(x));
        assert(b[i].username@ == user);
        assert(best_of(b, user) is Some);
    }
    if let Some(y) = best_of(b, user) {
        assert(a.contains(y));
        let j = choose|j: int| 0 <= j < a.len() && a[j] == y;
        assert(a[j].username@ == user);
        lemma_best(a, user, j);
        let x = best_of(a, user)->0;
        assert(a.contains(x));
        assert(b.contains(x));
        let i = choose|i: int| 0 <= i < b.len() && b[i] == x;
        lemma_best(b, user, i);
        law_ranking_is_consistent(x, y, x);
        let k = choose|k: int| 0 <= k < a.len() && a[k] == x;
        assert(x.issue_number == y.issue_number);
        if k < j {
            assert(a[k].issue_number != a[j].issue_number);
        } else if j < k {
            assert(a[j].issue_number != a[k].issue_number);
        }
    }
}

/// The best results, out of results of different issues, come in strict order.
proof fn lemma_kept_strict(a: Seq<LeaderboardEntry>, b: Seq<LeaderboardEntry>)
    requires
        all_comparable(a),
        all_comparable(b),
        distinct_issues(a),
        forall|entry: LeaderboardEntry| #[trigger] b.contains(entry) ==> a.contains(entry),
    ensures
        all_comparable(sorted(kept(b))),
        strictly_in_order(sorted(kept(b))),
{
    let list = kept(b);
    let ranked = sorted(list);
    lemma_kept_comparable(b);
    lemma_kept(b);
    lemma_users(b);
    lemma_sorted_in_order(list);
    lemma_sorted_same(list);
    lemma_distinct_same(list, ranked);
    lemma_contains_same(ranked, list);
    assert forall|i: int| 0 <= i < ranked.len() implies comparable(#[trigger] ranked[i])
        && a.contains(ranked[i]) by {
        assert(ranked.contains(ranked[i]));
        let k = choose|k: int| 0 <= k < list.len() && list[k] == ranked[i];
        assert(comparable(list[k]));
        assert(best_of(b, list[k].username@) == Some(list[k]));
        assert(b.contains(list[k]));
    }
    assert forall|i: int, j: int| 0 <= i < j < ranked.len() implies ranks_before(
        #[trigger] ranked[i],
        #[trigger] ranked[j],
    ) by {
        assert(not_after(ranked[i], ranked[j]));
        assert(ranked[i].username@ != ranked[j].username@);
        assert(a.contains(ranked[i]) && a.contains(ranked[j]));
        let k = choose|k: int| 0 <= k < a.len() && a[k] == ranked[i];
        let l = choose|l: int| 0 <= l < a.len() && a[l] == ranked[j];
        if k < l {
            assert(a[k].issue_number != a[l].issue_number);
        } else if l < k {
            assert(a[l].issue_number != a[k].issue_number);
        }
        law_ranking_is_consistent(ranked[i], ranked[j], ranked[i]);
    }
}

/// Of entries with distinct users all are kept, as they are.
proof fn lemma_kept_distinct(entries: Seq<LeaderboardEntry>)
    requires
        distinct_users(entries),
    ensures
        kept(entries) == entries,
        users_of(entries) == Seq::new(entries.len(), |i: int| entries[i].username@),
    decreases entries.len(),
{
    let names = Seq::new(entries.len(), |i: int| entries[i].username@);
    if entries.len() > 0 {
        let front = entries.drop_last();
        let last = entries.last();
        assert forall|i: int, j: int| 0 <= i < j < front.len() implies (
        #[trigger] front[i]).username@ != (#[trigger] front[j]).username@ by {
            assert(entries[i].username@ != entries[j].username@);
        }
        lemma_kept_distinct(front);
        let earlier = users_of(front);
        assert(!earlier.contains(last.username@)) by {
            if earlier.contains(last.username@) {
                let k = choose|k: int| 0 <= k < earlier.len() && earlier[k] == last.username@;
                assert(entries[k].username@ != entries[entries.len() - 1].username@);
            }
        }
        assert(users_of(entries) =~= names);
        lemma_users(front);
        assert(best_of(front, last.username@) is None);
        assert forall|i: int| 0 <= i < entries.len() implies kept(entries)[i] == entries[i] by {
            if i < front.len() {
                assert(names[i] == earlier[i]);
                assert(kept(front)[i] == front[i]);
                assert(entries[i].username@ != entries[entries.len() - 1].username@);
            }
        }
        assert(kept(entries) =~= entries);
    } else {
        assert(users_of(entries) =~= names);
        assert(kept(entries) =~= entries);
    }
}

/// Entries in order stay as they are when they are sorted.
proof fn lemma_sorted_in_place(entries: Seq<LeaderboardEntry>)
    requires
        in_order(entries),
    ensures
        sorted(entries) == entries,
    decreases entries.len(),
{
    if entries.len() > 0 {
        let front = entries.drop_last();
        assert forall|i: int, j: int| 0 <= i < j < front.len() implies not_after(
            #[trigger] front[i],
            #[trigger] front[j],
        ) by {
            assert(not_after(entries[i], entries[j]));
        }
        lemma_sorted_in_place(front);
        if front.len() > 0 {
            assert(not_after(entries[entries.len() - 2], entries[entries.len() - 1]));
        }
        assert(entries =~= front.push(entries.last()));
    }
}

/// The leaderboard of a leaderboard is that leaderboard.
pub proof fn law_ranking_again_changes_nothing(entries: Seq<LeaderboardEntry>)
    requires
        all_comparable(entries),
    ensures
        leaderboard_of(leaderboard_of(entries)) == leaderboard_of(entries),
{
    let board = leaderboard_of(entries);
    law_one_entry_per_user(entries);
    law_leaderboard_in_order(entries);
    lemma_kept_distinct(board);
    lemma_sorted_in_place(board);
    assert(numbered(board) =~= board);
}

/// The score decides first: the higher one ranks first, whatever else the entries hold.
pub proof fn law_higher_score_ranks_first(a: LeaderboardEntry, b: LeaderboardEntry)
    requires
        a.final_score > b.final_score,
    ensures
        entry_order(a, b) == Ordering::Less,
        entry_order(b, a) == Ordering::Greater,
        ranks_before(a, b),
        ranks_after(b, a),
        not_after(a, b),
        !not_after(b, a),
{
}

/// The lower p99 decides between equal scores, and an entry with a p99 ranks before one
/// without.
pub proof fn law_lower_p99_breaks_ties(a: LeaderboardEntry, b: LeaderboardEntry)
    requires
        a.final_score == b.final_score,
        a.p99_ms is Some,
        b.p99_ms matches Some(p99) ==> !p99.is_nan() && !a.p99_ms->0.is_nan()
            && a.p99_ms->0.value() < p99.value(),
    ensures
        entry_order(a, b) == Ordering::Less,
        entry_order(b, a) == Ordering::Greater,
        ranks_before(a, b),
        ranks_after(b, a),
{
}

/// The p99 of the two entries decides nothing: both or neither have one, and two numbers
/// are equal or cannot be compared.
pub open spec fn p99_ties(a: LeaderboardEntry, b: LeaderboardEntry) -> bool {
    match (a.p99_ms, b.p99_ms) {
        (None, None) => true,
        (Some(x), Some(y)) => x.is_nan() || y.is_nan() || x.value() == y.value(),
        _ => false,
    }
}

/// The later issue decides between equal scores and p99, and nothing else does.
pub proof fn law_later_issue_breaks_ties(a: LeaderboardEntry, b: LeaderboardEntry)
    requires
        a.final_score == b.final_score,
        p99_ties(a, b),
    ensures
        a.issue_number > b.issue_number ==> entry_order(a, b) == Ordering::Less && entry_order(b, a)
            == Ordering::Greater && ranks_before(a, b) && ranks_after(b, a),
        a.issue_number == b.issue_number ==> entry_order(a, b) == Ordering::Equal && !ranks_before(
            a,
            b,
        ) && !ranks_after(a, b),
{
}

/// The scores do not rise.
pub open spec fn scores_descend(entries: Seq<LeaderboardEntry>) -> bool {
    forall|i: int, j: int|
        0 <= i < j < entries.len() ==> (#[trigger] entries[i]).final_score >= (
        #[trigger] entries[j]).final_score
}

proof fn lemma_inserted_descends(list: Seq<LeaderboardEntry>, entry: LeaderboardEntry)
    requires
        scores_descend(list),
    ensures
        scores_descend(inserted(list, entry)),
        inserted(list, entry).len() == list.len() + 1,
        forall|i: int|
            0 <= i < inserted(list, entry).len() ==> (#[trigger] inserted(list, entry)[i]) == entry
                || list.contains(inserted(list, entry)[i]),
    decreases list.len(),
{
    let placed = inserted(list, entry);
    if list.len() > 0 && ranks_after(list.last(), entry) {
        let front = list.drop_last();
        let last = list.last();
        assert(list[list.len() - 1] == last);
        assert forall|i: int, j: int| 0 <= i < j < front.len() implies (
        #[trigger] front[i]).final_score >= (#[trigger] front[j]).final_score by {
            assert(list[i].final_score >= list[j].final_score);
        }
        lemma_inserted_descends(front, entry);
        let inner = inserted(front, entry);
        assert forall|i: int| 0 <= i < front.len() implies (#[trigger] front[i]).final_score
            >= last.final_score by {
            assert(list[i].final_score >= list[list.len() - 1].final_score);
        }
        if entry.final_score < last.final_score {
            law_higher_score_ranks_first(last, entry);
            assert(false);
        }
        assert forall|i: int, j: int| 0 <= i < j < placed.len() implies (
        #[trigger] placed[i]).final_score >= (#[trigger] placed[j]).final_score by {
            assert(placed[i] == inner[i]);
            if j < inner.len() {
                assert(placed[j] == inner[j]);
            } else if inner[i] != entry {
                let k = choose|k: int| 0 <= k < front.len() && front[k] == inner[i];
                assert(front[k].final_score >= last.final_score);
            }
        }
        assert forall|i: int| 0 <= i < placed.len() implies (#[trigger] placed[i]) == entry
            || list.contains(placed[i]) by {
            if i < inner.len() {
                assert(placed[i] == inner[i]);
                if inner[i] != entry {
                    let k = choose|k: int| 0 <= k < front.len() && front[k] == inner[i];
                    assert(list[k] == inner[i]);
                }
            } else {
                assert(placed[i] == list[list.len() - 1]);
            }
        }
    } else {
        if list.len() > 0 {
            assert(list[list.len() - 1] == list.last());
            if list.last().final_score < entry.final_score {
                law_higher_score_ranks_first(entry, list.last());
            }
        }
        assert forall|i: int, j: int| 0 <= i < j < placed.len() implies (
        #[trigger] placed[i]).final_score >= (#[trigger] placed[j]).final_score by {
            assert(placed[i] == list[i]);
            if j == list.len() && i < list.len() - 1 {
                assert(list[i].final_score >= list[list.len() - 1].final_score);
            }
        }
        assert forall|i: int| 0 <= i < placed.len() implies (#[trigger] placed[i]) == entry
            || list.contains(placed[i]) by {
            if i < list.len() {
                assert(placed[i] == list[i]);
            }
        }
    }
}

proof fn lemma_sorted_descends(entries: Seq<LeaderboardEntry>)
    ensures
        scores_descend(sorted(entries)),
    decreases entries.len(),
{
    if entries.len() > 0 {
        lemma_sorted_descends(entries.drop_last());
        lemma_inserted_descends(sorted(entries.drop_last()), entries.last());
    }
}

/// On every leaderboard the scores fall from rank to rank, or stay the same.
pub proof fn law_scores_fall_from_rank_to_rank(entries: Seq<LeaderboardEntry>, i: int, j: int)
    requires
        0 <= i < j < leaderboard_of(entries).len(),
    ensures
        leaderboard_of(entries)[i].final_score >= leaderboard_of(entries)[j].final_score,
{
    lemma_sorted_descends(kept(entries));
    let ranked = sorted(kept(entries));
    assert(ranked[i].final_score >= ranked[j].final_score);
}

/// Among equal scores on a leaderboard the p99 rises from rank to rank or stays the same,
/// those without one come last, and among equal p99 the issue numbers fall.
pub proof fn law_ties_on_leaderboard(entries: Seq<LeaderboardEntry>, i: int, j: int)
    requires
        all_comparable(entries),
        0 <= i < j < leaderboard_of(entries).len(),
        leaderboard_of(entries)[i].final_score == leaderboard_of(entries)[j].final_score,
    ensures
        ({
            let (first, second) = (leaderboard_of(entries)[i], leaderboard_of(entries)[j]);
            &&& first.p99_ms is None ==> second.p99_ms is None
            &&& first.p99_ms is Some && second.p99_ms is Some ==> first.p99_ms->0.value()
                <= second.p99_ms->0.value()
            &&& p99_ties(first, second) ==> first.issue_number >= second.issue_number
        }),
{
    law_leaderboard_in_order(entries);
    let board = leaderboard_of(entries);
    assert(not_after(board[i], board[j]));
    law_best_result_is_kept(entries, i, 0);
    law_best_result_is_kept(entries, j, 0);
    let k = choose|k: int| 0 <= k < entries.len() && #[trigger] same_but_rank(board[i], entries[k]);
    let l = choose|l: int| 0 <= l < entries.len() && #[trigger] same_but_rank(board[j], entries[l]);
    assert(comparable(entries[k]) && comparable(entries[l]));
    let (first, second) = (board[i], board[j]);
    if first.p99_ms is None && second.p99_ms is Some {
        law_lower_p99_breaks_ties(second, first);
    }
    if first.p99_ms is Some && second.p99_ms is Some && first.p99_ms->0.value()
        > second.p99_ms->0.value() {
        law_lower_p99_breaks_ties(second, first);
    }
    if p99_ties(first, second) && first.issue_number < second.issue_number {
        law_later_issue_breaks_ties(second, first);
    }
}

proof fn lemma_best_score(entries: Seq<LeaderboardEntry>, user: Seq<char>, i: int)
    requires
        0 <= i < entries.len(),
        entries[i].username@ == user,
    ensures
        best_of(entries, user) matches Some(best) && best.final_score >= entries[i].final_score,
    decreases entries.len(),
{
    let front = entries.drop_last();
    let last = entries.last();
    lemma_users(entries);
    lemma_users(front);
    assert(entries[entries.len() - 1] == last);
    assert(best_of(entries, user) is Some);
    if best_of(front, user) is Some {
        let earlier = best_of(front, user)->0;
        if last.final_score > earlier.final_score {
            law_higher_score_ranks_first(last, earlier);
        }
        if earlier.final_score > last.final_score {
            law_higher_score_ranks_first(earlier, last);
        }
    }
    if i < front.len() {
        assert(front[i] == entries[i]);
        lemma_best_score(front, user, i);
    }
}

/// Nobody has a result with a higher score than the one that the leaderboard shows of them.
pub proof fn law_highest_score_is_kept(entries: Seq<LeaderboardEntry>, i: int, j: int)
    requires
        0 <= i < leaderboard_of(entries).len(),
        0 <= j < entries.len(),
        entries[j].username@ == leaderboard_of(entries)[i].username@,
    ensures
        leaderboard_of(entries)[i].final_score >= entries[j].final_score,
        exists|k: int|
            0 <= k < entries.len() && #[trigger] same_but_rank(
                leaderboard_of(entries)[i],
                entries[k],
            ),
{
    let list = kept(entries);
    let ranked = sorted(list);
    let board = leaderboard_of(entries);
    lemma_sorted_same(list);
    lemma_kept(entries);
    lemma_users(entries);
    lemma_contains_same(ranked, list);
    assert(ranked.contains(ranked[i]));
    let k = choose|k: int| 0 <= k < list.len() && list[k] == ranked[i];
    assert(best_of(entries, list[k].username@) == Some(list[k]));
    let m = choose|m: int| 0 <= m < entries.len() && entries[m] == list[k];
    assert(same_but_rank(board[i], entries[m]));
    lemma_best_score(entries, list[k].username@, j);
}

/// Of a user's results with the highest score the one with the lowest p99 is kept: none of
/// them has a p99 where the one that is shown has none, or a lower one.
pub proof fn law_lowest_p99_is_kept(entries: Seq<LeaderboardEntry>, i: int, j: int)
    requires
        all_comparable(entries),
        0 <= i < leaderboard_of(entries).len(),
        0 <= j < entries.len(),
        entries[j].username@ == leaderboard_of(entries)[i].username@,
        entries[j].final_score == leaderboard_of(entries)[i].final_score,
        entries[j].p99_ms is Some,
    ensures
        leaderboard_of(entries)[i].p99_ms matches Some(p99) && p99.value()
            <= entries[j].p99_ms->0.value(),
{
    law_best_result_is_kept(entries, i, j);
    let board = leaderboard_of(entries);
    let k = choose|k: int| 0 <= k < entries.len() && #[trigger] same_but_rank(board[i], entries[k]);
    assert(comparable(entries[k]) && comparable(entries[j]));
    if board[i].p99_ms is None || board[i].p99_ms->0.value() > entries[j].p99_ms->0.value() {
        law_lower_p99_breaks_ties(entries[j], board[i]);
    }
}

/// How two optional p99 compare is how their values do. A missing one comes after every
/// other, and what is not a number ties with every number.
pub proof fn law_optional_numbers_compare_by_value(left: Option<Double>, right: Option<Double>)
    ensures
        left is Some && right is None ==> optional_order(left, right) == Ordering::Less
            && optional_order(right, left) == Ordering::Greater,
        left is None && right is None ==> optional_order(left, right) == Ordering::Equal,
        left is Some && right is Some && (left->0.is_nan() || right->0.is_nan())
            ==> optional_order(left, right) == Ordering::Equal,
        left is Some && right is Some && !left->0.is_nan() && !right->0.is_nan() ==> {
            &&& left->0.value() < right->0.value() ==> optional_order(left, right) == Ordering::Less
            &&& left->0.value() == right->0.value() ==> optional_order(left, right)
                == Ordering::Equal
            &&& left->0.value() > right->0.value() ==> optional_order(left, right)
                == Ordering::Greater
        },
{
}

} // verus!
