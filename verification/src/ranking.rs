//! Which result of a user is kept, and how users are ranked.
//!
//! A higher score ranks first. Between equal scores the lower p99 ranks first, and
//! a missing p99 ranks last. Between equal p99 the later issue ranks first.

use crate::double::{order_of, Double};
use crate::model::LeaderboardEntry;
use crate::standings::{
    distinct_users, law_one_entry_per_user, law_ranks_count_up, law_scores_fall_from_rank_to_rank,
    scores_descend,
};
use std::cmp::Ordering;
use vstd::prelude::*;

verus! {

/// How two optional numbers compare: a missing one comes last, and a number that
/// cannot be compared counts as equal.
pub open spec fn optional_order(left: Option<Double>, right: Option<Double>) -> Ordering {
    match (left, right) {
        (Some(l), Some(r)) => match order_of(l, r) {
            Some(order) => order,
            None => Ordering::Equal,
        },
        (Some(_), None) => Ordering::Less,
        (None, Some(_)) => Ordering::Greater,
        (None, None) => Ordering::Equal,
    }
}

/// How two entries rank: `Less` where the left one ranks first.
pub open spec fn entry_order(left: LeaderboardEntry, right: LeaderboardEntry) -> Ordering {
    if left.final_score > right.final_score {
        Ordering::Less
    } else if left.final_score < right.final_score {
        Ordering::Greater
    } else {
        match optional_order(left.p99_ms, right.p99_ms) {
            Ordering::Less => Ordering::Less,
            Ordering::Greater => Ordering::Greater,
            Ordering::Equal => if left.issue_number > right.issue_number {
                Ordering::Less
            } else if left.issue_number < right.issue_number {
                Ordering::Greater
            } else {
                Ordering::Equal
            },
        }
    }
}

/// `left` ranks before `right`.
pub open spec fn ranks_before(left: LeaderboardEntry, right: LeaderboardEntry) -> bool {
    entry_order(left, right) == Ordering::Less
}

/// `left` ranks after `right`.
pub open spec fn ranks_after(left: LeaderboardEntry, right: LeaderboardEntry) -> bool {
    entry_order(left, right) == Ordering::Greater
}

/// `left` does not rank after `right`.
pub open spec fn not_after(left: LeaderboardEntry, right: LeaderboardEntry) -> bool {
    !ranks_after(left, right)
}

/// The entry's p99, where it has one, is a number.
pub open spec fn comparable(entry: LeaderboardEntry) -> bool {
    entry.p99_ms matches Some(p99) ==> !p99.is_nan()
}

/// Every entry can be compared with every other.
pub open spec fn all_comparable(entries: Seq<LeaderboardEntry>) -> bool {
    forall|i: int| 0 <= i < entries.len() ==> comparable(#[trigger] entries[i])
}

/// No entry ranks after a later one.
pub open spec fn in_order(entries: Seq<LeaderboardEntry>) -> bool {
    forall|i: int, j: int|
        0 <= i < j < entries.len() ==> not_after(#[trigger] entries[i], #[trigger] entries[j])
}

/// The entry that is kept of a user: the first of those that rank best.
pub open spec fn best_of(entries: Seq<LeaderboardEntry>, user: Seq<char>) -> Option<
    LeaderboardEntry,
>
    decreases entries.len(),
{
    if entries.len() == 0 {
        None
    } else {
        let earlier = best_of(entries.drop_last(), user);
        let entry = entries.last();
        if entry.username@ != user {
            earlier
        } else {
            match earlier {
                Some(best) => if ranks_before(entry, best) {
                    Some(entry)
                } else {
                    Some(best)
                },
                None => Some(entry),
            }
        }
    }
}

/// The users with an entry, each once, in the order in which they first occur.
pub open spec fn users_of(entries: Seq<LeaderboardEntry>) -> Seq<Seq<char>>
    decreases entries.len(),
{
    if entries.len() == 0 {
        Seq::empty()
    } else {
        let earlier = users_of(entries.drop_last());
        let user = entries.last().username@;
        if earlier.contains(user) {
            earlier
        } else {
            earlier.push(user)
        }
    }
}

/// The entries that are kept: one for each user.
pub open spec fn kept(entries: Seq<LeaderboardEntry>) -> Seq<LeaderboardEntry> {
    Seq::new(users_of(entries).len(), |i: int| best_of(entries, users_of(entries)[i])->0)
}

/// `entry` put into `sorted` before the run of later-ranking entries at its end.
pub open spec fn inserted(sorted: Seq<LeaderboardEntry>, entry: LeaderboardEntry) -> Seq<
    LeaderboardEntry,
>
    decreases sorted.len(),
{
    if sorted.len() > 0 && ranks_after(sorted.last(), entry) {
        inserted(sorted.drop_last(), entry).push(sorted.last())
    } else {
        sorted.push(entry)
    }
}

/// The entries in ranking order, equally ranked ones in the order they had.
pub open spec fn sorted(entries: Seq<LeaderboardEntry>) -> Seq<LeaderboardEntry>
    decreases entries.len(),
{
    if entries.len() == 0 {
        Seq::empty()
    } else {
        inserted(sorted(entries.drop_last()), entries.last())
    }
}

/// The entries numbered from one.
pub open spec fn numbered(entries: Seq<LeaderboardEntry>) -> Seq<LeaderboardEntry> {
    Seq::new(entries.len(), |i: int| LeaderboardEntry { rank: (i + 1) as usize, ..entries[i] })
}

/// The leaderboard of a list of results.
pub open spec fn leaderboard_of(entries: Seq<LeaderboardEntry>) -> Seq<LeaderboardEntry> {
    numbered(sorted(kept(entries)))
}

/// How two optional numbers compare.
pub fn compare_optional_f64(left: Option<Double>, right: Option<Double>) -> (order: Ordering)
    ensures
        order == optional_order(left, right),
        left is Some && right is None ==> order == Ordering::Less,
        left is None && right is Some ==> order == Ordering::Greater,
        left is None && right is None ==> order == Ordering::Equal,
{
    match (left, right) {
        (Some(l), Some(r)) => match l.partial_order(r) {
            Some(order) => order,
            None => Ordering::Equal,
        },
        (Some(_), None) => Ordering::Less,
        (None, Some(_)) => Ordering::Greater,
        (None, None) => Ordering::Equal,
    }
}

/// How two entries rank.
pub fn compare_entries(left: &LeaderboardEntry, right: &LeaderboardEntry) -> (order: Ordering)
    ensures
        order == entry_order(*left, *right),
        left.final_score > right.final_score ==> order == Ordering::Less,
        left.final_score < right.final_score ==> order == Ordering::Greater,
{
    if left.final_score > right.final_score {
        return Ordering::Less;
    }
    if left.final_score < right.final_score {
        return Ordering::Greater;
    }
    match compare_optional_f64(left.p99_ms, right.p99_ms) {
        Ordering::Less => Ordering::Less,
        Ordering::Greater => Ordering::Greater,
        Ordering::Equal => if left.issue_number > right.issue_number {
            Ordering::Less
        } else if left.issue_number < right.issue_number {
            Ordering::Greater
        } else {
            Ordering::Equal
        },
    }
}

/// Whether `left` ranks before `right`.
fn outranks(left: &LeaderboardEntry, right: &LeaderboardEntry) -> (first: bool)
    ensures
        first == ranks_before(*left, *right),
{
    match compare_entries(left, right) {
        Ordering::Less => true,
        _ => false,
    }
}

/// Where the entry of `user` stands in a list that holds one entry for each user.
fn position_of(list: &Vec<LeaderboardEntry>, user: &String) -> (at: Option<usize>)
    ensures
        match at {
            Some(i) => i < list@.len() && list@[i as int].username@ == user@,
            None => forall|i: int| 0 <= i < list@.len() ==> list@[i].username@ != user@,
        },
{
    let mut i: usize = 0;
    while i < list.len()
        invariant
            i <= list@.len(),
            forall|j: int| 0 <= j < i ==> list@[j].username@ != user@,
        decreases list@.len() - i,
    {
        if list[i].username == *user {
            return Some(i);
        }
        i += 1;
    }
    None
}

/// The users of `kept` are those of `users_of`, in that order, and each occurs once.
pub proof fn lemma_users(entries: Seq<LeaderboardEntry>)
    ensures
        users_of(entries).no_duplicates(),
        forall|i: int| #![trigger users_of(entries)[i]]
            0 <= i < users_of(entries).len() ==> best_of(entries, users_of(entries)[i]) is Some,
        forall|user: Seq<char>| #![trigger best_of(entries, user)]
            match best_of(entries, user) {
                Some(best) => best.username@ == user && entries.contains(best) && users_of(
                    entries,
                ).contains(user),
                None => forall|i: int| 0 <= i < entries.len() ==> entries[i].username@ != user,
            },
    decreases entries.len(),
{
    if entries.len() > 0 {
        let front = entries.drop_last();
        lemma_users(front);
        let users = users_of(entries);
        let earlier = users_of(front);
        let last = entries.last();
        assert(forall|u: Seq<char>| earlier.contains(u) ==> best_of(front, u) is Some) by {
            assert forall|u: Seq<char>| earlier.contains(u) implies best_of(front, u) is Some by {
                let k = choose|k: int| 0 <= k < earlier.len() && earlier[k] == u;
                assert(best_of(front, earlier[k]) is Some);
            }
        }
        assert forall|user: Seq<char>| #![trigger best_of(entries, user)]
            match best_of(entries, user) {
                Some(best) => best.username@ == user && entries.contains(best) && users.contains(
                    user,
                ),
                None => forall|i: int| 0 <= i < entries.len() ==> entries[i].username@ != user,
            } by {
            assert(entries[entries.len() - 1] == last);
            let before = best_of(front, user);
            if before is Some {
                let k = choose|k: int| 0 <= k < front.len() && front[k] == before->0;
                assert(entries[k] == before->0);
                let j = choose|j: int| 0 <= j < earlier.len() && earlier[j] == user;
                assert(users[j] == user);
            }
            if last.username@ == user {
                if !earlier.contains(user) {
                    assert(users[users.len() - 1] == user);
                }
            } else if before is None {
                assert forall|i: int| 0 <= i < entries.len() implies entries[i].username@
                    != user by {
                    if i < entries.len() - 1 {
                        assert(front[i] == entries[i]);
                    }
                }
            }
        }
        assert forall|i: int| #![trigger users[i]] 0 <= i < users.len() implies best_of(
            entries,
            users[i],
        ) is Some by {
            if i < earlier.len() {
                assert(users[i] == earlier[i]);
                assert(best_of(front, earlier[i]) is Some);
            }
        }
    }
}

/// Keeps the best entry of each user.
pub fn best_entry_per_user(entries: Vec<LeaderboardEntry>) -> (best: Vec<LeaderboardEntry>)
    ensures
        best@ == kept(entries@),
{
    let mut best: Vec<LeaderboardEntry> = Vec::new();
    let ghost all = entries@;
    assert(kept(all.take(0)) =~= Seq::<LeaderboardEntry>::empty());
    for entry in it: entries
        invariant
            it.seq() == all,
            best@ == kept(all.take(it.index() as int)),
    {
        let ghost done = all.take(it.index() as int);
        let ghost next = all.take(it.index() + 1);
        let ghost users = users_of(done);
        let ghost old_best = best@;
        proof {
            assert(next.drop_last() =~= done);
            assert(next.last() == entry);
            lemma_users(done);
            lemma_users(next);
        }
        match position_of(&best, &entry.username) {
            Some(i) => {
                proof {
                    let u = users[i as int];
                    assert(best_of(done, u) is Some);
                    assert(u == entry.username@);
                    assert(users.contains(u));
                    assert(users_of(next) == users);
                    assert forall|j: int| 0 <= j < users.len() && j != i implies best_of(
                        next,
                        users[j],
                    ) == best_of(done, users[j]) by {
                        assert(users[j] != users[i as int]);
                    }
                }
                if outranks(&entry, &best[i]) {
                    best.set(i, entry);
                }
                assert(best@ =~= kept(next));
            },
            None => {
                proof {
                    assert(!users.contains(entry.username@)) by {
                        if users.contains(entry.username@) {
                            let k = choose|k: int|
                                0 <= k < users.len() && users[k] == entry.username@;
                            assert(best_of(done, users[k]) is Some);
                            assert(old_best[k].username@ == entry.username@);
                        }
                    }
                    assert(best_of(done, entry.username@) is None);
                    assert(users_of(next) == users.push(entry.username@));
                    assert forall|j: int| 0 <= j < users.len() implies best_of(next, users[j])
                        == best_of(done, users[j]) by {
                        assert(users.contains(users[j]));
                    }
                }
                best.push(entry);
                assert(best@ =~= kept(next));
            },
        }
    }
    assert(all.take(all.len() as int) =~= all);
    best
}

proof fn lemma_inserted_at(list: Seq<LeaderboardEntry>, entry: LeaderboardEntry, at: int)
    requires
        0 <= at <= list.len(),
        forall|j: int| at <= j < list.len() ==> ranks_after(#[trigger] list[j], entry),
        at > 0 ==> !ranks_after(list[at - 1], entry),
    ensures
        inserted(list, entry) == list.insert(at, entry),
    decreases list.len(),
{
    if at == list.len() {
        assert(list.insert(at, entry) =~= list.push(entry));
    } else {
        let front = list.drop_last();
        lemma_inserted_at(front, entry, at);
        assert(list.insert(at, entry) =~= front.insert(at, entry).push(list.last()));
    }
}

/// Puts the entries in ranking order.
pub fn sort_entries(entries: Vec<LeaderboardEntry>) -> (ranked: Vec<LeaderboardEntry>)
    ensures
        ranked@ == sorted(entries@),
        ranked@.to_multiset() == entries@.to_multiset(),
        all_comparable(entries@) ==> in_order(ranked@),
{
    let mut ranked: Vec<LeaderboardEntry> = Vec::new();
    let ghost all = entries@;
    assert(all.take(0) =~= Seq::<LeaderboardEntry>::empty());
    for entry in it: entries
        invariant
            it.seq() == all,
            ranked@ == sorted(all.take(it.index() as int)),
    {
        let ghost next = all.take(it.index() + 1);
        let mut at: usize = ranked.len();
        while at > 0 && trails(&ranked[at - 1], &entry)
            invariant
                at <= ranked@.len(),
                forall|j: int| at <= j < ranked@.len() ==> ranks_after(#[trigger] ranked@[j], entry),
            decreases at,
        {
            at -= 1;
        }
        proof {
            lemma_inserted_at(ranked@, entry, at as int);
            assert(next.drop_last() =~= all.take(it.index() as int));
        }
        ranked.insert(at, entry);
    }
    proof {
        assert(all.take(all.len() as int) =~= all);
        lemma_sorted_same(all);
        if all_comparable(all) {
            lemma_sorted_in_order(all);
        }
    }
    ranked
}

/// Whether `left` ranks after `right`.
fn trails(left: &LeaderboardEntry, right: &LeaderboardEntry) -> (later: bool)
    ensures
        later == ranks_after(*left, *right),
{
    match compare_entries(left, right) {
        Ordering::Greater => true,
        _ => false,
    }
}

/// Numbers the entries from one.
pub fn number_entries(entries: Vec<LeaderboardEntry>) -> (ranked: Vec<LeaderboardEntry>)
    ensures
        ranked@ == numbered(entries@),
{
    let mut ranked: Vec<LeaderboardEntry> = Vec::new();
    let ghost all = entries@;
    let size: usize = entries.len();
    for entry in it: entries
        invariant
            it.seq() == all,
            size == all.len(),
            ranked@.len() == it.index(),
            ranked@ == numbered(all).take(it.index() as int),
    {
        let mut line = entry;
        line.rank = ranked.len() + 1;
        ranked.push(line);
        assert(ranked@ =~= numbered(all).take(it.index() + 1));
    }
    assert(ranked@ =~= numbered(all));
    ranked
}

/// The leaderboard: the best entry of each user, in ranking order, numbered from one.
pub fn rank_results(entries: Vec<LeaderboardEntry>) -> (leaderboard: Vec<LeaderboardEntry>)
    ensures
        leaderboard@ == leaderboard_of(entries@),
        scores_descend(leaderboard@),
        distinct_users(leaderboard@),
        forall|i: int|
            0 <= i < leaderboard@.len() ==> (#[trigger] leaderboard@[i]).rank == i + 1,
{
    proof {
        assert(entries.len() == entries@.len());
        let board = leaderboard_of(entries@);
        law_one_entry_per_user(entries@);
        law_ranks_count_up(entries@);
        assert forall|i: int, j: int| 0 <= i < j < board.len() implies (
        #[trigger] board[i]).final_score >= (#[trigger] board[j]).final_score by {
            law_scores_fall_from_rank_to_rank(entries@, i, j);
        }
    }
    number_entries(sort_entries(best_entry_per_user(entries)))
}

/// Inserting adds the entry and nothing else.
proof fn lemma_inserted_same(list: Seq<LeaderboardEntry>, entry: LeaderboardEntry)
    ensures
        inserted(list, entry).to_multiset() == list.to_multiset().insert(entry),
        inserted(list, entry).len() == list.len() + 1,
    decreases list.len(),
{
    broadcast use vstd::seq_lib::group_to_multiset_ensures;

    if list.len() > 0 && ranks_after(list.last(), entry) {
        let front = list.drop_last();
        lemma_inserted_same(front, entry);
        assert(front.push(list.last()) =~= list);
        assert(list.to_multiset() =~= front.to_multiset().insert(list.last()));
        assert(inserted(list, entry).to_multiset() =~= inserted(front, entry).to_multiset().insert(
            list.last(),
        ));
        assert(inserted(list, entry).to_multiset() =~= list.to_multiset().insert(entry));
    } else {
        assert(inserted(list, entry) == list.push(entry));
    }
}

/// Sorting keeps every entry, as often as it occurs.
pub proof fn lemma_sorted_same(entries: Seq<LeaderboardEntry>)
    ensures
        sorted(entries).to_multiset() == entries.to_multiset(),
        sorted(entries).len() == entries.len(),
    decreases entries.len(),
{
    broadcast use vstd::seq_lib::group_to_multiset_ensures;

    if entries.len() > 0 {
        let front = entries.drop_last();
        lemma_sorted_same(front);
        lemma_inserted_same(sorted(front), entries.last());
        assert(front.push(entries.last()) =~= entries);
    }
}

/// A list with the same entries is as comparable.
proof fn lemma_comparable_same(a: Seq<LeaderboardEntry>, b: Seq<LeaderboardEntry>)
    requires
        a.to_multiset() == b.to_multiset(),
        all_comparable(a),
    ensures
        all_comparable(b),
{
    broadcast use vstd::seq_lib::group_to_multiset_ensures;

    assert forall|i: int| 0 <= i < b.len() implies comparable(#[trigger] b[i]) by {
        assert(b.contains(b[i]));
        assert(b.to_multiset().count(b[i]) > 0);
        assert(a.contains(b[i]));
        let k = choose|k: int| 0 <= k < a.len() && a[k] == b[i];
        assert(comparable(a[k]));
    }
}

proof fn lemma_inserted_in_order(list: Seq<LeaderboardEntry>, entry: LeaderboardEntry)
    requires
        all_comparable(list),
        comparable(entry),
        in_order(list),
    ensures
        in_order(inserted(list, entry)),
    decreases list.len(),
{
    let result = inserted(list, entry);
    if list.len() > 0 && ranks_after(list.last(), entry) {
        let front = list.drop_last();
        let last = list.last();
        lemma_inserted_in_order(front, entry);
        lemma_inserted_same(front, entry);
        let placed = inserted(front, entry);
        assert forall|i: int, j: int| 0 <= i < j < result.len() implies not_after(
            #[trigger] result[i],
            #[trigger] result[j],
        ) by {
            if j < placed.len() {
                assert(not_after(placed[i], placed[j]));
            } else {
                broadcast use vstd::seq_lib::group_to_multiset_ensures;

                assert(placed.contains(placed[i]));
                assert(placed.to_multiset().count(placed[i]) > 0);
                if placed[i] != entry {
                    assert(front.to_multiset().count(placed[i]) > 0);
                    assert(front.contains(placed[i]));
                    let k = choose|k: int| 0 <= k < front.len() && front[k] == placed[i];
                    assert(not_after(list[k], list[list.len() - 1]));
                }
            }
        }
    } else {
        assert forall|i: int, j: int| 0 <= i < j < result.len() implies not_after(
            #[trigger] result[i],
            #[trigger] result[j],
        ) by {
            if j < list.len() {
                assert(not_after(list[i], list[j]));
            } else if i < list.len() - 1 {
                assert(not_after(list[i], list[list.len() - 1]));
                law_ranking_is_consistent(list[i], list[list.len() - 1], entry);
            }
        }
    }
}

/// Sorting puts comparable entries in order.
pub proof fn lemma_sorted_in_order(entries: Seq<LeaderboardEntry>)
    requires
        all_comparable(entries),
    ensures
        in_order(sorted(entries)),
    decreases entries.len(),
{
    if entries.len() > 0 {
        let front = entries.drop_last();
        assert(comparable(entries[entries.len() - 1]));
        lemma_sorted_in_order(front);
        lemma_sorted_same(front);
        lemma_comparable_same(front, sorted(front));
        lemma_inserted_in_order(sorted(front), entries.last());
    }
}

/// The ranking of comparable entries is a total preorder. An entry does not rank
/// before itself, of two entries one ranks before the other or they rank equally,
/// and the order carries over a third entry. Entries rank equally just where score,
/// p99 and issue number agree.
pub proof fn law_ranking_is_consistent(
    a: LeaderboardEntry,
    b: LeaderboardEntry,
    c: LeaderboardEntry,
)
    requires
        comparable(a),
        comparable(b),
        comparable(c),
    ensures
        !ranks_before(a, a) && !ranks_after(a, a),
        ranks_before(a, b) <==> ranks_after(b, a),
        not_after(a, b) && not_after(b, c) ==> not_after(a, c),
        ranks_before(a, b) && not_after(b, c) ==> ranks_before(a, c),
        not_after(a, b) && ranks_before(b, c) ==> ranks_before(a, c),
        !ranks_before(a, b) && !ranks_after(a, b) <==> a.final_score == b.final_score
            && crate::double::same_optional(a.p99_ms, b.p99_ms) && a.issue_number == b.issue_number,
{
}

} // verus!
