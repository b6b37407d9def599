//! What changed from one leaderboard to the next.

use crate::double::{equal_optional, law_equal_numbers, same_optional};
use crate::figures::{format_p99, p99_text};
use crate::model::LeaderboardEntry;
use crate::ranking::{all_comparable, comparable, law_ranking_is_consistent, leaderboard_of};
use crate::standings::{
    distinct_issues, distinct_users, law_best_result_is_kept, law_one_entry_per_user,
    law_order_of_results_is_immaterial, lists, same_but_rank,
};
use crate::text::{
    contains_text, decimal, decimal_of, join, joined, law_every_item_is_joined, offset_of,
    signed_decimal, signed_decimal_of, stands_at, texts,
};
use vstd::prelude::*;

verus! {

/// The last entry of the user.
pub open spec fn last_entry_of(entries: Seq<LeaderboardEntry>, user: Seq<char>) -> Option<
    LeaderboardEntry,
>
    decreases entries.len(),
{
    if entries.len() == 0 {
        None
    } else if entries.last().username@ == user {
        Some(entries.last())
    } else {
        last_entry_of(entries.drop_last(), user)
    }
}

/// The two entries tell the same result.
pub open spec fn same_result(a: LeaderboardEntry, b: LeaderboardEntry) -> bool {
    &&& a.issue_number == b.issue_number
    &&& a.final_score == b.final_score
    &&& same_optional(a.p99_ms, b.p99_ms)
}

/// Where a result comes from and what it is.
pub open spec fn result_text(entry: LeaderboardEntry) -> Seq<char> {
    "issue #"@ + decimal(entry.issue_number as nat) + " score "@ + signed_decimal(
        entry.final_score as int,
    ) + " p99 "@ + p99_text(entry.p99_ms)
}

/// What is said of somebody who was not there before.
pub open spec fn arrival_text(entry: LeaderboardEntry) -> Seq<char> {
    "new user "@ + entry.username@ + " -> issue #"@ + decimal(entry.issue_number as nat)
        + ", score "@ + signed_decimal(entry.final_score as int) + ", p99 "@ + p99_text(
        entry.p99_ms,
    )
}

/// What is said of somebody whose result is another one now.
pub open spec fn change_text(before: LeaderboardEntry, entry: LeaderboardEntry) -> Seq<char> {
    entry.username@ + " updated: "@ + result_text(before) + " -> "@ + result_text(entry)
}

/// What is said of somebody who is not there any more.
pub open spec fn departure_text(entry: LeaderboardEntry) -> Seq<char> {
    "user "@ + entry.username@ + " removed from leaderboard (was "@ + result_text(entry) + ")"@
}

/// What is said of the entries of a new leaderboard.
pub open spec fn news_of_current(
    previous: Seq<LeaderboardEntry>,
    current: Seq<LeaderboardEntry>,
) -> Seq<Seq<char>>
    decreases current.len(),
{
    if current.len() == 0 {
        Seq::empty()
    } else {
        let earlier = news_of_current(previous, current.drop_last());
        let entry = current.last();
        match last_entry_of(previous, entry.username@) {
            None => earlier.push(arrival_text(entry)),
            Some(before) => if same_result(before, entry) {
                earlier
            } else {
                earlier.push(change_text(before, entry))
            },
        }
    }
}

/// What is said of the entries of the old leaderboard.
pub open spec fn news_of_previous(
    previous: Seq<LeaderboardEntry>,
    current: Seq<LeaderboardEntry>,
) -> Seq<Seq<char>>
    decreases previous.len(),
{
    if previous.len() == 0 {
        Seq::empty()
    } else {
        let earlier = news_of_previous(previous.drop_last(), current);
        if lists(current, previous.last().username@) {
            earlier
        } else {
            earlier.push(departure_text(previous.last()))
        }
    }
}

/// What is said of a new leaderboard and the one before it.
pub open spec fn updates_text(
    previous: Seq<LeaderboardEntry>,
    current: Seq<LeaderboardEntry>,
) -> Seq<char> {
    let news = news_of_current(previous, current) + news_of_previous(previous, current);
    if news.len() == 0 {
        "leaderboard refresh: no score changes"@
    } else {
        "leaderboard refresh: "@ + joined(news, " | "@)
    }
}

/// Where the last entry of the user stands.
fn last_position(entries: &[LeaderboardEntry], user: &String) -> (at: Option<usize>)
    ensures
        match at {
            Some(i) => i < entries@.len() && last_entry_of(entries@, user@) == Some(
                entries@[i as int],
            ),
            None => last_entry_of(entries@, user@) is None,
        },
        at is Some <==> lists(entries@, user@),
{
    let mut i: usize = entries.len();
    assert(entries@.take(i as int) =~= entries@);
    while i > 0
        invariant
            i <= entries@.len(),
            last_entry_of(entries@, user@) == last_entry_of(entries@.take(i as int), user@),
            forall|j: int| i <= j < entries@.len() ==> entries@[j].username@ != user@,
        decreases i,
    {
        let ghost front = entries@.take(i as int);
        assert(front.last() == entries@[i - 1]);
        assert(front.drop_last() =~= entries@.take(i - 1));
        i -= 1;
        if entries[i].username == *user {
            return Some(i);
        }
    }
    None
}

fn write_result(text: &mut String, entry: &LeaderboardEntry)
    ensures
        final(text)@ == old(text)@ + result_text(*entry),
{
    text.append("issue #");
    text.append(&decimal_of(entry.issue_number));
    text.append(" score ");
    text.append(&signed_decimal_of(entry.final_score));
    text.append(" p99 ");
    text.append(&format_p99(entry.p99_ms));
    assert(text@ =~= old(text)@ + result_text(*entry));
}

fn arrival(entry: &LeaderboardEntry) -> (text: String)
    ensures
        text@ == arrival_text(*entry),
{
    let mut text = String::new();
    text.append("new user ");
    text.append(&entry.username);
    text.append(" -> issue #");
    text.append(&decimal_of(entry.issue_number));
    text.append(", score ");
    text.append(&signed_decimal_of(entry.final_score));
    text.append(", p99 ");
    text.append(&format_p99(entry.p99_ms));
    assert(text@ =~= arrival_text(*entry));
    text
}

fn change(before: &LeaderboardEntry, entry: &LeaderboardEntry) -> (text: String)
    ensures
        text@ == change_text(*before, *entry),
{
    let mut text = String::new();
    text.append(&entry.username);
    text.append(" updated: ");
    write_result(&mut text, before);
    text.append(" -> ");
    write_result(&mut text, entry);
    assert(text@ =~= change_text(*before, *entry));
    text
}

fn departure(entry: &LeaderboardEntry) -> (text: String)
    ensures
        text@ == departure_text(*entry),
{
    let mut text = String::new();
    text.append("user ");
    text.append(&entry.username);
    text.append(" removed from leaderboard (was ");
    write_result(&mut text, entry);
    text.append(")");
    assert(text@ =~= departure_text(*entry));
    text
}

/// Says what changed from one leaderboard to the next.
pub fn log_leaderboard_updates(
    previous: &[LeaderboardEntry],
    current: &[LeaderboardEntry],
) -> (line: String)
    ensures
        line@ == updates_text(previous@, current@),
{
    let mut news: Vec<String> = Vec::new();
    let mut i: usize = 0;
    assert(texts(news@) =~= news_of_current(previous@, current@.take(0)));
    while i < current.len()
        invariant
            i <= current@.len(),
            texts(news@) == news_of_current(previous@, current@.take(i as int)),
        decreases current@.len() - i,
    {
        let ghost next = current@.take(i + 1);
        let ghost said = texts(news@);
        let entry = &current[i];
        proof {
            assert(next.drop_last() =~= current@.take(i as int));
            assert(next.last() == *entry);
        }
        match last_position(previous, &entry.username) {
            None => {
                news.push(arrival(entry));
                assert(texts(news@) =~= said.push(arrival_text(*entry)));
            },
            Some(k) => {
                let before = &previous[k];
                if before.issue_number != entry.issue_number || before.final_score
                    != entry.final_score || !equal_optional(before.p99_ms, entry.p99_ms) {
                    news.push(change(before, entry));
                    assert(texts(news@) =~= said.push(change_text(*before, *entry)));
                }
            },
        }
        i += 1;
    }
    assert(current@.take(i as int) =~= current@);
    let ghost now = news_of_current(previous@, current@);
    i = 0;
    assert(news_of_previous(previous@.take(0), current@) =~= Seq::<Seq<char>>::empty());
    assert(now + Seq::<Seq<char>>::empty() =~= now);
    while i < previous.len()
        invariant
            i <= previous@.len(),
            texts(news@) == now + news_of_previous(previous@.take(i as int), current@),
        decreases previous@.len() - i,
    {
        let ghost next = previous@.take(i + 1);
        let ghost said = texts(news@);
        let entry = &previous[i];
        proof {
            assert(next.drop_last() =~= previous@.take(i as int));
            assert(next.last() == *entry);
        }
        if last_position(current, &entry.username).is_none() {
            news.push(departure(entry));
            assert(texts(news@) =~= said.push(departure_text(*entry)));
            assert(texts(news@) =~= now + news_of_previous(next, current@));
        }
        i += 1;
    }
    assert(previous@.take(i as int) =~= previous@);
    if news.len() == 0 {
        "leaderboard refresh: no score changes".to_owned()
    } else {
        let mut line = String::new();
        line.append("leaderboard refresh: ");
        line.append(&join(&news, " | "));
        assert(line@ =~= "leaderboard refresh: "@ + joined(texts(news@), " | "@));
        line
    }
}

/// The entry tells nothing new.
pub open spec fn is_old_news(previous: Seq<LeaderboardEntry>, entry: LeaderboardEntry) -> bool {
    last_entry_of(previous, entry.username@) matches Some(before) && same_result(before, entry)
}

/// There is nothing to say just where everybody on the new leaderboard was on the old one
/// with the same result, and everybody on the old one is still there.
pub proof fn law_silence_means_no_change(
    previous: Seq<LeaderboardEntry>,
    current: Seq<LeaderboardEntry>,
)
    ensures
        news_of_current(previous, current).len() == 0 <==> forall|i: int|
            0 <= i < current.len() ==> is_old_news(previous, #[trigger] current[i]),
        news_of_previous(previous, current).len() == 0 <==> forall|i: int|
            0 <= i < previous.len() ==> lists(current, (#[trigger] previous[i]).username@),
    decreases current.len() + previous.len(),
{
    if current.len() > 0 {
        let front = current.drop_last();
        law_silence_means_no_change(previous, front);
        let silent = forall|i: int|
            0 <= i < current.len() ==> is_old_news(previous, #[trigger] current[i]);
        if silent {
            assert(is_old_news(previous, current[current.len() - 1]));
            assert forall|i: int| 0 <= i < front.len() implies is_old_news(
                previous,
                #[trigger] front[i],
            ) by {
                assert(is_old_news(previous, current[i]));
            }
        }
        if news_of_current(previous, current).len() == 0 {
            assert forall|i: int| 0 <= i < current.len() implies is_old_news(
                previous,
                #[trigger] current[i],
            ) by {
                if i < front.len() {
                    assert(is_old_news(previous, front[i]));
                }
            }
        }
    }
    if previous.len() > 0 {
        let front = previous.drop_last();
        law_silence_means_no_change(front, current);
        let silent = forall|i: int|
            0 <= i < previous.len() ==> lists(current, (#[trigger] previous[i]).username@);
        if silent {
            assert(lists(current, previous[previous.len() - 1].username@));
            assert forall|i: int| 0 <= i < front.len() implies lists(
                current,
                (#[trigger] front[i]).username@,
            ) by {
                assert(lists(current, previous[i].username@));
            }
        }
        if news_of_previous(previous, current).len() == 0 {
            assert forall|i: int| 0 <= i < previous.len() implies lists(
                current,
                (#[trigger] previous[i]).username@,
            ) by {
                if i < front.len() {
                    assert(lists(current, front[i].username@));
                }
            }
        }
    }
}

proof fn lemma_last_of_distinct(entries: Seq<LeaderboardEntry>, i: int)
    requires
        distinct_users(entries),
        0 <= i < entries.len(),
    ensures
        last_entry_of(entries, entries[i].username@) == Some(entries[i]),
    decreases entries.len(),
{
    let last = entries.len() - 1;
    if i < last {
        assert(entries[i].username@ != entries[last].username@);
        let front = entries.drop_last();
        assert forall|a: int, b: int| 0 <= a < b < front.len() implies (
        #[trigger] front[a]).username@ != (#[trigger] front[b]).username@ by {
            assert(entries[a].username@ != entries[b].username@);
        }
        lemma_last_of_distinct(front, i);
    }
}

/// A leaderboard that is followed by itself has not changed.
pub proof fn law_same_leaderboard_is_no_news(entries: Seq<LeaderboardEntry>)
    requires
        distinct_users(entries),
        all_comparable(entries),
    ensures
        updates_text(entries, entries) == "leaderboard refresh: no score changes"@,
{
    assert forall|i: int| 0 <= i < entries.len() implies is_old_news(entries, #[trigger] entries[i])
        && lists(entries, entries[i].username@) by {
        lemma_last_of_distinct(entries, i);
        assert(comparable(entries[i]));
        law_ranking_is_consistent(entries[i], entries[i], entries[i]);
    }
    law_silence_means_no_change(entries, entries);
}

/// The same results, gathered again, are no news.
pub proof fn law_same_results_are_no_news(a: Seq<LeaderboardEntry>, b: Seq<LeaderboardEntry>)
    requires
        a.to_multiset() == b.to_multiset(),
        all_comparable(a),
        distinct_issues(a),
    ensures
        updates_text(leaderboard_of(a), leaderboard_of(b))
            == "leaderboard refresh: no score changes"@,
{
    let board = leaderboard_of(a);
    law_order_of_results_is_immaterial(a, b);
    law_one_entry_per_user(a);
    assert forall|i: int| 0 <= i < board.len() implies comparable(#[trigger] board[i]) by {
        law_best_result_is_kept(a, i, 0);
        let k = choose|k: int| 0 <= k < a.len() && #[trigger] same_but_rank(board[i], a[k]);
        assert(comparable(a[k]));
    }
    law_same_leaderboard_is_no_news(board);
}

/// Everybody is new on the first leaderboard.
pub proof fn law_everybody_is_new_at_first(current: Seq<LeaderboardEntry>)
    ensures
        news_of_current(Seq::empty(), current) == Seq::new(
            current.len(),
            |i: int| arrival_text(current[i]),
        ),
        news_of_previous(Seq::empty(), current).len() == 0,
    decreases current.len(),
{
    let said = Seq::new(current.len(), |i: int| arrival_text(current[i]));
    if current.len() > 0 {
        law_everybody_is_new_at_first(current.drop_last());
        assert(news_of_current(Seq::empty(), current) =~= said);
    } else {
        assert(news_of_current(Seq::empty(), current) =~= said);
    }
}

/// The last entry of a user is one of the entries, with that name, and no later one has it;
/// there is none where nobody has that name.
pub proof fn law_last_entry_is_the_last(entries: Seq<LeaderboardEntry>, user: Seq<char>)
    ensures
        match last_entry_of(entries, user) {
            Some(entry) => exists|k: int|
                0 <= k < entries.len() && #[trigger] entries[k] == entry && entry.username@ == user
                    && forall|j: int|
                    k < j < entries.len() ==> (#[trigger] entries[j]).username@ != user,
            None => forall|j: int|
                0 <= j < entries.len() ==> (#[trigger] entries[j]).username@ != user,
        },
    decreases entries.len(),
{
    if entries.len() > 0 {
        let front = entries.drop_last();
        let last = entries.len() - 1;
        if entries.last().username@ == user {
            assert(entries[last] == entries.last());
        } else {
            law_last_entry_is_the_last(front, user);
            match last_entry_of(front, user) {
                Some(entry) => {
                    let k = choose|k: int|
                        0 <= k < front.len() && #[trigger] front[k] == entry && entry.username@
                            == user && forall|j: int|
                            k < j < front.len() ==> (#[trigger] front[j]).username@ != user;
                    assert(entries[k] == entry);
                    assert forall|j: int| k < j < entries.len() implies (
                    #[trigger] entries[j]).username@ != user by {
                        if j < last {
                            assert(front[j] == entries[j]);
                        }
                    }
                },
                None => {
                    assert forall|j: int| 0 <= j < entries.len() implies (
                    #[trigger] entries[j]).username@ != user by {
                        if j < last {
                            assert(front[j] == entries[j]);
                        }
                    }
                },
            }
        }
    }
}

/// The two entries tell the same: the issue, the score and the p99 are the same.
pub open spec fn nothing_changed(a: LeaderboardEntry, b: LeaderboardEntry) -> bool {
    a.issue_number == b.issue_number && a.final_score == b.final_score && match (
        a.p99_ms,
        b.p99_ms,
    ) {
        (None, None) => true,
        (Some(x), Some(y)) => !x.is_nan() && !y.is_nan() && x.value() == y.value(),
        _ => false,
    }
}

/// The entry at `k` is the last one of the user; on a leaderboard, the only one.
pub open spec fn is_last_of(entries: Seq<LeaderboardEntry>, k: int, user: Seq<char>) -> bool {
    &&& 0 <= k < entries.len()
    &&& entries[k].username@ == user
    &&& forall|j: int| k < j < entries.len() ==> (#[trigger] entries[j]).username@ != user
}

/// One entry more on the new leaderboard adds a line about a new user, where nobody of that
/// name was there; a line about a change, where the issue, the score or the p99 is another
/// one; and nothing where all three are the same.
pub proof fn law_one_entry_more(
    previous: Seq<LeaderboardEntry>,
    current: Seq<LeaderboardEntry>,
    entry: LeaderboardEntry,
    k: int,
)
    ensures
        !lists(previous, entry.username@) ==> news_of_current(previous, current.push(entry))
            == news_of_current(previous, current).push(
            "new user "@ + entry.username@ + " -> issue #"@ + decimal(entry.issue_number as nat)
                + ", score "@ + signed_decimal(entry.final_score as int) + ", p99 "@ + p99_text(
                entry.p99_ms,
            ),
        ),
        is_last_of(previous, k, entry.username@) && nothing_changed(previous[k], entry)
            ==> news_of_current(
            previous,
            current.push(entry),
        ) == news_of_current(previous, current),
        is_last_of(previous, k, entry.username@) && !nothing_changed(previous[k], entry)
            ==> news_of_current(
            previous,
            current.push(entry),
        ) == news_of_current(previous, current).push(
            entry.username@ + " updated: issue #"@ + decimal(previous[k].issue_number as nat)
                + " score "@ + signed_decimal(previous[k].final_score as int) + " p99 "@ + p99_text(
                previous[k].p99_ms,
            ) + " -> issue #"@ + decimal(entry.issue_number as nat) + " score "@ + signed_decimal(
                entry.final_score as int,
            ) + " p99 "@ + p99_text(entry.p99_ms),
        ),
{
    assert(current.push(entry).drop_last() =~= current);
    let user = entry.username@;
    law_last_entry_is_the_last(previous, user);
    if is_last_of(previous, k, user) {
        match last_entry_of(previous, user) {
            Some(found) => {
                let m = choose|m: int|
                    0 <= m < previous.len() && #[trigger] previous[m] == found && found.username@
                        == user && forall|j: int|
                        m < j < previous.len() ==> (#[trigger] previous[j]).username@ != user;
                if m < k {
                    assert(previous[k].username@ != user);
                } else if k < m {
                    assert(previous[m].username@ != user);
                }
            },
            None => {
                assert(previous[k].username@ != user);
            },
        }
        law_equal_numbers(previous[k].p99_ms, entry.p99_ms);
        assert(same_result(previous[k], entry) == nothing_changed(previous[k], entry));
        lemma_change_text(previous[k], entry);
    }
}

proof fn lemma_change_text(before: LeaderboardEntry, entry: LeaderboardEntry)
    ensures
        change_text(before, entry) == entry.username@ + " updated: issue #"@ + decimal(
            before.issue_number as nat,
        ) + " score "@ + signed_decimal(before.final_score as int) + " p99 "@ + p99_text(
            before.p99_ms,
        ) + " -> issue #"@ + decimal(entry.issue_number as nat) + " score "@ + signed_decimal(
            entry.final_score as int,
        ) + " p99 "@ + p99_text(entry.p99_ms),
{
    reveal_strlit(" updated: ");
    reveal_strlit("issue #");
    reveal_strlit(" updated: issue #");
    reveal_strlit(" -> ");
    reveal_strlit(" -> issue #");
    assert(" updated: "@ + "issue #"@ =~= " updated: issue #"@);
    assert(" -> "@ + "issue #"@ =~= " -> issue #"@);
    let (u, a, b) = (entry.username@, " updated: "@, "issue #"@);
    let tail = decimal(before.issue_number as nat) + " score "@ + signed_decimal(
        before.final_score as int,
    ) + " p99 "@ + p99_text(before.p99_ms);
    let rest = decimal(entry.issue_number as nat) + " score "@ + signed_decimal(
        entry.final_score as int,
    ) + " p99 "@ + p99_text(entry.p99_ms);
    lemma_five_after(
        b,
        decimal(before.issue_number as nat),
        " score "@,
        signed_decimal(before.final_score as int),
        " p99 "@,
        p99_text(before.p99_ms),
    );
    lemma_five_after(
        b,
        decimal(entry.issue_number as nat),
        " score "@,
        signed_decimal(entry.final_score as int),
        " p99 "@,
        p99_text(entry.p99_ms),
    );
    lemma_regroup_change(u, a, b, tail, " -> "@, rest);
    lemma_five_after(
        u + " updated: issue #"@,
        decimal(before.issue_number as nat),
        " score "@,
        signed_decimal(before.final_score as int),
        " p99 "@,
        p99_text(before.p99_ms),
    );
    lemma_five_after(
        u + " updated: issue #"@ + tail + " -> issue #"@,
        decimal(entry.issue_number as nat),
        " score "@,
        signed_decimal(entry.final_score as int),
        " p99 "@,
        p99_text(entry.p99_ms),
    );
}

proof fn lemma_five_after(
    head: Seq<char>,
    a: Seq<char>,
    b: Seq<char>,
    c: Seq<char>,
    d: Seq<char>,
    e: Seq<char>,
)
    ensures
        head + a + b + c + d + e == head + (a + b + c + d + e),
{
    assert(head + a + b + c + d + e =~= head + (a + b + c + d + e));
}

proof fn lemma_regroup_change(
    u: Seq<char>,
    a: Seq<char>,
    b: Seq<char>,
    tail: Seq<char>,
    arrow: Seq<char>,
    rest: Seq<char>,
)
    ensures
        u + a + (b + tail) + arrow + (b + rest) == u + (a + b) + tail + (arrow + b) + rest,
{
    assert(u + a + (b + tail) + arrow + (b + rest) =~= u + (a + b) + tail + (arrow + b) + rest);
}

/// One entry more on the old leaderboard adds a line about a removed user, just where
/// nobody of that name is on the new one.
pub proof fn law_one_old_entry_more(
    previous: Seq<LeaderboardEntry>,
    current: Seq<LeaderboardEntry>,
    entry: LeaderboardEntry,
)
    ensures
        lists(current, entry.username@) ==> news_of_previous(previous.push(entry), current)
            == news_of_previous(previous, current),
        !lists(current, entry.username@) ==> news_of_previous(previous.push(entry), current)
            == news_of_previous(previous, current).push(
            "user "@ + entry.username@ + " removed from leaderboard (was issue #"@ + decimal(
                entry.issue_number as nat,
            ) + " score "@ + signed_decimal(entry.final_score as int) + " p99 "@ + p99_text(
                entry.p99_ms,
            ) + ")"@,
        ),
{
    assert(previous.push(entry).drop_last() =~= previous);
    reveal_strlit(" removed from leaderboard (was ");
    reveal_strlit("issue #");
    reveal_strlit(" removed from leaderboard (was issue #");
    let (a, b) = (" removed from leaderboard (was "@, "issue #"@);
    assert(a + b =~= " removed from leaderboard (was issue #"@);
    let head = "user "@ + entry.username@;
    let tail = decimal(entry.issue_number as nat) + " score "@ + signed_decimal(
        entry.final_score as int,
    ) + " p99 "@ + p99_text(entry.p99_ms);
    lemma_five_after(
        b,
        decimal(entry.issue_number as nat),
        " score "@,
        signed_decimal(entry.final_score as int),
        " p99 "@,
        p99_text(entry.p99_ms),
    );
    assert(head + a + (b + tail) + ")"@ =~= head + (a + b) + tail + ")"@);
    lemma_five_after(
        head + (a + b),
        decimal(entry.issue_number as nat),
        " score "@,
        signed_decimal(entry.final_score as int),
        " p99 "@,
        p99_text(entry.p99_ms),
    );
}

/// An empty leaderboard gives no lines, and the line that is said of a refresh holds all
/// lines, those about the new leaderboard first.
pub proof fn law_all_news_are_told(
    previous: Seq<LeaderboardEntry>,
    current: Seq<LeaderboardEntry>,
    k: int,
)
    ensures
        news_of_current(previous, Seq::empty()).len() == 0,
        news_of_previous(Seq::empty(), current).len() == 0,
        ({
            let news = news_of_current(previous, current) + news_of_previous(previous, current);
            &&& news.len() == 0 ==> updates_text(previous, current)
                == "leaderboard refresh: no score changes"@
            &&& news.len() > 0 ==> updates_text(previous, current) == "leaderboard refresh: "@
                + joined(news, " | "@)
            &&& 0 <= k < news.len() ==> contains_text(updates_text(previous, current), news[k])
        }),
{
    let news = news_of_current(previous, current) + news_of_previous(previous, current);
    if 0 <= k < news.len() {
        law_every_item_is_joined(news, " | "@, k);
        let (line, inner) = (updates_text(previous, current), joined(news, " | "@));
        let at = "leaderboard refresh: "@.len() + offset_of(news, " | "@, k);
        lemma_offset(news, " | "@, k);
        assert(line.subrange(at, at + news[k].len()) =~= inner.subrange(
            offset_of(news, " | "@, k),
            offset_of(news, " | "@, k) + news[k].len(),
        ));
        assert(stands_at(line, news[k], at));
    }
}

proof fn lemma_offset(list: Seq<Seq<char>>, sep: Seq<char>, k: int)
    ensures
        offset_of(list, sep, k) >= 0,
    decreases k,
{
    if k > 0 {
        lemma_offset(list, sep, k - 1);
    }
}

} // verus!
