//! What the page shows.

use crate::clock::{issue_time_text, relative_text, Moment};
use crate::figures::{optional_number_text, p99_text};
use crate::markup::{
    escaped, law_parts_are_escaped_alone, law_plain_text_stays, truncated,
};
use crate::model::LeaderboardEntry;
use crate::render::{
    badge_text, breakdown_text, failure_rate_text, icon_text, icons_of, links_text, names_text,
    page_text, row_class, row_end, row_middle, row_start, row_text, rows_of, stack_text,
    status_text, table_text,
};
use crate::state::LeaderboardState;
use crate::template::{
    EMPTY_TABLE, PAGE_END, PAGE_HEAD, PAGE_TO_COUNT, PAGE_TO_SCORE, PAGE_TO_STATUS, PAGE_TO_TABLE,
    PAGE_TO_TIME, TABLE_END, TABLE_HEAD,
};
use crate::text::{
    begins_with, contains_text, decimal, ends_with, joined, law_beginnings_and_ends,
    law_containing_is_standing_in, law_every_item_is_joined, law_joined_lists, offset_of, signed_decimal, stands_at, texts,
};
use vstd::prelude::*;

verus! {

/// The page before the table: the cards tell how many entries the leaderboard has, the score
/// of the first one, and when it was refreshed.
pub open spec fn cards(
    count: nat,
    top_score: int,
    refreshed: Seq<char>,
) -> Seq<char> {
    PAGE_HEAD@ + "https://github.com/zanfranceschi/rinha-de-backend-2026"@ + PAGE_TO_COUNT@
        + decimal(count) + PAGE_TO_SCORE@ + signed_decimal(top_score) + PAGE_TO_TIME@ + refreshed
        + PAGE_TO_TABLE@
}

/// When the leaderboard was refreshed, as the card tells it.
pub open spec fn refreshed_as(state: LeaderboardState, now: Moment) -> Seq<char> {
    match state.last_refreshed_at {
        Some(time) => relative_text(time@, now),
        None => "warming up"@,
    }
}

/// The page is the cards, the table and the status message. The cards count all entries and
/// tell the score of the first, which is zero where there is none. The message is the last
/// error, escaped, or that there is a refresh every five minutes.
pub proof fn law_page_tells_the_state(state: LeaderboardState, now: Moment)
    ensures
        page_text(state, now) == cards(
            state.leaderboard@.len(),
            if state.leaderboard@.len() > 0 {
                state.leaderboard@[0].final_score as int
            } else {
                0
            },
            refreshed_as(state, now),
        ) + table_text(state.leaderboard@, now) + (PAGE_TO_STATUS@ + escaped(
            match state.last_error {
                Some(error) => "Last refresh failed: "@ + error@,
                None => "Background refresh runs every 5 minutes."@,
            },
        ) + PAGE_END@),
{
    let top = cards(
        state.leaderboard@.len(),
        if state.leaderboard@.len() > 0 {
            state.leaderboard@[0].final_score as int
        } else {
            0
        },
        refreshed_as(state, now),
    );
    let table = table_text(state.leaderboard@, now);
    let status = escaped(status_text(state.last_error));
    assert(page_text(state, now) == top + table + PAGE_TO_STATUS@ + status + PAGE_END@);
    lemma_three_after(top + table, PAGE_TO_STATUS@, status, PAGE_END@);
}

proof fn lemma_three_after(head: Seq<char>, a: Seq<char>, b: Seq<char>, c: Seq<char>)
    ensures
        head + a + b + c == head + (a + b + c),
{
    assert(head + a + b + c =~= head + (a + b + c));
}

/// How long the first `k` rows are, one after the other.
pub open spec fn length_of_rows(entries: Seq<LeaderboardEntry>, now: Moment, k: int) -> int
    decreases k,
{
    if k <= 0 {
        0
    } else {
        length_of_rows(entries, now, k - 1) + row_text(entries[k - 1], now).len()
    }
}

proof fn lemma_rows_offset(entries: Seq<LeaderboardEntry>, now: Moment, k: int)
    requires
        k <= entries.len(),
        rows_of(entries, now).len() == entries.len(),
        forall|i: int|
            0 <= i < entries.len() ==> #[trigger] rows_of(entries, now)[i] == row_text(
                entries[i],
                now,
            ),
    ensures
        offset_of(rows_of(entries, now), ""@, k) == length_of_rows(entries, now, k),
        length_of_rows(entries, now, k) >= 0,
    decreases k,
{
    reveal_strlit("");
    if k > 0 {
        lemma_rows_offset(entries, now, k - 1);
        assert(rows_of(entries, now)[k - 1] == row_text(entries[k - 1], now));
    }
}

/// The table has one row for each entry and no other: right after its head comes the row of
/// the first entry, after the row of an entry the row of the next one, and after the row of
/// the last one the end of the table.
pub proof fn law_one_row_for_each_entry(entries: Seq<LeaderboardEntry>, now: Moment, k: int)
    requires
        0 <= k < entries.len(),
    ensures
        rows_of(entries, now).len() == entries.len(),
        rows_of(entries, now)[k] == row_text(entries[k], now),
        begins_with(table_text(entries, now), TABLE_HEAD@),
        stands_at(
            table_text(entries, now),
            row_text(entries[k], now),
            TABLE_HEAD@.len() + length_of_rows(entries, now, k),
        ),
        stands_at(
            table_text(entries, now),
            TABLE_END@,
            TABLE_HEAD@.len() + length_of_rows(entries, now, entries.len() as int),
        ),
        table_text(entries, now).len() == TABLE_HEAD@.len() + length_of_rows(
            entries,
            now,
            entries.len() as int,
        ) + TABLE_END@.len(),
{
    let rows = rows_of(entries, now);
    let n = entries.len() as int;
    lemma_rows_offset(entries, now, k);
    lemma_rows_offset(entries, now, n);
    lemma_items_in_a_row(TABLE_HEAD@, rows, TABLE_END@, k);
}

/// Items that are joined without a separator stand one right after the other.
proof fn lemma_items_in_a_row(head: Seq<char>, rows: Seq<Seq<char>>, end: Seq<char>, k: int)
    requires
        0 <= k < rows.len(),
    ensures
        ({
            let whole = head + joined(rows, ""@) + end;
            &&& begins_with(whole, head)
            &&& stands_at(whole, rows[k], head.len() + offset_of(rows, ""@, k))
            &&& stands_at(whole, end, head.len() + offset_of(rows, ""@, rows.len() as int))
            &&& whole.len() == head.len() + offset_of(rows, ""@, rows.len() as int) + end.len()
        }),
{
    reveal_strlit("");
    let body = joined(rows, ""@);
    let whole = head + body + end;
    let n = rows.len() as int;
    law_every_item_is_joined(rows, ""@, k);
    assert(rows.last() == rows[n - 1]);
    assert(offset_of(rows, ""@, n) == body.len());
    lemma_shifted(head, body, end, rows[k], offset_of(rows, ""@, k));
    assert(whole.take(head.len() as int) =~= head);
    let at = (head.len() + body.len()) as int;
    assert(whole.subrange(at, at + end.len()) =~= end);
}

proof fn lemma_shifted(
    before: Seq<char>,
    s: Seq<char>,
    after: Seq<char>,
    needle: Seq<char>,
    at: int,
)
    requires
        stands_at(s, needle, at),
    ensures
        stands_at(before + s + after, needle, before.len() + at),
        contains_text(before + s + after, needle),
{
    let whole = before + s + after;
    assert(whole.subrange(before.len() + at, before.len() + at + needle.len()) =~= s.subrange(
        at,
        at + needle.len(),
    ));
    assert(stands_at(whole, needle, before.len() + at));
}

/// The row of every entry of the leaderboard stands on the page, the rows in the order of the
/// leaderboard, one right after the other.
pub proof fn law_every_entry_is_on_the_page(
    state: LeaderboardState,
    now: Moment,
    i: int,
    j: int,
) -> (places: (int, int))
    requires
        0 <= i < j < state.leaderboard@.len(),
    ensures
        stands_at(page_text(state, now), row_text(state.leaderboard@[i], now), places.0),
        stands_at(page_text(state, now), row_text(state.leaderboard@[j], now), places.1),
        places.0 + row_text(state.leaderboard@[i], now).len() <= places.1,
        j == i + 1 ==> places.1 == places.0 + row_text(state.leaderboard@[i], now).len(),
{
    let first = law_entry_is_on_the_page(state, now, i);
    let second = law_entry_is_on_the_page(state, now, j);
    lemma_rows_grow(state.leaderboard@, now, i + 1, j);
    (first, second)
}

proof fn lemma_rows_grow(entries: Seq<LeaderboardEntry>, now: Moment, a: int, b: int)
    requires
        0 <= a <= b,
    ensures
        length_of_rows(entries, now, a) <= length_of_rows(entries, now, b),
    decreases b - a,
{
    if a < b {
        lemma_rows_grow(entries, now, a, b - 1);
    }
}

/// The row of an entry stands on the page, after the cards, the head of the table, and the
/// rows before it.
pub proof fn law_entry_is_on_the_page(state: LeaderboardState, now: Moment, k: int) -> (place: int)
    requires
        0 <= k < state.leaderboard@.len(),
    ensures
        place == cards(
            state.leaderboard@.len(),
            state.leaderboard@[0].final_score as int,
            refreshed_as(state, now),
        ).len() + TABLE_HEAD@.len() + length_of_rows(state.leaderboard@, now, k),
        stands_at(page_text(state, now), row_text(state.leaderboard@[k], now), place),
        contains_text(page_text(state, now), row_text(state.leaderboard@[k], now)),
{
    let entries = state.leaderboard@;
    law_page_tells_the_state(state, now);
    law_one_row_for_each_entry(entries, now, k);
    let top = cards(entries.len(), entries[0].final_score as int, refreshed_as(state, now));
    let bottom = PAGE_TO_STATUS@ + escaped(status_text(state.last_error)) + PAGE_END@;
    let at = TABLE_HEAD@.len() + length_of_rows(entries, now, k);
    lemma_shifted(top, table_text(entries, now), bottom, row_text(entries[k], now), at);
    top.len() + at
}

/// Where the leaderboard is empty, a notice stands in place of the table.
pub proof fn law_empty_leaderboard_has_no_table(entries: Seq<LeaderboardEntry>, now: Moment)
    requires
        entries.len() == 0,
    ensures
        table_text(entries, now) == EMPTY_TABLE@,
{
}

/// A cell.
pub open spec fn cell(content: Seq<char>) -> Seq<char> {
    "<td>"@ + content + "</td>"@
}

/// A cell of a class.
pub open spec fn cell_of(class: Seq<char>, content: Seq<char>) -> Seq<char> {
    "<td class=\""@ + class + "\">"@ + content + "</td>"@
}

proof fn lemma_more_in_cell(done: Seq<char>, open: Seq<char>, y: Seq<char>, z: Seq<char>)
    ensures
        (done + (open + y)) + z == done + (open + (y + z)),
{
    assert((done + (open + y)) + z =~= done + (open + (y + z)));
}

proof fn lemma_next_cell(
    done: Seq<char>,
    open: Seq<char>,
    y: Seq<char>,
    close: Seq<char>,
    next: Seq<char>,
    z: Seq<char>,
)
    ensures
        (done + (open + y)) + (close + next) + z == (done + (open + y + close)) + (next + z),
{
    assert((done + (open + y)) + (close + next) + z =~= (done + (open + y + close)) + (next + z));
}

proof fn lemma_last_cell(done: Seq<char>, open: Seq<char>, y: Seq<char>, close: Seq<char>)
    ensures
        (done + (open + y)) + close == done + (open + y + close),
{
    assert((done + (open + y)) + close =~= done + (open + y + close));
}

/// The cell about a user: the name, with a link to the issue, the participants, whether they
/// look for work, and the number of the issue.
pub open spec fn user_cell(entry: LeaderboardEntry) -> Seq<char> {
    "<a class=\"user-link\" href=\""@ + escaped(entry.issue_url@)
        + "\" target=\"_blank\" rel=\"noreferrer\">"@ + escaped(entry.username@) + "</a>"@
        + names_text(texts(entry.participant_names@)) + badge_text(entry.open_to_work)
        + "<span class=\"muted\">issue #"@ + decimal(entry.issue_number as nat) + "</span>"@
}

proof fn lemma_cell_literals()
    ensures
        "\"><td class=\"rank\">#"@ == "\">"@ + ("<td class=\""@ + "rank"@ + "\">"@ + "#"@),
        "</td><td><a class=\"user-link\" href=\""@ == "</td>"@ + ("<td>"@
            + "<a class=\"user-link\" href=\""@),
        "</span></td><td>"@ == "</span>"@ + ("</td>"@ + "<td>"@),
        "</td><td>"@ == "</td>"@ + "<td>"@,
        "</td><td class=\"center-cell\">"@ == "</td>"@ + ("<td class=\""@ + "center-cell"@
            + "\">"@),
        "</td><td class=\"actions-cell\">"@ == "</td>"@ + ("<td class=\""@ + "actions-cell"@
            + "\">"@),
        "</td></tr>"@ == "</td>"@ + "</tr>"@,
{
    reveal_strlit("\"><td class=\"rank\">#");
    reveal_strlit("\">");
    reveal_strlit("<td class=\"");
    reveal_strlit("rank");
    reveal_strlit("#");
    reveal_strlit("</td><td><a class=\"user-link\" href=\"");
    reveal_strlit("</td>");
    reveal_strlit("<td>");
    reveal_strlit("<a class=\"user-link\" href=\"");
    reveal_strlit("</span></td><td>");
    reveal_strlit("</span>");
    reveal_strlit("</td><td>");
    reveal_strlit("</td><td class=\"center-cell\">");
    reveal_strlit("center-cell");
    reveal_strlit("</td><td class=\"actions-cell\">");
    reveal_strlit("actions-cell");
    reveal_strlit("</td></tr>");
    reveal_strlit("</tr>");
    assert("\"><td class=\"rank\">#"@ =~= "\">"@ + ("<td class=\""@ + "rank"@ + "\">"@ + "#"@));
    assert("</td><td><a class=\"user-link\" href=\""@ =~= "</td>"@ + ("<td>"@
        + "<a class=\"user-link\" href=\""@));
    assert("</span></td><td>"@ =~= "</span>"@ + ("</td>"@ + "<td>"@));
    assert("</td><td>"@ =~= "</td>"@ + "<td>"@);
    assert("</td><td class=\"center-cell\">"@ =~= "</td>"@ + ("<td class=\""@ + "center-cell"@
        + "\">"@));
    assert("</td><td class=\"actions-cell\">"@ =~= "</td>"@ + ("<td class=\""@ + "actions-cell"@
        + "\">"@));
    assert("</td></tr>"@ =~= "</td>"@ + "</tr>"@);
}

proof fn lemma_first_cell(
    start: Seq<char>,
    class: Seq<char>,
    end: Seq<char>,
    open: Seq<char>,
    hash: Seq<char>,
    rank: Seq<char>,
)
    ensures
        start + class + (end + (open + hash)) + rank == (start + class + end) + (open + (hash
            + rank)),
{
    assert(start + class + (end + (open + hash)) + rank =~= (start + class + end) + (open + (hash
        + rank)));
}

proof fn lemma_second_cell(
    done: Seq<char>,
    open: Seq<char>,
    y: Seq<char>,
    close: Seq<char>,
    next: Seq<char>,
    link: Seq<char>,
    z: Seq<char>,
)
    ensures
        (done + (open + y)) + (close + (next + link)) + z == (done + (open + y + close)) + (next + (
        link + z)),
{
    assert((done + (open + y)) + (close + (next + link)) + z =~= (done + (open + y + close)) + (next
        + (link + z)));
}

proof fn lemma_third_cell(
    done: Seq<char>,
    open: Seq<char>,
    y: Seq<char>,
    end: Seq<char>,
    close: Seq<char>,
    next: Seq<char>,
    z: Seq<char>,
)
    ensures
        (done + (open + y)) + (end + (close + next)) + z + close == (done + (open + (y + end)
            + close)) + (next + z + close),
{
    assert((done + (open + y)) + (end + (close + next)) + z + close =~= (done + (open + (y + end)
        + close)) + (next + z + close));
}

/// A row begins with the rank, the user and the stack, each in a cell.
pub proof fn law_row_begins_with_the_user(entry: LeaderboardEntry)
    ensures
        row_start(entry) == ("<tr class=\""@ + row_class(entry.open_to_work) + "\">"@) + cell_of(
            "rank"@,
            "#"@ + decimal(entry.rank as nat),
        ) + cell(user_cell(entry)) + cell(stack_text(texts(entry.submission_stack@))),
{
    lemma_cell_literals();
    let class = row_class(entry.open_to_work);
    let tr = "<tr class=\""@ + class + "\">"@;
    let open_rank = "<td class=\""@ + "rank"@ + "\">"@;
    let rank = decimal(entry.rank as nat);
    let (open, close) = ("<td>"@, "</td>"@);
    let link = "<a class=\"user-link\" href=\""@;
    let url = escaped(entry.issue_url@);
    let stack = stack_text(texts(entry.submission_stack@));
    lemma_first_cell("<tr class=\""@, class, "\">"@, open_rank, "#"@, rank);
    lemma_second_cell(tr, open_rank, "#"@ + rank, close, open, link, url);
    let done = tr + (open_rank + ("#"@ + rank) + close);
    let target = "\" target=\"_blank\" rel=\"noreferrer\">"@;
    let user = escaped(entry.username@);
    let names = names_text(texts(entry.participant_names@));
    let badge = badge_text(entry.open_to_work);
    let number = decimal(entry.issue_number as nat);
    let y0 = link + url;
    lemma_more_in_cell(done, open, y0, target);
    lemma_more_in_cell(done, open, y0 + target, user);
    lemma_more_in_cell(done, open, y0 + target + user, "</a>"@);
    lemma_more_in_cell(done, open, y0 + target + user + "</a>"@, names);
    lemma_more_in_cell(done, open, y0 + target + user + "</a>"@ + names, badge);
    lemma_more_in_cell(
        done,
        open,
        y0 + target + user + "</a>"@ + names + badge,
        "<span class=\"muted\">issue #"@,
    );
    let y6 = y0 + target + user + "</a>"@ + names + badge + "<span class=\"muted\">issue #"@;
    lemma_more_in_cell(done, open, y6, number);
    lemma_third_cell(done, open, y6 + number, "</span>"@, close, open, stack);
}

/// In the middle of a row come the score, the failure rate, the p99, the processors, the
/// memory and the number of HTTP errors, each in a cell.
pub proof fn law_row_shows_the_measurements(entry: LeaderboardEntry)
    ensures
        row_middle(entry) == cell(signed_decimal(entry.final_score as int)) + cell(
            failure_rate_text(entry.failure_rate),
        ) + cell(p99_text(entry.p99_ms)) + cell(optional_number_text(entry.cpu)) + cell(
            optional_number_text(entry.memory_mb),
        ) + cell_of("center-cell"@, signed_decimal(entry.http_errors as int)),
{
    lemma_cell_literals();
    let (open, close) = ("<td>"@, "</td>"@);
    let none = Seq::<char>::empty();
    let score = signed_decimal(entry.final_score as int);
    let rate = failure_rate_text(entry.failure_rate);
    let p99 = p99_text(entry.p99_ms);
    let cpu = optional_number_text(entry.cpu);
    let mem = optional_number_text(entry.memory_mb);
    let http = signed_decimal(entry.http_errors as int);
    let open_center = "<td class=\""@ + "center-cell"@ + "\">"@;
    assert(none + (open + score) =~= open + score);
    lemma_next_cell(none, open, score, close, open, rate);
    assert(none + (open + score + close) =~= cell(score));
    let d1 = cell(score);
    lemma_next_cell(d1, open, rate, close, open, p99);
    let d2 = d1 + cell(rate);
    lemma_next_cell(d2, open, p99, close, open, cpu);
    let d3 = d2 + cell(p99);
    lemma_next_cell(d3, open, cpu, close, open, mem);
    let d4 = d3 + cell(cpu);
    lemma_next_cell(d4, open, mem, close, open_center, http);
    let d5 = d4 + cell(mem);
    lemma_last_cell(d5, open_center, http, close);
}

/// A row ends with how the answers were judged, the two error rates, the time of the issue
/// and the links, each in a cell.
pub proof fn law_row_ends_with_the_links(entry: LeaderboardEntry, now: Moment)
    ensures
        row_end(entry, now) == ("<td title=\""@ + escaped(breakdown_text(entry)) + "\">"@
            + signed_decimal(entry.true_positives as int) + "/"@ + signed_decimal(
            entry.true_negatives as int,
        ) + "/"@ + signed_decimal(entry.false_positives as int) + "/"@ + signed_decimal(
            entry.false_negatives as int,
        ) + "</td>"@) + cell(optional_number_text(entry.weighted_errors)) + cell(
            optional_number_text(entry.error_rate_epsilon),
        ) + cell(escaped(issue_time_text(entry.created_at@, now))) + cell_of(
            "actions-cell"@,
            links_text(entry),
        ) + "</tr>"@,
{
    lemma_cell_literals();
    let (open, close) = ("<td>"@, "</td>"@);
    let judged = "<td title=\""@ + escaped(breakdown_text(entry)) + "\">"@ + signed_decimal(
        entry.true_positives as int,
    ) + "/"@ + signed_decimal(entry.true_negatives as int) + "/"@ + signed_decimal(
        entry.false_positives as int,
    ) + "/"@ + signed_decimal(entry.false_negatives as int);
    let weighted = optional_number_text(entry.weighted_errors);
    let rate = optional_number_text(entry.error_rate_epsilon);
    let time = escaped(issue_time_text(entry.created_at@, now));
    let links = links_text(entry);
    let open_actions = "<td class=\""@ + "actions-cell"@ + "\">"@;
    lemma_cell_after(judged, close, open, weighted);
    let d1 = judged + close;
    lemma_next_cell(d1, open, weighted, close, open, rate);
    let d2 = d1 + cell(weighted);
    lemma_next_cell(d2, open, rate, close, open, time);
    let d3 = d2 + cell(rate);
    lemma_next_cell(d3, open, time, close, open_actions, links);
    let d4 = d3 + cell(time);
    lemma_end_of_row(d4, open_actions, links, close, "</tr>"@);
}

proof fn lemma_cell_after(done: Seq<char>, close: Seq<char>, open: Seq<char>, z: Seq<char>)
    ensures
        done + (close + open) + z == (done + close) + (open + z),
{
    assert(done + (close + open) + z =~= (done + close) + (open + z));
}

proof fn lemma_end_of_row(
    done: Seq<char>,
    open: Seq<char>,
    y: Seq<char>,
    close: Seq<char>,
    end: Seq<char>,
)
    ensures
        (done + (open + y)) + (close + end) == done + (open + y + close) + end,
{
    assert((done + (open + y)) + (close + end) =~= done + (open + y + close) + end);
}

/// A row is its beginning, its middle and its end, and nothing else.
pub proof fn law_row_has_three_parts(entry: LeaderboardEntry, now: Moment)
    ensures
        begins_with(row_text(entry, now), row_start(entry)),
        ends_with(row_text(entry, now), row_end(entry, now)),
        stands_at(row_text(entry, now), row_middle(entry), row_start(entry).len() as int),
        row_text(entry, now).len() == row_start(entry).len() + row_middle(entry).len() + row_end(
            entry,
            now,
        ).len(),
{
    lemma_three_parts(row_start(entry), row_middle(entry), row_end(entry, now));
}

proof fn lemma_three_parts(a: Seq<char>, b: Seq<char>, c: Seq<char>)
    ensures
        begins_with(a + b + c, a),
        ends_with(a + b + c, c),
        stands_at(a + b + c, b, a.len() as int),
{
    let s = a + b + c;
    assert(s.take(a.len() as int) =~= a);
    assert(s.skip(s.len() - c.len()) =~= c);
    assert(s.subrange(a.len() as int, (a.len() + b.len()) as int) =~= b);
}

/// Somebody is marked as looking for work, in the row and with a badge, just where the
/// submission says so.
pub proof fn law_looking_for_work_is_marked(open_to_work: Option<bool>)
    ensures
        open_to_work == Some(true) ==> row_class(open_to_work) == "open-to-work-row"@ && badge_text(
            open_to_work,
        ) == "<span class=\"otw-badge\">#opentowork</span>"@,
        open_to_work != Some(true) ==> row_class(open_to_work).len() == 0 && badge_text(
            open_to_work,
        ).len() == 0,
{
    reveal_strlit("");
}

proof fn lemma_escaped_item(list: Seq<Seq<char>>, sep: Seq<char>, k: int)
    requires
        0 <= k < list.len(),
    ensures
        contains_text(escaped(joined(list, sep)), escaped(list[k])),
{
    let s = joined(list, sep);
    let at = offset_of(list, sep, k);
    law_every_item_is_joined(list, sep, k);
    let (a, b, c) = (s.take(at), list[k], s.skip(at + list[k].len()));
    assert(s =~= a + b + c) by {
        assert(s.subrange(at, at + b.len()) == b);
    }
    law_parts_are_escaped_alone(a + b, c);
    law_parts_are_escaped_alone(a, b);
    law_containing_is_standing_in(s, escaped(a), escaped(b), escaped(c));
}

/// All participants are named, escaped, and where none is known nothing stands in their place.
pub proof fn law_participants_are_named(names: Seq<Seq<char>>, k: int)
    ensures
        names.len() == 0 ==> names_text(names).len() == 0,
        names.len() > 0 ==> names_text(names) == "<span class=\"muted\">"@ + escaped(
            joined(names, ", "@),
        ) + "</span>"@,
        0 <= k < names.len() ==> contains_text(names_text(names), escaped(names[k])),
{
    reveal_strlit("");
    if 0 <= k < names.len() {
        lemma_escaped_item(names, ", "@, k);
        let list = escaped(joined(names, ", "@));
        let at = choose|at: int| stands_at(list, escaped(names[k]), at);
        lemma_shifted(
            "<span class=\"muted\">"@,
            list,
            "</span>"@,
            escaped(names[k]),
            at,
        );
    }
}

/// The stack is shown in its whole length as a title, and cut after thirty characters as the
/// text; without a stack a dash is shown.
pub proof fn law_stack_is_shown(stack: Seq<Seq<char>>, k: int)
    ensures
        stack.len() == 0 ==> stack_text(stack) == "-"@,
        stack.len() > 0 && joined(stack, ", "@).len() <= 30 ==> stack_text(stack)
            == "<span title=\""@ + escaped(joined(stack, ", "@)) + "\">"@ + escaped(
            joined(stack, ", "@),
        ) + "</span>"@,
        stack.len() > 0 && joined(stack, ", "@).len() > 30 ==> stack_text(stack)
            == "<span title=\""@ + escaped(joined(stack, ", "@)) + "\">"@ + escaped(
            joined(stack, ", "@).take(30) + "..."@,
        ) + "</span>"@,
        0 <= k < stack.len() ==> contains_text(stack_text(stack), escaped(stack[k])),
{
    let full = joined(stack, ", "@);
    assert(truncated(full, 30) == if full.len() <= 30 {
        full
    } else {
        full.take(30) + "..."@
    });
    if 0 <= k < stack.len() {
        lemma_escaped_item(stack, ", "@, k);
        let list = escaped(full);
        let at = choose|at: int| stands_at(list, escaped(stack[k]), at);
        let cut = escaped(truncated(full, 30));
        lemma_three_after("<span title=\""@ + list, "\">"@, cut, "</span>"@);
        lemma_shifted(
            "<span title=\""@,
            list,
            "\">"@ + cut + "</span>"@,
            escaped(stack[k]),
            at,
        );
    }
}

/// The failure rate is shown as it was reported, escaped, or as a dash.
pub proof fn law_failure_rate_is_shown(rate: Option<String>)
    ensures
        rate matches Some(rate) ==> failure_rate_text(Some(rate)) == escaped(rate@),
        rate is None ==> failure_rate_text(rate) == "-"@,
{
    reveal_strlit("-");
    law_plain_text_stays("-"@);
}

/// The title of the breakdown tells all four counts, each under its name.
pub proof fn law_breakdown_is_told(entry: LeaderboardEntry)
    ensures
        breakdown_text(entry) == "true positives: "@ + signed_decimal(entry.true_positives as int)
            + ", true negatives: "@ + signed_decimal(entry.true_negatives as int)
            + ", false positives: "@ + signed_decimal(entry.false_positives as int)
            + ", false negatives: "@ + signed_decimal(entry.false_negatives as int),
{
}

/// The link that an icon stands for.
pub open spec fn links_to(html: Seq<char>, url: Option<String>, title: Seq<char>) -> bool {
    url matches Some(url) ==> contains_text(
        html,
        "<a class=\"icon-link\" href=\""@ + escaped(url@)
            + "\" target=\"_blank\" rel=\"noreferrer\" title=\""@ + title,
    )
}

proof fn lemma_icon_stands(html: Seq<char>, icons: Seq<Seq<char>>, k: int, part: Seq<char>)
    requires
        0 <= k < icons.len(),
        begins_with(icons[k], part),
        html == "<div class=\"icon-links\">"@ + joined(icons, ""@) + "</div>"@,
    ensures
        contains_text(html, part),
{
    law_every_item_is_joined(icons, ""@, k);
    let body = joined(icons, ""@);
    let at = offset_of(icons, ""@, k);
    let item = icons[k];
    assert(body.subrange(at, at + part.len()) =~= part) by {
        assert(body.subrange(at, at + item.len()) == item);
        assert(item.take(part.len() as int) == part);
        assert forall|i: int| 0 <= i < part.len() implies #[trigger] body[at + i] == part[i] by {
            assert(body.subrange(at, at + item.len())[i] == item[i]);
            assert(item.take(part.len() as int)[i] == item[i]);
        }
    }
    assert(stands_at(body, part, at));
    lemma_shifted("<div class=\"icon-links\">"@, body, "</div>"@, part, at);
}

proof fn lemma_icon_begins(url: Seq<char>, title: Seq<char>, icon: Seq<char>)
    ensures
        begins_with(
            icon_text(url, title, icon),
            "<a class=\"icon-link\" href=\""@ + escaped(url)
                + "\" target=\"_blank\" rel=\"noreferrer\" title=\""@ + title,
        ),
{
    let head = "<a class=\"icon-link\" href=\""@ + escaped(url)
        + "\" target=\"_blank\" rel=\"noreferrer\" title=\""@ + title;
    lemma_three_after(head, "\">"@, icon, "</a>"@);
    law_beginnings_and_ends(head, head, "\">"@ + icon + "</a>"@);
}

/// Every link of an entry is shown, with its address escaped and under its own title, and a
/// dash stands where an entry has none.
pub proof fn law_every_link_is_shown(entry: LeaderboardEntry)
    ensures
        links_to(links_text(entry), entry.github_profile_url, "GitHub profile"@),
        links_to(links_text(entry), entry.linkedin_profile_url, "LinkedIn profile"@),
        links_to(links_text(entry), entry.submission_repo_url, "Submission repository"@),
        entry.github_profile_url is None && entry.linkedin_profile_url is None
            && entry.submission_repo_url is None <==> links_text(entry)
            == "<span class=\"muted\">-</span>"@,
{
    let a = icons_of(entry.github_profile_url, "GitHub profile"@, "🐙"@);
    let b = icons_of(entry.linkedin_profile_url, "LinkedIn profile"@, "💼"@);
    let c = icons_of(entry.submission_repo_url, "Submission repository"@, "📦"@);
    let icons = a + b + c;
    let html = links_text(entry);
    if let Some(url) = entry.github_profile_url {
        lemma_icon_begins(url@, "GitHub profile"@, "🐙"@);
        assert(icons[0] == a[0]);
        lemma_icon_stands(
            html,
            icons,
            0,
            "<a class=\"icon-link\" href=\""@ + escaped(url@)
                + "\" target=\"_blank\" rel=\"noreferrer\" title=\""@ + "GitHub profile"@,
        );
    }
    if let Some(url) = entry.linkedin_profile_url {
        lemma_icon_begins(url@, "LinkedIn profile"@, "💼"@);
        assert(icons[a.len() as int] == b[0]);
        lemma_icon_stands(
            html,
            icons,
            a.len() as int,
            "<a class=\"icon-link\" href=\""@ + escaped(url@)
                + "\" target=\"_blank\" rel=\"noreferrer\" title=\""@ + "LinkedIn profile"@,
        );
    }
    if let Some(url) = entry.submission_repo_url {
        lemma_icon_begins(url@, "Submission repository"@, "📦"@);
        assert(icons[(a.len() + b.len()) as int] == c[0]);
        lemma_icon_stands(
            html,
            icons,
            (a.len() + b.len()) as int,
            "<a class=\"icon-link\" href=\""@ + escaped(url@)
                + "\" target=\"_blank\" rel=\"noreferrer\" title=\""@
                + "Submission repository"@,
        );
    }
    if icons.len() > 0 {
        reveal_strlit("<div class=\"icon-links\">");
        reveal_strlit("<span class=\"muted\">-</span>");
        assert(html[1] == 'd');
        assert("<span class=\"muted\">-</span>"@[1] == 's');
    } else {
        assert(a.len() == 0 && b.len() == 0 && c.len() == 0);
    }
}

/// The icon of an address, and nothing where there is none.
pub open spec fn icon_or_nothing(url: Option<String>, title: Seq<char>, icon: Seq<char>) -> Seq<
    char,
> {
    match url {
        Some(url) => icon_text(url@, title, icon),
        None => Seq::empty(),
    }
}

proof fn lemma_joined_icons(a: Seq<Seq<char>>, b: Seq<Seq<char>>)
    ensures
        joined(a + b, ""@) == joined(a, ""@) + joined(b, ""@),
{
    reveal_strlit("");
    law_joined_lists(a, b, ""@);
    if a.len() == 0 {
        assert(a + b =~= b);
        assert(joined(a, ""@) =~= Seq::<char>::empty());
        assert(joined(a, ""@) + joined(b, ""@) =~= joined(b, ""@));
    } else if b.len() == 0 {
        assert(a + b =~= a);
        assert(joined(b, ""@) =~= Seq::<char>::empty());
        assert(joined(a, ""@) + joined(b, ""@) =~= joined(a, ""@));
    } else {
        let (x, y) = (joined(a, ""@), joined(b, ""@));
        assert(x + ""@ + y =~= x + y);
    }
}

proof fn lemma_joined_icon(url: Option<String>, title: Seq<char>, icon: Seq<char>)
    ensures
        joined(icons_of(url, title, icon), ""@) == icon_or_nothing(url, title, icon),
{
    if url is None {
        assert(joined(icons_of(url, title, icon), ""@) =~= Seq::<char>::empty());
    }
}

/// The links of an entry come one after the other, each at most once: to the GitHub profile,
/// to the LinkedIn profile, to the submission.
pub proof fn law_links_come_in_order(entry: LeaderboardEntry)
    ensures
        entry.github_profile_url is Some || entry.linkedin_profile_url is Some
            || entry.submission_repo_url is Some ==> links_text(entry)
            == "<div class=\"icon-links\">"@ + (icon_or_nothing(
            entry.github_profile_url,
            "GitHub profile"@,
            "🐙"@,
        ) + icon_or_nothing(entry.linkedin_profile_url, "LinkedIn profile"@, "💼"@)
            + icon_or_nothing(entry.submission_repo_url, "Submission repository"@, "📦"@))
            + "</div>"@,
{
    let a = icons_of(entry.github_profile_url, "GitHub profile"@, "🐙"@);
    let b = icons_of(entry.linkedin_profile_url, "LinkedIn profile"@, "💼"@);
    let c = icons_of(entry.submission_repo_url, "Submission repository"@, "📦"@);
    lemma_joined_icons(a + b, c);
    lemma_joined_icons(a, b);
    lemma_joined_icon(entry.github_profile_url, "GitHub profile"@, "🐙"@);
    lemma_joined_icon(entry.linkedin_profile_url, "LinkedIn profile"@, "💼"@);
    lemma_joined_icon(entry.submission_repo_url, "Submission repository"@, "📦"@);
    assert((a + b + c).len() == a.len() + b.len() + c.len());
}

/// An icon is a link under its title, and nothing else.
pub proof fn law_icon_is_a_link(url: Seq<char>, title: Seq<char>, icon: Seq<char>)
    ensures
        begins_with(
            icon_text(url, title, icon),
            "<a class=\"icon-link\" href=\""@ + escaped(url)
                + "\" target=\"_blank\" rel=\"noreferrer\" title=\""@ + title,
        ),
        ends_with(icon_text(url, title, icon), "\">"@ + icon + "</a>"@),
        icon_text(url, title, icon).len() == ("<a class=\"icon-link\" href=\""@ + escaped(url)
            + "\" target=\"_blank\" rel=\"noreferrer\" title=\""@ + title).len() + ("\">"@ + icon
            + "</a>"@).len(),
{
    let head = "<a class=\"icon-link\" href=\""@ + escaped(url)
        + "\" target=\"_blank\" rel=\"noreferrer\" title=\""@ + title;
    let end = "\">"@ + icon + "</a>"@;
    lemma_three_after(head, "\">"@, icon, "</a>"@);
    law_beginnings_and_ends(head, head, end);
    law_beginnings_and_ends(head, end, head);
}

/// The cards are labelled: the number of participants, the top score, the interval of five
/// minutes, and the time of the last refresh.
pub proof fn law_cards_are_labelled()
    ensures
        ends_with(PAGE_TO_COUNT@, "Participants</span><span class=\"value\">"@),
        ends_with(PAGE_TO_SCORE@, "Top score</span><span class=\"value\">"@),
        contains_text(
            PAGE_TO_TIME@,
            "Refresh interval</span><span class=\"value\">5 min</span>"@,
        ),
        ends_with(PAGE_TO_TIME@, "Updated</span><span class=\"value\">"@),
{
    reveal_strlit("\" target=\"_blank\" rel=\"noreferrer\" title=\"Official challenge repository\">
            <span aria-hidden=\"true\">🏁</span>
            <span class=\"challenge-copy\">
              <span class=\"challenge-kicker\">Official repository</span>
              <span class=\"challenge-title\">View the Rinha de Backend 2026 challenge</span>
            </span>
          </a>
        </div>
      </div>
      <div class=\"cards\">
        <article class=\"card\"><span class=\"label\">Participants</span><span class=\"value\">");
    reveal_strlit("</span></article>
        <article class=\"card\"><span class=\"label\">Top score</span><span class=\"value\">");
    reveal_strlit("</span></article>
        <article class=\"card\"><span class=\"label\">Refresh interval</span><span class=\"value\">5 min</span></article>
        <article class=\"card\"><span class=\"label\">Updated</span><span class=\"value\">");
    reveal_strlit("Participants</span><span class=\"value\">");
    reveal_strlit("Top score</span><span class=\"value\">");
    reveal_strlit("Refresh interval</span><span class=\"value\">5 min</span>");
    reveal_strlit("Updated</span><span class=\"value\">");
    assert(PAGE_TO_COUNT@.skip(465) =~= "Participants</span><span class=\"value\">"@);
    assert(PAGE_TO_SCORE@.skip(68) =~= "Top score</span><span class=\"value\">"@);
    assert(PAGE_TO_TIME@.skip(184) =~= "Updated</span><span class=\"value\">"@);
    assert(PAGE_TO_TIME@.subrange(68, 123) =~= "Refresh interval</span><span class=\"value\">5 min</span>"@);
    assert(stands_at(PAGE_TO_TIME@, "Refresh interval</span><span class=\"value\">5 min</span>"@, 68));
}

/// The head of the table names the columns in the order of the cells of a row.
pub proof fn law_columns_are_headed() -> (places: Seq<int>)
    ensures
        places.len() == 14,
        forall|i: int, j: int| 0 <= i < j < places.len() ==> places[i] < places[j],
        stands_at(TABLE_HEAD@, "<th>Rank</th>"@, places[0]),
        stands_at(TABLE_HEAD@, "<th>User</th>"@, places[1]),
        stands_at(TABLE_HEAD@, "<th>Stack</th>"@, places[2]),
        stands_at(TABLE_HEAD@, "<th>Final score</th>"@, places[3]),
        stands_at(TABLE_HEAD@, "<th>Failure rate</th>"@, places[4]),
        stands_at(TABLE_HEAD@, "<th>P99</th>"@, places[5]),
        stands_at(TABLE_HEAD@, "<th>CPU</th>"@, places[6]),
        stands_at(TABLE_HEAD@, "<th>Mem (MB)</th>"@, places[7]),
        stands_at(TABLE_HEAD@, "<th>HTTP errors</th>"@, places[8]),
        stands_at(TABLE_HEAD@, "<th>Breakdown</th>"@, places[9]),
        stands_at(TABLE_HEAD@, "<th>Weighted errors</th>"@, places[10]),
        stands_at(TABLE_HEAD@, "<th>Error rate <span class=\"no-transform\">ε</span></th>"@, places[11]),
        stands_at(TABLE_HEAD@, "<th>Issue time</th>"@, places[12]),
        stands_at(TABLE_HEAD@, "<th>Links</th>"@, places[13]),
{
    reveal_strlit("<table>
                    <thead>
                        <tr>
                            <th>Rank</th>
                            <th>User</th>
                            <th>Stack</th>
                            <th>Final score</th>
                            <th>Failure rate</th>
                            <th>P99</th>
                            <th>CPU</th>
                            <th>Mem (MB)</th>
                            <th>HTTP errors</th>
                            <th>Breakdown</th>
                            <th>Weighted errors</th>
                            <th>Error rate <span class=\"no-transform\">ε</span></th>
                            <th>Issue time</th>
                            <th>Links</th>
                        </tr>
                    </thead>
                    <tbody>");
    reveal_strlit("<th>Rank</th>");
    assert(TABLE_HEAD@.subrange(93, 106) =~= "<th>Rank</th>"@);
    reveal_strlit("<th>User</th>");
    assert(TABLE_HEAD@.subrange(135, 148) =~= "<th>User</th>"@);
    reveal_strlit("<th>Stack</th>");
    assert(TABLE_HEAD@.subrange(177, 191) =~= "<th>Stack</th>"@);
    reveal_strlit("<th>Final score</th>");
    assert(TABLE_HEAD@.subrange(220, 240) =~= "<th>Final score</th>"@);
    reveal_strlit("<th>Failure rate</th>");
    assert(TABLE_HEAD@.subrange(269, 290) =~= "<th>Failure rate</th>"@);
    reveal_strlit("<th>P99</th>");
    assert(TABLE_HEAD@.subrange(319, 331) =~= "<th>P99</th>"@);
    reveal_strlit("<th>CPU</th>");
    assert(TABLE_HEAD@.subrange(360, 372) =~= "<th>CPU</th>"@);
    reveal_strlit("<th>Mem (MB)</th>");
    assert(TABLE_HEAD@.subrange(401, 418) =~= "<th>Mem (MB)</th>"@);
    reveal_strlit("<th>HTTP errors</th>");
    assert(TABLE_HEAD@.subrange(447, 467) =~= "<th>HTTP errors</th>"@);
    reveal_strlit("<th>Breakdown</th>");
    assert(TABLE_HEAD@.subrange(496, 514) =~= "<th>Breakdown</th>"@);
    reveal_strlit("<th>Weighted errors</th>");
    assert(TABLE_HEAD@.subrange(543, 567) =~= "<th>Weighted errors</th>"@);
    reveal_strlit("<th>Error rate <span class=\"no-transform\">ε</span></th>");
    assert(TABLE_HEAD@.subrange(596, 651) =~= "<th>Error rate <span class=\"no-transform\">ε</span></th>"@);
    reveal_strlit("<th>Issue time</th>");
    assert(TABLE_HEAD@.subrange(680, 699) =~= "<th>Issue time</th>"@);
    reveal_strlit("<th>Links</th>");
    assert(TABLE_HEAD@.subrange(728, 742) =~= "<th>Links</th>"@);
    seq![93int, 135int, 177int, 220int, 269int, 319int, 360int, 401int, 447int, 496int, 543int, 596int, 680int, 728int]
}

} // verus!
