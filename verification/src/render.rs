//! The page that shows the leaderboard.

use crate::clock::{
    format_relative_timestamp, format_timestamp, issue_time_text, relative_text, Moment, Timestamp,
};
use crate::figures::{
    format_optional_number, format_p99, optional_number_text, p99_text,
};
use crate::markup::{escape_html, escaped, truncate_with_ellipsis, truncated};
use crate::model::LeaderboardEntry;
use crate::state::LeaderboardState;
use crate::template::{
    EMPTY_TABLE, PAGE_END, PAGE_HEAD, PAGE_TO_COUNT, PAGE_TO_SCORE, PAGE_TO_STATUS, PAGE_TO_TABLE,
    PAGE_TO_TIME, TABLE_END, TABLE_HEAD,
};
use crate::text::{
    decimal, decimal_of, join, joined, signed_decimal, signed_decimal_of, texts,
};
use crate::urls::CHALLENGE_URL;
use vstd::prelude::*;

verus! {

/// How many characters of a stack are shown.
pub const STACK_WIDTH: usize = 30;

/// A link that is shown as an icon.
pub open spec fn icon_text(url: Seq<char>, title: Seq<char>, icon: Seq<char>) -> Seq<char> {
    "<a class=\"icon-link\" href=\""@ + escaped(url)
        + "\" target=\"_blank\" rel=\"noreferrer\" title=\""@ + title + "\">"@ + icon + "</a>"@
}

/// The icon of an address, where there is one.
pub open spec fn icons_of(url: Option<String>, title: Seq<char>, icon: Seq<char>) -> Seq<
    Seq<char>,
> {
    match url {
        Some(url) => seq![icon_text(url@, title, icon)],
        None => Seq::empty(),
    }
}

/// The links of an entry: to the profiles and to the submission.
pub open spec fn links_text(entry: LeaderboardEntry) -> Seq<char> {
    let icons = icons_of(entry.github_profile_url, "GitHub profile"@, "🐙"@) + icons_of(
        entry.linkedin_profile_url,
        "LinkedIn profile"@,
        "💼"@,
    ) + icons_of(entry.submission_repo_url, "Submission repository"@, "📦"@);
    if icons.len() == 0 {
        "<span class=\"muted\">-</span>"@
    } else {
        "<div class=\"icon-links\">"@ + joined(icons, ""@) + "</div>"@
    }
}

/// The names of the participants.
pub open spec fn names_text(names: Seq<Seq<char>>) -> Seq<char> {
    if names.len() == 0 {
        ""@
    } else {
        "<span class=\"muted\">"@ + escaped(joined(names, ", "@)) + "</span>"@
    }
}

/// The badge of somebody who looks for work.
pub open spec fn badge_text(open_to_work: Option<bool>) -> Seq<char> {
    if open_to_work == Some(true) {
        "<span class=\"otw-badge\">#opentowork</span>"@
    } else {
        ""@
    }
}

/// How the row of somebody who looks for work is marked.
pub open spec fn row_class(open_to_work: Option<bool>) -> Seq<char> {
    if open_to_work == Some(true) {
        "open-to-work-row"@
    } else {
        ""@
    }
}

/// The stack of a submission, cut to a width; the whole of it is the title.
pub open spec fn stack_text(stack: Seq<Seq<char>>) -> Seq<char> {
    if stack.len() == 0 {
        "-"@
    } else {
        "<span title=\""@ + escaped(joined(stack, ", "@)) + "\">"@ + escaped(
            truncated(joined(stack, ", "@), STACK_WIDTH as nat),
        ) + "</span>"@
    }
}

/// The failure rate as it was reported, or a dash.
pub open spec fn failure_rate_text(rate: Option<String>) -> Seq<char> {
    match rate {
        Some(rate) => escaped(rate@),
        None => escaped("-"@),
    }
}

/// How the answers were judged, in words.
pub open spec fn breakdown_text(entry: LeaderboardEntry) -> Seq<char> {
    "true positives: "@ + signed_decimal(entry.true_positives as int) + ", true negatives: "@
        + signed_decimal(entry.true_negatives as int) + ", false positives: "@ + signed_decimal(
        entry.false_positives as int,
    ) + ", false negatives: "@ + signed_decimal(entry.false_negatives as int)
}

/// The cells that say who an entry is about.
pub open spec fn row_start(entry: LeaderboardEntry) -> Seq<char> {
    "<tr class=\""@ + row_class(entry.open_to_work) + "\"><td class=\"rank\">#"@ + decimal(
        entry.rank as nat,
    ) + "</td><td><a class=\"user-link\" href=\""@ + escaped(entry.issue_url@)
        + "\" target=\"_blank\" rel=\"noreferrer\">"@ + escaped(entry.username@) + "</a>"@
        + names_text(texts(entry.participant_names@)) + badge_text(entry.open_to_work)
        + "<span class=\"muted\">issue #"@ + decimal(entry.issue_number as nat)
        + "</span></td><td>"@ + stack_text(texts(entry.submission_stack@)) + "</td>"@
}

/// The cells with the score and what was measured.
pub open spec fn row_middle(entry: LeaderboardEntry) -> Seq<char> {
    "<td>"@ + signed_decimal(entry.final_score as int) + "</td><td>"@ + failure_rate_text(
        entry.failure_rate,
    ) + "</td><td>"@ + p99_text(entry.p99_ms) + "</td><td>"@ + optional_number_text(entry.cpu)
        + "</td><td>"@ + optional_number_text(entry.memory_mb)
        + "</td><td class=\"center-cell\">"@ + signed_decimal(entry.http_errors as int) + "</td>"@
}

/// The cells with the breakdown, the time and the links.
pub open spec fn row_end(entry: LeaderboardEntry, now: Moment) -> Seq<char> {
    "<td title=\""@ + escaped(breakdown_text(entry)) + "\">"@ + signed_decimal(
        entry.true_positives as int,
    ) + "/"@ + signed_decimal(entry.true_negatives as int) + "/"@ + signed_decimal(
        entry.false_positives as int,
    ) + "/"@ + signed_decimal(entry.false_negatives as int) + "</td><td>"@ + optional_number_text(
        entry.weighted_errors,
    ) + "</td><td>"@ + optional_number_text(entry.error_rate_epsilon) + "</td><td>"@ + escaped(
        issue_time_text(entry.created_at@, now),
    ) + "</td><td class=\"actions-cell\">"@ + links_text(entry) + "</td></tr>"@
}

/// The row of an entry.
pub open spec fn row_text(entry: LeaderboardEntry, now: Moment) -> Seq<char> {
    row_start(entry) + row_middle(entry) + row_end(entry, now)
}

/// The rows of all entries, in their order.
pub open spec fn rows_of(entries: Seq<LeaderboardEntry>, now: Moment) -> Seq<Seq<char>> {
    Seq::new(entries.len(), |i: int| row_text(entries[i], now))
}

/// The table, or what stands in its place where there are no entries.
pub open spec fn table_text(entries: Seq<LeaderboardEntry>, now: Moment) -> Seq<char> {
    if entries.len() == 0 {
        EMPTY_TABLE@
    } else {
        TABLE_HEAD@ + joined(rows_of(entries, now), ""@) + TABLE_END@
    }
}

/// When the leaderboard was refreshed last.
pub open spec fn refreshed_text(state: LeaderboardState, now: Moment) -> Seq<char> {
    match state.last_refreshed_at {
        Some(time) => relative_text(time@, now),
        None => "warming up"@,
    }
}

/// What is said of the refreshes.
pub open spec fn status_text(last_error: Option<String>) -> Seq<char> {
    match last_error {
        Some(error) => "Last refresh failed: "@ + error@,
        None => "Background refresh runs every 5 minutes."@,
    }
}

/// The score of the first entry; zero where there is none.
pub open spec fn top_score(entries: Seq<LeaderboardEntry>) -> int {
    if entries.len() == 0 {
        0
    } else {
        entries[0].final_score as int
    }
}

/// The page.
pub open spec fn page_text(state: LeaderboardState, now: Moment) -> Seq<char> {
    PAGE_HEAD@ + CHALLENGE_URL@ + PAGE_TO_COUNT@ + decimal(state.leaderboard@.len())
        + PAGE_TO_SCORE@ + signed_decimal(top_score(state.leaderboard@)) + PAGE_TO_TIME@
        + refreshed_text(state, now) + PAGE_TO_TABLE@ + table_text(state.leaderboard@, now)
        + PAGE_TO_STATUS@ + escaped(status_text(state.last_error)) + PAGE_END@
}

/// Adds the icon of an address, where there is one.
fn push_icon(icons: &mut Vec<String>, url: &Option<String>, title: &str, icon: &str)
    ensures
        texts(final(icons)@) == texts(old(icons)@) + icons_of(*url, title@, icon@),
{
    let ghost before = texts(icons@);
    match url {
        Some(url) => {
            let mut link = "<a class=\"icon-link\" href=\"".to_owned();
            link.append(&escape_html(url));
            link.append("\" target=\"_blank\" rel=\"noreferrer\" title=\"");
            link.append(title);
            link.append("\">");
            link.append(icon);
            link.append("</a>");
            icons.push(link);
            assert(texts(icons@) =~= before + seq![icon_text(url@, title@, icon@)]);
        },
        None => {
            assert(before =~= before + Seq::<Seq<char>>::empty());
        },
    }
}

/// The links of an entry.
pub fn render_inline_links(entry: &LeaderboardEntry) -> (html: String)
    ensures
        html@ == links_text(*entry),
{
    let mut icons: Vec<String> = Vec::new();
    push_icon(&mut icons, &entry.github_profile_url, "GitHub profile", "🐙");
    push_icon(&mut icons, &entry.linkedin_profile_url, "LinkedIn profile", "💼");
    push_icon(&mut icons, &entry.submission_repo_url, "Submission repository", "📦");
    assert(texts(icons@) =~= icons_of(entry.github_profile_url, "GitHub profile"@, "🐙"@)
        + icons_of(entry.linkedin_profile_url, "LinkedIn profile"@, "💼"@) + icons_of(
        entry.submission_repo_url,
        "Submission repository"@,
        "📦"@,
    ));
    if icons.len() == 0 {
        "<span class=\"muted\">-</span>".to_owned()
    } else {
        let mut html = "<div class=\"icon-links\">".to_owned();
        html.append(&join(&icons, ""));
        html.append("</div>");
        html
    }
}

fn render_names(names: &Vec<String>) -> (html: String)
    ensures
        html@ == names_text(texts(names@)),
{
    if names.len() == 0 {
        "".to_owned()
    } else {
        let mut html = "<span class=\"muted\">".to_owned();
        html.append(&escape_html(&join(names, ", ")));
        html.append("</span>");
        html
    }
}

fn render_stack(stack: &Vec<String>) -> (html: String)
    ensures
        html@ == stack_text(texts(stack@)),
{
    if stack.len() == 0 {
        "-".to_owned()
    } else {
        let full = join(stack, ", ");
        let mut html = "<span title=\"".to_owned();
        html.append(&escape_html(&full));
        html.append("\">");
        html.append(&escape_html(&truncate_with_ellipsis(&full, STACK_WIDTH)));
        html.append("</span>");
        html
    }
}

fn looks_for_work(open_to_work: Option<bool>) -> (open: bool)
    ensures
        open == (open_to_work == Some(true)),
{
    match open_to_work {
        Some(open) => open,
        None => false,
    }
}

fn render_failure_rate(rate: &Option<String>) -> (html: String)
    ensures
        html@ == failure_rate_text(*rate),
{
    match rate {
        Some(rate) => escape_html(rate),
        None => escape_html("-"),
    }
}

fn render_breakdown(entry: &LeaderboardEntry) -> (text: String)
    ensures
        text@ == breakdown_text(*entry),
{
    let mut text = "true positives: ".to_owned();
    text.append(&signed_decimal_of(entry.true_positives));
    text.append(", true negatives: ");
    text.append(&signed_decimal_of(entry.true_negatives));
    text.append(", false positives: ");
    text.append(&signed_decimal_of(entry.false_positives));
    text.append(", false negatives: ");
    text.append(&signed_decimal_of(entry.false_negatives));
    text
}

fn render_row_start(entry: &LeaderboardEntry) -> (html: String)
    ensures
        html@ == row_start(*entry),
{
    let open: bool = looks_for_work(entry.open_to_work);
    let mut html = "<tr class=\"".to_owned();
    html.append(
        if open {
            "open-to-work-row"
        } else {
            ""
        },
    );
    html.append("\"><td class=\"rank\">#");
    html.append(&decimal_of(entry.rank as u64));
    html.append("</td><td><a class=\"user-link\" href=\"");
    html.append(&escape_html(&entry.issue_url));
    html.append("\" target=\"_blank\" rel=\"noreferrer\">");
    html.append(&escape_html(&entry.username));
    html.append("</a>");
    html.append(&render_names(&entry.participant_names));
    html.append(
        if open {
            "<span class=\"otw-badge\">#opentowork</span>"
        } else {
            ""
        },
    );
    html.append("<span class=\"muted\">issue #");
    html.append(&decimal_of(entry.issue_number));
    html.append("</span></td><td>");
    html.append(&render_stack(&entry.submission_stack));
    html.append("</td>");
    html
}

fn render_row_middle(entry: &LeaderboardEntry) -> (html: String)
    ensures
        html@ == row_middle(*entry),
{
    let mut html = "<td>".to_owned();
    html.append(&signed_decimal_of(entry.final_score));
    html.append("</td><td>");
    html.append(&render_failure_rate(&entry.failure_rate));
    html.append("</td><td>");
    html.append(&format_p99(entry.p99_ms));
    html.append("</td><td>");
    html.append(&format_optional_number(entry.cpu));
    html.append("</td><td>");
    html.append(&format_optional_number(entry.memory_mb));
    html.append("</td><td class=\"center-cell\">");
    html.append(&signed_decimal_of(entry.http_errors));
    html.append("</td>");
    html
}

fn render_row_end(entry: &LeaderboardEntry, now: Timestamp) -> (html: String)
    ensures
        html@ == row_end(*entry, now@),
{
    let mut html = "<td title=\"".to_owned();
    html.append(&escape_html(&render_breakdown(entry)));
    html.append("\">");
    html.append(&signed_decimal_of(entry.true_positives));
    html.append("/");
    html.append(&signed_decimal_of(entry.true_negatives));
    html.append("/");
    html.append(&signed_decimal_of(entry.false_positives));
    html.append("/");
    html.append(&signed_decimal_of(entry.false_negatives));
    html.append("</td><td>");
    html.append(&format_optional_number(entry.weighted_errors));
    html.append("</td><td>");
    html.append(&format_optional_number(entry.error_rate_epsilon));
    html.append("</td><td>");
    html.append(&escape_html(&format_timestamp(&entry.created_at, now)));
    html.append("</td><td class=\"actions-cell\">");
    html.append(&render_inline_links(entry));
    html.append("</td></tr>");
    html
}

/// The row of an entry.
pub fn render_row(entry: &LeaderboardEntry, now: Timestamp) -> (html: String)
    ensures
        html@ == row_text(*entry, now@),
{
    let mut html = render_row_start(entry);
    html.append(&render_row_middle(entry));
    html.append(&render_row_end(entry, now));
    html
}

fn render_table(entries: &Vec<LeaderboardEntry>, now: Timestamp) -> (html: String)
    ensures
        html@ == table_text(entries@, now@),
{
    if entries.len() == 0 {
        return EMPTY_TABLE.to_owned();
    }
    let mut rows: Vec<String> = Vec::new();
    let mut i: usize = 0;
    while i < entries.len()
        invariant
            i <= entries@.len(),
            rows@.len() == i,
            forall|j: int| 0 <= j < i ==> (#[trigger] rows@[j])@ == row_text(entries@[j], now@),
        decreases entries@.len() - i,
    {
        rows.push(render_row(&entries[i], now));
        i += 1;
    }
    assert(texts(rows@) =~= rows_of(entries@, now@));
    let mut html = TABLE_HEAD.to_owned();
    html.append(&join(&rows, ""));
    html.append(TABLE_END);
    html
}

fn render_refreshed(state: &LeaderboardState, now: Timestamp) -> (text: String)
    ensures
        text@ == refreshed_text(*state, now@),
{
    match state.last_refreshed_at {
        Some(time) => format_relative_timestamp(time, now),
        None => "warming up".to_owned(),
    }
}

fn render_status(last_error: &Option<String>) -> (text: String)
    ensures
        text@ == status_text(*last_error),
{
    match last_error {
        Some(error) => {
            let mut text = "Last refresh failed: ".to_owned();
            text.append(error);
            text
        },
        None => "Background refresh runs every 5 minutes.".to_owned(),
    }
}

/// The page that shows the leaderboard.
pub fn render_html(snapshot: &LeaderboardState, now: Timestamp) -> (html: String)
    ensures
        html@ == page_text(*snapshot, now@),
{
    let entries = &snapshot.leaderboard;
    let score: i64 = if entries.len() == 0 {
        0
    } else {
        entries[0].final_score
    };
    let mut html = PAGE_HEAD.to_owned();
    html.append(CHALLENGE_URL);
    html.append(PAGE_TO_COUNT);
    html.append(&decimal_of(entries.len() as u64));
    html.append(PAGE_TO_SCORE);
    html.append(&signed_decimal_of(score));
    html.append(PAGE_TO_TIME);
    html.append(&render_refreshed(snapshot, now));
    html.append(PAGE_TO_TABLE);
    html.append(&render_table(entries, now));
    html.append(PAGE_TO_STATUS);
    html.append(&escape_html(&render_status(&snapshot.last_error)));
    html.append(PAGE_END);
    html
}

} // verus!
