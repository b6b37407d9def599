use rinha_leaderboard::clock::Timestamp;
use rinha_leaderboard::double::Double;
use rinha_leaderboard::model::{AppError, LeaderboardEntry};
use rinha_leaderboard::render::{render_html, render_inline_links, render_row};
use rinha_leaderboard::state::{LeaderboardState, REFRESH_INTERVAL};

fn double(value: f64) -> Option<Double> {
    Some(Double { bits: value.to_bits() })
}

fn now() -> Timestamp {
    Timestamp::new(1_776_854_549, 0).unwrap()
}

fn entry() -> LeaderboardEntry {
    LeaderboardEntry {
        rank: 1,
        username: "a<b>".to_string(),
        issue_number: 41,
        issue_url: "https://github.com/x/y/issues/41?a&b".to_string(),
        issue_title: "title".to_string(),
        created_at: "2026-04-22T10:12:29Z".to_string(),
        participant_names: vec!["Ana".to_string(), "O'Neil".to_string()],
        participant_submission_id: Some("id".to_string()),
        submission_stack: vec!["rust".to_string(), "postgres".to_string(), "a \"very\" long name".to_string()],
        github_profile_url: Some("https://github.com/a".to_string()),
        linkedin_profile_url: None,
        submission_repo_url: Some("https://github.com/a/\"b\"".to_string()),
        open_to_work: Some(true),
        final_score: 9001,
        expected_total: 0,
        expected_legit_count: 0,
        expected_fraud_count: 0,
        expected_edge_case_count: 0,
        failure_rate: Some("<1%".to_string()),
        weighted_errors: double(12.0),
        error_rate_epsilon: double(0.125),
        p99_ms: double(2.345),
        true_positives: 1,
        true_negatives: 2,
        false_positives: 3,
        false_negatives: -4,
        http_errors: 5,
        cpu: double(1.5),
        memory_mb: double(350.0),
        commit: None,
    }
}

fn bare(username: &str) -> LeaderboardEntry {
    LeaderboardEntry {
        rank: 2,
        username: username.to_string(),
        issue_url: String::new(),
        created_at: "soon".to_string(),
        participant_names: Vec::new(),
        submission_stack: Vec::new(),
        github_profile_url: None,
        submission_repo_url: None,
        open_to_work: Some(false),
        final_score: -3,
        failure_rate: None,
        weighted_errors: None,
        error_rate_epsilon: None,
        p99_ms: None,
        cpu: None,
        memory_mb: None,
        ..entry()
    }
}

#[test]
fn row_shows_an_entry() {
    assert_eq!(
        render_row(&entry(), now()),
        "<tr class=\"open-to-work-row\">\
            <td class=\"rank\">#1</td>\
            <td><a class=\"user-link\" href=\"https://github.com/x/y/issues/41?a&amp;b\" target=\"_blank\" rel=\"noreferrer\">a&lt;b&gt;</a><span class=\"muted\">Ana, O&#39;Neil</span><span class=\"otw-badge\">#opentowork</span><span class=\"muted\">issue #41</span></td>\
            <td><span title=\"rust, postgres, a &quot;very&quot; long name\">rust, postgres, a &quot;very&quot; long ...</span></td>\
            <td>9001</td>\
            <td>&lt;1%</td>\
            <td>2.35ms</td>\
            <td>1.50</td>\
            <td>350</td>\
            <td class=\"center-cell\">5</td>\
            <td title=\"true positives: 1, true negatives: 2, false positives: 3, false negatives: -4\">1/2/3/-4</td>\
            <td>12</td>\
            <td>0.12</td>\
            <td>30m ago</td>\
            <td class=\"actions-cell\"><div class=\"icon-links\"><a class=\"icon-link\" href=\"https://github.com/a\" target=\"_blank\" rel=\"noreferrer\" title=\"GitHub profile\">🐙</a><a class=\"icon-link\" href=\"https://github.com/a/&quot;b&quot;\" target=\"_blank\" rel=\"noreferrer\" title=\"Submission repository\">📦</a></div></td>\
        </tr>"
    );
}

#[test]
fn row_shows_dashes_for_what_is_missing() {
    assert_eq!(
        render_row(&bare("b"), now()),
        "<tr class=\"\">\
            <td class=\"rank\">#2</td>\
            <td><a class=\"user-link\" href=\"\" target=\"_blank\" rel=\"noreferrer\">b</a><span class=\"muted\">issue #41</span></td>\
            <td>-</td>\
            <td>-3</td>\
            <td>-</td>\
            <td>-</td>\
            <td>-</td>\
            <td>-</td>\
            <td class=\"center-cell\">5</td>\
            <td title=\"true positives: 1, true negatives: 2, false positives: 3, false negatives: -4\">1/2/3/-4</td>\
            <td>-</td>\
            <td>-</td>\
            <td>soon</td>\
            <td class=\"actions-cell\"><span class=\"muted\">-</span></td>\
        </tr>"
    );
}

#[test]
fn all_links_are_shown() {
    let mut all = entry();
    all.linkedin_profile_url = Some("https://linkedin.com/in/a".to_string());
    let html = render_inline_links(&all);
    let places: Vec<usize> = ["🐙", "💼", "📦"]
        .iter()
        .map(|icon| html.find(icon).unwrap())
        .collect();
    assert!(places[0] < places[1] && places[1] < places[2]);
    assert!(html.contains("title=\"LinkedIn profile\">💼</a><a class=\"icon-link\""));
}

fn state(leaderboard: Vec<LeaderboardEntry>) -> LeaderboardState {
    LeaderboardState {
        leaderboard,
        last_refreshed_at: Timestamp::new(1_776_854_549 - 120, 0),
        last_error: None,
    }
}

#[test]
fn page_of_an_empty_leaderboard() {
    let html = render_html(&LeaderboardState::default(), now());
    assert!(html.starts_with("<!DOCTYPE html>\n<html lang=\"en\">\n<head>\n  <meta charset=\"utf-8\" />\n"));
    assert!(html.ends_with("</p>\n  </main>\n</body>\n</html>"));
    assert!(html.contains("    :root { color-scheme: dark; }\n    * { box-sizing: border-box; }\n"));
    assert!(html.contains("<span class=\"label\">Participants</span><span class=\"value\">0</span>"));
    assert!(html.contains("<span class=\"label\">Top score</span><span class=\"value\">0</span>"));
    assert!(html.contains("<span class=\"label\">Updated</span><span class=\"value\">warming up</span>"));
    assert!(html.contains("<div class=\"empty\">No leaderboard snapshot yet."));
    assert!(html.contains(
        "href=\"https://github.com/zanfranceschi/rinha-de-backend-2026\" target=\"_blank\""
    ));
    assert!(html.contains("<code>/api/leaderboard</code>. Background refresh runs every 5 minutes.</p>"));
    assert!(!html.contains("{{") && !html.contains("}}"));
    assert!(!html.contains("<table>"));
    assert_eq!(html.matches('{').count(), html.matches('}').count());
}

#[test]
fn page_of_a_leaderboard() {
    let mut snapshot = state(vec![entry(), bare("b")]);
    snapshot.last_error = Some("GitHub returned 500 <oops>".to_string());
    let html = render_html(&snapshot, now());
    assert!(html.contains("<span class=\"value\">2</span>"));
    assert!(html.contains("<span class=\"label\">Top score</span><span class=\"value\">9001</span>"));
    assert!(html.contains("<span class=\"value\">2m ago</span>"));
    assert!(html.contains("Last refresh failed: GitHub returned 500 &lt;oops&gt;</p>"));
    let rows = format!("{}{}", render_row(&entry(), now()), render_row(&bare("b"), now()));
    assert!(html.contains(&format!("<tbody>{rows}</tbody>\n                </table>\n    </section>")));
    assert!(html.contains("<th>Error rate <span class=\"no-transform\">ε</span></th>"));
    assert!(!html.contains("No leaderboard snapshot yet"));
}

#[test]
fn successful_refresh_replaces_the_leaderboard() {
    let mut snapshot = LeaderboardState::default();
    snapshot.refresh_failed(&AppError::Upstream("down".to_string()));
    let report = snapshot.refresh_succeeded(vec![bare("b")], now(), now());
    assert_eq!(snapshot.leaderboard.len(), 1);
    assert!(snapshot.last_refreshed_at.is_some());
    assert_eq!(snapshot.last_error, None);
    assert_eq!(
        report.updates,
        "leaderboard refresh: new user b -> issue #41, score -3, p99 -"
    );
    assert_eq!(
        report.success,
        "leaderboard refresh succeeded: 1 entries at 2026-04-22 10:42:29 UTC"
    );
}

#[test]
fn failed_refresh_keeps_the_leaderboard() {
    let mut snapshot = state(vec![entry()]);
    let line = snapshot.refresh_failed(&AppError::internal("cache read task failed", "x"));
    assert_eq!(line, "leaderboard refresh failed: cache read task failed: x");
    assert_eq!(snapshot.leaderboard.len(), 1);
    assert!(snapshot.last_refreshed_at.is_some());
    assert_eq!(snapshot.last_error.as_deref(), Some("cache read task failed: x"));
    assert!(render_html(&snapshot, now()).contains("Last refresh failed: cache read task failed: x"));
}

#[test]
fn refreshes_are_five_minutes_apart() {
    assert_eq!(REFRESH_INTERVAL, 300);
}
