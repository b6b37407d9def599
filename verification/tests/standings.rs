use rinha_leaderboard::changes::log_leaderboard_updates;
use rinha_leaderboard::double::Double;
use rinha_leaderboard::model::LeaderboardEntry;
use rinha_leaderboard::ranking::{
    best_entry_per_user, compare_entries, compare_optional_f64, rank_results, sort_entries,
};
use std::cmp::Ordering;

fn double(value: f64) -> Double {
    Double { bits: value.to_bits() }
}

fn entry(username: &str, issue_number: u64, final_score: i64, p99: Option<f64>) -> LeaderboardEntry {
    LeaderboardEntry {
        rank: 0,
        username: username.to_string(),
        issue_number,
        issue_url: String::new(),
        issue_title: String::new(),
        created_at: String::new(),
        participant_names: Vec::new(),
        participant_submission_id: None,
        submission_stack: Vec::new(),
        github_profile_url: None,
        linkedin_profile_url: None,
        submission_repo_url: None,
        open_to_work: None,
        final_score,
        expected_total: 0,
        expected_legit_count: 0,
        expected_fraud_count: 0,
        expected_edge_case_count: 0,
        failure_rate: None,
        weighted_errors: None,
        error_rate_epsilon: None,
        p99_ms: p99.map(double),
        true_positives: 0,
        true_negatives: 0,
        false_positives: 0,
        false_negatives: 0,
        http_errors: 0,
        cpu: None,
        memory_mb: None,
        commit: None,
    }
}

fn summary(entries: &[LeaderboardEntry]) -> Vec<(usize, String, u64)> {
    entries
        .iter()
        .map(|entry| (entry.rank, entry.username.clone(), entry.issue_number))
        .collect()
}

fn results() -> Vec<LeaderboardEntry> {
    vec![
        entry("ana", 1, 900, Some(3.0)),
        entry("bia", 2, 950, Some(9.0)),
        entry("ana", 3, 950, Some(2.0)),
        entry("caio", 4, 950, None),
        entry("bia", 5, 950, Some(9.0)),
        entry("davi", 6, -10, Some(0.5)),
        entry("ana", 7, 100, Some(0.1)),
    ]
}

#[test]
fn missing_p99_comes_last() {
    let some = |value: f64| Some(double(value));
    assert_eq!(compare_optional_f64(some(1.0), some(2.0)), Ordering::Less);
    assert_eq!(compare_optional_f64(some(2.0), some(1.0)), Ordering::Greater);
    assert_eq!(compare_optional_f64(some(0.0), some(-0.0)), Ordering::Equal);
    assert_eq!(compare_optional_f64(some(f64::NAN), some(1.0)), Ordering::Equal);
    assert_eq!(compare_optional_f64(some(1.0), None), Ordering::Less);
    assert_eq!(compare_optional_f64(None, some(1.0)), Ordering::Greater);
    assert_eq!(compare_optional_f64(None, None), Ordering::Equal);
}

#[test]
fn score_then_p99_then_issue_decide() {
    let base = entry("a", 5, 100, Some(2.0));
    assert_eq!(compare_entries(&base, &entry("b", 9, 99, Some(1.0))), Ordering::Less);
    assert_eq!(compare_entries(&base, &entry("b", 9, 101, None)), Ordering::Greater);
    assert_eq!(compare_entries(&base, &entry("b", 9, 100, Some(2.5))), Ordering::Less);
    assert_eq!(compare_entries(&base, &entry("b", 9, 100, None)), Ordering::Less);
    assert_eq!(compare_entries(&base, &entry("b", 9, 100, Some(2.0))), Ordering::Greater);
    assert_eq!(compare_entries(&base, &entry("b", 4, 100, Some(2.0))), Ordering::Less);
    assert_eq!(compare_entries(&base, &entry("b", 5, 100, Some(2.0))), Ordering::Equal);
}

#[test]
fn best_result_of_each_user_is_kept() {
    let best = best_entry_per_user(results());
    assert_eq!(
        summary(&best),
        vec![
            (0, "ana".to_string(), 3),
            (0, "bia".to_string(), 5),
            (0, "caio".to_string(), 4),
            (0, "davi".to_string(), 6),
        ]
    );
}

#[test]
fn leaderboard_is_ranked() {
    let board = rank_results(results());
    assert_eq!(
        summary(&board),
        vec![
            (1, "ana".to_string(), 3),
            (2, "bia".to_string(), 5),
            (3, "caio".to_string(), 4),
            (4, "davi".to_string(), 6),
        ]
    );
    assert!(rank_results(Vec::new()).is_empty());
}

#[test]
fn order_of_results_makes_no_difference() {
    let expected = summary(&rank_results(results()));
    let mut list = results();
    list.reverse();
    assert_eq!(summary(&rank_results(list)), expected);
    let mut list = results();
    list.rotate_left(3);
    list.swap(0, 4);
    assert_eq!(summary(&rank_results(list)), expected);
}

#[test]
fn ranking_again_makes_no_difference() {
    let board = rank_results(results());
    assert_eq!(summary(&rank_results(board.clone())), summary(&board));
}

#[test]
fn worse_result_makes_no_difference() {
    let expected = summary(&rank_results(results()));
    let mut list = results();
    list.push(entry("caio", 8, 949, Some(0.1)));
    assert_eq!(summary(&rank_results(list)), expected);
}

#[test]
fn sorting_is_stable() {
    let list = vec![
        entry("a", 1, 10, Some(1.0)),
        entry("b", 1, 10, Some(1.0)),
        entry("c", 1, 20, None),
        entry("d", 1, 10, Some(1.0)),
    ];
    let names: Vec<String> = sort_entries(list)
        .into_iter()
        .map(|entry| entry.username)
        .collect();
    assert_eq!(names, ["c", "a", "b", "d"]);
}

#[test]
fn same_leaderboard_is_no_news() {
    let board = rank_results(results());
    assert_eq!(
        log_leaderboard_updates(&board, &board),
        "leaderboard refresh: no score changes"
    );
    assert_eq!(
        log_leaderboard_updates(&[], &[]),
        "leaderboard refresh: no score changes"
    );
}

#[test]
fn same_results_are_no_news() {
    let mut again = results();
    again.reverse();
    assert_eq!(
        log_leaderboard_updates(&rank_results(results()), &rank_results(again)),
        "leaderboard refresh: no score changes"
    );
}

#[test]
fn changes_are_told() {
    let before = vec![
        entry("ana", 1, 900, Some(3.0)),
        entry("bia", 2, 950, None),
        entry("caio", 3, 10, Some(1.0)),
        entry("eva", 4, 10, Some(1.0)),
    ];
    let after = vec![
        entry("bia", 2, 950, Some(9.125)),
        entry("ana", 5, 901, Some(2.5)),
        entry("davi", 6, -4, None),
        entry("eva", 4, 10, Some(1.0)),
    ];
    assert_eq!(
        log_leaderboard_updates(&before, &after),
        "leaderboard refresh: bia updated: issue #2 score 950 p99 - -> issue #2 score 950 p99 9.12ms | \
         ana updated: issue #1 score 900 p99 3.00ms -> issue #5 score 901 p99 2.50ms | \
         new user davi -> issue #6, score -4, p99 - | \
         user caio removed from leaderboard (was issue #3 score 10 p99 1.00ms)"
    );
}

#[test]
fn everybody_is_new_at_first() {
    assert_eq!(
        log_leaderboard_updates(&[], &[entry("ana", 1, 5, Some(1.5)), entry("bia", 2, 4, None)]),
        "leaderboard refresh: new user ana -> issue #1, score 5, p99 1.50ms | \
         new user bia -> issue #2, score 4, p99 -"
    );
}

#[test]
fn last_of_two_earlier_entries_counts() {
    let before = vec![entry("ana", 1, 5, None), entry("ana", 2, 6, None)];
    assert_eq!(
        log_leaderboard_updates(&before, &[entry("ana", 2, 6, None)]),
        "leaderboard refresh: no score changes"
    );
    assert_eq!(
        log_leaderboard_updates(&before, &[entry("ana", 1, 5, None)]),
        "leaderboard refresh: ana updated: issue #2 score 6 p99 - -> issue #1 score 5 p99 -"
    );
}

#[test]
fn what_is_not_a_number_always_changes() {
    let board = vec![entry("ana", 1, 5, Some(f64::NAN))];
    assert_eq!(
        log_leaderboard_updates(&board, &board),
        "leaderboard refresh: ana updated: issue #1 score 5 p99 NaNms -> issue #1 score 5 p99 NaNms"
    );
}
