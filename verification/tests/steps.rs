use rinha_leaderboard::assemble::{leaderboard, AssemblyStep};
use rinha_leaderboard::block::find_json_block;
use rinha_leaderboard::double::Double;
use rinha_leaderboard::fetch::{
    decode_failure, fetch_body_from_network, fetch_optional_body_from_network, fetch_policy,
    get_json_with_policy, get_optional_json_with_policy, read_failure, request_failure, FetchStep,
};
use rinha_leaderboard::issue_result::{fetch_issue_result, stored_key, ResultStep};
use rinha_leaderboard::metadata::{fetch_submission_metadata, MetadataStep};
use rinha_leaderboard::model::{
    AppError, BenchmarkResult, Breakdown, ExpectedResults, GitHubComment, GitHubIssue, GitHubUser,
    HttpFetchPolicy, IssueSource, ParticipantSubmission, RuntimeInfo, Scoring, SourcedIssue,
    SubmissionInfo, SubmissionMetadata, TestResults,
};
use rinha_leaderboard::pages::{fetch_all_closed_issues, PageStep};
use std::collections::HashMap;

fn double(value: f64) -> Double {
    Double { bits: value.to_bits() }
}

fn upstream(message: &str) -> AppError {
    AppError::Upstream(message.to_string())
}

fn issue(number: u64, login: &str) -> GitHubIssue {
    GitHubIssue {
        number,
        title: format!("run {number}"),
        html_url: format!("https://github.com/x/y/issues/{number}"),
        created_at: "2026-04-22T10:42:29Z".to_string(),
        comments: 1,
        user: GitHubUser { login: login.to_string() },
        pull_request: false,
    }
}

fn sourced(number: u64, login: &str, source: IssueSource) -> SourcedIssue {
    SourcedIssue { issue: issue(number, login), source }
}

fn result(score: f64, p99: &str) -> BenchmarkResult {
    BenchmarkResult {
        runtime_info: RuntimeInfo {
            mem: double(350.0),
            cpu: double(1.5),
            commit: "abc".to_string(),
        },
        test_results: TestResults {
            expected: ExpectedResults {
                total: double(100.4),
                fraud_count: double(40.5),
                legit_count: double(59.5),
                edge_case_count: double(0.2),
            },
            p99: p99.to_string(),
            scoring: Scoring {
                breakdown: Breakdown {
                    false_positive_detections: double(1.0),
                    false_negative_detections: double(2.0),
                    true_positive_detections: double(3.0),
                    true_negative_detections: double(4.0),
                    http_errors: double(5.0),
                },
                failure_rate: Some("0.5%".to_string()),
                weighted_errors: Some(double(6.5)),
                error_rate_epsilon: None,
                final_score: double(score),
            },
        },
    }
}

struct Outcome {
    body: Result<Option<String>, String>,
    asked: usize,
    written: bool,
}

fn run_fetch(
    first: FetchStep,
    cached: Option<&str>,
    answer: Result<Option<&str>, &str>,
) -> Outcome {
    let mut step = first;
    let mut asked = 0;
    let mut written = false;
    loop {
        step = match step {
            FetchStep::ReadCache(fetch) => {
                assert_eq!(fetch.url, "u");
                fetch.on_cache(Ok(cached.map(str::to_string)))
            }
            FetchStep::FetchNetwork(fetch) => {
                assert_eq!(fetch.url, "u");
                asked += 1;
                fetch.on_network(match answer {
                    Ok(body) => Ok(body.map(str::to_string)),
                    Err(message) => Err(upstream(message)),
                })
            }
            FetchStep::WriteCache(fetch, body) => {
                assert_eq!(fetch.url, "u");
                written = true;
                fetch.on_written(body, Ok(()))
            }
            FetchStep::Finished(body) => return Outcome { body: Ok(body), asked, written },
            FetchStep::Failed(error) => {
                return Outcome { body: Err(error.message().to_string()), asked, written };
            }
        };
    }
}

fn must(policy: HttpFetchPolicy) -> FetchStep {
    get_json_with_policy("u".to_string(), policy)
}

fn may(policy: HttpFetchPolicy) -> FetchStep {
    get_optional_json_with_policy("u".to_string(), policy)
}

fn document(body: &str) -> Result<Option<String>, String> {
    Ok(Some(body.to_string()))
}

#[test]
fn cached_document_is_taken_first_for_cached_issues() {
    let policy = fetch_policy(IssueSource::Cached);
    assert_eq!(policy, HttpFetchPolicy::CacheFirst);
    for first in [must(policy), may(policy)] {
        let outcome = run_fetch(first, Some("old"), Ok(Some("new")));
        assert_eq!(outcome.body, document("old"));
        assert_eq!(outcome.asked, 0);
        assert!(!outcome.written);
    }
    for first in [must(policy), may(policy)] {
        let outcome = run_fetch(first, None, Ok(Some("new")));
        assert_eq!(outcome.body, document("new"));
        assert!(outcome.written);
    }
    for first in [must(policy), may(policy)] {
        let outcome = run_fetch(first, None, Err("down"));
        assert_eq!(outcome.body, Err("down".to_string()));
        assert!(!outcome.written);
    }
    assert_eq!(run_fetch(may(policy), None, Ok(None)).body, Ok(None));
}

#[test]
fn network_is_asked_first_for_fresh_issues() {
    let policy = fetch_policy(IssueSource::Fresh);
    assert_eq!(policy, HttpFetchPolicy::NetworkFirst);
    for first in [must(policy), may(policy)] {
        let outcome = run_fetch(first, Some("old"), Ok(Some("new")));
        assert_eq!(outcome.body, document("new"));
        assert!(outcome.written);
    }
    assert_eq!(run_fetch(may(policy), Some("old"), Ok(None)).body, Ok(None));
}

#[test]
fn only_a_required_document_falls_back_to_the_cache() {
    let policy = HttpFetchPolicy::NetworkFirst;
    let outcome = run_fetch(must(policy), Some("old"), Err("down"));
    assert_eq!(outcome.body, document("old"));
    assert_eq!(outcome.asked, 1);
    let outcome = run_fetch(must(policy), None, Err("down"));
    assert_eq!(outcome.body, Err("down".to_string()));
    let outcome = run_fetch(may(policy), Some("old"), Err("down"));
    assert_eq!(outcome.body, Err("down".to_string()));
}

#[test]
fn fetched_document_is_found_again() {
    for first in [must(HttpFetchPolicy::NetworkFirst), may(HttpFetchPolicy::CacheFirst)] {
        let outcome = run_fetch(first, None, Ok(Some("new")));
        assert!(outcome.written);
        let held = outcome.body.unwrap();
        let again = run_fetch(must(HttpFetchPolicy::CacheFirst), held.as_deref(), Err("down"));
        assert_eq!(again.body, document("new"));
        assert_eq!(again.asked, 0);
    }
}

#[test]
fn failures_of_the_cache_end_a_fetch() {
    let internal = || AppError::internal("failed to read cache entry", "locked");
    match must(HttpFetchPolicy::CacheFirst) {
        FetchStep::ReadCache(fetch) => match fetch.on_cache(Err(internal())) {
            FetchStep::Failed(AppError::Internal(message)) => {
                assert_eq!(message, "failed to read cache entry: locked");
            }
            step => panic!("{step:?}"),
        },
        step => panic!("{step:?}"),
    }
    match must(HttpFetchPolicy::NetworkFirst) {
        FetchStep::FetchNetwork(fetch) => match fetch.on_network(Ok(Some("b".to_string()))) {
            FetchStep::WriteCache(fetch, body) => match fetch.on_written(body, Err(internal())) {
                FetchStep::Failed(AppError::Internal(_)) => {}
                step => panic!("{step:?}"),
            },
            step => panic!("{step:?}"),
        },
        step => panic!("{step:?}"),
    }
}

#[test]
fn answers_are_judged_by_their_status() {
    assert!(fetch_body_from_network(200, "200 OK", "u").is_ok());
    assert!(fetch_body_from_network(299, "299", "u").is_ok());
    for status in [100, 199, 300, 404, 500] {
        match fetch_body_from_network(status, "404 Not Found", "http://x") {
            Err(AppError::Upstream(message)) => {
                assert_eq!(message, "GitHub returned 404 Not Found for http://x");
            }
            other => panic!("{other:?}"),
        }
    }
    assert!(matches!(fetch_optional_body_from_network(200, "200 OK", "u"), Ok(true)));
    assert!(matches!(fetch_optional_body_from_network(404, "404 Not Found", "u"), Ok(false)));
    assert!(matches!(
        fetch_optional_body_from_network(403, "403 Forbidden", "u"),
        Err(AppError::Upstream(_))
    ));
    assert_eq!(request_failure("timeout").message(), "GitHub request failed: timeout");
    assert_eq!(read_failure("cut").message(), "GitHub response read failed: cut");
    assert_eq!(decode_failure("eof").message(), "GitHub JSON decode failed: eof");
}

struct PageWorld {
    cache: HashMap<u32, String>,
    network: HashMap<u32, Result<String, String>>,
    batches: HashMap<String, Vec<GitHubIssue>>,
    asked: Vec<u32>,
}

fn walk(world: &mut PageWorld) -> Result<(Vec<SourcedIssue>, String), AppError> {
    let mut step = fetch_all_closed_issues();
    loop {
        step = match step {
            PageStep::ReadCache(walk) => {
                assert!(walk.url().ends_with(&format!("&page={}", walk.page)));
                let cached = world.cache.get(&walk.page).cloned();
                walk.on_cache(Ok(cached))
            }
            PageStep::FetchNetwork(walk, cached) => {
                world.asked.push(walk.page);
                let reply = world.network[&walk.page]
                    .clone()
                    .map_err(|message| upstream(&message));
                walk.on_network(cached, reply)
            }
            PageStep::WriteCache(walk, news, body) => {
                world.cache.insert(walk.page, body.clone());
                walk.on_written(news, body, Ok(()))
            }
            PageStep::Parse(walk, source, body) => {
                let batch = world.batches[&body].clone();
                walk.on_batch(source, Ok(batch))
            }
            PageStep::Finished(issues, summary) => return Ok((issues, summary)),
            PageStep::Failed(error) => return Err(error),
        };
    }
}

fn full_page(first: u64) -> Vec<GitHubIssue> {
    (first..first + 100).map(|number| issue(number, "a")).collect()
}

fn page_world(cached: &[(u32, &str)], network: &[(u32, Result<&str, &str>)]) -> PageWorld {
    let mut batches = HashMap::new();
    batches.insert("full1".to_string(), full_page(1));
    batches.insert("full1b".to_string(), full_page(1001));
    batches.insert("full2".to_string(), full_page(101));
    batches.insert("short".to_string(), vec![issue(500, "z")]);
    batches.insert("empty".to_string(), Vec::new());
    PageWorld {
        cache: cached.iter().map(|(page, body)| (*page, body.to_string())).collect(),
        network: network
            .iter()
            .map(|(page, reply)| {
                (*page, reply.map(str::to_string).map_err(str::to_string))
            })
            .collect(),
        batches,
        asked: Vec::new(),
    }
}

#[test]
fn first_walk_fetches_every_page() {
    let mut world = page_world(&[], &[(1, Ok("full1")), (2, Ok("full2")), (3, Ok("short"))]);
    let (issues, summary) = walk(&mut world).unwrap();
    assert_eq!(issues.len(), 201);
    assert!(issues.iter().all(|issue| issue.source == IssueSource::Fresh));
    assert_eq!(world.asked, vec![1, 2, 3]);
    assert_eq!(world.cache.len(), 3);
    assert_eq!(
        summary,
        "leaderboard refresh: updated issue pages [1, 2, 3]; page 1: updated from GitHub | \
         page 2: updated from GitHub | page 3: updated from GitHub"
    );
}

#[test]
fn unchanged_page_lets_the_cached_tail_be_used() {
    let mut world = page_world(
        &[(1, "full1"), (2, "full2"), (3, "short")],
        &[(1, Ok("full1"))],
    );
    let (issues, summary) = walk(&mut world).unwrap();
    assert_eq!(issues.len(), 201);
    assert_eq!(world.asked, vec![1]);
    assert_eq!(issues[0].source, IssueSource::Fresh);
    assert_eq!(issues[100].source, IssueSource::Cached);
    assert_eq!(
        summary,
        "leaderboard refresh: no new issue pages found; \
         page 1: no change from GitHub, remaining pages can reuse cache | \
         page 2: reused cached tail | page 3: reused cached tail"
    );
}

#[test]
fn next_walk_asks_once_and_finds_the_same() {
    let mut world = page_world(&[], &[(1, Ok("full1")), (2, Ok("full2")), (3, Ok("short"))]);
    let numbers = |issues: &[SourcedIssue]| {
        issues.iter().map(|issue| issue.issue.number).collect::<Vec<_>>()
    };
    let (first, _) = walk(&mut world).unwrap();
    let cache = world.cache.clone();
    world.asked.clear();
    let (second, _) = walk(&mut world).unwrap();
    assert_eq!(world.asked, vec![1]);
    assert_eq!(numbers(&second), numbers(&first));
    assert_eq!(world.cache, cache);
    world.network.insert(1, Err("down".to_string()));
    world.asked.clear();
    let (third, _) = walk(&mut world).unwrap();
    assert_eq!(world.asked, vec![1]);
    assert_eq!(numbers(&third), numbers(&first));
}

#[test]
fn missing_page_of_the_tail_is_fetched() {
    let mut world = page_world(
        &[(1, "full1b"), (2, "full2")],
        &[(1, Ok("full1")), (2, Ok("full2")), (3, Ok("empty"))],
    );
    let (issues, summary) = walk(&mut world).unwrap();
    assert_eq!(issues.len(), 200);
    assert_eq!(world.asked, vec![1, 2, 3]);
    assert_eq!(
        summary,
        "leaderboard refresh: updated issue pages [1, 3]; page 1: updated from GitHub | \
         page 2: no change from GitHub, remaining pages can reuse cache | \
         page 3: fetched fresh (cached tail missing)"
    );
}

#[test]
fn failing_network_is_replaced_by_the_cache() {
    let mut world = page_world(
        &[(1, "full1"), (2, "short")],
        &[(1, Err("GitHub request failed: timeout"))],
    );
    let (issues, summary) = walk(&mut world).unwrap();
    assert_eq!(issues.len(), 101);
    assert!(issues.iter().all(|issue| issue.source == IssueSource::Cached));
    assert_eq!(
        summary,
        "leaderboard refresh: no new issue pages found; \
         page 1: GitHub failed (GitHub request failed: timeout), reused cached page | \
         page 2: reused cached tail"
    );
}

#[test]
fn failing_network_without_cache_ends_the_walk() {
    let mut world = page_world(&[], &[(1, Err("down"))]);
    assert_eq!(walk(&mut world).unwrap_err().message(), "down");
    let mut world = page_world(&[(1, "full1")], &[(1, Ok("full1")), (2, Err("down"))]);
    assert_eq!(walk(&mut world).unwrap_err().message(), "down");
}

#[test]
fn only_commented_issues_count() {
    let mut pull = issue(1, "a");
    pull.pull_request = true;
    let mut silent = issue(2, "b");
    silent.comments = 0;
    let mut world = page_world(&[], &[(1, Ok("mixed"))]);
    world
        .batches
        .insert("mixed".to_string(), vec![pull, silent, issue(3, "c")]);
    let (issues, _) = walk(&mut world).unwrap();
    assert_eq!(issues.len(), 1);
    assert_eq!(issues[0].issue.number, 3);
}

#[test]
fn failures_end_the_walk() {
    let failure = || AppError::internal("failed", "x");
    match fetch_all_closed_issues() {
        PageStep::ReadCache(walk) => {
            assert!(matches!(walk.clone().on_cache(Err(failure())), PageStep::Failed(_)));
            match walk.clone().on_network(None, Ok("b".to_string())) {
                PageStep::WriteCache(walk, news, body) => {
                    assert!(matches!(
                        walk.on_written(news, body, Err(failure())),
                        PageStep::Failed(_)
                    ));
                }
                step => panic!("{step:?}"),
            }
            assert!(matches!(
                walk.on_batch(IssueSource::Fresh, Err(failure())),
                PageStep::Failed(_)
            ));
        }
        step => panic!("{step:?}"),
    }
}

fn block(body: &str) -> Option<String> {
    find_json_block(body).unwrap()
}

#[test]
fn json_block_is_found() {
    assert_eq!(
        block("test result:\n```json\n{\"a\": {\"b\": 1}}\n```\n").as_deref(),
        Some("{\"a\": {\"b\": 1}}")
    );
    assert_eq!(block("```json{}```").as_deref(), Some("{}"));
    assert_eq!(
        block("```json\u{3000}\n{é}\u{a0}```").as_deref(),
        Some("{é}")
    );
    assert_eq!(
        block("```json\n{1}\n```\n```json\n{2}\n```").as_deref(),
        Some("{1}")
    );
    assert_eq!(
        block("```json [1] ``` ```json {2} ```").as_deref(),
        Some("{2}")
    );
    assert_eq!(
        block("```json {a} b {c}\n``` }```").as_deref(),
        Some("{a} b {c}")
    );
    assert_eq!(block("```json {open ``` {x}``` ").as_deref(), Some("{open ``` {x}"));
    assert_eq!(block("```json\n{1}"), None);
    assert_eq!(block("``` {1} ```"), None);
    assert_eq!(block("```json }```"), None);
    assert_eq!(block("```json {```"), None);
    assert_eq!(block(""), None);
}

/// The first block of a text, found by trying every place.
fn slow_block(text: &str) -> Option<String> {
    let chars: Vec<char> = text.chars().collect();
    let opening: Vec<char> = "```json".chars().collect();
    for start in 0..chars.len() {
        if !chars[start..].starts_with(&opening) {
            continue;
        }
        let mut open = start + opening.len();
        while open < chars.len() && chars[open].is_whitespace() {
            open += 1;
        }
        if open >= chars.len() || chars[open] != '{' {
            continue;
        }
        for close in open + 1..chars.len() {
            let mut fence = close + 1;
            while fence < chars.len() && chars[fence].is_whitespace() {
                fence += 1;
            }
            if chars[close] == '}' && chars[fence.min(chars.len())..].starts_with(&['`', '`', '`']) {
                return Some(chars[open..=close].iter().collect());
            }
        }
    }
    None
}

#[test]
fn json_block_is_the_first_one() {
    let pieces = ["```json", "```", "{", "}", " ", "\n", "x", "é", "json", "`"];
    let mut state: u64 = 5;
    for _ in 0..400 {
        let mut text = String::new();
        for _ in 0..24 {
            state = state.wrapping_mul(6364136223846793005).wrapping_add(1442695040888963407);
            text.push_str(pieces[(state >> 33) as usize % pieces.len()]);
        }
        assert_eq!(block(&text), slow_block(&text), "{text:?}");
    }
}

fn comment(login: &str, body: &str) -> GitHubComment {
    GitHubComment {
        body: body.to_string(),
        user: GitHubUser { login: login.to_string() },
    }
}

struct Search {
    result: Result<Option<BenchmarkResult>, String>,
    remark: Option<String>,
    fetched: Vec<(String, HttpFetchPolicy)>,
}

fn search(
    issue: &SourcedIssue,
    stored: &mut HashMap<i64, String>,
    comments: Result<Vec<GitHubComment>, AppError>,
) -> Search {
    let parse = |json: &str| {
        if json.contains("bad") {
            Err("expected value".to_string())
        } else {
            Ok(result(json.len() as f64, "1ms"))
        }
    };
    let mut fetched = Vec::new();
    let mut comments = Some(comments);
    let mut step = fetch_issue_result(issue);
    loop {
        step = match step {
            ResultStep::ReadStored(lookup, key) => lookup.on_stored(Ok(stored.get(&key).cloned())),
            ResultStep::ParseStored(lookup, json) => lookup.on_stored_parsed(parse(&json)),
            ResultStep::FetchComments(lookup, url, policy) => {
                fetched.push((url, policy));
                lookup.on_comments(comments.take().unwrap())
            }
            ResultStep::ParseComment(lookup, json) => {
                let reply = parse(&json);
                lookup.on_comment_parsed(json, reply)
            }
            ResultStep::WriteStored(lookup, key, json, result) => {
                stored.insert(key, json);
                lookup.on_stored_written(result, Ok(()))
            }
            ResultStep::Finished(result, remark) => {
                return Search { result: Ok(result), remark, fetched };
            }
            ResultStep::Failed(error) => {
                return Search {
                    result: Err(error.message().to_string()),
                    remark: None,
                    fetched,
                };
            }
        };
    }
}

#[test]
fn result_is_found_in_the_comments_and_kept() {
    let issue = sourced(41, "ana", IssueSource::Fresh);
    let mut stored = HashMap::new();
    let comments = vec![
        comment("somebody", "```json {\"no\": 1} ```"),
        comment("arinhadebackend", "queued"),
        comment("arinhadebackend", "test result:\n```json\n{\"a\": 1}\n```"),
        comment("arinhadebackend", "```json {\"b\": 22} ```"),
    ];
    let found = search(&issue, &mut stored, Ok(comments));
    assert!(found.result.unwrap().is_some());
    assert_eq!(found.remark, None);
    assert_eq!(
        found.fetched,
        vec![(
            "https://api.github.com/repos/zanfranceschi/rinha-de-backend-2026/issues/41/comments?per_page=100"
                .to_string(),
            HttpFetchPolicy::NetworkFirst
        )]
    );
    assert_eq!(stored[&41], "{\"a\": 1}");
    let again = search(&issue, &mut stored, Err(upstream("gone")));
    assert!(again.result.unwrap().is_some());
    assert!(again.fetched.is_empty());
    assert_eq!(
        again.remark.as_deref(),
        Some("leaderboard refresh: issue #41 reused stored result without refetching comments")
    );
}

#[test]
fn results_of_other_issues_stay() {
    let mut stored = HashMap::new();
    stored.insert(stored_key(40), "{\"old\": 1}".to_string());
    let reports = vec![comment("arinhadebackend", "```json {\"a\": 1} ```")];
    search(&sourced(41, "ana", IssueSource::Fresh), &mut stored, Ok(reports));
    assert_eq!(stored.len(), 2);
    assert_eq!(stored[&stored_key(40)], "{\"old\": 1}");
}

#[test]
fn comments_of_cached_issues_come_from_the_cache_first() {
    let issue = sourced(7, "ana", IssueSource::Cached);
    let found = search(&issue, &mut HashMap::new(), Ok(Vec::new()));
    assert_eq!(found.fetched[0].1, HttpFetchPolicy::CacheFirst);
    assert!(found.result.unwrap().is_none());
    assert_eq!(found.remark, None);
}

#[test]
fn unreadable_results_are_ignored() {
    let issue = sourced(8, "ana", IssueSource::Fresh);
    let mut stored = HashMap::new();
    let found = search(
        &issue,
        &mut stored,
        Ok(vec![comment("arinhadebackend", "```json {bad} ```")]),
    );
    assert!(found.result.unwrap().is_none());
    assert_eq!(
        found.remark.as_deref(),
        Some("leaderboard refresh: issue #8 ignored comment with unsupported format: expected value")
    );
    assert!(stored.is_empty());
    stored.insert(8, "bad".to_string());
    let found = search(&issue, &mut stored, Ok(Vec::new()));
    assert!(found.result.unwrap().is_none());
    assert!(found.fetched.is_empty());
    assert_eq!(
        found.remark.as_deref(),
        Some("leaderboard refresh: issue #8 ignored stored result with unsupported format: expected value")
    );
}

#[test]
fn report_without_a_block_has_no_result() {
    let issue = sourced(9, "ana", IssueSource::Fresh);
    let found = search(
        &issue,
        &mut HashMap::new(),
        Ok(vec![
            comment("arinhadebackend", "```json [1] ```"),
            comment("arinhadebackend", "```json {\"a\": 1} ```"),
        ]),
    );
    assert!(found.result.unwrap().is_none());
    assert_eq!(found.remark, None);
}

#[test]
fn failures_end_the_search() {
    let issue = sourced(10, "ana", IssueSource::Fresh);
    let found = search(&issue, &mut HashMap::new(), Err(upstream("down")));
    assert_eq!(found.result.unwrap_err(), "down");
    match fetch_issue_result(&issue) {
        ResultStep::ReadStored(lookup, key) => {
            assert_eq!(key, 10);
            assert!(matches!(lookup.on_stored(Err(upstream("x"))), ResultStep::Failed(_)));
            assert!(matches!(
                lookup.on_stored_written(result(1.0, ""), Err(upstream("x"))),
                ResultStep::Failed(_)
            ));
        }
        step => panic!("{step:?}"),
    }
}

#[test]
fn keys_wrap_around() {
    for number in [0, 41, i64::MAX as u64, i64::MAX as u64 + 1, u64::MAX] {
        assert_eq!(stored_key(number), number as i64);
    }
}

fn submission(id: &str, repo: &str) -> ParticipantSubmission {
    ParticipantSubmission { id: id.to_string(), repo: repo.to_string() }
}

fn texts(items: &[&str]) -> Vec<String> {
    items.iter().map(|item| item.to_string()).collect()
}

fn inquire(
    participant: Result<Option<Vec<ParticipantSubmission>>, AppError>,
    info: Result<Option<SubmissionInfo>, AppError>,
) -> (MetadataStep, Vec<String>) {
    let mut urls = Vec::new();
    let (mut participant, mut info) = (Some(participant), Some(info));
    let mut step = fetch_submission_metadata(&sourced(12, "Lothyriel", IssueSource::Cached));
    loop {
        step = match step {
            MetadataStep::FetchParticipant(lookup, url) => {
                assert_eq!(lookup.policy, HttpFetchPolicy::CacheFirst);
                urls.push(url);
                lookup.on_participant(participant.take().unwrap())
            }
            MetadataStep::FetchInfo(lookup, metadata, url) => {
                urls.push(url);
                lookup.on_info(metadata, info.take().unwrap())
            }
            last => return (last, urls),
        };
    }
}

fn known(step: MetadataStep) -> (SubmissionMetadata, Option<String>) {
    match step {
        MetadataStep::Finished(Some(metadata), remark) => (metadata, remark),
        step => panic!("{step:?}"),
    }
}

#[test]
fn submission_describes_itself() {
    let info = SubmissionInfo {
        participants: texts(&["Ana", "Bia"]),
        social: texts(&["https://www.linkedin.com/in/ana", "https://github.com/ana"]),
        stack: texts(&["rust", "nginx"]),
        open_to_work: Some(true),
    };
    let list = vec![
        submission("lothyriel-rust", "https://github.com/lothyriel/rinha_2026/"),
        submission("other", "https://github.com/x/y"),
    ];
    let (step, urls) = inquire(Ok(Some(list)), Ok(Some(info)));
    let (metadata, remark) = known(step);
    assert_eq!(
        urls,
        vec![
            "https://raw.githubusercontent.com/zanfranceschi/rinha-de-backend-2026/main/participants/Lothyriel.json",
            "https://raw.githubusercontent.com/lothyriel/rinha_2026/submission/info.json",
        ]
    );
    assert_eq!(remark, None);
    assert_eq!(metadata.participant_names, texts(&["Ana", "Bia"]));
    assert_eq!(metadata.participant_submission_id.as_deref(), Some("lothyriel-rust"));
    assert_eq!(metadata.submission_stack, texts(&["rust", "nginx"]));
    assert_eq!(metadata.github_profile_url.as_deref(), Some("https://github.com/ana"));
    assert_eq!(
        metadata.linkedin_profile_url.as_deref(),
        Some("https://www.linkedin.com/in/ana")
    );
    assert_eq!(
        metadata.submission_repo_url.as_deref(),
        Some("https://github.com/lothyriel/rinha_2026")
    );
    assert_eq!(metadata.open_to_work, Some(true));
}

#[test]
fn submission_without_description_keeps_its_registration() {
    let list = || Ok(Some(vec![submission("a", "https://github.com/x/y")]));
    let (metadata, _) = known(inquire(list(), Ok(None)).0);
    assert_eq!(metadata.participant_submission_id.as_deref(), Some("a"));
    assert_eq!(metadata.submission_repo_url.as_deref(), Some("https://github.com/x/y"));
    assert!(metadata.participant_names.is_empty());
    assert_eq!(metadata.open_to_work, None);
    assert!(matches!(
        inquire(list(), Err(upstream("down"))).0,
        MetadataStep::Failed(_)
    ));
}

#[test]
fn unsupported_repository_is_remarked() {
    let (step, urls) = inquire(
        Ok(Some(vec![submission("a", "https://gitlab.com/x/y")])),
        Ok(None),
    );
    let (metadata, remark) = known(step);
    assert_eq!(urls.len(), 1);
    assert_eq!(metadata.submission_repo_url, None);
    assert_eq!(
        remark.as_deref(),
        Some("leaderboard refresh: issue #12 has unsupported submission repo URL https://gitlab.com/x/y")
    );
}

#[test]
fn unregistered_participant_has_no_metadata() {
    for reply in [Ok(None), Ok(Some(Vec::new()))] {
        assert!(matches!(
            inquire(reply, Ok(None)).0,
            MetadataStep::Finished(None, None)
        ));
    }
    assert!(matches!(
        inquire(Err(upstream("down")), Ok(None)).0,
        MetadataStep::Failed(_)
    ));
}

#[test]
fn leaderboard_is_assembled() {
    let issues = vec![
        sourced(1, "ana", IssueSource::Fresh),
        sourced(2, "bia", IssueSource::Fresh),
        sourced(3, "ana", IssueSource::Cached),
        sourced(4, "caio", IssueSource::Cached),
    ];
    let mut results = vec![];
    let mut metadata = vec![];
    let mut step = leaderboard(Ok(issues));
    let board = loop {
        step = match step {
            AssemblyStep::FetchResult(assembly, issue) => {
                results.push(issue.issue.number);
                let reply = match issue.issue.number {
                    1 => Some(result(10.4, "3ms")),
                    3 => Some(result(20.5, "2.5ms")),
                    4 => Some(result(15.0, "fast")),
                    _ => None,
                };
                assembly.on_result(issue, Ok(reply))
            }
            AssemblyStep::FetchMetadata(assembly, issue, result) => {
                metadata.push(issue.issue.number);
                let mut known = SubmissionMetadata::default();
                known.participant_names = texts(&["N"]);
                let reply = if issue.issue.number == 3 { Some(known) } else { None };
                assembly.on_metadata(issue, result, Ok(reply))
            }
            AssemblyStep::Finished(board) => break board,
            AssemblyStep::Failed(error) => panic!("{error:?}"),
        };
    };
    assert_eq!(results, vec![1, 2, 3, 4]);
    assert_eq!(metadata, vec![1, 3, 4]);
    assert_eq!(board.len(), 2);
    let ana = &board[0];
    assert_eq!((ana.rank, ana.username.as_str(), ana.issue_number), (1, "ana", 3));
    assert_eq!(ana.final_score, 21);
    assert_eq!(ana.p99_ms.map(|p99| f64::from_bits(p99.bits)), Some(2.5));
    assert_eq!(ana.participant_names, texts(&["N"]));
    assert_eq!(ana.issue_title, "run 3");
    assert_eq!(ana.issue_url, "https://github.com/x/y/issues/3");
    assert_eq!(ana.created_at, "2026-04-22T10:42:29Z");
    assert_eq!(
        (
            ana.expected_total,
            ana.expected_fraud_count,
            ana.expected_legit_count,
            ana.expected_edge_case_count
        ),
        (100, 41, 60, 0)
    );
    assert_eq!(
        (
            ana.false_positives,
            ana.false_negatives,
            ana.true_positives,
            ana.true_negatives,
            ana.http_errors
        ),
        (1, 2, 3, 4, 5)
    );
    assert_eq!(ana.failure_rate.as_deref(), Some("0.5%"));
    assert_eq!(ana.weighted_errors.map(|n| f64::from_bits(n.bits)), Some(6.5));
    assert!(ana.error_rate_epsilon.is_none());
    assert_eq!(ana.cpu.map(|n| f64::from_bits(n.bits)), Some(1.5));
    assert_eq!(ana.memory_mb.map(|n| f64::from_bits(n.bits)), Some(350.0));
    assert_eq!(ana.commit.as_deref(), Some("abc"));
    let caio = &board[1];
    assert_eq!((caio.rank, caio.username.as_str()), (2, "caio"));
    assert!(caio.p99_ms.is_none());
    assert!(caio.participant_names.is_empty());
}

#[test]
fn failures_end_the_assembly() {
    assert!(matches!(leaderboard(Err(upstream("down"))), AssemblyStep::Failed(_)));
    let issues = || Ok(vec![sourced(1, "ana", IssueSource::Fresh)]);
    match leaderboard(issues()) {
        AssemblyStep::FetchResult(assembly, issue) => {
            assert!(matches!(
                assembly.on_result(issue, Err(upstream("down"))),
                AssemblyStep::Failed(_)
            ));
        }
        step => panic!("{step:?}"),
    }
    match leaderboard(issues()) {
        AssemblyStep::FetchResult(assembly, issue) => {
            assert!(matches!(
                assembly.on_metadata(issue, result(1.0, ""), Err(upstream("down"))),
                AssemblyStep::Failed(_)
            ));
        }
        step => panic!("{step:?}"),
    }
    assert!(matches!(leaderboard(Ok(Vec::new())), AssemblyStep::Finished(board) if board.is_empty()));
}
