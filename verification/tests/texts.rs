use rinha_leaderboard::config::{authorization, cache_path, listen_port};
use rinha_leaderboard::markup::{escape_html, truncate_with_ellipsis};
use rinha_leaderboard::text::{
    contains, decimal_of, is_whitespace, join, same_text, signed_decimal_of,
};
use rinha_leaderboard::urls::{
    comments_url, first_social_link, issues_page_url, parse_github_repo_url,
    participant_registry_url, sanitize_github_url, submission_info_url,
};

#[test]
fn white_space_is_that_of_unicode() {
    for code in 0..=0x10ffffu32 {
        if let Some(c) = char::from_u32(code) {
            assert_eq!(is_whitespace(c), c.is_whitespace(), "{code:x}");
        }
    }
}

#[test]
fn decimals_are_written_out() {
    for n in [0, 1, 9, 10, 99, 100, 12345, u64::MAX] {
        assert_eq!(decimal_of(n), n.to_string());
    }
    for n in [0, -1, 7, -10, i64::MAX, i64::MIN] {
        assert_eq!(signed_decimal_of(n), n.to_string());
    }
}

#[test]
fn lists_are_joined() {
    let list = |items: &[&str]| items.iter().map(|item| item.to_string()).collect::<Vec<_>>();
    assert_eq!(join(&list(&[]), ", "), "");
    assert_eq!(join(&list(&["a"]), ", "), "a");
    assert_eq!(join(&list(&["a", "", "c"]), ", "), "a, , c");
}

#[test]
fn texts_are_searched_and_compared() {
    assert!(contains("abc", ""));
    assert!(contains("abc", "bc"));
    assert!(contains("", ""));
    assert!(!contains("abc", "cb"));
    assert!(!contains("ab", "abc"));
    assert!(same_text("añb", "añb"));
    assert!(!same_text("ab", "abc"));
    assert!(!same_text("ab", "ac"));
}

fn replaced_in_turn(value: &str) -> String {
    value
        .replace('&', "&amp;")
        .replace('<', "&lt;")
        .replace('>', "&gt;")
        .replace('"', "&quot;")
        .replace('\'', "&#39;")
}

#[test]
fn escaping_replaces_markup() {
    assert_eq!(
        escape_html("<a href=\"x\">Tom & 'Jerry'</a>"),
        "&lt;a href=&quot;x&quot;&gt;Tom &amp; &#39;Jerry&#39;&lt;/a&gt;"
    );
    assert_eq!(escape_html("&amp;"), "&amp;amp;");
    assert_eq!(escape_html(""), "");
    for value in ["plain", "é<ñ>🐙", "&&<<>>\"\"''", "&lt;&gt;"] {
        assert_eq!(escape_html(value), replaced_in_turn(value));
    }
}

#[test]
fn escaped_text_holds_no_markup() {
    let html = escape_html("<>\"'&<script>alert('x')</script>");
    assert!(!html.contains(['<', '>', '"', '\'']));
    for (at, _) in html.match_indices('&') {
        let rest = &html[at..];
        assert!(
            ["&amp;", "&lt;", "&gt;", "&quot;", "&#39;"]
                .iter()
                .any(|entity| rest.starts_with(entity))
        );
    }
}

#[test]
fn escaping_keeps_texts_apart() {
    assert_ne!(escape_html("&lt;"), escape_html("<"));
    assert_ne!(escape_html("&#39;"), escape_html("'"));
}

#[test]
fn long_text_is_cut() {
    assert_eq!(truncate_with_ellipsis("Rust, Postgres", 30), "Rust, Postgres");
    assert_eq!(truncate_with_ellipsis("abc", 3), "abc");
    assert_eq!(truncate_with_ellipsis("abcd", 3), "abc...");
    assert_eq!(truncate_with_ellipsis("ñandúes", 4), "ñand...");
    assert_eq!(truncate_with_ellipsis("a", 0), "...");
    assert_eq!(truncate_with_ellipsis("", 0), "");
}

#[test]
fn addresses_are_built() {
    assert_eq!(
        issues_page_url(7),
        "https://api.github.com/repos/zanfranceschi/rinha-de-backend-2026/issues?state=closed&per_page=100&page=7"
    );
    assert_eq!(
        comments_url(41),
        "https://api.github.com/repos/zanfranceschi/rinha-de-backend-2026/issues/41/comments?per_page=100"
    );
    assert_eq!(
        participant_registry_url("Lothyriel"),
        "https://raw.githubusercontent.com/zanfranceschi/rinha-de-backend-2026/main/participants/Lothyriel.json"
    );
    assert_eq!(
        submission_info_url("https://github.com/lothyriel/rinha_2026").as_deref(),
        Some("https://raw.githubusercontent.com/lothyriel/rinha_2026/submission/info.json")
    );
    assert_eq!(submission_info_url("https://gitlab.com/a/b"), None);
}

#[test]
fn repositories_are_read_from_addresses() {
    let named = |url: &str| parse_github_repo_url(url);
    let pair = |owner: &str, repo: &str| Some((owner.to_string(), repo.to_string()));
    assert_eq!(named("https://github.com/a/b"), pair("a", "b"));
    assert_eq!(named("http://github.com/a/b///"), pair("a", "b"));
    assert_eq!(named("https://github.com/a/b/tree/main"), pair("a", "b"));
    assert_eq!(named("https://github.com/ a / b "), pair("a", "b"));
    assert_eq!(named("https://github.com/a"), None);
    assert_eq!(named("https://github.com/a/"), None);
    assert_eq!(named("https://github.com//b"), None);
    assert_eq!(named("https://github.com/a//b"), None);
    assert_eq!(named("https://github.com/ /b"), None);
    assert_eq!(named("https://github.com/"), None);
    assert_eq!(named("https://github.com"), None);
    assert_eq!(named("git@github.com:a/b"), None);
    assert_eq!(named("HTTPS://github.com/a/b"), None);
    assert_eq!(named(" https://github.com/a/b"), None);
    assert_eq!(named(""), None);
}

#[test]
fn sanitized_addresses_stay_as_they_are() {
    for url in [
        "https://github.com/a/b",
        "http://github.com/ a /b.git/issues/",
        "https://github.com/ñ/🐙/",
    ] {
        let once = sanitize_github_url(url).unwrap();
        assert_eq!(sanitize_github_url(&once), Some(once.clone()));
        assert!(once.starts_with("https://github.com/"));
    }
    assert_eq!(
        sanitize_github_url("http://github.com/ a /b.git/issues/").as_deref(),
        Some("https://github.com/a/b.git")
    );
    assert_eq!(sanitize_github_url("ftp://github.com/a/b"), None);
}

#[test]
fn first_link_to_a_domain_is_taken() {
    let links: Vec<String> = [
        "https://example.com",
        "https://www.linkedin.com/in/a",
        "https://github.com/a",
        "https://github.com/b",
    ]
    .iter()
    .map(|link| link.to_string())
    .collect();
    assert_eq!(
        first_social_link(&links, "github.com").as_deref(),
        Some("https://github.com/a")
    );
    assert_eq!(
        first_social_link(&links, "linkedin.com").as_deref(),
        Some("https://www.linkedin.com/in/a")
    );
    assert_eq!(first_social_link(&links, "gitlab.com"), None);
    assert_eq!(first_social_link(&[], "github.com"), None);
}

#[test]
fn port_is_read_or_the_usual_one() {
    for text in [
        "8080", "+8080", "0", "65535", "65536", "-1", "", "+", "++1", "80 ", "0x50", "000080",
        "99999999999999999999", "８０",
    ] {
        assert_eq!(
            listen_port(Some(text)),
            text.parse::<u16>().unwrap_or(3000),
            "{text}"
        );
    }
    assert_eq!(listen_port(None), 3000);
    assert_eq!(listen_port(Some("8080")), 8080);
}

#[test]
fn settings_have_defaults() {
    assert_eq!(authorization("abc"), "Bearer abc");
    assert_eq!(cache_path(None), "leaderboard-cache.sqlite3");
    assert_eq!(cache_path(Some("/tmp/c.db".to_string())), "/tmp/c.db");
}
