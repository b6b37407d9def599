//! The addresses that the leaderboard reads from and links to.

use crate::number::law_decimal_states_the_number;
use crate::text::{
    after_first, all_white, before_first, begins_with, chars_of, contains, contains_text, decimal,
    decimal_of, is_white, is_whitespace, law_cut_at_first, law_only_the_trailing_run_is_cut,
    matches_at, stands_at, string_between, trimmed, trimmed_end, trimmed_start, without_trailing,
};
use vstd::prelude::*;

verus! {

/// Who owns the challenge repository.
pub const OWNER: &'static str = "zanfranceschi";

/// The challenge repository.
pub const REPO: &'static str = "rinha-de-backend-2026";

/// The account that posts results.
pub const RESULTS_BOT: &'static str = "arinhadebackend";

/// The page of the challenge.
pub const CHALLENGE_URL: &'static str = "https://github.com/zanfranceschi/rinha-de-backend-2026";

/// The branch that holds the register of participants.
pub const MAIN_BRANCH: &'static str = "main";

/// The branch of a participant's repository that holds the submission.
pub const SUBMISSION_BRANCH: &'static str = "submission";

/// Where a page of closed issues is listed.
pub open spec fn issues_page_address(page: nat) -> Seq<char> {
    "https://api.github.com/repos/"@ + OWNER@ + "/"@ + REPO@
        + "/issues?state=closed&per_page=100&page="@ + decimal(page)
}

/// Where the comments on an issue are listed.
pub open spec fn comments_address(number: nat) -> Seq<char> {
    "https://api.github.com/repos/"@ + OWNER@ + "/"@ + REPO@ + "/issues/"@ + decimal(number)
        + "/comments?per_page=100"@
}

/// Where a participant is registered.
pub open spec fn registry_address(username: Seq<char>) -> Seq<char> {
    "https://raw.githubusercontent.com/"@ + OWNER@ + "/"@ + REPO@ + "/"@ + MAIN_BRANCH@
        + "/participants/"@ + username + ".json"@
}

/// Where a repository's submission describes itself.
pub open spec fn info_address(owner: Seq<char>, repo: Seq<char>) -> Seq<char> {
    "https://raw.githubusercontent.com/"@ + owner + "/"@ + repo + "/"@ + SUBMISSION_BRANCH@
        + "/info.json"@
}

/// The page of a repository.
pub open spec fn repository_address(owner: Seq<char>, repo: Seq<char>) -> Seq<char> {
    "https://github.com/"@ + owner + "/"@ + repo
}

/// The path of a GitHub address; trailing slashes do not belong to it.
pub open spec fn github_path(url: Seq<char>) -> Option<Seq<char>> {
    let address = without_trailing(url, '/');
    if begins_with(address, "https://github.com/"@) {
        Some(address.skip("https://github.com/"@.len() as int))
    } else if begins_with(address, "http://github.com/"@) {
        Some(address.skip("http://github.com/"@.len() as int))
    } else {
        None
    }
}

/// The owner and the repository that a GitHub address names: the first two parts of
/// its path, without white space around them, both of which must be there.
pub open spec fn named_repository(url: Seq<char>) -> Option<(Seq<char>, Seq<char>)> {
    match github_path(url) {
        None => None,
        Some(path) => match after_first(path, '/') {
            None => None,
            Some(rest) => {
                let owner = trimmed(before_first(path, '/'));
                let repo = trimmed(before_first(rest, '/'));
                if owner.len() == 0 || repo.len() == 0 {
                    None
                } else {
                    Some((owner, repo))
                }
            },
        },
    }
}

/// Where a page of closed issues is listed.
pub fn issues_page_url(page: u32) -> (url: String)
    ensures
        url@ == issues_page_address(page as nat),
{
    let mut url = String::new();
    url.append("https://api.github.com/repos/");
    url.append(OWNER);
    url.append("/");
    url.append(REPO);
    url.append("/issues?state=closed&per_page=100&page=");
    url.append(&decimal_of(page as u64));
    assert(url@ =~= issues_page_address(page as nat));
    url
}

/// Where the comments on an issue are listed.
pub fn comments_url(number: u64) -> (url: String)
    ensures
        url@ == comments_address(number as nat),
{
    let mut url = String::new();
    url.append("https://api.github.com/repos/");
    url.append(OWNER);
    url.append("/");
    url.append(REPO);
    url.append("/issues/");
    url.append(&decimal_of(number));
    url.append("/comments?per_page=100");
    assert(url@ =~= comments_address(number as nat));
    url
}

/// Where a participant is registered.
pub fn participant_registry_url(username: &str) -> (url: String)
    ensures
        url@ == registry_address(username@),
{
    let mut url = String::new();
    url.append("https://raw.githubusercontent.com/");
    url.append(OWNER);
    url.append("/");
    url.append(REPO);
    url.append("/");
    url.append(MAIN_BRANCH);
    url.append("/participants/");
    url.append(username);
    url.append(".json");
    assert(url@ =~= registry_address(username@));
    url
}

/// Where the submission of a repository describes itself.
pub fn submission_info_url(repo_url: &str) -> (url: Option<String>)
    ensures
        match named_repository(repo_url@) {
            Some((owner, repo)) => url matches Some(url) && url@ == info_address(owner, repo),
            None => url is None,
        },
{
    match parse_github_repo_url(repo_url) {
        None => None,
        Some((owner, repo)) => {
            let mut url = String::new();
            url.append("https://raw.githubusercontent.com/");
            url.append(&owner);
            url.append("/");
            url.append(&repo);
            url.append("/");
            url.append(SUBMISSION_BRANCH);
            url.append("/info.json");
            assert(url@ =~= info_address(owner@, repo@));
            Some(url)
        },
    }
}

/// The plain address of the repository that `url` names.
pub fn sanitize_github_url(url: &str) -> (plain: Option<String>)
    ensures
        match named_repository(url@) {
            Some((owner, repo)) => plain matches Some(plain) && plain@ == repository_address(
                owner,
                repo,
            ),
            None => plain is None,
        },
{
    match parse_github_repo_url(url) {
        None => None,
        Some((owner, repo)) => {
            let mut plain = String::new();
            plain.append("https://github.com/");
            plain.append(&owner);
            plain.append("/");
            plain.append(&repo);
            assert(plain@ =~= repository_address(owner@, repo@));
            Some(plain)
        },
    }
}

/// The length of `chars` without the run of slashes at its end.
fn length_without_slashes(chars: &Vec<char>) -> (end: usize)
    ensures
        end <= chars@.len(),
        chars@.take(end as int) == without_trailing(chars@, '/'),
{
    let mut end: usize = chars.len();
    assert(chars@.take(end as int) =~= chars@);
    while end > 0 && chars[end - 1] == '/'
        invariant
            end <= chars@.len(),
            without_trailing(chars@.take(end as int), '/') == without_trailing(chars@, '/'),
        decreases end,
    {
        assert(chars@.take(end as int).drop_last() =~= chars@.take(end - 1));
        end -= 1;
    }
    end
}

/// Where the part of `chars` from `from` to `to` stops: at the first slash, or at `to`.
fn segment_end(chars: &Vec<char>, from: usize, to: usize) -> (end: usize)
    requires
        from <= to <= chars@.len(),
    ensures
        from <= end <= to,
        chars@.subrange(from as int, end as int) == before_first(
            chars@.subrange(from as int, to as int),
            '/',
        ),
        match after_first(chars@.subrange(from as int, to as int), '/') {
            Some(rest) => end < to && rest == chars@.subrange(end + 1, to as int),
            None => end == to,
        },
{
    let ghost part = chars@.subrange(from as int, to as int);
    let mut end: usize = from;
    while end < to && chars[end] != '/'
        invariant
            from <= end <= to <= chars@.len(),
            part == chars@.subrange(from as int, to as int),
            before_first(part, '/') =~= chars@.subrange(from as int, end as int) + before_first(
                chars@.subrange(end as int, to as int),
                '/',
            ),
            after_first(part, '/') == after_first(chars@.subrange(end as int, to as int), '/'),
        decreases to - end,
    {
        let ghost rest = chars@.subrange(end as int, to as int);
        assert(rest.drop_first() =~= chars@.subrange(end + 1, to as int));
        assert(chars@.subrange(from as int, end + 1) =~= chars@.subrange(from as int, end as int)
            + seq![rest[0]]);
        end += 1;
    }
    if end < to {
        assert(chars@.subrange(end as int, to as int).drop_first() =~= chars@.subrange(
            end + 1,
            to as int,
        ));
    }
    end
}

/// The part of `chars` from `from` to `to`, without the white space around it.
fn trimmed_between(chars: &Vec<char>, from: usize, to: usize) -> (s: String)
    requires
        from <= to <= chars@.len(),
    ensures
        s@ == trimmed(chars@.subrange(from as int, to as int)),
{
    let ghost part = chars@.subrange(from as int, to as int);
    let mut start: usize = from;
    while start < to && is_whitespace(chars[start])
        invariant
            from <= start <= to <= chars@.len(),
            part == chars@.subrange(from as int, to as int),
            trimmed_start(chars@.subrange(start as int, to as int)) == trimmed_start(part),
        decreases to - start,
    {
        assert(chars@.subrange(start as int, to as int).drop_first() =~= chars@.subrange(
            start + 1,
            to as int,
        ));
        start += 1;
    }
    let ghost head = chars@.subrange(start as int, to as int);
    assert(trimmed_start(part) == head);
    let mut end: usize = to;
    while end > start && is_whitespace(chars[end - 1])
        invariant
            start <= end <= to <= chars@.len(),
            trimmed_end(chars@.subrange(start as int, end as int)) == trimmed_end(head),
        decreases end,
    {
        assert(chars@.subrange(start as int, end as int).drop_last() =~= chars@.subrange(
            start as int,
            end - 1,
        ));
        end -= 1;
    }
    string_between(chars, start, end)
}

/// The owner and the repository that a GitHub address names.
pub fn parse_github_repo_url(url: &str) -> (named: Option<(String, String)>)
    ensures
        match named_repository(url@) {
            Some((owner, repo)) => named matches Some(pair) && pair.0@ == owner && pair.1@ == repo,
            None => named is None,
        },
{
    let chars = chars_of(url);
    let end: usize = length_without_slashes(&chars);
    let ghost address = without_trailing(url@, '/');
    let secure = chars_of("https://github.com/");
    let plain = chars_of("http://github.com/");
    proof {
        lemma_prefix(url@, end as int, secure@);
        lemma_prefix(url@, end as int, plain@);
    }
    let from: usize = if secure.len() <= end && matches_at(&chars, &secure, 0) {
        secure.len()
    } else if plain.len() <= end && matches_at(&chars, &plain, 0) {
        plain.len()
    } else {
        return None;
    };
    let ghost path = url@.subrange(from as int, end as int);
    assert(address.skip(from as int) =~= path);
    let owner_end: usize = segment_end(&chars, from, end);
    if owner_end == end {
        return None;
    }
    let repo_end: usize = segment_end(&chars, owner_end + 1, end);
    let owner = trimmed_between(&chars, from, owner_end);
    let repo = trimmed_between(&chars, owner_end + 1, repo_end);
    if owner.as_str().is_empty() || repo.as_str().is_empty() {
        return None;
    }
    Some((owner, repo))
}

proof fn lemma_prefix(s: Seq<char>, end: int, prefix: Seq<char>)
    requires
        0 <= end <= s.len(),
    ensures
        begins_with(s.take(end), prefix) <==> prefix.len() <= end && stands_at(s, prefix, 0),
{
    if prefix.len() <= end {
        assert(s.take(end).take(prefix.len() as int) =~= s.subrange(0, prefix.len() as int));
    }
}

/// The first of the links that mentions the domain.
pub open spec fn link_with(links: Seq<String>, domain: Seq<char>) -> Option<String>
    decreases links.len(),
{
    if links.len() == 0 {
        None
    } else if contains_text(links[0]@, domain) {
        Some(links[0])
    } else {
        link_with(links.skip(1), domain)
    }
}

/// The first of the links that mentions the domain.
pub fn first_social_link(social_links: &[String], domain: &str) -> (link: Option<String>)
    ensures
        link == link_with(social_links@, domain@),
{
    let mut i: usize = 0;
    assert(social_links@.skip(0) =~= social_links@);
    while i < social_links.len()
        invariant
            i <= social_links@.len(),
            link_with(social_links@.skip(i as int), domain@) == link_with(social_links@, domain@),
        decreases social_links@.len() - i,
    {
        if contains(&social_links[i], domain) {
            return Some(social_links[i].clone());
        }
        assert(social_links@.skip(i as int).skip(1) =~= social_links@.skip(i + 1));
        i += 1;
    }
    None
}

/// `part` can be the name of an owner or of a repository: it is not empty, holds no
/// slash, and neither begins nor ends with white space.
pub open spec fn is_name(part: Seq<char>) -> bool {
    &&& part.len() > 0
    &&& !part.contains('/')
    &&& !is_white(part[0])
    &&& !is_white(part.last())
}

proof fn lemma_before_first(s: Seq<char>, c: char)
    ensures
        !before_first(s, c).contains(c),
    decreases s.len(),
{
    if s.len() > 0 && s[0] != c {
        let rest = before_first(s.drop_first(), c);
        lemma_before_first(s.drop_first(), c);
        if before_first(s, c).contains(c) {
            let k = choose|k: int|
                0 <= k < before_first(s, c).len() && before_first(s, c)[k] == c;
            assert(k > 0);
            assert(rest[k - 1] == c);
        }
    }
}

proof fn lemma_trimmed_start(s: Seq<char>)
    ensures
        trimmed_start(s).len() > 0 ==> !is_white(trimmed_start(s)[0]),
        forall|c: char| #[trigger] trimmed_start(s).contains(c) ==> s.contains(c),
    decreases s.len(),
{
    if s.len() > 0 && is_white(s[0]) {
        let rest = s.drop_first();
        lemma_trimmed_start(rest);
        assert forall|c: char| #[trigger] trimmed_start(s).contains(c) implies s.contains(c) by {
            let k = choose|k: int| 0 <= k < rest.len() && rest[k] == c;
            assert(rest.contains(c));
            assert(s[k + 1] == c);
        }
    }
}

proof fn lemma_trimmed_end(s: Seq<char>)
    ensures
        trimmed_end(s).len() > 0 ==> !is_white(trimmed_end(s).last()) && trimmed_end(s)[0] == s[0],
        forall|c: char| #[trigger] trimmed_end(s).contains(c) ==> s.contains(c),
    decreases s.len(),
{
    if s.len() > 0 && is_white(s.last()) {
        let rest = s.drop_last();
        lemma_trimmed_end(rest);
        assert forall|c: char| #[trigger] trimmed_end(s).contains(c) implies s.contains(c) by {
            assert(rest.contains(c));
            let k = choose|k: int| 0 <= k < rest.len() && rest[k] == c;
            assert(s[k] == c);
        }
    }
}

/// What an address names are names.
pub proof fn law_named_parts_are_names(url: Seq<char>)
    ensures
        named_repository(url) matches Some((owner, repo)) ==> is_name(owner) && is_name(repo),
{
    if let Some((owner, repo)) = named_repository(url) {
        let path = github_path(url)->0;
        let rest = after_first(path, '/')->0;
        let (a, b) = (before_first(path, '/'), before_first(rest, '/'));
        lemma_before_first(path, '/');
        lemma_before_first(rest, '/');
        lemma_trimmed_start(a);
        lemma_trimmed_start(b);
        lemma_trimmed_end(trimmed_start(a));
        lemma_trimmed_end(trimmed_start(b));
    }
}

proof fn lemma_split(a: Seq<char>, b: Seq<char>, c: char)
    requires
        !a.contains(c),
    ensures
        before_first(a + seq![c] + b, c) == a,
        after_first(a + seq![c] + b, c) == Some(b),
    decreases a.len(),
{
    let s = a + seq![c] + b;
    if a.len() == 0 {
        assert(s[0] == c);
        assert(s.drop_first() =~= b);
        assert(before_first(s, c) =~= a);
    } else {
        assert(a.contains(a[0]));
        let rest = a.drop_first();
        assert(!rest.contains(c)) by {
            if rest.contains(c) {
                let k = choose|k: int| 0 <= k < rest.len() && rest[k] == c;
                assert(a[k + 1] == c);
            }
        }
        lemma_split(rest, b, c);
        assert(s.drop_first() =~= rest + seq![c] + b);
        assert(before_first(s, c) =~= a);
    }
}

proof fn lemma_no_slash(s: Seq<char>, c: char)
    requires
        !s.contains(c),
    ensures
        before_first(s, c) == s,
    decreases s.len(),
{
    if s.len() > 0 {
        assert(s.contains(s[0]));
        let rest = s.drop_first();
        assert(!rest.contains(c)) by {
            if rest.contains(c) {
                let k = choose|k: int| 0 <= k < rest.len() && rest[k] == c;
                assert(s[k + 1] == c);
            }
        }
        lemma_no_slash(rest, c);
        assert(before_first(s, c) =~= s);
    }
}

/// The plain address of a repository names that repository.
pub proof fn law_plain_address_names_repository(owner: Seq<char>, repo: Seq<char>)
    requires
        is_name(owner),
        is_name(repo),
    ensures
        named_repository(repository_address(owner, repo)) == Some((owner, repo)),
{
    reveal_strlit("https://github.com/");
    reveal_strlit("/");
    let prefix = "https://github.com/"@;
    let url = repository_address(owner, repo);
    assert("/"@ =~= seq!['/']);
    assert(url.last() == repo.last());
    assert(repo.contains(repo.last()));
    assert(without_trailing(url, '/') == url);
    let path = owner + seq!['/'] + repo;
    assert(url =~= prefix + path);
    assert(url.take(prefix.len() as int) =~= prefix);
    assert(url.skip(prefix.len() as int) =~= path);
    lemma_split(owner, repo, '/');
    lemma_no_slash(repo, '/');
    assert(trimmed(owner) == owner);
    assert(trimmed(repo) == repo);
}

/// To sanitize an address twice is to sanitize it once.
pub proof fn law_sanitizing_again_changes_nothing(url: Seq<char>)
    ensures
        named_repository(url) matches Some((owner, repo)) ==> named_repository(
            repository_address(owner, repo),
        ) == Some((owner, repo)),
{
    if let Some((owner, repo)) = named_repository(url) {
        law_named_parts_are_names(url);
        law_plain_address_names_repository(owner, repo);
    }
}

/// The pages of closed issues, a hundred to a page, are listed at the challenge repository,
/// each under its number.
pub proof fn law_page_address(page: nat, other: nat)
    ensures
        issues_page_address(page)
            == "https://api.github.com/repos/zanfranceschi/rinha-de-backend-2026"@
            + "/issues?state=closed&per_page=100&page="@ + decimal(page),
        issues_page_address(page) == issues_page_address(other) ==> page == other,
{
    lemma_challenge_api();
    let head = "https://api.github.com/repos/zanfranceschi/rinha-de-backend-2026"@
        + "/issues?state=closed&per_page=100&page="@;
    assert(issues_page_address(page) =~= head + decimal(page));
    assert(issues_page_address(other) =~= head + decimal(other));
    if issues_page_address(page) == issues_page_address(other) {
        assert(decimal(page) =~= (head + decimal(page)).skip(head.len() as int));
        assert(decimal(other) =~= (head + decimal(other)).skip(head.len() as int));
        law_decimal_states_the_number(page);
        law_decimal_states_the_number(other);
    }
}

/// The comments on an issue are listed at the challenge repository, under the number of the
/// issue.
pub proof fn law_comments_address(number: nat)
    ensures
        comments_address(number)
            == "https://api.github.com/repos/zanfranceschi/rinha-de-backend-2026"@ + "/issues/"@
            + decimal(number) + "/comments?per_page=100"@,
{
    lemma_challenge_api();
}

/// Participants are registered in the challenge repository, each under their own name.
pub proof fn law_registry_address(username: Seq<char>, other: Seq<char>)
    ensures
        registry_address(username)
            == "https://raw.githubusercontent.com/zanfranceschi/rinha-de-backend-2026"@
            + "/main/participants/"@ + username + ".json"@,
        registry_address(username) == registry_address(other) ==> username == other,
{
    reveal_strlit("https://raw.githubusercontent.com/");
    reveal_strlit("zanfranceschi");
    reveal_strlit("/");
    reveal_strlit("rinha-de-backend-2026");
    reveal_strlit("main");
    reveal_strlit("/participants/");
    reveal_strlit("https://raw.githubusercontent.com/zanfranceschi/rinha-de-backend-2026");
    reveal_strlit("/main/participants/");
    let root = "https://raw.githubusercontent.com/zanfranceschi/rinha-de-backend-2026"@;
    assert("https://raw.githubusercontent.com/"@ + OWNER@ + "/"@ + REPO@ =~= root);
    assert("/"@ + MAIN_BRANCH@ + "/participants/"@ =~= "/main/participants/"@);
    let head = root + "/main/participants/"@;
    assert(registry_address(username) =~= head + username + ".json"@);
    assert(registry_address(other) =~= head + other + ".json"@);
    if registry_address(username) == registry_address(other) {
        let line = registry_address(username);
        assert(username =~= line.subrange(head.len() as int, line.len() - ".json"@.len()));
        assert(other =~= line.subrange(head.len() as int, line.len() - ".json"@.len()));
    }
}

/// A submission describes itself on its own branch of the repository.
pub proof fn law_info_address(owner: Seq<char>, repo: Seq<char>)
    ensures
        info_address(owner, repo) == "https://raw.githubusercontent.com/"@ + owner + "/"@ + repo
            + "/submission/info.json"@,
        repository_address(owner, repo) == "https://github.com/"@ + owner + "/"@ + repo,
{
    reveal_strlit("/");
    reveal_strlit("submission");
    reveal_strlit("/info.json");
    reveal_strlit("/submission/info.json");
    assert("/"@ + SUBMISSION_BRANCH@ + "/info.json"@ =~= "/submission/info.json"@);
    let head = "https://raw.githubusercontent.com/"@ + owner + "/"@ + repo;
    assert(head + "/"@ + SUBMISSION_BRANCH@ + "/info.json"@ =~= head + "/submission/info.json"@);
}

proof fn lemma_challenge_api()
    ensures
        "https://api.github.com/repos/"@ + OWNER@ + "/"@ + REPO@
            == "https://api.github.com/repos/zanfranceschi/rinha-de-backend-2026"@,
{
    reveal_strlit("https://api.github.com/repos/");
    reveal_strlit("zanfranceschi");
    reveal_strlit("/");
    reveal_strlit("rinha-de-backend-2026");
    reveal_strlit("https://api.github.com/repos/zanfranceschi/rinha-de-backend-2026");
    assert("https://api.github.com/repos/"@ + OWNER@ + "/"@ + REPO@
        =~= "https://api.github.com/repos/zanfranceschi/rinha-de-backend-2026"@);
}

proof fn lemma_trailing_of_end(a: Seq<char>, b: Seq<char>, c: char)
    requires
        a.len() > 0,
        a.last() != c,
    ensures
        without_trailing(a + b, c) == a + without_trailing(b, c),
    decreases b.len(),
{
    let s = a + b;
    if b.len() == 0 {
        assert(s =~= a);
        assert(a + without_trailing(b, c) =~= a);
    } else {
        assert(s.last() == b.last());
        if b.last() == c {
            lemma_trailing_of_end(a, b.drop_last(), c);
            assert(s.drop_last() =~= a + b.drop_last());
        }
    }
}

proof fn lemma_trim_around(before: Seq<char>, name: Seq<char>, after: Seq<char>)
    requires
        all_white(before),
        all_white(after),
        name.len() > 0,
        !is_white(name[0]),
        !is_white(name.last()),
    ensures
        trimmed(before + name + after) == name,
    decreases before.len() + after.len(),
{
    let s = before + name + after;
    if before.len() > 0 {
        assert(is_white(before[0]));
        let rest = before.drop_first();
        assert forall|i: int| 0 <= i < rest.len() implies is_white(#[trigger] rest[i]) by {
            assert(is_white(before[i + 1]));
        }
        assert(s.drop_first() =~= rest + name + after);
        lemma_trim_around(rest, name, after);
    } else {
        assert(s =~= name + after);
        assert(s[0] == name[0]);
        assert(trimmed_start(s) == s);
        lemma_trim_after(name, after);
    }
}

proof fn lemma_trim_after(name: Seq<char>, after: Seq<char>)
    requires
        all_white(after),
        name.len() > 0,
        !is_white(name.last()),
    ensures
        trimmed_end(name + after) == name,
    decreases after.len(),
{
    let s = name + after;
    if after.len() > 0 {
        assert(is_white(after[after.len() - 1]));
        assert(s.last() == after.last());
        let rest = after.drop_last();
        assert forall|i: int| 0 <= i < rest.len() implies is_white(#[trigger] rest[i]) by {
            assert(is_white(after[i]));
        }
        assert(s.drop_last() =~= name + rest);
        lemma_trim_after(name, rest);
    } else {
        assert(s =~= name);
    }
}

proof fn lemma_no_slash_around(before: Seq<char>, name: Seq<char>, after: Seq<char>)
    requires
        all_white(before),
        all_white(after),
        !name.contains('/'),
    ensures
        !(before + name + after).contains('/'),
{
    let s = before + name + after;
    if s.contains('/') {
        let k = choose|k: int| 0 <= k < s.len() && s[k] == '/';
        if k < before.len() {
            assert(is_white(before[k]));
        } else if k < before.len() + name.len() {
            assert(name[k - before.len()] == '/');
        } else {
            assert(is_white(after[k - before.len() - name.len()]));
        }
    }
}

/// An address on GitHub names the first two parts of its path, under either scheme,
/// whatever white space stands around them and whatever path or slashes follow.
pub proof fn law_first_two_parts_are_named(
    secure: bool,
    a: Seq<char>,
    owner: Seq<char>,
    b: Seq<char>,
    c: Seq<char>,
    repo: Seq<char>,
    d: Seq<char>,
    rest: Seq<char>,
)
    requires
        is_name(owner),
        is_name(repo),
        all_white(a),
        all_white(b),
        all_white(c),
        all_white(d),
        rest.len() > 0 ==> rest[0] == '/',
    ensures
        named_repository(
            (if secure {
                "https://github.com/"@
            } else {
                "http://github.com/"@
            }) + ((a + owner + b) + seq!['/'] + ((c + repo + d) + rest)),
        ) == Some((owner, repo)),
{
    reveal_strlit("https://github.com/");
    reveal_strlit("http://github.com/");
    let prefix = if secure {
        "https://github.com/"@
    } else {
        "http://github.com/"@
    };
    let (first, second) = (a + owner + b, c + repo + d);
    let cut = without_trailing(rest, '/');
    let start = prefix + (first + seq!['/'] + second);
    let url = prefix + (first + seq!['/'] + (second + rest));
    assert(url =~= start + rest);
    lemma_no_slash_around(a, owner, b);
    lemma_no_slash_around(c, repo, d);
    assert(start.last() == second.last());
    assert(second.contains(second.last()));
    lemma_trailing_of_end(start, rest, '/');
    let address = without_trailing(url, '/');
    let tail = second + cut;
    let path = first + seq!['/'] + tail;
    assert(address =~= prefix + path);
    assert(address.take(prefix.len() as int) =~= prefix);
    assert(address.skip(prefix.len() as int) =~= path);
    if !secure {
        assert(address[4] == ':');
        assert("https://github.com/"@[4] == 's');
        if begins_with(address, "https://github.com/"@) {
            assert(address.take("https://github.com/"@.len() as int)[4] == 's');
        }
    }
    assert(github_path(url) == Some(path));
    lemma_split(first, tail, '/');
    law_only_the_trailing_run_is_cut(rest, '/');
    if cut.len() == 0 {
        assert(tail =~= second);
        lemma_no_slash(second, '/');
    } else {
        assert(cut[0] == '/');
        assert(tail =~= second + seq!['/'] + cut.drop_first());
        lemma_split(second, cut.drop_first(), '/');
    }
    lemma_trim_around(a, owner, b);
    lemma_trim_around(c, repo, d);
}

/// Only addresses on GitHub name a repository.
pub proof fn law_only_github_is_named(url: Seq<char>)
    requires
        named_repository(url) is Some,
    ensures
        begins_with(url, "https://github.com/"@) || begins_with(url, "http://github.com/"@),
{
    let address = without_trailing(url, '/');
    law_only_the_trailing_run_is_cut(url, '/');
    assert(url.take(address.len() as int).take("https://github.com/"@.len() as int)
        =~= url.take("https://github.com/"@.len() as int)
        || address.len() < "https://github.com/"@.len());
    assert(url.take(address.len() as int).take("http://github.com/"@.len() as int)
        =~= url.take("http://github.com/"@.len() as int)
        || address.len() < "http://github.com/"@.len());
}

/// The link that is found mentions the domain and no link before it does; where none is
/// found, none does.
pub proof fn law_first_link_is_found(links: Seq<String>, domain: Seq<char>)
    ensures
        match link_with(links, domain) {
            Some(link) => exists|k: int|
                0 <= k < links.len() && #[trigger] links[k] == link && contains_text(link@, domain)
                    && forall|j: int|
                    0 <= j < k ==> !contains_text((#[trigger] links[j])@, domain),
            None => forall|j: int|
                0 <= j < links.len() ==> !contains_text((#[trigger] links[j])@, domain),
        },
    decreases links.len(),
{
    if links.len() > 0 && !contains_text(links[0]@, domain) {
        let rest = links.skip(1);
        law_first_link_is_found(rest, domain);
        match link_with(rest, domain) {
            Some(link) => {
                let k = choose|k: int|
                    0 <= k < rest.len() && #[trigger] rest[k] == link && contains_text(
                        link@,
                        domain,
                    ) && forall|j: int|
                        0 <= j < k ==> !contains_text((#[trigger] rest[j])@, domain);
                assert(links[k + 1] == link);
                assert forall|j: int| 0 <= j < k + 1 implies !contains_text(
                    (#[trigger] links[j])@,
                    domain,
                ) by {
                    if j > 0 {
                        assert(rest[j - 1] == links[j]);
                    }
                }
            },
            None => {
                assert forall|j: int| 0 <= j < links.len() implies !contains_text(
                    (#[trigger] links[j])@,
                    domain,
                ) by {
                    if j > 0 {
                        assert(rest[j - 1] == links[j]);
                    }
                }
            },
        }
    } else if links.len() > 0 {
        assert(links[0] == link_with(links, domain)->0);
    }
}

proof fn lemma_regroup(
    prefix: Seq<char>,
    first: Seq<char>,
    second: Seq<char>,
    more: Seq<char>,
    run: Seq<char>,
)
    ensures
        (prefix + (first + seq!['/'] + (second + more))) + run == prefix + first + seq!['/']
            + second + (more + run),
{
    assert((prefix + (first + seq!['/'] + (second + more))) + run =~= prefix + first + seq!['/']
        + second + (more + run));
}

/// What an address names stands in it: after the scheme and the host come two parts with a
/// slash between them, and the names are these parts without the white space around them.
pub proof fn law_named_parts_stand_in_the_address(url: Seq<char>) -> (parts: (
    Seq<char>,
    Seq<char>,
    Seq<char>,
))
    requires
        named_repository(url) is Some,
    ensures
        ({
            let (first, second, rest) = parts;
            &&& url == "https://github.com/"@ + first + seq!['/'] + second + rest || url
                == "http://github.com/"@ + first + seq!['/'] + second + rest
            &&& !first.contains('/') && !second.contains('/')
            &&& rest.len() > 0 ==> rest[0] == '/'
            &&& named_repository(url) == Some((trimmed(first), trimmed(second)))
        }),
{
    let address = without_trailing(url, '/');
    let secure = begins_with(address, "https://github.com/"@);
    let prefix = if secure {
        "https://github.com/"@
    } else {
        "http://github.com/"@
    };
    law_only_the_trailing_run_is_cut(url, '/');
    let run = url.skip(address.len() as int);
    assert(url =~= address + run);
    let path = github_path(url)->0;
    assert(address =~= prefix + path);
    law_cut_at_first(path, '/');
    let first = before_first(path, '/');
    let tail = after_first(path, '/')->0;
    law_cut_at_first(tail, '/');
    let second = before_first(tail, '/');
    let more = if tail.contains('/') {
        seq!['/'] + after_first(tail, '/')->0
    } else {
        Seq::empty()
    };
    assert(tail =~= second + more);
    let rest = more + run;
    if more.len() == 0 && run.len() > 0 {
        assert(rest[0] == url[address.len() as int]);
    }
    lemma_regroup(prefix, first, second, more, run);
    assert(url == prefix + first + seq!['/'] + second + rest);
    (first, second, rest)
}

} // verus!
