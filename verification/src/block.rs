//! Finding the fenced JSON block in the text of a comment.

use crate::model::AppError;
use crate::text::{all_white, is_white, opt_text, stands_at};
use vstd::prelude::*;

verus! {

/// What a block looks like: a fence marked as JSON, an object in braces, a fence.
pub const JSON_BLOCK: &'static str = "(?s)```json\\s*(\\{.*?\\})\\s*```";

/// The fence that begins a block.
pub const OPENING_FENCE: &'static str = "```json";

/// The fence that ends a block.
pub const CLOSING_FENCE: &'static str = "```";

/// The positions from `from` to `to`, without `to`, hold white space only.
pub open spec fn white_between(s: Seq<char>, from: int, to: int) -> bool {
    from <= to && forall|i: int| from <= i < to ==> is_white(#[trigger] s[i])
}

/// An opening fence stands at `start`, and the next character after it that is no white
/// space is the brace at `open`.
pub open spec fn opens_at(s: Seq<char>, start: int, open: int) -> bool {
    &&& stands_at(s, OPENING_FENCE@, start)
    &&& white_between(s, start + OPENING_FENCE@.len(), open)
    &&& open < s.len()
    &&& s[open] == '{'
}

/// A brace closes at `close`, and after it and white space a closing fence stands.
pub open spec fn closes_at(s: Seq<char>, close: int) -> bool {
    &&& 0 <= close < s.len()
    &&& s[close] == '}'
    &&& exists|fence: int|
        white_between(s, close + 1, fence) && #[trigger] stands_at(s, CLOSING_FENCE@, fence)
}

/// A block whose fence stands at `start` holds the text from `open` to `close`.
pub open spec fn block_at(s: Seq<char>, start: int, open: int, close: int) -> bool {
    opens_at(s, start, open) && open < close && closes_at(s, close)
}

/// The block is the first in the text, and it ends as early as it can.
pub open spec fn first_block(s: Seq<char>, start: int, open: int, close: int) -> bool {
    &&& block_at(s, start, open, close)
    &&& forall|other_start: int, other_open: int, other_close: int| #[trigger]
        block_at(s, other_start, other_open, other_close) ==> start < other_start || (start
            == other_start && close <= other_close)
}

/// The text in the first block of `s`, with its braces.
pub open spec fn json_block(s: Seq<char>) -> Option<Seq<char>> {
    if exists|start: int, open: int, close: int| first_block(s, start, open, close) {
        let (start, open, close) = choose|start: int, open: int, close: int|
            first_block(s, start, open, close);
        Some(s.subrange(open, close + 1))
    } else {
        None
    }
}

/// Compiles a pattern (`Regex::new`), searches a text for its first match
/// (`Regex::captures`) and returns what its first group holds (`Captures::get`), or the
/// message of the error that the pattern gives.
///
/// It is claimed of the one pattern for blocks that it is valid, and of its group that
/// it is the text of the first block: the search finds the leftmost match, `.` stands for
/// any character under `(?s)`, `\s` for the characters with the property White_Space,
/// `*?` for as few characters as possible.
#[verifier::external_body]
fn first_group(pattern: &str, haystack: &str) -> (found: Result<Option<String>, String>)
    requires
        pattern@ == JSON_BLOCK@,
    ensures
        found is Ok,
        opt_text(found->Ok_0) == json_block(haystack@),
{
    let regex = regex::Regex::new(pattern).map_err(|error| error.to_string())?;
    let captures = regex.captures(haystack);
    let group = captures.and_then(|captures| captures.get(1));
    Ok(group.map(|group| group.as_str().to_owned()))
}

/// The text in the first block of a comment.
pub fn find_json_block(body: &str) -> (found: Result<Option<String>, AppError>)
    ensures
        found is Ok,
        opt_text(found->Ok_0) == json_block(body@),
{
    match first_group(JSON_BLOCK, body) {
        Ok(block) => Ok(block),
        Err(message) => Err(AppError::Internal(message)),
    }
}

/// Where a block opens is settled by where its fence stands.
proof fn lemma_same_open(s: Seq<char>, start: int, a: int, b: int)
    requires
        opens_at(s, start, a),
        opens_at(s, start, b),
    ensures
        a == b,
{
    if a < b {
        assert(is_white(s[a]));
    } else if b < a {
        assert(is_white(s[b]));
    }
}

/// A text has at most one first block: whatever is one is what is found.
pub proof fn law_block_is_unique(s: Seq<char>, start: int, open: int, close: int)
    requires
        first_block(s, start, open, close),
    ensures
        json_block(s) == Some(s.subrange(open, close + 1)),
{
    let (p, b, e) = choose|start: int, open: int, close: int| first_block(s, start, open, close);
    assert(first_block(s, p, b, e));
    assert(block_at(s, start, open, close));
    assert(block_at(s, p, b, e));
    lemma_same_open(s, start, open, b);
}

/// Wherever there is a block, one is found.
pub proof fn law_block_is_found(s: Seq<char>, start: int, open: int, close: int)
    requires
        block_at(s, start, open, close),
    ensures
        json_block(s) is Some,
    decreases start, close,
{
    if !first_block(s, start, open, close) {
        let (p, b, e) = choose|p: int, b: int, e: int| #[trigger]
            block_at(s, p, b, e) && !(start < p || (start == p && close <= e));
        law_block_is_found(s, p, b, e);
    }
}

/// What is found stands between braces, after an opening fence.
pub proof fn law_block_has_braces(s: Seq<char>)
    ensures
        json_block(s) matches Some(block) ==> {
            &&& block.len() >= 2
            &&& block[0] == '{'
            &&& block.last() == '}'
            &&& crate::text::contains_text(s, OPENING_FENCE@)
        },
{
    if json_block(s) is Some {
        let (start, open, close) = choose|start: int, open: int, close: int|
            first_block(s, start, open, close);
        assert(stands_at(s, OPENING_FENCE@, start));
    }
}

/// What a comment holds between its first fence, marked as JSON, and the next one is found,
/// whatever stands before the fence, around the braces and after the block, as long as
/// neither the beginning nor the text in the braces holds a backtick.
pub proof fn law_fenced_object_is_found(
    before: Seq<char>,
    a: Seq<char>,
    inner: Seq<char>,
    b: Seq<char>,
    after: Seq<char>,
)
    requires
        !before.contains('`'),
        !inner.contains('`'),
        all_white(a),
        all_white(b),
    ensures
        json_block(
            before + "```json"@ + a + (seq!['{'] + inner + seq!['}']) + b + "```"@ + after,
        ) == Some(seq!['{'] + inner + seq!['}']),
{
    reveal_strlit("```json");
    reveal_strlit("```");
    let object = seq!['{'] + inner + seq!['}'];
    let s = before + "```json"@ + a + object + b + "```"@ + after;
    let start = before.len() as int;
    let open = start + 7 + a.len();
    let close = open + inner.len() + 1;
    let fence = close + 1 + b.len();
    assert(s.subrange(start, start + 7) =~= "```json"@);
    assert(s.subrange(open, close + 1) =~= object);
    assert(s.subrange(fence, fence + 3) =~= "```"@);
    assert(s[open] == object[0] && s[close] == object[(inner.len() + 1) as int]);
    assert(white_between(s, start + 7, open)) by {
        assert forall|i: int| start + 7 <= i < open implies is_white(#[trigger] s[i]) by {
            assert(s[i] == a[i - start - 7]);
        }
    }
    assert(white_between(s, close + 1, fence)) by {
        assert forall|i: int| close + 1 <= i < fence implies is_white(#[trigger] s[i]) by {
            assert(s[i] == b[i - close - 1]);
        }
    }
    assert(stands_at(s, CLOSING_FENCE@, fence));
    assert(block_at(s, start, open, close));
    assert forall|p: int, o: int, c: int| #[trigger] block_at(s, p, o, c) implies start < p || (
    start == p && close <= c) by {
        assert(s.subrange(p, p + 7)[0] == '`');
        assert(s[p] == '`');
        if p < start {
            assert(before[p] == '`');
        } else if p == start {
            lemma_same_open(s, start, open, o);
            if c < close {
                let f = choose|f: int|
                    white_between(s, c + 1, f) && #[trigger] stands_at(s, CLOSING_FENCE@, f);
                assert(s.subrange(f, f + 3)[0] == '`');
                assert(s[f] == '`');
                if f < close {
                    assert(s[f] == inner[f - open - 1]);
                } else if f > close {
                    assert(is_white(s[close]));
                }
            }
        }
    }
    assert(first_block(s, start, open, close));
    law_block_is_unique(s, start, open, close);
}

} // verus!
