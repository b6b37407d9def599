//! Text as a sequence of characters: searching, trimming and joining it, and writing
//! numbers in decimal.

use vstd::prelude::*;

verus! {

/// Appends one character to a string (`String::push` of the standard library).
pub assume_specification[ String::push ](s: &mut String, c: char)
    ensures
        final(s)@ == old(s)@.push(c),
;

/// What a list of strings says, each by its characters.
pub open spec fn texts(list: Seq<String>) -> Seq<Seq<char>> {
    Seq::new(list.len(), |i: int| list[i]@)
}

/// What an optional string says.
pub open spec fn opt_text(text: Option<String>) -> Option<Seq<char>> {
    match text {
        Some(text) => Some(text@),
        None => None,
    }
}

/// `s` begins with `prefix`.
pub open spec fn begins_with(s: Seq<char>, prefix: Seq<char>) -> bool {
    prefix.len() <= s.len() && s.take(prefix.len() as int) == prefix
}

/// `s` ends with `suffix`.
pub open spec fn ends_with(s: Seq<char>, suffix: Seq<char>) -> bool {
    suffix.len() <= s.len() && s.skip(s.len() - suffix.len()) == suffix
}

/// `needle` stands in `s` at position `i`.
pub open spec fn stands_at(s: Seq<char>, needle: Seq<char>, i: int) -> bool {
    0 <= i && i + needle.len() <= s.len() && s.subrange(i, i + needle.len()) == needle
}

/// `needle` stands somewhere in `s`.
pub open spec fn contains_text(s: Seq<char>, needle: Seq<char>) -> bool {
    exists|i: int| stands_at(s, needle, i)
}

/// The characters with the Unicode property White_Space.
pub open spec fn is_white(c: char) -> bool {
    ||| '\u{9}' <= c <= '\u{D}'
    ||| c == '\u{20}'
    ||| c == '\u{85}'
    ||| c == '\u{A0}'
    ||| c == '\u{1680}'
    ||| '\u{2000}' <= c <= '\u{200A}'
    ||| c == '\u{2028}'
    ||| c == '\u{2029}'
    ||| c == '\u{202F}'
    ||| c == '\u{205F}'
    ||| c == '\u{3000}'
}

/// `s` without the white space at its start.
pub open spec fn trimmed_start(s: Seq<char>) -> Seq<char>
    decreases s.len(),
{
    if s.len() > 0 && is_white(s[0]) {
        trimmed_start(s.drop_first())
    } else {
        s
    }
}

/// `s` without the white space at its end.
pub open spec fn trimmed_end(s: Seq<char>) -> Seq<char>
    decreases s.len(),
{
    if s.len() > 0 && is_white(s.last()) {
        trimmed_end(s.drop_last())
    } else {
        s
    }
}

/// `s` without the white space around it.
pub open spec fn trimmed(s: Seq<char>) -> Seq<char> {
    trimmed_end(trimmed_start(s))
}

/// `s` without the run of `c` at its end.
pub open spec fn without_trailing(s: Seq<char>, c: char) -> Seq<char>
    decreases s.len(),
{
    if s.len() > 0 && s.last() == c {
        without_trailing(s.drop_last(), c)
    } else {
        s
    }
}

/// The part of `s` before the first `c`; all of `s` where there is none.
pub open spec fn before_first(s: Seq<char>, c: char) -> Seq<char>
    decreases s.len(),
{
    if s.len() == 0 || s[0] == c {
        Seq::empty()
    } else {
        seq![s[0]] + before_first(s.drop_first(), c)
    }
}

/// The part of `s` after the first `c`, where there is one.
pub open spec fn after_first(s: Seq<char>, c: char) -> Option<Seq<char>>
    decreases s.len(),
{
    if s.len() == 0 {
        None
    } else if s[0] == c {
        Some(s.drop_first())
    } else {
        after_first(s.drop_first(), c)
    }
}

/// The items of `list` with `sep` between them.
pub open spec fn joined(list: Seq<Seq<char>>, sep: Seq<char>) -> Seq<char>
    decreases list.len(),
{
    if list.len() == 0 {
        Seq::empty()
    } else if list.len() == 1 {
        list[0]
    } else {
        joined(list.drop_last(), sep) + sep + list.last()
    }
}

/// The character of the decimal digit `d`.
pub open spec fn digit_char(d: nat) -> char {
    if d == 0 {
        '0'
    } else if d == 1 {
        '1'
    } else if d == 2 {
        '2'
    } else if d == 3 {
        '3'
    } else if d == 4 {
        '4'
    } else if d == 5 {
        '5'
    } else if d == 6 {
        '6'
    } else if d == 7 {
        '7'
    } else if d == 8 {
        '8'
    } else {
        '9'
    }
}

/// `n` in decimal, without leading zeros.
pub open spec fn decimal(n: nat) -> Seq<char>
    decreases n,
{
    if n < 10 {
        seq![digit_char(n)]
    } else {
        decimal(n / 10).push(digit_char(n % 10))
    }
}

/// `n` in decimal, with a minus sign where it is negative.
pub open spec fn signed_decimal(n: int) -> Seq<char> {
    if n < 0 {
        "-"@ + decimal((-n) as nat)
    } else {
        decimal(n as nat)
    }
}

/// The characters of `s`.
pub fn chars_of(s: &str) -> (chars: Vec<char>)
    ensures
        chars@ == s@,
{
    let mut chars: Vec<char> = Vec::new();
    for c in it: s.chars()
        invariant
            chars@ == it.seq().take(it.index() as int),
            it.seq() == s@,
    {
        chars.push(c);
    }
    chars
}

/// The string made of the characters at positions `from` to `to`, without `to`.
pub fn string_between(chars: &Vec<char>, from: usize, to: usize) -> (s: String)
    requires
        from <= to <= chars@.len(),
    ensures
        s@ == chars@.subrange(from as int, to as int),
{
    let mut s = String::new();
    let mut i: usize = from;
    while i < to
        invariant
            from <= i <= to <= chars@.len(),
            s@ == chars@.subrange(from as int, i as int),
        decreases to - i,
    {
        s.push(chars[i]);
        i += 1;
        assert(chars@.subrange(from as int, i as int) == chars@.subrange(
            from as int,
            i - 1,
        ).push(chars@[i - 1]));
    }
    s
}

/// Whether `needle` stands in `chars` at position `at`.
pub fn matches_at(chars: &Vec<char>, needle: &Vec<char>, at: usize) -> (found: bool)
    ensures
        found == stands_at(chars@, needle@, at as int),
{
    if at > chars.len() || needle.len() > chars.len() - at {
        return false;
    }
    let size: usize = chars.len();
    let mut k: usize = 0;
    while k < needle.len()
        invariant
            k <= needle@.len(),
            at + needle@.len() <= chars@.len() == size,
            forall|j: int| 0 <= j < k ==> chars@[at + j] == needle@[j],
        decreases needle@.len() - k,
    {
        if chars[at + k] != needle[k] {
            assert(chars@.subrange(at as int, at + needle@.len())[k as int] != needle@[k as int]);
            return false;
        }
        k += 1;
    }
    assert(chars@.subrange(at as int, at + needle@.len()) =~= needle@);
    true
}

/// Whether `needle` stands somewhere in `s`.
pub fn contains(s: &str, needle: &str) -> (found: bool)
    ensures
        found == contains_text(s@, needle@),
{
    let chars = chars_of(s);
    let wanted = chars_of(needle);
    let mut i: usize = 0;
    while i < chars.len()
        invariant
            i <= chars@.len(),
            chars@ == s@,
            wanted@ == needle@,
            forall|j: int| 0 <= j < i ==> !stands_at(s@, needle@, j),
        decreases chars@.len() - i,
    {
        if matches_at(&chars, &wanted, i) {
            return true;
        }
        i += 1;
    }
    let at_end = matches_at(&chars, &wanted, i);
    assert(!at_end ==> forall|j: int| !stands_at(s@, needle@, j));
    at_end
}

/// Whether two strings hold the same characters.
pub fn same_text(a: &str, b: &str) -> (same: bool)
    ensures
        same == (a@ == b@),
{
    let left = chars_of(a);
    let right = chars_of(b);
    if left.len() != right.len() {
        return false;
    }
    let same = matches_at(&left, &right, 0);
    assert(left@.subrange(0, left@.len() as int) == left@);
    same
}

/// Whether `c` is white space.
pub fn is_whitespace(c: char) -> (white: bool)
    ensures
        white == is_white(c),
{
    ('\u{9}' <= c && c <= '\u{D}') || c == '\u{20}' || c == '\u{85}' || c == '\u{A0}' || c
        == '\u{1680}' || ('\u{2000}' <= c && c <= '\u{200A}') || c == '\u{2028}' || c == '\u{2029}'
        || c == '\u{202F}' || c == '\u{205F}' || c == '\u{3000}'
}

/// The character of a decimal digit.
pub fn char_of_digit(d: u8) -> (c: char)
    requires
        d < 10,
    ensures
        c == digit_char(d as nat),
{
    match d {
        0 => '0',
        1 => '1',
        2 => '2',
        3 => '3',
        4 => '4',
        5 => '5',
        6 => '6',
        7 => '7',
        8 => '8',
        _ => '9',
    }
}

/// `n` in decimal.
pub fn decimal_of(n: u64) -> (s: String)
    ensures
        s@ == decimal(n as nat),
    decreases n,
{
    let mut s = if n < 10 {
        String::new()
    } else {
        decimal_of(n / 10)
    };
    let d: u8 = (n % 10) as u8;
    s.push(char_of_digit(d));
    assert(n < 10 ==> s@ =~= decimal(n as nat));
    s
}

/// `n` in decimal, signed.
pub fn signed_decimal_of(n: i64) -> (s: String)
    ensures
        s@ == signed_decimal(n as int),
{
    if n < 0 {
        let size: u64 = (-(n as i128)) as u64;
        let digits = decimal_of(size);
        let mut s = String::new();
        s.append("-");
        s.append(&digits);
        assert(s@ =~= "-"@ + digits@);
        s
    } else {
        decimal_of(n as u64)
    }
}

/// The strings of `list` with `sep` between them.
pub fn join(list: &Vec<String>, sep: &str) -> (s: String)
    ensures
        s@ == joined(texts(list@), sep@),
{
    let mut s = String::new();
    let mut i: usize = 0;
    while i < list.len()
        invariant
            i <= list@.len(),
            s@ == joined(texts(list@.take(i as int)), sep@),
        decreases list@.len() - i,
    {
        let ghost before = texts(list@.take(i as int));
        let ghost after = texts(list@.take(i + 1));
        if i > 0 {
            s.append(sep);
        }
        s.append(&list[i]);
        proof {
            assert(after.drop_last() =~= before);
            assert(after.last() == list@[i as int]@);
            if i == 0 {
                assert(s@ =~= after[0]);
            }
        }
        i += 1;
    }
    assert(list@.take(i as int) == list@);
    s
}

/// Two joined lists are their items in a row, with one separator between the lists; one item
/// alone is itself, and no items are nothing.
pub proof fn law_joined_lists(a: Seq<Seq<char>>, b: Seq<Seq<char>>, sep: Seq<char>)
    ensures
        a.len() == 0 ==> joined(a, sep).len() == 0,
        a.len() == 1 ==> joined(a, sep) == a[0],
        a.len() > 0 && b.len() > 0 ==> joined(a + b, sep) == joined(a, sep) + sep + joined(b, sep),
    decreases b.len(),
{
    if a.len() > 0 && b.len() > 0 {
        let whole = a + b;
        let front = b.drop_last();
        assert(whole.drop_last() =~= a + front);
        assert(whole.last() == b.last());
        if b.len() > 1 {
            law_joined_lists(a, front, sep);
            assert(joined(whole, sep) =~= joined(a, sep) + sep + joined(b, sep));
        } else {
            assert(a + front =~= a);
            assert(joined(whole, sep) =~= joined(a, sep) + sep + joined(b, sep));
        }
    }
}

/// Where an item of a list begins in the joined list: after the items before it, and a
/// separator after each of these.
pub open spec fn offset_of(list: Seq<Seq<char>>, sep: Seq<char>, k: int) -> int
    decreases k,
{
    if k <= 0 {
        0
    } else {
        offset_of(list, sep, k - 1) + list[k - 1].len() + sep.len()
    }
}

/// Every item stands in the joined list, each at its place, and nothing comes after the last.
pub proof fn law_every_item_is_joined(list: Seq<Seq<char>>, sep: Seq<char>, k: int)
    requires
        0 <= k < list.len(),
    ensures
        stands_at(joined(list, sep), list[k], offset_of(list, sep, k)),
        joined(list, sep).len() == offset_of(list, sep, list.len() - 1) + list.last().len(),
    decreases list.len(),
{
    let whole = joined(list, sep);
    if list.len() == 1 {
        assert(whole.subrange(0, whole.len() as int) =~= list[0]);
    } else {
        let front = list.drop_last();
        let inner = joined(front, sep);
        law_every_item_is_joined(front, sep, front.len() - 1);
        lemma_same_offset(list, front, sep, front.len() - 1);
        assert(front.last() == list[list.len() - 2]);
        let at = offset_of(list, sep, k);
        if k < front.len() {
            law_every_item_is_joined(front, sep, k);
            lemma_same_offset(list, front, sep, k);
            assert(whole.subrange(at, at + list[k].len()) =~= inner.subrange(
                at,
                at + list[k].len(),
            ));
        } else {
            assert(at == inner.len() + sep.len());
            assert(whole.subrange(at, at + list[k].len()) =~= list[k]);
        }
    }
}

proof fn lemma_same_offset(list: Seq<Seq<char>>, front: Seq<Seq<char>>, sep: Seq<char>, k: int)
    requires
        front == list.drop_last(),
        k <= front.len(),
        list.len() > 0,
    ensures
        offset_of(list, sep, k) == offset_of(front, sep, k),
    decreases k,
{
    if k > 0 {
        lemma_same_offset(list, front, sep, k - 1);
    }
}

/// A text with another one in it holds that one, and only such a text does.
pub proof fn law_containing_is_standing_in(s: Seq<char>, a: Seq<char>, needle: Seq<char>, b: Seq<char>)
    ensures
        contains_text(a + needle + b, needle),
        stands_at(a + needle + b, needle, a.len() as int),
        contains_text(s, needle) ==> exists|i: int|
            0 <= i && i + needle.len() <= s.len() && s == #[trigger] s.take(i) + needle + s.skip(
                i + needle.len(),
            ),
{
    let whole = a + needle + b;
    assert(whole.subrange(a.len() as int, (a.len() + needle.len()) as int) =~= needle);
    assert(stands_at(whole, needle, a.len() as int));
    if contains_text(s, needle) {
        let i = choose|i: int| stands_at(s, needle, i);
        assert forall|k: int| 0 <= k < needle.len() implies #[trigger] s[i + k] == needle[k] by {
            assert(s.subrange(i, i + needle.len())[k] == needle[k]);
        }
        assert(s.take(i) + needle + s.skip(i + needle.len()) =~= s) by {
            assert forall|k: int| 0 <= k < s.len() implies (s.take(i) + needle + s.skip(
                i + needle.len(),
            ))[k] == s[k] by {
                if i <= k < i + needle.len() {
                    assert(s[i + (k - i)] == needle[k - i]);
                }
            }
        }
    }
}

/// A text begins with what it is made of at its start, and ends with what it is made of at
/// its end, and with nothing else.
pub proof fn law_beginnings_and_ends(s: Seq<char>, part: Seq<char>, rest: Seq<char>)
    ensures
        begins_with(part + rest, part),
        ends_with(rest + part, part),
        begins_with(s, part) ==> s == part + s.skip(part.len() as int),
        ends_with(s, part) ==> s == s.take(s.len() - part.len()) + part,
{
    assert((part + rest).take(part.len() as int) =~= part);
    assert((rest + part).skip(rest.len() as int) =~= part);
    if begins_with(s, part) {
        assert(s =~= s.take(part.len() as int) + s.skip(part.len() as int));
    }
    if ends_with(s, part) {
        assert(s =~= s.take(s.len() - part.len()) + s.skip(s.len() - part.len()));
    }
}

/// White space only.
pub open spec fn all_white(s: Seq<char>) -> bool {
    forall|i: int| 0 <= i < s.len() ==> is_white(#[trigger] s[i])
}

proof fn lemma_trim_start(s: Seq<char>) -> (cut: int)
    ensures
        0 <= cut <= s.len(),
        all_white(s.take(cut)),
        trimmed_start(s) == s.skip(cut),
        cut < s.len() ==> !is_white(s[cut]),
    decreases s.len(),
{
    if s.len() > 0 && is_white(s[0]) {
        let inner = lemma_trim_start(s.drop_first());
        assert(s.drop_first().skip(inner) =~= s.skip(inner + 1));
        assert forall|i: int| 0 <= i < inner + 1 implies is_white(
            #[trigger] s.take(inner + 1)[i],
        ) by {
            if i > 0 {
                assert(s.drop_first().take(inner)[i - 1] == s[i]);
            }
        }
        inner + 1
    } else {
        assert(s.skip(0) =~= s);
        0
    }
}

proof fn lemma_trim_end(s: Seq<char>) -> (cut: int)
    ensures
        0 <= cut <= s.len(),
        all_white(s.skip(cut)),
        trimmed_end(s) == s.take(cut),
        cut > 0 ==> !is_white(s[cut - 1]),
    decreases s.len(),
{
    if s.len() > 0 && is_white(s.last()) {
        let inner = lemma_trim_end(s.drop_last());
        assert(s.drop_last().take(inner) =~= s.take(inner));
        assert forall|i: int| 0 <= i < s.len() - inner implies is_white(
            #[trigger] s.skip(inner)[i],
        ) by {
            if i < s.len() - inner - 1 {
                assert(s.drop_last().skip(inner)[i] == s[inner + i]);
            }
        }
        inner
    } else {
        assert(s.take(s.len() as int) =~= s);
        s.len() as int
    }
}

/// Only white space is trimmed away, and all of it on both sides.
pub proof fn law_only_white_space_is_trimmed(s: Seq<char>) -> (cut: (int, int))
    ensures
        0 <= cut.0 <= cut.1 <= s.len(),
        trimmed(s) == s.subrange(cut.0, cut.1),
        all_white(s.take(cut.0)),
        all_white(s.skip(cut.1)),
        trimmed(s).len() > 0 ==> !is_white(trimmed(s)[0]) && !is_white(trimmed(s).last()),
{
    let start = lemma_trim_start(s);
    let middle = s.skip(start);
    let end = lemma_trim_end(middle);
    assert(middle.take(end) =~= s.subrange(start, start + end));
    assert(s.skip(start + end) =~= middle.skip(end));
    (start, start + end)
}

/// Only the run of the character at the end is cut off, and all of it.
pub proof fn law_only_the_trailing_run_is_cut(s: Seq<char>, c: char)
    ensures
        without_trailing(s, c).len() <= s.len(),
        without_trailing(s, c) == s.take(without_trailing(s, c).len() as int),
        forall|i: int| without_trailing(s, c).len() <= i < s.len() ==> #[trigger] s[i] == c,
        without_trailing(s, c).len() > 0 ==> without_trailing(s, c).last() != c,
    decreases s.len(),
{
    if s.len() > 0 && s.last() == c {
        let front = s.drop_last();
        law_only_the_trailing_run_is_cut(front, c);
        let size = without_trailing(s, c).len();
        assert(front.take(size as int) =~= s.take(size as int));
        assert forall|i: int| size <= i < s.len() implies #[trigger] s[i] == c by {
            if i < front.len() {
                assert(front[i] == s[i]);
            }
        }
    } else {
        assert(s.take(s.len() as int) =~= s);
    }
}

/// A text is cut at the first occurrence of a character: what comes before it does not hold
/// it, and what comes after it is all the rest.
pub proof fn law_cut_at_first(s: Seq<char>, c: char)
    ensures
        !before_first(s, c).contains(c),
        s.contains(c) <==> after_first(s, c) is Some,
        s.contains(c) ==> s == before_first(s, c) + seq![c] + after_first(s, c)->0,
        !s.contains(c) ==> before_first(s, c) == s,
    decreases s.len(),
{
    if s.len() == 0 {
        assert(before_first(s, c) =~= s);
    } else if s[0] == c {
        assert(s.contains(s[0]));
        assert(s =~= before_first(s, c) + seq![c] + s.drop_first());
    } else {
        let rest = s.drop_first();
        law_cut_at_first(rest, c);
        let head = before_first(s, c);
        if s.contains(c) {
            let k = choose|k: int| 0 <= k < s.len() && s[k] == c;
            assert(rest[k - 1] == c);
        }
        if rest.contains(c) {
            let k = choose|k: int| 0 <= k < rest.len() && rest[k] == c;
            assert(s[k + 1] == c);
            assert(s =~= seq![s[0]] + rest);
            assert(s =~= head + seq![c] + after_first(s, c)->0);
        } else {
            assert(head =~= s);
        }
        if head.contains(c) {
            let k = choose|k: int| 0 <= k < head.len() && head[k] == c;
            assert(before_first(rest, c)[k - 1] == c);
        }
    }
}

/// The texts of a list are those of its strings, one for one, and an optional string is there
/// just where its text is.
pub proof fn law_texts_are_of_the_strings(list: Seq<String>, k: int, text: Option<String>)
    ensures
        texts(list).len() == list.len(),
        0 <= k < list.len() ==> texts(list)[k] == list[k]@,
        text is None <==> opt_text(text) is None,
        text is Some ==> opt_text(text) == Some(text->0@),
{
}

} // verus!
