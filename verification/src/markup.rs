//! Preparing text for the page: escaping it, and cutting it to a length.

use crate::text::{chars_of, stands_at, string_between};
use vstd::prelude::*;

verus! {

/// What stands for `c` in HTML text and attribute values.
pub open spec fn escaped_char(c: char) -> Seq<char> {
    if c == '&' {
        "&amp;"@
    } else if c == '<' {
        "&lt;"@
    } else if c == '>' {
        "&gt;"@
    } else if c == '"' {
        "&quot;"@
    } else if c == '\'' {
        "&#39;"@
    } else {
        seq![c]
    }
}

/// `s` with every character of HTML markup replaced by what stands for it.
pub open spec fn escaped(s: Seq<char>) -> Seq<char>
    decreases s.len(),
{
    if s.len() == 0 {
        Seq::empty()
    } else {
        escaped(s.drop_last()) + escaped_char(s.last())
    }
}

/// The first `max_chars` characters of `s`, with three dots where some are left out.
pub open spec fn truncated(s: Seq<char>, max_chars: nat) -> Seq<char> {
    if s.len() <= max_chars {
        s
    } else {
        s.take(max_chars as int) + "..."@
    }
}

/// Escapes text for use in HTML.
pub fn escape_html(value: &str) -> (html: String)
    ensures
        html@ == escaped(value@),
{
    let mut html = String::new();
    for c in it: value.chars()
        invariant
            it.seq() == value@,
            html@ == escaped(value@.take(it.index() as int)),
    {
        let ghost before = html@;
        match c {
            '&' => html.append("&amp;"),
            '<' => html.append("&lt;"),
            '>' => html.append("&gt;"),
            '"' => html.append("&quot;"),
            '\'' => html.append("&#39;"),
            _ => html.push(c),
        }
        proof {
            let next = value@.take(it.index() + 1);
            assert(next.drop_last() =~= value@.take(it.index() as int));
            assert(next.last() == c);
            assert(html@ =~= before + escaped_char(c));
        }
    }
    assert(value@.take(value@.len() as int) =~= value@);
    html
}

/// Cuts text to `max_chars` characters, and marks that it was cut.
pub fn truncate_with_ellipsis(value: &str, max_chars: usize) -> (text: String)
    ensures
        text@ == truncated(value@, max_chars as nat),
{
    let chars = chars_of(value);
    if chars.len() <= max_chars {
        value.to_owned()
    } else {
        let mut text = string_between(&chars, 0, max_chars);
        text.append("...");
        assert(text@ =~= value@.take(max_chars as int) + "..."@);
        text
    }
}

/// The five texts that stand for characters of markup.
pub open spec fn is_entity(s: Seq<char>) -> bool {
    s == "&amp;"@ || s == "&lt;"@ || s == "&gt;"@ || s == "&quot;"@ || s == "&#39;"@
}

/// `c` is a character of markup.
pub open spec fn is_markup(c: char) -> bool {
    c == '&' || c == '<' || c == '>' || c == '"' || c == '\''
}

proof fn lemma_entities()
    ensures
        "&amp;"@ == seq!['&', 'a', 'm', 'p', ';'],
        "&lt;"@ == seq!['&', 'l', 't', ';'],
        "&gt;"@ == seq!['&', 'g', 't', ';'],
        "&quot;"@ == seq!['&', 'q', 'u', 'o', 't', ';'],
        "&#39;"@ == seq!['&', '#', '3', '9', ';'],
{
    reveal_strlit("&amp;");
    reveal_strlit("&lt;");
    reveal_strlit("&gt;");
    reveal_strlit("&quot;");
    reveal_strlit("&#39;");
    assert("&amp;"@ =~= seq!['&', 'a', 'm', 'p', ';']);
    assert("&lt;"@ =~= seq!['&', 'l', 't', ';']);
    assert("&gt;"@ =~= seq!['&', 'g', 't', ';']);
    assert("&quot;"@ =~= seq!['&', 'q', 'u', 'o', 't', ';']);
    assert("&#39;"@ =~= seq!['&', '#', '3', '9', ';']);
}

/// Escaped text holds no markup: no brackets and no quotes, and an ampersand only where
/// it begins one of the texts that stand for a character.
pub proof fn law_escaped_text_is_inert(s: Seq<char>, i: int)
    requires
        0 <= i < escaped(s).len(),
    ensures
        is_markup(escaped(s)[i]) ==> exists|entity: Seq<char>| #[trigger]
            stands_at(escaped(s), entity, i) && is_entity(entity),
        escaped(s)[i] != '<' && escaped(s)[i] != '>' && escaped(s)[i] != '"' && escaped(s)[i]
            != '\'',
    decreases s.len(),
{
    lemma_entities();
    let front = escaped(s.drop_last());
    let code = escaped_char(s.last());
    if i < front.len() {
        law_escaped_text_is_inert(s.drop_last(), i);
        if is_markup(front[i]) {
            let entity = choose|entity: Seq<char>| #[trigger]
                stands_at(front, entity, i) && is_entity(entity);
            assert(escaped(s).subrange(i, i + entity.len()) =~= front.subrange(
                i,
                i + entity.len(),
            ));
            assert(stands_at(escaped(s), entity, i));
        }
    } else {
        assert(escaped(s)[i] == code[i - front.len()]);
        if is_markup(escaped(s)[i]) {
            assert(i == front.len());
            assert(escaped(s).subrange(i, i + code.len()) =~= code);
            assert(stands_at(escaped(s), code, i));
        }
    }
}

proof fn lemma_escaped_first(s: Seq<char>)
    requires
        s.len() > 0,
    ensures
        escaped(s) == escaped_char(s[0]) + escaped(s.drop_first()),
    decreases s.len(),
{
    if s.len() == 1 {
        assert(s.drop_first() =~= Seq::<char>::empty());
        assert(s.drop_last() =~= Seq::<char>::empty());
        assert(escaped(s.drop_first()) =~= Seq::<char>::empty());
        assert(escaped(s) =~= escaped_char(s[0]) + escaped(s.drop_first()));
    } else {
        let front = s.drop_last();
        lemma_escaped_first(front);
        assert(front.drop_first() =~= s.drop_first().drop_last());
        assert(escaped(s) =~= escaped_char(s[0]) + (escaped(s.drop_first().drop_last())
            + escaped_char(s.last())));
    }
}

/// What stands for one character does not begin what stands for another.
proof fn lemma_prefix_code(c: char, d: char)
    requires
        forall|k: int|
            0 <= k < escaped_char(c).len() && k < escaped_char(d).len() ==> #[trigger] escaped_char(
                c,
            )[k] == escaped_char(d)[k],
    ensures
        c == d,
{
    lemma_entities();
    let (x, y) = (escaped_char(c), escaped_char(d));
    assert(x.len() >= 1 && y.len() >= 1);
    assert(x[0] == y[0]);
    assert(is_markup(c) <==> x[0] == '&');
    assert(is_markup(d) <==> y[0] == '&');
    if is_markup(c) {
        assert(x.len() >= 4 && y.len() >= 4);
        assert(x[1] == y[1]);
        let first = x[1];
        assert(c == '&' <==> first == 'a');
        assert(c == '<' <==> first == 'l');
        assert(c == '>' <==> first == 'g');
        assert(c == '"' <==> first == 'q');
        assert(d == '&' <==> first == 'a');
        assert(d == '<' <==> first == 'l');
        assert(d == '>' <==> first == 'g');
        assert(d == '"' <==> first == 'q');
    }
}

/// Different texts stay different when they are escaped.
pub proof fn law_escaping_loses_nothing(a: Seq<char>, b: Seq<char>)
    requires
        escaped(a) == escaped(b),
    ensures
        a == b,
    decreases a.len(),
{
    if a.len() > 0 {
        lemma_escaped_first(a);
    }
    if b.len() > 0 {
        lemma_escaped_first(b);
    }
    if a.len() == 0 || b.len() == 0 {
        lemma_entities();
        assert(a =~= b);
    } else {
        let (x, y) = (escaped_char(a[0]), escaped_char(b[0]));
        let (p, q) = (escaped(a.drop_first()), escaped(b.drop_first()));
        let whole = escaped(a);
        assert(whole == x + p && whole == y + q);
        assert forall|k: int| 0 <= k < x.len() && k < y.len() implies x[k] == y[k] by {
            assert(whole[k] == x[k] && whole[k] == y[k]);
        }
        lemma_prefix_code(a[0], b[0]);
        assert(p =~= q) by {
            assert(p =~= whole.skip(x.len() as int));
            assert(q =~= whole.skip(x.len() as int));
        }
        law_escaping_loses_nothing(a.drop_first(), b.drop_first());
        assert(a =~= seq![a[0]] + a.drop_first());
        assert(b =~= seq![b[0]] + b.drop_first());
    }
}

/// `s` with every `c` replaced by `with`.
pub open spec fn replaced(s: Seq<char>, c: char, with: Seq<char>) -> Seq<char>
    decreases s.len(),
{
    if s.len() == 0 {
        Seq::empty()
    } else {
        replaced(s.drop_last(), c, with) + if s.last() == c {
            with
        } else {
            seq![s.last()]
        }
    }
}

proof fn lemma_replaced_parts(a: Seq<char>, b: Seq<char>, c: char, with: Seq<char>)
    ensures
        replaced(a + b, c, with) == replaced(a, c, with) + replaced(b, c, with),
    decreases b.len(),
{
    if b.len() == 0 {
        assert(a + b =~= a);
        assert(replaced(b, c, with) =~= Seq::<char>::empty());
        assert(replaced(a, c, with) + replaced(b, c, with) =~= replaced(a, c, with));
    } else {
        lemma_replaced_parts(a, b.drop_last(), c, with);
        assert((a + b).drop_last() =~= a + b.drop_last());
        assert(replaced(a + b, c, with) =~= replaced(a, c, with) + replaced(b, c, with));
    }
}

proof fn lemma_nothing_replaced(s: Seq<char>, c: char, with: Seq<char>)
    requires
        forall|i: int| 0 <= i < s.len() ==> s[i] != c,
    ensures
        replaced(s, c, with) == s,
    decreases s.len(),
{
    if s.len() > 0 {
        lemma_nothing_replaced(s.drop_last(), c, with);
        assert(s =~= s.drop_last() + seq![s.last()]);
    }
}

/// The five replacements, one after the other, the ampersand first.
pub open spec fn replaced_in_turn(s: Seq<char>) -> Seq<char> {
    let s1 = replaced(s, '&', "&amp;"@);
    let s2 = replaced(s1, '<', "&lt;"@);
    let s3 = replaced(s2, '>', "&gt;"@);
    let s4 = replaced(s3, '"', "&quot;"@);
    replaced(s4, '\'', "&#39;"@)
}

proof fn lemma_one_replaced(c: char)
    ensures
        replaced_in_turn(seq![c]) == escaped_char(c),
{
    lemma_entities();
    let s = seq![c];
    assert(s.drop_last() =~= Seq::<char>::empty());
    let s1 = replaced(s, '&', "&amp;"@);
    assert(replaced(s.drop_last(), '&', "&amp;"@) =~= Seq::<char>::empty());
    assert(s1 =~= if c == '&' {
        "&amp;"@
    } else {
        s
    });
    let s2 = replaced(s1, '<', "&lt;"@);
    if c == '<' {
        assert(replaced(s.drop_last(), '<', "&lt;"@) =~= Seq::<char>::empty());
        assert(s2 =~= "&lt;"@);
    } else {
        lemma_nothing_replaced(s1, '<', "&lt;"@);
    }
    let s3 = replaced(s2, '>', "&gt;"@);
    if c == '>' {
        assert(replaced(s.drop_last(), '>', "&gt;"@) =~= Seq::<char>::empty());
        assert(s3 =~= "&gt;"@);
    } else {
        lemma_nothing_replaced(s2, '>', "&gt;"@);
    }
    let s4 = replaced(s3, '"', "&quot;"@);
    if c == '"' {
        assert(replaced(s.drop_last(), '"', "&quot;"@) =~= Seq::<char>::empty());
        assert(s4 =~= "&quot;"@);
    } else {
        lemma_nothing_replaced(s3, '"', "&quot;"@);
    }
    if c == '\'' {
        assert(replaced(s.drop_last(), '\'', "&#39;"@) =~= Seq::<char>::empty());
        assert(replaced(s4, '\'', "&#39;"@) =~= "&#39;"@);
    } else {
        lemma_nothing_replaced(s4, '\'', "&#39;"@);
    }
}

/// Escaping is the same as replacing the five characters one after the other, as long
/// as the ampersand comes first.
pub proof fn law_escaping_is_replacing(s: Seq<char>)
    ensures
        escaped(s) == replaced_in_turn(s),
    decreases s.len(),
{
    if s.len() == 0 {
        let none = Seq::<char>::empty();
        assert(s =~= none);
        lemma_nothing_replaced(none, '&', "&amp;"@);
        lemma_nothing_replaced(none, '<', "&lt;"@);
        lemma_nothing_replaced(none, '>', "&gt;"@);
        lemma_nothing_replaced(none, '"', "&quot;"@);
        lemma_nothing_replaced(none, '\'', "&#39;"@);
    } else {
        let (a, b) = (s.drop_last(), seq![s.last()]);
        law_escaping_is_replacing(a);
        lemma_one_replaced(s.last());
        assert(s =~= a + b);
        lemma_replaced_parts(a, b, '&', "&amp;"@);
        let (a1, b1) = (replaced(a, '&', "&amp;"@), replaced(b, '&', "&amp;"@));
        lemma_replaced_parts(a1, b1, '<', "&lt;"@);
        let (a2, b2) = (replaced(a1, '<', "&lt;"@), replaced(b1, '<', "&lt;"@));
        lemma_replaced_parts(a2, b2, '>', "&gt;"@);
        let (a3, b3) = (replaced(a2, '>', "&gt;"@), replaced(b2, '>', "&gt;"@));
        lemma_replaced_parts(a3, b3, '"', "&quot;"@);
        let (a4, b4) = (replaced(a3, '"', "&quot;"@), replaced(b3, '"', "&quot;"@));
        lemma_replaced_parts(a4, b4, '\'', "&#39;"@);
    }
}

/// Text within the limit stays as it is. Text beyond it keeps its beginning, up to the
/// limit, and three dots follow.
pub proof fn law_cut_text_is_short(s: Seq<char>, max_chars: nat)
    ensures
        truncated(s, max_chars).len() <= max_chars + 3,
        s.len() <= max_chars ==> truncated(s, max_chars) == s,
        s.len() > max_chars ==> truncated(s, max_chars).take(max_chars as int) == s.take(
            max_chars as int,
        ) && truncated(s, max_chars).skip(max_chars as int) == "..."@,
{
    reveal_strlit("...");
    if s.len() > max_chars {
        assert(truncated(s, max_chars).take(max_chars as int) =~= s.take(max_chars as int));
        assert(truncated(s, max_chars).skip(max_chars as int) =~= "..."@);
    }
}

/// A text is escaped part by part.
pub proof fn law_parts_are_escaped_alone(a: Seq<char>, b: Seq<char>)
    ensures
        escaped(a + b) == escaped(a) + escaped(b),
    decreases b.len(),
{
    if b.len() == 0 {
        assert(a + b =~= a);
        assert(escaped(b) =~= Seq::<char>::empty());
        assert(escaped(a) + escaped(b) =~= escaped(a));
    } else {
        law_parts_are_escaped_alone(a, b.drop_last());
        assert((a + b).drop_last() =~= a + b.drop_last());
        assert(escaped(a + b) =~= escaped(a) + escaped(b));
    }
}

/// Text without markup stays as it is when it is escaped.
pub proof fn law_plain_text_stays(s: Seq<char>)
    requires
        forall|i: int| 0 <= i < s.len() ==> !is_markup(#[trigger] s[i]),
    ensures
        escaped(s) == s,
    decreases s.len(),
{
    if s.len() > 0 {
        let front = s.drop_last();
        assert forall|i: int| 0 <= i < front.len() implies !is_markup(#[trigger] front[i]) by {
            assert(!is_markup(s[i]));
        }
        law_plain_text_stays(front);
        assert(!is_markup(s[s.len() - 1]));
        assert(s =~= front + seq![s.last()]);
    }
}

} // verus!
