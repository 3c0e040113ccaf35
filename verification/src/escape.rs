//! Percent-escaping of the characters that the message parameter reserves.

use crate::text::{
    expanded, joined, lemma_expanded_concat, lemma_expanded_first, lemma_expanded_single,
    lemma_expanded_unchanged, replace_char, replaced, replacement,
};
use vstd::prelude::*;

verus! {

/// The characters that the message parameter reserves for itself.
pub open spec fn is_reserved(c: char) -> bool {
    c == '%' || c == '"' || c == '&' || c == '?'
}

/// What one character becomes in escaped text: `%`, `"`, `&` and `?` turn
/// into a percent sign and their two hexadecimal digits, every other
/// character stays.
pub open spec fn escape_of(c: char) -> Seq<char> {
    if c == '%' {
        "%25"@
    } else if c == '"' {
        "%22"@
    } else if c == '&' {
        "%26"@
    } else if c == '?' {
        "%3F"@
    } else {
        seq![c]
    }
}

/// The escaped form of `s`: each character replaced, once, by what
/// [`escape_of`] gives for it.
pub open spec fn escaped(s: Seq<char>) -> Seq<char> {
    expanded(s, |c: char| escape_of(c))
}

/// The four replacements in their order: `%` first, then `"`, `&` and `?`.
pub open spec fn replaced_in_order(s: Seq<char>) -> Seq<char> {
    replaced(replaced(replaced(replaced(s, '%', "%25"@), '"', "%22"@), '&', "%26"@), '?', "%3F"@)
}

proof fn lemma_passes_of_one(c: char)
    ensures
        replaced_in_order(seq![c]) == escape_of(c),
{
    reveal_strlit("%25");
    reveal_strlit("%22");
    reveal_strlit("%26");
    reveal_strlit("%3F");
    let f1 = |c: char| replacement(c, '%', "%25"@);
    let f2 = |c: char| replacement(c, '"', "%22"@);
    let f3 = |c: char| replacement(c, '&', "%26"@);
    let f4 = |c: char| replacement(c, '?', "%3F"@);
    lemma_expanded_single(c, f1);
    let s1 = f1(c);
    assert(expanded(seq![c], f1) == s1);
    if c == '%' {
        lemma_expanded_unchanged(s1, f2);
        lemma_expanded_unchanged(s1, f3);
        lemma_expanded_unchanged(s1, f4);
    } else {
        assert(s1 == seq![c]);
        lemma_expanded_single(c, f2);
        let s2 = f2(c);
        if c == '"' {
            lemma_expanded_unchanged(s2, f3);
            lemma_expanded_unchanged(s2, f4);
        } else {
            assert(s2 == seq![c]);
            lemma_expanded_single(c, f3);
            let s3 = f3(c);
            if c == '&' {
                lemma_expanded_unchanged(s3, f4);
            } else {
                assert(s3 == seq![c]);
                lemma_expanded_single(c, f4);
            }
        }
    }
}

proof fn lemma_passes_concat(a: Seq<char>, b: Seq<char>)
    ensures
        replaced_in_order(a + b) == replaced_in_order(a) + replaced_in_order(b),
{
    let f1 = |c: char| replacement(c, '%', "%25"@);
    let f2 = |c: char| replacement(c, '"', "%22"@);
    let f3 = |c: char| replacement(c, '&', "%26"@);
    let f4 = |c: char| replacement(c, '?', "%3F"@);
    lemma_expanded_concat(a, b, f1);
    lemma_expanded_concat(expanded(a, f1), expanded(b, f1), f2);
    lemma_expanded_concat(expanded(expanded(a, f1), f2), expanded(expanded(b, f1), f2), f3);
    lemma_expanded_concat(
        expanded(expanded(expanded(a, f1), f2), f3),
        expanded(expanded(expanded(b, f1), f2), f3),
        f4,
    );
}

/// Replacing `%` by `%25`, then `"` by `%22`, then `&` by `%26`, then `?` by
/// `%3F` escapes each character of the text exactly once: no percent sign
/// that a replacement wrote is replaced again.
pub proof fn lemma_escaped_is_replaced_in_order(s: Seq<char>)
    ensures
        replaced_in_order(s) == escaped(s),
    decreases s.len(),
{
    if s.len() > 0 {
        lemma_escaped_is_replaced_in_order(s.drop_last());
        lemma_passes_of_one(s.last());
        lemma_passes_concat(s.drop_last(), seq![s.last()]);
        assert(s.drop_last() + seq![s.last()] =~= s);
    }
}

/// Escaping works character by character, so it distributes over
/// concatenation.
pub proof fn lemma_escaped_concat(a: Seq<char>, b: Seq<char>)
    ensures
        escaped(a + b) == escaped(a) + escaped(b),
{
    lemma_expanded_concat(a, b, |c: char| escape_of(c));
}

/// Text without reserved characters is its own escaped form.
pub proof fn lemma_escaped_plain(s: Seq<char>)
    requires
        forall|i: int| 0 <= i < s.len() ==> !is_reserved(#[trigger] s[i]),
    ensures
        escaped(s) == s,
{
    let f = |c: char| escape_of(c);
    assert forall|i: int| 0 <= i < s.len() implies f(#[trigger] s[i]) == seq![s[i]] by {
        assert(!is_reserved(s[i]));
    }
    lemma_expanded_unchanged(s, f);
}

/// Escaped text holds no `"`, `&` or `?`, so that a `&` in an assembled
/// parameter is always a separator.
pub proof fn lemma_escaped_has_no_delimiter(s: Seq<char>)
    ensures
        forall|i: int|
            0 <= i < escaped(s).len() ==> {
                let c = #[trigger] escaped(s)[i];
                c != '"' && c != '&' && c != '?'
            },
    decreases s.len(),
{
    reveal_strlit("%25");
    reveal_strlit("%22");
    reveal_strlit("%26");
    reveal_strlit("%3F");
    if s.len() > 0 {
        lemma_escaped_has_no_delimiter(s.drop_last());
        let head = escaped(s.drop_last());
        let tail = escape_of(s.last());
        assert(escaped(s) == head + tail);
        assert forall|i: int| 0 <= i < escaped(s).len() implies {
            let c = #[trigger] escaped(s)[i];
            c != '"' && c != '&' && c != '?'
        } by {
            if i < head.len() {
                assert(escaped(s)[i] == head[i]);
            } else {
                assert(escaped(s)[i] == tail[i - head.len()]);
            }
        }
    }
}

/// Escaping loses nothing: two texts with the same escaped form are the
/// same text.
pub proof fn lemma_escaped_injective(a: Seq<char>, b: Seq<char>)
    requires
        escaped(a) == escaped(b),
    ensures
        a == b,
    decreases a.len(),
{
    reveal_strlit("%25");
    reveal_strlit("%22");
    reveal_strlit("%26");
    reveal_strlit("%3F");
    let f = |c: char| escape_of(c);
    if a.len() == 0 {
        if b.len() > 0 {
            lemma_expanded_first(b, f);
            assert(escaped(b).len() >= f(b[0]).len());
        }
        assert(a =~= b);
    } else {
        lemma_expanded_first(a, f);
        let head_a = f(a[0]);
        let rest_a = escaped(a.drop_first());
        assert(escaped(a) == head_a + rest_a);
        assert(head_a.len() > 0);
        assert(b.len() > 0);
        lemma_expanded_first(b, f);
        let head_b = f(b[0]);
        let rest_b = escaped(b.drop_first());
        assert(escaped(b) == head_b + rest_b);
        assert((head_a + rest_a)[0] == head_a[0]);
        assert((head_b + rest_b)[0] == head_b[0]);
        if is_reserved(a[0]) {
            assert(head_a[0] == '%');
            assert(is_reserved(b[0]));
            assert((head_a + rest_a)[1] == head_a[1]);
            assert((head_b + rest_b)[1] == head_b[1]);
            assert((head_a + rest_a)[2] == head_a[2]);
            assert((head_b + rest_b)[2] == head_b[2]);
        } else {
            assert(head_a[0] == a[0]);
            assert(!is_reserved(b[0]));
        }
        assert(a[0] == b[0]);
        assert(rest_a =~= (head_a + rest_a).subrange(head_a.len() as int, escaped(a).len() as int));
        assert(rest_b =~= (head_b + rest_b).subrange(head_b.len() as int, escaped(b).len() as int));
        lemma_escaped_injective(a.drop_first(), b.drop_first());
        assert(a =~= seq![a[0]] + a.drop_first());
        assert(b =~= seq![b[0]] + b.drop_first());
    }
}

/// Where the separator holds no reserved character, it makes no difference
/// whether the parts are escaped one by one and then joined, or joined and
/// then escaped.
pub proof fn lemma_escaped_joined(parts: Seq<Seq<char>>, sep: Seq<char>)
    requires
        forall|i: int| 0 <= i < sep.len() ==> !is_reserved(#[trigger] sep[i]),
    ensures
        escaped(joined(parts, sep)) == joined(parts.map_values(|part: Seq<char>| escaped(part)), sep),
    decreases parts.len(),
{
    let each = parts.map_values(|part: Seq<char>| escaped(part));
    if parts.len() == 0 {
    } else if parts.len() == 1 {
    } else {
        lemma_escaped_joined(parts.drop_last(), sep);
        lemma_escaped_plain(sep);
        lemma_escaped_concat(joined(parts.drop_last(), sep), sep);
        lemma_escaped_concat(joined(parts.drop_last(), sep) + sep, parts.last());
        assert(each.drop_last() =~= parts.drop_last().map_values(|part: Seq<char>| escaped(part)));
    }
}

/// Escapes `%`, `"`, `&` and `?` in `s`.
pub fn percent_escape(s: &str) -> (res: String)
    ensures
        res@ == escaped(s@),
{
    let percent = replace_char(s, '%', "%25");
    let quote = replace_char(percent.as_str(), '"', "%22");
    let ampersand = replace_char(quote.as_str(), '&', "%26");
    let question = replace_char(ampersand.as_str(), '?', "%3F");
    proof {
        lemma_escaped_is_replaced_in_order(s@);
    }
    question
}

} // verus!
