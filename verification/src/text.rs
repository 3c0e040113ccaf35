//! Operations on text, stated over sequences of characters.

use vstd::prelude::*;
use vstd::string::StringExecFns;

verus! {

/// `String::push` appends one character to the end of the string.
pub assume_specification[ String::push ](s: &mut String, c: char)
    ensures
        final(s)@ == old(s)@.push(c),
;

/// `String::from` on a string slice gives a string of the same characters.
pub assume_specification<'a>[ <String as core::convert::From<&'a str>>::from ](s: &str) -> (res:
    String)
    ensures
        res@ == s@,
;

/// `From<T> for T` hands its argument back.
pub assume_specification<T>[ <T as core::convert::From<T>>::from ](t: T) -> (res: T)
    ensures
        res == t,
;

/// Whether `text` is what `value.into()` can return.
pub open spec fn converts_to<S: Into<String>>(value: S, text: String) -> bool {
    call_ensures(<S as Into<String>>::into, (value,), text)
}

/// The text `s` with each character `c` replaced by `f(c)`.
pub open spec fn expanded(s: Seq<char>, f: spec_fn(char) -> Seq<char>) -> Seq<char>
    decreases s.len(),
{
    if s.len() == 0 {
        Seq::empty()
    } else {
        expanded(s.drop_last(), f) + f(s.last())
    }
}

/// What one character becomes when `from` is replaced by `to`.
pub open spec fn replacement(c: char, from: char, to: Seq<char>) -> Seq<char> {
    if c == from {
        to
    } else {
        seq![c]
    }
}

/// The text `s` with every occurrence of `from` replaced by `to`.
pub open spec fn replaced(s: Seq<char>, from: char, to: Seq<char>) -> Seq<char> {
    expanded(s, |c: char| replacement(c, from, to))
}

/// The texts of `parts` in order, with `sep` between each two neighbours.
pub open spec fn joined(parts: Seq<Seq<char>>, sep: Seq<char>) -> Seq<char>
    decreases parts.len(),
{
    if parts.len() == 0 {
        Seq::empty()
    } else if parts.len() == 1 {
        parts[0]
    } else {
        joined(parts.drop_last(), sep) + sep + parts.last()
    }
}

/// Expanding a text of one character gives what that character stands for.
pub proof fn lemma_expanded_single(c: char, f: spec_fn(char) -> Seq<char>)
    ensures
        expanded(seq![c], f) == f(c),
{
    assert(seq![c].drop_last() =~= Seq::<char>::empty());
    assert(expanded(seq![c], f) =~= f(c)) by {
        reveal_with_fuel(expanded, 2);
    }
}

/// Expanding works character by character, so it distributes over
/// concatenation.
pub proof fn lemma_expanded_concat(a: Seq<char>, b: Seq<char>, f: spec_fn(char) -> Seq<char>)
    ensures
        expanded(a + b, f) == expanded(a, f) + expanded(b, f),
    decreases b.len(),
{
    if b.len() == 0 {
        assert(a + b =~= a);
        assert(expanded(a, f) + expanded(b, f) =~= expanded(a, f));
    } else {
        lemma_expanded_concat(a, b.drop_last(), f);
        assert((a + b).drop_last() =~= a + b.drop_last());
        assert((a + b).last() == b.last());
        assert(expanded(a + b, f) =~= expanded(a, f) + expanded(b, f));
    }
}

/// Expanding starts with what the first character stands for.
pub proof fn lemma_expanded_first(s: Seq<char>, f: spec_fn(char) -> Seq<char>)
    requires
        s.len() > 0,
    ensures
        expanded(s, f) == f(s[0]) + expanded(s.drop_first(), f),
{
    lemma_expanded_single(s[0], f);
    lemma_expanded_concat(seq![s[0]], s.drop_first(), f);
    assert(seq![s[0]] + s.drop_first() =~= s);
}

/// A text in which `f` leaves every character as it is expands to itself.
pub proof fn lemma_expanded_unchanged(s: Seq<char>, f: spec_fn(char) -> Seq<char>)
    requires
        forall|i: int| 0 <= i < s.len() ==> f(#[trigger] s[i]) == seq![s[i]],
    ensures
        expanded(s, f) == s,
    decreases s.len(),
{
    if s.len() > 0 {
        lemma_expanded_unchanged(s.drop_last(), f);
        assert(f(s.last()) == seq![s.last()]);
        assert(expanded(s, f) =~= s);
    }
}

/// Joining one more part puts the separator before it, unless it is the
/// first.
pub proof fn lemma_joined_push(parts: Seq<Seq<char>>, sep: Seq<char>, part: Seq<char>)
    ensures
        joined(parts.push(part), sep) == if parts.len() == 0 {
            part
        } else {
            joined(parts, sep) + sep + part
        },
{
    assert(parts.push(part).drop_last() =~= parts);
}

/// Returns `s` with every occurrence of `from` replaced by `to`.
pub fn replace_char(s: &str, from: char, to: &str) -> (res: String)
    ensures
        res@ == replaced(s@, from, to@),
{
    let mut out = String::new();
    for c in it: s.chars()
        invariant
            it.seq() == s@,
            out@ == replaced(s@.take(it.index() as int), from, to@),
    {
        proof {
            let n = it.index() as int;
            assert(s@.take(n + 1).drop_last() == s@.take(n));
            assert(s@.take(n + 1).last() == c);
        }
        if c == from {
            out.append(to);
        } else {
            out.push(c);
        }
    }
    assert(s@.take(s@.len() as int) == s@);
    out
}

/// Returns the strings of `parts` in order, with `sep` between each two
/// neighbours.
pub fn join(parts: &Vec<String>, sep: &str) -> (res: String)
    ensures
        res@ == joined(parts.deep_view(), sep@),
{
    let mut out = String::new();
    for i in 0..parts.len()
        invariant
            out@ == joined(parts.deep_view().take(i as int), sep@),
    {
        proof {
            let done = parts.deep_view().take(i as int);
            assert(parts.deep_view().take(i + 1) == done.push(parts[i as int]@));
            lemma_joined_push(done, sep@, parts[i as int]@);
        }
        if i > 0 {
            out.append(sep);
        }
        out.append(parts[i].as_str());
    }
    assert(parts.deep_view().take(parts.len() as int) == parts.deep_view());
    out
}

} // verus!
