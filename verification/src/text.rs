//! Splitting and joining of character sequences around a separator.
//!
//! Remote paths are sequences of `/`-separated tokens; the shell splits
//! its input line on spaces.  Both views are instances of the same
//! split/join model defined here.

use vstd::prelude::*;
use vstd::string::*;

verus! {

/// No occurrence of `sep` inside `t`.
pub open spec fn token_has_no(t: Seq<char>, sep: char) -> bool {
    forall|i: int| 0 <= i < t.len() ==> t[i] != sep
}

/// Split `s` at every occurrence of `sep`, keeping empty tokens, so the
/// result always holds at least one token (the empty string splits into
/// one empty token).
pub open spec fn split_on_spec(s: Seq<char>, sep: char) -> Seq<Seq<char>>
    decreases s.len(),
{
    if s.len() == 0 {
        seq![Seq::<char>::empty()]
    } else if s.last() == sep {
        split_on_spec(s.drop_last(), sep).push(Seq::<char>::empty())
    } else {
        let prev = split_on_spec(s.drop_last(), sep);
        prev.update(prev.len() - 1, prev.last().push(s.last()))
    }
}

/// Concatenate `toks` with `sep` written between neighbouring tokens.
pub open spec fn join_with_spec(toks: Seq<Seq<char>>, sep: Seq<char>) -> Seq<char>
    decreases toks.len(),
{
    if toks.len() == 0 {
        Seq::<char>::empty()
    } else if toks.len() == 1 {
        toks[0]
    } else {
        join_with_spec(toks.drop_last(), sep) + sep + toks.last()
    }
}

pub proof fn lemma_split_on_len(s: Seq<char>, sep: char)
    ensures
        split_on_spec(s, sep).len() >= 1,
    decreases s.len(),
{
    if s.len() > 0 {
        lemma_split_on_len(s.drop_last(), sep);
    }
}

/// No token produced by a split contains the separator.
pub proof fn lemma_split_on_tokens_clean(s: Seq<char>, sep: char)
    ensures
        forall|i: int|
            0 <= i < split_on_spec(s, sep).len() ==> token_has_no(
                #[trigger] split_on_spec(s, sep)[i],
                sep,
            ),
    decreases s.len(),
{
    if s.len() > 0 {
        lemma_split_on_len(s.drop_last(), sep);
        lemma_split_on_tokens_clean(s.drop_last(), sep);
    }
}

/// A sequence without the separator splits into itself as the one token.
pub proof fn lemma_split_on_clean(t: Seq<char>, sep: char)
    requires
        token_has_no(t, sep),
    ensures
        split_on_spec(t, sep) =~~= seq![t],
    decreases t.len(),
{
    if t.len() > 0 {
        assert(t.drop_last().len() == t.len() - 1);
        assert(token_has_no(t.drop_last(), sep));
        lemma_split_on_clean(t.drop_last(), sep);
        assert(t.drop_last().push(t.last()) =~= t);
    }
}

/// Appending `sep` and then a separator-free token appends one token to
/// the split.
pub proof fn lemma_split_on_append(s: Seq<char>, t: Seq<char>, sep: char)
    requires
        token_has_no(t, sep),
    ensures
        split_on_spec(s + seq![sep] + t, sep) =~~= split_on_spec(s, sep).push(t),
    decreases t.len(),
{
    if t.len() == 0 {
        assert(s + seq![sep] + t =~= s.push(sep));
        assert((s.push(sep)).last() == sep);
        assert((s.push(sep)).drop_last() =~= s);
    } else {
        assert(token_has_no(t.drop_last(), sep));
        lemma_split_on_append(s, t.drop_last(), sep);
        let whole = s + seq![sep] + t;
        assert(whole.last() == t.last());
        assert(whole.last() != sep);
        assert(whole.drop_last() =~= s + seq![sep] + t.drop_last());
        lemma_split_on_len(s, sep);
    }
}

/// Joining separator-free non-empty tokens and splitting again restores
/// the tokens.
pub proof fn lemma_split_join(toks: Seq<Seq<char>>, sep: char)
    requires
        toks.len() > 0,
        forall|i: int|
            0 <= i < toks.len() ==> (#[trigger] toks[i]).len() > 0 && token_has_no(toks[i], sep),
    ensures
        split_on_spec(join_with_spec(toks, seq![sep]), sep) =~~= toks,
    decreases toks.len(),
{
    if toks.len() == 1 {
        lemma_split_on_clean(toks[0], sep);
        assert(join_with_spec(toks, seq![sep]) == toks[0]);
        assert(split_on_spec(join_with_spec(toks, seq![sep]), sep) =~~= seq![toks[0]]);
        assert(seq![toks[0]] =~= toks);
    } else {
        lemma_split_join(toks.drop_last(), sep);
        lemma_split_on_append(join_with_spec(toks.drop_last(), seq![sep]), toks.last(), sep);
        assert(join_with_spec(toks, seq![sep]) == join_with_spec(toks.drop_last(), seq![sep])
            + seq![sep] + toks.last());
        assert(split_on_spec(join_with_spec(toks, seq![sep]), sep) =~~= split_on_spec(
            join_with_spec(toks.drop_last(), seq![sep]),
            sep,
        ).push(toks.last()));
        assert(toks.drop_last().push(toks.last()) =~= toks);
    }
}

/// Split a string slice at every occurrence of `sep`.
pub fn split_on(s: &str, sep: char) -> (r: Vec<String>)
    ensures
        r.deep_view() == split_on_spec(s@, sep),
        r.len() >= 1,
{
    let n = s.unicode_len();
    let mut r: Vec<String> = Vec::new();
    let mut start: usize = 0;
    let mut i: usize = 0;
    while i < n
        invariant
            n == s@.len(),
            0 <= start <= i <= n,
            split_on_spec(s@.take(i as int), sep) =~~= r.deep_view().push(
                s@.subrange(start as int, i as int),
            ),
        decreases n - i,
    {
        let c = s.get_char(i);
        proof {
            assert(s@.take(i + 1).drop_last() =~= s@.take(i as int));
            assert(s@.take(i + 1).last() == s@[i as int]);
        }
        if c == sep {
            let ghost pre = r.deep_view();
            let tok = s.substring_char(start, i).to_owned();
            r.push(tok);
            proof {
                assert(r.deep_view() =~~= pre.push(s@.subrange(start as int, i as int)));
                assert(split_on_spec(s@.take(i + 1), sep) =~~= r.deep_view().push(
                    s@.subrange(i + 1, i + 1),
                ));
            }
            start = i + 1;
        } else {
            proof {
                let prev = split_on_spec(s@.take(i as int), sep);
                lemma_split_on_len(s@.take(i as int), sep);
                assert(prev.update(prev.len() - 1, prev.last().push(s@[i as int]))
                    =~~= r.deep_view().push(s@.subrange(start as int, i + 1)));
            }
        }
        i = i + 1;
    }
    let ghost pre = r.deep_view();
    let tok = s.substring_char(start, n).to_owned();
    r.push(tok);
    proof {
        assert(s@.take(n as int) =~= s@);
        assert(r.deep_view() =~~= pre.push(s@.subrange(start as int, n as int)));
    }
    r
}

/// Join tokens, writing `sep` between neighbouring tokens.
pub fn join_with(toks: &Vec<String>, sep: &str) -> (r: String)
    ensures
        r@ == join_with_spec(toks.deep_view(), sep@),
{
    let mut r = String::new();
    let mut i: usize = 0;
    while i < toks.len()
        invariant
            0 <= i <= toks.len(),
            r@ == join_with_spec(toks.deep_view().take(i as int), sep@),
        decreases toks.len() - i,
    {
        if i > 0 {
            r.append(sep);
        }
        r.append(toks[i].as_str());
        proof {
            let d = toks.deep_view();
            assert(d.take(i + 1).drop_last() =~= d.take(i as int));
            assert(d.take(i + 1).last() == d[i as int]);
            if i == 0 {
                assert(join_with_spec(d.take(1), sep@) == d.take(1)[0]);
            }
        }
        i = i + 1;
    }
    proof {
        assert(toks.deep_view().take(toks.len() as int) =~= toks.deep_view());
    }
    r
}

/// Whether `s` starts with `prefix`.
pub fn starts_with_str(s: &str, prefix: &str) -> (r: bool)
    ensures
        r == (s@.len() >= prefix@.len() && s@.take(prefix@.len() as int) == prefix@),
{
    let m = prefix.unicode_len();
    if s.unicode_len() < m {
        return false;
    }
    let mut j: usize = 0;
    while j < m
        invariant
            0 <= j <= m,
            m == prefix@.len() <= s@.len(),
            forall|k: int| 0 <= k < j ==> s@[k] == prefix@[k],
        decreases m - j,
    {
        if s.get_char(j) != prefix.get_char(j) {
            proof {
                assert(s@.take(m as int)[j as int] == s@[j as int]);
            }
            return false;
        }
        j = j + 1;
    }
    proof {
        assert(s@.take(m as int) =~= prefix@);
    }
    true
}

/// Whether the characters of `s` starting at `i` match `pat`.
pub fn matches_at(s: &str, pat: &str, i: usize) -> (r: bool)
    requires
        i + pat@.len() <= s@.len(),
    ensures
        r == (s@.subrange(i as int, i + pat@.len()) == pat@),
{
    let n = s.unicode_len();
    let m = pat.unicode_len();
    let mut j: usize = 0;
    while j < m
        invariant
            0 <= j <= m,
            m == pat@.len(),
            n == s@.len(),
            i + m <= n,
            forall|k: int| 0 <= k < j ==> s@[i + k] == pat@[k],
        decreases m - j,
    {
        if s.get_char(i + j) != pat.get_char(j) {
            proof {
                assert(s@.subrange(i as int, i + pat@.len())[j as int] == s@[i + j]);
            }
            return false;
        }
        j = j + 1;
    }
    proof {
        assert(s@.subrange(i as int, i + pat@.len()) =~= pat@);
    }
    true
}

} // verus!
