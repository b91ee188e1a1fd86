//! Formatting of directory listings.
//!
//! A raw listing is the sequence of entry names a directory query
//! returned, the queried directory itself first.  Each later entry is
//! shown relative to that first entry, with percent-encoded spaces
//! decoded; names containing a space are single-quoted, dotfiles are
//! hidden unless asked for, and the names are joined one per line or
//! with a double space.

use vstd::prelude::*;
use vstd::string::*;

use crate::text::{join_with, join_with_spec, matches_at};

verus! {

/// Every occurrence of `pat` in `s` replaced by `repl`, scanning left
/// to right without overlap; text without the pattern (or an empty
/// pattern) is left unchanged.
pub open spec fn replace_spec(s: Seq<char>, pat: Seq<char>, repl: Seq<char>) -> Seq<char>
    decreases s.len(),
{
    if pat.len() == 0 || s.len() < pat.len() {
        s
    } else if s.take(pat.len() as int) == pat {
        repl + replace_spec(s.skip(pat.len() as int), pat, repl)
    } else {
        seq![s[0]] + replace_spec(s.skip(1), pat, repl)
    }
}

/// The shown form of one raw entry: the queried directory's own text
/// removed, and `%20` decoded to a space.
pub open spec fn listed_name(entry: Seq<char>, base: Seq<char>) -> Seq<char> {
    replace_spec(replace_spec(entry, base, Seq::<char>::empty()), seq!['%', '2', '0'], seq![' '])
}

/// A name containing a space is single-quoted.
pub open spec fn shown_entry(name: Seq<char>) -> Seq<char> {
    if name.contains(' ') {
        seq!['\''] + name + seq!['\'']
    } else {
        name
    }
}

/// Whether a name appears in the listing: quoted names always do,
/// dotfiles only when `all` is set.
pub open spec fn keep_entry(name: Seq<char>, all: bool) -> bool {
    name.contains(' ') || !(name.len() > 0 && name[0] == '.') || all
}

/// The shown names of the entries after the first, in order.
pub open spec fn listing_names(entries: Seq<Seq<char>>, base: Seq<char>, all: bool) -> Seq<
    Seq<char>,
>
    decreases entries.len(),
{
    if entries.len() == 0 {
        Seq::<Seq<char>>::empty()
    } else {
        let p = listing_names(entries.drop_last(), base, all);
        let nm = listed_name(entries.last(), base);
        if keep_entry(nm, all) {
            p.push(shown_entry(nm))
        } else {
            p
        }
    }
}

/// The printed listing: the kept names joined one per line when `list`
/// is set, with a double space otherwise; an empty raw listing prints
/// as the empty string.
pub open spec fn format_listing_spec(entries: Seq<Seq<char>>, list: bool, all: bool) -> Seq<
    char,
> {
    if entries.len() == 0 {
        Seq::<char>::empty()
    } else {
        join_with_spec(
            listing_names(entries.drop_first(), entries[0], all),
            if list {
                seq!['\n']
            } else {
                seq![' ', ' ']
            },
        )
    }
}

/// Replace every occurrence of `pat` in `s` by `repl`, scanning left to
/// right without overlap.
pub fn replace_text(s: &str, pat: &str, repl: &str) -> (r: String)
    ensures
        r@ == replace_spec(s@, pat@, repl@),
{
    let n = s.unicode_len();
    let m = pat.unicode_len();
    if m == 0 {
        return s.to_owned();
    }
    let mut r = String::new();
    proof {
        assert(s@.skip(0) =~= s@);
        assert(r@ + replace_spec(s@, pat@, repl@) =~= replace_spec(s@, pat@, repl@));
    }
    let mut i: usize = 0;
    while i < n
        invariant
            0 <= i <= n,
            n == s@.len(),
            m == pat@.len(),
            m >= 1,
            r@ + replace_spec(s@.skip(i as int), pat@, repl@) == replace_spec(s@, pat@, repl@),
        decreases n - i,
    {
        let tail_matches = if m <= n - i {
            matches_at(s, pat, i)
        } else {
            false
        };
        let ghost tail = s@.skip(i as int);
        if tail_matches {
            proof {
                assert(tail.take(m as int) =~= s@.subrange(i as int, i + m));
                assert(tail.skip(m as int) =~= s@.skip(i + m));
            }
            r.append(repl);
            i = i + m;
        } else {
            proof {
                if i + m <= n as int {
                    assert(tail.take(m as int) =~= s@.subrange(i as int, i + m));
                }
                assert(tail.skip(1) =~= s@.skip(i + 1));
                assert(tail[0] == s@[i as int]);
                if tail.len() < m {
                    assert(tail =~= seq![s@[i as int]] + s@.skip(i + 1));
                    assert(s@.skip(i + 1).len() < m);
                }
            }
            let c = s.substring_char(i, i + 1);
            r.append(c);
            proof {
                assert(c@ =~= seq![s@[i as int]]);
            }
            i = i + 1;
        }
    }
    proof {
        assert(s@.skip(n as int) =~= Seq::<char>::empty());
    }
    r
}

/// Whether `s` contains the character `c`.
pub fn contains_char(s: &str, c: char) -> (r: bool)
    ensures
        r == s@.contains(c),
{
    let n = s.unicode_len();
    let mut i: usize = 0;
    while i < n
        invariant
            0 <= i <= n,
            n == s@.len(),
            forall|k: int| 0 <= k < i ==> s@[k] != c,
        decreases n - i,
    {
        if s.get_char(i) == c {
            return true;
        }
        i = i + 1;
    }
    false
}

/// Format a raw listing for printing.
pub fn format_listing(entries: &Vec<String>, list: bool, all: bool) -> (r: String)
    ensures
        r@ == format_listing_spec(entries.deep_view(), list, all),
{
    if entries.len() == 0 {
        return String::new();
    }
    proof {
        reveal_strlit("");
        reveal_strlit("%20");
        reveal_strlit(" ");
        reveal_strlit("'");
        assert(""@ =~= Seq::<char>::empty());
        assert("%20"@ =~= seq!['%', '2', '0']);
        assert(" "@ =~= seq![' ']);
        assert("'"@ =~= seq!['\'']);
    }
    let ghost d = entries.deep_view().drop_first();
    let ghost base_view = entries.deep_view()[0];
    let mut names: Vec<String> = Vec::new();
    proof {
        assert(names.deep_view() =~~= listing_names(d.take(0), base_view, all));
    }
    let mut i: usize = 1;
    while i < entries.len()
        invariant
            1 <= i <= entries.len(),
            d == entries.deep_view().drop_first(),
            base_view == entries.deep_view()[0],
            names.deep_view() == listing_names(d.take(i - 1), base_view, all),
        decreases entries.len() - i,
    {
        proof {
            reveal_strlit("");
            reveal_strlit("%20");
            reveal_strlit(" ");
            reveal_strlit("'");
            assert(""@ =~= Seq::<char>::empty());
            assert("%20"@ =~= seq!['%', '2', '0']);
            assert(" "@ =~= seq![' ']);
            assert("'"@ =~= seq!['\'']);
            assert(d.take(i as int).drop_last() =~= d.take(i - 1));
            assert(d.take(i as int).last() == d[i - 1]);
            assert(d[i - 1] == entries.deep_view()[i as int]);
            assert(entries.deep_view()[i as int] == entries@[i as int]@);
            assert(base_view == entries@[0]@);
        }
        let base = &entries[0];
        let stripped = replace_text(entries[i].as_str(), base.as_str(), "");
        let name = replace_text(stripped.as_str(), "%20", " ");
        proof {
            assert(name@ == listed_name(d[i - 1], base_view));
        }
        let ghost pre = names.deep_view();
        if contains_char(name.as_str(), ' ') {
            let mut q = String::from_str("'");
            q.append(name.as_str());
            q.append("'");
            proof {
                assert(q@ =~= shown_entry(name@));
            }
            names.push(q);
            proof {
                assert(names.deep_view() =~~= pre.push(shown_entry(listed_name(
                    d[i - 1],
                    base_view,
                ))));
            }
        } else {
            let dotted = name.unicode_len() > 0 && name.get_char(0) == '.';
            if !dotted || all {
                names.push(name);
                proof {
                    assert(names.deep_view() =~~= pre.push(shown_entry(listed_name(
                        d[i - 1],
                        base_view,
                    ))));
                }
            }
        }
        i = i + 1;
    }
    proof {
        assert(d.take(entries.len() - 1) =~= d);
        reveal_strlit("\n");
        reveal_strlit("  ");
        assert("\n"@ =~= seq!['\n']);
        assert("  "@ =~= seq![' ', ' ']);
    }
    if list {
        join_with(&names, "\n")
    } else {
        join_with(&names, "  ")
    }
}

} // verus!
