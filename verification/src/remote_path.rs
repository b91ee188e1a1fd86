//! Normalized virtual remote paths.
//!
//! A remote path is a sequence of plain segments below a virtual root,
//! together with a flag that tells whether the path denotes a file (a
//! trailing concrete component) or a directory-like location.  Raw user
//! input is normalized by a left-to-right walk over its `/`-separated
//! tokens: `.` and empty tokens are dropped, `..` pops the last segment
//! but never past the root, and every other token is kept verbatim.

use vstd::prelude::*;
use vstd::string::*;

use crate::text::{
    join_with, join_with_spec, lemma_split_join, lemma_split_on_len, lemma_split_on_tokens_clean,
    split_on, split_on_spec, token_has_no,
};

verus! {

/// The literal token `.`.
pub open spec fn dot() -> Seq<char> {
    seq!['.']
}

/// The literal token `..`.
pub open spec fn dotdot() -> Seq<char> {
    seq!['.', '.']
}

/// A token that keeps a path directory-shaped when it ends the raw text:
/// empty (a trailing or doubled separator), `.` or `..`.  Only the exact
/// one- and two-dot tokens count; a longer run of dots is an ordinary
/// segment.
pub open spec fn dir_token(t: Seq<char>) -> bool {
    t.len() == 0 || t == dot() || t == dotdot()
}

/// A segment that may appear in a normalized path: non-empty, not a dot
/// token, and free of separators.
pub open spec fn valid_segment(t: Seq<char>) -> bool {
    t.len() > 0 && t != dot() && t != dotdot() && token_has_no(t, '/')
}

/// One step of the normalization walk.
pub open spec fn dedot_step(stack: Seq<Seq<char>>, t: Seq<char>) -> Seq<Seq<char>> {
    if t.len() == 0 || t == dot() {
        stack
    } else if t == dotdot() {
        if stack.len() == 0 {
            stack
        } else {
            stack.drop_last()
        }
    } else {
        stack.push(t)
    }
}

/// The normalization walk over `toks`, seeded with the segments `base`.
pub open spec fn dedot_from(base: Seq<Seq<char>>, toks: Seq<Seq<char>>) -> Seq<Seq<char>>
    decreases toks.len(),
{
    if toks.len() == 0 {
        base
    } else {
        dedot_step(dedot_from(base, toks.drop_last()), toks.last())
    }
}

/// The normalization walk started at the root.
pub open spec fn dedot(toks: Seq<Seq<char>>) -> Seq<Seq<char>> {
    dedot_from(Seq::<Seq<char>>::empty(), toks)
}

/// The segments that raw text normalizes to.
pub open spec fn norm_segments(s: Seq<char>) -> Seq<Seq<char>> {
    dedot(split_on_spec(s, '/'))
}

/// Trailing shape of raw text: it denotes a file unless it ends in a
/// separator or its final raw token is `.` or `..` (or it is empty).
pub open spec fn file_shaped(s: Seq<char>) -> bool {
    !dir_token(split_on_spec(s, '/').last())
}

/// The parent of a segment sequence; the root is its own parent.
pub open spec fn parent_segs(segs: Seq<Seq<char>>) -> Seq<Seq<char>> {
    if segs.len() == 0 {
        segs
    } else {
        segs.drop_last()
    }
}

/// The textual form of normalized segments: joined with `/`, with no
/// leading separator (the root prints as the empty string).
pub open spec fn repr_spec(segs: Seq<Seq<char>>) -> Seq<char> {
    join_with_spec(segs, seq!['/'])
}

/// The segments a fragment joins to, against base segments: an exact `.`
/// keeps the base, an exact `..` steps to its parent, an absolute
/// fragment re-roots, and anything else walks the fragment's tokens on
/// top of the base.
pub open spec fn join_segs(base: Seq<Seq<char>>, frag: Seq<char>) -> Seq<Seq<char>> {
    if frag == dot() {
        base
    } else if frag == dotdot() {
        parent_segs(base)
    } else if frag.len() > 0 && frag[0] == '/' {
        norm_segments(frag)
    } else {
        dedot_from(base, split_on_spec(frag, '/'))
    }
}

/// The file flag a fragment joins to: `.` keeps the base's flag, `..` is
/// a directory, and otherwise the fragment's own trailing shape decides.
pub open spec fn join_file(base_file: bool, frag: Seq<char>) -> bool {
    if frag == dot() {
        base_file
    } else if frag == dotdot() {
        false
    } else {
        file_shaped(frag)
    }
}

/// Walking a later batch of tokens continues from the earlier stack.
pub proof fn lemma_dedot_from_concat(base: Seq<Seq<char>>, a: Seq<Seq<char>>, b: Seq<Seq<char>>)
    ensures
        dedot_from(base, a + b) == dedot_from(dedot_from(base, a), b),
    decreases b.len(),
{
    if b.len() == 0 {
        assert(a + b =~= a);
    } else {
        lemma_dedot_from_concat(base, a, b.drop_last());
        assert((a + b).drop_last() =~= a + b.drop_last());
        assert((a + b).last() == b.last());
    }
}

/// Tokens that are all plain segments are appended verbatim: the walk
/// treats a dot run of any other length as a literal name.
pub proof fn lemma_dedot_from_valid(base: Seq<Seq<char>>, toks: Seq<Seq<char>>)
    requires
        forall|i: int| 0 <= i < toks.len() ==> valid_segment(#[trigger] toks[i]),
    ensures
        dedot_from(base, toks) == base + toks,
    decreases toks.len(),
{
    if toks.len() == 0 {
        assert(base + toks =~= base);
    } else {
        lemma_dedot_from_valid(base, toks.drop_last());
        assert(valid_segment(toks.last()));
        assert(base + toks =~= (base + toks.drop_last()).push(toks.last()));
    }
}

/// The walk only ever produces plain segments: no `.`, `..` or empty
/// token survives normalization.
pub proof fn lemma_dedot_from_wf(base: Seq<Seq<char>>, toks: Seq<Seq<char>>)
    requires
        forall|i: int| 0 <= i < base.len() ==> valid_segment(#[trigger] base[i]),
        forall|i: int| 0 <= i < toks.len() ==> token_has_no(#[trigger] toks[i], '/'),
    ensures
        forall|i: int|
            0 <= i < dedot_from(base, toks).len() ==> valid_segment(
                #[trigger] dedot_from(base, toks)[i],
            ),
    decreases toks.len(),
{
    if toks.len() > 0 {
        lemma_dedot_from_wf(base, toks.drop_last());
        let prev = dedot_from(base, toks.drop_last());
        let t = toks.last();
        if t.len() == 0 || t == dot() || t == dotdot() {
        } else {
            assert(forall|i: int|
                0 <= i < prev.push(t).len() ==> valid_segment(#[trigger] prev.push(t)[i]));
        }
    }
}

/// A walk whose final token is a plain segment ends above the root.
pub proof fn lemma_dedot_from_file(base: Seq<Seq<char>>, toks: Seq<Seq<char>>)
    requires
        toks.len() > 0,
        !dir_token(toks.last()),
    ensures
        dedot_from(base, toks).len() > 0,
        dedot_from(base, toks).last() == toks.last(),
{
}

/// A sequence of `k` literal `..` tokens.
pub open spec fn dotdots(k: nat) -> Seq<Seq<char>> {
    Seq::new(k, |i: int| dotdot())
}

/// Idempotence: normalized segments re-normalize to themselves, and the
/// textual form of a normalized path parses back to exactly the same
/// segments (with a file shape whenever a trailing segment exists).
pub proof fn lemma_normalize_idempotent(segs: Seq<Seq<char>>)
    requires
        forall|i: int| 0 <= i < segs.len() ==> valid_segment(#[trigger] segs[i]),
    ensures
        dedot(segs) == segs,
        norm_segments(repr_spec(segs)) == segs,
        segs.len() > 0 ==> file_shaped(repr_spec(segs)),
{
    lemma_dedot_from_valid(Seq::<Seq<char>>::empty(), segs);
    assert(Seq::<Seq<char>>::empty() + segs =~~= segs);
    if segs.len() == 0 {
        let toks = split_on_spec(repr_spec(segs), '/');
        assert(repr_spec(segs) == Seq::<char>::empty());
        assert(toks =~~= seq![Seq::<char>::empty()]);
        assert(toks.drop_last() =~~= Seq::<Seq<char>>::empty());
        assert(norm_segments(repr_spec(segs)) =~~= segs);
    } else {
        lemma_split_join(segs, '/');
        assert(split_on_spec(repr_spec(segs), '/') == segs);
        assert(split_on_spec(repr_spec(segs), '/').last() == segs.last());
        assert(!dir_token(segs.last()));
    }
}

/// Clamping, exactly: `k` leading `..` tokens pop `k` segments, or stop
/// at the root when fewer are left — the walk never errs and never
/// escapes the virtual tree.
pub proof fn lemma_clamp_at_root(base: Seq<Seq<char>>, k: nat)
    ensures
        dedot_from(base, dotdots(k)) == base.take(
            if base.len() >= k {
                base.len() - k
            } else {
                0
            } as int,
        ),
    decreases k,
{
    if k == 0 {
        assert(dotdots(0).len() == 0);
        assert(base.take(base.len() as int) =~~= base);
    } else {
        assert(dotdots(k).drop_last() =~~= dotdots((k - 1) as nat));
        assert(dotdots(k).last() == dotdot());
        lemma_clamp_at_root(base, (k - 1) as nat);
        let m: int = if base.len() >= k - 1 {
            base.len() - (k - 1)
        } else {
            0
        };
        if m > 0 {
            assert(base.take(m).drop_last() =~~= base.take(m - 1));
        } else {
            assert(base.take(0).len() == 0);
        }
    }
}

/// Joining any path with arbitrarily many leading `..` tokens stays
/// inside the virtual tree: the walk continues from a prefix of the
/// base, and once the root is reached the remaining tokens resolve
/// against the root alone.
pub proof fn lemma_join_never_escapes(base: Seq<Seq<char>>, k: nat, rest: Seq<Seq<char>>)
    ensures
        dedot_from(base, dotdots(k) + rest) == dedot_from(
            base.take(
                if base.len() >= k {
                    base.len() - k
                } else {
                    0
                } as int,
            ),
            rest,
        ),
        k >= base.len() ==> dedot_from(base, dotdots(k) + rest) == dedot(rest),
{
    lemma_dedot_from_concat(base, dotdots(k), rest);
    lemma_clamp_at_root(base, k);
    if k >= base.len() {
        assert(base.take(0) =~~= Seq::<Seq<char>>::empty());
    }
}

/// Absolute override: an absolute fragment re-roots the join, whatever
/// the base path was.
pub proof fn lemma_absolute_override(
    base: Seq<Seq<char>>,
    base_file: bool,
    frag: Seq<char>,
)
    requires
        frag.len() > 0,
        frag[0] == '/',
    ensures
        join_segs(base, frag) == norm_segments(frag),
        join_file(base_file, frag) == file_shaped(frag),
{
    assert(frag != dot());
    assert(frag != dotdot());
}

/// Literal-token precision: any token other than exactly `.` and `..` —
/// a run of three or more dots, for instance — is kept verbatim by the
/// walk, never treated as a relative-dot operator.
pub proof fn lemma_literal_token(base: Seq<Seq<char>>, toks: Seq<Seq<char>>, t: Seq<char>)
    requires
        !dir_token(t),
    ensures
        dedot_from(base, toks.push(t)) == dedot_from(base, toks).push(t),
{
    assert(toks.push(t).drop_last() =~~= toks);
    assert(toks.push(t).last() == t);
}

/// A relative join is the one walk over the concatenated tokens: seeding
/// the walk with an already-normalized base is the same as walking the
/// base's own segments first.
pub proof fn lemma_join_as_concat(base: Seq<Seq<char>>, toks: Seq<Seq<char>>)
    requires
        forall|i: int| 0 <= i < base.len() ==> valid_segment(#[trigger] base[i]),
    ensures
        dedot(base + toks) == dedot_from(base, toks),
{
    lemma_dedot_from_concat(Seq::<Seq<char>>::empty(), base, toks);
    lemma_dedot_from_valid(Seq::<Seq<char>>::empty(), base);
    assert(Seq::<Seq<char>>::empty() + base =~~= base);
}

#[derive(Debug)]
pub struct RemotePathBuf {
    segments: Vec<String>,
    has_filename: bool,
}

impl RemotePathBuf {
    /// The normalized segments below the root.
    pub closed spec fn segs(&self) -> Seq<Seq<char>> {
        self.segments.deep_view()
    }

    /// Whether the path denotes a file rather than a directory-like
    /// location.
    pub closed spec fn file(&self) -> bool {
        self.has_filename
    }

    /// Well-formed: only plain segments, and the root is never a file.
    pub closed spec fn wf(&self) -> bool {
        &&& forall|i: int| 0 <= i < self.segs().len() ==> valid_segment(#[trigger] self.segs()[i])
        &&& (self.file() ==> self.segs().len() > 0)
    }

    /// The root: no segments, directory-shaped.
    pub fn new() -> (r: Self)
        ensures
            r.segs() == Seq::<Seq<char>>::empty(),
            !r.file(),
            r.wf(),
    {
        let r = RemotePathBuf { segments: Vec::new(), has_filename: false };
        proof {
            assert(r.segs() =~= Seq::<Seq<char>>::empty());
        }
        r
    }

    /// Parse and normalize raw text.
    pub fn from_str(s: &str) -> (r: Self)
        ensures
            r.segs() == norm_segments(s@),
            r.file() == file_shaped(s@),
            r.wf(),
    {
        let toks = split_on(s, '/');
        let file = !dir_token_str(&toks[toks.len() - 1]);
        let base: Vec<String> = Vec::new();
        proof {
            assert(toks.deep_view()[toks.len() - 1] == toks.deep_view().last());
            assert(base.deep_view() =~= Seq::<Seq<char>>::empty());
        }
        let segments = dedot_run(base, &toks);
        let r = RemotePathBuf { segments, has_filename: file };
        proof {
            lemma_split_on_tokens_clean(s@, '/');
            lemma_dedot_from_wf(Seq::<Seq<char>>::empty(), toks.deep_view());
            if file {
                assert(valid_segment(toks.deep_view().last()));
                lemma_dedot_from_file(Seq::<Seq<char>>::empty(), toks.deep_view());
            }
        }
        r
    }

    /// Join a raw fragment onto this path.  An absolute fragment starts
    /// again at the root; the exact fragments `.` and `..` keep the path
    /// and step to its parent; anything else continues the normalization
    /// walk from this path's segments, popping at most to the root.
    pub fn join(&self, fragment: &str) -> (r: Self)
        requires
            self.wf(),
        ensures
            r.wf(),
            r.segs() == join_segs(self.segs(), fragment@),
            r.file() == join_file(self.file(), fragment@),
    {
        if is_dot_str(fragment) {
            return self.clone();
        }
        if is_dotdot_str(fragment) {
            let mut segments = clone_segments(&self.segments);
            let ghost pre = segments.deep_view();
            if segments.len() > 0 {
                segments.pop();
                proof {
                    assert(segments.deep_view() =~~= pre.drop_last());
                }
            }
            proof {
                assert forall|i: int|
                    0 <= i < segments.deep_view().len() implies valid_segment(
                    #[trigger] segments.deep_view()[i],
                ) by {
                    assert(segments.deep_view()[i] == self.segs()[i]);
                }
            }
            return RemotePathBuf { segments, has_filename: false };
        }
        let toks = split_on(fragment, '/');
        let file = !dir_token_str(&toks[toks.len() - 1]);
        proof {
            assert(toks.deep_view()[toks.len() - 1] == toks.deep_view().last());
        }
        let absolute = fragment.unicode_len() > 0 && fragment.get_char(0) == '/';
        let base: Vec<String> = if absolute {
            Vec::new()
        } else {
            clone_segments(&self.segments)
        };
        proof {
            if absolute {
                assert(base.deep_view() =~= Seq::<Seq<char>>::empty());
            }
        }
        let segments = dedot_run(base, &toks);
        let r = RemotePathBuf { segments, has_filename: file };
        proof {
            lemma_split_on_tokens_clean(fragment@, '/');
            lemma_dedot_from_wf(
                if absolute {
                    Seq::<Seq<char>>::empty()
                } else {
                    self.segs()
                },
                toks.deep_view(),
            );
            if file {
                lemma_dedot_from_file(
                    if absolute {
                        Seq::<Seq<char>>::empty()
                    } else {
                        self.segs()
                    },
                    toks.deep_view(),
                );
            }
        }
        r
    }

    /// The textual form: segments joined with `/`, the root as the empty
    /// string, no leading separator.
    pub fn to_str(&self) -> (r: String)
        ensures
            r@ == repr_spec(self.segs()),
    {
        proof {
            reveal_strlit("/");
            assert("/"@ =~= seq!['/']);
        }
        join_with(&self.segments, "/")
    }

    /// The path as its sequence of segments.
    pub fn as_path(&self) -> (r: &Vec<String>)
        ensures
            r.deep_view() == self.segs(),
    {
        &self.segments
    }

    pub fn is_file(&self) -> (r: bool)
        ensures
            r == self.file(),
    {
        self.has_filename
    }

    /// Replace the trailing segment when the path is a file, or append
    /// `name` when it is directory-shaped; the result is a file either
    /// way, with every ancestor segment preserved.
    pub fn set_file_name(&mut self, name: &str)
        requires
            old(self).wf(),
            valid_segment(name@),
        ensures
            final(self).wf(),
            final(self).file(),
            old(self).file() ==> final(self).segs() == old(self).segs().drop_last().push(name@),
            !old(self).file() ==> final(self).segs() == old(self).segs().push(name@),
    {
        let ghost pre = self.segments.deep_view();
        if self.has_filename {
            self.segments.pop();
            proof {
                assert(self.segments.deep_view() =~~= pre.drop_last());
            }
        }
        let ghost mid = self.segments.deep_view();
        self.segments.push(name.to_owned());
        self.has_filename = true;
        proof {
            assert(self.segments.deep_view() =~~= mid.push(name@));
            assert forall|i: int|
                0 <= i < self.segs().len() implies valid_segment(#[trigger] self.segs()[i]) by {
                if i < self.segs().len() - 1 {
                    assert(self.segs()[i] == old(self).segs()[i]);
                }
            }
        }
    }
}

impl Clone for RemotePathBuf {
    /// A clone keeps the segments and the file flag.
    fn clone(&self) -> (r: Self)
        ensures
            r.segs() == self.segs(),
            r.file() == self.file(),
            self.wf() ==> r.wf(),
    {
        let r = RemotePathBuf {
            segments: clone_segments(&self.segments),
            has_filename: self.has_filename,
        };
        proof {
            assert(r.segs() == self.segs());
            if self.wf() {
                assert forall|i: int|
                    0 <= i < r.segs().len() implies valid_segment(#[trigger] r.segs()[i]) by {
                    assert(r.segs()[i] == self.segs()[i]);
                }
            }
        }
        r
    }
}

/// Run the normalization walk over `toks`, continuing from `base`.
pub(crate) fn dedot_run(base: Vec<String>, toks: &Vec<String>) -> (r: Vec<String>)
    ensures
        r.deep_view() == dedot_from(base.deep_view(), toks.deep_view()),
{
    let ghost b0 = base.deep_view();
    let mut stack = base;
    let mut i: usize = 0;
    while i < toks.len()
        invariant
            0 <= i <= toks.len(),
            stack.deep_view() == dedot_from(b0, toks.deep_view().take(i as int)),
        decreases toks.len() - i,
    {
        proof {
            let d = toks.deep_view();
            assert(d.take(i + 1).drop_last() =~= d.take(i as int));
            assert(d.take(i + 1).last() == d[i as int]);
        }
        let ghost pre = stack.deep_view();
        let t = &toks[i];
        if is_empty_str(t) || is_dot_str(t) {
        } else if is_dotdot_str(t) {
            if stack.len() > 0 {
                stack.pop();
                proof {
                    assert(stack.deep_view() =~~= pre.drop_last());
                }
            }
        } else {
            stack.push(t.clone());
            proof {
                assert(stack.deep_view() =~~= pre.push(toks.deep_view()[i as int]));
            }
        }
        i = i + 1;
    }
    proof {
        assert(toks.deep_view().take(toks.len() as int) =~= toks.deep_view());
    }
    stack
}

/// An element-wise copy of the segment vector.
fn clone_segments(v: &Vec<String>) -> (r: Vec<String>)
    ensures
        r.deep_view() == v.deep_view(),
{
    let mut r: Vec<String> = Vec::new();
    let mut i: usize = 0;
    while i < v.len()
        invariant
            0 <= i <= v.len(),
            r.deep_view() == v.deep_view().take(i as int),
        decreases v.len() - i,
    {
        let ghost pre = r.deep_view();
        r.push(v[i].clone());
        proof {
            assert(r.deep_view() =~~= pre.push(v.deep_view()[i as int]));
            assert(pre.push(v.deep_view()[i as int]) =~~= v.deep_view().take(i + 1));
        }
        i = i + 1;
    }
    proof {
        assert(v.deep_view().take(v.len() as int) =~= v.deep_view());
    }
    r
}

pub(crate) fn is_empty_str(t: &str) -> (r: bool)
    ensures
        r == (t@.len() == 0),
{
    t.unicode_len() == 0
}

pub(crate) fn is_dot_str(t: &str) -> (r: bool)
    ensures
        r == (t@ == dot()),
{
    if t.unicode_len() == 1 {
        let c = t.get_char(0);
        proof {
            if c == '.' {
                assert(t@ =~= dot());
            }
        }
        c == '.'
    } else {
        false
    }
}

pub(crate) fn is_dotdot_str(t: &str) -> (r: bool)
    ensures
        r == (t@ == dotdot()),
{
    if t.unicode_len() == 2 {
        let c0 = t.get_char(0);
        let c1 = t.get_char(1);
        proof {
            if c0 == '.' && c1 == '.' {
                assert(t@ =~= dotdot());
            }
        }
        c0 == '.' && c1 == '.'
    } else {
        false
    }
}

/// Whether a token keeps the raw text directory-shaped.
pub(crate) fn dir_token_str(t: &str) -> (r: bool)
    ensures
        r == dir_token(t@),
{
    is_empty_str(t) || is_dot_str(t) || is_dotdot_str(t)
}

} // verus!
