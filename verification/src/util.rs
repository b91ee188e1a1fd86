//! Resolution of transfer names for push and pull.
//!
//! A raw path is *file-shaped* unless its text ends in `.`, `/` or `*`
//! (a wildcard is unsupported and treated as directory-shaped so it is
//! rejected rather than silently mis-transferred).  Pushing or pulling a
//! file needs a concrete destination name: a file-shaped destination is
//! taken as given, a directory-shaped one gets the source's file name
//! appended; remote names are additionally cleaned by the normalization
//! walk.

use vstd::prelude::*;
use vstd::string::*;

use crate::remote_path::{
    dedot_from, dir_token, dot, dotdot, is_dot_str, is_dotdot_str, is_empty_str, join_segs,
    lemma_dedot_from_file, lemma_dedot_from_wf, lemma_normalize_idempotent, norm_segments,
    repr_spec, valid_segment, RemotePathBuf,
};
use crate::text::{
    join_with, join_with_spec, lemma_split_on_len, lemma_split_on_tokens_clean, split_on,
    split_on_spec, token_has_no,
};

verus! {

/// A path-shape violation found while resolving a transfer.
#[derive(Clone, Copy, Debug, PartialEq, Eq, Structural)]
pub enum FormatError {
    /// The source's raw form ends in `.`, `/` or `*`: it names a
    /// directory (or a wildcard), not a single file.
    SourceIsDirectory,
    /// The source has no extractable file name.
    NoFileName,
}

/// File-shaped raw text: does not end in `.`, `/` or `*`.  The empty
/// path is vacuously file-shaped (and is rejected later for having no
/// file name).
pub open spec fn path_is_file_spec(s: Seq<char>) -> bool {
    s.len() == 0 || !(s.last() == '.' || s.last() == '/' || s.last() == '*')
}

/// The final raw token: the text after the last separator.
pub open spec fn source_file_name_spec(s: Seq<char>) -> Seq<char> {
    split_on_spec(s, '/').last()
}

/// The raw tokens that survive as path components: empty tokens and
/// interior `.` tokens are dropped, `..` and ordinary names are kept.
pub open spec fn kept_tokens(toks: Seq<Seq<char>>) -> Seq<Seq<char>>
    decreases toks.len(),
{
    if toks.len() == 0 {
        Seq::<Seq<char>>::empty()
    } else {
        let p = kept_tokens(toks.drop_last());
        if toks.last().len() > 0 && toks.last() != dot() {
            p.push(toks.last())
        } else {
            p
        }
    }
}

/// The components of raw text: its kept tokens, with a leading `.`
/// preserved when the text's very first token is `.`.
pub open spec fn comps_spec(s: Seq<char>) -> Seq<Seq<char>> {
    let raw = split_on_spec(s, '/');
    if raw[0] == dot() {
        seq![dot()] + kept_tokens(raw)
    } else {
        kept_tokens(raw)
    }
}

/// Whether the raw text is anchored at the root.
pub open spec fn has_root(s: Seq<char>) -> bool {
    s.len() > 0 && s[0] == '/'
}

/// Components left after dropping the leading run of `.` and `..`
/// tokens (and, for raw text, the root anchor).
pub open spec fn strip_lead(toks: Seq<Seq<char>>) -> Seq<Seq<char>>
    decreases toks.len(),
{
    if toks.len() > 0 && (toks[0] == dot() || toks[0] == dotdot()) {
        strip_lead(toks.drop_first())
    } else {
        toks
    }
}

/// What removing the `/`, `.` and `..` prefix leaves of raw text.
pub open spec fn remove_prefix_spec(s: Seq<char>) -> Seq<char> {
    join_with_spec(strip_lead(comps_spec(s)), seq!['/'])
}

/// The raw text with its file name replaced by `name`: the final
/// component is dropped when the text is file-shaped or ends in a dot
/// token, kept when it is a directory-shaped plain name; `name` is then
/// appended, and a root anchor is preserved.
pub open spec fn with_file_name_spec(path: Seq<char>, name: Seq<char>) -> Seq<char> {
    let c = comps_spec(path);
    if c.len() == 0 {
        name
    } else {
        let stem = if !path_is_file_spec(path) && c.last() != dot() && c.last() != dotdot() {
            c
        } else {
            c.drop_last()
        };
        let joined = join_with_spec(stem.push(name), seq!['/']);
        if has_root(path) {
            seq!['/'] + joined
        } else {
            joined
        }
    }
}

/// Whether raw text is file-shaped.
pub fn path_is_file(path: &str) -> (r: bool)
    ensures
        r == path_is_file_spec(path@),
{
    let n = path.unicode_len();
    if n == 0 {
        return true;
    }
    let c = path.get_char(n - 1);
    !(c == '.' || c == '/' || c == '*')
}

/// The components of raw text, as executable values.
fn path_comps(path: &str) -> (r: Vec<String>)
    ensures
        r.deep_view() == comps_spec(path@),
{
    let toks = split_on(path, '/');
    let mut r: Vec<String> = Vec::new();
    proof {
        assert(r.deep_view() =~~= Seq::<Seq<char>>::empty());
    }
    if is_dot_str(&toks[0]) {
        proof {
            reveal_strlit(".");
            assert("."@ =~= dot());
        }
        let ghost pre = r.deep_view();
        r.push(String::from_str("."));
        proof {
            assert(r.deep_view() =~~= pre.push(dot()));
        }
    }
    let ghost lead = r.deep_view();
    proof {
        assert(lead + kept_tokens(toks.deep_view().take(0)) =~~= lead);
    }
    let mut i: usize = 0;
    while i < toks.len()
        invariant
            0 <= i <= toks.len(),
            r.deep_view() == lead + kept_tokens(toks.deep_view().take(i as int)),
        decreases toks.len() - i,
    {
        proof {
            let d = toks.deep_view();
            assert(d.take(i + 1).drop_last() =~= d.take(i as int));
            assert(d.take(i + 1).last() == d[i as int]);
        }
        let t = &toks[i];
        if !is_empty_str(t) && !is_dot_str(t) {
            let ghost pre = r.deep_view();
            r.push(t.clone());
            proof {
                assert(r.deep_view() =~~= pre.push(toks.deep_view()[i as int]));
                assert(pre.push(toks.deep_view()[i as int]) =~~= lead + kept_tokens(
                    toks.deep_view().take(i + 1),
                ));
            }
        }
        i = i + 1;
    }
    proof {
        assert(toks.deep_view().take(toks.len() as int) =~= toks.deep_view());
        if toks.deep_view()[0] == dot() {
            assert(lead =~~= seq![dot()]);
        } else {
            assert(lead =~~= Seq::<Seq<char>>::empty());
            assert(r.deep_view() =~~= kept_tokens(toks.deep_view()));
        }
    }
    r
}

/// Remove the leading `/`, `.` and `..` tokens from a path, and drop
/// empty and interior `.` components.
pub fn path_remove_prefix(path: &str) -> (r: String)
    ensures
        r@ == remove_prefix_spec(path@),
{
    let comps = path_comps(path);
    let ghost d = comps.deep_view();
    let mut i: usize = 0;
    proof {
        assert(d.skip(0) =~~= d);
    }
    while i < comps.len() && (is_dot_str(&comps[i]) || is_dotdot_str(&comps[i]))
        invariant
            0 <= i <= comps.len(),
            d == comps.deep_view(),
            strip_lead(d) == strip_lead(d.skip(i as int)),
        decreases comps.len() - i,
    {
        proof {
            assert(d.skip(i as int)[0] == d[i as int]);
            assert(d.skip(i as int).drop_first() =~~= d.skip(i + 1));
        }
        i = i + 1;
    }
    proof {
        if i < comps.len() {
            assert(d.skip(i as int)[0] == d[i as int]);
        }
        assert(strip_lead(d.skip(i as int)) == d.skip(i as int));
    }
    let mut rest: Vec<String> = Vec::new();
    let mut j: usize = i;
    proof {
        assert(rest.deep_view() =~~= d.subrange(i as int, i as int));
    }
    while j < comps.len()
        invariant
            0 <= i <= j <= comps.len(),
            d == comps.deep_view(),
            rest.deep_view() == d.subrange(i as int, j as int),
        decreases comps.len() - j,
    {
        let ghost pre = rest.deep_view();
        rest.push(comps[j].clone());
        proof {
            assert(rest.deep_view() =~~= pre.push(d[j as int]));
            assert(pre.push(d[j as int]) =~~= d.subrange(i as int, j + 1));
        }
        j = j + 1;
    }
    proof {
        assert(d.subrange(i as int, comps.len() as int) =~~= d.skip(i as int));
        reveal_strlit("/");
        assert("/"@ =~= seq!['/']);
    }
    join_with(&rest, "/")
}

/// The file name of a transfer source.  A directory-shaped source is
/// rejected, as is one with no extractable name (the empty path).
pub fn get_source_file_name(source: &str) -> (r: Result<String, FormatError>)
    ensures
        !path_is_file_spec(source@) ==> r == Err::<String, FormatError>(
            FormatError::SourceIsDirectory,
        ),
        path_is_file_spec(source@) && source@.len() == 0 ==> r == Err::<String, FormatError>(
            FormatError::NoFileName,
        ),
        path_is_file_spec(source@) && source@.len() > 0 ==> r is Ok && r.unwrap()@
            == source_file_name_spec(source@),
{
    if !path_is_file(source) {
        return Err(FormatError::SourceIsDirectory);
    }
    if source.unicode_len() == 0 {
        return Err(FormatError::NoFileName);
    }
    let mut toks = split_on(source, '/');
    let name = toks.pop().unwrap();
    proof {
        assert(name@ == split_on_spec(source@, '/').last());
    }
    Ok(name)
}

/// The file name of a file-shaped non-empty source is a plain segment
/// and ends in the source's own last character.
pub proof fn lemma_source_file_name(s: Seq<char>)
    requires
        s.len() > 0,
        path_is_file_spec(s),
    ensures
        valid_segment(source_file_name_spec(s)),
        source_file_name_spec(s).last() == s.last(),
{
    lemma_split_on_len(s.drop_last(), '/');
    lemma_split_on_tokens_clean(s, '/');
    let prev = split_on_spec(s.drop_last(), '/');
    let t = source_file_name_spec(s);
    assert(t == prev.last().push(s.last()));
    assert(t.last() == s.last());
    assert(t != dot() && t != dotdot()) by {
        assert(dot().last() == '.');
        assert(dotdot().last() == '.');
    }
    assert(split_on_spec(s, '/')[split_on_spec(s, '/').len() - 1] == t);
}

/// Replace the file name of a path, handling a trailing `.`, `..` or
/// separator by dropping that component rather than nesting under it.
pub fn path_with_file_name(path: &str, name: &str) -> (r: String)
    ensures
        r@ == with_file_name_spec(path@, name@),
{
    let comps = path_comps(path);
    if comps.len() == 0 {
        return name.to_owned();
    }
    let mut stem = comps;
    let keep_last = {
        let last = &stem[stem.len() - 1];
        proof {
            assert(stem.deep_view()[stem.deep_view().len() - 1] == stem.deep_view().last());
        }
        !path_is_file(path) && !is_dot_str(last) && !is_dotdot_str(last)
    };
    let ghost c = stem.deep_view();
    if !keep_last {
        stem.pop();
        proof {
            assert(stem.deep_view() =~~= c.drop_last());
        }
    }
    let ghost base = stem.deep_view();
    stem.push(name.to_owned());
    proof {
        assert(stem.deep_view() =~~= base.push(name@));
        reveal_strlit("/");
        assert("/"@ =~= seq!['/']);
    }
    let joined = join_with(&stem, "/");
    let n = path.unicode_len();
    if n > 0 && path.get_char(0) == '/' {
        proof {
            reveal_strlit("/");
        }
        let mut r = String::from_str("/");
        r.append(joined.as_str());
        proof {
            assert(r@ =~= seq!['/'] + joined@);
        }
        r
    } else {
        joined
    }
}

/// Remote text run through the normalization walk: no dot tokens, no
/// doubled or leading separators.
pub open spec fn clean_path_spec(s: Seq<char>) -> Seq<char> {
    repr_spec(norm_segments(s))
}

/// The destination text a push resolves to: a file-shaped destination
/// cleaned, a directory-shaped one with the source's file name appended
/// and then cleaned.
pub open spec fn push_dest_spec(src: Seq<char>, dst: Seq<char>) -> Seq<char> {
    if path_is_file_spec(dst) {
        clean_path_spec(dst)
    } else {
        clean_path_spec(with_file_name_spec(dst, source_file_name_spec(src)))
    }
}

/// The destination text a pull resolves to: as for push, but the result
/// is a local path and is not cleaned.
pub open spec fn pull_dest_spec(src: Seq<char>, dst: Seq<char>) -> Seq<char> {
    if path_is_file_spec(dst) {
        dst
    } else {
        with_file_name_spec(dst, source_file_name_spec(src))
    }
}

/// Run raw text through the normalization walk.
fn clean_path(s: &str) -> (r: String)
    ensures
        r@ == clean_path_spec(s@),
{
    RemotePathBuf::from_str(s).to_str()
}

/// Format a pull source so it is safe in a request path: reject a
/// directory-shaped source, then strip the leading dots and separators
/// and remove dot tokens.
pub fn format_source_pull(source: &str) -> (r: Result<String, FormatError>)
    ensures
        !path_is_file_spec(source@) ==> r == Err::<String, FormatError>(
            FormatError::SourceIsDirectory,
        ),
        path_is_file_spec(source@) && source@.len() == 0 ==> r == Err::<String, FormatError>(
            FormatError::NoFileName,
        ),
        path_is_file_spec(source@) && source@.len() > 0 ==> r is Ok && r.unwrap()@
            == clean_path_spec(source@),
{
    match get_source_file_name(source) {
        Err(e) => Err(e),
        Ok(_) => Ok(clean_path(source)),
    }
}

/// Resolve the destination of a pull from the source's name: a
/// file-shaped destination is used as given; a directory-shaped one
/// gets the source's file name.  The result is a local path and keeps
/// its raw form.
pub fn format_destination_pull(source: &str, destination: &str) -> (r: Result<
    String,
    FormatError,
>)
    ensures
        !path_is_file_spec(source@) ==> r == Err::<String, FormatError>(
            FormatError::SourceIsDirectory,
        ),
        path_is_file_spec(source@) && source@.len() == 0 ==> r == Err::<String, FormatError>(
            FormatError::NoFileName,
        ),
        path_is_file_spec(source@) && source@.len() > 0 ==> r is Ok && r.unwrap()@
            == pull_dest_spec(source@, destination@),
{
    let name = match get_source_file_name(source) {
        Err(e) => {
            return Err(e);
        },
        Ok(n) => n,
    };
    if path_is_file(destination) {
        Ok(destination.to_owned())
    } else {
        Ok(path_with_file_name(destination, name.as_str()))
    }
}

/// Resolve the destination of a push from the source's name, and clean
/// it for use in a request path.
pub fn format_destination_push(source: &str, destination: &str) -> (r: Result<
    String,
    FormatError,
>)
    ensures
        !path_is_file_spec(source@) ==> r == Err::<String, FormatError>(
            FormatError::SourceIsDirectory,
        ),
        path_is_file_spec(source@) && source@.len() == 0 ==> r == Err::<String, FormatError>(
            FormatError::NoFileName,
        ),
        path_is_file_spec(source@) && source@.len() > 0 ==> r is Ok && r.unwrap()@
            == push_dest_spec(source@, destination@),
{
    let name = match get_source_file_name(source) {
        Err(e) => {
            return Err(e);
        },
        Ok(n) => n,
    };
    if path_is_file(destination) {
        Ok(clean_path(destination))
    } else {
        let combined = path_with_file_name(destination, name.as_str());
        Ok(clean_path(combined.as_str()))
    }
}

/// The absolute text a join resolves to: `.` keeps the start text
/// unchanged; anything else joins onto the normalized start and is
/// printed with a root anchor.
pub open spec fn join_dedot_spec(start: Seq<char>, end: Seq<char>) -> Seq<char> {
    if end == dot() {
        start
    } else {
        seq!['/'] + repr_spec(join_segs(norm_segments(start), end))
    }
}

/// Join two pieces of absolute raw text, normalizing the result; the
/// result carries a leading separator and `..` clamps at the root.
pub fn join_dedot_path(start: &str, end: &str) -> (r: String)
    ensures
        r@ == join_dedot_spec(start@, end@),
{
    if is_dot_str(end) {
        return start.to_owned();
    }
    let base = RemotePathBuf::from_str(start);
    let joined = base.join(end);
    proof {
        reveal_strlit("/");
        assert("/"@ =~= seq!['/']);
    }
    let mut r = String::from_str("/");
    let tail = joined.to_str();
    r.append(tail.as_str());
    proof {
        assert(r@ =~= seq!['/'] + repr_spec(join_segs(norm_segments(start@), end@)));
    }
    r
}

/// Shape rejection: raw text that ends in `.`, `/` or `*` is never
/// file-shaped, so pull-source and push-destination formatting reject
/// it as a directory.
pub proof fn lemma_shape_rejected(s: Seq<char>)
    requires
        s.len() > 0,
        s.last() == '.' || s.last() == '/' || s.last() == '*',
    ensures
        !path_is_file_spec(s),
{
}

/// The last printed character of non-empty segments is the last
/// character of the last segment.
proof fn lemma_repr_last(segs: Seq<Seq<char>>)
    requires
        segs.len() > 0,
        segs.last().len() > 0,
    ensures
        repr_spec(segs).len() > 0,
        repr_spec(segs).last() == segs.last().last(),
{
    if segs.len() == 1 {
        assert(repr_spec(segs) == segs[0]);
    } else {
        let front = join_with_spec(segs.drop_last(), seq!['/']) + seq!['/'];
        assert(repr_spec(segs) == front + segs.last());
        assert((front + segs.last()).last() == segs.last().last());
    }
}

/// Normalizing non-empty file-shaped text keeps a last segment, which
/// ends in the text's own final character.
proof fn lemma_norm_file_tail(x: Seq<char>)
    requires
        x.len() > 0,
        path_is_file_spec(x),
    ensures
        norm_segments(x).len() > 0,
        norm_segments(x).last() == source_file_name_spec(x),
        norm_segments(x).last().len() > 0,
        norm_segments(x).last().last() == x.last(),
{
    lemma_source_file_name(x);
    lemma_split_on_len(x.drop_last(), '/');
    assert(split_on_spec(x, '/').len() > 0);
    assert(!dir_token(split_on_spec(x, '/').last()));
    lemma_dedot_from_file(Seq::<Seq<char>>::empty(), split_on_spec(x, '/'));
}

/// The final raw token of a path whose file name was replaced is the
/// new name.
proof fn lemma_with_file_name_last_token(path: Seq<char>, name: Seq<char>)
    requires
        token_has_no(name, '/'),
    ensures
        source_file_name_spec(with_file_name_spec(path, name)) == name,
{
    let c = comps_spec(path);
    if c.len() == 0 {
        crate::text::lemma_split_on_clean(name, '/');
    } else {
        let stem = if !path_is_file_spec(path) && c.last() != dot() && c.last() != dotdot() {
            c
        } else {
            c.drop_last()
        };
        let joined = join_with_spec(stem.push(name), seq!['/']);
        if stem.len() == 0 {
            assert(stem.push(name).len() == 1);
            assert(joined == name);
            if has_root(path) {
                assert(seq!['/'] + joined =~= Seq::<char>::empty() + seq!['/'] + name);
                crate::text::lemma_split_on_append(Seq::<char>::empty(), name, '/');
                crate::text::lemma_split_on_len(Seq::<char>::empty(), '/');
            } else {
                crate::text::lemma_split_on_clean(name, '/');
            }
        } else {
            assert(stem.push(name).drop_last() =~~= stem);
            assert(joined == join_with_spec(stem, seq!['/']) + seq!['/'] + name);
            crate::text::lemma_split_on_append(join_with_spec(stem, seq!['/']), name, '/');
            crate::text::lemma_split_on_len(join_with_spec(stem, seq!['/']), '/');
            if has_root(path) {
                assert(seq!['/'] + joined =~= (seq!['/'] + join_with_spec(stem, seq!['/']))
                    + seq!['/'] + name);
                crate::text::lemma_split_on_append(
                    seq!['/'] + join_with_spec(stem, seq!['/']),
                    name,
                    '/',
                );
                crate::text::lemma_split_on_len(seq!['/'] + join_with_spec(stem, seq!['/']), '/');
            }
        }
    }
}

/// Round trip: push-destination formatting is stable after one
/// application — a destination it has already cleaned passes through a
/// second application unchanged.
pub proof fn lemma_push_destination_stable(src: Seq<char>, dst: Seq<char>)
    requires
        src.len() > 0,
        path_is_file_spec(src),
    ensures
        path_is_file_spec(push_dest_spec(src, dst)),
        push_dest_spec(src, push_dest_spec(src, dst)) == push_dest_spec(src, dst),
{
    let name = source_file_name_spec(src);
    let x = if path_is_file_spec(dst) {
        dst
    } else {
        with_file_name_spec(dst, name)
    };
    let segs = norm_segments(x);
    let r = push_dest_spec(src, dst);
    assert(r == repr_spec(segs));
    lemma_split_on_tokens_clean(x, '/');
    lemma_dedot_from_wf(Seq::<Seq<char>>::empty(), split_on_spec(x, '/'));
    lemma_source_file_name(src);
    if segs.len() == 0 {
        assert(r.len() == 0);
        assert(path_is_file_spec(r));
        lemma_normalize_idempotent(segs);
    } else {
        if path_is_file_spec(dst) {
            if dst.len() == 0 {
                let toks0 = split_on_spec(dst, '/');
                assert(toks0 =~~= seq![Seq::<char>::empty()]);
                assert(toks0.drop_last() =~~= Seq::<Seq<char>>::empty());
                assert(toks0.last() == Seq::<char>::empty());
                let b = Seq::<Seq<char>>::empty();
                assert(dedot_from(b, toks0.drop_last()) == b);
                assert(dedot_from(b, toks0) == crate::remote_path::dedot_step(b, toks0.last()));
                assert(segs.len() == 0);
            } else {
                lemma_norm_file_tail(dst);
                lemma_repr_last(segs);
                assert(path_is_file_spec(r));
            }
        } else {
            lemma_with_file_name_last_token(dst, name);
            assert(!dir_token(name));
            lemma_dedot_from_file(Seq::<Seq<char>>::empty(), split_on_spec(x, '/'));
            assert(segs.last() == name);
            lemma_repr_last(segs);
            assert(r.last() == name.last());
            assert(r.last() == src.last());
            assert(path_is_file_spec(r));
        }
        lemma_normalize_idempotent(segs);
        assert(push_dest_spec(src, r) == repr_spec(norm_segments(r)));
        assert(norm_segments(r) == segs);
    }
}

} // verus!
