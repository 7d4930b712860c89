use vstd::prelude::*;

use crate::text::{chars_of, string_of, append_chars, vec_starts_with, starts_with};

verus! {

/// Query and fragment markers: the request path ends before the first of them.
pub open spec fn is_query_mark(c: char) -> bool {
    c == '?' || c == '#'
}

/// Every backslash turned into a forward slash.
pub open spec fn unify_separators(s: Seq<char>) -> Seq<char> {
    s.map_values(|c: char| if c == '\\' { '/' } else { c })
}

/// The part of `s` before its first `?` or `#` (all of `s` if it has none).
pub open spec fn strip_query(s: Seq<char>) -> Seq<char>
    decreases s.len(),
{
    if s.len() == 0 {
        s
    } else if is_query_mark(s[0]) {
        Seq::empty()
    } else {
        seq![s[0]] + strip_query(s.drop_first())
    }
}

/// `s` split at every `/`, as `str::split('/')` does: `k` slashes give
/// `k + 1` pieces, some of them possibly empty.
pub open spec fn split_slash(s: Seq<char>) -> Seq<Seq<char>>
    decreases s.len(),
{
    if s.len() == 0 {
        seq![Seq::empty()]
    } else {
        let prev = split_slash(s.drop_last());
        if s.last() == '/' {
            prev.push(Seq::empty())
        } else {
            prev.update(prev.len() - 1, prev.last().push(s.last()))
        }
    }
}

/// A path segment that survives cleaning: not empty, not `.`, not `..`.
pub open spec fn is_kept_segment(seg: Seq<char>) -> bool {
    seg.len() > 0 && seg != seq!['.'] && seg != seq!['.', '.']
}

/// The segments joined with `/` between consecutive ones.
pub open spec fn join_slash(segs: Seq<Seq<char>>) -> Seq<char>
    decreases segs.len(),
{
    if segs.len() == 0 {
        Seq::empty()
    } else if segs.len() == 1 {
        segs[0]
    } else {
        join_slash(segs.drop_last()) + seq!['/'] + segs.last()
    }
}

/// `/` when `p` starts at the root, nothing otherwise.
pub open spec fn root_prefix(p: Seq<char>) -> Seq<char> {
    if p.len() > 0 && p[0] == '/' {
        seq!['/']
    } else {
        Seq::empty()
    }
}

/// The kept segments of a path (without query), in order.
pub open spec fn kept_segments(p: Seq<char>) -> Seq<Seq<char>> {
    split_slash(p).filter(|seg: Seq<char>| is_kept_segment(seg))
}

/// The path part of a request target (separators unified, query and
/// fragment removed).
pub open spec fn request_path(raw: Seq<char>) -> Seq<char> {
    strip_query(unify_separators(raw))
}

/// The cleaned form of a raw request path: backslashes read as slashes, the
/// query and fragment dropped, and the path rebuilt from its ordinary
/// segments only (empty, `.` and `..` segments are left out), rooted at `/`
/// when the path was.
pub open spec fn cleaned(raw: Seq<char>) -> Seq<char> {
    let p = request_path(raw);
    root_prefix(p) + join_slash(kept_segments(p))
}

proof fn lemma_strip_query_take(s: Seq<char>, k: int)
    requires
        0 <= k <= s.len(),
        forall|j: int| 0 <= j < k ==> !is_query_mark(#[trigger] s[j]),
        k == s.len() || is_query_mark(s[k]),
    ensures
        strip_query(s) == s.take(k),
    decreases s.len(),
{
    if s.len() == 0 {
        assert(s.take(k) =~= s);
    } else if k == 0 {
        assert(s.take(k) =~= Seq::<char>::empty());
    } else {
        let t = s.drop_first();
        assert forall|j: int| 0 <= j < k - 1 implies !is_query_mark(#[trigger] t[j]) by {
            assert(t[j] == s[j + 1]);
        }
        assert(k - 1 == t.len() || t[k - 1] == s[k]);
        lemma_strip_query_take(t, k - 1);
        assert(seq![s[0]] + t.take(k - 1) =~= s.take(k));
    }
}

proof fn lemma_split_nonempty(s: Seq<char>)
    ensures
        split_slash(s).len() >= 1,
    decreases s.len(),
{
    if s.len() > 0 {
        lemma_split_nonempty(s.drop_last());
    }
}

/// Splitting a text with no `/` gives the text itself as the only piece.
proof fn lemma_split_no_slash(s: Seq<char>)
    requires
        !s.contains('/'),
    ensures
        split_slash(s) == seq![s],
    decreases s.len(),
{
    if s.len() > 0 {
        let d = s.drop_last();
        assert(!d.contains('/')) by {
            if d.contains('/') {
                let j = choose|j: int| 0 <= j < d.len() && d[j] == '/';
                assert(s[j] == '/');
            }
        }
        lemma_split_no_slash(d);
        assert(s.last() != '/') by {
            assert(s[s.len() - 1] == s.last());
        }
        assert(d.push(s.last()) =~= s);
        assert(split_slash(s) =~= seq![s]);
    } else {
        assert(s =~= Seq::<char>::empty());
    }
}

/// Splitting `a / b` gives the pieces of `a` followed by those of `b`.
proof fn lemma_split_concat(a: Seq<char>, b: Seq<char>)
    ensures
        split_slash(a + seq!['/'] + b) == split_slash(a) + split_slash(b),
    decreases b.len(),
{
    let x = a + seq!['/'] + b;
    if b.len() == 0 {
        assert(x.drop_last() =~= a);
        assert(x.last() == '/');
        assert(split_slash(x) =~= split_slash(a) + split_slash(b));
    } else {
        let bd = b.drop_last();
        lemma_split_concat(a, bd);
        lemma_split_nonempty(bd);
        lemma_split_nonempty(a);
        assert(x.drop_last() =~= a + seq!['/'] + bd);
        assert(x.last() == b.last());
        let sa = split_slash(a);
        let sb = split_slash(bd);
        if b.last() == '/' {
            assert(split_slash(x) =~= sa + sb.push(Seq::empty()));
        } else {
            assert((sa + sb).last() == sb.last());
            assert(split_slash(x) =~= sa + sb.update(sb.len() - 1, sb.last().push(b.last())));
        }
    }
}

/// Segments that hold no `/` come back from splitting their join.
proof fn lemma_split_join(segs: Seq<Seq<char>>)
    requires
        segs.len() > 0,
        forall|i: int| 0 <= i < segs.len() ==> !(#[trigger] segs[i]).contains('/'),
    ensures
        split_slash(join_slash(segs)) == segs,
    decreases segs.len(),
{
    if segs.len() == 1 {
        lemma_split_no_slash(segs[0]);
        assert(seq![segs[0]] =~= segs);
    } else {
        let d = segs.drop_last();
        assert forall|i: int| 0 <= i < d.len() implies !(#[trigger] d[i]).contains('/') by {
            assert(d[i] == segs[i]);
        }
        lemma_split_join(d);
        lemma_split_concat(join_slash(d), segs.last());
        lemma_split_no_slash(segs.last());
        assert(d + seq![segs.last()] =~= segs);
    }
}

/// Joining segments with `/` brings in no character other than `/`: a
/// character that no segment holds is not in the join.
proof fn lemma_join_chars(segs: Seq<Seq<char>>, c: char)
    requires
        c != '/',
        forall|i: int| 0 <= i < segs.len() ==> !(#[trigger] segs[i]).contains(c),
    ensures
        !join_slash(segs).contains(c),
    decreases segs.len(),
{
    if segs.len() == 1 {
    } else if segs.len() > 1 {
        let d = segs.drop_last();
        assert forall|i: int| 0 <= i < d.len() implies !(#[trigger] d[i]).contains(c) by {
            assert(d[i] == segs[i]);
        }
        lemma_join_chars(d, c);
        let j = join_slash(d) + seq!['/'] + segs.last();
        if j.contains(c) {
            let k = choose|k: int| 0 <= k < j.len() && j[k] == c;
            if k < join_slash(d).len() {
                assert(join_slash(d)[k] == c);
            } else if k > join_slash(d).len() {
                assert(segs.last()[k - join_slash(d).len() - 1] == c);
            }
        }
    }
}

/// Every piece of a split holds no `/`, and every char of every piece comes
/// from the text split.
proof fn lemma_split_pieces(s: Seq<char>)
    ensures
        forall|i: int| 0 <= i < split_slash(s).len() ==> !(#[trigger] split_slash(s)[i]).contains('/'),
        forall|i: int, c: char| 0 <= i < split_slash(s).len() && #[trigger] split_slash(s)[i].contains(c) ==> s.contains(c),
    decreases s.len(),
{
    if s.len() > 0 {
        let d = s.drop_last();
        lemma_split_pieces(d);
        lemma_split_nonempty(d);
        let prev = split_slash(d);
        assert forall|i: int, c: char| 0 <= i < prev.len() && #[trigger] prev[i].contains(c) implies s.contains(c) by {
            let k = choose|k: int| 0 <= k < d.len() && d[k] == c;
            assert(s[k] == c);
        }
        if s.last() == '/' {
            assert forall|i: int| 0 <= i < split_slash(s).len() implies !(#[trigger] split_slash(s)[i]).contains('/') by {
                if i < prev.len() {
                    assert(split_slash(s)[i] == prev[i]);
                } else {
                    assert(split_slash(s)[i] =~= Seq::<char>::empty());
                }
            }
            assert forall|i: int, c: char| 0 <= i < split_slash(s).len() && #[trigger] split_slash(s)[i].contains(c) implies s.contains(c) by {
                if i < prev.len() {
                    assert(split_slash(s)[i] == prev[i]);
                } else {
                    assert(split_slash(s)[i] =~= Seq::<char>::empty());
                }
            }
        } else {
            let l = prev.last().push(s.last());
            assert(s[s.len() - 1] == s.last());
            assert forall|i: int| 0 <= i < split_slash(s).len() implies !(#[trigger] split_slash(s)[i]).contains('/') by {
                if i < prev.len() - 1 {
                    assert(split_slash(s)[i] == prev[i]);
                } else {
                    assert(split_slash(s)[i] == l);
                    assert(prev[prev.len() - 1] == prev.last());
                    if l.contains('/') {
                        let k = choose|k: int| 0 <= k < l.len() && l[k] == '/';
                        if k < prev.last().len() {
                            assert(prev.last()[k] == '/');
                        }
                    }
                }
            }
            assert forall|i: int, c: char| 0 <= i < split_slash(s).len() && #[trigger] split_slash(s)[i].contains(c) implies s.contains(c) by {
                if i < prev.len() - 1 {
                    assert(split_slash(s)[i] == prev[i]);
                } else {
                    assert(split_slash(s)[i] == l);
                    assert(prev[prev.len() - 1] == prev.last());
                    let k = choose|k: int| 0 <= k < l.len() && l[k] == c;
                    if k < prev.last().len() {
                        assert(prev.last()[k] == c);
                        assert(prev[prev.len() - 1].contains(c));
                    } else {
                        assert(s[s.len() - 1] == c);
                    }
                }
            }
        }
    }
}


fn unify_char(c: char) -> (r: char)
    ensures
        r == (if c == '\\' { '/' } else { c }),
{
    if c == '\\' {
        '/'
    } else {
        c
    }
}

fn is_query_mark_exec(c: char) -> (r: bool)
    ensures
        r == is_query_mark(c),
{
    c == '?' || c == '#'
}

/// The path part of a raw request target, as characters.
fn request_path_chars(v: &Vec<char>) -> (p: Vec<char>)
    ensures
        p@ == request_path(v@),
{
    let ghost u = unify_separators(v@);
    let mut p: Vec<char> = Vec::new();
    let mut i: usize = 0;
    while i < v.len() && !is_query_mark_exec(unify_char(v[i]))
        invariant
            i <= v.len(),
            u.len() == v@.len(),
            u == unify_separators(v@),
            p@ == u.take(i as int),
            forall|j: int| 0 <= j < i ==> !is_query_mark(#[trigger] u[j]),
        decreases v.len() - i,
    {
        let c = unify_char(v[i]);
        p.push(c);
        i = i + 1;
        assert(u.take(i as int) =~= u.take((i - 1) as int).push(u[i - 1]));
    }
    proof {
        lemma_strip_query_take(u, i as int);
    }
    p
}

fn is_kept_exec(seg: &Vec<char>) -> (r: bool)
    ensures
        r == is_kept_segment(seg@),
{
    let n: usize = seg.len();
    if n == 0 {
        return false;
    }
    if n == 1 && seg[0] == '.' {
        assert(seg@ =~= seq!['.']);
        return false;
    }
    if n == 2 && seg[0] == '.' && seg[1] == '.' {
        assert(seg@ =~= seq!['.', '.']);
        return false;
    }
    assert(seg@ != seq!['.']) by {
        if n == 1 {
            assert(seg@[0] != seq!['.'][0]);
        }
    }
    assert(seg@ != seq!['.', '.']) by {
        if n == 2 {
            assert(seg@[0] != seq!['.', '.'][0] || seg@[1] != seq!['.', '.'][1]);
        }
    }
    true
}

proof fn lemma_join_push(segs: Seq<Seq<char>>, seg: Seq<char>)
    ensures
        join_slash(segs.push(seg)) == if segs.len() == 0 {
            seg
        } else {
            join_slash(segs) + seq!['/'] + seg
        },
{
    assert(segs.push(seg).drop_last() =~= segs);
}

/// Adds a finished segment to the output when it is kept.
fn emit_segment(out: &mut Vec<char>, any: bool, seg: &Vec<char>) -> (kept: bool)
    ensures
        kept == is_kept_segment(seg@),
        final(out)@ == if !kept {
            old(out)@
        } else if any {
            old(out)@ + seq!['/'] + seg@
        } else {
            old(out)@ + seg@
        },
{
    if is_kept_exec(seg) {
        if any {
            out.push('/');
        }
        append_chars(out, seg);
        true
    } else {
        false
    }
}

/// The cleaned form of a request path (query already removed).
fn clean_chars(p: &Vec<char>) -> (out: Vec<char>)
    ensures
        out@ == root_prefix(p@) + join_slash(kept_segments(p@)),
{
    let mut out: Vec<char> = Vec::new();
    if p.len() > 0 && p[0] == '/' {
        out.push('/');
    }
    assert(out@ =~= root_prefix(p@));
    let mut cur: Vec<char> = Vec::new();
    let mut any = false;
    let mut i: usize = 0;
    let ghost keep = |seg: Seq<char>| is_kept_segment(seg);
    assert(p@.take(0) =~= Seq::<char>::empty());
    assert(split_slash(p@.take(0)).drop_last() =~= Seq::<Seq<char>>::empty());
    assert(Seq::<Seq<char>>::empty().filter(keep) =~= Seq::<Seq<char>>::empty());
    while i < p.len()
        invariant
            i <= p.len(),
            keep == (|seg: Seq<char>| is_kept_segment(seg)),
            split_slash(p@.take(i as int)).len() >= 1,
            split_slash(p@.take(i as int)).last() == cur@,
            out@ == root_prefix(p@) + join_slash(split_slash(p@.take(i as int)).drop_last().filter(keep)),
            any == (split_slash(p@.take(i as int)).drop_last().filter(keep).len() > 0),
        decreases p.len() - i,
    {
        let ghost sp = split_slash(p@.take(i as int));
        let ghost done = sp.drop_last().filter(keep);
        let c = p[i];
        assert(p@.take(i + 1).drop_last() =~= p@.take(i as int));
        assert(p@.take(i + 1).last() == c);
        if c == '/' {
            let kept = emit_segment(&mut out, any, &cur);
            proof {
                assert(sp.drop_last().push(sp.last()) =~= sp);
                sp.drop_last().lemma_filter_push(sp.last(), keep);
                lemma_join_push(done, cur@);
                assert(split_slash(p@.take(i + 1)).drop_last() =~= sp);
            }
            if kept {
                any = true;
            }
            cur = Vec::new();
        } else {
            cur.push(c);
            proof {
                assert(split_slash(p@.take(i + 1)).drop_last() =~= sp.drop_last());
            }
        }
        i = i + 1;
    }
    let ghost sp = split_slash(p@.take(i as int));
    let ghost done = sp.drop_last().filter(keep);
    emit_segment(&mut out, any, &cur);
    proof {
        assert(p@.take(i as int) =~= p@);
        assert(sp.drop_last().push(sp.last()) =~= sp);
        sp.drop_last().lemma_filter_push(sp.last(), keep);
        lemma_join_push(done, cur@);
    }
    out
}

/// Cleans a raw request path: backslashes are read as slashes, everything
/// from the first `?` or `#` on is dropped, and the path is rebuilt from its
/// ordinary segments only, so that no `.`, `..` or empty segment is left.
/// A path that starts with a slash keeps exactly one leading slash.
pub fn clean_path(raw: &str) -> (r: String)
    ensures
        r@ == cleaned(raw@),
{
    let v = chars_of(raw);
    let p = request_path_chars(&v);
    let out = clean_chars(&p);
    string_of(&out)
}


proof fn lemma_filter_all_kept(s: Seq<Seq<char>>)
    requires
        forall|i: int| 0 <= i < s.len() ==> is_kept_segment(#[trigger] s[i]),
    ensures
        s.filter(|seg: Seq<char>| is_kept_segment(seg)) == s,
    decreases s.len(),
{
    reveal(Seq::filter);
    if s.len() > 0 {
        let d = s.drop_last();
        assert forall|i: int| 0 <= i < d.len() implies is_kept_segment(#[trigger] d[i]) by {
            assert(d[i] == s[i]);
        }
        lemma_filter_all_kept(d);
        assert(is_kept_segment(s[s.len() - 1]));
        assert(d.push(s.last()) =~= s);
    }
}

proof fn lemma_filter_empty_piece()
    ensures
        seq![Seq::<char>::empty()].filter(|seg: Seq<char>| is_kept_segment(seg)) == Seq::<Seq<char>>::empty(),
{
    reveal(Seq::filter);
    let keep = |seg: Seq<char>| is_kept_segment(seg);
    let none = Seq::<Seq<char>>::empty();
    none.lemma_filter_push(Seq::<char>::empty(), keep);
    assert(none.push(Seq::<char>::empty()) =~= seq![Seq::<char>::empty()]);
    assert(none.filter(keep) =~= none);
}

proof fn lemma_strip_query_chars(s: Seq<char>)
    ensures
        forall|c: char| #[trigger] strip_query(s).contains(c) ==> s.contains(c) && !is_query_mark(c),
    decreases s.len(),
{
    if s.len() > 0 && !is_query_mark(s[0]) {
        let t = s.drop_first();
        lemma_strip_query_chars(t);
        assert forall|c: char| #[trigger] strip_query(s).contains(c) implies s.contains(c) && !is_query_mark(c) by {
            let r = strip_query(s);
            let k = choose|k: int| 0 <= k < r.len() && r[k] == c;
            if k > 0 {
                assert(strip_query(t)[k - 1] == c);
                assert(strip_query(t).contains(c));
                let m = choose|m: int| 0 <= m < t.len() && t[m] == c;
                assert(s[m + 1] == c);
            } else {
                assert(s[0] == c);
            }
        }
    }
}

/// The request path holds no backslash and no query or fragment marker.
proof fn lemma_request_path_chars(raw: Seq<char>)
    ensures
        !request_path(raw).contains('\\'),
        !request_path(raw).contains('?'),
        !request_path(raw).contains('#'),
{
    let u = unify_separators(raw);
    lemma_strip_query_chars(u);
    if request_path(raw).contains('\\') {
        assert(u.contains('\\'));
        let k = choose|k: int| 0 <= k < u.len() && u[k] == '\\';
        assert(u[k] == (if raw[k] == '\\' { '/' } else { raw[k] }));
    }
}

/// Properties of the kept segments of a request path.
proof fn lemma_kept_segments_plain(raw: Seq<char>)
    ensures
        forall|i: int| 0 <= i < kept_segments(request_path(raw)).len() ==> {
            let seg = #[trigger] kept_segments(request_path(raw))[i];
            &&& is_kept_segment(seg)
            &&& !seg.contains('/')
            &&& !seg.contains('\\')
            &&& !seg.contains('?')
            &&& !seg.contains('#')
        },
{
    let p = request_path(raw);
    let keep = |seg: Seq<char>| is_kept_segment(seg);
    let sp = split_slash(p);
    let segs = sp.filter(keep);
    lemma_request_path_chars(raw);
    lemma_split_pieces(p);
    assert forall|i: int| 0 <= i < segs.len() implies {
        let seg = #[trigger] segs[i];
        &&& is_kept_segment(seg)
        &&& !seg.contains('/')
        &&& !seg.contains('\\')
        &&& !seg.contains('?')
        &&& !seg.contains('#')
    } by {
        let seg = segs[i];
        sp.lemma_filter_pred(keep, i);
        assert(segs.contains(seg));
        sp.lemma_filter_contains_rev(keep, seg);
        let j = choose|j: int| 0 <= j < sp.len() && sp[j] == seg;
        assert(!sp[j].contains('/'));
        if seg.contains('\\') {
            assert(sp[j].contains('\\'));
        }
        if seg.contains('?') {
            assert(sp[j].contains('?'));
        }
        if seg.contains('#') {
            assert(sp[j].contains('#'));
        }
    }
}

proof fn lemma_join_first(segs: Seq<Seq<char>>)
    requires
        segs.len() > 0,
        segs[0].len() > 0,
    ensures
        join_slash(segs).len() > 0,
        join_slash(segs)[0] == segs[0][0],
    decreases segs.len(),
{
    if segs.len() > 1 {
        let d = segs.drop_last();
        assert(d[0] == segs[0]);
        lemma_join_first(d);
    }
}

/// How the cleaned path splits: an empty root piece when it is rooted, then
/// the kept segments (or a single empty piece when there are none).
proof fn lemma_split_cleaned(raw: Seq<char>)
    ensures
        split_slash(cleaned(raw)) == (if root_prefix(request_path(raw)).len() > 0 {
            seq![Seq::<char>::empty()]
        } else {
            Seq::<Seq<char>>::empty()
        }) + (if kept_segments(request_path(raw)).len() == 0 {
            seq![Seq::<char>::empty()]
        } else {
            kept_segments(request_path(raw))
        }),
{
    let p = request_path(raw);
    let segs = kept_segments(p);
    lemma_kept_segments_plain(raw);
    let j = join_slash(segs);
    assert(split_slash(j) == (if segs.len() == 0 {
        seq![Seq::<char>::empty()]
    } else {
        segs
    })) by {
        if segs.len() > 0 {
            lemma_split_join(segs);
        } else {
            assert(j =~= Seq::<char>::empty());
        }
    }
    if root_prefix(p).len() > 0 {
        lemma_split_concat(Seq::empty(), j);
        assert(Seq::<char>::empty() + seq!['/'] + j =~= cleaned(raw));
        assert(split_slash(Seq::<char>::empty()) =~= seq![Seq::<char>::empty()]);
    } else {
        assert(cleaned(raw) =~= j);
        assert(Seq::<Seq<char>>::empty() + split_slash(j) =~= split_slash(j));
    }
}

/// Cleaning is idempotent: a cleaned path is its own cleaned form.
pub proof fn clean_path_idempotent(raw: Seq<char>)
    ensures
        cleaned(cleaned(raw)) == cleaned(raw),
{
    let p = request_path(raw);
    let segs = kept_segments(p);
    let c = cleaned(raw);
    let keep = |seg: Seq<char>| is_kept_segment(seg);
    cleaned_path_is_safe(raw);
    // the cleaned path is its own request path
    assert(unify_separators(c) =~= c) by {
        assert forall|k: int| 0 <= k < c.len() implies unify_separators(c)[k] == c[k] by {
            if c[k] == '\\' {
                assert(c.contains('\\'));
            }
        }
    }
    assert forall|k: int| 0 <= k < c.len() implies !is_query_mark(#[trigger] c[k]) by {
        if c[k] == '?' {
            assert(c.contains('?'));
        }
        if c[k] == '#' {
            assert(c.contains('#'));
        }
    }
    lemma_strip_query_take(c, c.len() as int);
    assert(c.take(c.len() as int) =~= c);
    assert(request_path(c) == c);
    // its kept segments are the same
    lemma_split_cleaned(raw);
    lemma_kept_segments_plain(raw);
    lemma_filter_empty_piece();
    let head: Seq<Seq<char>> = if root_prefix(p).len() > 0 {
        seq![Seq::<char>::empty()]
    } else {
        Seq::<Seq<char>>::empty()
    };
    let tail: Seq<Seq<char>> = if segs.len() == 0 {
        seq![Seq::<char>::empty()]
    } else {
        segs
    };
    Seq::filter_distributes_over_add(head, tail, keep);
    reveal(Seq::filter);
    assert(Seq::<Seq<char>>::empty().filter(keep) =~= Seq::<Seq<char>>::empty());
    if segs.len() > 0 {
        lemma_filter_all_kept(segs);
    }
    assert(kept_segments(c) =~= segs);
    // and so is its root
    if root_prefix(p).len() == 0 && segs.len() > 0 {
        lemma_join_first(segs);
        assert(segs[0][0] != '/') by {
            assert(segs[0].contains(segs[0][0]));
        }
    }
    assert(root_prefix(c) =~= root_prefix(p));
}

/// A cleaned path holds no backslash, no `?` or `#`, and none of its
/// `/`-separated pieces is `.` or `..`; its pieces after the root are exactly
/// the kept segments of the request path.
pub proof fn cleaned_path_is_safe(raw: Seq<char>)
    ensures
        !cleaned(raw).contains('\\'),
        !cleaned(raw).contains('?'),
        !cleaned(raw).contains('#'),
        forall|i: int| 0 <= i < split_slash(cleaned(raw)).len() ==> {
            let piece = #[trigger] split_slash(cleaned(raw))[i];
            piece != seq!['.'] && piece != seq!['.', '.']
        },
{
    let p = request_path(raw);
    let segs = kept_segments(p);
    let c = cleaned(raw);
    lemma_kept_segments_plain(raw);
    lemma_join_chars(segs, '\\');
    lemma_join_chars(segs, '?');
    lemma_join_chars(segs, '#');
    let j = join_slash(segs);
    let r = root_prefix(p);
    assert(c == r + j);
    assert forall|ch: char| ch != '/' && c.contains(ch) implies j.contains(ch) by {
        let k = choose|k: int| 0 <= k < c.len() && c[k] == ch;
        if k < r.len() {
            assert(r[k] == '/');
        } else {
            assert(j[k - r.len()] == ch);
        }
    }
    lemma_split_cleaned(raw);
    let sc = split_slash(c);
    assert forall|i: int| 0 <= i < sc.len() implies {
        let piece = #[trigger] sc[i];
        piece != seq!['.'] && piece != seq!['.', '.']
    } by {
        let piece = sc[i];
        if i < r.len() || segs.len() == 0 {
            assert(piece.len() == 0);
        } else {
            assert(piece == segs[i - r.len()]);
        }
    }
}

/// A text with no backslash and no query or fragment marker is its own
/// request path.
proof fn lemma_request_path_identity(c: Seq<char>)
    requires
        !c.contains('\\'),
        !c.contains('?'),
        !c.contains('#'),
    ensures
        request_path(c) == c,
{
    assert(unify_separators(c) =~= c) by {
        assert forall|k: int| 0 <= k < c.len() implies unify_separators(c)[k] == c[k] by {
            if c[k] == '\\' {
                assert(c.contains('\\'));
            }
        }
    }
    assert forall|k: int| 0 <= k < c.len() implies !is_query_mark(#[trigger] c[k]) by {
        if c[k] == '?' {
            assert(c.contains('?'));
        }
        if c[k] == '#' {
            assert(c.contains('#'));
        }
    }
    lemma_strip_query_take(c, c.len() as int);
    assert(c.take(c.len() as int) =~= c);
}

/// Cleaning leaves an ordinary path unchanged: when every segment is a
/// non-empty name without `/`, `\\`, `?` or `#` and is neither `.` nor `..`,
/// the rooted path `/` + names joined by `/` is its own cleaned form, and so
/// is the unrooted one when there is at least one name. No ordinary segment
/// is ever dropped or changed.
pub proof fn clean_keeps_ordinary_paths(segs: Seq<Seq<char>>)
    requires
        forall|i: int| 0 <= i < segs.len() ==> {
            let seg = #[trigger] segs[i];
            &&& seg.len() > 0
            &&& !seg.contains('/')
            &&& !seg.contains('\\')
            &&& !seg.contains('?')
            &&& !seg.contains('#')
            &&& seg != seq!['.']
            &&& seg != seq!['.', '.']
        },
    ensures
        cleaned(seq!['/'] + join_slash(segs)) == seq!['/'] + join_slash(segs),
        segs.len() > 0 ==> cleaned(join_slash(segs)) == join_slash(segs),
{
    let j = join_slash(segs);
    let keep = |seg: Seq<char>| is_kept_segment(seg);
    assert forall|i: int| 0 <= i < segs.len() implies !(#[trigger] segs[i]).contains('\\') by {}
    assert forall|i: int| 0 <= i < segs.len() implies !(#[trigger] segs[i]).contains('?') by {}
    assert forall|i: int| 0 <= i < segs.len() implies !(#[trigger] segs[i]).contains('#') by {}
    assert forall|i: int| 0 <= i < segs.len() implies !(#[trigger] segs[i]).contains('/') by {}
    assert forall|i: int| 0 <= i < segs.len() implies is_kept_segment(#[trigger] segs[i]) by {}
    lemma_join_chars(segs, '\\');
    lemma_join_chars(segs, '?');
    lemma_join_chars(segs, '#');
    lemma_filter_empty_piece();
    lemma_filter_all_kept(segs);
    reveal(Seq::filter);
    assert(Seq::<Seq<char>>::empty().filter(keep) =~= Seq::<Seq<char>>::empty());
    let sj: Seq<Seq<char>> = if segs.len() == 0 {
        seq![Seq::<char>::empty()]
    } else {
        segs
    };
    assert(split_slash(j) == sj) by {
        if segs.len() > 0 {
            lemma_split_join(segs);
        } else {
            assert(j =~= Seq::<char>::empty());
        }
    }
    assert(sj.filter(keep) == segs) by {
        if segs.len() == 0 {
            assert(segs =~= Seq::<Seq<char>>::empty());
        }
    }
    // the rooted path
    let c = seq!['/'] + j;
    assert forall|ch: char| ch != '/' && c.contains(ch) implies j.contains(ch) by {
        let k = choose|k: int| 0 <= k < c.len() && c[k] == ch;
        assert(k > 0);
        assert(j[k - 1] == ch);
    }
    lemma_request_path_identity(c);
    lemma_split_concat(Seq::empty(), j);
    assert(Seq::<char>::empty() + seq!['/'] + j =~= c);
    assert(split_slash(Seq::<char>::empty()) =~= seq![Seq::<char>::empty()]);
    Seq::filter_distributes_over_add(seq![Seq::<char>::empty()], sj, keep);
    assert(kept_segments(c) =~= segs);
    assert(root_prefix(c) =~= seq!['/']);
    // the unrooted path
    if segs.len() > 0 {
        lemma_request_path_identity(j);
        assert(kept_segments(j) =~= segs);
        lemma_join_first(segs);
        assert(segs[0][0] != '/') by {
            assert(segs[0].contains(segs[0][0]));
        }
        assert(root_prefix(j) =~= Seq::<char>::empty());
        assert(Seq::<char>::empty() + j =~= j);
    }
}


proof fn lemma_unify_concat(a: Seq<char>, b: Seq<char>)
    ensures
        unify_separators(a + b) == unify_separators(a) + unify_separators(b),
{
    assert(unify_separators(a + b) =~= unify_separators(a) + unify_separators(b));
}

/// Whether a text holds a query or fragment marker.
pub open spec fn has_query_mark(s: Seq<char>) -> bool {
    exists|k: int| 0 <= k < s.len() && is_query_mark(#[trigger] s[k])
}

proof fn lemma_strip_concat(x: Seq<char>, y: Seq<char>)
    ensures
        strip_query(x + y) == if has_query_mark(x) {
            strip_query(x)
        } else {
            x + strip_query(y)
        },
    decreases x.len(),
{
    if x.len() == 0 {
        assert(x + y =~= y);
        assert(x + strip_query(y) =~= strip_query(y));
    } else if is_query_mark(x[0]) {
        assert((x + y)[0] == x[0]);
        assert(has_query_mark(x));
    } else {
        let t = x.drop_first();
        lemma_strip_concat(t, y);
        assert((x + y).drop_first() =~= t + y);
        assert((x + y)[0] == x[0]);
        if has_query_mark(x) {
            let k = choose|k: int| 0 <= k < x.len() && is_query_mark(#[trigger] x[k]);
            assert(t[k - 1] == x[k]);
            assert(has_query_mark(t));
        } else {
            assert(!has_query_mark(t)) by {
                if has_query_mark(t) {
                    let k = choose|k: int| 0 <= k < t.len() && is_query_mark(#[trigger] t[k]);
                    assert(x[k + 1] == t[k]);
                }
            }
            assert(seq![x[0]] + (t + strip_query(y)) =~= x + strip_query(y));
        }
        if has_query_mark(t) {
            assert(has_query_mark(x)) by {
                let k = choose|k: int| 0 <= k < t.len() && is_query_mark(#[trigger] t[k]);
                assert(x[k + 1] == t[k]);
            }
        }
    }
}

proof fn lemma_strip_no_mark(x: Seq<char>)
    requires
        !has_query_mark(x),
    ensures
        strip_query(x) == x,
{
    lemma_strip_query_take(x, x.len() as int);
    assert(x.take(x.len() as int) =~= x);
}

/// Everything from a `?` or `#` on is ignored: whatever follows the marker,
/// the cleaned path is that of the text before it.
pub proof fn clean_ignores_query_and_fragment(a: Seq<char>, mark: char, b: Seq<char>)
    requires
        mark == '?' || mark == '#',
    ensures
        cleaned(a + seq![mark] + b) == cleaned(a),
{
    let ua = unify_separators(a);
    lemma_unify_concat(a + seq![mark], b);
    lemma_unify_concat(a, seq![mark]);
    assert(unify_separators(seq![mark]) =~= seq![mark]);
    let rest = seq![mark] + unify_separators(b);
    assert(ua + seq![mark] + unify_separators(b) =~= ua + rest);
    lemma_strip_concat(ua, rest);
    assert(strip_query(rest) =~= Seq::<char>::empty()) by {
        assert(rest[0] == mark);
    }
    if !has_query_mark(ua) {
        lemma_strip_no_mark(ua);
        assert(ua + Seq::<char>::empty() =~= ua);
    }
    assert(request_path(a + seq![mark] + b) == request_path(a));
}

/// A backslash is read exactly as a slash.
pub proof fn clean_reads_backslash_as_slash(a: Seq<char>, b: Seq<char>)
    ensures
        cleaned(a + seq!['\\'] + b) == cleaned(a + seq!['/'] + b),
{
    lemma_unify_concat(a + seq!['\\'], b);
    lemma_unify_concat(a, seq!['\\']);
    lemma_unify_concat(a + seq!['/'], b);
    lemma_unify_concat(a, seq!['/']);
    assert(unify_separators(seq!['\\']) =~= unify_separators(seq!['/']));
    assert(request_path(a + seq!['\\'] + b) == request_path(a + seq!['/'] + b));
}

/// An empty, `.` or `..` segment between two slashes is dropped: the path
/// cleans the same as with a single slash there.
pub proof fn clean_drops_empty_and_dot_segments(a: Seq<char>, d: Seq<char>, b: Seq<char>)
    requires
        d == Seq::<char>::empty() || d == seq!['.'] || d == seq!['.', '.'],
    ensures
        cleaned(a + seq!['/'] + d + seq!['/'] + b) == cleaned(a + seq!['/'] + b),
{
    let keep = |seg: Seq<char>| is_kept_segment(seg);
    let ua = unify_separators(a);
    let ub = unify_separators(b);
    let ud = unify_separators(d);
    assert(ud =~= d);
    let mid = seq!['/'] + d + seq!['/'];
    assert(unify_separators(mid) =~= mid);
    assert(unify_separators(seq!['/']) =~= seq!['/']);
    lemma_unify_concat(a + mid, b);
    lemma_unify_concat(a, mid);
    lemma_unify_concat(a + seq!['/'], b);
    lemma_unify_concat(a, seq!['/']);
    assert(a + seq!['/'] + d + seq!['/'] + b =~= a + mid + b);
    let r1 = unify_separators(a + mid + b);
    let r2 = unify_separators(a + seq!['/'] + b);
    assert(r1 =~= ua + (mid + ub));
    assert(r2 =~= ua + (seq!['/'] + ub));
    lemma_strip_concat(ua, mid + ub);
    lemma_strip_concat(ua, seq!['/'] + ub);
    if has_query_mark(ua) {
        assert(request_path(a + mid + b) == request_path(a + seq!['/'] + b));
    } else {
        assert(!has_query_mark(mid)) by {
            if has_query_mark(mid) {
                let k = choose|k: int| 0 <= k < mid.len() && is_query_mark(#[trigger] mid[k]);
                if k == 0 || k == mid.len() - 1 {
                } else {
                    assert(mid[k] == d[k - 1]);
                }
            }
        }
        assert(!has_query_mark(seq!['/'])) by {
            if has_query_mark(seq!['/']) {
                let k = choose|k: int| 0 <= k < 1 && is_query_mark(#[trigger] seq!['/'][k]);
            }
        }
        lemma_strip_concat(mid, ub);
        lemma_strip_concat(seq!['/'], ub);
        let sb = strip_query(ub);
        let p1 = ua + (mid + sb);
        let p2 = ua + (seq!['/'] + sb);
        assert(request_path(a + mid + b) == p1);
        assert(request_path(a + seq!['/'] + b) == p2);
        // split both
        assert(p1 =~= ua + seq!['/'] + (d + seq!['/'] + sb));
        assert(p2 =~= ua + seq!['/'] + sb);
        lemma_split_concat(ua, d + seq!['/'] + sb);
        lemma_split_concat(d, sb);
        lemma_split_concat(ua, sb);
        assert(!d.contains('/')) by {
            if d.contains('/') {
                let k = choose|k: int| 0 <= k < d.len() && d[k] == '/';
            }
        }
        lemma_split_no_slash(d);
        let su = split_slash(ua);
        let ss = split_slash(sb);
        assert(split_slash(p1) =~= su + (seq![d] + ss));
        assert(split_slash(p2) =~= su + ss);
        Seq::filter_distributes_over_add(su, seq![d] + ss, keep);
        Seq::filter_distributes_over_add(seq![d], ss, keep);
        Seq::filter_distributes_over_add(su, ss, keep);
        assert(seq![d].filter(keep) =~= Seq::<Seq<char>>::empty()) by {
            reveal(Seq::filter);
            Seq::<Seq<char>>::empty().lemma_filter_push(d, keep);
            assert(Seq::<Seq<char>>::empty().push(d) =~= seq![d]);
            assert(Seq::<Seq<char>>::empty().filter(keep) =~= Seq::<Seq<char>>::empty());
        }
        assert(kept_segments(p1) =~= kept_segments(p2));
        assert(root_prefix(p1) =~= root_prefix(p2)) by {
            if ua.len() > 0 {
                assert(p1[0] == ua[0] && p2[0] == ua[0]);
            } else {
                assert(p1[0] == '/' && p2[0] == '/');
            }
        }
    }
}

} // verus!
