//! Lexical resolution of POSIX paths (what Node's `path.resolve` does on a
//! POSIX host): a relative path is taken from a working directory, empty and
//! `.` segments are dropped, and `..` removes the segment before it (never
//! going above the root).

use vstd::prelude::*;
use crate::file::paths::join_with;
use crate::text::{append_chars, chars_of, split_char, split_char_exec, string_of};

verus! {

broadcast use vstd::string::group_string_axioms;

/// The segments of a path after lexical normalisation.
pub open spec fn normalize_segments(segs: Seq<Seq<char>>) -> Seq<Seq<char>>
    decreases segs.len(),
{
    if segs.len() == 0 {
        seq![]
    } else {
        let r = normalize_segments(segs.drop_last());
        let x = segs.last();
        if x.len() == 0 || x == seq!['.'] {
            r
        } else if x == seq!['.', '.'] {
            if r.len() > 0 {
                r.drop_last()
            } else {
                r
            }
        } else {
            r.push(x)
        }
    }
}

/// The path that `p` names, seen from `cwd`: absolute when `p` starts with
/// `/`, else appended to `cwd`.
pub open spec fn absolute_of(p: Seq<char>, cwd: Seq<char>) -> Seq<char> {
    if p.len() > 0 && p[0] == '/' {
        p
    } else {
        cwd.push('/') + p
    }
}

/// The segments of the resolved path.
pub open spec fn resolved_segments(p: Seq<char>, cwd: Seq<char>) -> Seq<Seq<char>> {
    normalize_segments(split_char(absolute_of(p, cwd), '/'))
}

/// A path written from its segments: `/` followed by the segments joined
/// with `/`.
pub open spec fn path_of_segments(segs: Seq<Seq<char>>) -> Seq<char> {
    seq!['/'] + join_with(segs, '/')
}

/// `path.resolve(cwd, p)` on a POSIX host.
pub open spec fn resolve_spec(p: Seq<char>, cwd: Seq<char>) -> Seq<char> {
    path_of_segments(resolved_segments(p, cwd))
}

/// A normalised segment: not empty, not `.` or `..`, and without `/`.
pub open spec fn is_plain_segment(x: Seq<char>) -> bool {
    x.len() > 0 && x != seq!['.'] && x != seq!['.', '.'] && !x.contains('/')
}

fn is_dot(v: &Vec<char>) -> (b: bool)
    ensures
        b == (v@ == seq!['.']),
{
    if v.len() == 1 && v[0] == '.' {
        assert(v@ =~= seq!['.']);
        true
    } else {
        false
    }
}

fn is_dot_dot(v: &Vec<char>) -> (b: bool)
    ensures
        b == (v@ == seq!['.', '.']),
{
    if v.len() == 2 && v[0] == '.' && v[1] == '.' {
        assert(v@ =~= seq!['.', '.']);
        true
    } else {
        false
    }
}

pub open spec fn segs_view(v: Seq<Vec<char>>) -> Seq<Seq<char>> {
    v.map_values(|x: Vec<char>| x@)
}

/// The resolved segments of `p` seen from `cwd`.
pub fn resolve_segments(p: &str, cwd: &str) -> (r: Vec<Vec<char>>)
    ensures
        segs_view(r@) == resolved_segments(p@, cwd@),
        forall|i: int| 0 <= i < r@.len() ==> is_plain_segment(#[trigger] segs_view(r@)[i]),
{
    let pv = chars_of(p);
    let full = if pv.len() > 0 && pv[0] == '/' {
        pv
    } else {
        let mut f = chars_of(cwd);
        f.push('/');
        append_chars(&mut f, &pv);
        f
    };
    let parts = split_char_exec(&full, '/');
    let ghost ps = segs_view(parts@);
    assert(ps == split_char(full@, '/'));
    let mut out: Vec<Vec<char>> = Vec::new();
    let mut i: usize = 0;
    assert(ps.take(0) =~= Seq::<Seq<char>>::empty());
    while i < parts.len()
        invariant
            i <= parts.len(),
            ps == segs_view(parts@),
            ps == split_char(full@, '/'),
            segs_view(out@) == normalize_segments(ps.take(i as int)),
            forall|j: int| 0 <= j < out@.len() ==> is_plain_segment(#[trigger] segs_view(out@)[j]),
        decreases parts.len() - i,
    {
        assert(ps.take(i + 1).drop_last() =~= ps.take(i as int));
        assert(ps[i as int] == parts@[i as int]@);
        proof {
            crate::text::lemma_split_char_no_sep(full@, '/', i as int);
        }
        let x = &parts[i];
        if x.len() == 0 || is_dot(x) {
        } else if is_dot_dot(x) {
            if out.len() > 0 {
                let ghost before = out@;
                out.pop();
                assert(segs_view(out@) =~= segs_view(before).drop_last());
            }
        } else {
            let ghost before = out@;
            let copy = crate::text::sub_vec(x, 0, x.len());
            assert(copy@ =~= x@);
            out.push(copy);
            assert(segs_view(out@) =~= segs_view(before).push(x@));
        }
        i += 1;
    }
    assert(ps.take(parts.len() as int) =~= ps);
    out
}

/// Writes segments as a path.
pub fn path_of_segments_exec(segs: &Vec<Vec<char>>, n: usize) -> (r: Vec<char>)
    requires
        n <= segs.len(),
    ensures
        r@ == path_of_segments(segs_view(segs@).take(n as int)),
{
    let ghost sv = segs_view(segs@);
    let mut out: Vec<char> = Vec::new();
    out.push('/');
    let mut i: usize = 0;
    assert(sv.take(0) =~= Seq::<Seq<char>>::empty());
    assert(out@ =~= seq!['/'] + join_with(sv.take(0), '/'));
    while i < n
        invariant
            i <= n <= segs.len(),
            sv == segs_view(segs@),
            out@ == seq!['/'] + join_with(sv.take(i as int), '/'),
        decreases n - i,
    {
        let ghost prev = join_with(sv.take(i as int), '/');
        if i > 0 {
            out.push('/');
        }
        append_chars(&mut out, &segs[i]);
        assert(sv[i as int] == segs@[i as int]@);
        assert(sv.take(i + 1).drop_last() =~= sv.take(i as int));
        assert(sv.take(i + 1).last() == sv[i as int]);
        if i == 0 {
            assert(sv.take(1) =~= seq![sv[0]]);
        }
        assert(out@ =~= seq!['/'] + join_with(sv.take(i + 1), '/'));
        i += 1;
    }
    out
}

/// `path.resolve(cwd, p)` on a POSIX host.
pub fn resolve(p: &str, cwd: &str) -> (r: String)
    ensures
        r@ == resolve_spec(p@, cwd@),
{
    let segs = resolve_segments(p, cwd);
    assert(segs_view(segs@).take(segs.len() as int) =~= segs_view(segs@));
    let out = path_of_segments_exec(&segs, segs.len());
    string_of(out.as_slice())
}

proof fn lemma_split_concat(s: Seq<char>, t: Seq<char>, c: char)
    ensures
        split_char(s.push(c) + t, c) == split_char(s, c) + split_char(t, c),
    decreases t.len(),
{
    let u = s.push(c) + t;
    if t.len() == 0 {
        assert(u =~= s.push(c));
        assert(u.drop_last() =~= s);
        assert(split_char(t, c) =~= seq![Seq::<char>::empty()]);
        assert(split_char(s, c).push(Seq::<char>::empty()) =~= split_char(s, c) + split_char(t, c));
    } else {
        lemma_split_concat(s, t.drop_last(), c);
        assert(u.drop_last() =~= s.push(c) + t.drop_last());
        assert(u.last() == t.last());
        crate::text::lemma_split_char_nonempty(t.drop_last(), c);
        let a = split_char(s, c);
        let b = split_char(t.drop_last(), c);
        if t.last() == c {
            assert((a + b).push(Seq::<char>::empty()) =~= a + b.push(Seq::<char>::empty()));
        } else {
            let ab = a + b;
            assert(ab.update(ab.len() - 1, ab.last().push(t.last())) =~= a + b.update(
                b.len() - 1,
                b.last().push(t.last()),
            ));
        }
    }
}

proof fn lemma_split_plain(x: Seq<char>, c: char)
    requires
        !x.contains(c),
    ensures
        split_char(x, c) == seq![x],
    decreases x.len(),
{
    if x.len() == 0 {
        assert(x =~= Seq::<char>::empty());
    } else {
        let t = x.drop_last();
        assert(!t.contains(c)) by {
            if t.contains(c) {
                let k = choose|k: int| 0 <= k < t.len() && t[k] == c;
                assert(x[k] == c);
            }
        }
        lemma_split_plain(t, c);
        assert(x.last() != c) by {
            if x.last() == c {
                assert(x[x.len() - 1] == c);
            }
        }
        assert(t.push(x.last()) =~= x);
        assert(split_char(x, c) == seq![t].update(0, t.push(x.last())));
        assert(seq![t].update(0, t.push(x.last())) =~= seq![x]);
    }
}

proof fn lemma_split_join(segs: Seq<Seq<char>>)
    requires
        segs.len() > 0,
        forall|i: int| 0 <= i < segs.len() ==> !(#[trigger] segs[i]).contains('/'),
    ensures
        split_char(join_with(segs, '/'), '/') == segs,
    decreases segs.len(),
{
    if segs.len() == 1 {
        lemma_split_plain(segs[0], '/');
        assert(seq![segs[0]] =~= segs);
    } else {
        let p = segs.drop_last();
        assert forall|i: int| 0 <= i < p.len() implies !(#[trigger] p[i]).contains('/') by {
            assert(p[i] == segs[i]);
        }
        lemma_split_join(p);
        lemma_split_concat(join_with(p, '/'), segs.last(), '/');
        lemma_split_plain(segs.last(), '/');
        assert(p + seq![segs.last()] =~= segs);
    }
}

proof fn lemma_normalize_append_plain(a: Seq<Seq<char>>, b: Seq<Seq<char>>)
    requires
        forall|i: int| 0 <= i < b.len() ==> is_plain_segment(#[trigger] b[i]),
    ensures
        normalize_segments(a + b) == normalize_segments(a) + b,
    decreases b.len(),
{
    if b.len() == 0 {
        assert(a + b =~= a);
        assert(normalize_segments(a) + b =~= normalize_segments(a));
    } else {
        let p = b.drop_last();
        assert forall|i: int| 0 <= i < p.len() implies is_plain_segment(#[trigger] p[i]) by {
            assert(p[i] == b[i]);
        }
        lemma_normalize_append_plain(a, p);
        assert((a + b).drop_last() =~= a + p);
        assert((a + b).last() == b.last());
        assert(is_plain_segment(b[b.len() - 1]));
        assert((normalize_segments(a) + p).push(b.last()) =~= normalize_segments(a) + b);
    }
}

proof fn lemma_normalize_plain(segs: Seq<Seq<char>>)
    requires
        forall|i: int| 0 <= i < segs.len() ==> !(#[trigger] segs[i]).contains('/'),
    ensures
        forall|i: int|
            0 <= i < normalize_segments(segs).len() ==> is_plain_segment(
                #[trigger] normalize_segments(segs)[i],
            ),
    decreases segs.len(),
{
    if segs.len() > 0 {
        let p = segs.drop_last();
        assert forall|i: int| 0 <= i < p.len() implies !(#[trigger] p[i]).contains('/') by {
            assert(p[i] == segs[i]);
        }
        lemma_normalize_plain(p);
        let r = normalize_segments(p);
        let x = segs.last();
        assert(!segs[segs.len() - 1].contains('/'));
        if !(x.len() == 0 || x == seq!['.']) && x == seq!['.', '.'] && r.len() > 0 {
            assert forall|i: int| 0 <= i < r.drop_last().len() implies is_plain_segment(
                #[trigger] r.drop_last()[i],
            ) by {
                assert(r.drop_last()[i] == r[i]);
            }
        }
        if !(x.len() == 0 || x == seq!['.'] || x == seq!['.', '.']) {
            assert forall|i: int| 0 <= i < r.push(x).len() implies is_plain_segment(
                #[trigger] r.push(x)[i],
            ) by {
                if i < r.len() {
                    assert(r.push(x)[i] == r[i]);
                }
            }
        }
    }
}

/// The segments of a resolved path are plain.
proof fn lemma_resolved_plain(p: Seq<char>, cwd: Seq<char>)
    ensures
        forall|i: int|
            0 <= i < resolved_segments(p, cwd).len() ==> is_plain_segment(
                #[trigger] resolved_segments(p, cwd)[i],
            ),
{
    let pieces = split_char(absolute_of(p, cwd), '/');
    assert forall|i: int| 0 <= i < pieces.len() implies !(#[trigger] pieces[i]).contains('/') by {
        crate::text::lemma_split_char_no_sep(absolute_of(p, cwd), '/', i);
    }
    lemma_normalize_plain(pieces);
}

/// Resolving a resolved path changes nothing, whatever the working
/// directory: the result is absolute and normalised.
pub proof fn law_resolve_idempotent(p: Seq<char>, cwd: Seq<char>, cwd2: Seq<char>)
    ensures
        resolve_spec(resolve_spec(p, cwd), cwd2) == resolve_spec(p, cwd),
{
    let segs = resolved_segments(p, cwd);
    lemma_resolved_plain(p, cwd);
    let q = resolve_spec(p, cwd);
    assert(q[0] == '/');
    assert(absolute_of(q, cwd2) == q);
    let e = Seq::<char>::empty();
    let none = Seq::<Seq<char>>::empty();
    assert(normalize_segments(none) == none);
    assert(seq![e].drop_last() =~= none);
    assert(normalize_segments(seq![e]) == none);
    assert(seq![e, e].drop_last() =~= seq![e]);
    assert(normalize_segments(seq![e, e]) == none);
    assert(q =~= e.push('/') + join_with(segs, '/'));
    lemma_split_concat(e, join_with(segs, '/'), '/');
    assert(split_char(e, '/') == seq![e]);
    if segs.len() == 0 {
        assert(join_with(segs, '/') == e);
        assert(split_char(q, '/') =~= seq![e, e]);
        assert(resolved_segments(q, cwd2) =~= segs);
    } else {
        assert forall|i: int| 0 <= i < segs.len() implies !(#[trigger] segs[i]).contains('/') by {
            assert(is_plain_segment(segs[i]));
        }
        lemma_split_join(segs);
        assert(split_char(q, '/') == seq![e] + segs);
        lemma_normalize_append_plain(seq![e], segs);
        assert(none + segs =~= segs);
    }
}

} // verus!
