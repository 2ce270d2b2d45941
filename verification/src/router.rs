//! Matching requests against route paths, segment by segment.
//!
//! A route path is split at `/` into segments, empty ones dropped. A segment
//! of the form `<name>` matches any one segment of a request path; one of the
//! form `<name..>` matches the rest of it, one segment at least; any other
//! segment matches only itself. Only the path part of a URI (before `?`) is
//! compared.

use vstd::prelude::*;

use crate::request::before_char;
use crate::text::chars_of;
use crate::uri::path_part;

verus! {

/// The segments that remain of `s` when `cur` is the segment being read.
pub open spec fn segs_from(cur: Seq<char>, s: Seq<char>) -> Seq<Seq<char>>
    decreases s.len(),
{
    if s.len() == 0 {
        if cur.len() == 0 {
            Seq::empty()
        } else {
            seq![cur]
        }
    } else if s[0] == '/' {
        let head: Seq<Seq<char>> = if cur.len() == 0 {
            Seq::empty()
        } else {
            seq![cur]
        };
        head + segs_from(Seq::empty(), s.drop_first())
    } else {
        segs_from(cur.push(s[0]), s.drop_first())
    }
}

/// The non-empty segments of a path, split at `/`.
pub open spec fn segments(s: Seq<char>) -> Seq<Seq<char>> {
    segs_from(Seq::empty(), s)
}

/// A segment of the form `<name>` or `<name..>`.
pub open spec fn is_dynamic(seg: Seq<char>) -> bool {
    seg.len() >= 2 && seg[0] == '<' && seg.last() == '>'
}

/// A segment of the form `<name..>`.
pub open spec fn is_multi(seg: Seq<char>) -> bool {
    is_dynamic(seg) && seg.len() >= 4 && seg[seg.len() - 3] == '.' && seg[seg.len() - 2] == '.'
}

/// The route segments `p` match the request segments `q`.
pub open spec fn segs_match(p: Seq<Seq<char>>, q: Seq<Seq<char>>) -> bool
    decreases p.len(),
{
    if p.len() == 0 {
        q.len() == 0
    } else if q.len() == 0 {
        false
    } else if is_multi(p[0]) {
        true
    } else {
        (is_dynamic(p[0]) || p[0] == q[0]) && segs_match(p.drop_first(), q.drop_first())
    }
}

/// Some request path would match both of the route segments `a` and `b`.
pub open spec fn segs_collide(a: Seq<Seq<char>>, b: Seq<Seq<char>>) -> bool
    decreases a.len(),
{
    if a.len() == 0 || b.len() == 0 {
        a.len() == b.len()
    } else if is_multi(a[0]) || is_multi(b[0]) {
        true
    } else {
        (is_dynamic(a[0]) || is_dynamic(b[0]) || a[0] == b[0]) && segs_collide(
            a.drop_first(),
            b.drop_first(),
        )
    }
}

/// The path of the URI `route_uri` matches the path of the URI `req_uri`.
pub open spec fn path_matches(route_uri: Seq<char>, req_uri: Seq<char>) -> bool {
    segs_match(segments(path_part(route_uri)), segments(path_part(req_uri)))
}

/// The paths of the URIs `a` and `b` collide.
pub open spec fn paths_collide(a: Seq<char>, b: Seq<char>) -> bool {
    segs_collide(segments(path_part(a)), segments(path_part(b)))
}

/// The segments of `v` as plain text.
pub open spec fn segs_view(v: Seq<Vec<char>>) -> Seq<Seq<char>> {
    v.map_values(|x: Vec<char>| x@)
}

/// Splits a path into its non-empty segments.
pub fn split_segments(s: &[char]) -> (out: Vec<Vec<char>>)
    ensures
        segs_view(out@) == segments(s@),
{
    let mut out: Vec<Vec<char>> = Vec::new();
    let mut cur: Vec<char> = Vec::new();
    let mut i: usize = 0;
    assert(s@.skip(0) =~= s@);
    assert(segs_view(out@) =~= Seq::<Seq<char>>::empty());
    while i < s.len()
        invariant
            i <= s@.len(),
            segs_view(out@) + segs_from(cur@, s@.skip(i as int)) == segments(s@),
        decreases s@.len() - i,
    {
        assert(s@.skip(i as int).drop_first() =~= s@.skip(i + 1));
        let c = s[i];
        if c == '/' {
            if cur.len() > 0 {
                let ghost before = out@;
                let ghost cv = cur@;
                out.push(cur);
                assert(segs_view(out@) =~= segs_view(before).push(cv));
                assert(segs_view(out@) + segs_from(Seq::empty(), s@.skip(i + 1)) =~= segs_view(
                    before,
                ) + (seq![cv] + segs_from(Seq::empty(), s@.skip(i + 1))));
            } else {
                assert(Seq::<Seq<char>>::empty() + segs_from(Seq::empty(), s@.skip(i + 1))
                    =~= segs_from(Seq::empty(), s@.skip(i + 1)));
            }
            cur = Vec::new();
        } else {
            cur.push(c);
        }
        i += 1;
    }
    if cur.len() > 0 {
        let ghost before = out@;
        let ghost cv = cur@;
        out.push(cur);
        assert(segs_view(out@) =~= segs_view(before).push(cv));
    } else {
        assert(segs_view(out@) + Seq::<Seq<char>>::empty() =~= segs_view(out@));
    }
    out
}

/// Whether a segment is of the form `<name>` or `<name..>`.
pub fn seg_is_dynamic(seg: &Vec<char>) -> (b: bool)
    ensures
        b == is_dynamic(seg@),
{
    seg.len() >= 2 && seg[0] == '<' && seg[seg.len() - 1] == '>'
}

/// Whether a segment is of the form `<name..>`.
pub fn seg_is_multi(seg: &Vec<char>) -> (b: bool)
    ensures
        b == is_multi(seg@),
{
    seg_is_dynamic(seg) && seg.len() >= 4 && seg[seg.len() - 3] == '.' && seg[seg.len() - 2] == '.'
}

fn seg_eq(a: &Vec<char>, b: &Vec<char>) -> (r: bool)
    ensures
        r == (a@ == b@),
{
    if a.len() != b.len() {
        return false;
    }
    let mut i: usize = 0;
    while i < a.len()
        invariant
            a@.len() == b@.len(),
            i <= a@.len(),
            forall|j: int| 0 <= j < i ==> a@[j] == b@[j],
        decreases a@.len() - i,
    {
        if a[i] != b[i] {
            return false;
        }
        i += 1;
    }
    assert(a@ =~= b@);
    true
}

/// Whether the route segments `p` match the request segments `q`.
pub fn match_segments(p: &Vec<Vec<char>>, q: &Vec<Vec<char>>) -> (r: bool)
    ensures
        r == segs_match(segs_view(p@), segs_view(q@)),
{
    let ghost sp = segs_view(p@);
    let ghost sq = segs_view(q@);
    let mut i: usize = 0;
    assert(sp.skip(0) =~= sp);
    assert(sq.skip(0) =~= sq);
    while i < p.len() && i < q.len()
        invariant
            i <= p@.len(),
            i <= q@.len(),
            sp == segs_view(p@),
            sq == segs_view(q@),
            segs_match(sp, sq) == segs_match(sp.skip(i as int), sq.skip(i as int)),
        decreases p@.len() - i,
    {
        assert(sp.skip(i as int)[0] == p@[i as int]@);
        assert(sq.skip(i as int)[0] == q@[i as int]@);
        assert(sp.skip(i as int).drop_first() =~= sp.skip(i + 1));
        assert(sq.skip(i as int).drop_first() =~= sq.skip(i + 1));
        if seg_is_multi(&p[i]) {
            return true;
        }
        if !(seg_is_dynamic(&p[i]) || seg_eq(&p[i], &q[i])) {
            return false;
        }
        i += 1;
    }
    p.len() == i && q.len() == i
}

/// Whether the route segments `a` and `b` collide.
pub fn collide_segments(a: &Vec<Vec<char>>, b: &Vec<Vec<char>>) -> (r: bool)
    ensures
        r == segs_collide(segs_view(a@), segs_view(b@)),
{
    let ghost sa = segs_view(a@);
    let ghost sb = segs_view(b@);
    let mut i: usize = 0;
    assert(sa.skip(0) =~= sa);
    assert(sb.skip(0) =~= sb);
    while i < a.len() && i < b.len()
        invariant
            i <= a@.len(),
            i <= b@.len(),
            sa == segs_view(a@),
            sb == segs_view(b@),
            segs_collide(sa, sb) == segs_collide(sa.skip(i as int), sb.skip(i as int)),
        decreases a@.len() - i,
    {
        assert(sa.skip(i as int)[0] == a@[i as int]@);
        assert(sb.skip(i as int)[0] == b@[i as int]@);
        assert(sa.skip(i as int).drop_first() =~= sa.skip(i + 1));
        assert(sb.skip(i as int).drop_first() =~= sb.skip(i + 1));
        if seg_is_multi(&a[i]) || seg_is_multi(&b[i]) {
            return true;
        }
        if !(seg_is_dynamic(&a[i]) || seg_is_dynamic(&b[i]) || seg_eq(&a[i], &b[i])) {
            return false;
        }
        i += 1;
    }
    a.len() == i && b.len() == i
}

/// The segments of the path part of a URI.
pub fn uri_segments(uri: &str) -> (out: Vec<Vec<char>>)
    ensures
        segs_view(out@) == segments(path_part(uri@)),
{
    let chars = chars_of(uri);
    let mut q: usize = 0;
    while q < chars.len() && chars[q] != '?'
        invariant
            q <= chars@.len(),
            forall|j: int| 0 <= j < q ==> chars@[j] != '?',
        decreases chars@.len() - q,
    {
        q += 1;
    }
    proof {
        crate::request::lemma_before_char_take(chars@, '?', q as int);
    }
    split_segments(vstd::slice::slice_subrange(chars.as_slice(), 0, q))
}

/// Whether the path of a route URI matches the path of a request URI.
pub fn uri_matches(route_uri: &str, req_uri: &str) -> (b: bool)
    ensures
        b == path_matches(route_uri@, req_uri@),
{
    let p = uri_segments(route_uri);
    let q = uri_segments(req_uri);
    match_segments(&p, &q)
}

/// Whether the paths of two route URIs collide.
pub fn uris_collide(a: &str, b: &str) -> (r: bool)
    ensures
        r == paths_collide(a@, b@),
{
    let x = uri_segments(a);
    let y = uri_segments(b);
    collide_segments(&x, &y)
}

/// Route paths collide exactly when they collide the other way round.
pub proof fn collide_is_symmetric(a: Seq<Seq<char>>, b: Seq<Seq<char>>)
    ensures
        segs_collide(a, b) == segs_collide(b, a),
    decreases a.len(),
{
    if a.len() > 0 && b.len() > 0 {
        collide_is_symmetric(a.drop_first(), b.drop_first());
    }
}

/// A route path that matches a request path collides with any route path
/// that matches the same request path.
pub proof fn common_match_collides(a: Seq<Seq<char>>, b: Seq<Seq<char>>, q: Seq<Seq<char>>)
    requires
        segs_match(a, q),
        segs_match(b, q),
    ensures
        segs_collide(a, b),
    decreases a.len(),
{
    if a.len() > 0 && b.len() > 0 && !is_multi(a[0]) && !is_multi(b[0]) {
        common_match_collides(a.drop_first(), b.drop_first(), q.drop_first());
    }
}


/// The segments of `cur`, if it is one.
pub open spec fn head_seg(cur: Seq<char>) -> Seq<Seq<char>> {
    if cur.len() == 0 {
        Seq::empty()
    } else {
        seq![cur]
    }
}

proof fn lemma_segs_split(cur: Seq<char>, x: Seq<char>, y: Seq<char>)
    ensures
        segs_from(cur, x + seq!['/'] + y) == segs_from(cur, x + seq!['/']) + segs_from(Seq::empty(), y),
    decreases x.len(),
{
    if x.len() == 0 {
        assert(x + seq!['/'] + y =~= seq!['/'] + y);
        assert(x + seq!['/'] =~= seq!['/']);
        assert((seq!['/'] + y).drop_first() =~= y);
        assert(seq!['/'].drop_first() =~= Seq::<char>::empty());
        assert(segs_from(Seq::empty(), Seq::empty()) =~= Seq::<Seq<char>>::empty());
    } else {
        assert((x + seq!['/'] + y).drop_first() =~= x.drop_first() + seq!['/'] + y);
        assert((x + seq!['/']).drop_first() =~= x.drop_first() + seq!['/']);
        assert((x + seq!['/'] + y)[0] == x[0]);
        assert((x + seq!['/'])[0] == x[0]);
        if x[0] == '/' {
            lemma_segs_split(Seq::empty(), x.drop_first(), y);
            assert(head_seg(cur) + (segs_from(Seq::empty(), x.drop_first() + seq!['/']) + segs_from(
                Seq::empty(),
                y,
            )) =~= (head_seg(cur) + segs_from(Seq::empty(), x.drop_first() + seq!['/'])) + segs_from(
                Seq::empty(),
                y,
            ));
        } else {
            lemma_segs_split(cur.push(x[0]), x.drop_first(), y);
        }
    }
}

proof fn lemma_segs_trailing_slash(cur: Seq<char>, x: Seq<char>)
    ensures
        segs_from(cur, x + seq!['/']) == segs_from(cur, x),
    decreases x.len(),
{
    if x.len() == 0 {
        assert(x + seq!['/'] =~= seq!['/']);
        assert(seq!['/'].drop_first() =~= Seq::<char>::empty());
        assert(segs_from(Seq::empty(), Seq::empty()) =~= Seq::<Seq<char>>::empty());
        assert(segs_from(cur, x) == head_seg(cur));
        assert(segs_from(cur, seq!['/']) == head_seg(cur) + segs_from(Seq::empty(), Seq::empty()));
        assert(head_seg(cur) + Seq::<Seq<char>>::empty() =~= head_seg(cur));
    } else {
        assert((x + seq!['/']).drop_first() =~= x.drop_first() + seq!['/']);
        assert((x + seq!['/'])[0] == x[0]);
        if x[0] == '/' {
            lemma_segs_trailing_slash(Seq::empty(), x.drop_first());
        } else {
            lemma_segs_trailing_slash(cur.push(x[0]), x.drop_first());
        }
    }
}

proof fn lemma_segs_double_slash(x: Seq<char>, y: Seq<char>)
    ensures
        segments(x + seq!['/', '/'] + y) == segments(x + seq!['/'] + y),
{
    lemma_segs_split(Seq::empty(), x, y);
    assert(x + seq!['/', '/'] + y =~= x + seq!['/'] + (seq!['/'] + y));
    lemma_segs_split(Seq::empty(), x, seq!['/'] + y);
    assert((seq!['/'] + y).drop_first() =~= y);
    assert(segs_from(Seq::empty(), seq!['/'] + y) =~= segs_from(Seq::empty(), y));
}

/// The slashes that `pending` stands for.
pub open spec fn pending_slash(pending: bool) -> Seq<char> {
    if pending {
        seq!['/']
    } else {
        Seq::empty()
    }
}

proof fn lemma_collapse_segments(out: Seq<char>, pending: bool, s: Seq<char>)
    ensures
        segments(crate::uri::collapse(out, pending, s)) == segments(out + pending_slash(pending) + s),
    decreases s.len(),
{
    let before = out + pending_slash(pending) + s;
    if s.len() == 0 {
        if out.len() == 0 {
            assert(seq!['/'] =~= Seq::<char>::empty() + seq!['/']);
            lemma_segs_trailing_slash(Seq::empty(), Seq::empty());
            assert(before =~= pending_slash(pending));
        } else if pending {
            assert(before =~= out + seq!['/']);
            lemma_segs_trailing_slash(Seq::empty(), out);
        } else {
            assert(before =~= out);
        }
    } else if s[0] == '/' {
        lemma_collapse_segments(out, true, s.drop_first());
        let after = out + seq!['/'] + s.drop_first();
        if out.len() == 0 && !pending {
            assert(before =~= s);
            assert(s =~= seq!['/'] + s.drop_first());
            assert(after =~= seq!['/'] + s.drop_first());
        } else if pending {
            assert(before =~= out + seq!['/', '/'] + s.drop_first());
            lemma_segs_double_slash(out, s.drop_first());
        } else {
            assert(before =~= after);
        }
    } else {
        let out2 = if pending || out.len() == 0 {
            out.push('/')
        } else {
            out
        };
        lemma_collapse_segments(out2.push(s[0]), false, s.drop_first());
        let after = out2.push(s[0]) + pending_slash(false) + s.drop_first();
        if pending {
            assert(after =~= before);
        } else if out.len() == 0 {
            assert(after =~= seq!['/'] + s);
            assert(before =~= s);
            assert((seq!['/'] + s).drop_first() =~= s);
        } else {
            assert(after =~= before);
        }
    }
}


/// Normalizing a path keeps its segments.
pub proof fn normalize_keeps_segments(p: Seq<char>)
    ensures
        segments(crate::uri::normalize_path(p)) == segments(p),
{
    lemma_collapse_segments(Seq::empty(), false, p);
    assert(Seq::<char>::empty() + pending_slash(false) + p =~= p);
}

/// Every route path matches itself taken as a request path.
pub proof fn match_is_reflexive(p: Seq<Seq<char>>)
    ensures
        segs_match(p, p),
    decreases p.len(),
{
    if p.len() > 0 {
        match_is_reflexive(p.drop_first());
    }
}

proof fn lemma_before_char_shape(s: Seq<char>, c: char)
    ensures
        before_char(s, c) == s.take(before_char(s, c).len() as int),
        before_char(s, c).len() <= s.len(),
        before_char(s, c).len() == s.len() || s[before_char(s, c).len() as int] == c,
        !crate::text::has_char(before_char(s, c), c),
    decreases s.len(),
{
    if s.len() > 0 && s[0] != c {
        lemma_before_char_shape(s.drop_first(), c);
        let b = before_char(s.drop_first(), c);
        assert(before_char(s, c) == seq![s[0]] + b);
        assert(seq![s[0]] + b =~= s.take(b.len() as int + 1));
        assert forall|i: int| 0 <= i < b.len() + 1 implies (seq![s[0]] + b)[i] != c by {
            if i > 0 {
                assert((seq![s[0]] + b)[i] == b[i - 1]);
            }
        }
    } else if s.len() > 0 {
        assert(s.take(0) =~= Seq::<char>::empty());
    } else {
        assert(s.take(0) =~= s);
    }
}

proof fn lemma_before_char_concat(a: Seq<char>, b: Seq<char>, c: char)
    requires
        !crate::text::has_char(a, c),
    ensures
        before_char(a + b, c) == a + before_char(b, c),
    decreases a.len(),
{
    if a.len() == 0 {
        assert(a + b =~= b);
        assert(a + before_char(b, c) =~= before_char(b, c));
    } else {
        assert(a[0] != c);
        assert((a + b)[0] == a[0]);
        assert((a + b).drop_first() =~= a.drop_first() + b);
        assert(!crate::text::has_char(a.drop_first(), c)) by {
            assert forall|i: int| 0 <= i < a.drop_first().len() implies a.drop_first()[i] != c by {
                assert(a.drop_first()[i] == a[i + 1]);
            }
        }
        lemma_before_char_concat(a.drop_first(), b, c);
        assert(seq![a[0]] + (a.drop_first() + before_char(b, c)) =~= a + before_char(b, c));
    }
}

proof fn lemma_collapse_avoids(out: Seq<char>, pending: bool, s: Seq<char>, c: char)
    requires
        c != '/',
        !crate::text::has_char(out, c),
        !crate::text::has_char(s, c),
    ensures
        !crate::text::has_char(crate::uri::collapse(out, pending, s), c),
    decreases s.len(),
{
    if s.len() == 0 {
        if out.len() == 0 {
            assert(seq!['/'][0] == '/');
        }
    } else {
        assert(!crate::text::has_char(s.drop_first(), c)) by {
            assert forall|i: int| 0 <= i < s.drop_first().len() implies s.drop_first()[i] != c by {
                assert(s.drop_first()[i] == s[i + 1]);
            }
        }
        if s[0] == '/' {
            lemma_collapse_avoids(out, true, s.drop_first(), c);
        } else {
            let out2 = if pending || out.len() == 0 {
                out.push('/')
            } else {
                out
            };
            assert(s[0] != c);
            assert(!crate::text::has_char(out2.push(s[0]), c)) by {
                assert forall|i: int| 0 <= i < out2.push(s[0]).len() implies out2.push(s[0])[i] != c by {
                    if i < out.len() {
                        assert(out2.push(s[0])[i] == out[i]);
                    }
                }
            }
            lemma_collapse_avoids(out2.push(s[0]), false, s.drop_first(), c);
        }
    }
}

/// The path part of a mounted URI is the normalized path part of `base/uri`.
pub proof fn mounted_path_part(base: Seq<char>, uri: Seq<char>)
    ensures
        path_part(crate::uri::mounted_uri(base, uri)) == crate::uri::normalize_path(
            path_part(base + seq!['/'] + uri),
        ),
{
    let joined = base + seq!['/'] + uri;
    let p = path_part(joined);
    let rest = joined.skip(p.len() as int);
    lemma_before_char_shape(joined, '?');
    lemma_collapse_avoids(Seq::empty(), false, p, '?');
    let n = crate::uri::normalize_path(p);
    lemma_before_char_concat(n, rest, '?');
    if rest.len() > 0 {
        assert(rest[0] == '?');
    }
    assert(n + before_char(rest, '?') =~= n);
}

/// A route segment written `<name>` or `<name..>`: it opens with `<` and
/// closes with `>`.
pub open spec fn written_dynamic(seg: Seq<char>) -> bool {
    seg.len() >= 2 && seg[0] == '<' && seg[seg.len() - 1] == '>'
}

/// A route segment written `<name..>`.
pub open spec fn written_multi(seg: Seq<char>) -> bool {
    written_dynamic(seg) && seg.len() >= 4 && seg[seg.len() - 3] == '.' && seg[seg.len() - 2] == '.'
}

/// A dynamic segment stands for any one request segment, whatever text it
/// holds: route segments match request segments of the same count when each
/// route segment is written `<name>` (or `<name..>`) or is the very same
/// text as the request segment.
pub proof fn dynamic_segments_match_any(p: Seq<Seq<char>>, q: Seq<Seq<char>>)
    requires
        p.len() == q.len(),
        forall|i: int| 0 <= i < p.len() ==> written_dynamic(#[trigger] p[i]) || p[i] == q[i],
    ensures
        segs_match(p, q),
    decreases p.len(),
{
    if p.len() > 0 {
        assert(written_dynamic(p[0]) || p[0] == q[0]);
        assert forall|i: int| 0 <= i < p.drop_first().len() implies written_dynamic(
            #[trigger] p.drop_first()[i],
        ) || p.drop_first()[i] == q.drop_first()[i] by {
            assert(p.drop_first()[i] == p[i + 1] && q.drop_first()[i] == q[i + 1]);
            assert(written_dynamic(p[i + 1]) || p[i + 1] == q[i + 1]);
        }
        dynamic_segments_match_any(p.drop_first(), q.drop_first());
    }
}

/// Without a `<name..>` segment, route segments match only a request path of
/// as many segments, and each request segment only a dynamic route segment
/// or the very same text.
pub proof fn match_needs_same_or_dynamic(p: Seq<Seq<char>>, q: Seq<Seq<char>>)
    requires
        segs_match(p, q),
        forall|i: int| 0 <= i < p.len() ==> !written_multi(#[trigger] p[i]),
    ensures
        p.len() == q.len(),
        forall|i: int| 0 <= i < p.len() ==> written_dynamic(#[trigger] p[i]) || p[i] == q[i],
    decreases p.len(),
{
    if p.len() > 0 {
        assert(!written_multi(p[0]));
        assert forall|i: int| 0 <= i < p.drop_first().len() implies !written_multi(
            #[trigger] p.drop_first()[i],
        ) by {
            assert(p.drop_first()[i] == p[i + 1]);
            assert(!written_multi(p[i + 1]));
        }
        match_needs_same_or_dynamic(p.drop_first(), q.drop_first());
        assert forall|i: int| 0 <= i < p.len() implies written_dynamic(#[trigger] p[i]) || p[i] == q[i] by {
            if i > 0 {
                assert(p.drop_first()[i - 1] == p[i] && q.drop_first()[i - 1] == q[i]);
                assert(written_dynamic(p.drop_first()[i - 1]) || p.drop_first()[i - 1] == q.drop_first()[i - 1]);
            }
        }
    }
}

/// A last segment written `<name..>` stands for the rest of a request path,
/// one segment at least: when the segments before it match the first request
/// segments one by one, the route matches however many segments follow.
pub proof fn multi_segment_matches_rest(p: Seq<Seq<char>>, m: Seq<char>, q: Seq<Seq<char>>)
    requires
        written_multi(m),
        p.len() < q.len(),
        forall|i: int| 0 <= i < p.len() ==> written_dynamic(#[trigger] p[i]) || p[i] == q[i],
    ensures
        segs_match(p.push(m), q),
    decreases p.len(),
{
    if p.len() == 0 {
        assert(p.push(m)[0] == m);
    } else {
        assert(p.push(m)[0] == p[0]);
        assert(p.push(m).drop_first() =~= p.drop_first().push(m));
        assert(written_dynamic(p[0]) || p[0] == q[0]);
        assert forall|i: int| 0 <= i < p.drop_first().len() implies written_dynamic(
            #[trigger] p.drop_first()[i],
        ) || p.drop_first()[i] == q.drop_first()[i] by {
            assert(p.drop_first()[i] == p[i + 1] && q.drop_first()[i] == q[i + 1]);
            assert(written_dynamic(p[i + 1]) || p[i + 1] == q[i + 1]);
        }
        multi_segment_matches_rest(p.drop_first(), m, q.drop_first());
    }
}

/// A request path that the route segments `p` match: each dynamic segment
/// filled with `x`, a `<name..>` segment with one segment.
pub open spec fn sample_request(p: Seq<Seq<char>>) -> Seq<Seq<char>>
    decreases p.len(),
{
    if p.len() == 0 {
        Seq::empty()
    } else if is_multi(p[0]) {
        seq![seq!['x']]
    } else {
        seq![if is_dynamic(p[0]) { seq!['x'] } else { p[0] }] + sample_request(p.drop_first())
    }
}

/// A request path that both route segments `a` and `b` match, when they
/// collide.
pub open spec fn common_request(a: Seq<Seq<char>>, b: Seq<Seq<char>>) -> Seq<Seq<char>>
    decreases a.len(),
{
    if a.len() == 0 || b.len() == 0 {
        Seq::empty()
    } else if is_multi(a[0]) {
        sample_request(b)
    } else if is_multi(b[0]) {
        sample_request(a)
    } else {
        seq![if is_dynamic(a[0]) { b[0] } else { a[0] }] + common_request(a.drop_first(), b.drop_first())
    }
}

proof fn lemma_sample_request(p: Seq<Seq<char>>)
    ensures
        segs_match(p, sample_request(p)),
        p.len() > 0 ==> sample_request(p).len() > 0,
    decreases p.len(),
{
    if p.len() > 0 && !is_multi(p[0]) {
        lemma_sample_request(p.drop_first());
        let c = if is_dynamic(p[0]) { seq!['x'] } else { p[0] };
        assert((seq![c] + sample_request(p.drop_first())).drop_first() =~= sample_request(p.drop_first()));
    }
}

proof fn lemma_common_request(a: Seq<Seq<char>>, b: Seq<Seq<char>>)
    requires
        segs_collide(a, b),
    ensures
        segs_match(a, common_request(a, b)),
        segs_match(b, common_request(a, b)),
    decreases a.len(),
{
    if a.len() > 0 && b.len() > 0 {
        if is_multi(a[0]) {
            lemma_sample_request(b);
        } else if is_multi(b[0]) {
            lemma_sample_request(a);
        } else {
            lemma_common_request(a.drop_first(), b.drop_first());
            let c = if is_dynamic(a[0]) { b[0] } else { a[0] };
            let q = seq![c] + common_request(a.drop_first(), b.drop_first());
            assert(q.drop_first() =~= common_request(a.drop_first(), b.drop_first()));
            assert(q[0] == c);
        }
    }
}

/// Route paths collide only when some request path matches both: a
/// collision found before launch always stands for a request that the two
/// routes would both serve.
pub proof fn collision_has_common_request(a: Seq<Seq<char>>, b: Seq<Seq<char>>)
    requires
        segs_collide(a, b),
    ensures
        exists|q: Seq<Seq<char>>| segs_match(a, q) && segs_match(b, q),
{
    lemma_common_request(a, b);
    let q = common_request(a, b);
    assert(segs_match(a, q) && segs_match(b, q));
}

/// Route paths collide exactly when some request path matches both.
pub proof fn collide_iff_common_request(a: Seq<Seq<char>>, b: Seq<Seq<char>>)
    ensures
        segs_collide(a, b) <==> exists|q: Seq<Seq<char>>| segs_match(a, q) && segs_match(b, q),
{
    if segs_collide(a, b) {
        collision_has_common_request(a, b);
    }
    if exists|q: Seq<Seq<char>>| segs_match(a, q) && segs_match(b, q) {
        let q = choose|q: Seq<Seq<char>>| segs_match(a, q) && segs_match(b, q);
        common_match_collides(a, b, q);
    }
}

/// The path `/s1/s2/.../sn` made of the segments `ss`.
pub open spec fn joined(ss: Seq<Seq<char>>) -> Seq<char>
    decreases ss.len(),
{
    if ss.len() == 0 {
        Seq::empty()
    } else {
        joined(ss.drop_last()) + seq!['/'] + ss.last()
    }
}

/// Each of `ss` is a segment that can stand in a path: not empty, and
/// holding neither `/` nor `?`.
pub open spec fn plain_segments(ss: Seq<Seq<char>>) -> bool {
    forall|i: int| 0 <= i < ss.len() ==> #[trigger] ss[i].len() > 0 && !crate::text::has_char(ss[i], '/')
        && !crate::text::has_char(ss[i], '?')
}

proof fn lemma_segs_from_plain(cur: Seq<char>, s: Seq<char>)
    requires
        !crate::text::has_char(s, '/'),
    ensures
        segs_from(cur, s) == head_seg(cur + s),
    decreases s.len(),
{
    if s.len() > 0 {
        assert(s[0] != '/');
        assert(!crate::text::has_char(s.drop_first(), '/')) by {
            assert forall|i: int| 0 <= i < s.drop_first().len() implies s.drop_first()[i] != '/' by {
                assert(s.drop_first()[i] == s[i + 1]);
            }
        }
        lemma_segs_from_plain(cur.push(s[0]), s.drop_first());
        assert(cur.push(s[0]) + s.drop_first() =~= cur + s);
    } else {
        assert(cur + s =~= cur);
    }
}

proof fn lemma_joined(ss: Seq<Seq<char>>)
    requires
        plain_segments(ss),
    ensures
        segments(joined(ss)) == ss,
        !crate::text::has_char(joined(ss), '?'),
    decreases ss.len(),
{
    if ss.len() > 0 {
        let init = ss.drop_last();
        let last = ss.last();
        assert(plain_segments(init)) by {
            assert forall|i: int| 0 <= i < init.len() implies #[trigger] init[i].len() > 0
                && !crate::text::has_char(init[i], '/') && !crate::text::has_char(init[i], '?') by {
                assert(init[i] == ss[i]);
            }
        }
        assert(last == ss[ss.len() - 1]);
        lemma_joined(init);
        lemma_segs_split(Seq::empty(), joined(init), last);
        lemma_segs_trailing_slash(Seq::empty(), joined(init));
        lemma_segs_from_plain(Seq::empty(), last);
        assert(Seq::<char>::empty() + last =~= last);
        assert(ss =~= init.push(last));
        assert(init + seq![last] =~= init.push(last));
        let j = joined(ss);
        assert(!crate::text::has_char(j, '?')) by {
            assert forall|k: int| 0 <= k < j.len() implies j[k] != '?' by {
                let ji = joined(init);
                if k < ji.len() {
                    assert(j[k] == ji[k]);
                } else if k == ji.len() {
                    assert(j[k] == '/');
                } else {
                    assert(j[k] == last[k - ji.len() - 1]);
                }
            }
        }
    }
}

/// A route path with `<name>` segments matches every request path of as many
/// segments that agrees with it on its other segments, whatever text the
/// request segments hold (a `.` among it): the route URI `/s1/.../sn`
/// matches the request URI `/t1/.../tn` when each `si` is written `<name>`
/// or equals `ti`.
pub proof fn dynamic_route_path_matches(p: Seq<Seq<char>>, q: Seq<Seq<char>>)
    requires
        plain_segments(p),
        plain_segments(q),
        p.len() == q.len(),
        forall|i: int| 0 <= i < p.len() ==> written_dynamic(#[trigger] p[i]) || p[i] == q[i],
    ensures
        path_matches(joined(p), joined(q)),
{
    lemma_joined(p);
    lemma_joined(q);
    lemma_before_char_concat(joined(p), Seq::empty(), '?');
    lemma_before_char_concat(joined(q), Seq::empty(), '?');
    assert(joined(p) + Seq::<char>::empty() =~= joined(p));
    assert(joined(q) + Seq::<char>::empty() =~= joined(q));
    dynamic_segments_match_any(p, q);
}

proof fn lemma_segs_from_plain_all(cur: Seq<char>, s: Seq<char>)
    requires
        !crate::text::has_char(cur, '/'),
        !crate::text::has_char(cur, '?'),
        !crate::text::has_char(s, '?'),
    ensures
        plain_segments(segs_from(cur, s)),
    decreases s.len(),
{
    if s.len() == 0 {
        if cur.len() > 0 {
            assert(seq![cur][0] == cur);
        }
    } else {
        assert(s[0] != '?');
        assert(!crate::text::has_char(s.drop_first(), '?')) by {
            assert forall|i: int| 0 <= i < s.drop_first().len() implies s.drop_first()[i] != '?' by {
                assert(s.drop_first()[i] == s[i + 1]);
            }
        }
        if s[0] == '/' {
            lemma_segs_from_plain_all(Seq::empty(), s.drop_first());
            let rest = segs_from(Seq::empty(), s.drop_first());
            let all = head_seg(cur) + rest;
            assert forall|i: int| 0 <= i < all.len() implies #[trigger] all[i].len() > 0
                && !crate::text::has_char(all[i], '/') && !crate::text::has_char(all[i], '?') by {
                if i < head_seg(cur).len() {
                    assert(all[i] == cur);
                } else {
                    assert(all[i] == rest[i - head_seg(cur).len()]);
                }
            }
        } else {
            let c2 = cur.push(s[0]);
            assert(!crate::text::has_char(c2, '/') && !crate::text::has_char(c2, '?')) by {
                assert forall|i: int| 0 <= i < c2.len() implies c2[i] != '/' && c2[i] != '?' by {
                    if i < cur.len() {
                        assert(c2[i] == cur[i]);
                    }
                }
            }
            lemma_segs_from_plain_all(c2, s.drop_first());
        }
    }
}

/// The segments of the path part of any URI can stand in a path.
pub proof fn uri_segments_are_plain(u: Seq<char>)
    ensures
        plain_segments(segments(path_part(u))),
{
    lemma_before_char_shape(u, '?');
    lemma_segs_from_plain_all(Seq::empty(), path_part(u));
}

proof fn lemma_sample_plain(p: Seq<Seq<char>>)
    requires
        plain_segments(p),
    ensures
        plain_segments(sample_request(p)),
    decreases p.len(),
{
    let x = seq!['x'];
    assert(!crate::text::has_char(x, '/') && !crate::text::has_char(x, '?')) by {
        assert forall|i: int| 0 <= i < x.len() implies x[i] != '/' && x[i] != '?' by {
            assert(x[i] == 'x');
        }
    }
    if p.len() > 0 {
        assert(p[0].len() > 0 && !crate::text::has_char(p[0], '/') && !crate::text::has_char(p[0], '?'));
        if is_multi(p[0]) {
            assert(seq![x][0] == x);
        } else {
            assert(plain_segments(p.drop_first())) by {
                assert forall|i: int| 0 <= i < p.drop_first().len() implies #[trigger] p.drop_first()[i].len() > 0
                    && !crate::text::has_char(p.drop_first()[i], '/') && !crate::text::has_char(p.drop_first()[i], '?') by {
                    assert(p.drop_first()[i] == p[i + 1]);
                }
            }
            lemma_sample_plain(p.drop_first());
            let c = if is_dynamic(p[0]) { x } else { p[0] };
            let all = seq![c] + sample_request(p.drop_first());
            assert forall|i: int| 0 <= i < all.len() implies #[trigger] all[i].len() > 0
                && !crate::text::has_char(all[i], '/') && !crate::text::has_char(all[i], '?') by {
                if i > 0 {
                    assert(all[i] == sample_request(p.drop_first())[i - 1]);
                }
            }
        }
    }
}

proof fn lemma_common_plain(a: Seq<Seq<char>>, b: Seq<Seq<char>>)
    requires
        plain_segments(a),
        plain_segments(b),
    ensures
        plain_segments(common_request(a, b)),
    decreases a.len(),
{
    if a.len() > 0 && b.len() > 0 {
        if is_multi(a[0]) {
            lemma_sample_plain(b);
        } else if is_multi(b[0]) {
            lemma_sample_plain(a);
        } else {
            assert(plain_segments(a.drop_first())) by {
                assert forall|i: int| 0 <= i < a.drop_first().len() implies #[trigger] a.drop_first()[i].len() > 0
                    && !crate::text::has_char(a.drop_first()[i], '/') && !crate::text::has_char(a.drop_first()[i], '?') by {
                    assert(a.drop_first()[i] == a[i + 1]);
                }
            }
            assert(plain_segments(b.drop_first())) by {
                assert forall|i: int| 0 <= i < b.drop_first().len() implies #[trigger] b.drop_first()[i].len() > 0
                    && !crate::text::has_char(b.drop_first()[i], '/') && !crate::text::has_char(b.drop_first()[i], '?') by {
                    assert(b.drop_first()[i] == b[i + 1]);
                }
            }
            lemma_common_plain(a.drop_first(), b.drop_first());
            assert(a[0].len() > 0 && !crate::text::has_char(a[0], '/') && !crate::text::has_char(a[0], '?'));
            assert(b[0].len() > 0 && !crate::text::has_char(b[0], '/') && !crate::text::has_char(b[0], '?'));
            let c = if is_dynamic(a[0]) { b[0] } else { a[0] };
            let rest = common_request(a.drop_first(), b.drop_first());
            let all = seq![c] + rest;
            assert forall|i: int| 0 <= i < all.len() implies #[trigger] all[i].len() > 0
                && !crate::text::has_char(all[i], '/') && !crate::text::has_char(all[i], '?') by {
                if i > 0 {
                    assert(all[i] == rest[i - 1]);
                }
            }
        }
    }
}

/// Two route URIs whose paths collide are both matched by a request URI:
/// the one made of the segments that both route paths match.
pub proof fn colliding_paths_share_a_request(a: Seq<char>, b: Seq<char>)
    requires
        paths_collide(a, b),
    ensures
        exists|u: Seq<char>| path_matches(a, u) && path_matches(b, u),
{
    let sa = segments(path_part(a));
    let sb = segments(path_part(b));
    uri_segments_are_plain(a);
    uri_segments_are_plain(b);
    lemma_common_request(sa, sb);
    lemma_common_plain(sa, sb);
    let q = common_request(sa, sb);
    lemma_joined(q);
    lemma_before_char_concat(joined(q), Seq::empty(), '?');
    assert(joined(q) + Seq::<char>::empty() =~= joined(q));
    assert(path_matches(a, joined(q)) && path_matches(b, joined(q)));
}

} // verus!
