//! Route paths: how a route's path is joined to the base it is mounted at.

use vstd::prelude::*;

use crate::request::before_char;
use crate::text::{chars_of, string_of};

verus! {

/// Reads `s` from its start; `out` is what was written so far and `pending`
/// says that a `/` was seen since the last segment character. A run of `/`
/// becomes one `/` between segments; there is no `/` at the end, and the
/// empty path becomes `/`.
pub open spec fn collapse(out: Seq<char>, pending: bool, s: Seq<char>) -> Seq<char>
    decreases s.len(),
{
    if s.len() == 0 {
        if out.len() == 0 {
            seq!['/']
        } else {
            out
        }
    } else if s[0] == '/' {
        collapse(out, true, s.drop_first())
    } else {
        let out2 = if pending || out.len() == 0 {
            out.push('/')
        } else {
            out
        };
        collapse(out2.push(s[0]), false, s.drop_first())
    }
}

/// The normal form of a path: `/` followed by its non-empty segments joined
/// by single `/`s.
pub open spec fn normalize_path(p: Seq<char>) -> Seq<char> {
    collapse(Seq::empty(), false, p)
}

/// `p` has `/` at both `i` and `i + 1`.
pub open spec fn slash_pair(p: Seq<char>, i: int) -> bool {
    p[i] == '/' && p[i + 1] == '/'
}

/// A path in normal form: it starts with `/`, has no `//`, and does not end
/// with `/` unless it is `/` itself.
pub open spec fn is_normal_path(p: Seq<char>) -> bool {
    &&& p.len() >= 1
    &&& p[0] == '/'
    &&& forall|i: int| 0 <= i < p.len() - 1 ==> !#[trigger] slash_pair(p, i)
    &&& p.len() > 1 ==> p.last() != '/'
}

/// The path part of a URI: the text before the first `?`.
pub open spec fn path_part(u: Seq<char>) -> Seq<char> {
    before_char(u, '?')
}

/// The URI of a route with URI `uri` mounted at `base`: the text
/// `base/uri` with its path part normalized and its query part kept.
pub open spec fn mounted_uri(base: Seq<char>, uri: Seq<char>) -> Seq<char> {
    let joined = base + seq!['/'] + uri;
    let path = path_part(joined);
    normalize_path(path) + joined.skip(path.len() as int)
}

/// What the written part looks like while `collapse` runs.
pub open spec fn partial_normal(out: Seq<char>) -> bool {
    out.len() == 0 || (is_normal_path(out) && out.len() >= 2)
}

proof fn lemma_collapse_normal(out: Seq<char>, pending: bool, s: Seq<char>)
    requires
        partial_normal(out),
    ensures
        is_normal_path(collapse(out, pending, s)),
    decreases s.len(),
{
    if s.len() == 0 {
    } else if s[0] == '/' {
        lemma_collapse_normal(out, true, s.drop_first());
    } else {
        let out2 = if pending || out.len() == 0 {
            out.push('/')
        } else {
            out
        };
        let out3 = out2.push(s[0]);
        assert(partial_normal(out3)) by {
            assert(out3[0] == '/');
            assert forall|i: int| 0 <= i < out3.len() - 1 implies !#[trigger] slash_pair(out3, i) by {
                if i + 1 == out3.len() - 1 {
                } else if out2.len() > out.len() && i + 1 == out2.len() - 1 {
                    assert(out.len() == 0 || out.last() != '/');
                } else {
                    assert(out3[i] == out[i]);
                    assert(out3[i + 1] == out[i + 1]);
                    assert(!slash_pair(out, i));
                }
            }
        }
        lemma_collapse_normal(out3, false, s.drop_first());
    }
}

/// Every normalized path is in normal form.
pub proof fn normalized_is_normal(p: Seq<char>)
    ensures
        is_normal_path(normalize_path(p)),
{
    lemma_collapse_normal(Seq::empty(), false, p);
}

proof fn lemma_collapse_fixed(p: Seq<char>, i: int, out: Seq<char>, pending: bool)
    requires
        is_normal_path(p),
        1 <= i <= p.len(),
        pending ==> p[i - 1] == '/' && out == p.take(i - 1),
        !pending ==> p[i - 1] != '/' && out == p.take(i),
    ensures
        collapse(out, pending, p.skip(i)) == p,
    decreases p.len() - i,
{
    let s = p.skip(i);
    if i == p.len() {
        if pending {
            assert(p.len() == 1);
            assert(p =~= seq!['/']);
        } else {
            assert(p.take(i) =~= p);
        }
    } else {
        assert(s.drop_first() =~= p.skip(i + 1));
        if p[i] == '/' {
            assert(!slash_pair(p, i - 1));
            assert(!pending);
            lemma_collapse_fixed(p, i + 1, out, true);
        } else {
            let out2 = if pending || out.len() == 0 {
                out.push('/')
            } else {
                out
            };
            if pending {
                assert(out2 =~= p.take(i));
            } else {
                assert(out.len() == i);
                assert(out2 == out);
            }
            assert(out2.push(p[i]) =~= p.take(i + 1));
            lemma_collapse_fixed(p, i + 1, out2.push(p[i]), false);
        }
    }
}

/// Normalizing a path in normal form gives it back: normalizing twice is
/// normalizing once.
pub proof fn normalize_is_idempotent(p: Seq<char>)
    ensures
        normalize_path(normalize_path(p)) == normalize_path(p),
{
    let q = normalize_path(p);
    normalized_is_normal(p);
    assert(q.skip(1).len() == q.len() - 1);
    assert(q.drop_first() =~= q.skip(1));
    assert(q.take(0) =~= Seq::<char>::empty());
    lemma_collapse_fixed(q, 1, Seq::empty(), true);
}

fn collapse_exec(s: &[char]) -> (r: Vec<char>)
    ensures
        r@ == normalize_path(s@),
{
    let mut out: Vec<char> = Vec::new();
    let mut pending = false;
    let mut i: usize = 0;
    assert(s@.skip(0) =~= s@);
    while i < s.len()
        invariant
            i <= s@.len(),
            collapse(out@, pending, s@.skip(i as int)) == normalize_path(s@),
        decreases s@.len() - i,
    {
        assert(s@.skip(i as int).drop_first() =~= s@.skip(i + 1));
        let c = s[i];
        if c == '/' {
            pending = true;
        } else {
            if pending || out.len() == 0 {
                out.push('/');
            }
            out.push(c);
            pending = false;
        }
        i += 1;
    }
    if out.len() == 0 {
        out.push('/');
    }
    out
}

/// The URI of a route with URI `uri` mounted at `base`.
pub fn mount_uri(base: &str, uri: &str) -> (r: String)
    ensures
        r@ == mounted_uri(base@, uri@),
{
    let mut joined = chars_of(base);
    joined.push('/');
    let tail = chars_of(uri);
    let ghost start = joined@;
    let mut i: usize = 0;
    while i < tail.len()
        invariant
            i <= tail@.len(),
            joined@ == start + tail@.take(i as int),
        decreases tail@.len() - i,
    {
        joined.push(tail[i]);
        i += 1;
        assert(tail@.take(i as int) =~= tail@.take((i - 1) as int).push(tail@[i - 1]));
    }
    assert(tail@.take(tail@.len() as int) =~= tail@);
    assert(joined@ =~= base@ + seq!['/'] + uri@);
    let mut q: usize = 0;
    while q < joined.len() && joined[q] != '?'
        invariant
            q <= joined@.len(),
            forall|j: int| 0 <= j < q ==> joined@[j] != '?',
        decreases joined@.len() - q,
    {
        q += 1;
    }
    proof {
        crate::request::lemma_before_char_take(joined@, '?', q as int);
    }
    let path = vstd::slice::slice_subrange(joined.as_slice(), 0, q);
    let mut out = collapse_exec(path);
    let ghost norm = out@;
    let mut k: usize = q;
    while k < joined.len()
        invariant
            q <= k <= joined@.len(),
            out@ == norm + joined@.subrange(q as int, k as int),
        decreases joined@.len() - k,
    {
        out.push(joined[k]);
        k += 1;
        assert(joined@.subrange(q as int, k as int) =~= joined@.subrange(q as int, (k - 1) as int).push(joined@[k - 1]));
    }
    assert(joined@.subrange(q as int, joined@.len() as int) =~= joined@.skip(q as int));
    string_of(out.as_slice())
}

} // verus!
