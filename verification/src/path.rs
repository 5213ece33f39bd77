//! Unix paths as bytes: components, order, joining and taking apart.
//!
//! A path is read as a list of components. The separator is `/`; empty pieces and pieces `.` are
//! skipped, except for a piece `.` that starts a relative path. A leading `/` is a component of
//! its own.

use crate::order::Order;
use vstd::prelude::*;
use vstd::slice::{slice_subrange, slice_to_vec};

verus! {

/// The byte `/`.
pub const SLASH: u8 = 47;

/// The byte `.`.
pub const DOT: u8 = 46;

/// Where the piece that starts at `i` ends: at the next separator, or at the end of the path.
pub open spec fn piece_end(p: Seq<u8>, i: int) -> int
    decreases p.len() - i,
{
    if i >= p.len() || p[i] == SLASH {
        i
    } else {
        piece_end(p, i + 1)
    }
}

/// The piece is no component: it is empty or `.`.
pub open spec fn skipped(p: Seq<u8>, from: int, to: int) -> bool {
    from == to || (to == from + 1 && p[from] == DOT)
}

/// The end of a piece is the first slash at or behind `i`, or the end of `p`.
pub proof fn lemma_piece_end(p: Seq<u8>, i: int)
    requires
        0 <= i <= p.len(),
    ensures
        i <= piece_end(p, i) <= p.len(),
        forall|k: int| i <= k < piece_end(p, i) ==> p[k] != SLASH,
        piece_end(p, i) < p.len() ==> p[piece_end(p, i)] == SLASH,
    decreases p.len() - i,
{
    if i < p.len() && p[i] != SLASH {
        lemma_piece_end(p, i + 1);
    }
}

/// The spans of the components among the pieces from `i` on.
pub open spec fn body_spans(p: Seq<u8>, i: int) -> Seq<(int, int)>
    decreases p.len() + 1 - i,
{
    if i < 0 || i >= p.len() {
        Seq::empty()
    } else {
        proof {
            lemma_piece_end(p, i);
        }
        let end = piece_end(p, i);
        if skipped(p, i, end) {
            body_spans(p, end + 1)
        } else {
            seq![(i, end)] + body_spans(p, end + 1)
        }
    }
}

/// The path starts with a component that is a single byte: the root, or the piece `.`.
pub open spec fn has_head(p: Seq<u8>) -> bool {
    p.len() > 0 && (p[0] == SLASH || (p[0] == DOT && (p.len() == 1 || p[1] == SLASH)))
}

/// The spans of the components of `p`, in order.
pub open spec fn spans(p: Seq<u8>) -> Seq<(int, int)> {
    if has_head(p) {
        seq![(0int, 1int)] + body_spans(p, 1)
    } else {
        body_spans(p, 0)
    }
}

/// The components of `p`, each as its bytes.
pub open spec fn components(p: Seq<u8>) -> Seq<Seq<u8>> {
    Seq::new(spans(p).len(), |k: int| p.subrange(spans(p)[k].0, spans(p)[k].1))
}

proof fn lemma_body_spans(p: Seq<u8>, i: int)
    requires
        0 <= i,
    ensures
        forall|k: int|
            0 <= k < body_spans(p, i).len() ==> i <= (#[trigger] body_spans(p, i)[k]).0
                < body_spans(p, i)[k].1 <= p.len(),
        forall|k: int, l: int|
            0 <= k < l < body_spans(p, i).len() ==> (#[trigger] body_spans(p, i)[k]).1
                < (#[trigger] body_spans(p, i)[l]).0,
    decreases p.len() + 1 - i,
{
    if i < p.len() {
        lemma_piece_end(p, i);
        let end = piece_end(p, i);
        let rest = body_spans(p, end + 1);
        lemma_body_spans(p, end + 1);
        if !skipped(p, i, end) {
            let all = body_spans(p, i);
            assert forall|k: int| 0 <= k < all.len() implies #[trigger] all[k] == (if k == 0 {
                (i, end)
            } else {
                rest[k - 1]
            }) by {}
        }
    }
}

/// Spans are not empty, lie in the path and follow one another.
pub proof fn lemma_spans(p: Seq<u8>)
    ensures
        forall|k: int|
            0 <= k < spans(p).len() ==> 0 <= (#[trigger] spans(p)[k]).0 < spans(p)[k].1 <= p.len(),
        forall|k: int, l: int|
            0 <= k < l < spans(p).len() ==> (#[trigger] spans(p)[k]).1 <= (#[trigger] spans(
                p,
            )[l]).0,
{
    lemma_body_spans(p, 0);
    lemma_body_spans(p, 1);
}

/// The spans that `v` holds, as numbers.
pub open spec fn span_views(v: Seq<(usize, usize)>) -> Seq<(int, int)> {
    Seq::new(v.len(), |k: int| (v[k].0 as int, v[k].1 as int))
}

fn find_piece_end(p: &[u8], from: usize) -> (end: usize)
    requires
        from <= p@.len(),
    ensures
        end == piece_end(p@, from as int),
{
    let mut end = from;
    while end < p.len() && p[end] != SLASH
        invariant
            from <= end <= p@.len(),
            piece_end(p@, from as int) == piece_end(p@, end as int),
        decreases p@.len() - end,
    {
        end = end + 1;
    }
    end
}

/// The spans of the components of `p`.
pub fn component_spans(p: &[u8]) -> (out: Vec<(usize, usize)>)
    ensures
        span_views(out@) == spans(p@),
{
    let mut out: Vec<(usize, usize)> = Vec::new();
    let mut i: usize = 0;
    if p.len() > 0 && (p[0] == SLASH || (p[0] == DOT && (p.len() == 1 || p[1] == SLASH))) {
        out.push((0, 1));
        i = 1;
    }
    assert(span_views(out@) + body_spans(p@, i as int) == spans(p@));
    while i < p.len()
        invariant
            i <= p@.len(),
            span_views(out@) + body_spans(p@, i as int) == spans(p@),
        decreases p@.len() - i,
    {
        let end = find_piece_end(p, i);
        proof {
            lemma_piece_end(p@, i as int);
        }
        let ghost before = span_views(out@);
        if !(i == end || (end == i + 1 && p[i] == DOT)) {
            out.push((i, end));
            proof {
                assert(span_views(out@) == before.push((i as int, end as int)));
                assert(before.push((i as int, end as int)) + body_spans(p@, end + 1) == before + (
                seq![(i as int, end as int)] + body_spans(p@, end + 1)));
            }
        }
        i = if end < p.len() { end + 1 } else { end };
        proof {
            assert(body_spans(p@, i as int) == body_spans(p@, end + 1));
        }
    }
    assert(body_spans(p@, i as int) == Seq::<(int, int)>::empty());
    assert(span_views(out@) == spans(p@));
    out
}

/// How many components `p` has.
pub fn component_count(p: &[u8]) -> (n: usize)
    ensures
        n == components(p@).len(),
{
    let s = component_spans(p);
    assert(span_views(s@).len() == s@.len());
    s.len()
}

/// `a` comes no later than `b` when their bytes are compared one by one.
pub open spec fn bytes_leq(a: Seq<u8>, b: Seq<u8>) -> bool
    decreases a.len(),
{
    if a.len() == 0 {
        true
    } else if b.len() == 0 {
        false
    } else if a[0] == b[0] {
        bytes_leq(a.drop_first(), b.drop_first())
    } else {
        a[0] < b[0]
    }
}

/// The root ranks before a leading `.`, that before `..`, and `..` before every name.
pub open spec fn component_rank(c: Seq<u8>) -> int {
    if c == seq![SLASH] {
        0
    } else if c == seq![DOT] {
        1
    } else if c == seq![DOT, DOT] {
        2
    } else {
        3
    }
}

/// Components are compared by rank, and names byte by byte.
pub open spec fn component_leq(a: Seq<u8>, b: Seq<u8>) -> bool {
    ||| component_rank(a) < component_rank(b)
    ||| component_rank(a) == component_rank(b) && bytes_leq(a, b)
}

/// Lists of components are compared one component at a time; a list comes before its extensions.
pub open spec fn components_leq(a: Seq<Seq<u8>>, b: Seq<Seq<u8>>) -> bool
    decreases a.len(),
{
    if a.len() == 0 {
        true
    } else if b.len() == 0 {
        false
    } else if a[0] == b[0] {
        components_leq(a.drop_first(), b.drop_first())
    } else {
        component_leq(a[0], b[0])
    }
}

/// The order of paths.
pub open spec fn path_leq(a: Seq<u8>, b: Seq<u8>) -> bool {
    components_leq(components(a), components(b))
}

proof fn lemma_bytes_total(a: Seq<u8>, b: Seq<u8>)
    ensures
        bytes_leq(a, b) || bytes_leq(b, a),
        bytes_leq(a, b) && bytes_leq(b, a) ==> a == b,
    decreases a.len(),
{
    if a.len() > 0 && b.len() > 0 && a[0] == b[0] {
        lemma_bytes_total(a.drop_first(), b.drop_first());
        assert(a == seq![a[0]] + a.drop_first());
        assert(b == seq![b[0]] + b.drop_first());
    } else if a.len() == 0 && b.len() == 0 {
        assert(a == b);
    }
}

proof fn lemma_bytes_transitive(a: Seq<u8>, b: Seq<u8>, c: Seq<u8>)
    requires
        bytes_leq(a, b),
        bytes_leq(b, c),
    ensures
        bytes_leq(a, c),
    decreases a.len(),
{
    if a.len() > 0 && a[0] == b[0] && b[0] == c[0] {
        lemma_bytes_transitive(a.drop_first(), b.drop_first(), c.drop_first());
    }
}

proof fn lemma_component_total(a: Seq<u8>, b: Seq<u8>)
    ensures
        component_leq(a, b) || component_leq(b, a),
        component_leq(a, b) && component_leq(b, a) ==> a == b,
{
    lemma_bytes_total(a, b);
}

proof fn lemma_component_transitive(a: Seq<u8>, b: Seq<u8>, c: Seq<u8>)
    requires
        component_leq(a, b),
        component_leq(b, c),
    ensures
        component_leq(a, c),
{
    if component_rank(a) == component_rank(b) && component_rank(b) == component_rank(c) {
        lemma_bytes_transitive(a, b, c);
    }
}

proof fn lemma_components_total(a: Seq<Seq<u8>>, b: Seq<Seq<u8>>)
    ensures
        components_leq(a, b) || components_leq(b, a),
        components_leq(a, b) && components_leq(b, a) ==> a == b,
    decreases a.len(),
{
    if a.len() > 0 && b.len() > 0 {
        if a[0] == b[0] {
            lemma_components_total(a.drop_first(), b.drop_first());
            assert(a == seq![a[0]] + a.drop_first());
            assert(b == seq![b[0]] + b.drop_first());
        } else {
            lemma_component_total(a[0], b[0]);
        }
    } else if a.len() == 0 && b.len() == 0 {
        assert(a == b);
    }
}

proof fn lemma_components_transitive(a: Seq<Seq<u8>>, b: Seq<Seq<u8>>, c: Seq<Seq<u8>>)
    requires
        components_leq(a, b),
        components_leq(b, c),
    ensures
        components_leq(a, c),
    decreases a.len(),
{
    if a.len() > 0 {
        if a[0] == b[0] && b[0] == c[0] {
            lemma_components_transitive(a.drop_first(), b.drop_first(), c.drop_first());
        } else if a[0] != b[0] && b[0] != c[0] {
            lemma_component_transitive(a[0], b[0], c[0]);
            if a[0] == c[0] {
                lemma_component_total(a[0], b[0]);
            }
        }
    }
}

/// Paths are totally ordered, and two paths rank alike exactly when their components agree.
pub proof fn lemma_path_order(a: Seq<u8>, b: Seq<u8>)
    ensures
        path_leq(a, b) || path_leq(b, a),
        (path_leq(a, b) && path_leq(b, a)) == (components(a) == components(b)),
{
    lemma_components_total(components(a), components(b));
    lemma_components_total(components(a), components(a));
}

/// The order of paths is transitive.
pub proof fn lemma_path_transitive(a: Seq<u8>, b: Seq<u8>, c: Seq<u8>)
    requires
        path_leq(a, b),
        path_leq(b, c),
    ensures
        path_leq(a, c),
{
    lemma_components_transitive(components(a), components(b), components(c));
}

fn bytes_le(a: &[u8], b: &[u8]) -> (r: bool)
    ensures
        r == bytes_leq(a@, b@),
{
    let mut i: usize = 0;
    assert(a@.skip(0) == a@ && b@.skip(0) == b@);
    while i < a.len() && i < b.len()
        invariant
            i <= a@.len(),
            i <= b@.len(),
            bytes_leq(a@, b@) == bytes_leq(a@.skip(i as int), b@.skip(i as int)),
        decreases a@.len() - i,
    {
        assert(a@.skip(i as int).drop_first() == a@.skip(i + 1));
        assert(b@.skip(i as int).drop_first() == b@.skip(i + 1));
        if a[i] != b[i] {
            return a[i] < b[i];
        }
        i = i + 1;
    }
    i == a.len()
}

/// Tells whether `a` and `b` are the same bytes.
pub fn same_bytes(a: &[u8], b: &[u8]) -> (r: bool)
    ensures
        r == (a@ == b@),
{
    if a.len() != b.len() {
        return false;
    }
    let mut i: usize = 0;
    while i < a.len()
        invariant
            i <= a@.len() == b@.len(),
            forall|j: int| 0 <= j < i ==> a@[j] == b@[j],
        decreases a@.len() - i,
    {
        if a[i] != b[i] {
            return false;
        }
        i = i + 1;
    }
    assert(a@ == b@);
    true
}

fn rank_of(c: &[u8]) -> (r: u8)
    ensures
        r == component_rank(c@),
{
    if c.len() == 1 && c[0] == SLASH {
        assert(c@ == seq![SLASH]);
        0
    } else if c.len() == 1 && c[0] == DOT {
        assert(c@ == seq![DOT]);
        1
    } else if c.len() == 2 && c[0] == DOT && c[1] == DOT {
        assert(c@ == seq![DOT, DOT]);
        2
    } else {
        3
    }
}

fn component_le(a: &[u8], b: &[u8]) -> (r: bool)
    ensures
        r == component_leq(a@, b@),
{
    let x = rank_of(a);
    let y = rank_of(b);
    x < y || (x == y && bytes_le(a, b))
}

/// Tells whether the path `a` comes no later than the path `b`.
pub fn path_le(a: &[u8], b: &[u8]) -> (r: bool)
    ensures
        r == path_leq(a@, b@),
{
    let sa = component_spans(a);
    let sb = component_spans(b);
    let ghost ca = components(a@);
    let ghost cb = components(b@);
    proof {
        lemma_spans(a@);
        lemma_spans(b@);
        assert(ca.skip(0) == ca && cb.skip(0) == cb);
        assert(span_views(sa@).len() == sa@.len());
        assert(span_views(sb@).len() == sb@.len());
    }
    let mut k: usize = 0;
    while k < sa.len() && k < sb.len()
        invariant
            span_views(sa@) == spans(a@),
            span_views(sb@) == spans(b@),
            ca == components(a@),
            cb == components(b@),
            sa@.len() == ca.len(),
            sb@.len() == cb.len(),
            forall|j: int|
                0 <= j < spans(a@).len() ==> 0 <= (#[trigger] spans(a@)[j]).0 < spans(a@)[j].1
                    <= a@.len(),
            forall|j: int|
                0 <= j < spans(b@).len() ==> 0 <= (#[trigger] spans(b@)[j]).0 < spans(b@)[j].1
                    <= b@.len(),
            k <= sa@.len(),
            k <= sb@.len(),
            components_leq(ca, cb) == components_leq(ca.skip(k as int), cb.skip(k as int)),
        decreases sa@.len() - k,
    {
        assert(span_views(sa@)[k as int] == spans(a@)[k as int]);
        assert(span_views(sb@)[k as int] == spans(b@)[k as int]);
        let x = slice_subrange(a, sa[k].0, sa[k].1);
        let y = slice_subrange(b, sb[k].0, sb[k].1);
        assert(x@ == ca[k as int]);
        assert(y@ == cb[k as int]);
        assert(ca.skip(k as int).drop_first() == ca.skip(k + 1));
        assert(cb.skip(k as int).drop_first() == cb.skip(k + 1));
        if !same_bytes(x, y) {
            return component_le(x, y);
        }
        k = k + 1;
    }
    k == sa.len()
}

/// `path` lies at or below `base`: the components of `base` start those of `path`.
pub open spec fn is_below(path: Seq<u8>, base: Seq<u8>) -> bool {
    components(base).is_prefix_of(components(path))
}

/// Tells whether `path` lies at or below `base`. Only whole components match.
pub fn starts_with(path: &[u8], base: &[u8]) -> (r: bool)
    ensures
        r == is_below(path@, base@),
{
    let sp = component_spans(path);
    let sb = component_spans(base);
    proof {
        lemma_spans(path@);
        lemma_spans(base@);
        assert(span_views(sp@).len() == sp@.len());
        assert(span_views(sb@).len() == sb@.len());
    }
    if sb.len() > sp.len() {
        return false;
    }
    let mut k: usize = 0;
    while k < sb.len()
        invariant
            span_views(sp@) == spans(path@),
            span_views(sb@) == spans(base@),
            forall|j: int|
                0 <= j < spans(path@).len() ==> 0 <= (#[trigger] spans(path@)[j]).0 < spans(
                    path@,
                )[j].1 <= path@.len(),
            forall|j: int|
                0 <= j < spans(base@).len() ==> 0 <= (#[trigger] spans(base@)[j]).0 < spans(
                    base@,
                )[j].1 <= base@.len(),
            k <= sb@.len() <= sp@.len(),
            sb@.len() == components(base@).len(),
            sp@.len() == components(path@).len(),
            forall|j: int| 0 <= j < k ==> components(path@)[j] == components(base@)[j],
        decreases sb@.len() - k,
    {
        assert(span_views(sp@)[k as int] == spans(path@)[k as int]);
        assert(span_views(sb@)[k as int] == spans(base@)[k as int]);
        let x = slice_subrange(path, sp[k].0, sp[k].1);
        let y = slice_subrange(base, sb[k].0, sb[k].1);
        assert(x@ == components(path@)[k as int]);
        assert(y@ == components(base@)[k as int]);
        if !same_bytes(x, y) {
            proof {
                assert(components(path@).take(components(base@).len() as int)[k as int]
                    == components(path@)[k as int]);
            }
            return false;
        }
        k = k + 1;
    }
    assert(components(path@).take(components(base@).len() as int) == components(base@));
    true
}

/// What remains of `path` behind `base`, where `path` lies at or below it.
pub open spec fn relative(path: Seq<u8>, base: Seq<u8>) -> Option<Seq<u8>> {
    let n = components(base).len();
    if !is_below(path, base) {
        None
    } else if n == components(path).len() {
        Some(Seq::empty())
    } else {
        Some(path.subrange(spans(path)[n as int].0, spans(path).last().1))
    }
}

/// Takes `base` off the front of `path`.
pub fn strip_prefix(path: &[u8], base: &[u8]) -> (rest: Option<Vec<u8>>)
    ensures
        match (rest, relative(path@, base@)) {
            (Some(r), Some(s)) => r@ == s,
            (None, None) => true,
            _ => false,
        },
{
    if !starts_with(path, base) {
        return None;
    }
    let sp = component_spans(path);
    let n = component_count(base);
    proof {
        lemma_spans(path@);
        assert(span_views(sp@).len() == sp@.len());
    }
    if n == sp.len() {
        return Some(Vec::new());
    }
    assert(span_views(sp@)[n as int] == spans(path@)[n as int]);
    assert(span_views(sp@)[sp@.len() - 1] == spans(path@).last());
    Some(slice_to_vec(slice_subrange(path, sp[n].0, sp[sp.len() - 1].1)))
}

/// The path without its last component; none where it has no component but the root.
pub open spec fn parent_of(path: Seq<u8>) -> Option<Seq<u8>> {
    let s = spans(path);
    if s.len() == 0 || components(path).last() == seq![SLASH] {
        None
    } else if s.len() == 1 {
        Some(Seq::empty())
    } else {
        Some(path.take(s[s.len() - 2].1))
    }
}

/// Takes the last component off `path`.
pub fn parent(path: &[u8]) -> (up: Option<Vec<u8>>)
    ensures
        match (up, parent_of(path@)) {
            (Some(r), Some(s)) => r@ == s,
            (None, None) => true,
            _ => false,
        },
{
    let s = component_spans(path);
    proof {
        lemma_spans(path@);
        assert(span_views(s@).len() == s@.len());
    }
    let n = s.len();
    if n == 0 {
        return None;
    }
    assert(span_views(s@)[n - 1] == spans(path@)[n - 1]);
    let last = slice_subrange(path, s[n - 1].0, s[n - 1].1);
    assert(last@ == components(path@).last());
    if last.len() == 1 && last[0] == SLASH {
        assert(last@ == seq![SLASH]);
        return None;
    }
    if n == 1 {
        return Some(Vec::new());
    }
    assert(span_views(s@)[n - 2] == spans(path@)[n - 2]);
    Some(slice_to_vec(slice_subrange(path, 0, s[n - 2].1)))
}

/// `name` seen from `base`: an absolute name stands for itself, another is put behind `base`.
pub open spec fn joined(base: Seq<u8>, name: Seq<u8>) -> Seq<u8> {
    if name.len() > 0 && name[0] == SLASH {
        name
    } else if base.len() > 0 && base.last() != SLASH {
        base + seq![SLASH] + name
    } else {
        base + name
    }
}

/// Puts `name` behind `base`.
pub fn join(base: &[u8], name: &[u8]) -> (out: Vec<u8>)
    ensures
        out@ == joined(base@, name@),
{
    if name.len() > 0 && name[0] == SLASH {
        return slice_to_vec(name);
    }
    let mut out = slice_to_vec(base);
    if base.len() > 0 && base[base.len() - 1] != SLASH {
        out.push(SLASH);
    }
    let mut tail = slice_to_vec(name);
    out.append(&mut tail);
    out
}

/// The spans of `s`, moved by `n`.
spec fn shifted(s: Seq<(int, int)>, n: int) -> Seq<(int, int)> {
    Seq::new(s.len(), |k: int| (s[k].0 + n, s[k].1 + n))
}

proof fn lemma_piece_end_behind(p: Seq<u8>, r: Seq<u8>, i: int)
    requires
        0 <= i <= r.len(),
    ensures
        piece_end(p + r, p.len() + i) == p.len() + piece_end(r, i),
    decreases r.len() - i,
{
    if i < r.len() && r[i] != SLASH {
        lemma_piece_end_behind(p, r, i + 1);
    }
}

/// Behind a prefix, the spans of what follows are moved by its length.
proof fn lemma_body_spans_behind(p: Seq<u8>, r: Seq<u8>, i: int)
    requires
        0 <= i <= r.len() + 1,
    ensures
        body_spans(p + r, p.len() + i) == shifted(body_spans(r, i), p.len() as int),
    decreases r.len() + 1 - i,
{
    if i < r.len() {
        lemma_piece_end(r, i);
        lemma_piece_end_behind(p, r, i);
        lemma_body_spans_behind(p, r, piece_end(r, i) + 1);
    }
}

proof fn lemma_piece_end_before(p: Seq<u8>, r: Seq<u8>, i: int)
    requires
        0 <= i < p.len(),
        p.last() == SLASH || (r.len() > 0 && r[0] == SLASH),
    ensures
        piece_end(p + r, i) == piece_end(p, i),
    decreases p.len() - i,
{
    if p[i] != SLASH {
        if i + 1 < p.len() {
            lemma_piece_end_before(p, r, i + 1);
        } else {
            assert((p + r)[i + 1] == r[0]);
            assert(piece_end(p + r, i + 1) == i + 1);
            assert(piece_end(p, i + 1) == i + 1);
        }
    }
}

/// Where a path is split at a separator, its spans are those of the two parts.
proof fn lemma_body_spans_before(p: Seq<u8>, r: Seq<u8>, i: int)
    requires
        0 <= i <= p.len(),
        p.len() > 0,
        p.last() == SLASH || (r.len() > 0 && r[0] == SLASH),
    ensures
        body_spans(p + r, i) == body_spans(p, i) + body_spans(p + r, p.len() as int),
    decreases p.len() - i,
{
    let q = p + r;
    let rest = body_spans(q, p.len() as int);
    if i < p.len() {
        lemma_piece_end(p, i);
        lemma_piece_end_before(p, r, i);
        let end = piece_end(p, i);
        if end < p.len() {
            lemma_body_spans_before(p, r, end + 1);
        } else {
            assert(q[end] == SLASH) by {
                assert(p.last() != SLASH);
            }
            assert(piece_end(q, end) == end);
            assert(body_spans(q, end) == body_spans(q, end + 1));
            assert(body_spans(p, end + 1) == Seq::<(int, int)>::empty());
        }
        assert(body_spans(q, end + 1) == body_spans(p, end + 1) + rest);
        assert(skipped(q, i, end) == skipped(p, i, end));
        if !skipped(p, i, end) {
            assert(seq![(i, end)] + (body_spans(p, end + 1) + rest) == (seq![(i, end)] + body_spans(
                p,
                end + 1,
            )) + rest);
        }
    } else {
        assert(body_spans(p, i) + rest == rest);
    }
}

/// A relative name without a leading `.`.
pub open spec fn is_plain(name: Seq<u8>) -> bool {
    !has_head(name)
}

proof fn lemma_joined_spans(base: Seq<u8>, name: Seq<u8>)
    requires
        is_plain(name),
        base.len() > 0,
    ensures
        ({
            let q = joined(base, name);
            let at = q.len() - name.len();
            &&& at >= base.len()
            &&& q.take(at).take(base.len() as int) == base
            &&& q.skip(at) == name
            &&& spans(q) == spans(base) + shifted(spans(name), at)
        }),
{
    let q = joined(base, name);
    let at = q.len() - name.len();
    let head = q.take(at);
    assert(q == head + name);
    assert(q.skip(at) == name);
    assert(head.take(base.len() as int) == base);
    let start: int = if has_head(base) { 1 } else { 0 };
    assert(has_head(q) == has_head(base)) by {
        assert(q[0] == base[0]);
        if base.len() > 1 {
            assert(q[1] == base[1]);
        } else if base[0] == DOT {
            assert(q[1] == SLASH);
        }
    }
    if base.last() == SLASH {
        assert(head == base);
        lemma_body_spans_before(base, name, start);
        lemma_body_spans_behind(base, name, 0);
    } else {
        let r = seq![SLASH] + name;
        assert(q == base + r);
        lemma_body_spans_before(base, r, start);
        assert(q[base.len() as int] == SLASH);
        assert(piece_end(q, base.len() as int) == base.len());
        assert(body_spans(q, base.len() as int) == body_spans(q, base.len() as int + 1));
        assert(head == base + seq![SLASH]);
        lemma_body_spans_behind(head, name, 0);
    }
    assert(spans(q) == spans(base) + shifted(spans(name), at)) by {
        if has_head(base) {
            assert(seq![(0int, 1int)] + (body_spans(base, 1) + shifted(body_spans(name, 0), at))
                == (seq![(0int, 1int)] + body_spans(base, 1)) + shifted(body_spans(name, 0), at));
        }
    }
}

/// Joining puts the components of a plain name behind those of the base.
pub proof fn lemma_joined_components(base: Seq<u8>, name: Seq<u8>)
    requires
        is_plain(name),
    ensures
        components(joined(base, name)) == components(base) + components(name),
        is_below(joined(base, name), base),
{
    let q = joined(base, name);
    if base.len() == 0 {
        assert(q == name);
        assert(spans(base) == Seq::<(int, int)>::empty());
        assert(components(base) + components(name) == components(name));
        assert(components(q).take(0) == components(base));
    } else {
        lemma_joined_spans(base, name);
        lemma_spans(base);
        lemma_spans(name);
        let at = q.len() - name.len();
        let n = spans(base).len();
        assert forall|k: int| 0 <= k < spans(q).len() implies #[trigger] components(q)[k] == (
        components(base) + components(name))[k] by {
            if k < n {
                let (x, y) = spans(base)[k];
                assert(spans(q)[k] == (x, y));
                assert(q.take(at).take(base.len() as int) == base);
                assert(q.subrange(x, y) == base.subrange(x, y)) by {
                    assert forall|j: int| x <= j < y implies q[j] == base[j] by {
                        assert(q.take(at).take(base.len() as int)[j] == q[j]);
                    }
                }
            } else {
                let (x, y) = spans(name)[k - n];
                assert(spans(q)[k] == (x + at, y + at));
                assert(q.subrange(x + at, y + at) == name.subrange(x, y)) by {
                    assert forall|j: int| x <= j < y implies q[j + at] == name[j] by {
                        assert(q.skip(at)[j] == q[j + at]);
                    }
                }
            }
        }
        assert(components(q) == components(base) + components(name));
        assert(components(q).take(components(base).len() as int) == components(base));
    }
}

/// The components among the pieces of `r`, of which none is the root.
spec fn pieces(r: Seq<u8>) -> Seq<Seq<u8>> {
    Seq::new(
        body_spans(r, 0).len(),
        |k: int| r.subrange(body_spans(r, 0)[k].0, body_spans(r, 0)[k].1),
    )
}

/// Behind a separator, a path goes on with the pieces of what follows.
proof fn lemma_pieces_behind(a: Seq<u8>, r: Seq<u8>)
    requires
        a.len() > 0,
        a.last() == SLASH,
    ensures
        components(a + r) == components(a) + pieces(r),
{
    let q = a + r;
    let at = a.len() as int;
    let start: int = if has_head(a) { 1 } else { 0 };
    assert(q[0] == a[0]);
    if a.len() > 1 {
        assert(q[1] == a[1]);
    }
    assert(has_head(q) == has_head(a));
    lemma_body_spans_before(a, r, start);
    lemma_body_spans_behind(a, r, 0);
    let n = spans(a).len();
    lemma_spans(a);
    lemma_body_spans(r, 0);
    assert(spans(q) == spans(a) + shifted(body_spans(r, 0), at)) by {
        if has_head(a) {
            assert(seq![(0int, 1int)] + (body_spans(a, 1) + shifted(body_spans(r, 0), at)) == (seq![
                (0int, 1int),
            ] + body_spans(a, 1)) + shifted(body_spans(r, 0), at));
        }
    }
    assert forall|k: int| 0 <= k < spans(q).len() implies #[trigger] components(q)[k] == (components(
        a,
    ) + pieces(r))[k] by {
        if k < n {
            let (x, y) = spans(a)[k];
            assert(spans(q)[k] == (x, y));
            assert(q.subrange(x, y) == a.subrange(x, y));
        } else {
            let (x, y) = body_spans(r, 0)[k - n];
            assert(spans(q)[k] == (x + at, y + at));
            assert(q.subrange(x + at, y + at) == r.subrange(x, y));
        }
    }
    assert(components(q) == components(a) + pieces(r));
}

/// A prefix that holds no component adds none.
proof fn lemma_pieces_skip(p: Seq<u8>, r: Seq<u8>)
    requires
        p == seq![SLASH] || p == seq![DOT, SLASH],
    ensures
        pieces(p + r) == pieces(r),
{
    let q = p + r;
    let n = p.len() as int;
    assert(q[0] == p[0]);
    reveal_with_fuel(piece_end, 3);
    if p == seq![DOT, SLASH] {
        assert(q[1] == SLASH);
    }
    assert(body_spans(q, 0) == body_spans(q, n));
    lemma_body_spans_behind(p, r, 0);
    lemma_body_spans(r, 0);
    assert forall|k: int| 0 <= k < pieces(r).len() implies #[trigger] pieces(q)[k] == pieces(
        r,
    )[k] by {
        let (x, y) = body_spans(r, 0)[k];
        assert(body_spans(q, 0)[k] == (x + n, y + n));
        assert(q.subrange(x + n, y + n) == r.subrange(x, y));
    }
    assert(pieces(q) == pieces(r));
}

/// A separator at the end, one behind another, and the piece `.` behind a separator make no
/// difference to the components of a path.
pub proof fn lemma_redundant_parts(p: Seq<u8>, r: Seq<u8>)
    requires
        p.len() > 0,
    ensures
        components(p + seq![SLASH]) == components(p),
        components(p + seq![SLASH] + seq![DOT]) == components(p),
        components(p + seq![SLASH] + (seq![SLASH] + r)) == components(p + seq![SLASH] + r),
        components(p + seq![SLASH] + (seq![DOT, SLASH] + r)) == components(p + seq![SLASH] + r),
{
    let a = p + seq![SLASH];
    let none = Seq::<u8>::empty();
    reveal_with_fuel(piece_end, 3);
    reveal_with_fuel(body_spans, 3);
    assert(pieces(none) == Seq::<Seq<u8>>::empty());
    assert(pieces(seq![DOT]) == Seq::<Seq<u8>>::empty());
    assert(seq![SLASH] + none == seq![SLASH]);
    lemma_pieces_skip(seq![SLASH], none);
    if p.last() == SLASH {
        lemma_pieces_behind(p, seq![SLASH]);
        assert(components(p) + Seq::<Seq<u8>>::empty() == components(p));
    } else {
        lemma_joined_components(p, none);
        assert(joined(p, none) == a);
        assert(components(none) == Seq::<Seq<u8>>::empty());
        assert(components(p) + Seq::<Seq<u8>>::empty() == components(p));
    }
    lemma_pieces_behind(a, seq![DOT]);
    assert(components(a) + Seq::<Seq<u8>>::empty() == components(a));
    lemma_pieces_behind(a, r);
    lemma_pieces_behind(a, seq![SLASH] + r);
    lemma_pieces_behind(a, seq![DOT, SLASH] + r);
    lemma_pieces_skip(seq![SLASH], r);
    lemma_pieces_skip(seq![DOT, SLASH], r);
}

/// Taking the base off again gives the name back, where the name ends with its last component.
pub proof fn lemma_relative_joined(base: Seq<u8>, name: Seq<u8>)
    requires
        is_plain(name),
        name.len() > 0,
        spans(name).len() > 0,
        spans(name).last().1 == name.len(),
    ensures
        relative(joined(base, name), base) == Some(name),
{
    let q = joined(base, name);
    lemma_joined_components(base, name);
    lemma_piece_end(name, 0);
    assert(spans(name)[0].0 == 0) by {
        assert(!skipped(name, 0, piece_end(name, 0)));
    }
    if base.len() == 0 {
        assert(q == name);
        assert(name.subrange(0, name.len() as int) == name);
    } else {
        lemma_joined_spans(base, name);
        let at = q.len() - name.len();
        let n = components(base).len() as int;
        assert(spans(q)[n] == (spans(name)[0].0 + at, spans(name)[0].1 + at));
        assert(spans(q).last().1 == name.len() + at);
        assert(q.subrange(at, q.len() as int) == q.skip(at));
    }
}

proof fn lemma_piece_end_cut(p: Seq<u8>, to: int, i: int)
    requires
        0 <= i <= piece_end(p, i) <= to <= p.len(),
    ensures
        piece_end(p.take(to), i) == piece_end(p, i),
    decreases p.len() - i,
{
    if i < to && p[i] != SLASH {
        lemma_piece_end(p, i + 1);
        lemma_piece_end_cut(p, to, i + 1);
    }
}

/// Where a path is cut behind a component, the components up to there remain.
proof fn lemma_body_spans_cut(p: Seq<u8>, i: int, k: int)
    requires
        0 <= i,
        0 <= k < body_spans(p, i).len(),
    ensures
        body_spans(p.take(body_spans(p, i)[k].1), i) == body_spans(p, i).take(k + 1),
        i < body_spans(p, i)[k].1 <= p.len(),
    decreases p.len() + 1 - i,
{
    let all = body_spans(p, i);
    let to = all[k].1;
    let cut = p.take(to);
    let end = piece_end(p, i);
    lemma_body_spans(p, i);
    lemma_piece_end(p, i);
    lemma_body_spans(p, end + 1);
    if skipped(p, i, end) {
        lemma_body_spans_cut(p, end + 1, k);
        lemma_piece_end_cut(p, to, i);
        assert(body_spans(cut, i) == body_spans(cut, end + 1));
    } else {
        let rest = body_spans(p, end + 1);
        if k == 0 {
            assert(to == end);
            lemma_piece_end_cut(p, to, i);
            assert(body_spans(cut, end + 1) == Seq::<(int, int)>::empty());
            assert(body_spans(cut, i) == seq![(i, end)] + body_spans(cut, end + 1));
            assert(all.take(1) == seq![(i, end)]);
        } else {
            assert(all[k] == rest[k - 1]);
            lemma_body_spans_cut(p, end + 1, k - 1);
            lemma_piece_end_cut(p, to, i);
            assert(body_spans(cut, i) == seq![(i, end)] + body_spans(cut, end + 1));
            assert(all.take(k + 1) == seq![(i, end)] + rest.take(k));
        }
    }
}

/// The parent of a path has its components but the last.
pub proof fn lemma_parent_components(path: Seq<u8>)
    ensures
        parent_of(path) matches Some(up) ==> components(path).len() > 0 && components(up)
            == components(path).drop_last(),
{
    let s = spans(path);
    let n = s.len() as int;
    lemma_spans(path);
    if parent_of(path) is Some {
        let up = parent_of(path)->Some_0;
        if n == 1 {
            assert(components(up) == Seq::<Seq<u8>>::empty());
            assert(components(path).drop_last() == Seq::<Seq<u8>>::empty());
        } else {
            let to = s[n - 2].1;
            assert(up == path.take(to));
            if has_head(path) {
                let body = body_spans(path, 1);
                if n == 2 {
                    assert(to == 1);
                    assert(body_spans(up, 1) == Seq::<(int, int)>::empty());
                } else {
                    assert(s[n - 2] == body[n - 3]);
                    lemma_body_spans_cut(path, 1, n - 3);
                    assert(body_spans(up, 1) == body.take(n - 2));
                }
                assert(has_head(up));
                assert(spans(up) == s.drop_last());
            } else {
                lemma_body_spans_cut(path, 0, n - 2);
                lemma_piece_end(path, 0);
                lemma_body_spans(path, piece_end(path, 0) + 1);
                if path[0] == DOT {
                    lemma_piece_end(path, 1);
                    lemma_piece_end(path, 2);
                    assert(piece_end(path, 0) >= 2);
                    assert(s[0] == (0int, piece_end(path, 0)));
                    assert(to >= s[0].1);
                }
                assert(!has_head(up));
                assert(spans(up) == s.drop_last());
            }
            assert forall|k: int| 0 <= k < n - 1 implies #[trigger] components(up)[k]
                == components(path)[k] by {
                assert(spans(up)[k] == s[k]);
                assert(s[k].1 <= to);
                assert(up.subrange(s[k].0, s[k].1) == path.subrange(s[k].0, s[k].1));
            }
            assert(components(up) == components(path).drop_last());
        }
    }
}

/// From where a component starts, it and the components behind it remain.
proof fn lemma_body_spans_from(p: Seq<u8>, i: int, k: int)
    requires
        0 <= i,
        0 <= k < body_spans(p, i).len(),
    ensures
        body_spans(p, body_spans(p, i)[k].0) == body_spans(p, i).skip(k),
        i <= body_spans(p, i)[k].0,
    decreases p.len() + 1 - i,
{
    let all = body_spans(p, i);
    let end = piece_end(p, i);
    lemma_body_spans(p, i);
    lemma_piece_end(p, i);
    if skipped(p, i, end) {
        lemma_body_spans_from(p, end + 1, k);
    } else {
        let rest = body_spans(p, end + 1);
        if k == 0 {
            assert(all.skip(0) == all);
        } else {
            assert(all[k] == rest[k - 1]);
            lemma_body_spans_from(p, end + 1, k - 1);
            assert(all.skip(k) == rest.skip(k - 1));
        }
    }
}

/// What remains behind a base that is not empty has the components behind those of the base.
pub proof fn lemma_relative_components(path: Seq<u8>, base: Seq<u8>)
    requires
        is_below(path, base),
        components(base).len() > 0,
    ensures
        relative(path, base) matches Some(rel) && is_plain(rel) && components(rel) == components(
            path,
        ).skip(components(base).len() as int),
{
    let n = components(base).len() as int;
    let s = spans(path);
    let rel = relative(path, base)->Some_0;
    lemma_spans(path);
    if n == s.len() {
        assert(components(rel) == Seq::<Seq<u8>>::empty());
        assert(components(path).skip(n) == Seq::<Seq<u8>>::empty());
    } else {
        let start: int = if has_head(path) { 1 } else { 0 };
        let body = body_spans(path, start);
        let a = s[n].0;
        let z = s.last().1;
        let tail = body_spans(path, a);
        assert(s[n] == body[n - start]);
        lemma_body_spans_from(path, start, n - start);
        assert(tail == s.skip(n));
        assert(tail.last() == s.last());
        lemma_body_spans_cut(path, a, tail.len() - 1);
        assert(tail.take(tail.len() as int) == tail);
        assert(body_spans(path.take(z), a) == tail);
        let head = path.take(a);
        assert(path.take(z) == head + rel);
        lemma_body_spans_behind(head, rel, 0);
        assert(tail == shifted(body_spans(rel, 0), a));
        // The first component starts where it stands, so it is neither empty nor `.`.
        let end = piece_end(path, a);
        lemma_piece_end(path, a);
        lemma_body_spans(path, end + 1);
        assert(tail[0].0 == a);
        if skipped(path, a, end) {
            assert(tail == body_spans(path, end + 1));
            assert(body_spans(path, end + 1)[0].0 >= end + 1);
        }
        assert(end <= z) by {
            assert(tail[0] == (a, end));
            assert(s[n].1 <= z);
        }
        assert(rel[0] == path[a]);
        if rel.len() > 1 {
            assert(rel[1] == path[a + 1]);
        }
        assert(path[a] == DOT && rel.len() > 1 && rel[1] == SLASH ==> piece_end(path, a + 1) == a + 1);
        assert(is_plain(rel));
        assert(spans(rel) == body_spans(rel, 0));
        assert forall|k: int| 0 <= k < spans(rel).len() implies #[trigger] components(rel)[k]
            == components(path).skip(n)[k] by {
            let (x, y) = spans(rel)[k];
            assert(tail[k] == (x + a, y + a));
            assert(s[n + k] == (x + a, y + a));
            assert(s[n + k].1 <= z);
            assert(rel.subrange(x, y) == path.subrange(x + a, y + a));
        }
        assert(components(rel) == components(path).skip(n));
    }
}

/// Ascending order of paths.
pub struct ByPath;

impl Order for ByPath {
    type Item = Vec<u8>;

    open spec fn leq(a: Seq<u8>, b: Seq<u8>) -> bool {
        path_leq(a, b)
    }

    proof fn total(a: Seq<u8>, b: Seq<u8>) {
        lemma_path_order(a, b);
    }

    proof fn transitive(a: Seq<u8>, b: Seq<u8>, c: Seq<u8>) {
        lemma_path_transitive(a, b, c);
    }

    fn le(a: &Vec<u8>, b: &Vec<u8>) -> (r: bool) {
        path_le(a.as_slice(), b.as_slice())
    }
}

/// Paths with more components first.
pub struct DeepestFirst;

impl Order for DeepestFirst {
    type Item = Vec<u8>;

    open spec fn leq(a: Seq<u8>, b: Seq<u8>) -> bool {
        components(a).len() >= components(b).len()
    }

    proof fn total(a: Seq<u8>, b: Seq<u8>) {
    }

    proof fn transitive(a: Seq<u8>, b: Seq<u8>, c: Seq<u8>) {
    }

    fn le(a: &Vec<u8>, b: &Vec<u8>) -> (r: bool) {
        component_count(a.as_slice()) >= component_count(b.as_slice())
    }
}

/// What lies below a path lies below every path that this one lies below.
pub proof fn lemma_below_transitive(a: Seq<u8>, b: Seq<u8>, c: Seq<u8>)
    requires
        is_below(a, b),
        is_below(b, c),
    ensures
        is_below(a, c),
{
    let x = components(a);
    let y = components(b);
    let z = components(c);
    assert(x.take(z.len() as int) == y.take(z.len() as int)) by {
        assert(x.take(y.len() as int) == y);
        assert(x.take(y.len() as int).take(z.len() as int) == x.take(z.len() as int));
    }
}

} // verus!
