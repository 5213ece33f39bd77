//! What paths mean, and how they are ordered.

use crate::cleanup::{ByCandidatePath, CandidateView};
use crate::diff::{ByRealPath, ChangeView};
use crate::order::{
    class, lemma_stable_sort_contains, lemma_stable_sorted, stable_sorted, views, Order,
};
use crate::path::{
    body_spans, bytes_leq, component_leq, components, components_leq, is_below, is_plain, joined,
    lemma_joined_components, lemma_parent_components, lemma_piece_end, lemma_relative_components,
    lemma_spans, parent_of, path_leq, piece_end, relative, spans, ByPath, DeepestFirst, DOT, SLASH,
};
use vstd::prelude::*;

verus! {

/// `name` is what a directory can list: not empty, without a separator, and not `.`.
pub open spec fn is_name(name: Seq<u8>) -> bool {
    name.len() > 0 && !name.contains(SLASH) && name != seq![DOT]
}

/// All are names.
pub open spec fn are_names(names: Seq<Seq<u8>>) -> bool {
    forall|i: int| 0 <= i < names.len() ==> is_name(#[trigger] names[i])
}

/// The absolute path that leads through the names, each behind a separator.
pub open spec fn absolute(names: Seq<Seq<u8>>) -> Seq<u8>
    decreases names.len(),
{
    if names.len() == 0 {
        Seq::empty()
    } else {
        absolute(names.drop_last()) + seq![SLASH] + names.last()
    }
}

proof fn lemma_name_is_a_component(name: Seq<u8>)
    requires
        is_name(name),
    ensures
        is_plain(name),
        components(name) == seq![name],
{
    assert forall|i: int| 0 <= i < name.len() implies name[i] != SLASH by {
        assert(name.contains(name[i]));
    }
    if name.len() == 1 {
        assert(name[0] == DOT ==> name =~= seq![DOT]);
    }
    lemma_piece_end(name, 0);
    assert(piece_end(name, 0) == name.len());
    assert(body_spans(name, name.len() as int + 1) == Seq::<(int, int)>::empty());
    assert(spans(name) == seq![(0int, name.len() as int)]);
    assert(name.subrange(0, name.len() as int) == name);
    assert(components(name) == seq![name]);
}

/// A path has the components that it was made of: the root, and the names in their order.
pub proof fn lemma_components_of_names(names: Seq<Seq<u8>>)
    requires
        are_names(names),
    ensures
        components(seq![SLASH]) == seq![seq![SLASH]],
        names.len() > 0 ==> components(absolute(names)) == seq![seq![SLASH]] + names,
        names.len() > 0 ==> absolute(names).len() > 0 && absolute(names).last() != SLASH
            && absolute(names)[0] == SLASH,
    decreases names.len(),
{
    let root = seq![SLASH];
    assert(spans(root) == seq![(0int, 1int)]);
    assert(root.subrange(0, 1) == root);
    assert(components(root) == seq![root]);
    if names.len() > 0 {
        let front = names.drop_last();
        let name = names.last();
        let base = absolute(front);
        assert forall|i: int| 0 <= i < front.len() implies is_name(#[trigger] front[i]) by {
            assert(front[i] == names[i]);
        }
        assert(is_name(names[names.len() - 1]));
        lemma_components_of_names(front);
        lemma_name_is_a_component(name);
        assert(name.contains(name[0]) && name.contains(name.last()));
        if front.len() == 0 {
            assert(absolute(names) == joined(root, name)) by {
                assert(Seq::<u8>::empty() + seq![SLASH] + name =~= root + name);
            }
            lemma_joined_components(root, name);
            assert(names == seq![name]);
        } else {
            assert(absolute(names) == joined(base, name));
            lemma_joined_components(base, name);
            assert(names == front + seq![name]);
            assert(seq![root] + front + seq![name] == seq![root] + (front + seq![name]));
        }
    }
}

/// One path lies at or below another exactly where it has the components of the other first.
pub proof fn lemma_lies_below(path: Seq<u8>, base: Seq<u8>)
    ensures
        is_below(path, base) == (components(base).len() <= components(path).len() && forall|i: int|
            0 <= i < components(base).len() ==> components(path)[i] == #[trigger] components(
                base,
            )[i]),
{
    let x = components(path);
    let y = components(base);
    if y.len() <= x.len() && forall|i: int| 0 <= i < y.len() ==> x[i] == #[trigger] y[i] {
        assert(x.take(y.len() as int) =~= y);
    }
    if is_below(path, base) {
        assert(y == x.take(y.len() as int));
    }
}

/// The paths that names make lie below one another as the names do.
pub proof fn lemma_names_below(names: Seq<Seq<u8>>, more: Seq<Seq<u8>>)
    requires
        are_names(names),
        are_names(more),
        names.len() > 0,
        more.len() > 0,
    ensures
        is_below(absolute(more), absolute(names)) == names.is_prefix_of(more),
{
    lemma_components_of_names(names);
    lemma_components_of_names(more);
    let root = seq![seq![SLASH]];
    let x = root + more;
    let y = root + names;
    if names.is_prefix_of(more) {
        assert(names == more.take(names.len() as int));
        assert(x.take(y.len() as int) =~= y);
    }
    if y.is_prefix_of(x) {
        assert(y == x.take(y.len() as int));
        assert(more.take(names.len() as int) =~= names) by {
            assert forall|i: int| 0 <= i < names.len() implies more[i] == names[i] by {
                assert(x[i + 1] == x.take(y.len() as int)[i + 1]);
            }
        }
    }
}

/// A relative name stands behind its base and a separator; an absolute one stands for itself.
pub proof fn lemma_join(base: Seq<u8>, name: Seq<u8>)
    ensures
        name.len() > 0 && name[0] == SLASH ==> joined(base, name) == name,
        base.len() == 0 ==> joined(base, name) == name,
        name.len() == 0 && base.len() > 0 && base.last() != SLASH ==> joined(base, name) == base
            + seq![SLASH],
        name.len() == 0 && base.len() > 0 && base.last() == SLASH ==> joined(base, name) == base,
        name.len() > 0 && name[0] != SLASH && base.len() > 0 && base.last() != SLASH ==> joined(
            base,
            name,
        ) == base + seq![SLASH] + name,
        name.len() > 0 && name[0] != SLASH && base.len() > 0 && base.last() == SLASH ==> joined(
            base,
            name,
        ) == base + name,
{
}

/// The parent is the start of the path, without the last component; only the root and the empty
/// path have none.
pub proof fn lemma_parent(path: Seq<u8>)
    ensures
        parent_of(path) is None == (components(path).len() == 0 || components(path).last() == seq![
            SLASH,
        ]),
        parent_of(path) matches Some(up) ==> components(up) == components(path).drop_last() && (
        components(path).len() > 1 ==> up == path.take(up.len() as int)),
{
    lemma_parent_components(path);
    lemma_spans(path);
}

/// A path comes before those below it.
pub proof fn lemma_parents_first(a: Seq<u8>, b: Seq<u8>)
    requires
        is_below(b, a),
    ensures
        path_leq(a, b),
        components(a).len() < components(b).len() ==> !path_leq(b, a),
{
    lemma_prefix_first(components(a), components(b));
}

proof fn lemma_prefix_first(x: Seq<Seq<u8>>, y: Seq<Seq<u8>>)
    requires
        x.is_prefix_of(y),
    ensures
        components_leq(x, y),
        x.len() < y.len() ==> !components_leq(y, x),
    decreases x.len(),
{
    if x.len() > 0 {
        assert(x == y.take(x.len() as int));
        assert(x[0] == y[0]);
        assert(x.drop_first() == y.take(x.len() as int).drop_first());
        assert(y.take(x.len() as int).drop_first() == y.drop_first().take(x.len() - 1));
        lemma_prefix_first(x.drop_first(), y.drop_first());
    }
}

/// Paths are ordered by the first component in which they differ.
pub proof fn lemma_first_difference(a: Seq<u8>, b: Seq<u8>, k: int)
    requires
        0 <= k < components(a).len(),
        k < components(b).len(),
        components(a).take(k) == components(b).take(k),
        components(a)[k] != components(b)[k],
    ensures
        path_leq(a, b) == component_leq(components(a)[k], components(b)[k]),
{
    lemma_differ_at(components(a), components(b), k);
}

proof fn lemma_differ_at(x: Seq<Seq<u8>>, y: Seq<Seq<u8>>, k: int)
    requires
        0 <= k < x.len(),
        k < y.len(),
        x.take(k) == y.take(k),
        x[k] != y[k],
    ensures
        components_leq(x, y) == component_leq(x[k], y[k]),
    decreases k,
{
    if k > 0 {
        assert(x[0] == x.take(k)[0] && y[0] == y.take(k)[0]);
        assert(x.drop_first().take(k - 1) == x.take(k).drop_first());
        assert(y.drop_first().take(k - 1) == y.take(k).drop_first());
        lemma_differ_at(x.drop_first(), y.drop_first(), k - 1);
    }
}

/// `c` is a name other than `..`.
pub open spec fn is_proper(c: Seq<u8>) -> bool {
    is_name(c) && c != seq![DOT, DOT]
}

/// Names are ordered byte by byte: at the first byte in which they differ, and else by length. The
/// root comes before all of them.
pub proof fn lemma_order_of_names(x: Seq<u8>, y: Seq<u8>, k: int)
    requires
        is_proper(x),
        is_proper(y),
        0 <= k <= x.len(),
        k <= y.len(),
        x.take(k) == y.take(k),
    ensures
        k < x.len() && k < y.len() && x[k] != y[k] ==> component_leq(x, y) == (x[k] < y[k]),
        k == x.len() ==> component_leq(x, y),
        k == y.len() && k < x.len() ==> !component_leq(x, y),
        component_leq(seq![SLASH], x),
        !component_leq(x, seq![SLASH]),
{
    assert(x != seq![SLASH]) by {
        if x == seq![SLASH] {
            assert(x.contains(x[0]));
        }
    }
    assert(y != seq![SLASH]) by {
        if y == seq![SLASH] {
            assert(y.contains(y[0]));
        }
    }
    lemma_bytes_at(x, y, k);
}

/// The root comes first, then `.`, then `..`, and then every other name.
pub proof fn lemma_special_components(x: Seq<u8>)
    requires
        is_proper(x),
    ensures
        ({
            let root = seq![SLASH];
            let here = seq![DOT];
            let up = seq![DOT, DOT];
            &&& component_leq(root, here) && !component_leq(here, root)
            &&& component_leq(here, up) && !component_leq(up, here)
            &&& component_leq(up, x) && !component_leq(x, up)
        }),
{
    assert(x != seq![SLASH]) by {
        if x == seq![SLASH] {
            assert(x.contains(x[0]));
        }
    }
    assert(seq![SLASH][0] == SLASH && seq![DOT][0] == DOT);
    assert(seq![DOT].len() == 1 && seq![DOT, DOT].len() == 2);
}

proof fn lemma_bytes_at(x: Seq<u8>, y: Seq<u8>, k: int)
    requires
        0 <= k <= x.len(),
        k <= y.len(),
        x.take(k) == y.take(k),
    ensures
        k < x.len() && k < y.len() && x[k] != y[k] ==> bytes_leq(x, y) == (x[k] < y[k]),
        k == x.len() ==> bytes_leq(x, y),
        k == y.len() && k < x.len() ==> !bytes_leq(x, y),
    decreases k,
{
    if k > 0 {
        assert(x[0] == x.take(k)[0] && y[0] == y.take(k)[0]);
        assert(x.drop_first().take(k - 1) == x.take(k).drop_first());
        assert(y.drop_first().take(k - 1) == y.take(k).drop_first());
        lemma_bytes_at(x.drop_first(), y.drop_first(), k - 1);
    }
}

/// Changes and sandboxes are ordered by their paths, mount points that are to go by their depth.
pub proof fn lemma_orders(
    a: Seq<u8>,
    b: Seq<u8>,
    c: ChangeView,
    d: ChangeView,
    x: CandidateView,
    y: CandidateView,
)
    ensures
        ByPath::leq(a, b) == path_leq(a, b),
        ByRealPath::leq(c, d) == path_leq(c.real_path, d.real_path),
        ByCandidatePath::leq(x, y) == path_leq(x.path, y.path),
        DeepestFirst::leq(a, b) == (components(a).len() >= components(b).len()),
{
}

/// The views of items are those of the items, one for one.
pub proof fn lemma_views<T: View>(s: Seq<T>)
    ensures
        views(s).len() == s.len(),
        forall|i: int| 0 <= i < s.len() ==> #[trigger] views(s)[i] == s[i]@,
{
}

/// What remains of a path behind its base leads there again.
pub proof fn lemma_remainder(path: Seq<u8>, base: Seq<u8>)
    ensures
        relative(path, base) is Some == is_below(path, base),
        is_below(path, base) && components(base).len() > 0 ==> components(
            relative(path, base)->Some_0,
        ) == components(path).skip(components(base).len() as int) && is_plain(
            relative(path, base)->Some_0,
        ),
{
    if is_below(path, base) && components(base).len() > 0 {
        lemma_relative_components(path, base);
    }
}

/// To sort is to put into order: nothing is left out or made up, and of items that rank alike each
/// keeps its place among the others.
pub proof fn lemma_sorting<O: Order>(s: Seq<<O::Item as View>::V>, x: <O::Item as View>::V)
    ensures
        stable_sorted::<O>(s).len() == s.len(),
        stable_sorted::<O>(s).contains(x) == s.contains(x),
        forall|i: int, j: int|
            0 <= i <= j < s.len() ==> O::leq(
                #[trigger] stable_sorted::<O>(s)[i],
                #[trigger] stable_sorted::<O>(s)[j],
            ),
        stable_sorted::<O>(s).filter(|y: <O::Item as View>::V| O::leq(x, y) && O::leq(y, x))
            == s.filter(|y: <O::Item as View>::V| O::leq(x, y) && O::leq(y, x)),
{
    lemma_stable_sorted::<O>(s);
    lemma_stable_sort_contains::<O>(s, stable_sorted::<O>(s), x);
    assert(class::<O>(stable_sorted::<O>(s), x) == class::<O>(s, x));
}

} // verus!
