//! Sets of paths, kept sorted. Paths that agree in their components are one and the same.

use crate::order::{
    class, lemma_class_add, lemma_class_contains, lemma_class_empty, lemma_class_same,
    lemma_stable_sort_contains, lemma_stable_sorted, sorted, stable_sort, stable_sorted, views, Order,
};
use crate::path::{
    components, lemma_path_order, lemma_path_transitive, path_le, path_leq, ByPath,
};
use vstd::prelude::*;
use vstd::slice::slice_to_vec;

verus! {

/// `out` holds the paths of `all` in strictly ascending order, and of those that agree in their
/// components the one that stands first.
pub open spec fn is_sorted_set(all: Seq<Seq<u8>>, out: Seq<Seq<u8>>) -> bool {
    &&& forall|i: int, j: int|
        0 <= i < j < out.len() ==> path_leq(#[trigger] out[i], #[trigger] out[j]) && components(
            out[i],
        ) != components(out[j])
    &&& forall|i: int|
        0 <= i < out.len() ==> class::<ByPath>(all, #[trigger] out[i]).len() > 0 && class::<ByPath>(
            all,
            out[i],
        )[0] == out[i]
    &&& forall|k: int| 0 <= k < all.len() ==> stands_for(out, #[trigger] all[k])
}

/// Some path in `out` agrees with `path` in its components.
pub open spec fn stands_for(out: Seq<Seq<u8>>, path: Seq<u8>) -> bool {
    exists|i: int| 0 <= i < out.len() && components(#[trigger] out[i]) == components(path)
}

/// The paths of `s`, of neighbours that agree in their components only the first.
pub open spec fn first_of_each(s: Seq<Seq<u8>>) -> Seq<Seq<u8>>
    decreases s.len(),
{
    if s.len() == 0 {
        Seq::empty()
    } else {
        let kept = first_of_each(s.drop_last());
        if kept.len() > 0 && components(kept.last()) == components(s.last()) {
            kept
        } else {
            kept.push(s.last())
        }
    }
}

/// Drops every path but the first among neighbours that agree in their components.
fn dedup(paths: &Vec<Vec<u8>>) -> (out: Vec<Vec<u8>>)
    ensures
        views(out@) == first_of_each(views(paths@)),
{
    let ghost all = views(paths@);
    let mut out: Vec<Vec<u8>> = Vec::new();
    let mut i: usize = 0;
    assert(views(out@) == first_of_each(all.take(0)));
    while i < paths.len()
        invariant
            i <= paths@.len(),
            all == views(paths@),
            views(out@) == first_of_each(all.take(i as int)),
        decreases paths@.len() - i,
    {
        let ghost kept = views(out@);
        let path = &paths[i];
        proof {
            assert(all.take(i + 1).drop_last() == all.take(i as int));
            assert(all.take(i + 1).last() == path@);
        }
        let known = if out.len() == 0 {
            false
        } else {
            let last = &out[out.len() - 1];
            proof {
                assert(kept.last() == last@);
                lemma_path_order(last@, path@);
            }
            path_le(last.as_slice(), path.as_slice()) && path_le(path.as_slice(), last.as_slice())
        };
        if !known {
            out.push(slice_to_vec(path.as_slice()));
            assert(views(out@) == kept.push(path@));
        }
        i = i + 1;
    }
    assert(all.take(i as int) == all);
    out
}

/// Among sorted paths, the first of each group of neighbours make up the sorted set.
proof fn lemma_first_of_each(s: Seq<Seq<u8>>)
    requires
        sorted::<ByPath>(s),
    ensures
        is_sorted_set(s, first_of_each(s)),
        s.len() > 0 ==> first_of_each(s).len() > 0 && components(first_of_each(s).last())
            == components(s.last()),
    decreases s.len(),
{
    if s.len() > 0 {
        let front = s.drop_last();
        let kept = first_of_each(front);
        let out = first_of_each(s);
        let x = s.last();
        assert(sorted::<ByPath>(front)) by {
            assert forall|a: int, b: int| 0 <= a <= b < front.len() implies ByPath::leq(
                #[trigger] front[a],
                #[trigger] front[b],
            ) by {
                assert(front[a] == s[a] && front[b] == s[b]);
                assert(ByPath::leq(s[a], s[b]));
            }
        }
        lemma_first_of_each(front);
        assert(s == front + seq![x]);
        let new = !(kept.len() > 0 && components(kept.last()) == components(x));
        assert forall|a: int| 0 <= a < kept.len() implies path_leq(#[trigger] kept[a], x) by {
            lemma_class_contains_at(front, kept[a]);
            let k = choose|k: int| 0 <= k < front.len() && front[k] == kept[a];
            assert(path_leq(s[k], s[s.len() - 1]));
        }
        if new {
            assert forall|k: int| 0 <= k < front.len() implies !(path_leq(x, #[trigger] s[k])
                && path_leq(s[k], x)) by {
                let last = front.last();
                assert(path_leq(s[k], s[front.len() - 1]));
                if path_leq(x, s[k]) {
                    lemma_path_transitive(x, s[k], last);
                    assert(path_leq(s[front.len() - 1], s[s.len() - 1]));
                    lemma_path_order(x, last);
                }
            }
            lemma_class_first(s, s.len() - 1);
        }
        assert forall|a: int, b: int| 0 <= a < b < out.len() implies path_leq(
            #[trigger] out[a],
            #[trigger] out[b],
        ) && components(out[a]) != components(out[b]) by {
            if b == kept.len() {
                let last = kept.last();
                if components(kept[a]) == components(x) {
                    lemma_path_order(kept[a], x);
                    lemma_path_order(last, x);
                    if a < kept.len() - 1 {
                        assert(path_leq(kept[a], kept[kept.len() - 1]));
                        lemma_path_transitive(x, kept[a], last);
                    }
                }
            } else {
                assert(out[a] == kept[a] && out[b] == kept[b]);
            }
        }
        assert forall|a: int| 0 <= a < out.len() implies class::<ByPath>(
            s,
            #[trigger] out[a],
        ).len() > 0 && class::<ByPath>(s, out[a])[0] == out[a] by {
            if a < kept.len() {
                assert(out[a] == kept[a]);
                lemma_class_add::<ByPath>(front, seq![x], kept[a]);
            }
        }
        assert forall|k: int| 0 <= k < s.len() implies stands_for(out, #[trigger] s[k]) by {
            if k < front.len() {
                assert(stands_for(kept, front[k]));
                let a = choose|a: int|
                    0 <= a < kept.len() && components(#[trigger] kept[a]) == components(front[k]);
                assert(out[a] == kept[a]);
            } else {
                assert(components(out[out.len() - 1]) == components(s[k]));
            }
        }
    }
}

/// A path that starts its class is among the paths.
proof fn lemma_class_contains_at(all: Seq<Seq<u8>>, x: Seq<u8>)
    requires
        class::<ByPath>(all, x).len() > 0,
        class::<ByPath>(all, x)[0] == x,
    ensures
        all.contains(x),
{
    lemma_path_order(x, x);
    lemma_class_contains::<ByPath>(all, x);
}

/// The first of a sequence to rank as high as it does starts its class.
proof fn lemma_class_first(all: Seq<Seq<u8>>, i: int)
    requires
        0 <= i < all.len(),
        forall|k: int|
            0 <= k < i ==> !(path_leq(all[i], #[trigger] all[k]) && path_leq(all[k], all[i])),
    ensures
        class::<ByPath>(all, all[i]).len() > 0,
        class::<ByPath>(all, all[i])[0] == all[i],
{
    let x = all[i];
    let front = all.take(i);
    let one = seq![x];
    let rest = all.skip(i + 1);
    lemma_path_order(x, x);
    assert(all == front + (one + rest));
    lemma_class_add::<ByPath>(front, one + rest, x);
    lemma_class_add::<ByPath>(one, rest, x);
    lemma_class_empty::<ByPath>(front, x);
    reveal_with_fuel(Seq::filter, 2);
    assert(one.drop_last() == Seq::<Seq<u8>>::empty());
    assert(class::<ByPath>(one, x) == one);
}

/// What is in one sorted set of paths is in every other.
proof fn lemma_sorted_set_contains(
    all: Seq<Seq<u8>>,
    a: Seq<Seq<u8>>,
    b: Seq<Seq<u8>>,
    x: Seq<u8>,
)
    requires
        is_sorted_set(all, a),
        is_sorted_set(all, b),
        a.contains(x),
    ensures
        b.contains(x),
{
    let i = choose|i: int| 0 <= i < a.len() && a[i] == x;
    lemma_path_order(x, x);
    assert(class::<ByPath>(all, a[i])[0] == x);
    lemma_class_contains::<ByPath>(all, x);
    let k = choose|k: int| 0 <= k < all.len() && all[k] == x;
    assert(stands_for(b, all[k]));
    let j = choose|j: int| 0 <= j < b.len() && components(#[trigger] b[j]) == components(x);
    lemma_path_order(b[j], x);
    lemma_class_same::<ByPath>(all, b[j], x);
    assert(b[j] == x);
}

proof fn lemma_same_strict(a: Seq<Seq<u8>>, b: Seq<Seq<u8>>)
    requires
        forall|i: int, j: int|
            0 <= i < j < a.len() ==> path_leq(#[trigger] a[i], #[trigger] a[j]) && components(a[i])
                != components(a[j]),
        forall|i: int, j: int|
            0 <= i < j < b.len() ==> path_leq(#[trigger] b[i], #[trigger] b[j]) && components(b[i])
                != components(b[j]),
        forall|x: Seq<u8>| #[trigger] a.contains(x) == b.contains(x),
    ensures
        a == b,
    decreases a.len(),
{
    if a.len() == 0 {
        if b.len() > 0 {
            assert(b.contains(b[0]));
            assert(a.contains(b[0]));
        }
        assert(a == b);
    } else {
        let x = a.last();
        assert(a.contains(x));
        assert(b.contains(x));
        let y = b.last();
        assert(b.contains(y));
        assert(a.contains(y));
        let i = choose|i: int| 0 <= i < a.len() && a[i] == y;
        let j = choose|j: int| 0 <= j < b.len() && b[j] == x;
        lemma_path_order(x, y);
        if i < a.len() - 1 {
            assert(path_leq(a[i], a[a.len() - 1]) && components(a[i]) != components(
                a[a.len() - 1],
            ));
            if j < b.len() - 1 {
                assert(path_leq(b[j], b[b.len() - 1]));
            }
        }
        assert(x == y);
        let ra = a.drop_last();
        let rb = b.drop_last();
        assert forall|z: Seq<u8>| #[trigger] ra.contains(z) == rb.contains(z) by {
            if ra.contains(z) {
                let k = choose|k: int| 0 <= k < ra.len() && ra[k] == z;
                assert(a[k] == z && components(a[k]) != components(a[a.len() - 1]));
                assert(a.contains(z));
                let l = choose|l: int| 0 <= l < b.len() && b[l] == z;
                assert(rb[l] == z);
            }
            if rb.contains(z) {
                let k = choose|k: int| 0 <= k < rb.len() && rb[k] == z;
                assert(b[k] == z && components(b[k]) != components(b[b.len() - 1]));
                assert(b.contains(z));
                assert(a.contains(z));
                let l = choose|l: int| 0 <= l < a.len() && a[l] == z;
                assert(ra[l] == z);
            }
        }
        lemma_same_strict(ra, rb);
        assert(a == ra.push(x));
        assert(b == rb.push(y));
    }
}

/// There is only one sorted set of given paths.
pub proof fn lemma_sorted_set_unique(all: Seq<Seq<u8>>, a: Seq<Seq<u8>>, b: Seq<Seq<u8>>)
    requires
        is_sorted_set(all, a),
        is_sorted_set(all, b),
    ensures
        a == b,
{
    assert forall|x: Seq<u8>| #[trigger] a.contains(x) == b.contains(x) by {
        if a.contains(x) {
            lemma_sorted_set_contains(all, a, b, x);
        }
        if b.contains(x) {
            lemma_sorted_set_contains(all, b, a, x);
        }
    }
    lemma_same_strict(a, b);
}

/// The paths of `all`, sorted and without repetition.
pub open spec fn sorted_set(all: Seq<Seq<u8>>) -> Seq<Seq<u8>> {
    first_of_each(stable_sorted::<ByPath>(all))
}

/// Every sequence of paths has its sorted set.
pub proof fn lemma_sorted_set(all: Seq<Seq<u8>>)
    ensures
        is_sorted_set(all, sorted_set(all)),
{
    let s = stable_sorted::<ByPath>(all);
    let r = sorted_set(all);
    lemma_stable_sorted::<ByPath>(all);
    lemma_first_of_each(s);
    assert forall|k: int| 0 <= k < r.len() implies class::<ByPath>(all, #[trigger] r[k]).len() > 0
        && class::<ByPath>(all, r[k])[0] == r[k] by {
        assert(class::<ByPath>(s, r[k]) == class::<ByPath>(all, r[k]));
    }
    assert forall|k: int| 0 <= k < all.len() implies stands_for(r, #[trigger] all[k]) by {
        lemma_stable_sort_contains::<ByPath>(all, s, all[k]);
        assert(all.contains(all[k]));
        let l = choose|l: int| 0 <= l < s.len() && s[l] == all[k];
        assert(stands_for(r, s[l]));
    }
}

/// What is in the sorted set is among the paths.
pub proof fn lemma_sorted_set_members(all: Seq<Seq<u8>>, x: Seq<u8>)
    requires
        sorted_set(all).contains(x),
    ensures
        all.contains(x),
{
    let r = sorted_set(all);
    lemma_sorted_set(all);
    let k = choose|k: int| 0 <= k < r.len() && r[k] == x;
    assert(class::<ByPath>(all, r[k])[0] == x);
    lemma_class_contains_at(all, x);
}

/// Sorts the paths and drops repetitions.
pub fn to_sorted_set(paths: Vec<Vec<u8>>) -> (out: Vec<Vec<u8>>)
    ensures
        views(out@) == sorted_set(views(paths@)),
{
    let paths = stable_sort::<ByPath>(paths);
    dedup(&paths)
}

/// Tells whether some path in `set`, which is sorted, agrees with `path` in its components.
pub fn find(set: &Vec<Vec<u8>>, path: &[u8]) -> (found: bool)
    requires
        sorted::<ByPath>(views(set@)),
    ensures
        found == stands_for(views(set@), path@),
{
    let ghost all = views(set@);
    let mut low: usize = 0;
    let mut high: usize = set.len();
    while low < high
        invariant
            low <= high <= set@.len(),
            all == views(set@),
            sorted::<ByPath>(all),
            forall|k: int| 0 <= k < low ==> !path_leq(path@, #[trigger] all[k]),
            forall|k: int| high <= k < all.len() ==> path_leq(path@, #[trigger] all[k]),
        decreases high - low,
    {
        let mid = low + (high - low) / 2;
        assert(all[mid as int] == set@[mid as int]@);
        if path_le(path, set[mid].as_slice()) {
            proof {
                assert forall|k: int| mid <= k < all.len() implies path_leq(
                    path@,
                    #[trigger] all[k],
                ) by {
                    assert(ByPath::leq(all[mid as int], all[k]));
                    lemma_path_transitive(path@, all[mid as int], all[k]);
                }
            }
            high = mid;
        } else {
            proof {
                assert forall|k: int| 0 <= k <= mid implies !path_leq(path@, #[trigger] all[k]) by {
                    assert(ByPath::leq(all[k], all[mid as int]));
                    if path_leq(path@, all[k]) {
                        lemma_path_transitive(path@, all[k], all[mid as int]);
                    }
                }
            }
            low = mid + 1;
        }
    }
    proof {
        if stands_for(all, path@) {
            let k = choose|k: int|
                0 <= k < all.len() && components(#[trigger] all[k]) == components(path@);
            lemma_path_order(path@, all[k]);
            assert(low <= k);
            assert(ByPath::leq(all[low as int], all[k]));
            lemma_path_transitive(all[low as int], all[k], path@);
        }
    }
    if low == set.len() {
        return false;
    }
    assert(all[low as int] == set@[low as int]@);
    proof {
        lemma_path_order(path@, all[low as int]);
    }
    path_le(set[low].as_slice(), path)
}

} // verus!
