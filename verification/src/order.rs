//! Stable sorting by a total preorder.

use vstd::prelude::*;

verus! {

/// The views of the items of `s`.
pub open spec fn views<T: View>(s: Seq<T>) -> Seq<T::V> {
    Seq::new(s.len(), |i: int| s[i]@)
}

/// A total preorder on the views of a type, with an executable comparison.
pub trait Order {
    type Item: View;

    spec fn leq(a: <Self::Item as View>::V, b: <Self::Item as View>::V) -> bool;

    proof fn total(a: <Self::Item as View>::V, b: <Self::Item as View>::V)
        ensures
            Self::leq(a, b) || Self::leq(b, a),
    ;

    proof fn transitive(
        a: <Self::Item as View>::V,
        b: <Self::Item as View>::V,
        c: <Self::Item as View>::V,
    )
        requires
            Self::leq(a, b),
            Self::leq(b, c),
        ensures
            Self::leq(a, c),
    ;

    fn le(a: &Self::Item, b: &Self::Item) -> (r: bool)
        ensures
            r == Self::leq(a@, b@),
    ;
}

/// No item comes after one that it ought to come before.
pub open spec fn sorted<O: Order>(s: Seq<<O::Item as View>::V>) -> bool {
    forall|i: int, j: int| 0 <= i <= j < s.len() ==> O::leq(#[trigger] s[i], #[trigger] s[j])
}

/// The items of `s` that rank as high as `x`, in the order in which they stand in `s`.
pub open spec fn class<O: Order>(
    s: Seq<<O::Item as View>::V>,
    x: <O::Item as View>::V,
) -> Seq<<O::Item as View>::V> {
    s.filter(|y: <O::Item as View>::V| O::leq(x, y) && O::leq(y, x))
}

/// `out` holds the items of `input` in ascending order, and items of one rank as they stood.
pub open spec fn is_stable_sort<O: Order>(
    input: Seq<<O::Item as View>::V>,
    out: Seq<<O::Item as View>::V>,
) -> bool {
    &&& out.len() == input.len()
    &&& sorted::<O>(out)
    &&& forall|x: <O::Item as View>::V| #[trigger] class::<O>(out, x) == class::<O>(input, x)
}

/// The class of a rank in two sequences, one behind the other.
pub proof fn lemma_class_add<O: Order>(
    a: Seq<<O::Item as View>::V>,
    b: Seq<<O::Item as View>::V>,
    x: <O::Item as View>::V,
)
    ensures
        class::<O>(a + b, x) == class::<O>(a, x) + class::<O>(b, x),
{
    Seq::filter_distributes_over_add(
        a,
        b,
        |y: <O::Item as View>::V| O::leq(x, y) && O::leq(y, x),
    );
}

/// Where nothing in `s` ranks as high as `x`, its class is empty.
pub proof fn lemma_class_empty<O: Order>(s: Seq<<O::Item as View>::V>, x: <O::Item as View>::V)
    requires
        forall|i: int| 0 <= i < s.len() ==> !(O::leq(x, #[trigger] s[i]) && O::leq(s[i], x)),
    ensures
        class::<O>(s, x) == Seq::<<O::Item as View>::V>::empty(),
{
    s.lemma_all_neg_filter_empty(|y: <O::Item as View>::V| O::leq(x, y) && O::leq(y, x));
}

/// A stable sort holds exactly the items that it was given.
pub proof fn lemma_stable_sort_contains<O: Order>(
    input: Seq<<O::Item as View>::V>,
    out: Seq<<O::Item as View>::V>,
    x: <O::Item as View>::V,
)
    requires
        is_stable_sort::<O>(input, out),
    ensures
        out.contains(x) == input.contains(x),
{
    O::total(x, x);
    assert(class::<O>(out, x) == class::<O>(input, x));
    lemma_class_contains::<O>(input, x);
    lemma_class_contains::<O>(out, x);
}

/// Items of one rank have one class.
pub proof fn lemma_class_same<O: Order>(
    s: Seq<<O::Item as View>::V>,
    x: <O::Item as View>::V,
    y: <O::Item as View>::V,
)
    requires
        O::leq(x, y),
        O::leq(y, x),
    ensures
        class::<O>(s, x) == class::<O>(s, y),
{
    let as_x = |z: <O::Item as View>::V| O::leq(x, z) && O::leq(z, x);
    let as_y = |z: <O::Item as View>::V| O::leq(y, z) && O::leq(z, y);
    assert forall|z: <O::Item as View>::V| #[trigger] as_x(z) == as_y(z) by {
        if O::leq(x, z) && O::leq(z, x) {
            O::transitive(y, x, z);
            O::transitive(z, x, y);
        }
        if O::leq(y, z) && O::leq(z, y) {
            O::transitive(x, y, z);
            O::transitive(z, y, x);
        }
    }
    assert(as_x =~= as_y);
}

/// The class of an item holds it exactly where the sequence does.
pub proof fn lemma_class_contains<O: Order>(s: Seq<<O::Item as View>::V>, x: <O::Item as View>::V)
    requires
        O::leq(x, x),
    ensures
        class::<O>(s, x).contains(x) == s.contains(x),
{
    let pred = |y: <O::Item as View>::V| O::leq(x, y) && O::leq(y, x);
    if s.contains(x) {
        let i = choose|i: int| 0 <= i < s.len() && s[i] == x;
        s.lemma_filter_contains(pred, i);
    }
    if class::<O>(s, x).contains(x) {
        s.lemma_filter_contains_rev(pred, x);
    }
}

/// Two stable sorts of one input are the same sequence.
pub proof fn lemma_stable_sort_unique<O: Order>(
    input: Seq<<O::Item as View>::V>,
    a: Seq<<O::Item as View>::V>,
    b: Seq<<O::Item as View>::V>,
)
    requires
        is_stable_sort::<O>(input, a),
        is_stable_sort::<O>(input, b),
    ensures
        a == b,
{
    assert forall|x: <O::Item as View>::V| class::<O>(a, x) == class::<O>(b, x) by {
        assert(class::<O>(a, x) == class::<O>(input, x));
        assert(class::<O>(b, x) == class::<O>(input, x));
    }
    lemma_same_classes::<O>(a, b);
}

proof fn lemma_same_classes<O: Order>(
    a: Seq<<O::Item as View>::V>,
    b: Seq<<O::Item as View>::V>,
)
    requires
        sorted::<O>(a),
        sorted::<O>(b),
        a.len() == b.len(),
        forall|x: <O::Item as View>::V| #[trigger] class::<O>(a, x) == class::<O>(b, x),
    ensures
        a == b,
    decreases a.len(),
{
    if a.len() > 0 {
        let x = a[0];
        let y = b[0];
        let rest_a = a.drop_first();
        let rest_b = b.drop_first();
        assert(a == seq![x] + rest_a);
        assert(b == seq![y] + rest_b);
        O::total(x, x);
        O::total(y, y);
        // Each first item occurs in the other sequence, so the two rank alike.
        assert(a.contains(x));
        assert(b.contains(y));
        lemma_class_contains::<O>(a, x);
        lemma_class_contains::<O>(b, x);
        lemma_class_contains::<O>(a, y);
        lemma_class_contains::<O>(b, y);
        assert(class::<O>(a, x) == class::<O>(b, x));
        assert(class::<O>(a, y) == class::<O>(b, y));
        assert(O::leq(x, y) && O::leq(y, x));
        lemma_class_add::<O>(seq![x], rest_a, x);
        lemma_class_add::<O>(seq![y], rest_b, x);
        reveal_with_fuel(Seq::filter, 2);
        assert(seq![x].drop_last() == Seq::<<O::Item as View>::V>::empty());
        assert(seq![y].drop_last() == Seq::<<O::Item as View>::V>::empty());
        assert(class::<O>(seq![x], x) == seq![x]);
        assert(class::<O>(seq![y], x) == seq![y]);
        assert(class::<O>(a, x)[0] == x);
        assert(class::<O>(b, x)[0] == y);
        assert forall|z: <O::Item as View>::V| class::<O>(rest_a, z) == class::<O>(rest_b, z) by {
            lemma_class_add::<O>(seq![x], rest_a, z);
            lemma_class_add::<O>(seq![x], rest_b, z);
            assert(class::<O>(a, z) == class::<O>(b, z));
            let head = class::<O>(seq![x], z);
            assert(class::<O>(rest_a, z) == class::<O>(a, z).skip(head.len() as int));
            assert(class::<O>(rest_b, z) == class::<O>(b, z).skip(head.len() as int));
        }
        lemma_same_classes::<O>(rest_a, rest_b);
    }
}

/// No two items of `s` rank alike.
pub open spec fn distinct<O: Order>(s: Seq<<O::Item as View>::V>) -> bool {
    forall|i: int, j: int|
        0 <= i < j < s.len() ==> !(O::leq(#[trigger] s[i], #[trigger] s[j]) && O::leq(s[j], s[i]))
}

proof fn lemma_distinct_class<O: Order>(s: Seq<<O::Item as View>::V>, x: <O::Item as View>::V)
    requires
        distinct::<O>(s),
    ensures
        class::<O>(s, x).len() <= 1,
    decreases s.len(),
{
    if s.len() == 0 {
        lemma_class_empty::<O>(s, x);
    } else {
        let front = s.drop_last();
        let y = s.last();
        assert(s == front + seq![y]);
        lemma_class_add::<O>(front, seq![y], x);
        assert forall|i: int, j: int| 0 <= i < j < front.len() implies !(O::leq(
            #[trigger] front[i],
            #[trigger] front[j],
        ) && O::leq(front[j], front[i])) by {
            assert(front[i] == s[i] && front[j] == s[j]);
        }
        lemma_distinct_class::<O>(front, x);
        if O::leq(x, y) && O::leq(y, x) {
            assert forall|i: int| 0 <= i < front.len() implies !(O::leq(x, #[trigger] front[i])
                && O::leq(front[i], x)) by {
                assert(front[i] == s[i] && y == s[s.len() - 1]);
                if O::leq(x, front[i]) && O::leq(front[i], x) {
                    O::transitive(y, x, front[i]);
                    O::transitive(front[i], x, y);
                }
            }
            lemma_class_empty::<O>(front, x);
            reveal_with_fuel(Seq::filter, 2);
            assert(seq![y].drop_last() == Seq::<<O::Item as View>::V>::empty());
        } else {
            assert forall|i: int| 0 <= i < seq![y].len() implies !(O::leq(x, #[trigger] seq![y][i])
                && O::leq(seq![y][i], x)) by {
            }
            lemma_class_empty::<O>(seq![y], x);
        }
    }
}

/// Sorting items of which no two rank alike gives such items again.
pub proof fn lemma_stable_sort_distinct<O: Order>(
    input: Seq<<O::Item as View>::V>,
    out: Seq<<O::Item as View>::V>,
)
    requires
        is_stable_sort::<O>(input, out),
        distinct::<O>(input),
    ensures
        distinct::<O>(out),
{
    assert forall|i: int, j: int| 0 <= i < j < out.len() implies !(O::leq(
        #[trigger] out[i],
        #[trigger] out[j],
    ) && O::leq(out[j], out[i])) by {
        let x = out[i];
        let y = out[j];
        if O::leq(x, y) && O::leq(y, x) {
            let a = out.take(j);
            let b = out.skip(j);
            O::total(x, x);
            O::total(y, y);
            assert(out == a + b);
            lemma_class_add::<O>(a, b, x);
            lemma_class_same::<O>(b, x, y);
            assert(a[i] == x && b[0] == y);
            assert(a.contains(x) && b.contains(y));
            lemma_class_contains::<O>(a, x);
            lemma_class_contains::<O>(b, y);
            assert(class::<O>(out, x) == class::<O>(input, x));
            lemma_distinct_class::<O>(input, x);
        }
    }
}

/// The stable sort of `input`.
pub open spec fn stable_sorted<O: Order>(input: Seq<<O::Item as View>::V>) -> Seq<
    <O::Item as View>::V,
> {
    choose|out: Seq<<O::Item as View>::V>| is_stable_sort::<O>(input, out)
}

/// Every sequence has a stable sort.
pub proof fn lemma_stable_sorted<O: Order>(input: Seq<<O::Item as View>::V>)
    ensures
        is_stable_sort::<O>(input, stable_sorted::<O>(input)),
    decreases input.len(),
{
    if input.len() == 0 {
        assert(is_stable_sort::<O>(input, input));
    } else {
        let rest = input.drop_last();
        let x = input.last();
        let done = stable_sorted::<O>(rest);
        lemma_stable_sorted::<O>(rest);
        let n = lemma_insertion_point::<O>(done, x);
        let low = done.take(n);
        let high = done.skip(n);
        let out = low + (seq![x] + high);
        assert(done == low + high);
        assert(input == rest + seq![x]);
        assert forall|i: int, j: int| 0 <= i <= j < out.len() implies O::leq(
            #[trigger] out[i],
            #[trigger] out[j],
        ) by {
            O::total(x, x);
            let a = if i < n { i } else { i - 1 };
            let b = if j < n { j } else { j - 1 };
            if i != n {
                assert(out[i] == done[a]);
            }
            if j != n {
                assert(out[j] == done[b]);
            }
            if j == n && i < n {
                assert(O::leq(done[i], x));
            }
            if i == n && j > n {
                O::total(x, done[b]);
            }
        }
        assert forall|y: <O::Item as View>::V| #[trigger] class::<O>(out, y) == class::<O>(
            input,
            y,
        ) by {
            lemma_class_add::<O>(rest, seq![x], y);
            lemma_class_add::<O>(low, high, y);
            lemma_class_add::<O>(low, seq![x] + high, y);
            lemma_class_add::<O>(seq![x], high, y);
            assert(class::<O>(done, y) == class::<O>(rest, y));
            if O::leq(y, x) && O::leq(x, y) {
                assert forall|i: int| 0 <= i < high.len() implies !(O::leq(y, #[trigger] high[i])
                    && O::leq(high[i], y)) by {
                    assert(high[i] == done[n + i]);
                    if O::leq(high[i], y) {
                        O::transitive(high[i], y, x);
                    }
                }
                lemma_class_empty::<O>(high, y);
            } else {
                lemma_class_empty::<O>(seq![x], y);
            }
            assert(class::<O>(out, y) =~= class::<O>(input, y));
        }
        assert(is_stable_sort::<O>(input, out));
    }
}

/// The place behind everything in a sorted sequence that `x` may not come before.
proof fn lemma_insertion_point<O: Order>(
    s: Seq<<O::Item as View>::V>,
    x: <O::Item as View>::V,
) -> (n: int)
    requires
        sorted::<O>(s),
    ensures
        0 <= n <= s.len(),
        forall|i: int| 0 <= i < n ==> O::leq(#[trigger] s[i], x),
        forall|i: int| n <= i < s.len() ==> !O::leq(#[trigger] s[i], x),
    decreases s.len(),
{
    if s.len() == 0 {
        0
    } else if O::leq(s.last(), x) {
        assert forall|i: int| 0 <= i < s.len() implies O::leq(#[trigger] s[i], x) by {
            O::transitive(s[i], s.last(), x);
        }
        s.len() as int
    } else {
        let rest = s.drop_last();
        let n = lemma_insertion_point::<O>(rest, x);
        assert forall|i: int| 0 <= i < n implies O::leq(#[trigger] s[i], x) by {
            assert(rest[i] == s[i]);
        }
        assert forall|i: int| n <= i < s.len() implies !O::leq(#[trigger] s[i], x) by {
            if i < rest.len() {
                assert(rest[i] == s[i]);
            }
        }
        n
    }
}

/// Sorts `items` in ascending order and keeps items of one rank as they stood.
pub fn stable_sort<O: Order>(items: Vec<O::Item>) -> (out: Vec<O::Item>)
    ensures
        is_stable_sort::<O>(views(items@), views(out@)),
        views(out@) == stable_sorted::<O>(views(items@)),
    decreases items@.len(),
{
    let n = items.len();
    if n < 2 {
        proof {
            assert forall|i: int, j: int| 0 <= i <= j < n implies O::leq(
                #[trigger] views(items@)[i],
                #[trigger] views(items@)[j],
            ) by {
                O::total(views(items@)[i], views(items@)[i]);
            }
        }
        proof {
            lemma_stable_sorted::<O>(views(items@));
            lemma_stable_sort_unique::<O>(
                views(items@),
                views(items@),
                stable_sorted::<O>(views(items@)),
            );
        }
        return items;
    }
    let mut left = items;
    let ghost all = views(left@);
    let right = left.split_off(n / 2);
    let ghost l = views(left@);
    let ghost r = views(right@);
    assert(all == l + r);
    let left = stable_sort::<O>(left);
    let right = stable_sort::<O>(right);
    let out = merge::<O>(left, right);
    proof {
        let sl = views(left@);
        let sr = views(right@);
        assert forall|x: <O::Item as View>::V| #[trigger]
            class::<O>(views(out@), x) == class::<O>(all, x) by {
            lemma_class_add::<O>(l, r, x);
            lemma_class_add::<O>(sl, sr, x);
            assert(class::<O>(sl, x) == class::<O>(l, x));
            assert(class::<O>(sr, x) == class::<O>(r, x));
        }
        lemma_stable_sorted::<O>(all);
        lemma_stable_sort_unique::<O>(all, views(out@), stable_sorted::<O>(all));
    }
    out
}

/// Merges two sorted vectors; of items of one rank, those of `left` come first.
fn merge<O: Order>(left: Vec<O::Item>, right: Vec<O::Item>) -> (out: Vec<O::Item>)
    requires
        sorted::<O>(views(left@)),
        sorted::<O>(views(right@)),
    ensures
        is_stable_sort::<O>(views(left@) + views(right@), views(out@)),
{
    let mut a = left;
    let mut b = right;
    let ghost all = views(a@) + views(b@);
    let mut taken: Vec<O::Item> = Vec::new();
    let ghost mut tail: Seq<<O::Item as View>::V> = Seq::empty();
    proof {
        assert forall|x: <O::Item as View>::V| #[trigger]
            class::<O>(views(a@) + views(b@) + tail, x) == class::<O>(all, x) by {
            assert(views(a@) + views(b@) + tail == all);
        }
    }
    while a.len() > 0 || b.len() > 0
        invariant
            sorted::<O>(views(a@)),
            sorted::<O>(views(b@)),
            sorted::<O>(tail),
            views(taken@) == tail.reverse(),
            a@.len() + b@.len() + tail.len() == all.len(),
            forall|i: int, j: int|
                0 <= i < a@.len() && 0 <= j < tail.len() ==> O::leq(
                    #[trigger] views(a@)[i],
                    #[trigger] tail[j],
                ),
            forall|i: int, j: int|
                0 <= i < b@.len() && 0 <= j < tail.len() ==> O::leq(
                    #[trigger] views(b@)[i],
                    #[trigger] tail[j],
                ),
            forall|x: <O::Item as View>::V| #[trigger]
                class::<O>(views(a@) + views(b@) + tail, x) == class::<O>(all, x),
        decreases a@.len() + b@.len(),
    {
        let ghost va = views(a@);
        let ghost vb = views(b@);
        let ghost old_tail = tail;
        let from_right = if b.len() == 0 {
            false
        } else if a.len() == 0 {
            true
        } else {
            O::le(&a[a.len() - 1], &b[b.len() - 1])
        };
        if from_right {
            let y = b.pop().unwrap();
            taken.push(y);
            proof {
                tail = seq![y@] + old_tail;
                assert(views(taken@) == old_tail.reverse().push(y@)) by {
                    assert(views(taken@).drop_last() == old_tail.reverse());
                }
                assert(tail.reverse() == old_tail.reverse().push(y@));
                assert(views(b@) == vb.drop_last());
                assert(va + vb.drop_last() + tail == va + vb + old_tail);
                assert(y@ == vb.last());
                O::total(y@, y@);
                assert forall|i: int, j: int|
                    0 <= i < a@.len() && 0 <= j < tail.len() implies O::leq(
                    #[trigger] views(a@)[i],
                    #[trigger] tail[j],
                ) by {
                    if j == 0 {
                        O::transitive(va[i], va.last(), y@);
                    } else {
                        assert(tail[j] == old_tail[j - 1]);
                    }
                }
                assert forall|i: int, j: int|
                    0 <= i < b@.len() && 0 <= j < tail.len() implies O::leq(
                    #[trigger] views(b@)[i],
                    #[trigger] tail[j],
                ) by {
                    assert(views(b@)[i] == vb[i]);
                    if j > 0 {
                        assert(tail[j] == old_tail[j - 1]);
                    }
                }
                assert(forall|j: int| 0 < j < tail.len() ==> tail[j] == old_tail[j - 1]);
                assert(sorted::<O>(tail));
            }
        } else {
            let x = a.pop().unwrap();
            taken.push(x);
            proof {
                tail = seq![x@] + old_tail;
                assert(views(taken@) == old_tail.reverse().push(x@)) by {
                    assert(views(taken@).drop_last() == old_tail.reverse());
                }
                assert(tail.reverse() == old_tail.reverse().push(x@));
                assert(views(a@) == va.drop_last());
                assert(x@ == va.last());
                O::total(x@, x@);
                assert forall|i: int, j: int|
                    0 <= i < b@.len() && 0 <= j < tail.len() implies O::leq(
                    #[trigger] views(b@)[i],
                    #[trigger] tail[j],
                ) by {
                    if j == 0 {
                        O::total(vb.last(), x@);
                        O::transitive(vb[i], vb.last(), x@);
                    } else {
                        assert(tail[j] == old_tail[j - 1]);
                    }
                }
                assert forall|i: int, j: int|
                    0 <= i < a@.len() && 0 <= j < tail.len() implies O::leq(
                    #[trigger] views(a@)[i],
                    #[trigger] tail[j],
                ) by {
                    assert(views(a@)[i] == va[i]);
                    if j > 0 {
                        assert(tail[j] == old_tail[j - 1]);
                    }
                }
                assert(forall|j: int| 0 < j < tail.len() ==> tail[j] == old_tail[j - 1]);
                assert(sorted::<O>(tail));
                assert forall|z: <O::Item as View>::V| #[trigger]
                    class::<O>(views(a@) + views(b@) + tail, z) == class::<O>(all, z) by {
                    let front = va.drop_last();
                    let one = seq![x@];
                    assert(class::<O>(va + vb + old_tail, z) == class::<O>(all, z));
                    lemma_class_add::<O>(va + vb, old_tail, z);
                    lemma_class_add::<O>(va, vb, z);
                    assert(va == front + one);
                    lemma_class_add::<O>(front, one, z);
                    lemma_class_add::<O>(front + vb, tail, z);
                    lemma_class_add::<O>(front, vb, z);
                    lemma_class_add::<O>(one, old_tail, z);
                    if O::leq(z, x@) && O::leq(x@, z) {
                        assert forall|i: int| 0 <= i < vb.len() implies !(O::leq(
                            z,
                            #[trigger] vb[i],
                        ) && O::leq(vb[i], z)) by {
                            if O::leq(z, vb[i]) {
                                O::transitive(x@, z, vb[i]);
                                O::transitive(x@, vb[i], vb.last());
                            }
                        }
                        lemma_class_empty::<O>(vb, z);
                    } else {
                        lemma_class_empty::<O>(one, z);
                    }
                    assert(class::<O>(va + vb + old_tail, z) =~= class::<O>(
                        front + vb + tail,
                        z,
                    ));
                }
            }
        }
    }
    assert(views(a@) + views(b@) + tail == tail);
    let mut out: Vec<O::Item> = Vec::new();
    while taken.len() > 0
        invariant
            views(out@) + views(taken@).reverse() == tail,
        decreases taken@.len(),
    {
        let ghost before = views(taken@);
        let ghost done = views(out@);
        let x = taken.pop().unwrap();
        out.push(x);
        proof {
            assert(views(taken@) == before.drop_last());
            assert(views(out@) == done.push(x@));
            assert(before.reverse() == seq![x@] + before.drop_last().reverse());
            assert(done.push(x@) + before.drop_last().reverse() == done + before.reverse());
        }
    }
    assert(views(out@) == tail);
    proof {
        assert forall|x: <O::Item as View>::V| #[trigger]
            class::<O>(views(out@), x) == class::<O>(all, x) by {
            assert(class::<O>(views(a@) + views(b@) + tail, x) == class::<O>(all, x));
        }
    }
    out
}

} // verus!
