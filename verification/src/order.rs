//! Orders, and lists that are brought into them.
use vstd::prelude::*;

verus! {

/// Whether an order decides consistently which of two items comes first: never for both, and items
/// between which it does not decide stand alike to every other.
pub open spec fn consistent<A>(first: spec_fn(A, A) -> bool) -> bool {
    &&& forall|a: A, b: A| #[trigger] first(a, b) ==> !first(b, a)
    &&& forall|a: A, b: A, c: A| #[trigger]
        first(a, b) && !(#[trigger] first(c, b)) ==> first(a, c)
}

/// A list with an item put behind every one that it does not come before.
pub open spec fn placed<A>(s: Seq<A>, x: A, first: spec_fn(A, A) -> bool) -> Seq<A>
    decreases s.len(),
{
    if s.len() > 0 && first(x, s.last()) {
        placed(s.drop_last(), x, first).push(s.last())
    } else {
        s.push(x)
    }
}

/// A list in an order; items between which the order does not decide keep theirs.
pub open spec fn ordered<A>(s: Seq<A>, first: spec_fn(A, A) -> bool) -> Seq<A>
    decreases s.len(),
{
    if s.len() == 0 {
        s
    } else {
        placed(ordered(s.drop_last(), first), s.last(), first)
    }
}

/// Whether no item stands behind one that it should come before.
pub open spec fn in_order<A>(s: Seq<A>, first: spec_fn(A, A) -> bool) -> bool {
    forall|i: int, j: int|
        0 <= i < j < s.len() ==> !first(#[trigger] s[j], #[trigger] s[i])
}

proof fn placed_in_order<A>(s: Seq<A>, x: A, first: spec_fn(A, A) -> bool)
    requires
        consistent(first),
        in_order(s, first),
    ensures
        in_order(placed(s, x, first), first),
        placed(s, x, first).to_multiset() == s.to_multiset().insert(x),
        forall|i: int|
            0 <= i < placed(s, x, first).len() ==> #[trigger] placed(s, x, first)[i] == x
                || s.contains(placed(s, x, first)[i]),
    decreases s.len(),
{
    broadcast use vstd::seq_lib::group_to_multiset_ensures;

    let r = placed(s, x, first);
    if s.len() > 0 && first(x, s.last()) {
        let head = s.drop_last();
        placed_in_order(head, x, first);
        let p = placed(head, x, first);
        assert(s =~= head.push(s.last()));
        assert(r.to_multiset() =~= s.to_multiset().insert(x));
        assert forall|i: int, j: int| 0 <= i < j < r.len() implies !first(
            #[trigger] r[j],
            #[trigger] r[i],
        ) by {
            assert(r[i] == p[i]);
            if j < p.len() {
                assert(r[j] == p[j]);
            } else if p[i] != x {
                let k = choose|k: int| 0 <= k < head.len() && head[k] == p[i];
                assert(s[k] == p[i] && s[s.len() - 1] == r[j]);
            }
        }
        assert forall|i: int| 0 <= i < r.len() implies #[trigger] r[i] == x || s.contains(
            r[i],
        ) by {
            if i == p.len() {
                assert(s[s.len() - 1] == r[i]);
            } else {
                assert(r[i] == p[i]);
                if p[i] != x {
                    let k = choose|k: int| 0 <= k < head.len() && head[k] == p[i];
                    assert(s[k] == r[i]);
                }
            }
        }
    } else {
        assert forall|i: int, j: int| 0 <= i < j < r.len() implies !first(
            #[trigger] r[j],
            #[trigger] r[i],
        ) by {
            assert(r[i] == s[i]);
            if j < s.len() {
                assert(r[j] == s[j]);
            } else if first(x, s[i]) {
                assert(s[s.len() - 1] == s.last());
                assert(!first(s.last(), s[i]) || i == s.len() - 1);
            }
        }
        assert forall|i: int| 0 <= i < r.len() implies #[trigger] r[i] == x || s.contains(
            r[i],
        ) by {
            if i < s.len() {
                assert(s[i] == r[i]);
            }
        }
    }
}

/// The items of a list between which and another the order does not decide.
pub open spec fn peers<A>(s: Seq<A>, y: A, first: spec_fn(A, A) -> bool) -> Seq<A>
    decreases s.len(),
{
    if s.len() == 0 {
        seq![]
    } else {
        let before = peers(s.drop_last(), y, first);
        if first(s.last(), y) || first(y, s.last()) {
            before
        } else {
            before.push(s.last())
        }
    }
}

proof fn placing_keeps_peers<A>(s: Seq<A>, x: A, y: A, first: spec_fn(A, A) -> bool)
    requires
        consistent(first),
    ensures
        peers(placed(s, x, first), y, first) == (if first(x, y) || first(y, x) {
            peers(s, y, first)
        } else {
            peers(s, y, first).push(x)
        }),
    decreases s.len(),
{
    let r = placed(s, x, first);
    if s.len() > 0 && first(x, s.last()) {
        placing_keeps_peers(s.drop_last(), x, y, first);
        assert(r.drop_last() =~= placed(s.drop_last(), x, first));
        assert(r.last() == s.last());
    } else {
        assert(r.drop_last() =~= s);
    }
}

/// Bringing a list into a consistent order leaves items between which the order does not decide as
/// they stood to each other.
pub proof fn ordering_is_stable<A>(s: Seq<A>, y: A, first: spec_fn(A, A) -> bool)
    requires
        consistent(first),
    ensures
        peers(ordered(s, first), y, first) == peers(s, y, first),
    decreases s.len(),
{
    if s.len() > 0 {
        ordering_is_stable(s.drop_last(), y, first);
        placing_keeps_peers(ordered(s.drop_last(), first), s.last(), y, first);
    }
}

/// Bringing a list into a consistent order does so, and loses, adds or doubles nothing.
pub proof fn ordering_keeps_all<A>(s: Seq<A>, first: spec_fn(A, A) -> bool)
    requires
        consistent(first),
    ensures
        in_order(ordered(s, first), first),
        ordered(s, first).to_multiset() == s.to_multiset(),
        ordered(s, first).len() == s.len(),
    decreases s.len(),
{
    broadcast use vstd::seq_lib::group_to_multiset_ensures;

    if s.len() > 0 {
        ordering_keeps_all(s.drop_last(), first);
        placed_in_order(ordered(s.drop_last(), first), s.last(), first);
        assert(s =~= s.drop_last().push(s.last()));
        assert(s.to_multiset().len() == s.len());
        assert(ordered(s, first).to_multiset().len() == ordered(s, first).len());
    }
}

/// Two lists in one: the last item is the last of either, and that of the second list where the
/// order does not decide.
spec fn merged<A>(a: Seq<A>, b: Seq<A>, first: spec_fn(A, A) -> bool) -> Seq<A>
    decreases a.len() + b.len(),
{
    if b.len() == 0 {
        a
    } else if a.len() > 0 && first(b.last(), a.last()) {
        merged(a.drop_last(), b, first).push(a.last())
    } else {
        merged(a, b.drop_last(), first).push(b.last())
    }
}

proof fn merged_with_placed<A>(a: Seq<A>, b: Seq<A>, x: A, first: spec_fn(A, A) -> bool)
    requires
        consistent(first),
    ensures
        merged(a, placed(b, x, first), first) == placed(merged(a, b, first), x, first),
    decreases a.len() + b.len(),
{
    let p = placed(b, x, first);
    let m = merged(a, b, first);
    if b.len() > 0 && first(x, b.last()) {
        assert(p.drop_last() =~= placed(b.drop_last(), x, first));
        if a.len() > 0 && first(b.last(), a.last()) {
            merged_with_placed(a.drop_last(), b, x, first);
            assert(m.drop_last() =~= merged(a.drop_last(), b, first));
            assert(!first(a.last(), b.last()));
        } else {
            merged_with_placed(a, b.drop_last(), x, first);
            assert(m.drop_last() =~= merged(a, b.drop_last(), first));
        }
    } else {
        assert(p.drop_last() =~= b);
        if a.len() > 0 && first(x, a.last()) {
            merged_with_placed(a.drop_last(), b, x, first);
            if b.len() > 0 {
                assert(first(b.last(), a.last())) by {
                    if !first(b.last(), a.last()) {
                        assert(first(x, b.last()));
                    }
                }
            }
            assert(m =~= merged(a.drop_last(), b, first).push(a.last()));
            assert(m.drop_last() =~= merged(a.drop_last(), b, first));
        } else if m.len() > 0 {
            merged_last(a, b, first);
        }
    }
}

proof fn merged_last<A>(a: Seq<A>, b: Seq<A>, first: spec_fn(A, A) -> bool)
    ensures
        merged(a, b, first).len() == a.len() + b.len(),
        merged(a, b, first).len() > 0 ==> (a.len() > 0 && merged(a, b, first).last() == a.last())
            || (b.len() > 0 && merged(a, b, first).last() == b.last()),
    decreases a.len() + b.len(),
{
    if b.len() == 0 {
    } else if a.len() > 0 && first(b.last(), a.last()) {
        merged_last(a.drop_last(), b, first);
    } else {
        merged_last(a, b.drop_last(), first);
    }
}

proof fn merged_in_order<A>(a: Seq<A>, b: Seq<A>, first: spec_fn(A, A) -> bool)
    requires
        consistent(first),
    ensures
        ordered(a + b, first) == merged(ordered(a, first), ordered(b, first), first),
    decreases b.len(),
{
    if b.len() == 0 {
        assert(a + b =~= a);
    } else {
        merged_in_order(a, b.drop_last(), first);
        assert((a + b).drop_last() =~= a + b.drop_last());
        assert((a + b).last() == b.last());
        merged_with_placed(ordered(a, first), ordered(b.drop_last(), first), b.last(), first);
    }
}

/// Items that have an order.
pub trait Ranked: Sized {
    type Model;

    spec fn model(&self) -> Self::Model;

    /// Which of two items comes first.
    spec fn first() -> spec_fn(Self::Model, Self::Model) -> bool;

    proof fn is_consistent()
        ensures
            consistent(Self::first()),
    ;

    fn comes_first(&self, other: &Self) -> (r: bool)
        ensures
            r == (Self::first())(self.model(), other.model()),
    ;
}

/// The models of a list of items.
pub open spec fn models<T: Ranked>(v: Seq<T>) -> Seq<T::Model> {
    Seq::new(v.len(), |i: int| v[i].model())
}

fn merge<T: Ranked>(a: Vec<T>, b: Vec<T>) -> (out: Vec<T>)
    ensures
        models(out@) == merged(models(a@), models(b@), T::first()),
{
    let ghost whole = merged(models(a@), models(b@), T::first());
    let mut a = a;
    let mut b = b;
    let mut back: Vec<T> = Vec::new();
    assert(whole + models(back@).reverse() =~= whole);
    while b.len() > 0
        invariant
            merged(models(a@), models(b@), T::first()) + models(back@).reverse() == whole,
        decreases a@.len() + b@.len(),
    {
        let ghost x = models(a@);
        let ghost y = models(b@);
        let ghost z = models(back@);
        let of_first = a.len() > 0 && b[b.len() - 1].comes_first(&a[a.len() - 1]);
        let next = if of_first {
            a.pop()
        } else {
            b.pop()
        };
        if let Some(item) = next {
            let ghost m = item.model();
            back.push(item);
            assert(models(back@) =~= z.push(m));
            assert(z.push(m).reverse() =~= seq![m] + z.reverse());
            if of_first {
                assert(models(a@) =~= x.drop_last());
            } else {
                assert(models(b@) =~= y.drop_last());
            }
            assert(merged(models(a@), models(b@), T::first()) + models(back@).reverse() =~= merged(
                x,
                y,
                T::first(),
            ) + z.reverse());
        }
    }
    let mut out = a;
    while back.len() > 0
        invariant
            models(out@) + models(back@).reverse() == whole,
        decreases back@.len(),
    {
        let ghost x = models(out@);
        let ghost z = models(back@);
        if let Some(item) = back.pop() {
            out.push(item);
            assert(models(back@) =~= z.drop_last());
            assert(models(out@) =~= x.push(z.last()));
            assert(models(out@) + models(back@).reverse() =~= x + z.reverse());
        }
    }
    assert(models(out@) + models(back@).reverse() =~= models(out@));
    out
}

/// Brings a list into its order.
pub fn sort<T: Ranked>(items: Vec<T>) -> (out: Vec<T>)
    ensures
        models(out@) == ordered(models(items@), T::first()),
    decreases items@.len(),
{
    let ghost all = models(items@);
    if items.len() < 2 {
        proof {
            reveal_with_fuel(ordered, 2);
            if all.len() == 1 {
                assert(all.drop_last() =~= seq![]);
                assert(ordered(all, T::first()) =~= all);
            }
        }
        return items;
    }
    let mut head = items;
    let half = head.len() / 2;
    let tail = head.split_off(half);
    let ghost a = models(head@);
    let ghost b = models(tail@);
    proof {
        assert(all =~= a + b);
        T::is_consistent();
        merged_in_order(a, b, T::first());
    }
    merge(sort(head), sort(tail))
}

/// Puts an item in its place.
pub fn place<T: Ranked>(list: &mut Vec<T>, item: T)
    ensures
        models(final(list)@) == placed(models(old(list)@), item.model(), T::first()),
        final(list)@.len() == old(list)@.len() + 1,
{
    let ghost before = models(list@);
    let ghost x = item.model();
    let ghost first = T::first();
    let mut i: usize = list.len();
    assert(before.take(i as int) =~= before);
    assert(placed(before, x, first) + before.skip(i as int) =~= placed(before, x, first));
    while i > 0 && item.comes_first(&list[i - 1])
        invariant
            before == models(list@),
            x == item.model(),
            first == T::first(),
            i <= list@.len(),
            placed(before.take(i as int), x, first) + before.skip(i as int) == placed(
                before,
                x,
                first,
            ),
        decreases i,
    {
        let ghost head = before.take(i as int);
        assert(head.last() == list@[i - 1].model());
        assert(head.drop_last() =~= before.take(i - 1));
        assert(before.skip(i - 1) =~= seq![head.last()] + before.skip(i as int));
        assert(placed(before.take(i - 1), x, first) + before.skip(i - 1) =~= placed(head, x, first)
            + before.skip(i as int));
        i -= 1;
    }
    let ghost head = before.take(i as int);
    if i > 0 {
        assert(head.last() == list@[i - 1].model());
    }
    assert(placed(head, x, first) =~= head.push(x));
    list.insert(i, item);
    assert(models(list@) =~= head.push(x) + before.skip(i as int));
}

/// The beginning of a list.
pub open spec fn top<A>(s: Seq<A>, n: nat) -> Seq<A> {
    if s.len() > n {
        s.take(n as int)
    } else {
        s
    }
}

/// The beginning of an ordered list is known from the beginnings before, item by item.
pub proof fn top_of_placed<A>(s: Seq<A>, x: A, first: spec_fn(A, A) -> bool, n: nat)
    requires
        consistent(first),
        in_order(s, first),
    ensures
        top(placed(s, x, first), n) == top(placed(top(s, n), x, first), n),
        placed(s, x, first).len() == s.len() + 1,
    decreases s.len(),
{
    if s.len() > 0 && first(x, s.last()) {
        let head = s.drop_last();
        top_of_placed(head, x, first, n);
        if s.len() > n {
            assert(top(head, n) =~= top(s, n));
            assert(top(placed(s, x, first), n) =~= top(placed(head, x, first), n));
        }
    } else if s.len() > n {
        let t = s.take(n as int);
        assert(s.push(x).take(n as int) =~= t);
        if n > 0 {
            assert(t.last() == s[n - 1]);
            assert(!first(x, t.last())) by {
                if first(x, s[n - 1]) {
                    assert(!first(s.last(), s[n - 1])) by {
                        assert(s[s.len() - 1] == s.last());
                    }
                }
            }
        }
        assert(placed(t, x, first) =~= t.push(x));
        assert(t.push(x).take(n as int) =~= t);
    }
}

/// Bringing a list into an order and taking something of each item is the same as taking it first,
/// where the order decides on that alone.
pub proof fn ordering_maps<A, B>(
    s: Seq<A>,
    first: spec_fn(A, A) -> bool,
    part: spec_fn(A) -> B,
    rule: spec_fn(B, B) -> bool,
)
    requires
        forall|a: A, b: A| #[trigger] first(a, b) == rule(part(a), part(b)),
    ensures
        ordered(s, first).map_values(part) == ordered(s.map_values(part), rule),
    decreases s.len(),
{
    if s.len() > 0 {
        ordering_maps(s.drop_last(), first, part, rule);
        assert(s.map_values(part).drop_last() =~= s.drop_last().map_values(part));
        placing_maps(ordered(s.drop_last(), first), s.last(), first, part, rule);
    } else {
        assert(s.map_values(part) =~= seq![]);
    }
}

proof fn placing_maps<A, B>(
    s: Seq<A>,
    x: A,
    first: spec_fn(A, A) -> bool,
    part: spec_fn(A) -> B,
    rule: spec_fn(B, B) -> bool,
)
    requires
        forall|a: A, b: A| #[trigger] first(a, b) == rule(part(a), part(b)),
    ensures
        placed(s, x, first).map_values(part) == placed(s.map_values(part), part(x), rule),
    decreases s.len(),
{
    if s.len() > 0 {
        assert(first(x, s.last()) == rule(part(x), part(s.last())));
        assert(s.map_values(part).drop_last() =~= s.drop_last().map_values(part));
        placing_maps(s.drop_last(), x, first, part, rule);
    }
    assert(placed(s, x, first).map_values(part) =~= placed(s.map_values(part), part(x), rule));
}

}
