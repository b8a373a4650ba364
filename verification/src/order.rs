//! Texts in ascending order of their characters.
use crate::text::{to_chars, views};
use vstd::prelude::*;

verus! {

/// Whether `a` comes before `b` when they are compared from position `i` on.
pub open spec fn less_from(a: Seq<char>, b: Seq<char>, i: int) -> bool
    decreases b.len() - i,
{
    if i < 0 || i >= b.len() {
        false
    } else if i >= a.len() {
        true
    } else if a[i] != b[i] {
        (a[i] as int) < (b[i] as int)
    } else {
        less_from(a, b, i + 1)
    }
}

/// Whether `a` comes before `b`: at the first position where they differ it
/// has the smaller character, or it ends there. It is the order of the texts'
/// UTF-8 bytes too.
pub open spec fn less(a: Seq<char>, b: Seq<char>) -> bool {
    less_from(a, b, 0)
}

proof fn lemma_less_from(a: Seq<char>, b: Seq<char>, c: Seq<char>, i: int)
    requires
        i >= 0,
    ensures
        !less_from(a, a, i),
        less_from(a, b, i) ==> !less_from(b, a, i),
        less_from(a, b, i) && less_from(b, c, i) ==> less_from(a, c, i),
        !less_from(b, a, i) && !less_from(c, b, i) ==> !less_from(c, a, i),
    decreases a.len() + b.len() + c.len() - i,
{
    if i < a.len() || i < b.len() || i < c.len() {
        lemma_less_from(a, b, c, i + 1);
    }
}

proof fn lemma_less_total(a: Seq<char>, b: Seq<char>, i: int)
    requires
        0 <= i <= a.len(),
        i <= b.len(),
        forall|k: int| 0 <= k < i ==> a[k] == b[k],
        a != b,
    ensures
        less_from(a, b, i) || less_from(b, a, i),
    decreases a.len() - i,
{
    if i < a.len() && i < b.len() {
        if a[i] == b[i] {
            lemma_less_total(a, b, i + 1);
        }
    } else if a.len() == b.len() {
        assert(a =~= b);
    }
}

/// The order is strict and total.
pub proof fn order_is_strict_and_total(a: Seq<char>, b: Seq<char>, c: Seq<char>)
    ensures
        !less(a, a),
        less(a, b) ==> !less(b, a),
        less(a, b) && less(b, c) ==> less(a, c),
        a != b ==> less(a, b) || less(b, a),
{
    lemma_less_from(a, b, c, 0);
    if a != b {
        lemma_less_total(a, b, 0);
    }
}

/// Whether `a` comes before `b`.
pub fn is_less(a: &str, b: &str) -> (r: bool)
    ensures
        r == less(a@, b@),
{
    let x = to_chars(a);
    let y = to_chars(b);
    let mut i: usize = 0;
    while i < y.len()
        invariant
            i <= y@.len(),
            x@ == a@,
            y@ == b@,
            less(a@, b@) == less_from(a@, b@, i as int),
        decreases y@.len() - i,
    {
        if i >= x.len() {
            return true;
        }
        if x[i] != y[i] {
            return x[i] < y[i];
        }
        i = i + 1;
    }
    false
}

/// An ascending list of positions with `x` put into it, behind those whose
/// keys are not greater.
pub open spec fn with_position(keys: Seq<Seq<char>>, order: Seq<int>, x: int) -> Seq<int>
    decreases order.len(),
{
    if order.len() == 0 || !less(keys[x], keys[order.last()]) {
        order.push(x)
    } else {
        with_position(keys, order.drop_last(), x).push(order.last())
    }
}

/// The first `n` positions in ascending order of their keys; equal keys keep
/// their order.
pub open spec fn ascending(keys: Seq<Seq<char>>, n: int) -> Seq<int>
    decreases n,
{
    if n <= 0 {
        Seq::empty()
    } else {
        with_position(keys, ascending(keys, n - 1), n - 1)
    }
}

proof fn lemma_with_position(keys: Seq<Seq<char>>, order: Seq<int>, x: int, n: int)
    requires
        0 <= x < n <= keys.len(),
        forall|i: int| 0 <= i < order.len() ==> 0 <= #[trigger] order[i] < n && order[i] != x,
        forall|i: int, j: int| 0 <= i < j < order.len() ==> #[trigger] order[i] != #[trigger] order[j],
        forall|i: int, j: int|
            0 <= i < j < order.len() ==> !less(keys[#[trigger] order[j]], keys[#[trigger] order[i]]),
    ensures
        ({
            let r = with_position(keys, order, x);
            &&& r.len() == order.len() + 1
            &&& forall|i: int| 0 <= i < r.len() ==> 0 <= #[trigger] r[i] < n && (r[i] == x || order.contains(r[i]))
            &&& r.contains(x)
            &&& forall|i: int| 0 <= i < order.len() ==> r.contains(#[trigger] order[i])
            &&& forall|i: int, j: int| 0 <= i < j < r.len() ==> #[trigger] r[i] != #[trigger] r[j]
            &&& forall|i: int, j: int|
                0 <= i < j < r.len() ==> !less(keys[#[trigger] r[j]], keys[#[trigger] r[i]])
        }),
    decreases order.len(),
{
    let r = with_position(keys, order, x);
    if order.len() == 0 || !less(keys[x], keys[order.last()]) {
        assert(r[order.len() as int] == x);
        assert forall|i: int| 0 <= i < order.len() implies r.contains(#[trigger] order[i]) by {
            assert(r[i] == order[i]);
        }
        assert forall|i: int| 0 <= i < r.len() implies 0 <= #[trigger] r[i] < n && (r[i] == x
            || order.contains(r[i])) by {
            if i < order.len() {
                assert(order[i] == r[i]);
            }
        }
        assert forall|i: int, j: int| 0 <= i < j < r.len() implies !less(
            keys[#[trigger] r[j]],
            keys[#[trigger] r[i]],
        ) by {
            if j == order.len() {
                assert(r[i] == order[i]);
                lemma_less_from(keys[order[i]], keys[order.last()], keys[x], 0);
                if i < order.len() - 1 {
                    assert(!less(keys[order[order.len() - 1]], keys[order[i]]));
                }
            }
        }
    } else {
        let rest = order.drop_last();
        lemma_with_position(keys, rest, x, n);
        let q = with_position(keys, rest, x);
        let last = order.last();
        assert(r == q.push(last));
        assert(r[q.len() as int] == last);
        assert forall|i: int| 0 <= i < q.len() implies #[trigger] q[i] != last && !less(
            keys[last],
            keys[q[i]],
        ) by {
            lemma_less_from(keys[x], keys[last], keys[x], 0);
            if q[i] != x {
                let k = choose|k: int| 0 <= k < rest.len() && rest[k] == q[i];
                assert(order[k] == q[i]);
                assert(order[order.len() - 1] == last);
            }
        }
        assert forall|i: int| 0 <= i < r.len() implies 0 <= #[trigger] r[i] < n && (r[i] == x
            || order.contains(r[i])) by {
            if i < q.len() {
                assert(r[i] == q[i]);
                if q[i] != x {
                    let k = choose|k: int| 0 <= k < rest.len() && rest[k] == q[i];
                    assert(order[k] == r[i]);
                }
            } else {
                assert(order[order.len() - 1] == r[i]);
            }
        }
        let at = choose|k: int| 0 <= k < q.len() && q[k] == x;
        assert(r[at] == x);
        assert forall|i: int| 0 <= i < order.len() implies r.contains(#[trigger] order[i]) by {
            if i < rest.len() {
                assert(rest[i] == order[i]);
                let k = choose|k: int| 0 <= k < q.len() && q[k] == rest[i];
                assert(r[k] == order[i]);
            }
        }
        assert forall|i: int, j: int| 0 <= i < j < r.len() implies #[trigger] r[i]
            != #[trigger] r[j] by {
            assert(r[i] == q[i]);
            if j < q.len() {
                assert(r[j] == q[j]);
            }
        }
        assert forall|i: int, j: int| 0 <= i < j < r.len() implies !less(
            keys[#[trigger] r[j]],
            keys[#[trigger] r[i]],
        ) by {
            assert(r[i] == q[i]);
            if j < q.len() {
                assert(r[j] == q[j]);
            }
        }
    }
}

/// The ascending order names every position once, and no key comes before an
/// earlier one.
pub proof fn ascending_is_sorted(keys: Seq<Seq<char>>, n: int)
    requires
        0 <= n <= keys.len(),
    ensures
        ascending(keys, n).len() == n,
        forall|i: int| 0 <= i < n ==> 0 <= #[trigger] ascending(keys, n)[i] < n,
        forall|p: int| 0 <= p < n ==> #[trigger] ascending(keys, n).contains(p),
        forall|i: int, j: int|
            0 <= i < j < n ==> #[trigger] ascending(keys, n)[i] != #[trigger] ascending(keys, n)[j],
        forall|i: int, j: int|
            0 <= i < j < n ==> !less(
                keys[#[trigger] ascending(keys, n)[j]],
                keys[#[trigger] ascending(keys, n)[i]],
            ),
    decreases n,
{
    if n > 0 {
        ascending_is_sorted(keys, n - 1);
        let order = ascending(keys, n - 1);
        lemma_with_position(keys, order, n - 1, n);
        let r = ascending(keys, n);
        assert forall|p: int| 0 <= p < n implies #[trigger] r.contains(p) by {
            if p < n - 1 {
                assert(order.contains(p));
                let k = choose|k: int| 0 <= k < order.len() && order[k] == p;
                assert(r.contains(order[k]));
            }
        }
    }
}

/// What a list of positions denotes.
pub open spec fn positions(s: Seq<usize>) -> Seq<int> {
    Seq::new(s.len(), |i: int| s[i] as int)
}

/// The positions of a list of keys, in ascending order of the keys.
pub fn sorted_positions(keys: &Vec<String>) -> (r: Vec<usize>)
    ensures
        positions(r@) == ascending(views(keys@), keys@.len() as int),
        r@.len() == keys@.len(),
        forall|i: int| 0 <= i < r@.len() ==> #[trigger] r@[i] < keys@.len(),
{
    let ghost all = views(keys@);
    let mut out: Vec<usize> = Vec::new();
    let mut n: usize = 0;
    assert(positions(out@) =~= Seq::<int>::empty());
    while n < keys.len()
        invariant
            n <= keys@.len(),
            all == views(keys@),
            positions(out@) == ascending(all, n as int),
            out@.len() == n,
            forall|i: int| 0 <= i < n ==> #[trigger] out@[i] < n,
        decreases keys@.len() - n,
    {
        let ghost before = out@;
        let ghost order = positions(before);
        let mut at: usize = out.len();
        let mut looking: bool = true;
        assert(order.take(at as int) =~= order);
        assert(order.skip(at as int) =~= Seq::<int>::empty());
        assert(with_position(all, order, n as int) =~= with_position(
            all,
            order.take(at as int),
            n as int,
        ) + order.skip(at as int));
        while looking && at > 0
            invariant
                n < keys@.len(),
                all == views(keys@),
                out@ == before,
                order == positions(before),
                at <= before.len(),
                before.len() == n,
                forall|i: int| 0 <= i < n ==> #[trigger] out@[i] < n,
                with_position(all, order, n as int) == with_position(
                    all,
                    order.take(at as int),
                    n as int,
                ) + order.skip(at as int),
                !looking ==> at > 0 && !less(all[n as int], all[order[at - 1]]),
            decreases at, if looking {
                    1int
                } else {
                    0int
                },
        {
            let p = out[at - 1];
            assert(order[at - 1] == p);
            if is_less(keys[n].as_str(), keys[p].as_str()) {
                proof {
                    let o = order.take(at as int);
                    assert(o.last() == order[at - 1]);
                    assert(o.drop_last() =~= order.take(at - 1));
                    assert(with_position(all, o.drop_last(), n as int).push(o.last()) + order.skip(
                        at as int,
                    ) =~= with_position(all, o.drop_last(), n as int) + order.skip(at - 1));
                }
                at = at - 1;
            } else {
                looking = false;
            }
        }
        proof {
            let o = order.take(at as int);
            if at > 0 {
                assert(o.last() == order[at - 1]);
            }
            assert(with_position(all, o, n as int) == o.push(n as int));
        }
        out.insert(at, n);
        proof {
            assert(positions(out@) =~= order.take(at as int).push(n as int) + order.skip(
                at as int,
            ));
            assert forall|i: int| 0 <= i < n + 1 implies #[trigger] out@[i] < n + 1 by {
                if i < at {
                    assert(out@[i] == before[i]);
                } else if i > at {
                    assert(out@[i] == before[i - 1]);
                }
            }
        }
        n = n + 1;
    }
    out
}

/// Whether a list names the texts of a set, each once, in ascending order.
pub open spec fn lists_set(l: Seq<Seq<char>>, s: Set<Seq<char>>) -> bool {
    &&& forall|i: int, j: int| 0 <= i < j < l.len() ==> less(#[trigger] l[i], #[trigger] l[j])
    &&& forall|k: Seq<char>| #[trigger] s.contains(k) ==> l.contains(k)
    &&& forall|i: int| 0 <= i < l.len() ==> s.contains(#[trigger] l[i])
}

/// The texts of a set in ascending order.
pub open spec fn listing(s: Set<Seq<char>>) -> Seq<Seq<char>> {
    choose|l: Seq<Seq<char>>| lists_set(l, s)
}

/// There is one ascending list of a set at most.
pub proof fn listing_is_unique(a: Seq<Seq<char>>, b: Seq<Seq<char>>, s: Set<Seq<char>>)
    requires
        lists_set(a, s),
        lists_set(b, s),
    ensures
        a == b,
        listing(s) == a,
    decreases a.len(),
{
    lemma_same_listing(a, b, s);
    let l = listing(s);
    assert(lists_set(l, s));
    lemma_same_listing(a, l, s);
}

proof fn lemma_last_is_greatest(a: Seq<Seq<char>>, s: Set<Seq<char>>, k: Seq<char>)
    requires
        lists_set(a, s),
        s.contains(k),
    ensures
        a.len() > 0,
        k == a.last() || less(k, a.last()),
{
    let i = choose|i: int| 0 <= i < a.len() && a[i] == k;
    if i < a.len() - 1 {
        assert(less(a[i], a[a.len() - 1]));
    }
}

proof fn lemma_rest_lists(a: Seq<Seq<char>>, s: Set<Seq<char>>)
    requires
        lists_set(a, s),
        a.len() > 0,
    ensures
        lists_set(a.drop_last(), s.remove(a.last())),
{
    let r = a.drop_last();
    let t = s.remove(a.last());
    assert forall|k: Seq<char>| #[trigger] t.contains(k) implies r.contains(k) by {
        let i = choose|i: int| 0 <= i < a.len() && a[i] == k;
        assert(i < a.len() - 1);
        assert(r[i] == k);
    }
    assert forall|i: int| 0 <= i < r.len() implies t.contains(#[trigger] r[i]) by {
        assert(r[i] == a[i]);
        assert(less(a[i], a[a.len() - 1]));
        order_is_strict_and_total(a[i], a.last(), a[i]);
    }
}

proof fn lemma_same_listing(a: Seq<Seq<char>>, b: Seq<Seq<char>>, s: Set<Seq<char>>)
    requires
        lists_set(a, s),
        lists_set(b, s),
    ensures
        a == b,
    decreases a.len(),
{
    if a.len() == 0 {
        if b.len() > 0 {
            assert(s.contains(b[0]));
        }
        assert(a =~= b);
    } else {
        assert(s.contains(a[a.len() - 1]));
        lemma_last_is_greatest(b, s, a.last());
        assert(s.contains(b[b.len() - 1]));
        lemma_last_is_greatest(a, s, b.last());
        order_is_strict_and_total(a.last(), b.last(), a.last());
        lemma_rest_lists(a, s);
        lemma_rest_lists(b, s);
        lemma_same_listing(a.drop_last(), b.drop_last(), s.remove(a.last()));
        assert(a =~= a.drop_last().push(a.last()));
        assert(b =~= b.drop_last().push(b.last()));
    }
}

proof fn lemma_listing_with(l: Seq<Seq<char>>, s: Set<Seq<char>>, x: Seq<char>) -> (r: Seq<Seq<char>>)
    requires
        lists_set(l, s),
        !s.contains(x),
    ensures
        lists_set(r, s.insert(x)),
    decreases l.len(),
{
    let t = s.insert(x);
    if l.len() == 0 || less(l.last(), x) {
        let r = l.push(x);
        assert forall|i: int, j: int| 0 <= i < j < r.len() implies less(
            #[trigger] r[i],
            #[trigger] r[j],
        ) by {
            assert(r[i] == l[i]);
            if j == l.len() && i < l.len() - 1 {
                assert(less(l[i], l[l.len() - 1]));
                order_is_strict_and_total(l[i], l.last(), x);
            } else if j < l.len() {
                assert(r[j] == l[j]);
            }
        }
        assert forall|k: Seq<char>| #[trigger] t.contains(k) implies r.contains(k) by {
            if k == x {
                assert(r[l.len() as int] == x);
            } else {
                let i = choose|i: int| 0 <= i < l.len() && l[i] == k;
                assert(r[i] == k);
            }
        }
        r
    } else {
        let last = l.last();
        assert(s.contains(l[l.len() - 1]));
        order_is_strict_and_total(x, last, x);
        lemma_rest_lists(l, s);
        let front = lemma_listing_with(l.drop_last(), s.remove(last), x);
        let u = s.remove(last).insert(x);
        let r = front.push(last);
        assert forall|i: int, j: int| 0 <= i < j < r.len() implies less(
            #[trigger] r[i],
            #[trigger] r[j],
        ) by {
            assert(r[i] == front[i]);
            if j < front.len() {
                assert(r[j] == front[j]);
            } else {
                assert(u.contains(front[i]));
                if front[i] != x {
                    lemma_last_is_greatest(l, s, front[i]);
                }
            }
        }
        assert forall|k: Seq<char>| #[trigger] t.contains(k) implies r.contains(k) by {
            if k == last {
                assert(r[front.len() as int] == last);
            } else {
                assert(u.contains(k));
                let i = choose|i: int| 0 <= i < front.len() && front[i] == k;
                assert(r[i] == k);
            }
        }
        assert forall|i: int| 0 <= i < r.len() implies t.contains(#[trigger] r[i]) by {
            if i < front.len() {
                assert(u.contains(front[i]));
            }
        }
        r
    }
}

/// Every finite set has its ascending list.
pub proof fn finite_sets_are_listed(s: Set<Seq<char>>)
    requires
        s.finite(),
    ensures
        lists_set(listing(s), s),
    decreases s.len(),
{
    if s.len() == 0 {
        let none = Seq::<Seq<char>>::empty();
        assert(lists_set(none, s));
    } else {
        let x = s.choose();
        finite_sets_are_listed(s.remove(x));
        let l = lemma_listing_with(listing(s.remove(x)), s.remove(x), x);
        assert(s.remove(x).insert(x) =~= s);
        assert(lists_set(l, s));
    }
}

/// The list of a set without texts is empty.
pub proof fn listing_of_nothing(s: Set<Seq<char>>)
    requires
        forall|k: Seq<char>| !#[trigger] s.contains(k),
    ensures
        listing(s).len() == 0,
{
    let none = Seq::<Seq<char>>::empty();
    assert(lists_set(none, s));
    listing_is_unique(none, none, s);
}

/// The texts of a list in ascending order, each once.
pub fn sorted_unique(names: &Vec<String>) -> (r: Vec<String>)
    ensures
        views(r@) == listing(views(names@).to_set()),
        lists_set(views(r@), views(names@).to_set()),
{
    let order = sorted_positions(names);
    let ghost all = views(names@);
    let ghost s = all.to_set();
    let ghost o = ascending(all, names@.len() as int);
    proof {
        ascending_is_sorted(all, names@.len() as int);
    }
    let mut out: Vec<String> = Vec::new();
    let mut n: usize = 0;
    while n < order.len()
        invariant
            n <= order@.len(),
            all == views(names@),
            s == all.to_set(),
            o == ascending(all, names@.len() as int),
            o == positions(order@),
            order@.len() == names@.len(),
            forall|k: int| 0 <= k < order@.len() ==> #[trigger] order@[k] < names@.len(),
            forall|i: int, j: int|
                0 <= i < j < o.len() ==> !less(all[#[trigger] o[j]], all[#[trigger] o[i]]),
            forall|i: int, j: int|
                0 <= i < j < out@.len() ==> less((#[trigger] out@[i])@, (#[trigger] out@[j])@),
            forall|i: int| 0 <= i < out@.len() ==> s.contains((#[trigger] out@[i])@),
            forall|k: int| 0 <= k < n ==> views(out@).contains(#[trigger] all[o[k]]),
            out@.len() <= n,
            n > 0 ==> out@.len() > 0 && out@[out@.len() - 1]@ == all[o[n - 1]],
        decreases order@.len() - n,
    {
        let at = order[n];
        assert(o[n as int] == at);
        assert(all[o[n as int]] == names@[at as int]@);
        let mut fresh: bool = true;
        if n > 0 {
            let last = out[out.len() - 1].as_str();
            if !is_less(last, names[at].as_str()) {
                fresh = false;
            }
        }
        let ghost before = out@;
        if fresh {
            out.push(names[at].clone());
        }
        proof {
            let k = all[o[n as int]];
            assert(all[at as int] == k);
            assert(all.contains(k));
            assert(s.contains(k));
            if n > 0 {
                let p = before[before.len() - 1]@;
                assert(p == all[o[n - 1]]);
                order_is_strict_and_total(p, k, p);
                assert(!less(all[o[n as int]], all[o[n - 1]]));
                if !fresh {
                    assert(p == k);
                    assert(views(out@)[out@.len() - 1] == k);
                } else {
                    assert forall|i: int, j: int| 0 <= i < j < out@.len() implies less(
                        (#[trigger] out@[i])@,
                        (#[trigger] out@[j])@,
                    ) by {
                        assert(out@[i] == before[i]);
                        if j == before.len() {
                            if i < before.len() - 1 {
                                assert(less(before[i]@, before[before.len() - 1]@));
                                order_is_strict_and_total(before[i]@, p, k);
                            }
                        } else {
                            assert(out@[j] == before[j]);
                        }
                    }
                }
            }
            assert forall|q: int| 0 <= q < n + 1 implies views(out@).contains(
                #[trigger] all[o[q]],
            ) by {
                if q < n {
                    let i = choose|i: int| 0 <= i < views(before).len() && views(before)[i] == all[o[q]];
                    assert(views(out@)[i] == all[o[q]]);
                } else {
                    assert(views(out@)[out@.len() - 1] == k);
                }
            }
        }
        n = n + 1;
    }
    proof {
        let r = views(out@);
        assert forall|i: int, j: int| 0 <= i < j < r.len() implies less(
            #[trigger] r[i],
            #[trigger] r[j],
        ) by {
            assert(r[i] == out@[i]@ && r[j] == out@[j]@);
        }
        assert forall|k: Seq<char>| #[trigger] s.contains(k) implies r.contains(k) by {
            let p = choose|p: int| 0 <= p < all.len() && all[p] == k;
            assert(o.contains(p));
            let q = choose|q: int| 0 <= q < o.len() && o[q] == p;
            assert(r.contains(all[o[q]]));
        }
        assert forall|i: int| 0 <= i < r.len() implies s.contains(#[trigger] r[i]) by {
            assert(r[i] == out@[i]@);
        }
        assert(lists_set(r, s));
        listing_is_unique(r, r, s);
    }
    out
}

} // verus!
