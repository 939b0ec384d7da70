//! Sorting by a ranking key, and the arrangement of a list under a strict order.

use vstd::prelude::*;

verus! {

/// What an item is ordered by, and its position in the list it came from.
#[derive(Clone, Copy)]
pub struct Key {
    pub rank: i128,
    pub ts: i64,
    pub id: i128,
    pub at: usize,
}

/// Higher rank first, then later time, then higher id.
pub open spec fn key_above(a: Key, b: Key) -> bool {
    ||| a.rank > b.rank
    ||| a.rank == b.rank && a.ts > b.ts
    ||| a.rank == b.rank && a.ts == b.ts && a.id > b.id
}

/// Whether every earlier key stands above every later one.
pub open spec fn keys_sorted(s: Seq<Key>) -> bool {
    forall|i: int, j: int| 0 <= i < j < s.len() ==> key_above(#[trigger] s[i], #[trigger] s[j])
}

/// Whether all ids differ.
pub open spec fn keys_distinct(s: Seq<Key>) -> bool {
    forall|i: int, j: int|
        0 <= i < j < s.len() ==> (#[trigger] s[i]).id != (#[trigger] s[j]).id
}

/// Whether two lists hold the same keys.
pub open spec fn same_keys(a: Seq<Key>, b: Seq<Key>) -> bool {
    forall|k: Key| #![auto] a.contains(k) <==> b.contains(k)
}

fn above(a: &Key, b: &Key) -> (r: bool)
    ensures
        r == key_above(*a, *b),
{
    a.rank > b.rank || (a.rank == b.rank && (a.ts > b.ts || (a.ts == b.ts && a.id > b.id)))
}

fn merge(a: &Vec<Key>, b: &Vec<Key>) -> (r: Vec<Key>)
    requires
        keys_sorted(a@),
        keys_sorted(b@),
        forall|i: int, j: int|
            0 <= i < a.len() && 0 <= j < b.len() ==> (#[trigger] a@[i]).id != (#[trigger] b@[j]).id,
        a.len() + b.len() <= usize::MAX,
    ensures
        keys_sorted(r@),
        r.len() == a.len() + b.len(),
        forall|k: Key| #![auto] r@.contains(k) <==> a@.contains(k) || b@.contains(k),
{
    let mut r: Vec<Key> = Vec::new();
    let mut i: usize = 0;
    let mut j: usize = 0;
    while i < a.len() || j < b.len()
        invariant
            i <= a.len(),
            j <= b.len(),
            a.len() + b.len() <= usize::MAX,
            r.len() == i + j,
            keys_sorted(a@),
            keys_sorted(b@),
            keys_sorted(r@),
            forall|x: int, y: int|
                0 <= x < a.len() && 0 <= y < b.len() ==> (#[trigger] a@[x]).id != (#[trigger] b@[y]).id,
            forall|x: int, y: int|
                0 <= x < r.len() && i <= y < a.len() ==> key_above(#[trigger] r@[x], #[trigger] a@[y]),
            forall|x: int, y: int|
                0 <= x < r.len() && j <= y < b.len() ==> key_above(#[trigger] r@[x], #[trigger] b@[y]),
            forall|x: int|
                0 <= x < r.len() ==> a@.contains(#[trigger] r@[x]) || b@.contains(r@[x]),
            forall|x: int| 0 <= x < i ==> r@.contains(#[trigger] a@[x]),
            forall|y: int| 0 <= y < j ==> r@.contains(#[trigger] b@[y]),
        decreases a.len() - i + b.len() - j,
    {
        let ghost r0 = r@;
        if j >= b.len() || (i < a.len() && above(&a[i], &b[j])) {
            r.push(a[i]);
            assert(r@[r0.len() as int] == a@[i as int]);
            i += 1;
        } else {
            r.push(b[j]);
            assert(r@[r0.len() as int] == b@[j as int]);
            j += 1;
        }
        assert forall|k: Key| r0.contains(k) implies #[trigger] r@.contains(k) by {
            let x = choose|x: int| 0 <= x < r0.len() && r0[x] == k;
            assert(r@[x] == k);
        }
    }
    r
}

/// The keys in their order, the topmost first.
pub fn sort(v: &Vec<Key>) -> (r: Vec<Key>)
    requires
        keys_distinct(v@),
    ensures
        keys_sorted(r@),
        r.len() == v.len(),
        same_keys(r@, v@),
{
    sort_range(v, 0, v.len())
}

/// Whether `k` is one of `v[from..to]`.
spec fn among(v: Seq<Key>, from: int, to: int, k: Key) -> bool {
    exists|y: int| from <= y < to && #[trigger] v[y] == k
}

fn sort_range(v: &Vec<Key>, from: usize, to: usize) -> (r: Vec<Key>)
    requires
        from <= to <= v.len(),
        keys_distinct(v@),
    ensures
        keys_sorted(r@),
        r.len() == to - from,
        forall|x: int| 0 <= x < r.len() ==> among(v@, from as int, to as int, #[trigger] r@[x]),
        forall|y: int| from <= y < to ==> r@.contains(#[trigger] v@[y]),
    decreases to - from,
{
    if to - from == 0 {
        Vec::new()
    } else if to - from == 1 {
        let mut r: Vec<Key> = Vec::new();
        r.push(v[from]);
        assert(r@[0] == v@[from as int]);
        r
    } else {
        let mid: usize = from + (to - from) / 2;
        let a = sort_range(v, from, mid);
        let b = sort_range(v, mid, to);
        let r = merge(&a, &b);
        assert forall|x: int| 0 <= x < r.len() implies among(
            v@,
            from as int,
            to as int,
            #[trigger] r@[x],
        ) by {
            assert(r@.contains(r@[x]));
            if a@.contains(r@[x]) {
                let k = choose|k: int| 0 <= k < a.len() && a@[k] == r@[x];
                let y = choose|y: int| from <= y < mid && v@[y] == a@[k];
                assert(v@[y] == r@[x]);
            } else {
                let k = choose|k: int| 0 <= k < b.len() && b@[k] == r@[x];
                let y = choose|y: int| mid <= y < to && v@[y] == b@[k];
                assert(v@[y] == r@[x]);
            }
        }
        assert forall|y: int| from <= y < to implies r@.contains(#[trigger] v@[y]) by {
            if y < mid {
                assert(a@.contains(v@[y]));
            } else {
                assert(b@.contains(v@[y]));
            }
        }
        r
    }
}

/// Whether no two values each stand before the other.
pub open spec fn asymmetric<A>(before: spec_fn(A, A) -> bool) -> bool {
    forall|a: A, b: A| #[trigger] before(a, b) ==> !before(b, a)
}

/// Whether `out` holds the given items, each before all that follow it.
pub open spec fn ranked<A>(out: Seq<A>, items: Seq<A>, before: spec_fn(A, A) -> bool) -> bool {
    &&& forall|a: A| #![auto] out.contains(a) <==> items.contains(a)
    &&& forall|i: int, j: int| 0 <= i < j < out.len() ==> before(#[trigger] out[i], #[trigger] out[j])
}

/// The items in the given order.
pub open spec fn arrangement<A>(items: Seq<A>, before: spec_fn(A, A) -> bool) -> Seq<A> {
    choose|out: Seq<A>| ranked(out, items, before)
}

/// A list has at most one arrangement under an asymmetric order.
pub proof fn lemma_ranked_unique<A>(
    a: Seq<A>,
    b: Seq<A>,
    items: Seq<A>,
    before: spec_fn(A, A) -> bool,
)
    requires
        asymmetric(before),
        ranked(a, items, before),
        ranked(b, items, before),
    ensures
        a == b,
    decreases a.len(),
{
    if a.len() == 0 {
        if b.len() > 0 {
            assert(b.contains(b[0]));
            assert(a.contains(b[0]));
        }
    } else {
        assert(a.contains(a[0]));
        assert(b.contains(a[0]));
        let j = choose|j: int| 0 <= j < b.len() && b[j] == a[0];
        assert(b.contains(b[0]));
        assert(a.contains(b[0]));
        let i = choose|i: int| 0 <= i < a.len() && a[i] == b[0];
        assert(j == 0) by {
            if j > 0 {
                assert(before(b[0], b[j]));
                if i > 0 {
                    assert(before(a[0], a[i]));
                }
            }
        }
        let x = a.skip(1);
        let y = b.skip(1);
        assert forall|k: A| #![auto] x.contains(k) <==> y.contains(k) by {
            lemma_ranked_tail(a, b, k, before);
            lemma_ranked_tail(b, a, k, before);
        }
        assert forall|i: int, j: int| 0 <= i < j < x.len() implies before(#[trigger] x[i], #[trigger] x[j]) by {
            assert(x[i] == a[i + 1] && x[j] == a[j + 1]);
        }
        assert forall|i: int, j: int| 0 <= i < j < y.len() implies before(#[trigger] y[i], #[trigger] y[j]) by {
            assert(y[i] == b[i + 1] && y[j] == b[j + 1]);
        }
        lemma_ranked_unique(x, y, x, before);
        assert(a == seq![a[0]] + x);
        assert(b == seq![b[0]] + y);
    }
}

proof fn lemma_ranked_tail<A>(a: Seq<A>, b: Seq<A>, k: A, before: spec_fn(A, A) -> bool)
    requires
        asymmetric(before),
        a.len() > 0,
        b.len() > 0,
        a[0] == b[0],
        forall|v: A| #![auto] a.contains(v) <==> b.contains(v),
        forall|i: int, j: int| 0 <= i < j < a.len() ==> before(#[trigger] a[i], #[trigger] a[j]),
    ensures
        a.skip(1).contains(k) ==> b.skip(1).contains(k),
{
    if a.skip(1).contains(k) {
        let i = choose|i: int| 0 <= i < a.skip(1).len() && a.skip(1)[i] == k;
        assert(a[i + 1] == k);
        assert(a.contains(k));
        assert(before(a[0], a[i + 1]));
        assert(b.contains(k));
        let j = choose|j: int| 0 <= j < b.len() && b[j] == k;
        if j == 0 {
            assert(before(k, k));
        }
        assert(b.skip(1)[j - 1] == k);
    }
}

/// The arrangement of a list, once one is found.
pub proof fn lemma_arrangement<A>(out: Seq<A>, items: Seq<A>, before: spec_fn(A, A) -> bool)
    requires
        asymmetric(before),
        ranked(out, items, before),
    ensures
        arrangement(items, before) == out,
{
    lemma_ranked_unique(arrangement(items, before), out, items, before);
}

/// The first `n` items, or all of them.
pub open spec fn first_n<A>(s: Seq<A>, n: nat) -> Seq<A> {
    if s.len() <= n {
        s
    } else {
        s.take(n as int)
    }
}

/// Whether what stands before a value stands before all that come after it.
pub open spec fn transitive<A>(before: spec_fn(A, A) -> bool) -> bool {
    forall|a: A, b: A, c: A| #[trigger]
        before(a, b) && #[trigger] before(b, c) ==> before(a, c)
}

/// Whether of any two items one stands before the other.
pub open spec fn comparable<A>(items: Seq<A>, before: spec_fn(A, A) -> bool) -> bool {
    forall|i: int, j: int|
        0 <= i < j < items.len() ==> before(#[trigger] items[i], #[trigger] items[j]) || before(
            items[j],
            items[i],
        )
}

/// How many of the items stand before `a`, counted from the front of a ranked
/// list.
proof fn lemma_place<A>(out: Seq<A>, a: A, before: spec_fn(A, A) -> bool) -> (k: int)
    requires
        transitive(before),
        forall|i: int, j: int|
            0 <= i < j < out.len() ==> before(#[trigger] out[i], #[trigger] out[j]),
        forall|i: int| 0 <= i < out.len() ==> before(#[trigger] out[i], a) || before(a, out[i]),
    ensures
        0 <= k <= out.len(),
        forall|i: int| 0 <= i < k ==> before(#[trigger] out[i], a),
        forall|i: int| k <= i < out.len() ==> before(a, #[trigger] out[i]),
    decreases out.len(),
{
    if out.len() == 0 {
        0
    } else {
        let n = out.len() - 1;
        let front = out.drop_last();
        assert forall|i: int, j: int| 0 <= i < j < front.len() implies before(
            #[trigger] front[i],
            #[trigger] front[j],
        ) by {
            assert(before(out[i], out[j]));
        }
        assert forall|i: int| 0 <= i < front.len() implies before(#[trigger] front[i], a) || before(
            a,
            front[i],
        ) by {
            assert(before(out[i], a) || before(a, out[i]));
        }
        let k = lemma_place(front, a, before);
        if before(out[n], a) {
            assert forall|i: int| 0 <= i < out.len() implies before(#[trigger] out[i], a) by {
                if i < n {
                    assert(before(out[i], out[n]));
                }
            }
            out.len() as int
        } else {
            assert forall|i: int| 0 <= i < k implies before(#[trigger] out[i], a) by {
                assert(before(front[i], a));
            }
            assert forall|i: int| k <= i < out.len() implies before(a, #[trigger] out[i]) by {
                if i < n {
                    assert(before(a, front[i]));
                } else {
                    assert(before(out[n], a) || before(a, out[n]));
                }
            }
            k
        }
    }
}

proof fn lemma_ranked_exists<A>(items: Seq<A>, before: spec_fn(A, A) -> bool) -> (out: Seq<A>)
    requires
        transitive(before),
        comparable(items, before),
    ensures
        ranked(out, items, before),
        out.len() == items.len(),
    decreases items.len(),
{
    if items.len() == 0 {
        items
    } else {
        let n = items.len() - 1;
        let front = items.drop_last();
        let a = items[n];
        assert forall|i: int, j: int| 0 <= i < j < front.len() implies before(
            #[trigger] front[i],
            #[trigger] front[j],
        ) || before(front[j], front[i]) by {
            assert(before(items[i], items[j]) || before(items[j], items[i]));
        }
        let o = lemma_ranked_exists(front, before);
        assert forall|i: int| 0 <= i < o.len() implies before(#[trigger] o[i], a) || before(
            a,
            o[i],
        ) by {
            assert(o.contains(o[i]));
            assert(front.contains(o[i]));
            let k = choose|k: int| 0 <= k < front.len() && front[k] == o[i];
            assert(before(items[k], items[n]) || before(items[n], items[k]));
        }
        let k = lemma_place(o, a, before);
        let out = o.insert(k, a);
        assert forall|i: int, j: int| 0 <= i < j < out.len() implies before(
            #[trigger] out[i],
            #[trigger] out[j],
        ) by {
            let x = if i < k {
                i
            } else {
                i - 1
            };
            let y = if j < k {
                j
            } else {
                j - 1
            };
            if i == k {
                assert(out[j] == o[y]);
            } else if j == k {
                assert(out[i] == o[x]);
            } else {
                assert(out[i] == o[x] && out[j] == o[y]);
                assert(before(o[x], o[y]));
            }
        }
        assert forall|v: A| #![auto] out.contains(v) <==> items.contains(v) by {
            if out.contains(v) {
                let i = choose|i: int| 0 <= i < out.len() && out[i] == v;
                if i == k {
                    assert(items[n] == v);
                } else {
                    let x = if i < k {
                        i
                    } else {
                        i - 1
                    };
                    assert(o[x] == v);
                    assert(o.contains(v));
                    let z = choose|z: int| 0 <= z < front.len() && front[z] == v;
                    assert(items[z] == v);
                }
            }
            if items.contains(v) {
                let i = choose|i: int| 0 <= i < items.len() && items[i] == v;
                if i == n {
                    assert(out[k] == v);
                } else {
                    assert(front[i] == v);
                    assert(front.contains(v));
                    let z = choose|z: int| 0 <= z < o.len() && o[z] == v;
                    let y = if z < k {
                        z
                    } else {
                        z + 1
                    };
                    assert(out[y] == v);
                }
            }
        }
        out
    }
}

/// Items of which any two can be compared have exactly one arrangement, and it
/// is as long as their list.
pub proof fn lemma_arrangement_exists<A>(items: Seq<A>, before: spec_fn(A, A) -> bool)
    requires
        asymmetric(before),
        transitive(before),
        comparable(items, before),
    ensures
        ranked(arrangement(items, before), items, before),
        arrangement(items, before).len() == items.len(),
{
    let out = lemma_ranked_exists(items, before);
    lemma_arrangement(out, items, before);
}

/// The first of a list are a beginning of it, as many as asked for or all.
pub proof fn law_first_n_is_a_beginning<A>(s: Seq<A>, n: nat)
    ensures
        first_n(s, n).len() == if s.len() < n {
            s.len()
        } else {
            n
        },
        forall|i: int| 0 <= i < first_n(s, n).len() ==> #[trigger] first_n(s, n)[i] == s[i],
{
}

} // verus!
