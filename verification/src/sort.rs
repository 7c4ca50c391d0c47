//! A stable sort under a total preorder.
use vstd::prelude::*;

verus! {

/// A way of ordering values of `T`: every two values compare, and the order is
/// transitive; values may tie.
pub trait TotalPreorder<T> {
    /// Whether `a` comes no later than `b`.
    spec fn le(&self, a: T, b: T) -> bool;

    /// Whether `a` comes no later than `b`.
    fn le_exec(&self, a: &T, b: &T) -> (r: bool)
        ensures
            r == self.le(*a, *b),
    ;

    /// Any two values compare.
    proof fn lemma_total(&self, a: T, b: T)
        ensures
            self.le(a, b) || self.le(b, a),
    ;

    /// The order is transitive.
    proof fn lemma_trans(&self, a: T, b: T, c: T)
        requires
            self.le(a, b),
            self.le(b, c),
        ensures
            self.le(a, c),
    ;
}

/// Whether `perm` lists each index below `n` exactly once.
pub open spec fn is_permutation(perm: Seq<int>, n: nat) -> bool {
    &&& perm.len() == n
    &&& forall|k: int| 0 <= k < n ==> 0 <= #[trigger] perm[k] < n
    &&& forall|a: int, b: int| 0 <= a < n && 0 <= b < n && a != b ==> perm[a] != perm[b]
}

/// Whether `s` is in order.
pub open spec fn sorted_by<T, O: TotalPreorder<T>>(o: &O, s: Seq<T>) -> bool {
    forall|i: int, j: int| 0 <= i < j < s.len() ==> o.le(#[trigger] s[i], #[trigger] s[j])
}

/// Whether `r` holds the items of `s` at the places `perm` gives (`r[k]` is `s[perm[k]]`),
/// in order, with tied items in the order they had in `s`: `r` is the stable sort of `s`.
pub open spec fn stable_sort_with<T, O: TotalPreorder<T>>(o: &O, s: Seq<T>, r: Seq<T>, perm: Seq<int>) -> bool {
    &&& is_permutation(perm, s.len())
    &&& r.len() == s.len()
    &&& forall|k: int| 0 <= k < r.len() ==> r[k] == s[#[trigger] perm[k]]
    &&& sorted_by(o, r)
    &&& forall|a: int, b: int|
        0 <= a < b < r.len() && o.le(r[b], r[a]) ==> #[trigger] perm[a] < #[trigger] perm[b]
}

/// Whether `r` is the stable sort of `s`.
pub open spec fn is_stable_sort<T, O: TotalPreorder<T>>(o: &O, s: Seq<T>, r: Seq<T>) -> bool {
    exists|perm: Seq<int>| stable_sort_with(o, s, r, perm)
}

/// Index `i` of `s` goes before index `j` in a stable sort: its item comes strictly
/// earlier, or the items tie and `i` is the smaller index.
pub open spec fn goes_before<T, O: TotalPreorder<T>>(o: &O, s: Seq<T>, i: int, j: int) -> bool {
    (o.le(s[i], s[j]) && !o.le(s[j], s[i])) || (o.le(s[i], s[j]) && o.le(s[j], s[i]) && i < j)
}

proof fn lemma_perm_goes_before<T, O: TotalPreorder<T>>(o: &O, s: Seq<T>, r: Seq<T>, perm: Seq<int>, a: int, b: int)
    requires
        stable_sort_with(o, s, r, perm),
        0 <= a < b < r.len(),
    ensures
        goes_before(o, s, perm[a], perm[b]),
{
    assert(o.le(r[a], r[b]));
    assert(r[a] == s[perm[a]]);
    assert(r[b] == s[perm[b]]);
    if o.le(r[b], r[a]) {
        assert(perm[a] < perm[b]);
    }
}

proof fn lemma_first_difference(p1: Seq<int>, p2: Seq<int>, n: int, k0: int)
    requires
        0 <= k0 < n,
        p1.len() == n,
        p2.len() == n,
        p1[k0] != p2[k0],
    ensures
        exists|k: int| 0 <= k < n && p1[k] != p2[k] && forall|j: int| 0 <= j < k ==> p1[j] == p2[j],
    decreases k0,
{
    if exists|j: int| 0 <= j < k0 && p1[j] != p2[j] {
        let j = choose|j: int| 0 <= j < k0 && p1[j] != p2[j];
        lemma_first_difference(p1, p2, n, j);
    } else {
        assert(forall|j: int| 0 <= j < k0 ==> p1[j] == p2[j]);
    }
}

proof fn lemma_permutation_onto(perm: Seq<int>, n: nat, v: int)
    requires
        is_permutation(perm, n),
        0 <= v < n,
    ensures
        exists|m: int| 0 <= m < n && perm[m] == v,
{
    assert(perm.no_duplicates());
    perm.unique_seq_to_set();
    vstd::set_lib::lemma_int_range(0, n as int);
    let full = vstd::set_lib::set_int_range(0, n as int);
    assert(perm.to_set().subset_of(full)) by {
        assert forall|x: int| perm.to_set().contains(x) implies full.contains(x) by {
            let m = choose|m: int| 0 <= m < perm.len() && perm[m] == x;
            assert(0 <= perm[m] < n);
        }
    }
    vstd::set_lib::lemma_set_subset_finite(full, perm.to_set());
    vstd::set_lib::lemma_subset_equality(perm.to_set(), full);
    assert(full.contains(v));
    assert(perm.to_set().contains(v));
}

/// The stable sort of a sequence is unique.
pub proof fn lemma_stable_sort_unique<T, O: TotalPreorder<T>>(o: &O, s: Seq<T>, r1: Seq<T>, r2: Seq<T>)
    requires
        is_stable_sort(o, s, r1),
        is_stable_sort(o, s, r2),
    ensures
        r1 == r2,
{
    let p1 = choose|p: Seq<int>| stable_sort_with(o, s, r1, p);
    let p2 = choose|p: Seq<int>| stable_sort_with(o, s, r2, p);
    let n = s.len() as int;
    if exists|k: int| 0 <= k < n && p1[k] != p2[k] {
        let k0 = choose|k: int| 0 <= k < n && p1[k] != p2[k];
        lemma_first_difference(p1, p2, n, k0);
        let k = choose|k: int| 0 <= k < n && p1[k] != p2[k] && forall|j: int| 0 <= j < k ==> p1[j] == p2[j];
        let v1 = p1[k];
        let v2 = p2[k];
        lemma_permutation_onto(p1, s.len(), v2);
        lemma_permutation_onto(p2, s.len(), v1);
        let m1 = choose|m: int| 0 <= m < n && p1[m] == v2;
        let m2 = choose|m: int| 0 <= m < n && p2[m] == v1;
        if m1 < k {
            assert(p2[m1] == v2);
        }
        if m2 < k {
            assert(p1[m2] == v1);
        }
        lemma_perm_goes_before(o, s, r1, p1, k, m1);
        lemma_perm_goes_before(o, s, r2, p2, k, m2);
        assert(false);
    }
    assert(p1 =~= p2);
    assert forall|k: int| 0 <= k < r1.len() implies r1[k] == r2[k] by {
        assert(r1[k] == s[p1[k]]);
        assert(r2[k] == s[p2[k]]);
    }
    assert(r1 =~= r2);
}

proof fn lemma_insert_step<T, O: TotalPreorder<T>>(
    o: &O,
    s: Seq<T>,
    old_r: Seq<T>,
    old_perm: Seq<int>,
    x: T,
    p: int,
    i: int,
)
    requires
        0 <= p <= i,
        i < s.len(),
        x == s[i],
        old_r.len() == i,
        old_perm.len() == i,
        forall|k: int| 0 <= k < i ==> 0 <= #[trigger] old_perm[k] < i,
        forall|a: int, b: int| 0 <= a < i && 0 <= b < i && a != b ==> old_perm[a] != old_perm[b],
        forall|k: int| 0 <= k < i ==> old_r[k] == s[#[trigger] old_perm[k]],
        sorted_by(o, old_r),
        forall|a: int, b: int|
            0 <= a < b < i && o.le(old_r[b], old_r[a]) ==> #[trigger] old_perm[a] < #[trigger] old_perm[b],
        forall|k: int| 0 <= k < p ==> o.le(#[trigger] old_r[k], x),
        forall|k: int| p <= k < i ==> !o.le(#[trigger] old_r[k], x),
        forall|k: int| p <= k < i ==> o.le(x, #[trigger] old_r[k]),
    ensures
        ({
            let r = old_r.insert(p, x);
            let perm = old_perm.insert(p, i);
        &&& r.len() == i + 1
        &&& perm.len() == i + 1
        &&& forall|k: int| 0 <= k < i + 1 ==> 0 <= #[trigger] perm[k] < i + 1
        &&& forall|a: int, b: int| 0 <= a < i + 1 && 0 <= b < i + 1 && a != b ==> perm[a] != perm[b]
        &&& forall|k: int| 0 <= k < i + 1 ==> r[k] == s[#[trigger] perm[k]]
        &&& sorted_by(o, r)
        &&& forall|a: int, b: int|
            0 <= a < b < i + 1 && o.le(r[b], r[a]) ==> #[trigger] perm[a] < #[trigger] perm[b]
    }),
{
    let r = old_r.insert(p, x);
    let perm = old_perm.insert(p, i);
    old_r.insert_ensures(p , x);
    old_perm.insert_ensures(p , i );
    assert forall|k: int| 0 <= k < i + 1 implies r[k] == s[#[trigger] perm[k]] by {
        if k < p {
        } else if k > p {
            assert(r[k] == old_r[k - 1]);
            assert(perm[k] == old_perm[k - 1]);
        }
    }
    assert forall|k: int| 0 <= k < i + 1 implies 0 <= #[trigger] perm[k] < i + 1 by {
        if k > p {
            assert(perm[k] == old_perm[k - 1]);
        }
    }
    assert forall|a: int, b: int| 0 <= a < i + 1 && 0 <= b < i + 1 && a != b implies perm[a]
        != perm[b] by {
        let pa = if a < p { a } else if a > p { a - 1 } else { -1 };
        let pb = if b < p { b } else if b > p { b - 1 } else { -1 };
        if a != p && b != p {
            assert(perm[a] == old_perm[pa]);
            assert(perm[b] == old_perm[pb]);
        } else if a == p {
            assert(perm[b] == old_perm[pb]);
        } else {
            assert(perm[a] == old_perm[pa]);
        }
    }
    assert forall|a: int, b: int| 0 <= a < b < r.len() implies o.le(#[trigger] r[a], #[trigger] r[b]) by {
        let pa = if a < p { a } else { a - 1 };
        let pb = if b < p { b } else { b - 1 };
        if a == p {
            assert(r[b] == old_r[pb]);
        } else if b == p {
            assert(r[a] == old_r[pa]);
        } else {
            assert(r[a] == old_r[pa]);
            assert(r[b] == old_r[pb]);
        }
    }
    assert forall|a: int, b: int| 0 <= a < b < i + 1 && o.le(r[b], r[a]) implies #[trigger] perm[a]
        < #[trigger] perm[b] by {
        let pa = if a < p { a } else { a - 1 };
        let pb = if b < p { b } else { b - 1 };
        if a == p {
            assert(r[b] == old_r[pb]);
            assert(!o.le(old_r[pb], x));
        } else if b == p {
            assert(perm[a] == old_perm[pa]);
        } else {
            assert(r[a] == old_r[pa]);
            assert(r[b] == old_r[pb]);
            assert(perm[a] == old_perm[pa]);
            assert(perm[b] == old_perm[pb]);
        }
    }
}

/// Where `x` goes in the sorted `r` when it is to come after every item that ties with
/// it: scanning back from `p`, past the items that come later than `x`.
pub open spec fn insert_point<T, O: TotalPreorder<T>>(o: &O, r: Seq<T>, x: T, p: int) -> int
    decreases p,
{
    if p > 0 && !o.le(r[p - 1], x) {
        insert_point(o, r, x, p - 1)
    } else {
        p
    }
}

proof fn lemma_insert_point<T, O: TotalPreorder<T>>(o: &O, r: Seq<T>, x: T, p: int)
    requires
        0 <= p <= r.len(),
        sorted_by(o, r),
        forall|k: int| p <= k < r.len() ==> !o.le(#[trigger] r[k], x),
    ensures
        0 <= insert_point(o, r, x, p) <= p,
        forall|k: int| insert_point(o, r, x, p) <= k < r.len() ==> !o.le(#[trigger] r[k], x),
        forall|k: int| 0 <= k < insert_point(o, r, x, p) ==> o.le(#[trigger] r[k], x),
    decreases p,
{
    if p > 0 && !o.le(r[p - 1], x) {
        lemma_insert_point(o, r, x, p - 1);
    } else if p > 0 {
        assert forall|k: int| 0 <= k < p implies o.le(#[trigger] r[k], x) by {
            if k < p - 1 {
                o.lemma_trans(r[k], r[p - 1], x);
            }
        }
    }
}

/// The first `i` items of `s` sorted stably, with the places they came from.
proof fn lemma_prefix_sort<T, O: TotalPreorder<T>>(o: &O, s: Seq<T>, i: int) -> (res: (Seq<T>, Seq<int>))
    requires
        0 <= i <= s.len(),
    ensures
        res.0.len() == i,
        res.1.len() == i,
        forall|k: int| 0 <= k < i ==> 0 <= #[trigger] res.1[k] < i,
        forall|a: int, b: int| 0 <= a < i && 0 <= b < i && a != b ==> res.1[a] != res.1[b],
        forall|k: int| 0 <= k < i ==> res.0[k] == s[#[trigger] res.1[k]],
        sorted_by(o, res.0),
        forall|a: int, b: int|
            0 <= a < b < i && o.le(res.0[b], res.0[a]) ==> #[trigger] res.1[a] < #[trigger] res.1[b],
    decreases i,
{
    if i == 0 {
        (seq![], seq![])
    } else {
        let (old_r, old_perm) = lemma_prefix_sort(o, s, i - 1);
        let x = s[i - 1];
        let p = insert_point(o, old_r, x, old_r.len() as int);
        lemma_insert_point(o, old_r, x, old_r.len() as int);
        assert forall|k: int| p <= k < i - 1 implies o.le(x, #[trigger] old_r[k]) by {
            o.lemma_total(x, old_r[k]);
        }
        lemma_insert_step(o, s, old_r, old_perm, x, p, i - 1);
        (old_r.insert(p, x), old_perm.insert(p, i - 1))
    }
}

/// Every sequence has a stable sort.
pub proof fn lemma_stable_sort_exists<T, O: TotalPreorder<T>>(o: &O, s: Seq<T>)
    ensures
        is_stable_sort(o, s, stable_sorted(o, s)),
{
    let (r, perm) = lemma_prefix_sort(o, s, s.len() as int);
    assert(stable_sort_with(o, s, r, perm));
    assert(is_stable_sort(o, s, r));
    assert(exists|r2: Seq<T>| is_stable_sort(o, s, r2));
}

/// The stable sort of `s` in the order `o`.
pub open spec fn stable_sorted<T, O: TotalPreorder<T>>(o: &O, s: Seq<T>) -> Seq<T> {
    choose|r: Seq<T>| is_stable_sort(o, s, r)
}

/// Sorting two sequences that look the same under `f`, in an order that only looks at
/// what `f` shows, gives results that look the same under `f`.
pub proof fn lemma_stable_sorted_views<T, V, O: TotalPreorder<T>>(
    o: &O,
    f: spec_fn(T) -> V,
    s1: Seq<T>,
    s2: Seq<T>,
)
    requires
        s1.map_values(f) == s2.map_values(f),
        forall|a: T, b: T, c: T, d: T|
            f(a) == f(c) && f(b) == f(d) ==> #[trigger] o.le(a, b) == #[trigger] o.le(c, d),
        is_stable_sort(o, s1, stable_sorted(o, s1)),
    ensures
        stable_sorted(o, s1).map_values(f) == stable_sorted(o, s2).map_values(f),
        is_stable_sort(o, s2, stable_sorted(o, s2)),
{
    let r1 = stable_sorted(o, s1);
    let p1 = choose|p: Seq<int>| stable_sort_with(o, s1, r1, p);
    let n = s1.len();
    assert(s1.map_values(f).len() == s1.len());
    assert(s2.map_values(f).len() == s2.len());
    assert(s2.len() == n);
    assert(stable_sort_with(o, s1, r1, p1));
    let r2 = Seq::new(n, |k: int| s2[p1[k]]);
    assert forall|k: int| 0 <= k < n implies f(#[trigger] r2[k]) == f(r1[k]) by {
        assert(0 <= p1[k] < n);
        assert(r1[k] == s1[p1[k]]);
        assert(r2[k] == s2[p1[k]]);
        assert(s1.map_values(f)[p1[k]] == f(s1[p1[k]]));
        assert(s2.map_values(f)[p1[k]] == f(s2[p1[k]]));
    }
    assert forall|a: int, b: int| 0 <= a < b < r2.len() implies o.le(#[trigger] r2[a], #[trigger] r2[b]) by {
        assert(f(r2[a]) == f(r1[a]));
        assert(f(r2[b]) == f(r1[b]));
        assert(o.le(r1[a], r1[b]));
    }
    assert forall|a: int, b: int| 0 <= a < b < r2.len() && o.le(r2[b], r2[a]) implies #[trigger] p1[a]
        < #[trigger] p1[b] by {
        assert(f(r2[a]) == f(r1[a]));
        assert(f(r2[b]) == f(r1[b]));
        assert(o.le(r1[b], r1[a]));
    }
    assert(stable_sort_with(o, s2, r2, p1));
    assert(is_stable_sort(o, s2, r2));
    lemma_stable_sort_unique(o, s2, r2, stable_sorted(o, s2));
    assert(r1.map_values(f) =~= r2.map_values(f));
}

/// A sequence that lists the items of `x` at the places `perm` gives holds the same
/// items as `x`, each as often.
pub proof fn lemma_permuted_multiset<A>(x: Seq<A>, y: Seq<A>, perm: Seq<int>)
    requires
        is_permutation(perm, x.len()),
        y.len() == x.len(),
        forall|k: int| 0 <= k < y.len() ==> y[k] == x[#[trigger] perm[k]],
    ensures
        y.to_multiset() == x.to_multiset(),
    decreases x.len(),
{
    broadcast use vstd::seq_lib::group_to_multiset_ensures;
    broadcast use vstd::multiset::group_multiset_axioms;

    let n = x.len() as int;
    if n == 0 {
        assert(x =~= Seq::<A>::empty());
        assert(y =~= Seq::<A>::empty());
    } else {
        let p = perm[n - 1];
        let x2 = x.remove(p);
        let y2 = y.drop_last();
        let perm2 = Seq::new((n - 1) as nat, |k: int| if perm[k] < p { perm[k] } else { perm[k] - 1 });
        assert forall|k: int| 0 <= k < n - 1 implies 0 <= #[trigger] perm2[k] < n - 1 by {
            assert(perm[k] != perm[n - 1]);
        }
        assert forall|a: int, b: int| 0 <= a < n - 1 && 0 <= b < n - 1 && a != b implies perm2[a]
            != perm2[b] by {
            assert(perm[a] != perm[b]);
            assert(perm[a] != perm[n - 1]);
            assert(perm[b] != perm[n - 1]);
        }
        assert forall|k: int| 0 <= k < y2.len() implies y2[k] == x2[#[trigger] perm2[k]] by {
            assert(y[k] == x[perm[k]]);
            assert(perm[k] != perm[n - 1]);
        }
        lemma_permuted_multiset(x2, y2, perm2);
        assert(y =~= y2.push(y[n - 1]));
        assert(y[n - 1] == x[p]);
        assert(x.to_multiset().count(x[p]) > 0) by {
            assert(x.contains(x[p]));
        }
        assert(x.to_multiset() =~= x.to_multiset().remove(x[p]).insert(x[p]));
    }
}

/// A stable sort keeps the items it sorts, each as often, seen through any `f`.
pub proof fn lemma_stable_sort_multiset<T, V, O: TotalPreorder<T>>(
    o: &O,
    f: spec_fn(T) -> V,
    s: Seq<T>,
    r: Seq<T>,
)
    requires
        is_stable_sort(o, s, r),
    ensures
        r.map_values(f).to_multiset() == s.map_values(f).to_multiset(),
{
    let perm = choose|p: Seq<int>| stable_sort_with(o, s, r, p);
    assert forall|k: int| 0 <= k < r.len() implies r.map_values(f)[k] == s.map_values(f)[
        #[trigger] perm[k]] by {
        assert(r[k] == s[perm[k]]);
    }
    lemma_permuted_multiset(s.map_values(f), r.map_values(f), perm);
}

/// Sorting what is already sorted changes nothing.
pub proof fn lemma_stable_sorted_twice<T, O: TotalPreorder<T>>(o: &O, s: Seq<T>)
    ensures
        stable_sorted(o, stable_sorted(o, s)) == stable_sorted(o, s),
{
    lemma_stable_sort_exists(o, s);
    let r = stable_sorted(o, s);
    let p = choose|p: Seq<int>| stable_sort_with(o, s, r, p);
    assert(stable_sort_with(o, s, r, p));
    let id = Seq::new(r.len(), |k: int| k);
    assert(stable_sort_with(o, r, r, id));
    lemma_stable_sort_exists(o, r);
    lemma_stable_sort_unique(o, r, r, stable_sorted(o, r));
}

/// Sorts `v` stably in the order `o`: items come out in order, tied items in the order
/// they came in.
pub fn stable_sort<T, O: TotalPreorder<T>>(v: Vec<T>, o: &O) -> (r: Vec<T>)
    ensures
        is_stable_sort(o, v@, r@),
        r@ == stable_sorted(o, v@),
{
    let ghost s = v@;
    let n = v.len();
    assert(s.len() == n);
    let mut v = v;
    let mut taken: Vec<T> = Vec::new();
    // Move the items out in reverse so that each can be popped in order.
    while v.len() > 0
        invariant
            s.len() == v.len() + taken.len(),
            s.len() <= usize::MAX,
            forall|k: int| 0 <= k < v.len() ==> v@[k] == s[k],
            forall|k: int| 0 <= k < taken.len() ==> taken@[k] == s[s.len() - 1 - k],
        decreases v.len(),
    {
        let x = v.pop().unwrap();
        taken.push(x);
    }
    let mut r: Vec<T> = Vec::new();
    let ghost mut perm: Seq<int> = seq![];
    let mut i: usize = 0;
    while taken.len() > 0
        invariant
            i + taken.len() == s.len(),
            s.len() <= usize::MAX,
            forall|k: int| 0 <= k < taken.len() ==> taken@[k] == s[s.len() - 1 - k],
            r.len() == i,
            perm.len() == i,
            forall|k: int| 0 <= k < i ==> 0 <= #[trigger] perm[k] < i,
            forall|a: int, b: int| 0 <= a < i && 0 <= b < i && a != b ==> perm[a] != perm[b],
            forall|k: int| 0 <= k < i ==> r@[k] == s[#[trigger] perm[k]],
            sorted_by(o, r@),
            forall|a: int, b: int|
                0 <= a < b < i && o.le(r@[b], r@[a]) ==> #[trigger] perm[a] < #[trigger] perm[b],
        decreases taken.len(),
    {
        let x = taken.pop().unwrap();
        assert(x == s[i as int]);
        let mut p = r.len();
        while p > 0 && !o.le_exec(&r[p - 1], &x)
            invariant
                p <= r.len(),
                forall|k: int| p <= k < r.len() ==> !o.le(#[trigger] r@[k], x),
            decreases p,
        {
            p = p - 1;
        }
        proof {
            // every item before the insertion point comes no later than x
            assert forall|k: int| 0 <= k < p implies o.le(#[trigger] r@[k], x) by {
                if p > 0 {
                    assert(o.le(r@[p - 1], x));
                    if k < p - 1 {
                        o.lemma_trans(r@[k], r@[p - 1], x);
                    }
                }
            }
            assert forall|k: int| p <= k < r.len() implies o.le(x, #[trigger] r@[k]) by {
                o.lemma_total(x, r@[k]);
            }
        }
        let ghost old_r = r@;
        let ghost old_perm = perm;
        r.insert(p, x);
        proof {
            perm = old_perm.insert(p as int, i as int);
            lemma_insert_step(o, s, old_r, old_perm, x, p as int, i as int);
        }
        i = i + 1;
    }
    assert(stable_sort_with(o, s, r@, perm));
    assert(is_stable_sort(o, s, r@));
    proof {
        lemma_stable_sort_unique(o, s, r@, stable_sorted(o, s));
    }
    r
}

} // verus!
