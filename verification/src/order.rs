//! Sorting the places of a list by any total order, and texts by the dictionary's.

use vstd::multiset::Multiset;
use vstd::prelude::*;
use vstd::relations::{sorted_by, total_ordering};
use vstd::seq_lib::lemma_sorted_unique;

use crate::text::{
    lemma_seq_le_antisymmetric, lemma_seq_le_reflexive, lemma_seq_le_total,
    lemma_seq_le_transitive, same, seq_le, text_le, views,
};

verus! {

/// The places `0, 1, .. n - 1`.
pub open spec fn places(n: nat) -> Seq<int> {
    Seq::new(n, |i: int| i)
}

/// Machine numbers as integers.
pub open spec fn ints(v: Seq<usize>) -> Seq<int> {
    v.map_values(|u: usize| u as int)
}

/// The places `0, 1, .. n - 1` in the order `leq`.
pub open spec fn sorted_places(n: nat, leq: spec_fn(int, int) -> bool) -> Seq<int> {
    places(n).sort_by(leq)
}

/// The places `lo .. hi`.
spec fn place_range(lo: int, hi: int) -> Seq<int> {
    Seq::new((hi - lo) as nat, |i: int| lo + i)
}

/// `le` decides `leq` on the places below `n`.
pub open spec fn decides<F: Fn(usize, usize) -> bool>(
    le: F,
    leq: spec_fn(int, int) -> bool,
    n: nat,
) -> bool {
    &&& forall|a: usize, b: usize| a < n && b < n ==> #[trigger] le.requires((a, b))
    &&& forall|a: usize, b: usize, r: bool|
        a < n && b < n && #[trigger] le.ensures((a, b), r) ==> r == leq(a as int, b as int)
}

proof fn lemma_push_ints(v: Seq<usize>, x: usize)
    ensures
        ints(v.push(x)) == ints(v).push(x as int),
        ints(v.push(x)).to_multiset() == ints(v).to_multiset().insert(x as int),
{
    broadcast use vstd::seq_lib::group_to_multiset_ensures;

    assert(ints(v.push(x)) =~= ints(v).push(x as int));
}

/// Merges two sorted lists of places.
fn merge<F: Fn(usize, usize) -> bool>(
    left: &Vec<usize>,
    right: &Vec<usize>,
    le: &F,
    Ghost(leq): Ghost<spec_fn(int, int) -> bool>,
    Ghost(n): Ghost<nat>,
) -> (out: Vec<usize>)
    requires
        total_ordering(leq),
        decides(*le, leq, n),
        sorted_by(ints(left@), leq),
        sorted_by(ints(right@), leq),
        left.len() + right.len() <= usize::MAX,
        forall|i: int| 0 <= i < left.len() ==> #[trigger] left@[i] < n,
        forall|i: int| 0 <= i < right.len() ==> #[trigger] right@[i] < n,
    ensures
        sorted_by(ints(out@), leq),
        ints(out@).to_multiset() == ints(left@).to_multiset().add(ints(right@).to_multiset()),
        forall|i: int| 0 <= i < out.len() ==> #[trigger] out@[i] < n,
        out.len() == left.len() + right.len(),
{
    let mut out: Vec<usize> = Vec::new();
    let mut i: usize = 0;
    let mut j: usize = 0;
    proof {
        assert(left@.take(0) =~= Seq::empty());
        assert(right@.take(0) =~= Seq::empty());
        assert(ints(Seq::<usize>::empty()) =~= Seq::<int>::empty());
        assert(ints(out@) =~= Seq::<int>::empty());
        broadcast use vstd::seq_lib::group_to_multiset_ensures;

        assert(Seq::<int>::empty().to_multiset() =~= Multiset::<int>::empty());
        assert(Multiset::<int>::empty().add(Multiset::<int>::empty()) =~= Multiset::<int>::empty());
    }
    while i < left.len() || j < right.len()
        invariant
            i <= left.len(),
            j <= right.len(),
            left.len() + right.len() <= usize::MAX,
            out.len() == i + j,
            total_ordering(leq),
            decides(*le, leq, n),
            sorted_by(ints(left@), leq),
            sorted_by(ints(right@), leq),
            forall|k: int| 0 <= k < left.len() ==> #[trigger] left@[k] < n,
            forall|k: int| 0 <= k < right.len() ==> #[trigger] right@[k] < n,
            forall|k: int| 0 <= k < out.len() ==> #[trigger] out@[k] < n,
            sorted_by(ints(out@), leq),
            forall|k: int, l: int|
                0 <= k < out.len() && i <= l < left.len() ==> leq(
                    #[trigger] ints(out@)[k],
                    #[trigger] ints(left@)[l],
                ),
            forall|k: int, l: int|
                0 <= k < out.len() && j <= l < right.len() ==> leq(
                    #[trigger] ints(out@)[k],
                    #[trigger] ints(right@)[l],
                ),
            ints(out@).to_multiset() == ints(left@.take(i as int)).to_multiset().add(
                ints(right@.take(j as int)).to_multiset(),
            ),
        decreases left.len() - i + right.len() - j,
    {
        let from_left = if i == left.len() {
            false
        } else if j == right.len() {
            true
        } else {
            le(left[i], right[j])
        };
        let ghost before = out@;
        if from_left {
            let x: usize = left[i];
            out.push(x);
            proof {
                lemma_push_ints(before, x);
                lemma_push_ints(left@.take(i as int), x);
                assert(left@.take(i + 1) =~= left@.take(i as int).push(x));
                assert(ints(left@)[i as int] == x as int);
                assert forall|l: int| j <= l < right.len() implies leq(
                    x as int,
                    #[trigger] ints(right@)[l],
                ) by {
                    assert(leq(x as int, ints(right@)[j as int]));
                    if l > j {
                        assert(leq(ints(right@)[j as int], ints(right@)[l]));
                    }
                }
                assert forall|l: int| i < l < left.len() implies leq(
                    x as int,
                    #[trigger] ints(left@)[l],
                ) by {}
                assert(ints(out@).to_multiset() =~= ints(left@.take(i + 1)).to_multiset().add(
                    ints(right@.take(j as int)).to_multiset(),
                ));
            }
            i += 1;
        } else {
            let x: usize = right[j];
            out.push(x);
            proof {
                lemma_push_ints(before, x);
                lemma_push_ints(right@.take(j as int), x);
                assert(right@.take(j + 1) =~= right@.take(j as int).push(x));
                assert(ints(right@)[j as int] == x as int);
                assert forall|l: int| i <= l < left.len() implies leq(
                    x as int,
                    #[trigger] ints(left@)[l],
                ) by {
                    assert(leq(x as int, ints(left@)[i as int]) || leq(
                        ints(left@)[i as int],
                        x as int,
                    ));
                    assert(leq(x as int, ints(left@)[i as int]));
                    if l > i {
                        assert(leq(ints(left@)[i as int], ints(left@)[l]));
                    }
                }
                assert forall|l: int| j < l < right.len() implies leq(
                    x as int,
                    #[trigger] ints(right@)[l],
                ) by {}
                assert(ints(out@).to_multiset() =~= ints(left@.take(i as int)).to_multiset().add(
                    ints(right@.take(j + 1)).to_multiset(),
                ));
            }
            j += 1;
        }
    }
    assert(left@.take(left@.len() as int) =~= left@);
    assert(right@.take(right@.len() as int) =~= right@);
    out
}

/// Sorts the places `lo .. hi`.
fn sort_range<F: Fn(usize, usize) -> bool>(
    lo: usize,
    hi: usize,
    le: &F,
    Ghost(leq): Ghost<spec_fn(int, int) -> bool>,
    Ghost(n): Ghost<nat>,
) -> (out: Vec<usize>)
    requires
        lo <= hi <= n,
        total_ordering(leq),
        decides(*le, leq, n),
    ensures
        sorted_by(ints(out@), leq),
        ints(out@).to_multiset() == place_range(lo as int, hi as int).to_multiset(),
        forall|i: int| 0 <= i < out.len() ==> #[trigger] out@[i] < n,
        out.len() == hi - lo,
    decreases hi - lo,
{
    if hi - lo <= 1 {
        let mut out: Vec<usize> = Vec::new();
        if lo < hi {
            out.push(lo);
        }
        assert(ints(out@) =~= place_range(lo as int, hi as int));
        return out;
    }
    let mid: usize = lo + (hi - lo) / 2;
    let left = sort_range(lo, mid, le, Ghost(leq), Ghost(n));
    let right = sort_range(mid, hi, le, Ghost(leq), Ghost(n));
    proof {
        let a = place_range(lo as int, mid as int);
        let b = place_range(mid as int, hi as int);
        assert(place_range(lo as int, hi as int) =~= a + b);
        vstd::seq_lib::lemma_multiset_commutative(a, b);
    }
    merge(&left, &right, le, Ghost(leq), Ghost(n))
}

/// The places below `n` in the order that `le` decides.
pub fn sort_places<F: Fn(usize, usize) -> bool>(
    n: usize,
    le: F,
    Ghost(leq): Ghost<spec_fn(int, int) -> bool>,
) -> (out: Vec<usize>)
    requires
        total_ordering(leq),
        decides(le, leq, n as nat),
    ensures
        ints(out@) == sorted_places(n as nat, leq),
        out.len() == n,
        forall|i: int| 0 <= i < out.len() ==> #[trigger] out@[i] < n,
{
    let out = sort_range(0, n, &le, Ghost(leq), Ghost(n as nat));
    proof {
        assert(place_range(0, n as int) =~= places(n as nat));
        places(n as nat).lemma_sort_by_ensures(leq);
        lemma_sorted_unique(ints(out@), sorted_places(n as nat, leq), leq);
    }
    out
}

/// Sorting the places keeps every place, once, and puts them in order.
pub proof fn law_sorted_places(n: nat, leq: spec_fn(int, int) -> bool)
    requires
        total_ordering(leq),
    ensures
        sorted_by(sorted_places(n, leq), leq),
        sorted_places(n, leq).to_multiset() == places(n).to_multiset(),
        sorted_places(n, leq).len() == n,
        forall|i: int| 0 <= i < n ==> 0 <= #[trigger] sorted_places(n, leq)[i] < n,
        forall|p: int| 0 <= p < n ==> #[trigger] sorted_places(n, leq).contains(p),
        sorted_places(n, leq).no_duplicates(),
{
    broadcast use vstd::seq_lib::group_to_multiset_ensures;

    let s = sorted_places(n, leq);
    places(n).lemma_sort_by_ensures(leq);
    assert(s.len() == s.to_multiset().len());
    assert(places(n).len() == places(n).to_multiset().len());
    assert forall|i: int| 0 <= i < n implies 0 <= #[trigger] s[i] < n by {
        assert(s.contains(s[i]));
        assert(places(n).contains(s[i]));
    }
    assert forall|p: int| 0 <= p < n implies #[trigger] s.contains(p) by {
        assert(places(n)[p] == p);
        assert(places(n).contains(p));
        assert(places(n).to_multiset().count(p) > 0);
        assert(s.to_multiset().count(p) > 0);
    }
    assert(places(n).no_duplicates());
    places(n).lemma_multiset_has_no_duplicates();
    s.lemma_multiset_has_no_duplicates_conv();
}

/// The places that `f` wants, in their order.
pub open spec fn kept(places: Seq<int>, f: spec_fn(int) -> bool) -> Seq<int>
    decreases places.len(),
{
    if places.len() == 0 {
        Seq::empty()
    } else {
        let before = kept(places.drop_last(), f);
        if f(places.last()) {
            before.push(places.last())
        } else {
            before
        }
    }
}

/// Keeping the wanted places keeps exactly those, and their order.
pub proof fn lemma_kept(places: Seq<int>, f: spec_fn(int) -> bool, leq: spec_fn(int, int) -> bool)
    ensures
        forall|k: int|
            0 <= k < kept(places, f).len() ==> f(#[trigger] kept(places, f)[k]) && places.contains(
                kept(places, f)[k],
            ),
        forall|p: int| places.contains(p) && f(p) ==> #[trigger] kept(places, f).contains(p),
        kept(places, f).len() <= places.len(),
        places.no_duplicates() ==> kept(places, f).no_duplicates(),
        sorted_by(places, leq) ==> sorted_by(kept(places, f), leq),
    decreases places.len(),
{
    let all = kept(places, f);
    if places.len() > 0 {
        let rest = places.drop_last();
        let before = kept(rest, f);
        lemma_kept(rest, f, leq);
        assert forall|k: int| 0 <= k < all.len() implies f(#[trigger] all[k]) && places.contains(
            all[k],
        ) by {
            if k < before.len() {
                assert(all[k] == before[k]);
                assert(places[rest.index_of(all[k])] == all[k]);
            } else {
                assert(places[places.len() - 1] == all[k]);
            }
        }
        assert forall|p: int| places.contains(p) && f(p) implies #[trigger] all.contains(p) by {
            let i = places.index_of(p);
            if i < rest.len() {
                assert(rest[i] == p);
                assert(before.contains(p));
                assert(all[before.index_of(p)] == p);
            } else {
                assert(all[all.len() - 1] == p);
            }
        }
        if places.no_duplicates() {
            assert forall|i: int, j: int| 0 <= i < all.len() && 0 <= j < all.len() && i
                != j implies all[i] != all[j] by {
                if i < before.len() && j < before.len() {
                    assert(before[i] != before[j]);
                } else if i < before.len() {
                    assert(before[i] == rest[rest.index_of(before[i])]);
                } else {
                    assert(before[j] == rest[rest.index_of(before[j])]);
                }
            }
        }
        if sorted_by(places, leq) {
            assert forall|i: int, j: int| 0 <= i < j < rest.len() implies #[trigger] leq(
                rest[i],
                rest[j],
            ) by {
                assert(leq(places[i], places[j]));
            }
            assert forall|i: int, j: int| 0 <= i < j < all.len() implies #[trigger] leq(
                all[i],
                all[j],
            ) by {
                if j < before.len() {
                    assert(leq(before[i], before[j]));
                } else {
                    let k = rest.index_of(before[i]);
                    assert(leq(places[k], places[places.len() - 1]));
                }
            }
        }
    }
}

/// Where every place is wanted, all are kept.
pub proof fn lemma_all_kept(places: Seq<int>, f: spec_fn(int) -> bool)
    requires
        forall|p: int| #[trigger] f(p),
    ensures
        kept(places, f) == places,
    decreases places.len(),
{
    if places.len() > 0 {
        lemma_all_kept(places.drop_last(), f);
        assert(f(places.last()));
        assert(places.drop_last().push(places.last()) =~= places);
    } else {
        assert(places =~= Seq::empty());
    }
}

/// The dictionary's order of the places of texts; equal texts keep their order.
pub open spec fn name_leq(names: Seq<Seq<char>>) -> spec_fn(int, int) -> bool {
    |i: int, j: int|
        if names[i] != names[j] {
            seq_le(names[i], names[j])
        } else {
            i <= j
        }
}

/// The places of texts in the dictionary's order.
pub open spec fn by_name(names: Seq<Seq<char>>) -> Seq<int> {
    sorted_places(names.len(), name_leq(names))
}

/// The dictionary's order of places is total.
pub proof fn lemma_name_order(names: Seq<Seq<char>>)
    ensures
        total_ordering(name_leq(names)),
{
    let leq = name_leq(names);
    assert forall|x: int, y: int| #[trigger] leq(x, y) && #[trigger] leq(y, x) implies x == y by {
        if names[x] != names[y] {
            lemma_seq_le_antisymmetric(names[x], names[y]);
        }
    }
    assert forall|x: int, y: int| #[trigger] leq(x, y) || #[trigger] leq(y, x) by {
        lemma_seq_le_total(names[x], names[y]);
    }
    assert forall|x: int, y: int, z: int| #[trigger]
        leq(x, y) && #[trigger] leq(y, z) implies leq(x, z) by {
        lemma_seq_le_reflexive(names[x]);
        lemma_seq_le_reflexive(names[y]);
        if seq_le(names[x], names[y]) && seq_le(names[y], names[z]) {
            lemma_seq_le_transitive(names[x], names[y], names[z]);
        }
        if names[x] == names[z] && names[x] != names[y] {
            lemma_seq_le_antisymmetric(names[x], names[y]);
        }
    }
}

/// The places of the texts in the dictionary's order.
pub fn sort_texts(v: &Vec<String>) -> (r: Vec<usize>)
    ensures
        ints(r@) == by_name(views(v@)),
        r.len() == v.len(),
        forall|i: int| 0 <= i < r.len() ==> #[trigger] r@[i] < v.len(),
{
    proof {
        lemma_name_order(views(v@));
    }
    let le = |i: usize, j: usize| -> (b: bool)
        requires
            i < v.len(),
            j < v.len(),
        ensures
            b == (name_leq(views(v@)))(i as int, j as int),
        {
            let a = v[i].as_str();
            let b = v[j].as_str();
            if !same(a, b) {
                text_le(a, b)
            } else {
                i <= j
            }
        };
    sort_places(v.len(), le, Ghost(name_leq(views(v@))))
}

/// Texts in the dictionary's order: each is there as often as before, and none stands before
/// one that it goes behind.
pub proof fn law_texts_by_name(names: Seq<Seq<char>>)
    ensures
        ({
            let got = by_name(names).map_values(|i: int| names[i]);
            &&& got.len() == names.len()
            &&& forall|i: int, j: int|
                0 <= i < j < got.len() ==> #[trigger] got[i] == #[trigger] got[j] || seq_le(
                    got[i],
                    got[j],
                )
            &&& forall|n: Seq<char>| names.contains(n) ==> #[trigger] got.contains(n)
        }),
{
    lemma_name_order(names);
    law_sorted_places(names.len(), name_leq(names));
    let order = by_name(names);
    let got = order.map_values(|i: int| names[i]);
    assert forall|i: int, j: int| 0 <= i < j < got.len() implies #[trigger] got[i]
        == #[trigger] got[j] || seq_le(got[i], got[j]) by {
        assert(name_leq(names)(order[i], order[j]));
    }
    assert forall|n: Seq<char>| names.contains(n) implies #[trigger] got.contains(n) by {
        let p = choose|p: int| 0 <= p < names.len() && names[p] == n;
        assert(order.contains(p));
        let k = choose|k: int| 0 <= k < order.len() && order[k] == p;
        assert(got[k] == n);
    }
}

} // verus!
