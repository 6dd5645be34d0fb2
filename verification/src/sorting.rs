//! Stable ascending sort by an integer key, specified as repeated ordered
//! insertion, together with the laws callers rely on: the result is
//! sorted, it is a permutation of the input, and items with equal keys
//! keep their relative order.

use vstd::prelude::*;

verus! {

/// Insertion into an ascending-sorted sequence: `x` is placed after every
/// element whose key is at most `key(x)` and before every element whose
/// key is strictly greater.
pub open spec fn insert_by<A>(s: Seq<A>, x: A, key: spec_fn(A) -> int) -> Seq<A>
    decreases s.len(),
{
    if s.len() == 0 {
        seq![x]
    } else if key(s.last()) <= key(x) {
        s.push(x)
    } else {
        insert_by(s.drop_last(), x, key).push(s.last())
    }
}

/// Stable ascending sort by key: every element of `s`, in order, inserted
/// into the sorted result so far.
pub open spec fn sort_by_key<A>(s: Seq<A>, key: spec_fn(A) -> int) -> Seq<A>
    decreases s.len(),
{
    if s.len() == 0 {
        Seq::empty()
    } else {
        insert_by(sort_by_key(s.drop_last(), key), s.last(), key)
    }
}

/// Ascending order by key.
pub open spec fn sorted_by<A>(s: Seq<A>, key: spec_fn(A) -> int) -> bool {
    forall|i: int, j: int| 0 <= i < j < s.len() ==> key(s[i]) <= key(s[j])
}

pub proof fn lemma_insert_by_len<A>(s: Seq<A>, x: A, key: spec_fn(A) -> int)
    ensures
        insert_by(s, x, key).len() == s.len() + 1,
    decreases s.len(),
{
    if s.len() > 0 && !(key(s.last()) <= key(x)) {
        lemma_insert_by_len(s.drop_last(), x, key);
    }
}

pub proof fn lemma_sort_by_key_len<A>(s: Seq<A>, key: spec_fn(A) -> int)
    ensures
        sort_by_key(s, key).len() == s.len(),
    decreases s.len(),
{
    if s.len() > 0 {
        lemma_sort_by_key_len(s.drop_last(), key);
        lemma_insert_by_len(sort_by_key(s.drop_last(), key), s.last(), key);
    }
}

/// Where the insertion lands in a sorted sequence: if the first `p`
/// elements have keys at most `key(x)` and the rest have strictly greater
/// keys, then inserting `x` puts it exactly at index `p`.
pub proof fn lemma_insert_by_at<A>(s: Seq<A>, x: A, key: spec_fn(A) -> int, p: int)
    requires
        0 <= p <= s.len(),
        forall|i: int| 0 <= i < p ==> key(s[i]) <= key(x),
        forall|i: int| p <= i < s.len() ==> key(s[i]) > key(x),
    ensures
        insert_by(s, x, key) == s.insert(p, x),
    decreases s.len(),
{
    if s.len() == 0 {
        assert(insert_by(s, x, key) =~= s.insert(0, x));
    } else if key(s.last()) <= key(x) {
        assert(p == s.len());
        assert(insert_by(s, x, key) =~= s.insert(p, x));
    } else {
        assert(p < s.len());
        let d = s.drop_last();
        assert forall|i: int| 0 <= i < p implies key(d[i]) <= key(x) by {
            assert(d[i] == s[i]);
        }
        assert forall|i: int| p <= i < d.len() implies key(d[i]) > key(x) by {
            assert(d[i] == s[i]);
        }
        lemma_insert_by_at(d, x, key, p);
        assert(insert_by(s, x, key) =~= s.insert(p, x));
    }
}

/// Inserting into a sorted sequence keeps it sorted.
pub proof fn lemma_insert_by_sorted<A>(s: Seq<A>, x: A, key: spec_fn(A) -> int)
    requires
        sorted_by(s, key),
    ensures
        sorted_by(insert_by(s, x, key), key),
    decreases s.len(),
{
    let r = insert_by(s, x, key);
    lemma_insert_by_len(s, x, key);
    if s.len() == 0 {
    } else if key(s.last()) <= key(x) {
        assert forall|i: int, j: int| 0 <= i < j < r.len() implies key(r[i]) <= key(r[j]) by {
            if j < s.len() {
            } else {
                assert(r[j] == x);
                if i < s.len() {
                    assert(key(s[i]) <= key(s.last()));
                }
            }
        }
    } else {
        let d = s.drop_last();
        assert forall|i: int, j: int| 0 <= i < j < d.len() implies key(d[i]) <= key(d[j]) by {
            assert(d[i] == s[i]);
            assert(d[j] == s[j]);
        }
        lemma_insert_by_sorted(d, x, key);
        lemma_insert_by_len(d, x, key);
        let rd = insert_by(d, x, key);
        lemma_insert_by_elements(d, x, key);
        assert forall|i: int, j: int| 0 <= i < j < r.len() implies key(r[i]) <= key(r[j]) by {
            if j < r.len() - 1 {
                assert(r[i] == rd[i]);
                assert(r[j] == rd[j]);
            } else {
                assert(r[j] == s.last());
                assert(r[i] == rd[i]);
                if rd[i] == x {
                } else {
                    let k = choose|k: int| 0 <= k < d.len() && rd[i] == d[k];
                    assert(d[k] == s[k]);
                    assert(key(s[k]) <= key(s.last()));
                }
            }
        }
    }
}

/// Every element of the insertion result is either `x` or an element of
/// `s` (stated positionally to feed later inductions).
pub proof fn lemma_insert_by_elements<A>(s: Seq<A>, x: A, key: spec_fn(A) -> int)
    ensures
        forall|i: int| 0 <= i < insert_by(s, x, key).len()
            ==> (#[trigger] insert_by(s, x, key)[i] == x
                || exists|k: int| 0 <= k < s.len() && insert_by(s, x, key)[i] == s[k]),
    decreases s.len(),
{
    let r = insert_by(s, x, key);
    lemma_insert_by_len(s, x, key);
    if s.len() == 0 {
    } else if key(s.last()) <= key(x) {
        assert forall|i: int| 0 <= i < r.len() implies (#[trigger] r[i] == x
            || exists|k: int| 0 <= k < s.len() && r[i] == s[k]) by {
            if i < s.len() {
                assert(r[i] == s[i]);
            }
        }
    } else {
        let d = s.drop_last();
        lemma_insert_by_elements(d, x, key);
        let rd = insert_by(d, x, key);
        lemma_insert_by_len(d, x, key);
        assert forall|i: int| 0 <= i < r.len() implies (#[trigger] r[i] == x
            || exists|k: int| 0 <= k < s.len() && r[i] == s[k]) by {
            if i < r.len() - 1 {
                assert(r[i] == rd[i]);
                if rd[i] != x {
                    let k = choose|k: int| 0 <= k < d.len() && rd[i] == d[k];
                    assert(r[i] == s[k]);
                }
            } else {
                assert(r[i] == s[s.len() - 1]);
            }
        }
    }
}

/// Sorting yields a sorted sequence.
pub proof fn lemma_sort_by_key_sorted<A>(s: Seq<A>, key: spec_fn(A) -> int)
    ensures
        sorted_by(sort_by_key(s, key), key),
    decreases s.len(),
{
    if s.len() > 0 {
        lemma_sort_by_key_sorted(s.drop_last(), key);
        lemma_insert_by_sorted(sort_by_key(s.drop_last(), key), s.last(), key);
    }
}

/// The sum of the keys of a sequence.
pub open spec fn sum_keys<A>(s: Seq<A>, key: spec_fn(A) -> int) -> int
    decreases s.len(),
{
    if s.len() == 0 {
        0
    } else {
        sum_keys(s.drop_last(), key) + key(s.last())
    }
}

proof fn lemma_insert_by_sum<A>(s: Seq<A>, x: A, key: spec_fn(A) -> int, m: spec_fn(A) -> int)
    ensures
        sum_keys(insert_by(s, x, key), m) == sum_keys(s, m) + m(x),
    decreases s.len(),
{
    let r = insert_by(s, x, key);
    if s.len() == 0 {
        assert(r.drop_last() =~= s);
    } else if key(s.last()) <= key(x) {
        assert(r.drop_last() =~= s);
    } else {
        let d = s.drop_last();
        lemma_insert_by_sum(d, x, key, m);
        lemma_insert_by_len(d, x, key);
        assert(r.drop_last() =~= insert_by(d, x, key));
        assert(r.last() == s.last());
    }
}

/// Sorting does not change the sum of any per-element measure `m`.
pub proof fn lemma_sort_by_key_sum<A>(s: Seq<A>, key: spec_fn(A) -> int, m: spec_fn(A) -> int)
    ensures
        sum_keys(sort_by_key(s, key), m) == sum_keys(s, m),
    decreases s.len(),
{
    if s.len() > 0 {
        lemma_sort_by_key_sum(s.drop_last(), key, m);
        lemma_insert_by_sum(sort_by_key(s.drop_last(), key), s.last(), key, m);
    }
}

pub proof fn lemma_sum_keys_nonneg<A>(s: Seq<A>, m: spec_fn(A) -> int)
    requires
        forall|i: int| 0 <= i < s.len() ==> #[trigger] m(s[i]) >= 0,
    ensures
        sum_keys(s, m) >= 0,
    decreases s.len(),
{
    if s.len() > 0 {
        assert forall|i: int| 0 <= i < s.drop_last().len()
            implies #[trigger] m(s.drop_last()[i]) >= 0 by {
            assert(s.drop_last()[i] == s[i]);
        }
        lemma_sum_keys_nonneg(s.drop_last(), m);
        assert(m(s[s.len() - 1]) >= 0);
    }
}

/// With a nonnegative measure, each element's measure is at most the sum.
pub proof fn lemma_sum_keys_element<A>(s: Seq<A>, m: spec_fn(A) -> int, k: int)
    requires
        forall|i: int| 0 <= i < s.len() ==> #[trigger] m(s[i]) >= 0,
        0 <= k < s.len(),
    ensures
        m(s[k]) <= sum_keys(s, m),
    decreases s.len(),
{
    assert forall|i: int| 0 <= i < s.drop_last().len()
        implies #[trigger] m(s.drop_last()[i]) >= 0 by {
        assert(s.drop_last()[i] == s[i]);
    }
    if k == s.len() - 1 {
        lemma_sum_keys_nonneg(s.drop_last(), m);
    } else {
        lemma_sum_keys_element(s.drop_last(), m, k);
        assert(s.drop_last()[k] == s[k]);
        assert(m(s[s.len() - 1]) >= 0);
    }
}

/// With a nonnegative measure, a prefix sums to at most the whole.
pub proof fn lemma_sum_keys_take<A>(s: Seq<A>, m: spec_fn(A) -> int, t: int)
    requires
        forall|i: int| 0 <= i < s.len() ==> #[trigger] m(s[i]) >= 0,
        0 <= t <= s.len(),
    ensures
        sum_keys(s.take(t), m) <= sum_keys(s, m),
    decreases s.len(),
{
    if t == s.len() {
        assert(s.take(t) =~= s);
    } else {
        assert forall|i: int| 0 <= i < s.drop_last().len()
            implies #[trigger] m(s.drop_last()[i]) >= 0 by {
            assert(s.drop_last()[i] == s[i]);
        }
        assert(s.drop_last().take(t) =~= s.take(t));
        lemma_sum_keys_take(s.drop_last(), m, t);
        assert(m(s[s.len() - 1]) >= 0);
    }
}

proof fn lemma_insert_by_map<A, B>(
    s: Seq<A>,
    x: A,
    f: spec_fn(A) -> B,
    ka: spec_fn(A) -> int,
    kb: spec_fn(B) -> int,
)
    requires
        forall|y: A| #[trigger] kb(f(y)) == ka(y),
    ensures
        insert_by(s, x, ka).map_values(f) == insert_by(s.map_values(f), f(x), kb),
    decreases s.len(),
{
    let r = insert_by(s, x, ka);
    let sm = s.map_values(f);
    if s.len() == 0 {
        assert(r.map_values(f) =~= insert_by(sm, f(x), kb));
    } else if ka(s.last()) <= ka(x) {
        assert(sm.last() == f(s.last()));
        assert(kb(sm.last()) <= kb(f(x)));
        assert(insert_by(sm, f(x), kb) == sm.push(f(x)));
        assert(r.map_values(f) =~= sm.push(f(x)));
    } else {
        let d = s.drop_last();
        lemma_insert_by_map(d, x, f, ka, kb);
        assert(sm.last() == f(s.last()));
        assert(kb(sm.last()) > kb(f(x)));
        assert(d.map_values(f) =~= sm.drop_last());
        assert(insert_by(sm, f(x), kb) == insert_by(sm.drop_last(), f(x), kb).push(sm.last()));
        assert(r.map_values(f) =~= insert_by(d, x, ka).map_values(f).push(f(s.last())));
    }
}

/// Mapping each element commutes with sorting when the two keys agree
/// across the map.
pub proof fn lemma_sort_by_key_map<A, B>(
    s: Seq<A>,
    f: spec_fn(A) -> B,
    ka: spec_fn(A) -> int,
    kb: spec_fn(B) -> int,
)
    requires
        forall|y: A| #[trigger] kb(f(y)) == ka(y),
    ensures
        sort_by_key(s, ka).map_values(f) == sort_by_key(s.map_values(f), kb),
    decreases s.len(),
{
    if s.len() == 0 {
        assert(sort_by_key(s, ka).map_values(f) =~= sort_by_key(s.map_values(f), kb));
    } else {
        let d = s.drop_last();
        let sm = s.map_values(f);
        lemma_sort_by_key_map(d, f, ka, kb);
        lemma_insert_by_map(sort_by_key(d, ka), s.last(), f, ka, kb);
        assert(sm.drop_last() =~= d.map_values(f));
        assert(sm.last() == f(s.last()));
        assert(sort_by_key(sm, kb) == insert_by(sort_by_key(sm.drop_last(), kb), sm.last(), kb));
    }
}

// ------------------------------------------------------------------
// Stability.
// ------------------------------------------------------------------

/// The index of the first element whose key exceeds `v`, or `s.len()` if
/// there is none.
spec fn first_gt<A>(s: Seq<A>, key: spec_fn(A) -> int, v: int) -> int
    decreases s.len(),
{
    if s.len() == 0 {
        0
    } else if key(s[0]) > v {
        0
    } else {
        1 + first_gt(s.drop_first(), key, v)
    }
}

proof fn lemma_first_gt<A>(s: Seq<A>, key: spec_fn(A) -> int, v: int)
    ensures
        0 <= first_gt(s, key, v) <= s.len(),
        forall|i: int| 0 <= i < first_gt(s, key, v) ==> key(s[i]) <= v,
        first_gt(s, key, v) < s.len() ==> key(s[first_gt(s, key, v)]) > v,
    decreases s.len(),
{
    if s.len() == 0 {
    } else if key(s[0]) > v {
    } else {
        lemma_first_gt(s.drop_first(), key, v);
        assert forall|i: int| 0 <= i < first_gt(s, key, v) implies key(s[i]) <= v by {
            if i > 0 {
                assert(key(s.drop_first()[i - 1]) <= v);
            }
        }
        if first_gt(s, key, v) < s.len() {
            assert(s.drop_first()[first_gt(s.drop_first(), key, v)]
                == s[first_gt(s, key, v)]);
        }
    }
}

/// `p` witnesses that `t` is a stable-by-key rearrangement of `s`: it maps
/// each output position to the input position it came from, injectively,
/// and positions holding equal keys appear in the same relative order as
/// in the input.
pub open spec fn is_stable_perm<A>(
    p: Seq<int>,
    s: Seq<A>,
    t: Seq<A>,
    key: spec_fn(A) -> int,
) -> bool {
    &&& p.len() == s.len()
    &&& t.len() == s.len()
    &&& forall|i: int| 0 <= i < p.len() ==> 0 <= #[trigger] p[i] < s.len()
    &&& forall|i: int, j: int| 0 <= i < j < p.len() ==> p[i] != p[j]
    &&& forall|i: int| 0 <= i < p.len() ==> #[trigger] t[i] == s[p[i]]
    &&& forall|i: int, j: int|
        0 <= i < j < t.len() && key(t[i]) == key(t[j]) ==> p[i] < p[j]
}

/// Sorting is stable: there is a position mapping from the sorted sequence
/// back to the input that is a permutation and keeps the relative order of
/// elements with equal keys.
#[verifier::rlimit(100)]
pub proof fn lemma_sort_by_key_stable<A>(s: Seq<A>, key: spec_fn(A) -> int)
    ensures
        exists|p: Seq<int>| is_stable_perm(p, s, sort_by_key(s, key), key),
    decreases s.len(),
{
    let t = sort_by_key(s, key);
    lemma_sort_by_key_len(s, key);
    if s.len() == 0 {
        let p = Seq::<int>::empty();
        assert(is_stable_perm(p, s, t, key));
    } else {
        let n = s.len() as int;
        let d = s.drop_last();
        let x = s.last();
        let td = sort_by_key(d, key);
        lemma_sort_by_key_len(d, key);
        lemma_sort_by_key_sorted(d, key);
        lemma_sort_by_key_stable(d, key);
        let pd = choose|p: Seq<int>| is_stable_perm(p, d, td, key);
        let q = first_gt(td, key, key(x));
        lemma_first_gt(td, key, key(x));
        assert forall|i: int| q <= i < td.len() implies key(td[i]) > key(x) by {
            if i > q {
                assert(key(td[q]) <= key(td[i]));
            }
        }
        lemma_insert_by_at(td, x, key, q);
        assert(t == td.insert(q, x));
        td.insert_ensures(q, x);
        let p = pd.insert(q, n - 1);
        pd.insert_ensures(q, n - 1);
        assert forall|i: int| 0 <= i < p.len() implies 0 <= #[trigger] p[i] < n by {
            if i < q {
                assert(p[i] == pd[i]);
            } else if i == q {
                assert(p[i] == n - 1);
            } else {
                assert(p[i] == pd[i - 1]);
            }
        }
        assert forall|i: int, j: int| 0 <= i < j < p.len() implies p[i] != p[j] by {
            if j < q {
                assert(p[i] == pd[i] && p[j] == pd[j]);
            } else if j == q {
                assert(p[i] == pd[i] && pd[i] < n - 1 && p[j] == n - 1);
            } else if i < q {
                assert(p[i] == pd[i] && p[j] == pd[j - 1]);
                if i == j - 1 {
                    assert(false);
                }
            } else if i == q {
                assert(p[i] == n - 1 && p[j] == pd[j - 1] && pd[j - 1] < n - 1);
            } else {
                assert(p[i] == pd[i - 1] && p[j] == pd[j - 1]);
            }
        }
        assert forall|i: int| 0 <= i < p.len() implies #[trigger] t[i] == s[p[i]] by {
            if i < q {
                assert(t[i] == td[i] && p[i] == pd[i]);
                assert(td[i] == d[pd[i]]);
                assert(d[pd[i]] == s[pd[i]]);
            } else if i == q {
                assert(t[i] == x && p[i] == n - 1);
            } else {
                assert(t[i] == td[i - 1] && p[i] == pd[i - 1]);
                assert(td[i - 1] == d[pd[i - 1]]);
                assert(d[pd[i - 1]] == s[pd[i - 1]]);
            }
        }
        assert forall|i: int, j: int|
            0 <= i < j < t.len() && key(t[i]) == key(t[j]) implies p[i] < p[j] by {
            if j < q {
                assert(t[i] == td[i] && t[j] == td[j]);
                assert(p[i] == pd[i] && p[j] == pd[j]);
            } else if j == q {
                assert(p[i] == pd[i] && pd[i] < n - 1 && p[j] == n - 1);
            } else if i == q {
                assert(t[i] == x && t[j] == td[j - 1]);
                assert(key(td[j - 1]) > key(x));
                assert(false);
            } else if i < q {
                assert(t[i] == td[i] && t[j] == td[j - 1]);
                assert(p[i] == pd[i] && p[j] == pd[j - 1]);
                assert(i < j - 1);
            } else {
                assert(t[i] == td[i - 1] && t[j] == td[j - 1]);
                assert(p[i] == pd[i - 1] && p[j] == pd[j - 1]);
            }
        }
        assert(is_stable_perm(p, s, t, key));
    }
}

} // verus!
