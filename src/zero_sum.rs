//! The field-level cancellation behind the lookup argument: when every key of a relation
//! is provided exactly as often as it is consumed, the claimed sum of its entries is zero.
use crate::field::{fe, lemma_fe_ops};
use crate::logup::{balanced, net, spec_claimed_sum, EntryView, LookupElements, Relation};
use vstd::prelude::*;

verus! {

/// The reduced denominator of an entry.
pub open spec fn den(e: EntryView, elems: LookupElements) -> int {
    fe(elems.spec_combine(e.2))
}

/// The product of the denominators of a list of entries, before reduction.
pub open spec fn prod(s: Seq<EntryView>, elems: LookupElements) -> int
    decreases s.len(),
{
    if s.len() == 0 {
        1
    } else {
        prod(s.drop_last(), elems) * den(s.last(), elems)
    }
}

/// The numerator of the claimed sum before reduction: `n / d + m / e = (n e + m d) / (d e)`.
pub open spec fn cross(s: Seq<EntryView>, elems: LookupElements) -> int
    decreases s.len(),
{
    if s.len() == 0 {
        0
    } else {
        cross(s.drop_last(), elems) * den(s.last(), elems) + s.last().1 * prod(
            s.drop_last(),
            elems,
        )
    }
}

/// The claimed sum is the reduction of `cross / prod`.
pub proof fn lemma_claimed_sum_is_cross(s: Seq<EntryView>, elems: LookupElements)
    ensures
        spec_claimed_sum(s, elems).0 == fe(cross(s, elems)),
        spec_claimed_sum(s, elems).1 == fe(prod(s, elems)),
    decreases s.len(),
{
    if s.len() == 0 {
        assert(fe(0) == 0 && fe(1) == 1);
    } else {
        let d = s.drop_last();
        let x = s.last();
        lemma_claimed_sum_is_cross(d, elems);
        let c = cross(d, elems);
        let p = prod(d, elems);
        let e = den(x, elems);
        lemma_fe_ops(elems.spec_combine(x.2), 0);
        lemma_fe_ops(c, e);
        lemma_fe_ops(x.1, p);
        lemma_fe_ops(c * e, x.1 * p);
        lemma_fe_ops(fe(c) * e, fe(x.1) * fe(p));
        lemma_fe_ops(p, e);
        assert(fe(e) == e);
    }
}

/// `Σ_{i<k} m_i · prod(s without entry i)`.
pub open spec fn wsum(s: Seq<EntryView>, elems: LookupElements, k: int) -> int
    decreases k,
{
    if k <= 0 {
        0
    } else {
        wsum(s, elems, k - 1) + s[k - 1].1 * prod(s.remove(k - 1), elems)
    }
}

/// Appending an entry multiplies each earlier term by its denominator.
proof fn lemma_wsum_push(s: Seq<EntryView>, x: EntryView, elems: LookupElements, k: int)
    requires
        0 <= k <= s.len(),
    ensures
        wsum(s.push(x), elems, k) == wsum(s, elems, k) * den(x, elems),
    decreases k,
{
    if k > 0 {
        lemma_wsum_push(s, x, elems, k - 1);
        assert(s.push(x).remove(k - 1) =~= s.remove(k - 1).push(x));
        assert(s.push(x).remove(k - 1).drop_last() =~= s.remove(k - 1));
        assert(s.push(x)[k - 1] == s[k - 1]);
        let a = wsum(s, elems, k - 1);
        let m = s[k - 1].1;
        let q = prod(s.remove(k - 1), elems);
        let e = den(x, elems);
        assert(a * e + m * (q * e) == (a + m * q) * e) by (nonlinear_arith);
    }
}

/// The numerator is the sum over entries of the multiplicity times the other denominators.
proof fn lemma_cross_is_wsum(s: Seq<EntryView>, elems: LookupElements)
    ensures
        cross(s, elems) == wsum(s, elems, s.len() as int),
    decreases s.len(),
{
    if s.len() > 0 {
        let d = s.drop_last();
        let x = s.last();
        lemma_cross_is_wsum(d, elems);
        assert(d.push(x) =~= s);
        lemma_wsum_push(d, x, elems, d.len() as int);
        assert(s.remove(s.len() - 1) =~= d);
    }
}

/// Removing entry `i` divides the product by its denominator.
proof fn lemma_prod_remove(s: Seq<EntryView>, elems: LookupElements, i: int)
    requires
        0 <= i < s.len(),
    ensures
        prod(s, elems) == prod(s.remove(i), elems) * den(s[i], elems),
    decreases s.len(),
{
    let d = s.drop_last();
    if i == s.len() - 1 {
        assert(s.remove(i) =~= d);
    } else {
        lemma_prod_remove(d, elems, i);
        assert(s.remove(i) =~= d.remove(i).push(s.last()));
        assert(s.remove(i).drop_last() =~= d.remove(i));
        assert(d[i] == s[i]);
        let a = prod(d.remove(i), elems);
        let b = den(s[i], elems);
        let c = den(s.last(), elems);
        assert(a * b * c == a * c * b) by (nonlinear_arith);
    }
}

/// `Σ m · others(s0, e0, key)` over a list of entries.
pub open spec fn gsum(s: Seq<EntryView>, s0: Seq<EntryView>, e0: LookupElements) -> int
    decreases s.len(),
{
    if s.len() == 0 {
        0
    } else {
        gsum(s.drop_last(), s0, e0) + s.last().1 * others(s0, e0, s.last().2)
    }
}

proof fn lemma_wsum_is_gsum(
    s: Seq<EntryView>,
    elems: LookupElements,
    s0: Seq<EntryView>, e0: LookupElements,
    k: int,
)
    requires
        0 <= k <= s.len(),
        forall|i: int| 0 <= i < s.len() ==> #[trigger] prod(s.remove(i), elems) == others(s0, e0, s[i].2),
    ensures
        wsum(s, elems, k) == gsum(s.take(k), s0, e0),
    decreases k,
{
    if k > 0 {
        lemma_wsum_is_gsum(s, elems, s0, e0, k - 1);
        assert(s.take(k).drop_last() =~= s.take(k - 1));
        assert(prod(s.remove(k - 1), elems) == others(s0, e0, s[k - 1].2));
    } else {
        assert(s.take(0) =~= Seq::<EntryView>::empty());
    }
}

/// The entries whose key is not `key`.
pub open spec fn without(s: Seq<EntryView>, key: Seq<u32>) -> Seq<EntryView>
    decreases s.len(),
{
    if s.len() == 0 {
        s
    } else if s.last().2 == key {
        without(s.drop_last(), key)
    } else {
        without(s.drop_last(), key).push(s.last())
    }
}

proof fn lemma_without(s: Seq<EntryView>, key: Seq<u32>, rel: Relation, s0: Seq<EntryView>, e0: LookupElements)
    requires
        forall|i: int| 0 <= i < s.len() ==> (#[trigger] s[i]).0 == rel,
    ensures
        without(s, key).len() <= s.len(),
        forall|i: int|
            0 <= i < without(s, key).len() ==> (#[trigger] without(s, key)[i]).0 == rel,
        net(without(s, key), rel, key) == 0,
        forall|k: Seq<u32>| k != key ==> #[trigger] net(without(s, key), rel, k) == net(s, rel, k),
        gsum(s, s0, e0) == gsum(without(s, key), s0, e0) + net(s, rel, key) * others(s0, e0, key),
    decreases s.len(),
{
    if s.len() > 0 {
        let d = s.drop_last();
        assert forall|i: int| 0 <= i < d.len() implies (#[trigger] d[i]).0 == rel by {
            assert(d[i] == s[i]);
        }
        lemma_without(d, key, rel, s0, e0);
        assert(s[s.len() - 1].0 == rel);
        let w = without(d, key);
        if s.last().2 != key {
            let wp = w.push(s.last());
            assert(wp.drop_last() =~= w);
            assert forall|i: int| 0 <= i < wp.len() implies (#[trigger] wp[i]).0 == rel by {
                if i < w.len() {
                    assert(wp[i] == w[i]);
                }
            }
        }
        if s.last().2 != key {
            assert(w.push(s.last()).drop_last() =~= w);
        }
        assert forall|k: Seq<u32>| k != key implies #[trigger] net(without(s, key), rel, k)
            == net(s, rel, k) by {
            assert(net(w, rel, k) == net(d, rel, k));
        }
        let m = s.last().1;
        let n = net(d, rel, key);
        assert(m * others(s0, e0, key) + n * others(s0, e0, key) == (n + m) * others(s0, e0, key)) by (nonlinear_arith);
    }
}

/// When every key nets to zero, so does `Σ m · others(s0, e0, key)`.
proof fn lemma_gsum_balanced(s: Seq<EntryView>, rel: Relation, s0: Seq<EntryView>, e0: LookupElements)
    requires
        forall|i: int| 0 <= i < s.len() ==> (#[trigger] s[i]).0 == rel,
        balanced(s, rel),
    ensures
        gsum(s, s0, e0) == 0,
    decreases s.len(),
{
    if s.len() > 0 {
        let key = s.last().2;
        lemma_without(s, key, rel, s0, e0);
        let w = without(s, key);
        assert(net(s, rel, key) == 0);
        lemma_without_shorter(s, key);
        assert(balanced(w, rel)) by {
            assert forall|k: Seq<u32>| #[trigger] net(w, rel, k) == 0 by {
                if k != key {
                    assert(net(s, rel, k) == 0);
                }
            }
        }
        lemma_gsum_balanced(w, rel, s0, e0);
    }
}

proof fn lemma_without_shorter(s: Seq<EntryView>, key: Seq<u32>)
    requires
        s.len() > 0,
        s.last().2 == key,
    ensures
        without(s, key).len() < s.len(),
{
    lemma_without_len(s.drop_last(), key);
}

proof fn lemma_without_len(s: Seq<EntryView>, key: Seq<u32>)
    ensures
        without(s, key).len() <= s.len(),
    decreases s.len(),
{
    if s.len() > 0 {
        lemma_without_len(s.drop_last(), key);
    }
}

/// Some entry with the given key.
pub open spec fn pick(s: Seq<EntryView>, key: Seq<u32>) -> int {
    choose|i: int| 0 <= i < s.len() && (#[trigger] s[i]).2 == key
}

/// The product of the denominators of the entries other than one with the given key: it
/// depends only on the key.
pub open spec fn others(s: Seq<EntryView>, elems: LookupElements, key: Seq<u32>) -> int {
    if exists|i: int| 0 <= i < s.len() && (#[trigger] s[i]).2 == key {
        prod(s.remove(pick(s, key)), elems)
    } else {
        0
    }
}

/// Global zero-sum: for the entries of one relation, when every key is provided exactly as
/// often as it is consumed and no key falls on a zero denominator under the challenges, the
/// claimed sum of all the entries is zero.
pub proof fn lemma_balanced_claimed_sum_zero(
    s: Seq<EntryView>,
    rel: Relation,
    elems: LookupElements,
)
    requires
        forall|i: int| 0 <= i < s.len() ==> (#[trigger] s[i]).0 == rel,
        forall|i: int| 0 <= i < s.len() ==> den(#[trigger] s[i], elems) != 0,
        balanced(s, rel),
    ensures
        spec_claimed_sum(s, elems).0 == 0,
{
    assert forall|t: int| 0 <= t < s.len() implies #[trigger] prod(s.remove(t), elems) == others(
        s,
        elems,
        s[t].2,
    ) by {
        let key = s[t].2;
        assert(0 <= t < s.len() && s[t].2 == key);
        let j = pick(s, key);
        lemma_prod_remove(s, elems, t);
        lemma_prod_remove(s, elems, j);
        let a = prod(s.remove(t), elems);
        let b = prod(s.remove(j), elems);
        let d = den(s[t], elems);
        assert(den(s[j], elems) == d);
        assert(prod(s, elems) == a * d);
        assert(prod(s, elems) == b * d);
        assert(a == b) by (nonlinear_arith)
            requires
                a * d == b * d,
                d != 0,
        ;
    }
    lemma_claimed_sum_is_cross(s, elems);
    lemma_cross_is_wsum(s, elems);
    lemma_wsum_is_gsum(s, elems, s, elems, s.len() as int);
    assert(s.take(s.len() as int) =~= s);
    lemma_gsum_balanced(s, rel, s, elems);
    assert(fe(0) == 0);
}

} // verus!
