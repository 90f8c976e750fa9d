//! Partial ordering in place: the highest-ranked part of a segment to its front.

use vstd::prelude::*;

verus! {

/// Something with a 64-bit rank.
pub trait Ranked: Copy {
    spec fn rank(&self) -> u64;

    fn rank_of(&self) -> (r: u64)
        ensures
            r == self.rank(),
    ;
}

/// Everything in `a..b` of `s` ranks at least as high as everything in `c..d`.
pub open spec fn outranks<T: Ranked>(s: Seq<T>, a: int, b: int, c: int, d: int) -> bool {
    forall|i: int, j: int|
        a <= i < b && c <= j < d ==> (#[trigger] s[i]).rank() >= (#[trigger] s[j]).rank()
}

/// Exchanging two elements keeps the multiset.
pub proof fn lemma_swap<T>(s: Seq<T>, i: int, j: int)
    requires
        0 <= i < s.len(),
        0 <= j < s.len(),
    ensures
        s.update(i, s[j]).update(j, s[i]).to_multiset() == s.to_multiset(),
{
    let m = s.to_multiset();
    let t = s.update(i, s[j]);
    vstd::seq_lib::to_multiset_update(s, i, s[j]);
    vstd::seq_lib::to_multiset_update(t, j, s[i]);
    s.to_multiset_ensures();
    assert(s.contains(s[i]));
    assert(s.contains(s[j]));
    assert(m.count(s[i]) > 0 && m.count(s[j]) > 0);
    if i == j {
        assert(s.update(i, s[j]).update(j, s[i]) =~= s);
    } else {
        assert(t[j] == s[j]);
        assert(t.update(j, s[i]).to_multiset() =~= m);
    }
}

/// Two sequences of equal length with equal multisets that agree outside `a..b`
/// have equal multisets inside it.
pub proof fn lemma_same_inside<T>(s: Seq<T>, t: Seq<T>, a: int, b: int)
    requires
        0 <= a <= b <= s.len(),
        s.len() == t.len(),
        s.to_multiset() == t.to_multiset(),
        s.take(a) == t.take(a),
        s.skip(b) == t.skip(b),
    ensures
        s.subrange(a, b).to_multiset() == t.subrange(a, b).to_multiset(),
{
    let sa = s.take(a);
    let sm = s.subrange(a, b);
    let tm = t.subrange(a, b);
    let sc = s.skip(b);
    assert(s =~= (sa + sm) + sc);
    assert(t =~= (sa + tm) + sc);
    vstd::seq_lib::lemma_multiset_commutative(sa, sm);
    vstd::seq_lib::lemma_multiset_commutative(sa, tm);
    vstd::seq_lib::lemma_multiset_commutative(sa + sm, sc);
    vstd::seq_lib::lemma_multiset_commutative(sa + tm, sc);
    assert forall|x: T| sm.to_multiset().count(x) == tm.to_multiset().count(x) by {
        let (ca, cc) = (sa.to_multiset().count(x), sc.to_multiset().count(x));
        assert(s.to_multiset() == sa.to_multiset().add(sm.to_multiset()).add(sc.to_multiset()));
        assert(t.to_multiset() == sa.to_multiset().add(tm.to_multiset()).add(sc.to_multiset()));
        assert(s.to_multiset().count(x) == ca + sm.to_multiset().count(x) + cc);
        assert(t.to_multiset().count(x) == ca + tm.to_multiset().count(x) + cc);
    }
    assert(sm.to_multiset() =~= tm.to_multiset());
}

pub fn swap<T: Copy>(v: &mut Vec<T>, i: usize, j: usize)
    requires
        i < old(v)@.len(),
        j < old(v)@.len(),
    ensures
        final(v)@ == old(v)@.update(i as int, old(v)@[j as int]).update(
            j as int,
            old(v)@[i as int],
        ),
        final(v)@.to_multiset() == old(v)@.to_multiset(),
{
    proof {
        lemma_swap(v@, i as int, j as int);
    }
    let t = v[i];
    v[i] = v[j];
    v[j] = t;
}

/// Move the `q` highest-ranked elements of `lo..hi` to the front of that
/// segment. Elements outside it stay where they are. The order inside the two
/// parts is a function of the input alone.
pub fn select_top<T: Ranked>(v: &mut Vec<T>, lo: usize, hi: usize, q: usize)
    requires
        lo <= hi <= old(v)@.len(),
        q <= hi - lo,
    ensures
        final(v)@.len() == old(v)@.len(),
        final(v)@.to_multiset() == old(v)@.to_multiset(),
        final(v)@.take(lo as int) == old(v)@.take(lo as int),
        final(v)@.skip(hi as int) == old(v)@.skip(hi as int),
        final(v)@.subrange(lo as int, hi as int).to_multiset() == old(v)@.subrange(
            lo as int,
            hi as int,
        ).to_multiset(),
        outranks(final(v)@, lo as int, lo + q, lo + q, hi as int),
{
    let ghost s0 = v@;
    let p: usize = lo + q;
    let mut a: usize = lo;
    let mut b: usize = hi;
    // Every element left of `a` ranks at least `upper`, every other at most;
    // every element left of `b` ranks at least `lower`, every other at most.
    let ghost mut upper: u64 = u64::MAX;
    let ghost mut lower: u64 = 0;
    while a < p && p < b
        invariant
            lo <= a <= p <= b <= hi <= v@.len(),
            v@.len() == s0.len(),
            v@.to_multiset() == s0.to_multiset(),
            v@.take(lo as int) == s0.take(lo as int),
            v@.skip(hi as int) == s0.skip(hi as int),
            forall|i: int| lo <= i < a ==> (#[trigger] v@[i]).rank() >= upper,
            forall|i: int| a <= i < hi ==> (#[trigger] v@[i]).rank() <= upper,
            forall|i: int| lo <= i < b ==> (#[trigger] v@[i]).rank() >= lower,
            forall|i: int| b <= i < hi ==> (#[trigger] v@[i]).rank() <= lower,
        decreases b - a,
    {
        let mid: usize = a + (b - a) / 2;
        let last: usize = b - 1;
        swap(v, mid, last);
        assert(v@.take(lo as int) =~= s0.take(lo as int));
        assert(v@.skip(hi as int) =~= s0.skip(hi as int));
        let pivot: u64 = v[last].rank_of();
        let mut store: usize = a;
        let mut i: usize = a;
        while i < last
            invariant
                lo <= a <= store <= i <= last,
                last == b - 1,
                a < b <= hi <= v@.len(),
                v@.len() == s0.len(),
                v@.to_multiset() == s0.to_multiset(),
                v@.take(lo as int) == s0.take(lo as int),
                v@.skip(hi as int) == s0.skip(hi as int),
                v@[last as int].rank() == pivot,
                forall|k: int| lo <= k < a ==> (#[trigger] v@[k]).rank() >= upper,
                forall|k: int| a <= k < hi ==> (#[trigger] v@[k]).rank() <= upper,
                forall|k: int| lo <= k < b ==> (#[trigger] v@[k]).rank() >= lower,
                forall|k: int| b <= k < hi ==> (#[trigger] v@[k]).rank() <= lower,
                forall|k: int| a <= k < store ==> (#[trigger] v@[k]).rank() > pivot,
                forall|k: int| store <= k < i ==> (#[trigger] v@[k]).rank() <= pivot,
            decreases last - i,
        {
            if v[i].rank_of() > pivot {
                swap(v, store, i);
                assert(v@.take(lo as int) =~= s0.take(lo as int));
                assert(v@.skip(hi as int) =~= s0.skip(hi as int));
                store += 1;
            }
            i += 1;
        }
        swap(v, store, last);
        assert(v@.take(lo as int) =~= s0.take(lo as int));
        assert(v@.skip(hi as int) =~= s0.skip(hi as int));
        if p <= store {
            b = store;
            proof {
                lower = pivot;
            }
        } else {
            a = store + 1;
            proof {
                upper = pivot;
            }
        }
    }
    proof {
        lemma_same_inside(v@, s0, lo as int, hi as int);
    }
}

} // verus!
