//! Deciding which of a block's note-ons start at all.
//!
//! A block may hold a hundred times more note-ons than the pool can take.
//! Every layer it might admit is first recorded as a small candidate; the
//! candidates are thinned or ranked, and only the survivors are built.

use crate::config::AdmitRule;
use crate::select::{outranks, select_top, swap, Ranked};
use crate::voice::{law_picks_never_fall_behind, pick, spawn_pick};
use vstd::arithmetic::div_mod::{
    lemma_div_is_ordered, lemma_div_multiples_vanish, lemma_fundamental_div_mod,
};
use vstd::prelude::*;

verus! {

/// Time strata a saturated block is cut into before ranking admission.
///
/// Bounds how far the admitted set can drift in time while leaving each stratum
/// wide enough that ranking inside it is a real choice.
pub const ADMIT_STRATA: usize = 64;

/// One note-on, unpacked: what is needed to build its layers later.
#[derive(Debug, Clone, Copy, PartialEq, Eq, Structural)]
pub struct NoteOn {
    pub ch: u8,
    pub key: u8,
    pub vel: u8,
    pub variant: u32,
    pub rel: u32,
}

impl NoteOn {
    /// The fields fit the widths a packed note-on has for them.
    pub open spec fn fits(self) -> bool {
        self.ch < 16 && self.key < 128 && self.vel < 128 && self.variant < 64 && self.rel < 65536
    }
}

/// A note-on in one word: channel, key, velocity, variant and frame, from the
/// lowest bits up.
pub open spec fn packed(n: NoteOn) -> int {
    (n.ch as int % 16) + (n.key as int % 128) * 0x10 + (n.vel as int % 128) * 0x800
        + n.variant * 0x4_0000 + n.rel * 0x100_0000
}

/// Pack a note-on into one word. The widths hold for any block and any variant
/// a valid configuration allows.
pub fn note_pack(n: NoteOn) -> (w: u64)
    requires
        n.variant < 64,
        n.rel < 65536,
    ensures
        w == packed(n),
{
    (n.ch % 16) as u64 + (n.key % 128) as u64 * 0x10 + (n.vel % 128) as u64 * 0x800
        + n.variant as u64 * 0x4_0000 + n.rel as u64 * 0x100_0000
}

/// The note-on a word holds.
pub open spec fn unpacked(w: u64) -> NoteOn {
    NoteOn {
        ch: (w as int % 16) as u8,
        key: (w as int / 0x10 % 128) as u8,
        vel: (w as int / 0x800 % 128) as u8,
        variant: (w as int / 0x4_0000 % 64) as u32,
        rel: (w as int / 0x100_0000 % 65536) as u32,
    }
}

/// Take a packed note-on apart.
pub fn note_unpack(w: u64) -> (n: NoteOn)
    ensures
        n == unpacked(w),
        n.fits(),
{
    NoteOn {
        ch: (w % 16) as u8,
        key: (w / 0x10 % 128) as u8,
        vel: (w / 0x800 % 128) as u8,
        variant: (w / 0x4_0000 % 64) as u32,
        rel: (w / 0x100_0000 % 65536) as u32,
    }
}

/// A note-on survives packing.
pub proof fn law_pack_round_trip(n: NoteOn)
    requires
        n.fits(),
    ensures
        unpacked(packed(n) as u64) == n,
{
    let w = packed(n);
    let (ch, key, vel) = (n.ch as int, n.key as int, n.vel as int);
    let (variant, rel) = (n.variant as int, n.rel as int);
    let d = rel;
    let c = variant + 64 * d;
    let b = vel + 128 * c;
    let a = key + 128 * b;
    assert(ch % 16 == ch && key % 128 == key && vel % 128 == vel);
    assert(w == ch + 16 * a);
    assert(w % 16 == ch && w / 0x10 == a);
    assert(a % 128 == key);
    assert(w / 0x800 == b && b % 128 == vel) by {
        assert(w == (ch + 16 * key) + 0x800 * b);
    }
    assert(w / 0x4_0000 == c && c % 64 == variant) by {
        assert(w == (ch + 16 * key + 0x800 * vel) + 0x4_0000 * c);
    }
    assert(w / 0x100_0000 == d && d % 65536 == rel) by {
        assert(w == (ch + 16 * key + 0x800 * vel + 0x4_0000 * variant) + 0x100_0000 * d);
    }
}

/// One layer a block might admit, before anything has been built for it.
#[derive(Debug, Clone, Copy, PartialEq, Eq, Structural)]
pub struct Cand {
    /// The ranking key.
    pub key: u64,
    /// Index of the note-on, or `DEFERRED` for a voice built in an earlier block
    /// whose delay lands in this one.
    pub note: u32,
    /// The region to build; for a deferred candidate, the index of its voice.
    pub region: u32,
    /// Note id, as an offset from the block's first id.
    pub id_off: u32,
}

/// `Cand::note` for a candidate that came off the deferred queue.
pub const DEFERRED: u32 = u32::MAX;

impl Ranked for Cand {
    open spec fn rank(&self) -> u64 {
        self.key
    }

    fn rank_of(&self) -> (r: u64) {
        self.key
    }
}

/// Number of strata for `take` survivors.
pub open spec fn strata_of(take: int) -> int {
    if take < ADMIT_STRATA {
        take
    } else {
        ADMIT_STRATA as int
    }
}

/// `s` of `n` equal parts of `total`, rounded down.
pub open spec fn share(s: int, total: int, n: int) -> int {
    s * total / n
}

/// Survivors taken from the first `s` strata: their proportional share, except
/// that no stratum gives more than it holds. What one is short of, the next
/// makes up for.
pub open spec fn filled(s: int, want: int, take: int) -> int
    decreases s,
{
    let n = strata_of(take);
    if s <= 0 {
        0
    } else {
        let due = share(s, take, n);
        let most = filled(s - 1, want, take) + share(s, want, n) - share(s - 1, want, n);
        if due < most {
            due
        } else {
            most
        }
    }
}

/// `chosen` is made of the highest-ranked elements of `seg`.
pub open spec fn is_top_of<T: Ranked>(chosen: Seq<T>, seg: Seq<T>) -> bool {
    exists|rest: Seq<T>| #[trigger] splits_at_the_top(chosen, rest, seg)
}

/// `seg` is `chosen` and `rest` in some order, with `chosen` on top.
pub open spec fn splits_at_the_top<T: Ranked>(chosen: Seq<T>, rest: Seq<T>, seg: Seq<T>) -> bool {
    &&& (chosen + rest).to_multiset() == seg.to_multiset()
    &&& outranks(chosen + rest, 0, chosen.len() as int, chosen.len() as int, seg.len() as int)
    &&& (chosen + rest).len() == seg.len()
}

/// What ranking leaves at the front: stratum by stratum, the top of each.
pub open spec fn ranked_front(after: Seq<Cand>, before: Seq<Cand>, want: int, take: int, s: int)
    -> bool {
    let n = strata_of(take);
    is_top_of(
        after.subrange(filled(s, want, take), filled(s + 1, want, take)),
        before.subrange(share(s, want, n), share(s + 1, want, n)),
    )
}

proof fn lemma_share(s: int, total: int, n: int)
    requires
        0 <= s,
        0 <= total,
        0 < n,
    ensures
        0 <= share(s, total, n) <= share(s + 1, total, n),
        share(n, total, n) == total,
        share(0, total, n) == 0,
{
    assert(0 <= s * total <= (s + 1) * total) by (nonlinear_arith)
        requires
            0 <= s,
            0 <= total,
    ;
    lemma_div_is_ordered(s * total, (s + 1) * total, n);
    lemma_div_is_ordered(0, s * total, n);
    lemma_div_multiples_vanish(total, n);
    assert(0 * total == 0) by (nonlinear_arith);
}

proof fn lemma_share_monotone(s: int, t: int, total: int, n: int)
    requires
        0 <= s <= t,
        0 <= total,
        0 < n,
    ensures
        share(s, total, n) <= share(t, total, n),
    decreases t - s,
{
    if s < t {
        lemma_share_monotone(s, t - 1, total, n);
        lemma_share(t - 1, total, n);
    }
}

/// The tail of a longer queue is at least as long as the tail of a shorter one.
proof fn lemma_tails(s: int, want: int, take: int, n: int)
    requires
        0 <= s <= n,
        0 < n,
        0 <= take <= want,
    ensures
        want - share(s, want, n) >= take - share(s, take, n),
        share(s, take, n) <= share(s, want, n),
{
    let a = share(s, want, n);
    let b = share(s, take, n);
    lemma_fundamental_div_mod(s * want, n);
    lemma_fundamental_div_mod(s * take, n);
    assert(want - a >= take - b) by (nonlinear_arith)
        requires
            s * want >= n * a,
            s * take < n * b + n,
            0 <= s <= n,
            0 < n,
            take <= want,
    ;
    assert(s * take <= s * want) by (nonlinear_arith)
        requires
            0 <= s,
            take <= want,
    ;
    lemma_div_is_ordered(s * take, s * want, n);
}

proof fn lemma_filled(s: int, want: int, take: int)
    requires
        0 < take <= want,
        0 <= s <= strata_of(take),
    ensures
        0 <= filled(s, want, take) <= share(s, take, strata_of(take)),
        filled(s, want, take) <= share(s, want, strata_of(take)),
        filled(s, want, take) + want - share(s, want, strata_of(take)) >= take,
        s > 0 ==> filled(s - 1, want, take) <= filled(s, want, take),
        s > 0 ==> filled(s, want, take) - filled(s - 1, want, take) <= share(
            s,
            want,
            strata_of(take),
        ) - share(s - 1, want, strata_of(take)),
    decreases s,
{
    let n = strata_of(take);
    if s == 0 {
        lemma_share(0, want, n);
        lemma_share(0, take, n);
    } else {
        lemma_filled(s - 1, want, take);
        lemma_share(s - 1, want, n);
        lemma_share(s - 1, take, n);
        lemma_tails(s, want, take, n);
        lemma_tails(s - 1, want, take, n);
    }
}

/// The strata together give exactly as many survivors as were asked for.
pub proof fn law_strata_fill_the_budget(want: int, take: int)
    requires
        0 < take <= want,
    ensures
        filled(strata_of(take), want, take) == take,
{
    let n = strata_of(take);
    lemma_filled(n, want, take);
    lemma_share(n, want, n);
    lemma_share(n, take, n);
}

/// Sliding the winners down never reaches into a stratum still to be visited,
/// and no stratum gives more than it holds.
pub proof fn law_winners_stay_behind_their_strata(s: int, want: int, take: int)
    requires
        0 < take <= want,
        0 < s <= strata_of(take),
    ensures
        filled(s, want, take) <= share(s, want, strata_of(take)),
        0 <= filled(s, want, take) - filled(s - 1, want, take) <= share(s, want, strata_of(take))
            - share(s - 1, want, strata_of(take)),
{
    lemma_filled(s, want, take);
}

/// Where no stratum is asked for more than it holds, each gives its
/// proportional share.
pub proof fn law_roomy_strata_give_their_share(s: int, want: int, take: int)
    requires
        0 < take <= want,
        0 <= s <= strata_of(take),
        forall|r: int|
            #![trigger share(r, take, strata_of(take))]
            0 < r <= s ==> share(r, take, strata_of(take)) - share(r - 1, take, strata_of(take))
                <= share(r, want, strata_of(take)) - share(r - 1, want, strata_of(take)),
    ensures
        filled(s, want, take) == share(s, take, strata_of(take)),
    decreases s,
{
    let n = strata_of(take);
    lemma_share(0, take, n);
    if s > 0 {
        assert(share(s, take, n) - share(s - 1, take, n) <= share(s, want, n) - share(
            s - 1,
            want,
            n,
        ));
        law_roomy_strata_give_their_share(s - 1, want, take);
    }
}

/// Move the `take` survivors of the first `want` candidates to the front,
/// ranked within time strata rather than across the whole block.
///
/// The strata decide when, the key decides which candidate within each
/// stratum. Ranking globally would pile the admitted notes up wherever the loud
/// ones cluster in time.
pub fn rank_candidates(cands: &mut Vec<Cand>, take: usize)
    requires
        0 < take <= old(cands)@.len(),
        old(cands)@.len() <= u32::MAX,
    ensures
        final(cands)@.len() == old(cands)@.len(),
        final(cands)@.to_multiset() == old(cands)@.to_multiset(),
        forall|s: int|
            0 <= s < strata_of(take as int) ==> #[trigger] ranked_front(
                final(cands)@,
                old(cands)@,
                old(cands)@.len() as int,
                take as int,
                s,
            ),
{
    let ghost s0 = cands@;
    let want: usize = cands.len();
    let strata: usize = if take < ADMIT_STRATA {
        take
    } else {
        ADMIT_STRATA
    };
    let ghost w = want as int;
    let ghost t = take as int;
    let ghost n = strata as int;
    proof {
        lemma_share(0, w, n);
    }
    let mut s: usize = 0;
    let mut lo: usize = 0;
    let mut out: usize = 0;
    while s < strata
        invariant
            s <= strata,
            strata == n == strata_of(t),
            take == t,
            want == w,
            0 < t <= w == s0.len(),
            w <= u32::MAX,
            cands@.len() == w,
            cands@.to_multiset() == s0.to_multiset(),
            lo == share(s as int, w, n),
            out == filled(s as int, w, t),
            out <= lo <= w,
            cands@.skip(lo as int) == s0.skip(lo as int),
            forall|r: int| 0 <= r < s ==> #[trigger] ranked_front(cands@, s0, w, t, r),
        decreases strata - s,
    {
        proof {
            lemma_share(s as int, w, n);
            lemma_share(s as int, t, n);
            lemma_share_monotone(s + 1, n, w, n);
            lemma_share(n, w, n);
            lemma_share_monotone(s + 1, n, t, n);
            lemma_share(n, t, n);
            lemma_filled(s as int, w, t);
            lemma_filled(s + 1, w, t);
            assert((s + 1) * w <= 64 * 0xffff_ffff) by (nonlinear_arith)
                requires
                    0 <= s + 1 <= 64,
                    0 <= w <= 0xffff_ffff,
            ;
            assert((s + 1) * t <= 64 * 0xffff_ffff) by (nonlinear_arith)
                requires
                    0 <= s + 1 <= 64,
                    0 <= t <= 0xffff_ffff,
            ;
            assert(0 <= (s + 1) * w && 0 <= (s + 1) * t) by (nonlinear_arith)
                requires
                    0 <= s + 1,
                    0 <= w,
                    0 <= t,
            ;
        }
        let hi: usize = ((s as u64 + 1) * want as u64 / strata as u64) as usize;
        assert(hi == share(s + 1, w, n));
        let due: usize = ((s as u64 + 1) * take as u64 / strata as u64) as usize;
        assert(due == share(s + 1, t, n));
        let ghost c0 = cands@;
        let q: usize = if due < out + (hi - lo) {
            due - out
        } else {
            hi - lo
        };
        select_top(cands, lo, hi, q);
        let ghost c1 = cands@;
        let mut j: usize = 0;
        while j < q
            invariant
                j <= q <= hi - lo,
                out <= lo <= hi <= w,
                cands@.len() == w == c1.len(),
                cands@.to_multiset() == s0.to_multiset(),
                forall|i: int| 0 <= i < out ==> #[trigger] cands@[i] == c1[i],
                forall|i: int| out <= i < out + j ==> #[trigger] cands@[i] == c1[lo + i - out],
                forall|i: int| lo + j <= i < w ==> #[trigger] cands@[i] == c1[i],
            decreases q - j,
        {
            swap(cands, out + j, lo + j);
            j += 1;
        }
        proof {
            let c2 = cands@;
            let o = out as int;
            assert(c2.skip(hi as int) =~= s0.skip(hi as int)) by {
                assert forall|i: int| hi <= i < w implies c2[i] == s0[i] by {
                    assert(c2[i] == c1[i]);
                    assert(c1.skip(hi as int)[i - hi] == c0.skip(hi as int)[i - hi]);
                    assert(c0.skip(lo as int)[i - lo] == s0.skip(lo as int)[i - lo]);
                }
            }
            // The stratum just served.
            let chosen = c2.subrange(o, o + q);
            let rest = c1.subrange(lo + q, hi as int);
            let seg = s0.subrange(lo as int, hi as int);
            assert(seg =~= c0.subrange(lo as int, hi as int)) by {
                assert forall|i: int| lo <= i < hi implies c0[i] == s0[i] by {
                    assert(c0.skip(lo as int)[i - lo] == s0.skip(lo as int)[i - lo]);
                }
            }
            assert(chosen =~= c1.subrange(lo as int, lo + q));
            assert(chosen + rest =~= c1.subrange(lo as int, hi as int));
            assert(outranks(chosen + rest, 0, q as int, q as int, hi - lo)) by {
                assert forall|a: int, b: int| 0 <= a < q && q <= b < hi - lo implies (
                #[trigger] (chosen + rest)[a]).rank() >= (#[trigger] (chosen + rest)[b]).rank() by {
                    assert(c1[lo + a].rank() >= c1[lo + b].rank());
                }
            }
            assert(splits_at_the_top(chosen, rest, seg));
            assert(ranked_front(c2, s0, w, t, s as int));
            // The strata served before it.
            assert forall|r: int| 0 <= r < s implies #[trigger] ranked_front(c2, s0, w, t, r) by {
                assert(ranked_front(c0, s0, w, t, r));
                lemma_filled_monotone(r + 1, s as int, w, t);
                lemma_filled(r + 1, w, t);
                lemma_filled(r, w, t);
                assert(c2.subrange(filled(r, w, t), filled(r + 1, w, t)) =~= c0.subrange(
                    filled(r, w, t),
                    filled(r + 1, w, t),
                )) by {
                    assert forall|i: int| 0 <= i < o implies c2[i] == c0[i] by {
                        assert(c2[i] == c1[i]);
                        assert(c1.take(lo as int)[i] == c0.take(lo as int)[i]);
                    }
                }
            }
        }
        out = out + q;
        lo = hi;
        s += 1;
    }
}

proof fn lemma_filled_monotone(a: int, b: int, want: int, take: int)
    requires
        0 < take <= want,
        0 <= a <= b <= strata_of(take),
    ensures
        filled(a, want, take) <= filled(b, want, take),
    decreases b - a,
{
    if a < b {
        lemma_filled_monotone(a, b - 1, want, take);
        lemma_filled(b, want, take);
    }
}

/// Thin a block evenly in place: the `i`-th survivor is the `pick(i)`-th
/// candidate, and what lies past the survivors is left as it was.
pub fn thin_evenly(cands: &mut Vec<Cand>, take: usize)
    requires
        0 < take <= old(cands)@.len(),
        old(cands)@.len() <= u32::MAX,
    ensures
        final(cands)@.len() == old(cands)@.len(),
        forall|i: int|
            0 <= i < take ==> #[trigger] final(cands)@[i] == old(cands)@[pick(
                i,
                old(cands)@.len() as int,
                take as int,
            )],
        forall|i: int|
            take <= i < old(cands)@.len() ==> #[trigger] final(cands)@[i] == old(cands)@[i],
{
    let ghost s0 = cands@;
    let want: usize = cands.len();
    let mut i: usize = 0;
    while i < take
        invariant
            i <= take <= want == s0.len(),
            want <= u32::MAX,
            cands@.len() == s0.len(),
            forall|j: int|
                0 <= j < i ==> #[trigger] cands@[j] == s0[pick(j, want as int, take as int)],
            forall|j: int| i <= j < want ==> #[trigger] cands@[j] == s0[j],
        decreases take - i,
    {
        assert(i * want <= 0xffff_ffff * 0xffff_ffff) by (nonlinear_arith)
            requires
                0 <= i <= 0xffff_ffff,
                0 <= want <= 0xffff_ffff,
        ;
        let p: usize = spawn_pick(i, want, take);
        let c = cands[p];
        cands[i] = c;
        i += 1;
    }
}

/// What the admission rule leaves in the first `take` places.
pub open spec fn admitted(
    rule: AdmitRule,
    after: Seq<Cand>,
    before: Seq<Cand>,
    take: int,
) -> bool {
    let want = before.len() as int;
    &&& after.len() == before.len()
    &&& if take == 0 || take >= want {
        after == before
    } else {
        match rule {
            AdmitRule::Even => {
                &&& forall|i: int|
                    0 <= i < take ==> #[trigger] after[i] == before[pick(i, want, take)]
                &&& forall|i: int| take <= i < want ==> #[trigger] after[i] == before[i]
            },
            AdmitRule::Loudest => {
                &&& after.to_multiset() == before.to_multiset()
                &&& forall|s: int|
                    0 <= s < strata_of(take) ==> #[trigger] ranked_front(
                        after,
                        before,
                        want,
                        take,
                        s,
                    )
            },
        }
    }
}

/// Apply the admission rule: the candidates to keep come to the front.
pub fn apply_rule(cands: &mut Vec<Cand>, rule: AdmitRule, take: usize)
    requires
        take <= old(cands)@.len() <= u32::MAX,
    ensures
        admitted(rule, final(cands)@, old(cands)@, take as int),
{
    if take < cands.len() && take > 0 {
        match rule {
            AdmitRule::Even => thin_evenly(cands, take),
            AdmitRule::Loudest => rank_candidates(cands, take),
        }
    }
}

/// The amplitude field of a ranking key.
pub open spec fn amplitude(c: Cand) -> int {
    (c.key as int / 0x1_0000_0000_0000) % 0x8000
}

/// Summed amplitude of the first `n` candidates.
pub open spec fn energy(cands: Seq<Cand>, n: int) -> int
    decreases n,
{
    if n <= 0 {
        0
    } else {
        energy(cands, n - 1) + amplitude(cands[n - 1])
    }
}

/// Summed opening amplitude of the first `n` candidates.
pub fn sum_energy(cands: &Vec<Cand>, n: usize) -> (r: u64)
    requires
        n <= cands@.len() <= u32::MAX,
    ensures
        r == energy(cands@, n as int),
{
    let mut e: u64 = 0;
    let mut i: usize = 0;
    while i < n
        invariant
            i <= n <= cands@.len(),
            n <= u32::MAX,
            e == energy(cands@, i as int),
            e <= i * 0x7fff,
        decreases n - i,
    {
        e += cands[i].key / 0x1_0000_0000_0000 % 0x8000;
        i += 1;
    }
    e
}

/// Every survivor of an even thinning stands at or after its own place in the
/// queue, and inside it.
pub proof fn law_even_survivors_come_from_the_queue(before: Seq<Cand>, take: int, i: int)
    requires
        0 < take <= before.len(),
        0 <= i < take,
    ensures
        i <= pick(i, before.len() as int, take) < before.len(),
{
    law_picks_never_fall_behind(i, before.len() as int, take);
}

/// When no two candidates tie, which of them a stratum admits is settled: two
/// choices of the same number from the top of the same segment hold the same
/// candidates. The admitted set is a function of the input, never of the order
/// of the work.
pub proof fn law_admitted_set_is_unique(a: Seq<Cand>, b: Seq<Cand>, seg: Seq<Cand>)
    requires
        is_top_of(a, seg),
        is_top_of(b, seg),
        a.len() == b.len(),
        forall|i: int, j: int|
            0 <= i < j < seg.len() ==> (#[trigger] seg[i]).key != (#[trigger] seg[j]).key,
    ensures
        a.to_multiset() == b.to_multiset(),
{
    let ra = choose|rest: Seq<Cand>| #[trigger] splits_at_the_top(a, rest, seg);
    let rb = choose|rest: Seq<Cand>| #[trigger] splits_at_the_top(b, rest, seg);
    let m = seg.to_multiset();
    lemma_distinct_counts(seg);
    vstd::seq_lib::lemma_multiset_commutative(a, ra);
    vstd::seq_lib::lemma_multiset_commutative(b, rb);
    a.to_multiset_ensures();
    b.to_multiset_ensures();
    ra.to_multiset_ensures();
    rb.to_multiset_ensures();
    seg.to_multiset_ensures();
    let ma = a.to_multiset();
    let mb = b.to_multiset();
    // Neither side can hold a candidate the other leaves out.
    if exists|x: Cand| ma.count(x) > mb.count(x) {
        let x = choose|x: Cand| ma.count(x) > mb.count(x);
        lemma_exchange(a, ra, b, rb, seg, x);
    }
    if exists|x: Cand| mb.count(x) > ma.count(x) {
        let x = choose|x: Cand| mb.count(x) > ma.count(x);
        lemma_exchange(b, rb, a, ra, seg, x);
    }
    assert(ma =~= mb);
}

/// In a sequence without equal keys no element occurs twice.
proof fn lemma_distinct_counts(seg: Seq<Cand>)
    requires
        forall|i: int, j: int|
            0 <= i < j < seg.len() ==> (#[trigger] seg[i]).key != (#[trigger] seg[j]).key,
    ensures
        forall|x: Cand| #[trigger] seg.to_multiset().count(x) <= 1,
{
    assert(seg.no_duplicates());
    seg.lemma_multiset_has_no_duplicates();
    seg.to_multiset_ensures();
    assert forall|x: Cand| #[trigger] seg.to_multiset().count(x) <= 1 by {
        if seg.to_multiset().count(x) > 0 {
            assert(seg.to_multiset().contains(x));
        }
    }
}

/// One choice from the top holds no candidate that another leaves out.
proof fn lemma_exchange(
    a: Seq<Cand>,
    ra: Seq<Cand>,
    b: Seq<Cand>,
    rb: Seq<Cand>,
    seg: Seq<Cand>,
    x: Cand,
)
    requires
        splits_at_the_top(a, ra, seg),
        splits_at_the_top(b, rb, seg),
        a.len() == b.len(),
        forall|i: int, j: int|
            0 <= i < j < seg.len() ==> (#[trigger] seg[i]).key != (#[trigger] seg[j]).key,
    ensures
        a.to_multiset().count(x) <= b.to_multiset().count(x),
{
    if a.to_multiset().count(x) > b.to_multiset().count(x) {
        let m = seg.to_multiset();
        lemma_distinct_counts(seg);
        vstd::seq_lib::lemma_multiset_commutative(a, ra);
        vstd::seq_lib::lemma_multiset_commutative(b, rb);
        a.to_multiset_ensures();
        b.to_multiset_ensures();
        ra.to_multiset_ensures();
        rb.to_multiset_ensures();
        seg.to_multiset_ensures();
        let ma = a.to_multiset();
        let mb = b.to_multiset();
        let mra = ra.to_multiset();
        let mrb = rb.to_multiset();
        assert(m == ma.add(mra));
        assert(m == mb.add(mrb));
        assert(m.count(x) == ma.count(x) + mra.count(x));
        assert(m.count(x) == mb.count(x) + mrb.count(x));
        assert(mb.count(x) == 0 && mrb.count(x) == 1);
        // Some y lies in b and not in a, or b would be smaller.
        if forall|y: Cand| mb.count(y) <= ma.count(y) {
            assert(mb.insert(x).subset_of(ma)) by {
                assert forall|y: Cand| mb.insert(x).count(y) <= ma.count(y) by {}
            }
            assert(mb.insert(x).len() == mb.len() + 1);
            assert(ma.sub(mb.insert(x)).len() == ma.len() - mb.len() - 1);
            assert(false);
        }
        let y = choose|y: Cand| mb.count(y) > ma.count(y);
        assert(m.count(y) == ma.count(y) + mra.count(y));
        assert(m.count(y) == mb.count(y) + mrb.count(y));
        assert(ma.count(y) == 0 && mra.count(y) == 1);
        // x outranks y in a's split, y outranks x in b's.
        assert(a.contains(x) && ra.contains(y) && b.contains(y) && rb.contains(x));
        let ax = choose|i: int| 0 <= i < a.len() && a[i] == x;
        let ay = choose|i: int| 0 <= i < ra.len() && ra[i] == y;
        let by = choose|i: int| 0 <= i < b.len() && b[i] == y;
        let bx = choose|i: int| 0 <= i < rb.len() && rb[i] == x;
        assert((a + ra)[ax].rank() >= (a + ra)[a.len() + ay].rank());
        assert((b + rb)[by].rank() >= (b + rb)[b.len() + bx].rank());
        assert(x.key == y.key);
        assert(seg.contains(x) && seg.contains(y));
        let sx = choose|i: int| 0 <= i < seg.len() && seg[i] == x;
        let sy = choose|i: int| 0 <= i < seg.len() && seg[i] == y;
        assert(sx != sy);
        assert(false);
    }
}

} // verus!
