//! Limiter selection and the final clamp.

use crate::fbits::{
    is_finite32, is_nan32, mag32, magnitude32, ord32, F32_INF, F32_MINUS_ONE, F32_ONE, F32_SIGN,
};
use crate::text::{lower_all, lowered, spells};
use vstd::prelude::*;

verus! {

/// Which limiter the render runs, if any.
#[derive(Debug, Clone, Copy, PartialEq, Eq, Structural)]
pub enum LimiterMode {
    /// Leave the mix alone.
    Off,
    /// A feedback follower that tracks loudness and divides by it.
    Omni,
    /// A lookahead true-peak limiter that never exceeds its ceiling.
    Brickwall,
}

impl LimiterMode {
    /// The mode a command-line word names, in any letter case.
    pub open spec fn named(word: Seq<char>) -> Option<LimiterMode> {
        let w = lower_all(word);
        if w == "off"@ || w == "none"@ {
            Some(LimiterMode::Off)
        } else if w == "omni"@ || w == "kiva"@ || w == "legacy"@ {
            Some(LimiterMode::Omni)
        } else if w == "brickwall"@ || w == "brick"@ || w == "peak"@ {
            Some(LimiterMode::Brickwall)
        } else {
            None
        }
    }

    pub fn parse(s: &str) -> (r: Option<Self>)
        ensures
            r == LimiterMode::named(s@),
    {
        let w = lowered(s);
        if spells(&w, "off") || spells(&w, "none") {
            Some(LimiterMode::Off)
        } else if spells(&w, "omni") || spells(&w, "kiva") || spells(&w, "legacy") {
            Some(LimiterMode::Omni)
        } else if spells(&w, "brickwall") || spells(&w, "brick") || spells(&w, "peak") {
            Some(LimiterMode::Brickwall)
        } else {
            None
        }
    }
}

/// Whether a sample is out of range. A NaN is not: it compares with nothing.
pub open spec fn is_clipped(v: u32) -> bool {
    !is_nan32(v) && (ord32(v) > ord32(F32_ONE) || ord32(v) < ord32(F32_MINUS_ONE))
}

/// A sample pulled back to full scale where it is out of range.
pub open spec fn clamped(v: u32) -> u32 {
    if !is_clipped(v) {
        v
    } else if v < F32_SIGN {
        F32_ONE
    } else {
        F32_MINUS_ONE
    }
}

/// How many samples are out of range.
pub open spec fn clipped_count(buf: Seq<u32>) -> nat
    decreases buf.len(),
{
    if buf.len() == 0 {
        0
    } else if is_clipped(buf.last()) {
        clipped_count(buf.drop_last()) + 1
    } else {
        clipped_count(buf.drop_last())
    }
}

proof fn lemma_clipped_bound(buf: Seq<u32>)
    ensures
        clipped_count(buf) <= buf.len(),
    decreases buf.len(),
{
    if buf.len() > 0 {
        lemma_clipped_bound(buf.drop_last());
    }
}

/// Hard clamp, always applied last so that nothing leaves the renderer out of
/// range. The samples are bit patterns. The result is how many had to move,
/// which is how many would have left the renderer clipped.
pub fn clamp_block(buf: &mut Vec<u32>) -> (n: u64)
    requires
        old(buf)@.len() <= u64::MAX,
    ensures
        final(buf)@ == old(buf)@.map_values(|v: u32| clamped(v)),
        n == clipped_count(old(buf)@),
{
    let ghost start = buf@;
    let len: usize = buf.len();
    let mut n: u64 = 0;
    let mut i: usize = 0;
    while i < len
        invariant
            len == buf@.len(),
            start.len() == len,
            i <= len,
            n == clipped_count(start.take(i as int)),
            forall|k: int| 0 <= k < i ==> #[trigger] buf@[k] == clamped(start[k]),
            forall|k: int| i <= k < len ==> #[trigger] buf@[k] == start[k],
        decreases len - i,
    {
        let v: u32 = buf[i];
        let m: u32 = magnitude32(v);
        proof {
            assert(start.take(i + 1).drop_last() =~= start.take(i as int));
            lemma_clipped_bound(start.take(i as int));
        }
        if m <= F32_INF && m > F32_ONE {
            n = n + 1;
            buf[i] = if v < F32_SIGN {
                F32_ONE
            } else {
                F32_MINUS_ONE
            };
        }
        i += 1;
    }
    assert(start.take(len as int) =~= start);
    assert(buf@ =~= start.map_values(|v: u32| clamped(v)));
    n
}

/// After the clamp nothing is out of range, so a second clamp moves nothing.
pub proof fn law_nothing_leaves_out_of_range(buf: Seq<u32>)
    ensures
        clipped_count(buf.map_values(|v: u32| clamped(v))) == 0,
        forall|i: int| 0 <= i < buf.len() ==> !is_clipped(#[trigger] clamped(buf[i])),
        forall|i: int| 0 <= i < buf.len() ==> clamped(#[trigger] clamped(buf[i])) == clamped(buf[i]),
    decreases buf.len(),
{
    if buf.len() > 0 {
        law_nothing_leaves_out_of_range(buf.drop_last());
        let out = buf.map_values(|v: u32| clamped(v));
        assert(out.drop_last() =~= buf.drop_last().map_values(|v: u32| clamped(v)));
        assert forall|i: int| 0 <= i < buf.len() implies !is_clipped(
            #[trigger] clamped(buf[i]),
        ) by {}
    }
}

/// A block that needs no clamping is left alone, bit for bit.
pub proof fn law_quiet_blocks_are_kept(buf: Seq<u32>)
    requires
        clipped_count(buf) == 0,
    ensures
        buf.map_values(|v: u32| clamped(v)) == buf,
    decreases buf.len(),
{
    if buf.len() > 0 {
        law_quiet_blocks_are_kept(buf.drop_last());
        let out = buf.map_values(|v: u32| clamped(v));
        assert(out.drop_last() =~= buf.drop_last().map_values(|v: u32| clamped(v)));
        assert(out =~= out.drop_last().push(out.last()));
        assert(buf =~= buf.drop_last().push(buf.last()));
    } else {
        assert(buf.map_values(|v: u32| clamped(v)) =~= buf);
    }
}

/// Whether a place is that of the first sample that is no finite number, and
/// whether none is where there is no place.
pub open spec fn is_first_bad(r: Option<usize>, buf: Seq<u32>) -> bool {
    match r {
        Some(i) => i < buf.len() && !is_finite32(buf[i as int]) && forall|k: int|
            0 <= k < i ==> is_finite32(#[trigger] buf[k]),
        None => forall|k: int| 0 <= k < buf.len() ==> is_finite32(#[trigger] buf[k]),
    }
}

/// The place of the first sample that is infinite or a NaN, if there is one.
pub fn first_non_finite(buf: &Vec<u32>) -> (r: Option<usize>)
    ensures
        is_first_bad(r, buf@),
{
    let mut i: usize = 0;
    while i < buf.len()
        invariant
            i <= buf@.len(),
            forall|k: int| 0 <= k < i ==> is_finite32(#[trigger] buf@[k]),
        decreases buf@.len() - i,
    {
        if magnitude32(buf[i]) >= F32_INF {
            return Some(i);
        }
        i += 1;
    }
    None
}

/// Whether `p` is the peak of a block: the largest magnitude of a sample in it, and
/// zero where there is none. A NaN is no sample.
pub open spec fn is_block_peak(p: u32, buf: Seq<u32>) -> bool {
    &&& forall|i: int| 0 <= i < buf.len() && !is_nan32(#[trigger] buf[i]) ==> mag32(buf[i]) <= p
    &&& p == 0 || exists|i: int|
        0 <= i < buf.len() && !is_nan32(#[trigger] buf[i]) && mag32(buf[i]) == p
}

/// The peak of a block, as a bit pattern. The samples are bit patterns too.
pub fn block_peak(buf: &Vec<u32>) -> (p: u32)
    ensures
        is_block_peak(p, buf@),
{
    let n: usize = buf.len();
    let mut p: u32 = 0;
    let mut i: usize = 0;
    while i < n
        invariant
            i <= n == buf@.len(),
            is_block_peak(p, buf@.take(i as int)),
        decreases n - i,
    {
        let m: u32 = magnitude32(buf[i]);
        let ghost seen = buf@.take(i as int);
        let ghost now = buf@.take(i + 1);
        let ghost p0 = p;
        if m <= F32_INF && m > p {
            p = m;
        }
        proof {
            assert(forall|k: int| 0 <= k < i ==> #[trigger] now[k] == seen[k]);
            assert(now[i as int] == buf@[i as int]);
            if p == p0 && p != 0 {
                let k = choose|k: int|
                    0 <= k < seen.len() && !is_nan32(#[trigger] seen[k]) && mag32(seen[k]) == p;
                assert(now[k] == seen[k]);
            }
        }
        i += 1;
    }
    assert(buf@.take(n as int) =~= buf@);
    p
}

/// A block has one peak.
pub proof fn law_the_peak_is_unique(a: u32, b: u32, buf: Seq<u32>)
    requires
        is_block_peak(a, buf),
        is_block_peak(b, buf),
    ensures
        a == b,
{
    if a != 0 {
        let i = choose|i: int|
            0 <= i < buf.len() && !is_nan32(#[trigger] buf[i]) && mag32(buf[i]) == a;
        assert(mag32(buf[i]) <= b);
    }
    if b != 0 {
        let i = choose|i: int|
            0 <= i < buf.len() && !is_nan32(#[trigger] buf[i]) && mag32(buf[i]) == b;
        assert(mag32(buf[i]) <= a);
    }
}

} // verus!
