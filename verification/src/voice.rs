//! Voice spawn commands and the keys admission ranks them by.

use crate::fbits::{is_nan32, magnitude32, ord32, F32_INF, F32_SIGN};
use vstd::prelude::*;

verus! {

// Envelope stages. Part of the host/device contract, so do not renumber them.
pub const ENV_ATTACK: u32 = 0;

pub const ENV_DECAY: u32 = 1;

pub const ENV_SUSTAIN: u32 = 2;

pub const ENV_RELEASE: u32 = 3;

pub const ENV_DEAD: u32 = 4;

/// Everything needed to start one voice, in the exact order the spawn shader
/// reads it. The gains are single-precision bit patterns.
#[derive(Debug, Clone, Copy, PartialEq, Eq, Structural)]
pub struct SpawnCmd {
    pub phase_lo: u32,
    pub phase_hi: u32,
    pub step_lo: u32,
    pub step_hi: u32,
    pub smp_base: u32,
    pub smp_len: u32,
    pub loop_start: u32,
    pub loop_end: u32,
    pub flags: u32,
    pub params: u32,
    /// The params variant the channel was on at this voice's own note-on.
    pub variant: u32,
    pub region: u32,
    /// `channel * 128 + key`, the note-off gate this voice listens to.
    pub gate_slot: u32,
    /// Which note-on of that slot this voice belongs to, counting from 1.
    pub ordinal: u32,
    /// Frames into the block before the voice starts.
    pub start_rel: u32,
    pub note_id_lo: u32,
    pub note_id_hi: u32,
    pub gain_l: u32,
    pub gain_r: u32,
}

impl Default for SpawnCmd {
    fn default() -> (r: Self)
        ensures
            r == (SpawnCmd {
                phase_lo: 0,
                phase_hi: 0,
                step_lo: 0,
                step_hi: 0,
                smp_base: 0,
                smp_len: 0,
                loop_start: 0,
                loop_end: 0,
                flags: 0,
                params: 0,
                variant: 0,
                region: 0,
                gate_slot: 0,
                ordinal: 0,
                start_rel: 0,
                note_id_lo: 0,
                note_id_hi: 0,
                gain_l: 0,
                gain_r: 0,
            }),
    {
        SpawnCmd {
            phase_lo: 0,
            phase_hi: 0,
            step_lo: 0,
            step_hi: 0,
            smp_base: 0,
            smp_len: 0,
            loop_start: 0,
            loop_end: 0,
            flags: 0,
            params: 0,
            variant: 0,
            region: 0,
            gate_slot: 0,
            ordinal: 0,
            start_rel: 0,
            note_id_lo: 0,
            note_id_hi: 0,
            gain_l: 0,
            gain_r: 0,
        }
    }
}

/// Words in one uploaded spawn command.
pub const SPAWN_WORDS: usize = 19;

/// The words of a command in upload order.
pub open spec fn spawn_words(c: SpawnCmd) -> Seq<u32> {
    seq![
        c.phase_lo,
        c.phase_hi,
        c.step_lo,
        c.step_hi,
        c.smp_base,
        c.smp_len,
        c.loop_start,
        c.loop_end,
        c.flags,
        c.params,
        c.variant,
        c.region,
        c.gate_slot,
        c.ordinal,
        c.start_rel,
        c.note_id_lo,
        c.note_id_hi,
        c.gain_l,
        c.gain_r,
    ]
}

/// The words of a block of commands, one command after another.
pub open spec fn block_words(cmds: Seq<SpawnCmd>) -> Seq<u32>
    decreases cmds.len(),
{
    if cmds.len() == 0 {
        Seq::empty()
    } else {
        block_words(cmds.drop_last()) + spawn_words(cmds.last())
    }
}

/// Lay a block of commands out as the words the spawn pass reads.
pub fn pack_spawns(cmds: &Vec<SpawnCmd>) -> (r: Vec<u32>)
    ensures
        r@ == block_words(cmds@),
{
    let mut out: Vec<u32> = Vec::new();
    let mut i: usize = 0;
    while i < cmds.len()
        invariant
            i <= cmds@.len(),
            out@ == block_words(cmds@.take(i as int)),
        decreases cmds@.len() - i,
    {
        let c = cmds[i];
        let ghost before = out@;
        out.push(c.phase_lo);
        out.push(c.phase_hi);
        out.push(c.step_lo);
        out.push(c.step_hi);
        out.push(c.smp_base);
        out.push(c.smp_len);
        out.push(c.loop_start);
        out.push(c.loop_end);
        out.push(c.flags);
        out.push(c.params);
        out.push(c.variant);
        out.push(c.region);
        out.push(c.gate_slot);
        out.push(c.ordinal);
        out.push(c.start_rel);
        out.push(c.note_id_lo);
        out.push(c.note_id_hi);
        out.push(c.gain_l);
        out.push(c.gain_r);
        assert(out@ =~= before + spawn_words(c));
        assert(cmds@.take(i + 1).drop_last() =~= cmds@.take(i as int));
        i += 1;
    }
    assert(cmds@.take(i as int) =~= cmds@);
    out
}

/// Which of `want` queued spawns the `i`-th accepted one is.
pub open spec fn pick(i: int, want: int, take: int) -> int {
    i * want / take
}

/// Which of `want` queued spawns the `i`-th accepted one should be, when only
/// `take` of them fit in the pool.
///
/// A prefix would keep everything from the opening of the block and drop
/// everything after it. Spreading the choice evenly keeps the block's timing
/// intact and merely thins it.
pub fn spawn_pick(i: usize, want: usize, take: usize) -> (r: usize)
    requires
        0 < take <= want,
        i < take,
        i * want <= u64::MAX,
    ensures
        r == pick(i as int, want as int, take as int),
        i <= r < want,
{
    proof {
        law_picks_never_fall_behind(i as int, want as int, take as int);
    }
    (i as u64 * want as u64 / take as u64) as usize
}

/// A pick is never before its own position and never past the queue, so a block
/// can be thinned forwards in place.
pub proof fn law_picks_never_fall_behind(i: int, want: int, take: int)
    requires
        0 < take <= want,
        0 <= i < take,
    ensures
        i <= pick(i, want, take) < want,
{
    assert(i * take <= i * want < take * want) by (nonlinear_arith)
        requires
            0 < take <= want,
            0 <= i < take,
    ;
    vstd::arithmetic::div_mod::lemma_div_is_ordered(i * take, i * want, take);
    vstd::arithmetic::div_mod::lemma_div_multiples_vanish(i, take);
    assert(take * i == i * take) by (nonlinear_arith);
    assert(i * want / take < want) by (nonlinear_arith)
        requires
            i * want < take * want,
            0 < take,
    ;
}

/// Picks are distinct and in order.
pub proof fn law_picks_strictly_increase(i: int, j: int, want: int, take: int)
    requires
        0 < take <= want,
        0 <= i < j < take,
    ensures
        pick(i, want, take) < pick(j, want, take),
{
    assert(i * want + take <= j * want) by (nonlinear_arith)
        requires
            0 < take <= want,
            0 <= i < j,
    ;
    vstd::arithmetic::div_mod::lemma_div_is_ordered(i * want + take, j * want, take);
    assert((i * want + take) / take == i * want / take + 1) by {
        vstd::arithmetic::div_mod::lemma_div_plus_one(i * want, take);
    }
}

/// Quantised opening amplitude: the top 15 bits below the sign of a positive
/// number, zero for anything else.
pub open spec fn gain_q(sum: u32) -> u64 {
    if is_nan32(sum) || ord32(sum) <= 0 {
        0
    } else {
        sum as u64 / 0x1_0000
    }
}

/// Quantise a voice's opening amplitude to the 15 bits the ranking key has for
/// it. `sum` is the bit pattern of `|gain_l| + |gain_r|`.
///
/// The bit pattern of a positive number increases with its value and its
/// exponent field is its logarithm, so the top bits are already a logarithmic
/// quantisation over the entire positive range.
pub fn rank_gain_q(sum: u32) -> (r: u64)
    ensures
        r == gain_q(sum),
        r <= 0x7fff,
{
    if magnitude32(sum) > F32_INF || sum >= F32_SIGN || sum == 0 {
        return 0;
    }
    sum as u64 / 0x1_0000
}

/// A louder voice never ranks below a quieter one.
pub proof fn law_louder_ranks_no_lower(a: u32, b: u32)
    requires
        !is_nan32(a),
        !is_nan32(b),
        ord32(a) <= ord32(b),
    ensures
        gain_q(a) <= gain_q(b),
{
}

/// The 48-bit mask.
pub const MASK48: u64 = 0x0000_ffff_ffff_ffff;

pub const MIX_A: u64 = 0x9e37_79b9_7f4b;

pub const MIX_B: u64 = 0xbf58_476d_1ce5;

/// One odd multiply modulo 2^48.
pub open spec fn mul48(z: u64, c: u64) -> u64 {
    ((z * c) % 0x1_0000_0000_0000) as u64
}

/// The scrambled position of a candidate: xor-shifts and odd multiplies modulo
/// 2^48.
pub open spec fn mixed(index: u64) -> u64 {
    let z0 = (index as int % 0x1_0000_0000_0000) as u64;
    let z1 = z0 ^ (z0 >> 24u64);
    let z2 = mul48(z1, MIX_A);
    let z3 = z2 ^ (z2 >> 23u64);
    let z4 = mul48(z3, MIX_B);
    z4 ^ (z4 >> 25u64)
}

fn times48(z: u64, c: u64) -> (r: u64)
    ensures
        r == mul48(z, c),
        r <= MASK48,
{
    assert(0 <= z * c <= 0xffff_ffff_ffff_ffff * 0xffff_ffff_ffff_ffff) by (nonlinear_arith)
        requires
            0 <= z <= 0xffff_ffff_ffff_ffff,
            0 <= c <= 0xffff_ffff_ffff_ffff,
    ;
    (z as u128 * c as u128 % 0x1_0000_0000_0000) as u64
}

/// The tiebreak field of the ranking keys: a scrambled function of a candidate's
/// position in the block.
///
/// Consecutive positions scatter, so neither arrival order nor the parity of a
/// stereo pair carries any rank, and distinct positions stay distinct.
pub fn mix48(index: u64) -> (r: u64)
    ensures
        r == mixed(index),
        r <= MASK48,
{
    let z0: u64 = index % 0x1_0000_0000_0000;
    let z1: u64 = z0 ^ (z0 >> 24u64);
    let z2: u64 = times48(z1, MIX_A);
    let z3: u64 = z2 ^ (z2 >> 23u64);
    let z4: u64 = times48(z3, MIX_B);
    assert(z4 <= 0xffff_ffff_ffff ==> (z4 ^ (z4 >> 25u64)) <= 0xffff_ffff_ffff) by (bit_vector);
    z4 ^ (z4 >> 25u64)
}

/// The ranking key of a candidate: amplitude above scrambled position.
pub open spec fn key_of(sum: u32, index: u64) -> u64 {
    (gain_q(sum) * 0x1_0000_0000_0000 + mixed(index)) as u64
}

/// The 64-bit key admission ranks queued spawns by, highest kept first.
///
/// Two fields, most significant first: the opening amplitude in 15 bits, and the
/// candidate's position in the block, scrambled, as a tiebreak that carries no
/// information about when the note arrived.
pub fn admit_key(sum: u32, index: u64) -> (r: u64)
    ensures
        r == key_of(sum, index),
        r as int / 0x1_0000_0000_0000 == gain_q(sum),
{
    rank_gain_q(sum) * 0x1_0000_0000_0000 + mix48(index)
}

proof fn lemma_mul48_injective(a: u64, b: u64, c: u64, d: u64, k: int)
    requires
        a <= MASK48,
        b <= MASK48,
        c * d == 1 + k * 0x1_0000_0000_0000,
        mul48(a, c) == mul48(b, c),
    ensures
        a == b,
{
    lemma_mul48_inverse(a, c, d, k);
    lemma_mul48_inverse(b, c, d, k);
}

proof fn lemma_mul48_inverse(a: u64, c: u64, d: u64, k: int)
    requires
        a <= MASK48,
        c * d == 1 + k * 0x1_0000_0000_0000,
    ensures
        (mul48(a, c) * d) % 0x1_0000_0000_0000 == a,
{
    let m: int = 0x1_0000_0000_0000;
    let p = a * c;
    assert(0 <= p) by (nonlinear_arith)
        requires
            p == a * c,
            a >= 0,
            c >= 0,
    ;
    let q = p / m;
    let r = p % m;
    assert(p == q * m + r) by {
        vstd::arithmetic::div_mod::lemma_fundamental_div_mod(p, m);
    }
    // r * d == a + m * (a * k - q * d)
    assert(r * d == m * (a * k - q * d) + a) by (nonlinear_arith)
        requires
            p == a * c,
            p == q * m + r,
            c * d == 1 + k * m,
    ;
    vstd::arithmetic::div_mod::lemma_fundamental_div_mod_converse(r * d, m, a * k - q * d, a as int);
}

/// The scrambling is one-to-one on 48 bits: distinct positions get distinct
/// tiebreaks.
pub proof fn law_mix_is_one_to_one(a: u64, b: u64)
    requires
        a <= MASK48,
        b <= MASK48,
        mixed(a) == mixed(b),
    ensures
        a == b,
{
    let a1 = a ^ (a >> 24u64);
    let b1 = b ^ (b >> 24u64);
    let a2 = mul48(a1, MIX_A);
    let b2 = mul48(b1, MIX_A);
    let a3 = a2 ^ (a2 >> 23u64);
    let b3 = b2 ^ (b2 >> 23u64);
    let a4 = mul48(a3, MIX_B);
    let b4 = mul48(b3, MIX_B);
    assert(a <= 0xffff_ffff_ffff && b <= 0xffff_ffff_ffff ==> {
        &&& (a ^ (a >> 24u64)) <= 0xffff_ffff_ffff
        &&& (b ^ (b >> 24u64)) <= 0xffff_ffff_ffff
        &&& (a ^ (a >> 24u64)) == (b ^ (b >> 24u64)) ==> a == b
    }) by (bit_vector);
    assert(a2 <= 0xffff_ffff_ffff && b2 <= 0xffff_ffff_ffff ==> {
        &&& (a2 ^ (a2 >> 23u64)) <= 0xffff_ffff_ffff
        &&& (b2 ^ (b2 >> 23u64)) <= 0xffff_ffff_ffff
        &&& (a2 ^ (a2 >> 23u64)) == (b2 ^ (b2 >> 23u64)) ==> a2 == b2
    }) by (bit_vector);
    assert(a4 <= 0xffff_ffff_ffff && b4 <= 0xffff_ffff_ffff && (a4 ^ (a4 >> 25u64)) == (b4 ^ (b4
        >> 25u64)) ==> a4 == b4) by (bit_vector);
    lemma_mul48_injective(a3, b3, MIX_B, 0x30b52c8740ed, 0x2467f81739ecint);
    lemma_mul48_injective(a1, b1, MIX_A, 0x393dee219263, 0x2360a07ea155int);
}

/// Candidates of one block never tie: the key is a total order on them.
pub proof fn law_keys_never_tie(sum_a: u32, sum_b: u32, a: u64, b: u64)
    requires
        a <= MASK48,
        b <= MASK48,
        a != b,
    ensures
        key_of(sum_a, a) != key_of(sum_b, b),
{
    lemma_key_fields(sum_a, a);
    lemma_key_fields(sum_b, b);
    if mixed(a) == mixed(b) {
        law_mix_is_one_to_one(a, b);
    }
}

/// Amplitude decides first: a higher quantised amplitude outranks any position.
pub proof fn law_amplitude_decides_first(sum_a: u32, sum_b: u32, a: u64, b: u64)
    requires
        gain_q(sum_a) > gain_q(sum_b),
    ensures
        key_of(sum_a, a) > key_of(sum_b, b),
{
    lemma_key_fields(sum_a, a);
    lemma_key_fields(sum_b, b);
}

pub proof fn lemma_key_fields(sum: u32, index: u64)
    ensures
        mixed(index) <= MASK48,
        gain_q(sum) <= 0x7fff,
        key_of(sum, index) == gain_q(sum) * 0x1_0000_0000_0000 + mixed(index),
{
    let z0 = (index as int % 0x1_0000_0000_0000) as u64;
    let z1 = z0 ^ (z0 >> 24u64);
    let z2 = mul48(z1, MIX_A);
    let z3 = z2 ^ (z2 >> 23u64);
    let z4 = mul48(z3, MIX_B);
    assert(z4 <= 0xffff_ffff_ffff ==> (z4 ^ (z4 >> 25u64)) <= 0xffff_ffff_ffff) by (bit_vector);
}

} // verus!
