//! What goes to the device, as bytes, and what comes back.

use crate::bank::RegionParams;
use crate::bytes::{bytes16, bytes32, lemma_bytes32};
use crate::config::{Config, EnvelopeCurve, StealRule};
use crate::fbits::F32_ONE;
use crate::gpu::{padded_len, SortKeyLayout, PARAMS_BYTES};
use crate::voice::{block_words, pack_spawns, SpawnCmd};
use vstd::prelude::*;

verus! {

/// Words laid out byte by byte, low byte first.
pub open spec fn low_first(words: Seq<u32>) -> Seq<u8> {
    Seq::new(words.len() * 4, |i: int| bytes32(words[i / 4])[i % 4])
}

/// Words laid out byte by byte, high byte first.
pub open spec fn high_first(words: Seq<u32>) -> Seq<u8> {
    Seq::new(words.len() * 4, |i: int| bytes32(words[i / 4])[3 - i % 4])
}

/// The bytes words have in memory, on a machine of either byte order.
pub open spec fn in_memory(words: Seq<u32>, bytes: Seq<u8>) -> bool {
    bytes == low_first(words) || bytes == high_first(words)
}

/// `bytemuck::cast_slice` from words to bytes, copied out. It views the words'
/// memory as bytes, four per word in order, in the byte order of the machine;
/// from words to bytes no alignment or length can make it fail.
#[verifier::external_body]
fn bytes_of(words: &Vec<u32>) -> (r: Vec<u8>)
    ensures
        in_memory(words@, r@),
{
    bytemuck::cast_slice::<u32, u8>(words.as_slice()).to_vec()
}

/// `bytemuck::cast_slice_mut` from words to bytes, and `bytes` copied into the
/// view: the words' memory then holds them, in the byte order of the machine.
/// Casting the other way round can fail on where the bytes happen to lie; from
/// words to bytes no alignment or length can make it fail, and the copy needs
/// the two to be equally long.
#[verifier::external_body]
fn fill_from(words: &mut Vec<u32>, bytes: &[u8])
    requires
        old(words)@.len() * 4 == bytes@.len(),
    ensures
        in_memory(final(words)@, bytes@),
{
    bytemuck::cast_slice_mut::<u32, u8>(words.as_mut_slice()).copy_from_slice(bytes);
}

/// Table rows as the bytes a device buffer takes.
pub fn row_bytes(rows: &Vec<u32>) -> (r: Vec<u8>)
    ensures
        in_memory(rows@, r@),
        r@.len() == rows@.len() * 4,
{
    bytes_of(rows)
}

/// Spawn commands as the bytes a device buffer takes.
pub fn spawn_bytes(cmds: &Vec<SpawnCmd>) -> (r: Vec<u8>)
    ensures
        in_memory(block_words(cmds@), r@),
{
    let w = pack_spawns(cmds);
    bytes_of(&w)
}

/// The words of one entry of the params table, in upload order.
pub open spec fn params_words(p: RegionParams) -> Seq<u32> {
    seq![
        p.attack_rate,
        p.attack_end,
        p.decay_coef,
        p.decay_target,
        p.sustain,
        p.release_coef,
        p.b0,
        p.b1,
        p.a1,
        p.a2,
        p.flags,
        p.pad,
    ]
}

/// The words of a params table, one entry after another.
pub open spec fn table_words(t: Seq<RegionParams>) -> Seq<u32>
    decreases t.len(),
{
    if t.len() == 0 {
        Seq::empty()
    } else {
        table_words(t.drop_last()) + params_words(t.last())
    }
}

/// An entry that leaves a voice alone: full level, no filter.
pub open spec fn plain_params() -> RegionParams {
    RegionParams {
        attack_rate: F32_ONE,
        attack_end: F32_ONE,
        decay_coef: F32_ONE,
        decay_target: F32_ONE,
        sustain: F32_ONE,
        release_coef: 0,
        b0: F32_ONE,
        b1: 0,
        a1: 0,
        a2: 0,
        flags: 0,
        pad: 0,
    }
}

/// The params table that is uploaded first: the bank's own, or a single plain
/// entry where it has none.
pub fn initial_params(t: &Vec<RegionParams>) -> (r: Vec<RegionParams>)
    ensures
        r@ == if t@.len() == 0 {
            seq![plain_params()]
        } else {
            t@
        },
{
    let mut out: Vec<RegionParams> = Vec::new();
    if t.len() == 0 {
        out.push(
            RegionParams {
                attack_rate: F32_ONE,
                attack_end: F32_ONE,
                decay_coef: F32_ONE,
                decay_target: F32_ONE,
                sustain: F32_ONE,
                release_coef: 0,
                b0: F32_ONE,
                b1: 0,
                a1: 0,
                a2: 0,
                flags: 0,
                pad: 0,
            },
        );
        assert(out@ =~= seq![plain_params()]);
        return out;
    }
    let mut i: usize = 0;
    while i < t.len()
        invariant
            i <= t@.len(),
            out@ == t@.take(i as int),
        decreases t@.len() - i,
    {
        let p = t[i];
        out.push(p);
        assert(out@ =~= t@.take(i + 1));
        i += 1;
    }
    assert(out@ =~= t@);
    out
}

/// A params table as the bytes a device buffer takes.
pub fn table_bytes(t: &Vec<RegionParams>) -> (r: Vec<u8>)
    ensures
        in_memory(table_words(t@), r@),
{
    let mut out: Vec<u32> = Vec::new();
    let mut i: usize = 0;
    while i < t.len()
        invariant
            i <= t@.len(),
            out@ == table_words(t@.take(i as int)),
        decreases t@.len() - i,
    {
        let p = t[i];
        let ghost before = out@;
        out.push(p.attack_rate);
        out.push(p.attack_end);
        out.push(p.decay_coef);
        out.push(p.decay_target);
        out.push(p.sustain);
        out.push(p.release_coef);
        out.push(p.b0);
        out.push(p.b1);
        out.push(p.a1);
        out.push(p.a2);
        out.push(p.flags);
        out.push(p.pad);
        assert(out@ =~= before + params_words(p));
        assert(t@.take(i + 1).drop_last() =~= t@.take(i as int));
        i += 1;
    }
    assert(t@.take(i as int) =~= t@);
    bytes_of(&out)
}

/// A signed sample as the unsigned half word with the same bits.
pub open spec fn half_word(v: i16) -> u16 {
    if v < 0 {
        (v + 0x1_0000) as u16
    } else {
        v as u16
    }
}

/// Samples laid out byte by byte, low byte first.
pub open spec fn samples_low_first(pool: Seq<i16>) -> Seq<u8> {
    Seq::new(pool.len() * 2, |i: int| bytes16(half_word(pool[i / 2]))[i % 2])
}

/// Samples laid out byte by byte, high byte first.
pub open spec fn samples_high_first(pool: Seq<i16>) -> Seq<u8> {
    Seq::new(pool.len() * 2, |i: int| bytes16(half_word(pool[i / 2]))[1 - i % 2])
}

/// The bytes samples have in memory, on a machine of either byte order.
pub open spec fn samples_in_memory(pool: Seq<i16>, bytes: Seq<u8>) -> bool {
    bytes == samples_low_first(pool) || bytes == samples_high_first(pool)
}

/// `bytemuck::cast_slice` from samples to bytes, copied out. It views the samples'
/// memory as bytes, two per sample in order, in the byte order of the machine;
/// from samples to bytes no alignment or length can make it fail.
#[verifier::external_body]
fn sample_bytes_of(pool: &Vec<i16>) -> (r: Vec<u8>)
    ensures
        samples_in_memory(pool@, r@),
{
    bytemuck::cast_slice::<i16, u8>(pool.as_slice()).to_vec()
}

/// The sample pool as it is uploaded: a pool of odd length gets a zero at its end,
/// and an empty one two.
pub open spec fn padded(pool: Seq<i16>) -> Seq<i16> {
    if pool.len() == 0 {
        seq![0i16, 0i16]
    } else if pool.len() % 2 == 1 {
        pool.push(0)
    } else {
        pool
    }
}

/// A copy of the sample pool, padded for the upload.
pub fn pad_pool(pool: &Vec<i16>) -> (r: Vec<i16>)
    ensures
        r@ == padded(pool@),
        r@.len() == padded_len(pool@.len() as int),
{
    let n: usize = pool.len();
    let mut out: Vec<i16> = Vec::new();
    let mut i: usize = 0;
    while i < n
        invariant
            i <= n == pool@.len(),
            out@ == pool@.take(i as int),
        decreases n - i,
    {
        let v: i16 = pool[i];
        out.push(v);
        assert(out@ =~= pool@.take(i + 1));
        i += 1;
    }
    assert(pool@.take(n as int) =~= pool@);
    if n % 2 == 1 {
        out.push(0);
    }
    if n == 0 {
        out.push(0);
        out.push(0);
    }
    assert(out@ =~= padded(pool@));
    out
}

/// The sample pool as the bytes a device buffer takes.
pub fn pool_bytes(pool: &Vec<i16>) -> (r: Vec<u8>)
    ensures
        samples_in_memory(padded(pool@), r@),
        r@.len() == padded_len(pool@.len() as int) * 2,
{
    let p = pad_pool(pool);
    sample_bytes_of(&p)
}

/// What the shaders read once per block, besides the tables.
#[derive(Debug, Clone, Copy, PartialEq, Eq, Structural)]
pub struct BlockUniforms {
    pub spawn_count: u32,
    pub steal_k: u32,
    pub render_workgroups: u32,
    pub capacity: u32,
    pub pool_words: u32,
    pub params_per_variant: u32,
    pub bend_active: bool,
    pub gain_active: bool,
    pub variant_active: bool,
    pub sort: SortKeyLayout,
}

pub open spec fn flag(b: bool) -> u32 {
    if b {
        1
    } else {
        0
    }
}

/// The uniform words in upload order.
pub open spec fn uniform_words(cfg: Config, u: BlockUniforms) -> Seq<u32> {
    seq![
        cfg.block_frames,
        (cfg.block_frames as int / cfg.reduce_tile as int) as u32,
        u.capacity,
        u.spawn_count,
        u.render_workgroups,
        cfg.interpolation.code_of(),
        flag(cfg.decay_curve == EnvelopeCurve::Exponential),
        flag(cfg.release_curve == EnvelopeCurve::Exponential),
        cfg.env_floor,
        u.pool_words,
        u.steal_k,
        u.sort.bits,
        u.sort.region_shift,
        u.sort.stage_shift,
        u.sort.phase_shift,
        u.sort.phase_mask,
        u.sort.dead_region,
        (flag(u.bend_active) + 2 * flag(u.gain_active) + 4 * flag(u.variant_active)) as u32,
        u.params_per_variant,
        flag(cfg.steal_rule == StealRule::Quietest),
    ]
}

fn as_flag(b: bool) -> (r: u32)
    ensures
        r == flag(b),
{
    if b {
        1
    } else {
        0
    }
}

/// The uniform block as the bytes a device buffer takes.
pub fn uniform_bytes(cfg: &Config, u: &BlockUniforms) -> (r: Vec<u8>)
    requires
        cfg.reduce_tile > 0,
    ensures
        in_memory(uniform_words(*cfg, *u), r@),
        r@.len() == 80,
{
    let mut w: Vec<u32> = Vec::new();
    w.push(cfg.block_frames);
    w.push(cfg.block_frames / cfg.reduce_tile);
    w.push(u.capacity);
    w.push(u.spawn_count);
    w.push(u.render_workgroups);
    w.push(cfg.interpolation.code());
    w.push(as_flag(cfg.decay_curve == EnvelopeCurve::Exponential));
    w.push(as_flag(cfg.release_curve == EnvelopeCurve::Exponential));
    w.push(cfg.env_floor);
    w.push(u.pool_words);
    w.push(u.steal_k);
    w.push(u.sort.bits);
    w.push(u.sort.region_shift);
    w.push(u.sort.stage_shift);
    w.push(u.sort.phase_shift);
    w.push(u.sort.phase_mask);
    w.push(u.sort.dead_region);
    w.push(as_flag(u.bend_active) + 2 * as_flag(u.gain_active) + 4 * as_flag(u.variant_active));
    w.push(u.params_per_variant);
    w.push(as_flag(cfg.steal_rule == StealRule::Quietest));
    assert(w@ =~= uniform_words(*cfg, *u));
    bytes_of(&w)
}

/// Why a params variant is refused.
#[derive(Debug, Clone, Copy, PartialEq, Eq, Structural)]
pub enum VariantError {
    /// It has another number of entries than the table.
    WrongLength,
    /// It is past the configured maximum.
    PastMaximum,
}

/// Where in its buffer a params variant goes, in bytes.
pub fn variant_offset(cfg: &Config, per_variant: u32, index: u32, len: usize) -> (r: Result<
    u64,
    VariantError,
>)
    requires
        index * per_variant * PARAMS_BYTES <= u64::MAX,
    ensures
        r == if len != per_variant {
            Err::<u64, VariantError>(VariantError::WrongLength)
        } else if index >= (if cfg.max_param_variants < 1 {
            1
        } else {
            cfg.max_param_variants as int
        }) {
            Err::<u64, VariantError>(VariantError::PastMaximum)
        } else {
            Ok::<u64, VariantError>((index * per_variant * PARAMS_BYTES) as u64)
        },
{
    if len as u64 != per_variant as u64 {
        return Err(VariantError::WrongLength);
    }
    let max: u32 = if cfg.max_param_variants < 1 {
        1
    } else {
        cfg.max_param_variants
    };
    if index >= max {
        return Err(VariantError::PastMaximum);
    }
    assert(0 <= index * per_variant <= index * per_variant * PARAMS_BYTES) by (nonlinear_arith)
        requires
            0 <= index,
            0 <= per_variant,
            PARAMS_BYTES == 48,
    ;
    Ok(index as u64 * per_variant as u64 * PARAMS_BYTES)
}

/// The words whose memory the bytes of a device buffer are: state words, or output
/// samples as bit patterns. A word is four bytes, in the byte order of the machine.
pub fn read_words(bytes: &[u8]) -> (r: Vec<u32>)
    requires
        bytes@.len() % 4 == 0,
    ensures
        in_memory(r@, bytes@),
        r@.len() == bytes@.len() / 4,
{
    let n: usize = bytes.len() / 4;
    let mut words: Vec<u32> = Vec::new();
    let mut i: usize = 0;
    while i < n
        invariant
            i <= n,
            words@.len() == i,
        decreases n - i,
    {
        words.push(0);
        i += 1;
    }
    fill_from(&mut words, bytes);
    words
}

/// Neither byte order loses anything: words laid out in one order and read back in
/// the same order are the same words.
pub proof fn law_uploads_read_back(sent: Seq<u32>, got: Seq<u32>)
    requires
        low_first(sent) == low_first(got) || high_first(sent) == high_first(got),
    ensures
        sent == got,
{
    let low = low_first(sent) == low_first(got);
    assert(low_first(sent).len() == sent.len() * 4 && high_first(sent).len() == sent.len() * 4);
    assert(low_first(got).len() == got.len() * 4 && high_first(got).len() == got.len() * 4);
    assert forall|i: int| 0 <= i < sent.len() implies sent[i] == #[trigger] got[i] by {
        assert forall|k: int| 0 <= k < 4 implies #[trigger] bytes32(sent[i])[k] == bytes32(
            got[i],
        )[k] by {
            let j = if low {
                i * 4 + k
            } else {
                i * 4 + 3 - k
            };
            assert(j / 4 == i);
            assert(low ==> low_first(sent)[j] == low_first(got)[j]);
            assert(!low ==> high_first(sent)[j] == high_first(got)[j]);
        }
        assert(bytes32(sent[i]) =~= bytes32(got[i]));
        assert(bytes32(sent[i]).subrange(0, 4) =~= bytes32(sent[i]));
        assert(bytes32(got[i]).subrange(0, 4) =~= bytes32(got[i]));
        lemma_bytes32(bytes32(sent[i]), 0, sent[i]);
        lemma_bytes32(bytes32(got[i]), 0, got[i]);
    }
    assert(sent =~= got);
}

} // verus!
