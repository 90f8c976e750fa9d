//! Planning for the compute backend: what a device has to allocate, how a block
//! is cut down to what fits, and what the host keeps between blocks.
//!
//! Nothing here talks to a device. A host creates the buffers that are planned,
//! records the dispatches that are scheduled and hands back what it read.

use crate::bank::{Bank, SampleInfo};
use crate::config::{AdmitRule, Config, ConfigError, StealRule};
use crate::passes::{bound, flip, other, Buf, Group};
use crate::voice::{pick, spawn_pick, SpawnCmd};
use vstd::arithmetic::power2::{
    lemma2_to64, lemma_pow2_adds, lemma_pow2_pos, lemma_pow2_strictly_increases,
    lemma_pow2_unfold, pow2,
};
use vstd::prelude::*;

verus! {

/// Largest grid one dispatch dimension may take. It bounds the grid, not the
/// pool: every per-voice kernel strides over the pool.
pub const MAX_WORKGROUPS_PER_DIM: u32 = 65535;

/// Words the voice pool stores per slot.
pub const VOICE_FIELDS: u64 = 24;

/// Words in the device state buffer.
pub const STATE_SLOTS: usize = 16;

/// Where the state buffer keeps the live count, the stolen count and the
/// kernel's own drop count.
pub const S_LIVE: usize = 0;

pub const S_STOLEN: usize = 8;

pub const S_DROPPED: usize = 9;

/// Bytes of one entry of the params table.
pub const PARAMS_BYTES: u64 = 48;

/// Bytes reckoned per spawn command when memory use is reported.
pub const CMD_ACCOUNT_BYTES: u64 = 72;

/// Bytes of one spawn command.
pub const CMD_BYTES: u64 = 76;

/// What a device offers, as far as it bounds a render.
#[derive(Debug, Clone, Copy, PartialEq, Eq, Structural)]
pub struct DeviceLimits {
    pub max_compute_workgroup_storage_size: u32,
    pub max_storage_buffer_binding_size: u32,
    pub max_buffer_size: u64,
}

/// Why a device cannot run a configuration.
#[derive(Debug, Clone, Copy, PartialEq, Eq, Structural)]
pub enum GpuError {
    Config(ConfigError),
    /// The render pass needs this many bytes of workgroup storage.
    WorkgroupStorage(u32),
    /// The voice pool does not fit one binding; the most voices that would.
    VoicePool(u64),
    /// The block needs this many reduce workgroups.
    BlockTooLong(u32),
}

// ---- the sort key ---------------------------------------------------------

/// How many binary digits a number has.
pub open spec fn bit_length(x: nat) -> nat
    decreases x,
{
    if x == 0 {
        0
    } else {
        1 + bit_length(x / 2)
    }
}

proof fn lemma_bit_length(x: nat)
    ensures
        x < pow2(bit_length(x)),
        x > 0 ==> pow2((bit_length(x) - 1) as nat) <= x,
        x > 0 ==> bit_length(x) >= 1,
    decreases x,
{
    lemma2_to64();
    if x > 0 {
        lemma_bit_length(x / 2);
        lemma_pow2_unfold(bit_length(x));
        if x / 2 > 0 {
            lemma_pow2_unfold((bit_length(x) - 1) as nat);
        } else {
            assert(x == 1);
            assert(bit_length(0) == 0);
        }
    }
}

proof fn lemma_bit_length_u32(x: u32)
    ensures
        bit_length(x as nat) <= 32,
{
    lemma2_to64();
    lemma_bit_length(x as nat);
    if bit_length(x as nat) > 32 {
        if bit_length(x as nat) - 1 > 32 {
            lemma_pow2_strictly_increases(32, (bit_length(x as nat) - 1) as nat);
        }
    }
}

fn bits_in(x: u32) -> (r: u32)
    ensures
        r == bit_length(x as nat),
        r <= 32,
{
    proof {
        lemma_bit_length_u32(x);
    }
    let mut n: u32 = 0;
    let mut y: u32 = x;
    while y > 0
        invariant
            n + bit_length(y as nat) == bit_length(x as nat),
            bit_length(x as nat) <= 32,
        decreases y,
    {
        n += 1;
        y = y / 2;
    }
    n
}

fn power_of_two(k: u32) -> (r: u64)
    requires
        k <= 32,
    ensures
        r == pow2(k as nat),
{
    let mut p: u64 = 1;
    let mut i: u32 = 0;
    proof {
        lemma2_to64();
    }
    while i < k
        invariant
            i <= k <= 32,
            p == pow2(i as nat),
            p <= 0x1_0000_0000,
        decreases k - i,
    {
        proof {
            lemma_pow2_unfold((i + 1) as nat);
            lemma2_to64();
            if i + 1 < 32 {
                lemma_pow2_strictly_increases((i + 1) as nat, 32);
            }
        }
        p = p * 2;
        i += 1;
    }
    p
}

/// How the voice pool's sort key is packed into one word: region in the high
/// bits, envelope stage next, a coarsened phase in the low bits.
#[derive(Debug, Clone, Copy, PartialEq, Eq, Structural)]
pub struct SortKeyLayout {
    pub bits: u32,
    pub region_shift: u32,
    pub stage_shift: u32,
    pub phase_shift: u32,
    pub phase_mask: u32,
    /// The region dead voices are sorted under: one past the last.
    pub dead_region: u32,
}

/// The longest sample among the first `n`.
pub open spec fn longest(samples: Seq<SampleInfo>, n: int) -> u32
    decreases n,
{
    if n <= 0 {
        1
    } else if samples[n - 1].len > longest(samples, n - 1) {
        samples[n - 1].len
    } else {
        longest(samples, n - 1)
    }
}

/// The key layout for a number of regions and a longest sample.
pub open spec fn key_layout(regions: int, max_len: u32) -> SortKeyLayout {
    let dead: int = if regions < 1 {
        1
    } else {
        regions
    };
    let region_bits = bit_length(dead as nat) as int;
    let len_bits = bit_length(max_len as nat) as int;
    let left: int = if region_bits + 3 > 32 {
        0
    } else {
        32 - (region_bits + 3)
    };
    let phase_bits = if left < len_bits {
        left
    } else {
        len_bits
    };
    SortKeyLayout {
        bits: (region_bits + 3 + phase_bits) as u32,
        region_shift: (phase_bits + 3) as u32,
        stage_shift: phase_bits as u32,
        phase_shift: (len_bits - phase_bits) as u32,
        phase_mask: (pow2(phase_bits as nat) - 1) as u32,
        dead_region: dead as u32,
    }
}

impl SortKeyLayout {
    /// Plan the key for a bank: enough phase resolution that voices in the same
    /// sample land close together, but no finer than the longest sample needs,
    /// and never more bits than the key has left.
    pub fn plan(bank: &Bank) -> (r: SortKeyLayout)
        requires
            bank.regions@.len() <= u32::MAX,
        ensures
            r == key_layout(
                bank.regions@.len() as int,
                longest(bank.samples@, bank.samples@.len() as int),
            ),
    {
        let n: usize = bank.regions.len();
        let dead: u32 = if n < 1 {
            1
        } else {
            n as u32
        };
        let mut max_len: u32 = 1;
        let mut i: usize = 0;
        while i < bank.samples.len()
            invariant
                i <= bank.samples@.len(),
                max_len == longest(bank.samples@, i as int),
            decreases bank.samples@.len() - i,
        {
            let l: u32 = bank.samples[i].len;
            if l > max_len {
                max_len = l;
            }
            i += 1;
        }
        let region_bits: u32 = bits_in(dead);
        let len_bits: u32 = bits_in(max_len);
        let left: u32 = 32u32.saturating_sub(region_bits + 3);
        let phase_bits: u32 = if left < len_bits {
            left
        } else {
            len_bits
        };
        let p: u64 = power_of_two(phase_bits);
        proof {
            lemma_pow2_pos(phase_bits as nat);
            lemma2_to64();
            if phase_bits < 32 {
                lemma_pow2_strictly_increases(phase_bits as nat, 32);
            }
        }
        SortKeyLayout {
            bits: region_bits + 3 + phase_bits,
            region_shift: phase_bits + 3,
            stage_shift: phase_bits,
            phase_shift: len_bits - phase_bits,
            phase_mask: (p - 1) as u32,
            dead_region: dead,
        }
    }
}

/// The sort key fits one word and its fields do not overlap, for any bank of
/// fewer than half a billion regions; and every frame of the longest sample,
/// coarsened, fits the phase field.
pub proof fn law_sort_key_fits(regions: int, max_len: u32, frame: u32)
    requires
        0 <= regions < 0x2000_0000,
        1 <= max_len,
        frame < max_len,
    ensures
        ({
            let k = key_layout(regions, max_len);
            &&& k.bits <= 32
            &&& k.region_shift == k.stage_shift + 3
            &&& k.dead_region < pow2((k.bits - k.region_shift) as nat)
            &&& regions <= k.dead_region
            &&& frame as int / pow2(k.phase_shift as nat) as int <= k.phase_mask
        }),
{
    let dead: int = if regions < 1 {
        1
    } else {
        regions
    };
    lemma_bit_length(dead as nat);
    lemma_bit_length(max_len as nat);
    lemma_bit_length_u32(dead as u32);
    lemma_bit_length_u32(max_len);
    lemma2_to64();
    assert(pow2(29) == 0x2000_0000) by {
        lemma_pow2_unfold(32);
        lemma_pow2_unfold(31);
        lemma_pow2_unfold(30);
    }
    let rb = bit_length(dead as nat);
    if rb > 29 {
        if rb - 1 > 29 {
            lemma_pow2_strictly_increases(29, (rb - 1) as nat);
        }
        assert(false);
    }
    let k = key_layout(regions, max_len);
    let lb = bit_length(max_len as nat);
    let pb = k.stage_shift as nat;
    let ps = k.phase_shift as nat;
    lemma_pow2_adds(ps, pb);
    lemma_pow2_pos(ps);
    lemma_pow2_pos(pb);
    if pb < 32 {
        lemma_pow2_strictly_increases(pb, 32);
    }
    assert(frame < pow2(ps) * pow2(pb));
    assert((frame as int / pow2(ps) as int) < pow2(pb)) by (nonlinear_arith)
        requires
            (frame as int) < pow2(ps) * pow2(pb),
            pow2(ps) > 0,
            frame >= 0,
    ;
}

// ---- grids ----------------------------------------------------------------

/// Workgroups that cover `items`, at least one and at most `cap`.
pub open spec fn grid(items: u32, workgroup_size: u32, cap: u32) -> int {
    let top: int = if cap < 1 {
        1
    } else if cap > MAX_WORKGROUPS_PER_DIM {
        MAX_WORKGROUPS_PER_DIM as int
    } else {
        cap as int
    };
    let n = (items + workgroup_size - 1) / workgroup_size as int;
    if n < 1 {
        1
    } else if n > top {
        top
    } else {
        n
    }
}

fn grid_for(items: u32, workgroup_size: u32, cap: u32) -> (r: u32)
    requires
        workgroup_size > 0,
    ensures
        r == grid(items, workgroup_size, cap),
        1 <= r <= MAX_WORKGROUPS_PER_DIM,
{
    let top: u64 = if cap < 1 {
        1
    } else if cap > MAX_WORKGROUPS_PER_DIM {
        MAX_WORKGROUPS_PER_DIM as u64
    } else {
        cap as u64
    };
    let n: u64 = (items as u64 + workgroup_size as u64 - 1) / workgroup_size as u64;
    if n < 1 {
        1
    } else if n > top {
        top as u32
    } else {
        n as u32
    }
}

/// Workgroups the render pass is dispatched with, given the voices it has to
/// cover. A sparse block gets a small grid, because every dispatched workgroup
/// clears its own slice of the partial buffer.
pub fn render_workgroups(cfg: &Config, voices: u32) -> (r: u32)
    requires
        cfg.workgroup_size > 0,
    ensures
        r == grid(voices, cfg.workgroup_size, cfg.max_render_workgroups),
        1 <= r <= MAX_WORKGROUPS_PER_DIM,
{
    grid_for(voices, cfg.workgroup_size, cfg.max_render_workgroups)
}

/// Workgroups to dispatch for `items` voices. Every kernel this feeds strides
/// over the pool, so the ceiling shortens the grid rather than dropping the
/// tail.
pub fn dispatch_count(cfg: &Config, items: u32) -> (r: u32)
    requires
        cfg.workgroup_size > 0,
    ensures
        r == grid(items, cfg.workgroup_size, cfg.max_pool_workgroups),
        1 <= r <= MAX_WORKGROUPS_PER_DIM,
{
    grid_for(items, cfg.workgroup_size, cfg.max_pool_workgroups)
}

/// A grid below its ceiling covers every item with a thread of its own.
pub proof fn law_grids_cover_their_items(items: u32, workgroup_size: u32, cap: u32)
    requires
        workgroup_size > 0,
        grid(items, workgroup_size, cap) < cap,
        grid(items, workgroup_size, cap) < MAX_WORKGROUPS_PER_DIM,
    ensures
        grid(items, workgroup_size, cap) * workgroup_size >= items,
{
    let n = (items + workgroup_size - 1) / workgroup_size as int;
    vstd::arithmetic::div_mod::lemma_fundamental_div_mod(
        items + workgroup_size - 1,
        workgroup_size as int,
    );
    vstd::arithmetic::mul::lemma_mul_is_commutative(n, workgroup_size as int);
    if n < 1 {
        assert(n * workgroup_size <= 0) by (nonlinear_arith)
            requires
                n < 1,
                workgroup_size > 0,
        ;
    }
}

// ---- allocation -----------------------------------------------------------

/// Everything a device has to allocate for a render, in bytes.
#[derive(Debug, Clone, Copy, PartialEq, Eq, Structural)]
pub struct GpuPlan {
    /// Voice slots: the stride of the pool.
    pub capacity: u32,
    pub tiles: u32,
    /// Most workgroups the render pass is ever dispatched with.
    pub render_workgroups: u32,
    pub scan_workgroups: u32,
    pub cmds_capacity: u32,
    pub pool_bytes: u64,
    pub params_bytes: u64,
    pub voice_bytes: u64,
    pub partial_bytes: u64,
    pub out_bytes: u64,
    pub gates_bytes: u64,
    pub chan_bytes: u64,
    pub state_bytes: u64,
    pub scan_bytes: u64,
    pub block_sums_bytes: u64,
    pub pairs_bytes: u64,
    pub cmds_bytes: u64,
    /// What all of it is reported as.
    pub vram_bytes: u64,
}

/// Samples of the pool as it is uploaded: an even number, and never none.
pub open spec fn padded_len(n: int) -> int {
    if n == 0 {
        2
    } else {
        n + n % 2
    }
}

/// Slots the voice pool gets.
pub open spec fn slots_of(cfg: Config) -> int {
    if cfg.max_voices + cfg.steal_cap() > u32::MAX {
        u32::MAX as int
    } else {
        cfg.max_voices + cfg.steal_cap()
    }
}

/// Bytes a device binds of one buffer at most.
pub open spec fn binding_cap(l: DeviceLimits) -> int {
    if l.max_storage_buffer_binding_size < l.max_buffer_size {
        l.max_storage_buffer_binding_size as int
    } else {
        l.max_buffer_size as int
    }
}

/// The first reason a device cannot run a configuration.
pub open spec fn gpu_fault(cfg: Config, l: DeviceLimits) -> Option<GpuError> {
    if cfg.fault() is Some {
        Some(GpuError::Config(cfg.fault()->Some_0))
    } else if cfg.shared_bytes() > l.max_compute_workgroup_storage_size {
        Some(GpuError::WorkgroupStorage(cfg.shared_bytes() as u32))
    } else if slots_of(cfg) * VOICE_FIELDS * 4 > binding_cap(l) {
        Some(
            GpuError::VoicePool(
                (binding_cap(l) / (VOICE_FIELDS * 4) * 100 / (100 + cfg.max_steal_percent)) as u64,
            ),
        )
    } else if cfg.block_frames * 2 > MAX_WORKGROUPS_PER_DIM {
        Some(GpuError::BlockTooLong((cfg.block_frames * 2) as u32))
    } else {
        None
    }
}

/// What a configuration allocates for a pool of `pool_len` samples and a params
/// table of `params_len` entries.
pub open spec fn plan_of(cfg: Config, pool_len: int, params_len: int) -> GpuPlan {
    let capacity = slots_of(cfg);
    let tiles = cfg.block_frames as int / cfg.gate_frames as int;
    let nwg: int = if cfg.max_render_workgroups < 1 {
        1
    } else if cfg.max_render_workgroups > MAX_WORKGROUPS_PER_DIM {
        MAX_WORKGROUPS_PER_DIM as int
    } else {
        cfg.max_render_workgroups as int
    };
    let variants: int = if cfg.max_param_variants < 1 {
        1
    } else {
        cfg.max_param_variants as int
    };
    let params: int = if params_len == 0 {
        1
    } else {
        params_len
    };
    let cmds: int = if capacity < 1024 {
        1024
    } else if capacity > 65536 {
        65536
    } else {
        capacity
    };
    GpuPlan {
        capacity: capacity as u32,
        tiles: tiles as u32,
        render_workgroups: nwg as u32,
        scan_workgroups: ((capacity + cfg.workgroup_size - 1) / cfg.workgroup_size as int) as u32,
        cmds_capacity: cmds as u32,
        pool_bytes: (padded_len(pool_len) * 2) as u64,
        params_bytes: (params * variants * PARAMS_BYTES) as u64,
        voice_bytes: (capacity * VOICE_FIELDS * 4) as u64,
        partial_bytes: (cfg.block_frames * 2 * nwg * 4) as u64,
        out_bytes: (cfg.block_frames * 2 * 4) as u64,
        gates_bytes: (tiles * 2048 * 4) as u64,
        chan_bytes: (tiles * 64 * 4) as u64,
        state_bytes: (STATE_SLOTS * 4) as u64,
        scan_bytes: (capacity * 4) as u64,
        block_sums_bytes: ((capacity + cfg.workgroup_size - 1) / cfg.workgroup_size as int
            * 4) as u64,
        pairs_bytes: (capacity * 8) as u64,
        cmds_bytes: (cmds * CMD_BYTES) as u64,
        vram_bytes: (padded_len(pool_len) * 2 + params * PARAMS_BYTES + capacity * VOICE_FIELDS * 4
            * 2 + cfg.block_frames * 2 * nwg * 4 + cfg.block_frames * 2 * 4 + tiles * 2048 * 4
            + tiles * 64 * 4 + capacity * 8 + capacity * 16 + cmds * CMD_ACCOUNT_BYTES) as u64,
    }
}

fn check_limits(cfg: &Config, l: &DeviceLimits) -> (r: Result<(), GpuError>)
    requires
        cfg.channels == 2 && 8_000 <= cfg.sample_rate <= 768_000 && cfg.block_frames != 0
            ==> cfg.reduce_tile != 0,
    ensures
        r == match gpu_fault(*cfg, *l) {
            Some(e) => Err::<(), GpuError>(e),
            None => Ok::<(), GpuError>(()),
        },
{
    match cfg.validate() {
        Err(e) => {
            return Err(GpuError::Config(e));
        },
        Ok(_) => {},
    }
    let wg: u64 = cfg.workgroup_size as u64;
    let lanes: u64 = cfg.reduce_tile as u64 * 2 + 1;
    assert(wg * lanes * 4 == cfg.shared_bytes());
    assert(0 <= wg * lanes <= wg * lanes * 4) by (nonlinear_arith);
    let shared: u64 = wg * lanes * 4;
    if shared > l.max_compute_workgroup_storage_size as u64 {
        return Err(GpuError::WorkgroupStorage(shared as u32));
    }
    let voice_bytes: u64 = cfg.pool_slots() as u64 * VOICE_FIELDS * 4;
    let bind: u64 = if (l.max_storage_buffer_binding_size as u64) < l.max_buffer_size {
        l.max_storage_buffer_binding_size as u64
    } else {
        l.max_buffer_size
    };
    if voice_bytes > bind {
        let slot_cap: u64 = bind / (VOICE_FIELDS * 4);
        let percent: u64 = 100 + cfg.max_steal_percent as u64;
        let voice_cap: u64 = slot_cap * 100 / percent;
        return Err(GpuError::VoicePool(voice_cap));
    }
    if cfg.block_frames * 2 > MAX_WORKGROUPS_PER_DIM {
        return Err(GpuError::BlockTooLong(cfg.block_frames * 2));
    }
    Ok(())
}

/// Check a configuration against a device and plan its allocations.
#[verifier::rlimit(40)]
pub fn plan(cfg: &Config, l: &DeviceLimits, pool_len: usize, params_len: usize) -> (r: Result<
    GpuPlan,
    GpuError,
>)
    requires
        cfg.channels == 2 && 8_000 <= cfg.sample_rate <= 768_000 && cfg.block_frames != 0
            ==> cfg.reduce_tile != 0,
        pool_len <= 0xffff_ffff_ffff,
        params_len <= u32::MAX,
        (params_len + 1) * (cfg.max_param_variants + 1) * PARAMS_BYTES <= u64::MAX,
    ensures
        r == match gpu_fault(*cfg, *l) {
            Some(e) => Err::<GpuPlan, GpuError>(e),
            None => Ok::<GpuPlan, GpuError>(plan_of(*cfg, pool_len as int, params_len as int)),
        },
{
    match check_limits(cfg, l) {
        Err(e) => {
            return Err(e);
        },
        Ok(_) => {},
    }
    let frames: u64 = cfg.block_frames as u64;
    let wg: u64 = cfg.workgroup_size as u64;
    let gate: u64 = cfg.gate_frames as u64;
    let cap: u64 = cfg.pool_slots() as u64;
    assert(frames <= 65535 && 32 <= wg <= 1024 && gate > 0);
    let tiles: u64 = frames / gate;
    assert(tiles <= frames) by (nonlinear_arith)
        requires
            tiles == frames / gate,
            gate > 0,
    ;
    let nwg: u64 = if cfg.max_render_workgroups < 1 {
        1
    } else if cfg.max_render_workgroups > MAX_WORKGROUPS_PER_DIM {
        MAX_WORKGROUPS_PER_DIM as u64
    } else {
        cfg.max_render_workgroups as u64
    };
    let variants: u64 = if cfg.max_param_variants < 1 {
        1
    } else {
        cfg.max_param_variants as u64
    };
    let params: u64 = if params_len == 0 {
        1
    } else {
        params_len as u64
    };
    let cmds: u64 = if cap < 1024 {
        1024
    } else if cap > 65536 {
        65536
    } else {
        cap
    };
    let pool: u64 = if pool_len == 0 {
        2
    } else {
        pool_len as u64 + pool_len as u64 % 2
    };
    proof {
        lemma_plan_bounds(
            params as int,
            variants as int,
            params_len + 1,
            cfg.max_param_variants + 1,
            frames as int,
            nwg as int,
        );
    }
    let params_bytes: u64 = params * variants * PARAMS_BYTES;
    let partial_bytes: u64 = frames * 2 * nwg * 4;
    let scan: u64 = (cap + wg - 1) / wg;
    assert(scan <= cap) by (nonlinear_arith)
        requires
            scan == (cap + wg - 1) / wg as int,
            wg >= 1,
            cap >= 1,
    ;
    let vram: u64 = pool * 2 + params * PARAMS_BYTES + cap * VOICE_FIELDS * 4 * 2 + partial_bytes
        + frames * 2 * 4 + tiles * 2048 * 4 + tiles * 64 * 4 + cap * 8 + cap * 16 + cmds
        * CMD_ACCOUNT_BYTES;
    Ok(
        GpuPlan {
            capacity: cap as u32,
            tiles: tiles as u32,
            render_workgroups: nwg as u32,
            scan_workgroups: scan as u32,
            cmds_capacity: cmds as u32,
            pool_bytes: pool * 2,
            params_bytes,
            voice_bytes: cap * VOICE_FIELDS * 4,
            partial_bytes,
            out_bytes: frames * 2 * 4,
            gates_bytes: tiles * 2048 * 4,
            chan_bytes: tiles * 64 * 4,
            state_bytes: STATE_SLOTS as u64 * 4,
            scan_bytes: cap * 4,
            block_sums_bytes: scan * 4,
            pairs_bytes: cap * 8,
            cmds_bytes: cmds * CMD_BYTES,
            vram_bytes: vram,
        },
    )
}

proof fn lemma_plan_bounds(
    params: int,
    variants: int,
    most_params: int,
    most_variants: int,
    frames: int,
    nwg: int,
)
    requires
        0 <= params <= most_params,
        0 <= variants <= most_variants,
        0 <= frames <= 65535,
        0 <= nwg <= 65535,
    ensures
        0 <= params * variants <= params * variants * PARAMS_BYTES,
        params * variants * PARAMS_BYTES <= most_params * most_variants * PARAMS_BYTES,
        0 <= frames * 2 * nwg <= 65535 * 2 * 65535,
{
    assert(0 <= params * variants <= most_params * most_variants) by (nonlinear_arith)
        requires
            0 <= params <= most_params,
            0 <= variants <= most_variants,
    ;
    assert(0 <= frames * 2 * nwg <= 65535 * 2 * 65535) by (nonlinear_arith)
        requires
            0 <= frames <= 65535,
            0 <= nwg <= 65535,
    ;
}

/// The smallest power of two that is at least `n`.
pub open spec fn next_pow2(n: nat) -> nat {
    if n <= 1 {
        1
    } else {
        pow2(bit_length((n - 1) as nat))
    }
}

/// The next power of two is not below the number, and less than twice it.
pub proof fn law_next_pow2_is_next(n: nat)
    requires
        n >= 1,
    ensures
        n <= next_pow2(n) < 2 * n,
{
    lemma2_to64();
    if n > 1 {
        lemma_bit_length((n - 1) as nat);
        lemma_pow2_unfold(bit_length((n - 1) as nat));
    }
}

/// Room for spawn commands once `needed` have to fit: kept while it is enough,
/// else the next power of two, but no more than the pool can hold.
pub open spec fn grown(capacity: u32, needed: u32, max_voices: u32) -> int {
    if needed <= capacity {
        capacity as int
    } else {
        let most: int = if max_voices < needed {
            needed as int
        } else {
            max_voices as int
        };
        if next_pow2(needed as nat) < most {
            next_pow2(needed as nat) as int
        } else {
            most
        }
    }
}

/// How large the spawn command buffer has to be for `needed` commands.
pub fn grow_cmds(capacity: u32, needed: u32, max_voices: u32) -> (r: u32)
    requires
        needed <= 0x8000_0000,
    ensures
        r == grown(capacity, needed, max_voices),
        r >= needed,
{
    if needed <= capacity {
        return capacity;
    }
    proof {
        law_next_pow2_is_next(needed as nat);
    }
    let next: u64 = if needed <= 1 {
        1
    } else {
        power_of_two(bits_in(needed - 1))
    };
    let most: u32 = if max_voices < needed {
        needed
    } else {
        max_voices
    };
    if next < most as u64 {
        next as u32
    } else {
        most
    }
}

// ---- a block --------------------------------------------------------------

/// How many of a block's commands start, and how many voices give way.
#[derive(Debug, Clone, Copy, PartialEq, Eq, Structural)]
pub struct BlockPlan {
    pub spawn_count: u32,
    pub steal_k: u32,
    /// Commands that found no room.
    pub dropped: u32,
}

/// What a block does with `queued` commands beside `live` voices.
pub open spec fn block_plan(cfg: Config, live: int, queued: int) -> BlockPlan {
    let take = cfg.admit_count(live, queued);
    BlockPlan {
        spawn_count: take as u32,
        steal_k: cfg.steal_need(live, queued) as u32,
        dropped: (queued - take) as u32,
    }
}

/// Decide how many of `queued` commands start beside `live` voices.
pub fn plan_block(cfg: &Config, live: u32, queued: u32) -> (r: BlockPlan)
    requires
        cfg.admissible(live as int, queued as int),
    ensures
        r == block_plan(*cfg, live as int, queued as int),
        r.spawn_count <= queued,
        r.spawn_count <= cfg.max_voices,
        r.steal_k <= live,
{
    proof {
        crate::config::law_admission_is_bounded(*cfg, live as int, queued as int);
    }
    let cap: u32 = cfg.max_voices;
    let want: u32 = if queued < cap {
        queued
    } else {
        cap
    };
    let mut steal_k: u32 = 0;
    if live + want > cap {
        match cfg.steal_rule {
            StealRule::DropNew => {},
            _ => {
                let over: u32 = live + want - cap;
                let a: u32 = if over < live {
                    over
                } else {
                    live
                };
                let m: u32 = cfg.max_steal();
                steal_k = if a < m {
                    a
                } else {
                    m
                };
            },
        }
    }
    let room: u32 = cap - (live - steal_k);
    let spawn_count: u32 = if want < room {
        want
    } else {
        room
    };
    BlockPlan { spawn_count, steal_k, dropped: queued - spawn_count }
}

/// The commands that start, out of more than fit: the first ones where the block
/// was ranked, an even choice where it was not.
pub open spec fn chosen(rule: AdmitRule, cmds: Seq<SpawnCmd>, take: int) -> Seq<SpawnCmd> {
    match rule {
        AdmitRule::Loudest => cmds.take(take),
        AdmitRule::Even => Seq::new(
            take as nat,
            |i: int| cmds[pick(i, cmds.len() as int, take)],
        ),
    }
}

/// Pick the commands that start.
pub fn choose_spawns(rule: AdmitRule, cmds: &Vec<SpawnCmd>, take: usize) -> (r: Vec<SpawnCmd>)
    requires
        take <= cmds@.len() <= u32::MAX,
    ensures
        r@ == chosen(rule, cmds@, take as int),
{
    let total: usize = cmds.len();
    let mut out: Vec<SpawnCmd> = Vec::new();
    let mut i: usize = 0;
    let ghost whole = chosen(rule, cmds@, take as int);
    while i < take
        invariant
            i <= take <= total == cmds@.len(),
            total <= u32::MAX,
            whole == chosen(rule, cmds@, take as int),
            out@ == whole.take(i as int),
        decreases take - i,
    {
        let p: usize = match rule {
            AdmitRule::Loudest => i,
            AdmitRule::Even => {
                assert(i * total <= 0xffff_ffff * 0xffff_ffff) by (nonlinear_arith)
                    requires
                        0 <= i <= 0xffff_ffff,
                        0 <= total <= 0xffff_ffff,
                ;
                spawn_pick(i, total, take)
            },
        };
        let c = cmds[p];
        out.push(c);
        assert(out@ =~= whole.take(i + 1));
        i += 1;
    }
    assert(whole.take(take as int) =~= whole);
    out
}

/// What sort of device an adapter stands for.
#[derive(Debug, Clone, Copy, PartialEq, Eq, Structural)]
pub enum AdapterKind {
    Discrete,
    Integrated,
    Other,
}

impl AdapterKind {
    /// How late an adapter of this kind is chosen.
    pub open spec fn rank(self) -> int {
        match self {
            AdapterKind::Discrete => 0,
            AdapterKind::Integrated => 1,
            AdapterKind::Other => 2,
        }
    }

    fn rank_of(self) -> (r: u8)
        ensures
            r == self.rank(),
    {
        match self {
            AdapterKind::Discrete => 0,
            AdapterKind::Integrated => 1,
            AdapterKind::Other => 2,
        }
    }
}

/// Choose among adapters: a discrete one where there is one, else an integrated
/// one, and of several alike the first.
pub fn pick_adapter(kinds: &Vec<AdapterKind>) -> (r: Option<usize>)
    ensures
        match r {
            None => kinds@.len() == 0,
            Some(i) => {
                &&& i < kinds@.len()
                &&& forall|k: int|
                    0 <= k < kinds@.len() ==> kinds@[i as int].rank() <= (
                    #[trigger] kinds@[k]).rank()
                &&& forall|k: int|
                    0 <= k < i ==> kinds@[i as int].rank() < (#[trigger] kinds@[k]).rank()
            },
        },
{
    let n: usize = kinds.len();
    if n == 0 {
        return None;
    }
    let mut best: usize = 0;
    let mut i: usize = 1;
    while i < n
        invariant
            best < i <= n == kinds@.len(),
            forall|k: int|
                0 <= k < i ==> kinds@[best as int].rank() <= (#[trigger] kinds@[k]).rank(),
            forall|k: int|
                0 <= k < best ==> kinds@[best as int].rank() < (#[trigger] kinds@[k]).rank(),
        decreases n - i,
    {
        if kinds[i].rank_of() < kinds[best].rank_of() {
            best = i;
        }
        i += 1;
    }
    Some(best)
}

/// What the device reported at the end of a block.
#[derive(Debug, Clone, Copy, PartialEq, Eq, Structural)]
pub struct DeviceState {
    pub live: u32,
    pub stolen: u64,
    /// Voices the spawn kernel turned away, which it never should have been
    /// handed.
    pub overflow: u32,
}

/// The state the words of a device buffer hold.
pub open spec fn state_of(words: Seq<u32>, max_voices: u32) -> DeviceState {
    let live = words[S_LIVE as int];
    DeviceState {
        live: if live < max_voices {
            live
        } else {
            max_voices
        },
        stolen: words[S_STOLEN as int] as u64,
        overflow: words[S_DROPPED as int],
    }
}

/// Take the state out of the words read back. The live count is held at the pool's
/// ceiling; a buffer that is too short is not read.
pub fn read_state(words: &Vec<u32>, max_voices: u32) -> (r: Option<DeviceState>)
    ensures
        r == if words@.len() < STATE_SLOTS {
            None
        } else {
            Some(state_of(words@, max_voices))
        },
{
    if words.len() < STATE_SLOTS {
        return None;
    }
    let live: u32 = words[S_LIVE];
    Some(
        DeviceState {
            live: if live < max_voices {
                live
            } else {
                max_voices
            },
            stolen: words[S_STOLEN] as u64,
            overflow: words[S_DROPPED],
        },
    )
}

/// What the host keeps of the device between blocks.
#[derive(Debug, Clone, Copy, PartialEq, Eq, Structural)]
pub struct Session {
    /// Which of the two voice buffers holds the live voices.
    pub parity: u8,
    /// The device's live count. Inside a block it counts the stolen voices too,
    /// which sound until they have faded.
    pub live: u32,
    pub stolen: u64,
    pub dropped: u64,
    /// How many commands the spawn buffer holds.
    pub cmds_capacity: u32,
}

/// What one block does.
#[derive(Debug, Clone, Copy, PartialEq, Eq, Structural)]
pub struct BlockWork {
    pub plan: BlockPlan,
    /// Live voices before the block, and the buffer they are in.
    pub live: u32,
    pub parity: u8,
    /// The grid of the render pass and the stride of the partial buffer.
    pub nwg: u32,
    /// Whether the spawn buffer has to be made anew, at the session's capacity.
    pub regrow: bool,
}

impl Session {
    pub open spec fn wf(self) -> bool {
        self.parity <= 1
    }

    /// A device with no voices yet.
    pub fn new(cmds_capacity: u32) -> (r: Self)
        ensures
            r == (Session { parity: 0, live: 0, stolen: 0, dropped: 0, cmds_capacity }),
            r.wf(),
    {
        Session { parity: 0, live: 0, stolen: 0, dropped: 0, cmds_capacity }
    }

    /// The session while a block with `queued` commands runs.
    pub open spec fn begun(self, cfg: Config, queued: int) -> Session {
        let p = block_plan(cfg, self.live as int, queued);
        Session {
            parity: other(self.parity),
            live: (self.live + p.spawn_count) as u32,
            stolen: self.stolen,
            dropped: (self.dropped + p.dropped) as u64,
            cmds_capacity: if p.spawn_count > 0 {
                grown(self.cmds_capacity, p.spawn_count, cfg.max_voices) as u32
            } else {
                self.cmds_capacity
            },
        }
    }

    /// What a block with `queued` commands does.
    pub open spec fn work(self, cfg: Config, queued: int) -> BlockWork {
        let p = block_plan(cfg, self.live as int, queued);
        BlockWork {
            plan: p,
            live: self.live,
            parity: self.parity,
            nwg: grid(
                (self.live + p.spawn_count) as u32,
                cfg.workgroup_size,
                cfg.max_render_workgroups,
            ) as u32,
            regrow: p.spawn_count > self.cmds_capacity,
        }
    }

    /// Plan a block and move to the state the device will be in.
    ///
    /// The render grid covers every voice of the block. Voices die only inside
    /// the render pass, and the stolen ones sound until they stop.
    pub fn begin_block(&mut self, cfg: &Config, queued: u32) -> (r: BlockWork)
        requires
            old(self).wf(),
            cfg.workgroup_size > 0,
            cfg.max_voices <= 0x8000_0000,
            cfg.admissible(old(self).live as int, queued as int),
            old(self).dropped + queued <= u64::MAX,
        ensures
            *final(self) == old(self).begun(*cfg, queued as int),
            final(self).wf(),
            r == old(self).work(*cfg, queued as int),
            r.plan.spawn_count <= final(self).cmds_capacity,
    {
        let p: BlockPlan = plan_block(cfg, self.live, queued);
        let cap: u32 = self.cmds_capacity;
        let regrow: bool = p.spawn_count > cap;
        if p.spawn_count > 0 {
            self.cmds_capacity = grow_cmds(cap, p.spawn_count, cfg.max_voices);
        }
        let live: u32 = self.live;
        let parity: u8 = self.parity;
        let nwg: u32 = render_workgroups(cfg, live + p.spawn_count);
        self.live = live + p.spawn_count;
        self.dropped = self.dropped + p.dropped as u64;
        self.parity = flip(parity);
        BlockWork { plan: p, live, parity, nwg, regrow }
    }

    /// The session after a block the device reported `d` for.
    pub open spec fn finished(self, d: DeviceState) -> Session {
        Session {
            live: d.live,
            stolen: d.stolen,
            dropped: (self.dropped + d.overflow) as u64,
            ..self
        }
    }

    /// Take in the words of the state buffer read back after a block. The result is the
    /// device's own drop count, which has to be cleared on the device where it
    /// is not zero; a buffer that is too short is not read.
    pub fn finish_block(&mut self, cfg: &Config, words: &Vec<u32>) -> (r: Option<u32>)
        requires
            old(self).wf(),
            old(self).dropped + u32::MAX <= u64::MAX,
        ensures
            words@.len() < STATE_SLOTS ==> r is None && *final(self) == *old(self),
            words@.len() >= STATE_SLOTS ==> ({
                let d = state_of(words@, cfg.max_voices);
                &&& r == Some(d.overflow)
                &&& *final(self) == old(self).finished(d)
            }),
            final(self).wf(),
    {
        match read_state(words, cfg.max_voices) {
            None => None,
            Some(d) => {
                self.live = d.live;
                self.stolen = d.stolen;
                self.dropped = self.dropped + d.overflow as u64;
                Some(d.overflow)
            },
        }
    }
}

/// After a block the live count is inside the pool's ceiling, so the next block
/// can be planned whatever it queues.
pub proof fn law_every_block_can_be_planned(cfg: Config, words: Seq<u32>, s: Session, queued: int)
    requires
        cfg.max_voices <= 0x7fff_ffff,
        0 <= queued <= u32::MAX,
    ensures
        cfg.admissible(s.finished(state_of(words, cfg.max_voices)).live as int, queued),
{
    let live = s.finished(state_of(words, cfg.max_voices)).live as int;
    crate::config::law_ceiling_is_kept(cfg, live, queued);
}

/// Every block reads the voice buffer the block before it wrote.
pub proof fn law_voice_buffers_alternate(cfg: Config, s: Session, queued: int)
    requires
        s.wf(),
    ensures
        bound(Group::Compact, s.work(cfg, queued).parity)[2] == Buf::Voices(
            s.begun(cfg, queued).parity,
        ),
        bound(Group::Spawn, s.begun(cfg, queued).parity)[2] == Buf::Voices(
            s.begun(cfg, queued).parity,
        ),
        s.begun(cfg, queued).parity != s.parity,
{
}

/// The time between two timestamps, in ticks. A clock that did not move forward
/// counts as no time.
pub fn elapsed_ticks(begin: u64, end: u64) -> (r: u64)
    ensures
        r == if end > begin {
            (end - begin) as u64
        } else {
            0
        },
{
    if end > begin {
        end - begin
    } else {
        0
    }
}

/// The device keeps what the driver let through: asked to start as many commands
/// as were admitted, it turns none away.
pub proof fn law_device_keeps_what_was_let_through(cfg: Config, live: int, queued: int)
    requires
        0 <= live <= u32::MAX,
        0 <= queued <= u32::MAX,
        cfg.admissible(live, queued),
    ensures
        block_plan(cfg, live, cfg.admit_count(live, queued)).dropped == 0,
        block_plan(cfg, live, cfg.admit_count(live, queued)).spawn_count == cfg.admit_count(
            live,
            queued,
        ),
{
    crate::config::law_admission_is_settled(cfg, live, queued);
    crate::config::law_admission_is_bounded(cfg, live, queued);
}

} // verus!
