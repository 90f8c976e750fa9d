//! What the device is handed: words in their places, buffers of their sizes, and
//! kernels in their order.

use crate::bank::{RegionParams, SampleInfo};
use crate::config::{AdmitRule, Config, EnvelopeCurve, Interpolation, StealRule};
use crate::gpu::{
    block_plan, chosen, gpu_fault, grid, grown, key_layout, longest, padded_len, plan_of, slots_of,
    state_of, AdapterKind, BlockPlan, DeviceLimits, DeviceState, GpuError, Session,
};
use crate::passes::{
    bound, compact_steps, entry_of, other, read_only, render_steps, schedule_of, select_rounds,
    sort_rounds, spawn_steps, steal_steps, Buf, Group, Kernel, Pass, Step,
};
use crate::upload::{padded, params_words, plain_params, table_words, uniform_words, BlockUniforms};
use crate::voice::{block_words, spawn_words, SpawnCmd};
use vstd::arithmetic::power2::pow2;
use vstd::prelude::*;

verus! {

proof fn lemma_block_words(cmds: Seq<SpawnCmd>, i: int, k: int)
    requires
        0 <= i < cmds.len(),
        0 <= k < 19,
    ensures
        block_words(cmds).len() == 19 * cmds.len(),
        block_words(cmds)[19 * i + k] == spawn_words(cmds[i])[k],
    decreases cmds.len(),
{
    let before = cmds.drop_last();
    if before.len() == 0 {
        assert(block_words(before).len() == 0);
    } else if i < before.len() {
        lemma_block_words(before, i, k);
        assert(before[i] == cmds[i]);
    } else {
        lemma_block_words(before, 0, 0);
    }
}

/// A command is nineteen words, each in its own place: phase and step low half
/// first, the sample, the loop, flags, constants, variant and region, then the
/// slot, the ordinal, the start, the id low half first, and the gains left first.
pub proof fn law_words_of_a_command(cmds: Seq<SpawnCmd>, i: int)
    requires
        0 <= i < cmds.len(),
    ensures
        ({
            let w = block_words(cmds);
            let c = cmds[i];
            let at = 19 * i;
            &&& w.len() == 19 * cmds.len()
            &&& w[at] == c.phase_lo && w[at + 1] == c.phase_hi
            &&& w[at + 2] == c.step_lo && w[at + 3] == c.step_hi
            &&& w[at + 4] == c.smp_base && w[at + 5] == c.smp_len
            &&& w[at + 6] == c.loop_start && w[at + 7] == c.loop_end
            &&& w[at + 8] == c.flags && w[at + 9] == c.params
            &&& w[at + 10] == c.variant && w[at + 11] == c.region
            &&& w[at + 12] == c.gate_slot && w[at + 13] == c.ordinal
            &&& w[at + 14] == c.start_rel
            &&& w[at + 15] == c.note_id_lo && w[at + 16] == c.note_id_hi
            &&& w[at + 17] == c.gain_l && w[at + 18] == c.gain_r
        }),
{
    lemma_block_words(cmds, i, 0);
    lemma_block_words(cmds, i, 1);
    lemma_block_words(cmds, i, 2);
    lemma_block_words(cmds, i, 3);
    lemma_block_words(cmds, i, 4);
    lemma_block_words(cmds, i, 5);
    lemma_block_words(cmds, i, 6);
    lemma_block_words(cmds, i, 7);
    lemma_block_words(cmds, i, 8);
    lemma_block_words(cmds, i, 9);
    lemma_block_words(cmds, i, 10);
    lemma_block_words(cmds, i, 11);
    lemma_block_words(cmds, i, 12);
    lemma_block_words(cmds, i, 13);
    lemma_block_words(cmds, i, 14);
    lemma_block_words(cmds, i, 15);
    lemma_block_words(cmds, i, 16);
    lemma_block_words(cmds, i, 17);
    lemma_block_words(cmds, i, 18);
}

proof fn lemma_table_words(t: Seq<RegionParams>, i: int, k: int)
    requires
        0 <= i < t.len(),
        0 <= k < 12,
    ensures
        table_words(t).len() == 12 * t.len(),
        table_words(t)[12 * i + k] == params_words(t[i])[k],
    decreases t.len(),
{
    let before = t.drop_last();
    if before.len() == 0 {
        assert(table_words(before).len() == 0);
    } else if i < before.len() {
        lemma_table_words(before, i, k);
        assert(before[i] == t[i]);
    } else {
        lemma_table_words(before, 0, 0);
    }
}

/// An entry of the constants is twelve words, each in its own place.
pub proof fn law_words_of_the_constants(t: Seq<RegionParams>, i: int)
    requires
        0 <= i < t.len(),
    ensures
        ({
            let w = table_words(t);
            let p = t[i];
            let at = 12 * i;
            &&& w.len() == 12 * t.len()
            &&& w[at] == p.attack_rate && w[at + 1] == p.attack_end
            &&& w[at + 2] == p.decay_coef && w[at + 3] == p.decay_target
            &&& w[at + 4] == p.sustain && w[at + 5] == p.release_coef
            &&& w[at + 6] == p.b0 && w[at + 7] == p.b1
            &&& w[at + 8] == p.a1 && w[at + 9] == p.a2
            &&& w[at + 10] == p.flags && w[at + 11] == p.pad
        }),
{
    lemma_table_words(t, i, 0);
    lemma_table_words(t, i, 1);
    lemma_table_words(t, i, 2);
    lemma_table_words(t, i, 3);
    lemma_table_words(t, i, 4);
    lemma_table_words(t, i, 5);
    lemma_table_words(t, i, 6);
    lemma_table_words(t, i, 7);
    lemma_table_words(t, i, 8);
    lemma_table_words(t, i, 9);
    lemma_table_words(t, i, 10);
    lemma_table_words(t, i, 11);
}

/// A plain entry opens at full level at once, stays there and does not filter.
pub proof fn law_plain_constants()
    ensures
        plain_params().attack_rate == 0x3f80_0000 && plain_params().attack_end == 0x3f80_0000,
        plain_params().sustain == 0x3f80_0000 && plain_params().decay_target == 0x3f80_0000,
        plain_params().decay_coef == 0x3f80_0000 && plain_params().release_coef == 0,
        plain_params().b0 == 0x3f80_0000 && plain_params().b1 == 0,
        plain_params().a1 == 0 && plain_params().a2 == 0 && plain_params().flags == 0,
{
}

/// The twenty words the shaders read once per block, each in its own place.
pub proof fn law_words_of_a_block(cfg: Config, u: BlockUniforms)
    requires
        cfg.reduce_tile > 0,
    ensures
        ({
            let w = uniform_words(cfg, u);
            &&& w.len() == 20
            &&& w[0] == cfg.block_frames
            &&& w[1] == cfg.block_frames as int / cfg.reduce_tile as int
            &&& w[2] == u.capacity
            &&& w[3] == u.spawn_count
            &&& w[4] == u.render_workgroups
            &&& w[5] == (if cfg.interpolation == Interpolation::Nearest { 0u32 } else if
                cfg.interpolation == Interpolation::Linear { 1u32 } else { 2u32 })
            &&& w[6] == 1 <==> cfg.decay_curve == EnvelopeCurve::Exponential
            &&& w[7] == 1 <==> cfg.release_curve == EnvelopeCurve::Exponential
            &&& w[6] <= 1 && w[7] <= 1
            &&& w[8] == cfg.env_floor
            &&& w[9] == u.pool_words
            &&& w[10] == u.steal_k
            &&& w[11] == u.sort.bits
            &&& w[12] == u.sort.region_shift
            &&& w[13] == u.sort.stage_shift
            &&& w[14] == u.sort.phase_shift
            &&& w[15] == u.sort.phase_mask
            &&& w[16] == u.sort.dead_region
            &&& w[17] % 2 == 1 <==> u.bend_active
            &&& w[17] / 2 % 2 == 1 <==> u.gain_active
            &&& w[17] / 4 % 2 == 1 <==> u.variant_active
            &&& w[17] < 8
            &&& w[18] == u.params_per_variant
            &&& w[19] == 1 <==> cfg.steal_rule == StealRule::Quietest
            &&& w[19] <= 1
        }),
{
    let q = cfg.block_frames as int / cfg.reduce_tile as int;
    assert(0 <= q <= cfg.block_frames) by (nonlinear_arith)
        requires
            q == cfg.block_frames as int / cfg.reduce_tile as int,
            cfg.reduce_tile > 0,
            cfg.block_frames >= 0,
    ;
}

/// The pool goes up as it is, with zeros behind it to an even length that is
/// never nought.
pub proof fn law_the_pool_is_padded(pool: Seq<i16>, i: int)
    requires
        0 <= i,
    ensures
        padded(pool).len() >= 2,
        padded(pool).len() % 2 == 0,
        pool.len() <= padded(pool).len() <= pool.len() + 2,
        pool.len() > 0 ==> padded(pool).len() <= pool.len() + 1,
        i < pool.len() ==> padded(pool)[i] == pool[i],
        pool.len() <= i < padded(pool).len() ==> padded(pool)[i] == 0,
{
}

/// The longest of some samples is one of them, or one frame where none is longer,
/// and no sample is longer.
pub proof fn law_the_longest_sample(samples: Seq<SampleInfo>, n: int, i: int)
    requires
        0 <= n <= samples.len(),
        0 <= i < n,
    ensures
        longest(samples, n) >= 1,
        samples[i].len <= longest(samples, n),
        longest(samples, n) == 1 || exists|j: int|
            0 <= j < n && (#[trigger] samples[j]).len == longest(samples, n),
    decreases n,
{
    if n > 1 {
        if i < n - 1 {
            law_the_longest_sample(samples, n - 1, i);
        } else {
            law_the_longest_sample(samples, n - 1, 0);
        }
        if longest(samples, n) != longest(samples, n - 1) {
            assert(samples[n - 1].len == longest(samples, n));
        } else if longest(samples, n) != 1 {
            let j = choose|j: int|
                0 <= j < n - 1 && (#[trigger] samples[j]).len == longest(samples, n - 1);
            assert(samples[j].len == longest(samples, n));
        }
    } else {
        assert(longest(samples, 0) == 1);
        if longest(samples, n) != 1 {
            assert(samples[0].len == longest(samples, n));
        }
    }
}

/// The sort key: region above stage above phase. The stage has three bits, the
/// phase fills its field exactly, and dead voices sort behind every region.
pub proof fn law_the_sort_key(regions: int, max_len: u32)
    requires
        0 <= regions < 0x2000_0000,
    ensures
        ({
            let k = key_layout(regions, max_len);
            &&& k.region_shift == k.stage_shift + 3
            &&& k.phase_mask == (pow2(k.stage_shift as nat) - 1) as u32
            &&& regions >= 1 ==> k.dead_region == regions
            &&& regions == 0 ==> k.dead_region == 1
        }),
{
}

/// As many workgroups as it takes to give every item a thread and no more, within
/// one and the ceiling.
pub proof fn law_grids_are_just_enough(items: u32, size: u32, cap: u32)
    requires
        size > 0,
        cap > 0,
    ensures
        ({
            let g = grid(items, size, cap);
            &&& 1 <= g <= 65535
            &&& g <= cap
            &&& g > 1 ==> (g - 1) * size < items
            &&& g < cap && g < 65535 ==> items <= g * size
        }),
{
    let n = (items + size - 1) / size as int;
    let m = items + size - 1;
    vstd::arithmetic::div_mod::lemma_fundamental_div_mod(m, size as int);
    vstd::arithmetic::div_mod::lemma_mod_bound(m, size as int);
    let g = grid(items, size, cap);
    assert(n * size <= m < n * size + size) by (nonlinear_arith)
        requires
            m == size * n + m % (size as int),
            0 <= m % (size as int) < size,
    ;
    assert((n - 1) * size == n * size - size) by (nonlinear_arith);
    assert(g > 1 ==> (g - 1) * size <= (n - 1) * size) by (nonlinear_arith)
        requires
            g > 1 ==> g <= n,
            size > 0,
    ;
    if n < 1 {
        assert(n * size <= 0) by (nonlinear_arith)
            requires
                n < 1,
                size > 0,
        ;
    }
}

/// What is allocated: twenty-four words a voice in each of two buffers, a partial
/// sum per frame, channel and workgroup, a row per tile for every key and for
/// every channel, nineteen words a command, and forty-eight bytes of constants
/// per entry and variant.
pub proof fn law_what_is_allocated(cfg: Config, pool_len: int, params_len: int)
    requires
        cfg.fault() is None,
        cfg.max_voices <= 0x1000_0000,
        0 < pool_len <= u32::MAX,
        0 < params_len <= 0x1_0000,
        1 <= cfg.max_param_variants <= 64,
        1 <= cfg.max_render_workgroups <= 65535,
    ensures
        ({
            let p = plan_of(cfg, pool_len, params_len);
            let tiles = cfg.block_frames as int / cfg.gate_frames as int;
            &&& p.capacity == cfg.max_voices + cfg.steal_cap()
            &&& p.tiles == tiles
            &&& p.render_workgroups == cfg.max_render_workgroups
            &&& p.voice_bytes == p.capacity * 96
            &&& p.pool_bytes == 2 * (pool_len + pool_len % 2)
            &&& p.params_bytes == params_len * cfg.max_param_variants * 48
            &&& p.out_bytes == cfg.block_frames * 8
            &&& p.partial_bytes == p.out_bytes * cfg.max_render_workgroups
            &&& p.gates_bytes == tiles * 8192
            &&& p.chan_bytes == tiles * 256
            &&& p.state_bytes == 64
            &&& p.scan_bytes == p.capacity * 4
            &&& p.pairs_bytes == p.capacity * 8
            &&& p.cmds_bytes == p.cmds_capacity * 76
            &&& 1024 <= p.cmds_capacity <= 65536
            &&& 1024 <= p.capacity <= 65536 ==> p.cmds_capacity == p.capacity
            &&& p.block_sums_bytes == p.scan_workgroups * 4
        }),
{
    crate::config_laws::law_the_steal_cap_is_a_percentage(cfg);
    crate::config::law_tiles_cover_the_block(cfg);
    let capacity = slots_of(cfg);
    assert(capacity == cfg.max_voices + cfg.steal_cap());
    let tiles = cfg.block_frames as int / cfg.gate_frames as int;
    assert(0 <= tiles <= 65535) by (nonlinear_arith)
        requires
            tiles == cfg.block_frames as int / cfg.gate_frames as int,
            cfg.gate_frames > 0,
            0 <= cfg.block_frames <= 65535,
    ;
    let wg = cfg.workgroup_size as int;
    let q = (capacity + wg - 1) / wg;
    assert(0 <= q <= 0x4000_0000) by (nonlinear_arith)
        requires
            q == (capacity + wg - 1) / wg,
            32 <= wg,
            wg <= 1024,
            0 <= capacity <= 0x2000_0000,
    ;
    let v = cfg.max_param_variants as int;
    assert(0 <= params_len * v <= 0x1_0000 * 64) by (nonlinear_arith)
        requires
            0 < params_len <= 0x1_0000,
            1 <= v <= 64,
    ;
    let n = cfg.max_render_workgroups as int;
    let f = cfg.block_frames as int;
    assert(0 <= f * 2 * n * 4 <= 65535 * 2 * 65535 * 4 && f * 8 * n == f * 2 * n * 4)
        by (nonlinear_arith)
        requires
            0 <= f <= 65535,
            1 <= n <= 65535,
    ;
}

/// A device is refused a configuration for the first thing it cannot hold: what is
/// wrong with the configuration itself, the workgroup's storage, the voice pool in
/// one binding, or a block of more than its dispatches can reach.
pub proof fn law_what_a_device_is_refused_for(cfg: Config, l: DeviceLimits)
    ensures
        gpu_fault(cfg, l) is None <==> {
            &&& cfg.fault() is None
            &&& cfg.workgroup_size * (cfg.reduce_tile * 2 + 1) * 4
                <= l.max_compute_workgroup_storage_size
            &&& slots_of(cfg) * 96 <= l.max_storage_buffer_binding_size
            &&& slots_of(cfg) * 96 <= l.max_buffer_size
            &&& cfg.block_frames * 2 <= 65535
        },
        cfg.fault() is Some ==> gpu_fault(cfg, l) == Some(GpuError::Config(cfg.fault()->Some_0)),
        gpu_fault(cfg, l) matches Some(GpuError::WorkgroupStorage(n)) ==> cfg.shared_bytes()
            > l.max_compute_workgroup_storage_size && (cfg.shared_bytes() <= u32::MAX ==> n
            == cfg.shared_bytes()),
        gpu_fault(cfg, l) matches Some(GpuError::BlockTooLong(n)) ==> n == cfg.block_frames * 2,
{
    assert(slots_of(cfg) * 24 * 4 == slots_of(cfg) * 96);
}

/// A device that is refused for its voice pool is told the largest number of voices
/// that it could hold beside those that fade.
pub proof fn law_how_many_voices_a_device_holds(cfg: Config, l: DeviceLimits)
    ensures
        gpu_fault(cfg, l) matches Some(GpuError::VoicePool(n)) ==> {
            let room: int = if l.max_storage_buffer_binding_size < l.max_buffer_size {
                l.max_storage_buffer_binding_size as int / 96
            } else {
                l.max_buffer_size as int / 96
            };
            &&& n * (100 + cfg.max_steal_percent) <= room * 100
            &&& (n + 1) * (100 + cfg.max_steal_percent) > room * 100
        },
{
    if let Some(GpuError::VoicePool(n)) = gpu_fault(cfg, l) {
        let room: int = if l.max_storage_buffer_binding_size < l.max_buffer_size {
            l.max_storage_buffer_binding_size as int / 96
        } else {
            l.max_buffer_size as int / 96
        };
        let p = 100 + cfg.max_steal_percent;
        let q = room * 100 / p;
        vstd::arithmetic::div_mod::lemma_fundamental_div_mod(room * 100, p);
        vstd::arithmetic::div_mod::lemma_mod_bound(room * 100, p);
        assert(0 <= q <= room) by (nonlinear_arith)
            requires
                q == room * 100 / p,
                p >= 100,
                room >= 0,
        ;
        assert(n == q);
        assert(n * p <= room * 100 && (n + 1) * p > room * 100) by (nonlinear_arith)
            requires
                n == q,
                room * 100 == p * q + (room * 100) % p,
                0 <= (room * 100) % p < p,
        ;
    }
}

/// What is allocated for the pool is what the padded pool takes.
pub proof fn law_the_padded_length(pool: Seq<i16>)
    ensures
        padded_len(pool.len() as int) == padded(pool).len(),
        padded_len(pool.len() as int) % 2 == 0,
        padded_len(pool.len() as int) >= 2,
{
}

/// Room for commands only grows, holds what is needed, and grows no further than
/// to the next power of two.
pub proof fn law_room_for_commands(capacity: u32, needed: u32, max_voices: u32)
    requires
        needed >= 1,
    ensures
        needed <= capacity ==> grown(capacity, needed, max_voices) == capacity,
        needed > capacity ==> needed <= grown(capacity, needed, max_voices) < 2 * needed,
        needed > capacity && needed <= max_voices ==> grown(capacity, needed, max_voices)
            <= max_voices,
{
    crate::gpu::law_next_pow2_is_next(needed as nat);
}

/// Every queued command starts or is counted as dropped.
pub proof fn law_commands_start_or_are_counted(cfg: Config, live: int, queued: int)
    requires
        0 <= live <= cfg.max_voices,
        0 <= queued <= u32::MAX,
        cfg.max_voices <= 0x7fff_ffff,
        cfg.steal_cap() >= 0,
    ensures
        ({
            let p = block_plan(cfg, live, queued);
            &&& p.spawn_count + p.dropped == queued
            &&& live + queued <= cfg.max_voices ==> p.dropped == 0 && p.steal_k == 0
            &&& p.spawn_count == cfg.admit_count(live, queued)
            &&& p.steal_k == cfg.steal_need(live, queued)
            &&& live - p.steal_k + p.spawn_count <= cfg.max_voices
            &&& cfg.steal_rule == StealRule::DropNew ==> p.steal_k == 0
        }),
{
    crate::config::law_ceiling_is_kept(cfg, live, queued);
    crate::config::law_admission_is_bounded(cfg, live, queued);
}

/// Where a block was ranked its first commands start; where it was not, they are
/// thinned evenly over it.
pub proof fn law_which_commands_start(cmds: Seq<SpawnCmd>, take: int, i: int)
    requires
        0 <= i < take <= cmds.len(),
    ensures
        chosen(AdmitRule::Loudest, cmds, take).len() == take,
        chosen(AdmitRule::Loudest, cmds, take)[i] == cmds[i],
        chosen(AdmitRule::Even, cmds, take).len() == take,
        chosen(AdmitRule::Even, cmds, take)[i] == cmds[i * cmds.len() / take],
{
}

/// A discrete adapter before an integrated one before any other.
pub proof fn law_adapters_in_order()
    ensures
        AdapterKind::Discrete.rank() < AdapterKind::Integrated.rank(),
        AdapterKind::Integrated.rank() < AdapterKind::Other.rank(),
{
}

/// The device's state: its live count in the first word, never above the ceiling,
/// and what it stole and turned away in theirs.
pub proof fn law_words_of_the_state(words: Seq<u32>, max_voices: u32)
    requires
        words.len() >= 16,
    ensures
        ({
            let d = state_of(words, max_voices);
            &&& words[0] <= max_voices ==> d.live == words[0]
            &&& words[0] > max_voices ==> d.live == max_voices
            &&& d.stolen == words[8]
            &&& d.overflow == words[9]
        }),
{
}

/// Over a block the host counts in what starts and takes the device's word for
/// what is left; what was dropped on either side adds up.
pub proof fn law_a_session_over_a_block(
    s: Session,
    cfg: Config,
    queued: int,
    d: DeviceState,
)
    requires
        s.wf(),
        0 <= s.live <= cfg.max_voices <= 0x3fff_ffff,
        0 <= queued <= u32::MAX,
        s.dropped <= 0xffff_ffff_0000_0000,
        cfg.steal_cap() >= 0,
    ensures
        ({
            let p = block_plan(cfg, s.live as int, queued);
            let b = s.begun(cfg, queued);
            let e = b.finished(d);
            let w = s.work(cfg, queued);
            &&& b.live == s.live + p.spawn_count
            &&& b.dropped == s.dropped + p.dropped
            &&& b.stolen == s.stolen
            &&& b.parity != s.parity && b.parity <= 1
            &&& e.live == d.live && e.stolen == d.stolen
            &&& s.dropped + p.dropped + d.overflow <= u64::MAX ==> e.dropped == s.dropped
                + p.dropped + d.overflow
            &&& e.parity == b.parity && e.cmds_capacity == b.cmds_capacity
            &&& w.live == s.live && w.parity == s.parity && w.plan == p
            &&& w.regrow <==> p.spawn_count > s.cmds_capacity
            &&& w.nwg == grid(
                (s.live + p.spawn_count) as u32,
                cfg.workgroup_size,
                cfg.max_render_workgroups,
            ) as u32
        }),
{
    law_commands_start_or_are_counted(cfg, s.live as int, queued);
}

/// Which buffers a group's kernels read and do not write: the commands of a
/// spawn; samples, constants, both tables and the state of a render; the partial
/// sums of a reduction; the voices of a selection. Compacting and sorting write
/// all of theirs.
pub proof fn law_what_kernels_only_read(g: Group, parity: u8, i: int)
    requires
        0 <= i < bound(g, parity).len(),
    ensures
        ({
            let b = bound(g, parity)[i];
            let r = read_only(g)[i];
            &&& read_only(g).len() == bound(g, parity).len()
            &&& bound(g, parity)[0] == Buf::Uniforms && !read_only(g)[0]
            &&& g == Group::Spawn ==> (r <==> b == Buf::Cmds)
            &&& g == Group::Render ==> (r <==> b == Buf::Pool || b == Buf::Params || b
                == Buf::Gates || b == Buf::Chan || b == Buf::State)
            &&& g == Group::Reduce ==> (r <==> b == Buf::Partials)
            &&& g == Group::Select ==> (r <==> b is Voices)
            &&& g == Group::Compact || g is Sort ==> !r
        }),
{
}

/// Which buffers a group binds: the live voices are in the buffer the parity
/// names, and what compacts or sorts them writes the other.
pub proof fn law_what_groups_bind(pair: u8, parity: u8)
    requires
        parity <= 1,
        pair <= 1,
    ensures
        bound(Group::Spawn, parity)[1] == Buf::Cmds && bound(Group::Spawn, parity)[2]
            == Buf::Voices(parity) && bound(Group::Spawn, parity)[3] == Buf::State,
        bound(Group::Render, parity)[1] == Buf::Pool && bound(Group::Render, parity)[2]
            == Buf::Params && bound(Group::Render, parity)[3] == Buf::Gates,
        bound(Group::Render, parity)[4] == Buf::Voices(parity) && bound(Group::Render, parity)[5]
            == Buf::Partials && bound(Group::Render, parity)[6] == Buf::State,
        bound(Group::Render, parity)[7] == Buf::Chan,
        bound(Group::Reduce, parity)[1] == Buf::Partials && bound(Group::Reduce, parity)[2]
            == Buf::Out,
        bound(Group::Compact, parity)[1] == Buf::Voices(parity) && bound(Group::Compact, parity)[2]
            == Buf::Voices((1 - parity) as u8),
        bound(Group::Compact, parity)[3] == Buf::Scan && bound(Group::Compact, parity)[4]
            == Buf::BlockSums && bound(Group::Compact, parity)[5] == Buf::State,
        bound(Group::Compact, parity)[6] == Buf::SortKeys,
        bound(Group::Select, parity)[1] == Buf::Voices(parity) && bound(Group::Select, parity)[2]
            == Buf::State && bound(Group::Select, parity)[3] == Buf::Hist,
        bound(Group::Sort(pair), parity)[1] == Buf::Pairs(pair) && bound(
            Group::Sort(pair),
            parity,
        )[2] == Buf::Pairs((1 - pair) as u8),
        bound(Group::Sort(pair), parity)[3] == Buf::Scan && bound(Group::Sort(pair), parity)[4]
            == Buf::BlockSums && bound(Group::Sort(pair), parity)[5] == Buf::State,
        bound(Group::Sort(pair), parity)[6] == Buf::Voices(parity) && bound(
            Group::Sort(pair),
            parity,
        )[7] == Buf::Voices((1 - parity) as u8),
        other(other(parity)) == parity,
{
}

proof fn lemma_select_rounds(wgs: u32, n: nat, k: int)
    requires
        0 <= k < n,
    ensures
        select_rounds(wgs, n).len() == 3 * n,
        select_rounds(wgs, n)[3 * k].kernel == Kernel::SelClear,
        select_rounds(wgs, n)[3 * k].workgroups == 1,
        select_rounds(wgs, n)[3 * k + 1].kernel == Kernel::SelHistogram,
        select_rounds(wgs, n)[3 * k + 1].workgroups == wgs,
        select_rounds(wgs, n)[3 * k + 2].kernel == Kernel::SelRefine,
        select_rounds(wgs, n)[3 * k + 2].workgroups == 1,
    decreases n,
{
    if n == 1 {
        assert(select_rounds(wgs, 0).len() == 0);
    } else if k < n - 1 {
        lemma_select_rounds(wgs, (n - 1) as nat, k);
    } else {
        lemma_select_rounds(wgs, (n - 1) as nat, 0);
    }
}

/// The steal pass: nothing where nothing gives way; else the selection is started,
/// a byte of the key is settled in each of eight rounds over the live voices, and
/// those selected are marked and counted.
pub proof fn law_the_steal_pass(steal_k: u32, wgs: u32, k: int)
    requires
        0 <= k < 8,
    ensures
        steal_k == 0 ==> steal_steps(steal_k, wgs).len() == 0,
        steal_k > 0 ==> {
            let s = steal_steps(steal_k, wgs);
            &&& s.len() == 27
            &&& s[0].kernel == Kernel::SelInit && s[0].workgroups == 1
            &&& s[1 + 3 * k].kernel == Kernel::SelClear
            &&& s[2 + 3 * k].kernel == Kernel::SelHistogram && s[2 + 3 * k].workgroups == wgs
            &&& s[3 + 3 * k].kernel == Kernel::SelRefine
            &&& s[25].kernel == Kernel::MarkStolen && s[25].workgroups == wgs
            &&& s[26].kernel == Kernel::NoteStolen && s[26].workgroups == 1
        },
{
    lemma_select_rounds(wgs, 8, k);
}

proof fn lemma_sort_rounds(wgs: u32, n: nat, k: int)
    requires
        0 <= k < n,
    ensures
        ({
            let s = sort_rounds(wgs, n);
            let g = Group::Sort((k % 2) as u8);
            &&& s.len() == 4 * n
            &&& s[4 * k].kernel == Kernel::SortScanLocal && s[4 * k].workgroups == wgs
            &&& s[4 * k + 1].kernel == Kernel::SortScanBlocks && s[4 * k + 1].workgroups == 1
            &&& s[4 * k + 2].kernel == Kernel::SortSplit && s[4 * k + 2].workgroups == wgs
            &&& s[4 * k + 3].kernel == Kernel::SortAdvance && s[4 * k + 3].workgroups == 1
            &&& s[4 * k].group == g && s[4 * k + 1].group == g && s[4 * k + 2].group == g && s[4 * k
                + 3].group == g
        }),
    decreases n,
{
    if n == 1 {
        assert(sort_rounds(wgs, 0).len() == 0);
    } else if k < n - 1 {
        lemma_sort_rounds(wgs, (n - 1) as nat, k);
    } else {
        lemma_sort_rounds(wgs, (n - 1) as nat, 0);
    }
}

/// The compact pass counts the survivors, then scatters them as they are, or
/// sorts them: keys are built once, each bit of them is settled in a round that
/// reads the pairs the round before it wrote, and the voices are gathered from the
/// last. Either way the new count is committed last.
pub proof fn law_the_compact_pass(bits: u32, wgs: u32, k: int)
    requires
        0 <= k < bits,
    ensures
        ({
            let u = compact_steps(false, bits, wgs);
            &&& u.len() == 4
            &&& u[0].kernel == Kernel::ScanLocal && u[0].workgroups == wgs
            &&& u[1].kernel == Kernel::ScanBlocks && u[1].workgroups == 1
            &&& u[2].kernel == Kernel::Scatter && u[2].workgroups == wgs
            &&& u[3].kernel == Kernel::CompactCommit && u[3].workgroups == 1
        }),
        ({
            let s = compact_steps(true, bits, wgs);
            let g = Group::Sort((k % 2) as u8);
            &&& s.len() == 4 * bits + 6
            &&& s[0].kernel == Kernel::ScanLocal && s[0].workgroups == wgs
            &&& s[1].kernel == Kernel::ScanBlocks
            &&& s[2].kernel == Kernel::SortInit && s[2].workgroups == 1
            &&& s[3].kernel == Kernel::SortBuildKeys && s[3].workgroups == wgs
            &&& s[4 + 4 * k].kernel == Kernel::SortScanLocal && s[4 + 4 * k].group == g
            &&& s[5 + 4 * k].kernel == Kernel::SortScanBlocks && s[5 + 4 * k].group == g
            &&& s[6 + 4 * k].kernel == Kernel::SortSplit && s[6 + 4 * k].group == g
            &&& s[7 + 4 * k].kernel == Kernel::SortAdvance && s[7 + 4 * k].group == g
            &&& s[4 * bits + 4].kernel == Kernel::SortGather && s[4 * bits + 4].group
                == Group::Sort((bits as int % 2) as u8)
            &&& s[4 * bits + 5].kernel == Kernel::CompactCommit && s[4 * bits + 5].workgroups == 1
        }),
{
    lemma_sort_rounds(wgs, bits as nat, k);
}

/// Starting, rendering and reducing: commands are started where there are any and
/// their count is committed in any case; the controller path runs only where a
/// block uses it; and the reduction has a workgroup for every sample of the block.
pub proof fn law_spawn_and_render_passes(
    spawn_count: u32,
    spawn_wgs: u32,
    controls: bool,
    nwg: u32,
    frames: u32,
)
    requires
        frames <= 0x7fff_ffff,
    ensures
        spawn_count > 0 ==> spawn_steps(spawn_count, spawn_wgs).len() == 2 && spawn_steps(
            spawn_count,
            spawn_wgs,
        )[0].kernel == Kernel::SpawnMain && spawn_steps(spawn_count, spawn_wgs)[0].workgroups
            == spawn_wgs,
        spawn_count == 0 ==> spawn_steps(spawn_count, spawn_wgs).len() == 1,
        spawn_steps(spawn_count, spawn_wgs).last().kernel == Kernel::SpawnCommit,
        spawn_steps(spawn_count, spawn_wgs).last().workgroups == 1,
        render_steps(controls, nwg, frames).len() == 2,
        render_steps(controls, nwg, frames)[0].kernel == (if controls {
            Kernel::RenderChan
        } else {
            Kernel::Render
        }),
        render_steps(controls, nwg, frames)[0].workgroups == nwg,
        render_steps(controls, nwg, frames)[1].kernel == Kernel::Reduce,
        render_steps(controls, nwg, frames)[1].workgroups == 2 * frames,
{
}

/// Where a pass stands in a block.
pub open spec fn turn(p: Pass) -> int {
    match p {
        Pass::Steal => 0,
        Pass::Spawn => 1,
        Pass::Render => 2,
        Pass::Reduce => 3,
        Pass::Compact => 4,
    }
}

spec fn all_in(steps: Seq<Step>, p: Pass) -> bool {
    forall|i: int| 0 <= i < steps.len() ==> (#[trigger] steps[i]).pass == p
}

proof fn lemma_select_pass(wgs: u32, n: nat)
    ensures
        all_in(select_rounds(wgs, n), Pass::Steal),
    decreases n,
{
    if n > 0 {
        lemma_select_pass(wgs, (n - 1) as nat);
    }
}

proof fn lemma_sort_pass(wgs: u32, n: nat)
    ensures
        all_in(sort_rounds(wgs, n), Pass::Compact),
    decreases n,
{
    if n > 0 {
        lemma_sort_pass(wgs, (n - 1) as nat);
    }
}

/// The passes of a block come in turn: steal, spawn, render, reduce, compact. The
/// steal pass covers the live voices, the spawn pass what starts, and the compact
/// pass both.
pub proof fn law_passes_come_in_turn(
    cfg: Config,
    live: u32,
    p: BlockPlan,
    nwg: u32,
    controls: bool,
    bits: u32,
    i: int,
    j: int,
)
    requires
        0 <= i < j < schedule_of(cfg, live, p, nwg, controls, bits).len(),
    ensures
        turn(schedule_of(cfg, live, p, nwg, controls, bits)[i].pass) <= turn(
            schedule_of(cfg, live, p, nwg, controls, bits)[j].pass,
        ),
{
    let live_wgs = grid(live, cfg.workgroup_size, cfg.max_pool_workgroups) as u32;
    let spawn_wgs = grid(p.spawn_count, cfg.workgroup_size, cfg.max_pool_workgroups) as u32;
    let all_wgs = grid(
        (live + p.spawn_count) as u32,
        cfg.workgroup_size,
        cfg.max_pool_workgroups,
    ) as u32;
    lemma_select_pass(live_wgs, 8);
    lemma_sort_pass(all_wgs, bits as nat);
    let a = steal_steps(p.steal_k, live_wgs);
    let b = spawn_steps(p.spawn_count, spawn_wgs);
    let c = render_steps(controls, nwg, cfg.block_frames);
    let d = compact_steps(cfg.sort_voices, bits, all_wgs);
    assert(all_in(a, Pass::Steal));
    assert(all_in(b, Pass::Spawn));
    assert(all_in(d, Pass::Compact));
    let s = schedule_of(cfg, live, p, nwg, controls, bits);
    assert(s == a + b + c + d);
    lemma_joined(a, b, c, d, i);
    lemma_joined(a, b, c, d, j);
}

proof fn lemma_joined(a: Seq<Step>, b: Seq<Step>, c: Seq<Step>, d: Seq<Step>, i: int)
    requires
        0 <= i < (a + b + c + d).len(),
    ensures
        ({
            let s = a + b + c + d;
            let ab = a.len() + b.len();
            &&& i < a.len() ==> s[i] == a[i]
            &&& a.len() <= i < ab ==> s[i] == b[i - a.len()]
            &&& ab <= i < ab + c.len() ==> s[i] == c[i - ab]
            &&& ab + c.len() <= i ==> s[i] == d[i - ab - c.len()]
        }),
{
}

/// The grids of a block: the steal pass covers the live voices, the spawn pass
/// what starts, and the compact pass both together.
pub proof fn law_what_the_passes_cover(
    cfg: Config,
    live: u32,
    p: BlockPlan,
    nwg: u32,
    controls: bool,
    bits: u32,
)
    ensures
        ({
            let s = schedule_of(cfg, live, p, nwg, controls, bits);
            let of = |n: u32| grid(n, cfg.workgroup_size, cfg.max_pool_workgroups) as u32;
            let a = steal_steps(p.steal_k, of(live));
            let b = spawn_steps(p.spawn_count, of(p.spawn_count));
            let c = render_steps(controls, nwg, cfg.block_frames);
            s == a + b + c + compact_steps(
                cfg.sort_voices,
                bits,
                of((live + p.spawn_count) as u32),
            )
        }),
{
}

/// Every kernel is found in the shader it is written in: no two kernels of one
/// shader share an entry point, and the two render kernels are two shaders.
pub proof fn law_kernels_have_their_own_entries(a: Kernel, b: Kernel)
    requires
        entry_of(a) == entry_of(b),
    ensures
        a == b,
{
    reveal_strlit("spawn");
    reveal_strlit("main");
    reveal_strlit("commit");
    reveal_strlit("render");
    reveal_strlit("render_chan");
    reveal_strlit("reduce");
    reveal_strlit("compact");
    reveal_strlit("scan_local");
    reveal_strlit("scan_blocks");
    reveal_strlit("scatter");
    reveal_strlit("mark_stolen");
    reveal_strlit("note_stolen");
    reveal_strlit("select");
    reveal_strlit("clear");
    reveal_strlit("init");
    reveal_strlit("histogram");
    reveal_strlit("refine");
    reveal_strlit("sort");
    reveal_strlit("advance_bit");
    reveal_strlit("build_keys");
    reveal_strlit("split");
    reveal_strlit("gather");
    let x = entry_of(a).0@;
    let y = entry_of(a).1@;
    assert(x == entry_of(b).0@ && y == entry_of(b).1@);
    assert("spawn"@[1] == 'p' && "sort"@[1] == 'o' && "select"@[1] == 'e');
    assert("spawn"@[0] == 's' && "render"@[0] == 'r' && "compact"@[0] == 'c');
    assert("render"@[2] == 'n' && "reduce"@[2] == 'd' && "render"@.len() == 6
        && "render_chan"@.len() == 11 && "reduce"@.len() == 6 && "compact"@.len() == 7);
    assert("main"@[0] == 'm' && "commit"@[0] == 'c' && "scatter"@[2] == 'a' && "scan_local"@[5]
        == 'l' && "scan_blocks"@[5] == 'b');
    assert("scatter"@.len() == 7 && "scan_local"@.len() == 10 && "scan_blocks"@.len() == 11
        && "commit"@.len() == 6 && "mark_stolen"@.len() == 11 && "note_stolen"@.len() == 11);
    assert("scan_blocks"@[0] == 's' && "mark_stolen"@[0] == 'm' && "note_stolen"@[0] == 'n');
    assert("clear"@[0] == 'c' && "init"@[0] == 'i' && "histogram"@[0] == 'h' && "refine"@[0]
        == 'r');
    assert("advance_bit"@[0] == 'a' && "build_keys"@[0] == 'b' && "split"@[0] == 's' && "split"@[1]
        == 'p' && "gather"@[0] == 'g' && "scan_local"@[1] == 'c' && "scan_blocks"@[1] == 'c');
}

} // verus!
