//! A note-on from its key to the voices it starts: what each candidate is ranked
//! by, and what the voice it becomes plays.

use crate::admission::{
    admitted, amplitude, filled, is_top_of, law_pack_round_trip, packed, ranked_front, share,
    splits_at_the_top, strata_of, unpacked, Cand, NoteOn, DEFERRED,
};
use crate::bank::{
    effective_key, params_offset, voice_from, Bank, LoopMode, Region, RegionMath, SampleInfo,
    VoiceSpawn,
};
use crate::bank_laws::law_preview_is_exact;
use crate::config::{AdmitRule, Config};
use crate::controls::Event;
use crate::cursor::{has_loop, is_one_shot, loop_ends_with_note};
use crate::driver::{command, DriverState, Strike};
use crate::gates::{chan_of, slot_of};
use crate::voice::{gain_q, lemma_key_fields, SpawnCmd};
use vstd::prelude::*;

verus! {

/// The amplitude a candidate is ranked by is the top half of a positive number's
/// bit pattern; silence, a negative number and what is no number rank lowest.
pub proof fn law_amplitude_is_quantised(sum: u32)
    ensures
        0 < sum <= 0x7f80_0000 ==> gain_q(sum) == sum / 0x1_0000,
        sum == 0 || sum > 0x7f80_0000 ==> gain_q(sum) == 0,
        gain_q(sum) < 0x8000,
{
}

/// A built voice is what its region, its sample and its precomputed arithmetic
/// say: it reads its own sample from the region's start offset, at the pitch of
/// its key, with the gains and the loudness of its velocity.
pub proof fn law_a_voice_is_built_from_its_region(
    r: Region,
    index: u32,
    s: SampleInfo,
    m: RegionMath,
    key: u8,
    vel: u8,
)
    requires
        s.len > 0,
        key < 128,
        m.wf(),
    ensures
        ({
            let v = voice_from(r, index, s, m, key, vel);
            &&& v.region == index
            &&& v.smp_base == s.start
            &&& v.step.0 == m.pitches@[key as int].step
            &&& v.gain_l == m.gains@[vel as int].l
            &&& v.gain_r == m.gains@[vel as int].r
            &&& v.loud == m.gains@[vel as int].loud
            &&& v.delay_frames == m.delay_frames
            &&& v.exclusive_class == r.exclusive_class
            &&& 0 <= m.start < s.len ==> v.phase.0 == m.start * 0x1_0000_0000
            &&& m.start < 0 ==> v.phase.0 == 0
            &&& m.start >= s.len ==> v.phase.0 == (s.len - 1) * 0x1_0000_0000
            &&& 1 <= s.len + m.end <= s.len ==> v.smp_len == s.len + m.end
            &&& m.end > 0 ==> v.smp_len == s.len
            &&& s.len + m.end < 1 ==> v.smp_len == 1
            &&& 0 <= s.loop_start + m.loop_start < v.smp_len ==> v.loop_start == s.loop_start
                + m.loop_start
            &&& s.loop_start + m.loop_start < 0 ==> v.loop_start == 0
            &&& s.loop_start + m.loop_start >= v.smp_len ==> v.loop_start == v.smp_len - 1
            &&& 0 <= s.loop_end + m.loop_end <= v.smp_len ==> v.loop_end == s.loop_end
                + m.loop_end
            &&& s.loop_end + m.loop_end < 0 ==> v.loop_end == 0
            &&& s.loop_end + m.loop_end > v.smp_len ==> v.loop_end == v.smp_len
            &&& r.params_base + params_offset(r, key, vel) <= u32::MAX ==> v.params
                == r.params_base + params_offset(r, key, vel)
        }),
{
}

/// A voice loops exactly where its region does: its loop flag is set when the
/// region has a loop mode, is no one-shot and its loop is at least two frames
/// long; the loop ends with the note in the one mode that says so; and a one-shot
/// neither loops nor hears its note-off.
pub proof fn law_a_voice_loops_where_its_region_does(
    r: Region,
    index: u32,
    s: SampleInfo,
    m: RegionMath,
    key: u8,
    vel: u8,
)
    requires
        s.len > 0,
    ensures
        ({
            let v = voice_from(r, index, s, m, key, vel);
            let loops = r.loop_mode != LoopMode::NoLoop && !r.one_shot && v.loop_start + 2
                <= v.loop_end;
            &&& has_loop(v.flags) <==> loops
            &&& loop_ends_with_note(v.flags) <==> loops && r.loop_mode == LoopMode::UntilRelease
            &&& is_one_shot(v.flags) <==> r.one_shot
            &&& v.flags == (if r.one_shot { 4u32 } else if !loops { 0u32 } else if r.loop_mode
                == LoopMode::UntilRelease { 3u32 } else { 1u32 })
        }),
{
}

/// The place of a key and velocity in a region's constants: one per key where the
/// envelope depends on the key, one per velocity where the filter does, and the
/// key a region is fixed to in place of the one struck.
pub proof fn law_where_a_region_looks_for_constants(r: Region, key: u8, other: u8, vel: u8)
    requires
        vel < 128,
    ensures
        r.params_stride == 0 && r.params_vel_span <= 1 ==> params_offset(r, key, vel) == 0,
        r.params_stride == 0 ==> params_offset(r, key, vel) == params_offset(r, other, vel),
        r.params_stride != 0 && r.params_vel_span <= 1 && r.fixed_key < 0 ==> params_offset(
            r,
            key,
            vel,
        ) == key,
        r.params_stride != 0 && r.params_vel_span <= 1 && 0 <= r.fixed_key < 128 ==> params_offset(
            r,
            key,
            vel,
        ) == r.fixed_key,
        r.params_stride == 0 && r.params_vel_span > 1 && vel <= r.vel_lo ==> params_offset(
            r,
            key,
            vel,
        ) == 0,
        r.params_stride == 0 && 0 < vel - r.vel_lo < r.params_vel_span ==> params_offset(
            r,
            key,
            vel,
        ) == vel - r.vel_lo,
        r.params_stride != 0 && r.fixed_key < 0 && 0 < vel - r.vel_lo < r.params_vel_span
            ==> params_offset(r, key, vel) == (vel - r.vel_lo) * 128 + key,
        0 <= r.fixed_key < 128 ==> effective_key(r, key) == r.fixed_key,
        r.fixed_key < 0 ==> effective_key(r, key) == key,
{
}

/// Everything a built voice plays goes into the command that starts it: its
/// phase and step in two halves each, its sample, its loop, its flags, its
/// constants and its gains; beside it the variant, slot, ordinal, frame and id of
/// its note.
pub proof fn law_a_command_carries_its_voice(
    v: VoiceSpawn,
    variant: u32,
    slot: int,
    ordinal: u32,
    start: int,
    id: int,
)
    requires
        0 <= slot <= u32::MAX,
        0 <= start <= u32::MAX,
        0 <= id <= u64::MAX,
    ensures
        ({
            let c = command(v, variant, slot, ordinal, start, id);
            &&& c.phase_hi * 0x1_0000_0000 + c.phase_lo == v.phase.0
            &&& c.step_hi * 0x1_0000_0000 + c.step_lo == v.step.0
            &&& c.note_id_hi * 0x1_0000_0000 + c.note_id_lo == id
            &&& c.smp_base == v.smp_base && c.smp_len == v.smp_len
            &&& c.loop_start == v.loop_start && c.loop_end == v.loop_end
            &&& c.flags == v.flags
            &&& has_loop(c.flags) == has_loop(v.flags)
            &&& loop_ends_with_note(c.flags) == loop_ends_with_note(v.flags)
            &&& is_one_shot(c.flags) == is_one_shot(v.flags)
            &&& c.params == v.params && c.region == v.region
            &&& c.gain_l == v.gain_l && c.gain_r == v.gain_r
            &&& c.variant == variant && c.gate_slot == slot && c.ordinal == ordinal
            &&& c.start_rel == start
        }),
{
}

/// A candidate of a note-on: it is ranked by the quantised loudness of the voice
/// it is built into, and knows its region, its note and its id.
pub open spec fn stands_for(
    d: DriverState,
    bank: Bank,
    s: Strike,
    region: u32,
    id: int,
    c: Cand,
) -> bool {
    let v = bank.voice_of(region as int, Bank::key_of(s.on.key), s.on.vel);
    &&& v is Some
    &&& c.key as int / 0x1_0000_0000_0000 == gain_q(v->Some_0.loud)
    &&& c.region == region
    &&& c.note == s.note
    &&& d.block_first_id + c.id_off == id
}

/// A layer that starts in its block is a candidate ranked by the quantised sum of
/// the magnitudes of its own opening gains. One that starts later is parked with
/// its command, its frame and the same loudness, and is ranked by it when its
/// block comes.
pub proof fn law_a_layer_is_ranked_by_its_loudness(
    d: DriverState,
    cfg: Config,
    bank: Bank,
    s: Strike,
    region: u32,
)
    requires
        bank.voice_of(region as int, Bank::key_of(s.on.key), s.on.vel) is Some,
        d.block_first_id <= d.next_note_id,
        d.next_note_id - d.block_first_id <= u32::MAX,
        0 <= d.block_start(cfg),
        d.block_start(cfg) + u32::MAX + u32::MAX <= u64::MAX,
    ensures
        ({
            let v = bank.voice_of(region as int, Bank::key_of(s.on.key), s.on.vel)->Some_0;
            let a = d.layer(cfg, bank, s, region);
            let later = v.delay_frames > 0 && s.on.rel + v.delay_frames >= cfg.block_frames;
            &&& a.next_note_id == d.next_note_id + 1
            &&& !later ==> {
                &&& a.cands.len() == d.cands.len() + 1
                &&& a.cands.drop_last() == d.cands
                &&& a.deferred == d.deferred
                &&& stands_for(d, bank, s, region, d.next_note_id, a.cands.last())
            }
            &&& later ==> {
                &&& a.cands == d.cands
                &&& a.deferred.len() == d.deferred.len() + 1
                &&& a.deferred.drop_last() == d.deferred
                &&& a.deferred.last().loud == v.loud
                &&& a.deferred.last().frame == d.block_start(cfg) + s.on.rel + v.delay_frames
                &&& a.deferred.last().cmd.flags == v.flags
                &&& a.deferred.last().cmd == command(
                    v,
                    s.on.variant,
                    slot_of(s.on.ch, s.on.key),
                    s.ordinal,
                    s.on.rel as int,
                    d.next_note_id,
                )
            }
        }),
{
    let p = bank.preview_of(region as int, s.on.vel);
    lemma_key_fields(p.loud, d.cands.len() as u64);
    let a = d.layer(cfg, bank, s, region);
    let v = bank.voice_of(region as int, Bank::key_of(s.on.key), s.on.vel)->Some_0;
    if v.delay_frames > 0 && s.on.rel + v.delay_frames >= cfg.block_frames {
        assert(a.deferred.drop_last() =~= d.deferred);
    } else {
        assert(a.cands.drop_last() =~= d.cands);
    }
}

/// A parked voice comes back at its own frame of its block, otherwise as it was
/// parked, and is ranked by the loudness it was parked with.
pub proof fn law_a_parked_voice_is_ranked_by_its_loudness(d: DriverState, cfg: Config, i: int)
    requires
        0 <= i < d.deferred.len(),
        0 <= d.block_start(cfg) <= d.deferred[i].frame < d.block_end(cfg),
        d.deferred_now.len() < u32::MAX,
    ensures
        ({
            let a = d.recalled(cfg, i);
            let p = d.deferred[i];
            let c = a.cands.last();
            &&& a.cands.drop_last() == d.cands
            &&& c.key as int / 0x1_0000_0000_0000 == gain_q(p.loud)
            &&& a.command_of(arbitrary(), c).flags == p.cmd.flags
            &&& a.command_of(arbitrary(), c) == (SpawnCmd {
                start_rel: (p.frame - d.block_start(cfg)) as u32,
                ..p.cmd
            })
            &&& d.block_start(cfg) + a.command_of(arbitrary(), c).start_rel == p.frame
        }),
{
    lemma_key_fields(d.deferred[i].loud, d.cands.len() as u64);
    assert(d.recalled(cfg, i).cands.drop_last() =~= d.cands);
}

/// Bringing in one parked voice leaves every other parked, as it is; one whose frame
/// is past comes in on the first frame of the block.
pub proof fn law_the_others_stay_parked(d: DriverState, cfg: Config, i: int, k: int)
    requires
        0 <= i < d.deferred.len(),
        0 <= k < d.deferred.len(),
        k != i,
    ensures
        d.recalled(cfg, i).deferred.len() == d.deferred.len() - 1,
        d.recalled(cfg, i).deferred.contains(d.deferred[k]),
        d.deferred[i].frame < d.block_start(cfg) ==> d.recalled(cfg, i).deferred_now.last()
            == (SpawnCmd { start_rel: 0, ..d.deferred[i].cmd }),
        d.recalled(cfg, i).deferred_now.drop_last() == d.deferred_now,
{
    let a = d.recalled(cfg, i);
    if k == d.deferred.len() - 1 {
        assert(a.deferred[i] == d.deferred[k]);
    } else {
        assert(a.deferred[k] == d.deferred[k]);
    }
    assert(a.deferred_now.drop_last() =~= d.deferred_now);
}

/// A voice that starts in its block under a variant keeps that copy for the block,
/// and the block is known to hold such voices; one under the bank's own constants
/// asks for nothing. A parked voice does so when its block comes.
pub proof fn law_a_voice_keeps_its_copy(
    d: DriverState,
    cfg: Config,
    bank: Bank,
    s: Strike,
    region: u32,
    i: int,
)
    requires
        d.variants.used.len() == 64,
        s.on.variant < 64,
        0 <= i < d.deferred.len(),
        d.deferred[i].cmd.variant < 64,
    ensures
        ({
            let v = bank.preview_of(region as int, s.on.vel);
            let later = v.delay_frames > 0 && s.on.rel + v.delay_frames >= cfg.block_frames;
            let a = d.layer(cfg, bank, s, region);
            let r = d.recalled(cfg, i);
            let k = d.deferred[i].cmd.variant as int;
            &&& !later && s.on.variant > 0 ==> a.variants.used[s.on.variant as int]
                && a.spawn_variants
            &&& later || s.on.variant == 0 ==> a.variants == d.variants && a.spawn_variants
                == d.spawn_variants
            &&& k > 0 ==> r.variants.used[k] && r.spawn_variants
            &&& k == 0 ==> r.spawn_variants == d.spawn_variants
            &&& a.variants.cur == d.variants.cur && r.variants.cur == d.variants.cur
            &&& a.variants.states == d.variants.states && r.variants.states == d.variants.states
        }),
{
}

proof fn lemma_layers_notes(
    d: DriverState,
    cfg: Config,
    bank: Bank,
    s: Strike,
    regions: Seq<u32>,
    n: int,
)
    requires
        0 <= n <= regions.len(),
        s.note == d.notes.len(),
    ensures
        ({
            let a = d.layers(cfg, bank, s, regions, n);
            &&& a.next_note_id == d.next_note_id + n
            &&& a.block_first_id == d.block_first_id
            &&& a.block_index == d.block_index
            &&& a.gates == d.gates
            &&& d.cands.len() <= a.cands.len()
            &&& a.cands.len() == d.cands.len() ==> a.notes == d.notes && a.ordinals == d.ordinals
            &&& a.cands.len() > d.cands.len() ==> a.notes == d.notes.push(packed(s.on) as u64)
                && a.ordinals == d.ordinals.push(s.ordinal)
        }),
    decreases n,
{
    if n > 0 {
        lemma_layers_notes(d, cfg, bank, s, regions, n - 1);
    }
}

/// Which layer candidate `i` of a note-on is.
proof fn lemma_layer_of_candidate(
    d: DriverState,
    cfg: Config,
    bank: Bank,
    s: Strike,
    regions: Seq<u32>,
    n: int,
    i: int,
) -> (k: int)
    requires
        0 <= n <= regions.len(),
        s.note == d.notes.len(),
        d.block_first_id <= d.next_note_id,
        d.next_note_id + regions.len() - d.block_first_id <= u32::MAX,
        0 <= d.block_start(cfg),
        d.block_start(cfg) + u32::MAX + u32::MAX <= u64::MAX,
        forall|j: int|
            0 <= j < regions.len() ==> bank.voice_of(
                #[trigger] regions[j] as int,
                Bank::key_of(s.on.key),
                s.on.vel,
            ) is Some,
        d.cands.len() <= i < d.layers(cfg, bank, s, regions, n).cands.len(),
    ensures
        0 <= k < n,
        stands_for(
            d,
            bank,
            s,
            regions[k],
            d.next_note_id + k,
            d.layers(cfg, bank, s, regions, n).cands[i],
        ),
    decreases n,
{
    let b = d.layers(cfg, bank, s, regions, n - 1);
    let a = d.layers(cfg, bank, s, regions, n);
    if n <= 0 {
        0
    } else {
        lemma_layers_notes(d, cfg, bank, s, regions, n - 1);
        assert(b.block_start(cfg) == d.block_start(cfg));
        assert(bank.voice_of(regions[n - 1] as int, Bank::key_of(s.on.key), s.on.vel) is Some);
        law_a_layer_is_ranked_by_its_loudness(b, cfg, bank, s, regions[n - 1]);
        if i < b.cands.len() {
            assert(a.cands[i] == b.cands[i]);
            lemma_layer_of_candidate(d, cfg, bank, s, regions, n - 1, i)
        } else {
            assert(a.cands[i] == a.cands.last());
            n - 1
        }
    }
}

/// The command a candidate of a note-on becomes.
proof fn lemma_command_of_candidate(
    a: DriverState,
    bank: Bank,
    s: Strike,
    region: u32,
    id: int,
    cand: Cand,
)
    requires
        stands_for(a, bank, s, region, id, cand),
        cand.note < a.notes.len(),
        a.notes.len() < DEFERRED,
        a.notes[cand.note as int] == packed(s.on) as u64,
        a.ordinals[cand.note as int] == s.ordinal,
        s.on.fits(),
    ensures
        a.command_of(bank, cand) == command(
            bank.voice_of(region as int, s.on.key, s.on.vel)->Some_0,
            s.on.variant,
            s.on.ch * 128 + s.on.key,
            s.ordinal,
            s.on.rel + bank.voice_of(region as int, s.on.key, s.on.vel)->Some_0.delay_frames,
            id,
        ),
{
    law_pack_round_trip(s.on);
    assert(unpacked(a.notes[cand.note as int]) == s.on);
    assert(Bank::key_of(s.on.key) == s.on.key);
    assert(slot_of(s.on.ch, s.on.key) == s.on.ch * 128 + s.on.key);
}

/// Every candidate a note-on adds is one of the note's layers, ranked by the
/// loudness of the voice it is built into; and the command it becomes plays that
/// voice: its sample, pitch, loop and gains, on the slot of the note's channel and
/// key, with the note's own ordinal, under the variant the channel was on, at the
/// note's frame plus the layer's delay, and with an id of its own.
pub proof fn law_a_note_on_starts_its_layers(
    d: DriverState,
    cfg: Config,
    bank: Bank,
    ch: u8,
    key: u8,
    vel: u8,
    rel: u32,
    i: int,
)
    requires
        d.channels.len() == 16,
        d.gates.slots.len() == 2048,
        d.notes.len() == d.ordinals.len(),
        d.notes.len() + 1 < DEFERRED,
        d.block_first_id <= d.next_note_id,
        key < 128,
        vel < 128,
        rel < cfg.block_frames <= 65535,
        d.next_note_id + cfg.max_layers - d.block_first_id <= u32::MAX,
        0 <= d.block_first_id,
        d.next_note_id + cfg.max_layers <= u64::MAX,
        0 <= d.block_start(cfg),
        d.block_start(cfg) + u32::MAX + u32::MAX <= u64::MAX,
        d.variants.cur[chan_of(ch)] < 64,
        d.cands.len() <= i < d.note_on(cfg, bank, ch, key, vel, rel).cands.len(),
    ensures
        ({
            let c = chan_of(ch);
            let a = d.note_on(cfg, bank, ch, key, vel, rel);
            let layers = bank.layers(d.channels[c].preset, key, vel, cfg.max_layers as int);
            let cand = a.cands[i];
            let cmd = a.command_of(bank, cand);
            let id = cmd.note_id_hi * 0x1_0000_0000 + cmd.note_id_lo;
            let k = id - d.next_note_id;
            &&& 0 <= k < layers.len()
            &&& cand.region == layers[k]
            &&& bank.voice_of(cand.region as int, key, vel) matches Some(v) && {
                &&& cand.key as int / 0x1_0000_0000_0000 == gain_q(v.loud)
                &&& amplitude(cand) == gain_q(v.loud)
                &&& has_loop(cmd.flags) == has_loop(v.flags)
                &&& loop_ends_with_note(cmd.flags) == loop_ends_with_note(v.flags)
                &&& is_one_shot(cmd.flags) == is_one_shot(v.flags)
                &&& cmd.flags == v.flags
                &&& cmd.phase_hi * 0x1_0000_0000 + cmd.phase_lo == v.phase.0
                &&& cmd.step_hi * 0x1_0000_0000 + cmd.step_lo == v.step.0
                &&& cmd.smp_base == v.smp_base && cmd.smp_len == v.smp_len
                &&& cmd.loop_start == v.loop_start && cmd.loop_end == v.loop_end
                &&& cmd.params == v.params && cmd.region == v.region
                &&& cmd.gain_l == v.gain_l && cmd.gain_r == v.gain_r
                &&& cmd.start_rel == rel + v.delay_frames
            }
            &&& cmd.variant == d.variants.cur[c]
            &&& cmd.gate_slot == c * 128 + key
            &&& cmd.ordinal == a.gates.slots[c * 128 + key].on
        }),
{
    let c = chan_of(ch);
    let s = Strike {
        on: NoteOn { ch: c as u8, key, vel, variant: d.variants.cur[c], rel },
        ordinal: d.gates.slots[slot_of(ch, key)].strike().on,
        note: d.notes.len() as u32,
    };
    let regions = bank.layers(d.channels[c].preset, key, vel, cfg.max_layers as int);
    let b = DriverState {
        gates: d.gates.note_on(ch, key, rel),
        stats: crate::driver::DriverStats { notes: (d.stats.notes + 1) as u64, ..d.stats },
        ..d
    };
    let a = d.note_on(cfg, bank, ch, key, vel, rel);
    let n = regions.len() as int;
    crate::bank_laws::law_layers_are_capped(
        bank,
        d.channels[c].preset,
        key,
        vel,
        cfg.max_layers as int,
    );
    assert forall|j: int| 0 <= j < regions.len() implies bank.voice_of(
        #[trigger] regions[j] as int,
        Bank::key_of(key),
        vel,
    ) is Some by {
        law_preview_is_exact(bank, d.channels[c].preset, key, vel, cfg.max_layers as int, j);
    }
    assert(b.block_start(cfg) == d.block_start(cfg));
    assert(a == b.layers(cfg, bank, s, regions, n));
    lemma_layers_notes(b, cfg, bank, s, regions, n);
    let k = lemma_layer_of_candidate(b, cfg, bank, s, regions, n, i);
    let cand = a.cands[i];
    assert(s.on.fits());
    lemma_command_of_candidate(a, bank, s, regions[k], d.next_note_id + k, cand);
    let v = bank.voice_of(cand.region as int, key, vel)->Some_0;
    lemma_key_fields(v.loud, 0);
    lemma_not_deferred_start(b, cfg, bank, s, regions, n, i);
    assert(s.on.ch == c);
    law_a_command_carries_its_voice(
        v,
        s.on.variant,
        c * 128 + key,
        s.ordinal,
        rel + v.delay_frames,
        d.next_note_id + k,
    );
    assert(a.gates == b.gates);
}

proof fn lemma_not_deferred_start(
    d: DriverState,
    cfg: Config,
    bank: Bank,
    s: Strike,
    regions: Seq<u32>,
    n: int,
    i: int,
)
    requires
        0 <= n <= regions.len(),
        s.on.rel < cfg.block_frames,
        d.cands.len() <= i < d.layers(cfg, bank, s, regions, n).cands.len(),
    ensures
        ({
            let r = d.layers(cfg, bank, s, regions, n).cands[i].region as int;
            s.on.rel + bank.math@[r].delay_frames < cfg.block_frames
        }),
    decreases n,
{
    if n > 0 {
        let b = d.layers(cfg, bank, s, regions, n - 1);
        if i < b.cands.len() {
            lemma_not_deferred_start(d, cfg, bank, s, regions, n - 1, i);
        }
    }
}

/// A queue that fits is let through as it is, in its own order; an even thinning
/// keeps the candidates at even places, the first among them.
pub proof fn law_what_admission_keeps(
    rule: AdmitRule,
    after: Seq<Cand>,
    before: Seq<Cand>,
    take: int,
    i: int,
)
    requires
        admitted(rule, after, before, take),
        0 <= i < take,
        i < before.len(),
    ensures
        after.len() == before.len(),
        take >= before.len() ==> after[i] == before[i],
        take < before.len() && rule == AdmitRule::Even ==> after[i] == before[i * before.len()
            / take],
        rule == AdmitRule::Loudest ==> after.to_multiset() == before.to_multiset(),
{
}

/// The strata are equal stretches of the queue: their number is the survivors', up
/// to sixty-four, the first starts at the front, the last ends at the back, and
/// none is longer than another by more than one.
pub proof fn law_strata_are_equal_stretches(want: int, take: int, s: int)
    requires
        0 < take <= want,
        0 <= s < strata_of(take),
    ensures
        take <= 64 ==> strata_of(take) == take,
        take > 64 ==> strata_of(take) == 64,
        share(0, want, strata_of(take)) == 0,
        share(strata_of(take), want, strata_of(take)) == want,
        ({
            let n = strata_of(take);
            let size = share(s + 1, want, n) - share(s, want, n);
            want / n <= size <= want / n + 1
        }),
{
    let n = strata_of(take);
    let a = s * want;
    let b = (s + 1) * want;
    assert(b == a + want) by (nonlinear_arith)
        requires
            a == s * want,
            b == (s + 1) * want,
    ;
    vstd::arithmetic::div_mod::lemma_div_multiples_vanish(want, n);
    assert(0 * want / n == 0) by (nonlinear_arith)
        requires
            n > 0,
    ;
    vstd::arithmetic::div_mod::lemma_fundamental_div_mod(a, n);
    vstd::arithmetic::div_mod::lemma_fundamental_div_mod(b, n);
    vstd::arithmetic::div_mod::lemma_fundamental_div_mod(want, n);
    vstd::arithmetic::div_mod::lemma_mod_bound(a, n);
    vstd::arithmetic::div_mod::lemma_mod_bound(b, n);
    vstd::arithmetic::div_mod::lemma_mod_bound(want, n);
    let x = a / n;
    let y = b / n;
    let w = want / n;
    assert(w <= y - x <= w + 1) by (nonlinear_arith)
        requires
            n > 0,
            a == n * x + a % n,
            b == n * y + b % n,
            want == n * w + want % n,
            0 <= a % n < n,
            0 <= b % n < n,
            0 <= want % n < n,
            b == a + want,
    ;
}

/// Of two candidates of one stratum, the louder is never dropped in favour of the
/// quieter: where the quieter is let through, so is the louder.
pub proof fn law_the_louder_is_never_dropped_for_the_quieter(
    after: Seq<Cand>,
    before: Seq<Cand>,
    take: int,
    s: int,
    loud: Cand,
    quiet: Cand,
)
    requires
        admitted(AdmitRule::Loudest, after, before, take),
        0 < take < before.len(),
        0 <= s < strata_of(take),
        before.subrange(
            share(s, before.len() as int, strata_of(take)),
            share(s + 1, before.len() as int, strata_of(take)),
        ).contains(loud),
        loud.key as int / 0x1_0000_0000_0000 > quiet.key as int / 0x1_0000_0000_0000,
        after.subrange(
            filled(s, before.len() as int, take),
            filled(s + 1, before.len() as int, take),
        ).contains(quiet),
    ensures
        after.subrange(
            filled(s, before.len() as int, take),
            filled(s + 1, before.len() as int, take),
        ).contains(loud),
{
    let want = before.len() as int;
    let n = strata_of(take);
    let chosen = after.subrange(filled(s, want, take), filled(s + 1, want, take));
    let seg = before.subrange(share(s, want, n), share(s + 1, want, n));
    assert(ranked_front(after, before, want, take, s));
    assert(is_top_of(chosen, seg));
    let rest = choose|rest: Seq<Cand>| #[trigger] splits_at_the_top(chosen, rest, seg);
    let all = chosen + rest;
    all.to_multiset_ensures();
    seg.to_multiset_ensures();
    assert(seg.to_multiset().contains(loud));
    assert(all.to_multiset().count(loud) > 0);
    assert(all.contains(loud));
    let j = choose|j: int| 0 <= j < all.len() && all[j] == loud;
    let i = choose|i: int| 0 <= i < chosen.len() && chosen[i] == quiet;
    if j >= chosen.len() {
        assert(all[i] == quiet);
        assert(crate::select::Ranked::rank(&all[i]) >= crate::select::Ranked::rank(&all[j]));
        assert(quiet.key >= loud.key);
    } else {
        assert(chosen[j] == loud);
    }
}

/// The voice a candidate of this block's own note-ons is built into.
pub open spec fn voice_of_candidate(d: DriverState, bank: Bank, c: Cand) -> Option<VoiceSpawn> {
    let n = unpacked(d.notes[c.note as int]);
    bank.voice_of(c.region as int, Bank::key_of(n.key), n.vel)
}

/// Every candidate of this block's own note-ons is ranked by the loudness of the
/// voice it is built into.
pub open spec fn ranked_by_loudness(d: DriverState, bank: Bank) -> bool {
    forall|i: int|
        0 <= i < d.cands.len() && (#[trigger] d.cands[i]).note != DEFERRED ==> {
            &&& d.cands[i].note < d.notes.len()
            &&& voice_of_candidate(d, bank, d.cands[i]) is Some
            &&& d.cands[i].key as int / 0x1_0000_0000_0000 == gain_q(
                voice_of_candidate(d, bank, d.cands[i])->Some_0.loud,
            )
        }
}

/// Every note-on keeps the block's candidates ranked by loudness, and leaves those
/// that were there as they were.
pub proof fn law_note_ons_keep_the_ranking(
    d: DriverState,
    cfg: Config,
    bank: Bank,
    ch: u8,
    key: u8,
    vel: u8,
    rel: u32,
)
    requires
        ranked_by_loudness(d, bank),
        d.channels.len() == 16,
        d.notes.len() == d.ordinals.len(),
        d.notes.len() + 1 < DEFERRED,
        d.block_first_id <= d.next_note_id,
        key < 128,
        vel < 128,
        rel < cfg.block_frames <= 65535,
        d.next_note_id + cfg.max_layers - d.block_first_id <= u32::MAX,
        0 <= d.block_start(cfg),
        d.block_start(cfg) + u32::MAX + u32::MAX <= u64::MAX,
        d.variants.cur[chan_of(ch)] < 64,
    ensures
        ranked_by_loudness(d.note_on(cfg, bank, ch, key, vel, rel), bank),
        d.note_on(cfg, bank, ch, key, vel, rel).cands.len() >= d.cands.len(),
        d.note_on(cfg, bank, ch, key, vel, rel).cands.take(d.cands.len() as int) == d.cands,
{
    let c = chan_of(ch);
    let s = Strike {
        on: NoteOn { ch: c as u8, key, vel, variant: d.variants.cur[c], rel },
        ordinal: d.gates.slots[slot_of(ch, key)].strike().on,
        note: d.notes.len() as u32,
    };
    let regions = bank.layers(d.channels[c].preset, key, vel, cfg.max_layers as int);
    let b = DriverState {
        gates: d.gates.note_on(ch, key, rel),
        stats: crate::driver::DriverStats { notes: (d.stats.notes + 1) as u64, ..d.stats },
        ..d
    };
    let a = d.note_on(cfg, bank, ch, key, vel, rel);
    let n = regions.len() as int;
    crate::bank_laws::law_layers_are_capped(
        bank,
        d.channels[c].preset,
        key,
        vel,
        cfg.max_layers as int,
    );
    assert forall|j: int| 0 <= j < regions.len() implies bank.voice_of(
        #[trigger] regions[j] as int,
        Bank::key_of(key),
        vel,
    ) is Some by {
        law_preview_is_exact(bank, d.channels[c].preset, key, vel, cfg.max_layers as int, j);
    }
    assert(b.block_start(cfg) == d.block_start(cfg));
    assert(a == b.layers(cfg, bank, s, regions, n));
    lemma_layers_notes(b, cfg, bank, s, regions, n);
    lemma_layers_keep_candidates(b, cfg, bank, s, regions, n);
    assert(s.on.fits());
    law_pack_round_trip(s.on);
    assert(a.cands.take(d.cands.len() as int) =~= d.cands);
    assert forall|i: int| 0 <= i < a.cands.len() && (#[trigger] a.cands[i]).note
        != DEFERRED implies {
        &&& a.cands[i].note < a.notes.len()
        &&& voice_of_candidate(a, bank, a.cands[i]) is Some
        &&& a.cands[i].key as int / 0x1_0000_0000_0000 == gain_q(
            voice_of_candidate(a, bank, a.cands[i])->Some_0.loud,
        )
    } by {
        if i < d.cands.len() {
            assert(a.cands[i] == d.cands[i]);
            assert(a.notes[a.cands[i].note as int] == d.notes[d.cands[i].note as int]);
        } else {
            let k = lemma_layer_of_candidate(b, cfg, bank, s, regions, n, i);
            assert(stands_for(b, bank, s, regions[k], b.next_note_id + k, a.cands[i]));
            assert(unpacked(a.notes[a.cands[i].note as int]) == s.on);
        }
    }
}

proof fn lemma_layers_keep_candidates(
    d: DriverState,
    cfg: Config,
    bank: Bank,
    s: Strike,
    regions: Seq<u32>,
    n: int,
)
    ensures
        ({
            let a = d.layers(cfg, bank, s, regions, n);
            &&& a.cands.len() >= d.cands.len()
            &&& forall|i: int| 0 <= i < d.cands.len() ==> #[trigger] a.cands[i] == d.cands[i]
        }),
    decreases n,
{
    if n > 0 {
        lemma_layers_keep_candidates(d, cfg, bank, s, regions, n - 1);
    }
}

/// Only note-ons queue voices: any other event leaves the block's candidates, its
/// notes and what is parked as they were.
pub proof fn law_only_note_ons_queue_voices(
    d: DriverState,
    cfg: Config,
    bank: Bank,
    ev: Event,
    rel: u32,
)
    requires
        !(ev is NoteOn),
    ensures
        ({
            let a = d.handled(cfg, bank, ev, rel);
            &&& a.cands == d.cands
            &&& a.notes == d.notes
            &&& a.ordinals == d.ordinals
            &&& a.deferred == d.deferred
            &&& a.next_note_id == d.next_note_id
        }),
{
    if let Event::Cc { ch, num, val } = ev {
        let c = chan_of(ch);
        let s = d.channels[c];
        let e = DriverState {
            channels: d.channels.update(c, s.after_cc(num, val, cfg.default_channel_volume)),
            ..d
        };
        lemma_neutral_sound_queues_nothing(e, cfg, ch, rel, 5);
    }
}

proof fn lemma_neutral_sound_queues_nothing(
    d: DriverState,
    cfg: Config,
    ch: u8,
    rel: u32,
    n: int,
)
    ensures
        ({
            let a = d.neutral_sound(cfg, ch, rel, n);
            &&& a.cands == d.cands
            &&& a.notes == d.notes
            &&& a.ordinals == d.ordinals
            &&& a.deferred == d.deferred
            &&& a.next_note_id == d.next_note_id
        }),
    decreases n,
{
    if n > 0 {
        lemma_neutral_sound_queues_nothing(d, cfg, ch, rel, n - 1);
    }
}

/// Where a block is over its budget, a voice is never dropped in favour of a
/// quieter one of the same stratum: of two candidates whose voices differ in their
/// quantised opening amplitude, the louder is let through wherever the quieter is.
pub proof fn law_the_louder_voice_is_kept(
    d: DriverState,
    bank: Bank,
    after: Seq<Cand>,
    take: int,
    s: int,
    i: int,
    j: int,
)
    requires
        ranked_by_loudness(d, bank),
        admitted(AdmitRule::Loudest, after, d.cands, take),
        0 < take < d.cands.len(),
        0 <= s < strata_of(take),
        0 <= share(s, d.cands.len() as int, strata_of(take)) <= i < share(
            s + 1,
            d.cands.len() as int,
            strata_of(take),
        ) <= d.cands.len(),
        0 <= j < d.cands.len(),
        d.cands[i].note != DEFERRED,
        d.cands[j].note != DEFERRED,
        gain_q(voice_of_candidate(d, bank, d.cands[i])->Some_0.loud) > gain_q(
            voice_of_candidate(d, bank, d.cands[j])->Some_0.loud,
        ),
        after.subrange(
            filled(s, d.cands.len() as int, take),
            filled(s + 1, d.cands.len() as int, take),
        ).contains(d.cands[j]),
    ensures
        after.subrange(
            filled(s, d.cands.len() as int, take),
            filled(s + 1, d.cands.len() as int, take),
        ).contains(d.cands[i]),
{
    let want = d.cands.len() as int;
    let lo = share(s, want, strata_of(take));
    let hi = share(s + 1, want, strata_of(take));
    let seg = d.cands.subrange(lo, hi);
    assert(seg[i - lo] == d.cands[i]);
    law_the_louder_is_never_dropped_for_the_quieter(
        after,
        d.cands,
        take,
        s,
        d.cands[i],
        d.cands[j],
    );
}

/// A note-on sounds on the preset its channel is on, through the bank's own
/// lookup; channel ten plays from the drum bank whatever bank it selects, any
/// other from the bank it selected.
pub proof fn law_programs_choose_their_bank(
    d: DriverState,
    cfg: Config,
    bank: Bank,
    ch: u8,
    val: u8,
    rel: u32,
)
    requires
        d.channels.len() == 16,
    ensures
        ({
            let c = chan_of(ch);
            let a = d.handled(cfg, bank, Event::Program { ch, val }, rel);
            let from: u16 = if ch as int % 16 == 9 { 128 } else { d.channels[c].bank_msb as u16 };
            &&& crate::bank::resolved(bank.index@, from, val as u16) matches Some(p)
                ==> a.channels[c].preset == p
            &&& crate::bank::resolved(bank.index@, from, val as u16) is None
                ==> a.channels[c].preset == 0
            &&& a.channels[c].bank_msb == d.channels[c].bank_msb
            &&& a.channels[c].volume == d.channels[c].volume
            &&& a.channels[c].sound == d.channels[c].sound
            &&& a.channels[c].bend_val == d.channels[c].bend_val
            &&& a.cands == d.cands && a.gates == d.gates && a.chan == d.chan
        }),
{
}

/// A pitch bend is kept on its channel as it came, and asks for that channel's
/// bend, and only the bend, to be worked out again at its frame.
pub proof fn law_bends_stay_as_they_came(
    d: DriverState,
    cfg: Config,
    bank: Bank,
    ch: u8,
    val: i16,
    rel: u32,
)
    requires
        d.channels.len() == 16,
    ensures
        ({
            let c = ch as int % 16;
            let ev = Event::PitchBend { ch, val };
            let a = d.handled(cfg, bank, ev, rel);
            let f = d.refresh_of(ev, rel);
            &&& a.channels[c].bend_val == val
            &&& a.channels[c].bend_cents == d.channels[c].bend_cents
            &&& a.channels[c].preset == d.channels[c].preset
            &&& a.gates == d.gates && a.cands == d.cands
            &&& f.bend && !f.gain && f.ch == c && f.rel == rel
        }),
{
}

/// A controller reaches its channel: outside the sound controllers and the reset,
/// the channel afterwards is its own state with that controller taken, and what
/// has to be worked out again is what the controller moved.
pub proof fn law_controllers_reach_their_channel(
    d: DriverState,
    cfg: Config,
    bank: Bank,
    ch: u8,
    num: u8,
    val: u8,
    rel: u32,
)
    requires
        d.channels.len() == 16,
        num != 121,
    ensures
        ({
            let c = ch as int % 16;
            let ev = Event::Cc { ch, num, val };
            let s = d.channels[c];
            let a = d.handled(cfg, bank, ev, rel).channels[c];
            let f = d.refresh_of(ev, rel);
            &&& num == 7 ==> a.volume == val && f.gain
            &&& num == 10 ==> a.pan == val && f.gain
            &&& num == 11 ==> a.expression == val && f.gain
            &&& num == 1 ==> a.modulation == val
            &&& num == 67 ==> a.soft == val && f.gain
            &&& num == 71 ==> a.sound.resonance == val
            &&& num == 72 ==> a.sound.release == val
            &&& num == 73 ==> a.sound.attack == val
            &&& num == 74 ==> a.sound.brightness == val
            &&& num == 75 ==> a.sound.decay == val
            &&& num != 71 ==> a.sound.resonance == s.sound.resonance
            &&& num != 72 ==> a.sound.release == s.sound.release
            &&& num != 73 ==> a.sound.attack == s.sound.attack
            &&& num != 74 ==> a.sound.brightness == s.sound.brightness
            &&& num != 75 ==> a.sound.decay == s.sound.decay
            &&& num != 7 ==> a.volume == s.volume
            &&& num != 10 ==> a.pan == s.pan
            &&& num != 11 ==> a.expression == s.expression
            &&& num != 1 ==> a.modulation == s.modulation
            &&& num != 67 ==> a.soft == s.soft
            &&& num != 0 ==> a.bank_msb == s.bank_msb
            &&& num == 0 ==> a.bank_msb == val
            &&& a.preset == s.preset && a.bend_val == s.bend_val
            &&& f.rel == rel && f.ch == c
            &&& (a.volume != s.volume || a.pan != s.pan || a.expression != s.expression) ==> f.gain
            &&& a.bend_cents != s.bend_cents ==> f.bend
        }),
{
}

} // verus!
