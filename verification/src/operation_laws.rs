//! What each operation does to what it is called on.

use crate::admission::{amplitude, energy, Cand, DEFERRED};
use crate::bank::{Bank, PreviewLayer, Region, SampleInfo, VoiceSpawn};
use crate::brickwall::{clean, gain_seen, is_peak, peak_seen, window_start, Brickwall};
use crate::channels::ChannelTable;
use crate::config::{Config, StealRule};
use crate::controls::{ChannelState, Effect, Event, Sound};
use crate::cursor::{
    has_loop, is_one_shot, loop_ends_with_note, Cursor, Fade, Frame, TileChange, TileControls,
};
use crate::driver::{Driver, Offer, Refresh};
use crate::gates::{chan_of, GateTable};
use crate::gpu::{state_of, BlockWork, Session, STATE_SLOTS};
use crate::limiter::{clamp_block, clipped_count, is_clipped};
use crate::midi::{earliest, MidiStream, Track};
use crate::note_laws::law_a_note_on_starts_its_layers;
use crate::opcodes::OpcodeSet;
use crate::pool::{
    are_victims, find_room, give_way, kept, scheduled, started, steal_keys, Pool, Voice,
};
use crate::region_laws::{names_key, names_no_key};
use crate::report::Report;
use crate::sfz::{add_sample, region_from_opcodes, Decimals, SampleMeta};
use crate::variants::{quantised, slot_cap, Build, VariantTable};
use crate::voice::{gain_q, SpawnCmd, ENV_DEAD};
use crate::wav::{pcm_bytes, SizePatch, WavWriter};
use vstd::prelude::*;

verus! {

/// Taking a controller moves the field it stands for, takes the fine half of a
/// coarse one back to zero, and leaves every other field of the channel alone.
pub proof fn law_taking_a_controller(
    s: ChannelState,
    num: u8,
    val: u8,
    default_volume: u8,
    r: (ChannelState, Effect),
)
    requires
        call_ensures(ChannelState::cc, (s, num, val, default_volume), r),
        num != 121,
    ensures
        num == 7 ==> r.0 == (ChannelState { volume: val, lsb_volume: 0, ..s }),
        num == 10 ==> r.0 == (ChannelState { pan: val, lsb_pan: 0, ..s }),
        num == 11 ==> r.0 == (ChannelState { expression: val, lsb_expression: 0, ..s }),
        num == 1 ==> r.0 == (ChannelState { modulation: val, lsb_mod: 0, ..s }),
        num == 39 ==> r.0 == (ChannelState { lsb_volume: val, ..s }),
        num == 42 ==> r.0 == (ChannelState { lsb_pan: val, ..s }),
        num == 43 ==> r.0 == (ChannelState { lsb_expression: val, ..s }),
        num == 33 ==> r.0 == (ChannelState { lsb_mod: val, ..s }),
        num == 0 ==> r.0 == (ChannelState { bank_msb: val, ..s }),
        num == 32 ==> r.0 == (ChannelState { bank_lsb: val, ..s }),
        num == 67 ==> r.0 == (ChannelState { soft: val, ..s }),
        num == 76 ==> r.0 == (ChannelState { vib_rate: val, ..s }),
        num == 77 ==> r.0 == (ChannelState { vib_depth: val, ..s }),
        num == 92 ==> r.0 == (ChannelState { tremolo: val, ..s }),
        num == 6 || num == 38 || num == 96 || num == 97 ==> r.0 == (ChannelState {
            bend_cents: r.0.bend_cents,
            ..s
        }),
        98 <= num <= 101 ==> r.0 == (ChannelState { rpn_sel: r.0.rpn_sel, ..s }),
        num == 64 || num == 66 || 71 <= num <= 75 || num == 120 || num >= 122 ==> r.0 == s,
        num == 7 || num == 10 || num == 11 ==> r.1 == Effect::Gain,
{
}

/// The block that follows finds a voice where the last frame left it.
pub proof fn law_the_next_block_goes_on(
    c: &Cursor,
    level: u32,
    z1: u32,
    z2: u32,
    v: Voice,
    tile_frames: u32,
    n: Cursor,
)
    requires
        tile_frames > 0,
        call_ensures(Cursor::end, (c, level, z1, z2), v),
        call_ensures(Cursor::begin, (v, tile_frames), n),
    ensures
        n.phase == c.phase,
        n.stage == c.stage,
        n.step == c.voice.step,
        v.phase == c.phase && v.env_stage == c.stage && v.env_level == level,
        v.filt_z1 == z1 && v.filt_z2 == z2,
        v.step == c.voice.step && v.flags == c.voice.flags && v.note_id == c.voice.note_id,
        v.smp_base == c.voice.smp_base && v.smp_len == c.voice.smp_len,
        v.loop_start == c.voice.loop_start && v.loop_end == c.voice.loop_end,
        v.gain_l == c.voice.gain_l && v.gain_r == c.voice.gain_r,
        v.params == c.voice.params && v.region == c.voice.region,
        v.gate_slot == c.voice.gate_slot && v.ordinal == c.voice.ordinal,
        v.start_rel == 0 && v.stop_rel == 0 && v.born_variant == 0,
        n.voice == v,
{
    crate::cursor_laws::law_rendering_is_seamless(*c, level, z1, z2, tile_frames);
}

/// A voice waits for its start, ends with its sample unless it loops, and
/// otherwise plays; looking changes nothing but that a voice that is over is dead.
pub proof fn law_looking_at_a_frame(c: &mut Cursor, f: u32, r: Frame)
    requires
        call_ensures(Cursor::frame, (c, f), r),
    ensures
        r == Frame::Wait <==> f < old(c).voice.start_rel,
        r == Frame::Over ==> final(c).stage == 4,
        r != Frame::Over ==> *final(c) == *old(c),
        f >= old(c).voice.start_rel && old(c).stage == 4 ==> r == Frame::Over,
        f >= old(c).voice.start_rel && !has_loop(old(c).voice.flags) && old(c).phase.0
            / 0x1_0000_0000 >= old(c).voice.smp_len ==> r == Frame::Over,
        f >= old(c).voice.start_rel && old(c).stage != 4 && old(c).phase.0 / 0x1_0000_0000 < old(c).voice.smp_len ==> r == Frame::Play,
        final(c).phase == old(c).phase && final(c).voice == old(c).voice,
        final(c).step == old(c).step && final(c).variant == old(c).variant,
{
}

/// Stepping on adds one step to the phase, and touches nothing else; in a loop it
/// comes back by whole turns, into the loop.
pub proof fn law_stepping_on(c: &mut Cursor, in_loop: bool)
    requires
        call_ensures(Cursor::advance, (c, in_loop), ()),
        old(c).phase.0 + old(c).step.0 < 0x1_0000_0000_0000_0000,
        in_loop ==> old(c).voice.loop_start < old(c).voice.loop_end,
    ensures
        !in_loop ==> final(c).phase.0 == old(c).phase.0 + old(c).step.0,
        (old(c).phase.0 + old(c).step.0) / 0x1_0000_0000 < old(c).voice.loop_end
            ==> final(c).phase.0 == old(c).phase.0 + old(c).step.0,
        in_loop && (old(c).phase.0 + old(c).step.0) / 0x1_0000_0000 >= old(c).voice.loop_end ==> {
            &&& old(c).voice.loop_start <= final(c).phase.0 / 0x1_0000_0000
            &&& final(c).phase.0 / 0x1_0000_0000 < old(c).voice.loop_end
            &&& final(c).phase.0 % 0x1_0000_0000 == (old(c).phase.0 + old(c).step.0)
                % 0x1_0000_0000
        },
        final(c).voice == old(c).voice && final(c).step == old(c).step,
        final(c).stage == old(c).stage && final(c).variant == old(c).variant,
        final(c).born_tile == old(c).born_tile,
{
    let sum = old(c).phase.0 + old(c).step.0;
    let a = old(c).voice.loop_start as int;
    let b = old(c).voice.loop_end as int;
    vstd::arithmetic::div_mod::lemma_small_mod(sum as nat, 0x1_0000_0000_0000_0000);
    if in_loop && sum / 0x1_0000_0000 >= b {
        vstd::arithmetic::div_mod::lemma_mod_bound(sum / 0x1_0000_0000 - a, b - a);
    }
}

/// A voice that is being stolen is silent once its fade is over, and dead with
/// that; until then it only fades, from the frame it is stopped at, and a voice
/// that is not being stolen sounds in full.
pub proof fn law_fading_out(c: &mut Cursor, f: u32, fade: u32, r: Fade)
    requires
        call_ensures(Cursor::fade, (c, f, fade), r),
    ensures
        r == Fade::Full <==> old(c).voice.stop_rel == 0 || f + 1 < old(c).voice.stop_rel,
        r == Fade::Silent <==> old(c).voice.stop_rel != 0 && f + 1 >= old(c).voice.stop_rel + fade
            && f + 1 >= old(c).voice.stop_rel,
        r matches Fade::Partial(k) ==> old(c).voice.stop_rel + k == f + 1,
        r == Fade::Silent ==> final(c).stage == 4,
        r != Fade::Silent ==> final(c).stage == old(c).stage,
        final(c).phase == old(c).phase && final(c).voice == old(c).voice,
        final(c).step == old(c).step && final(c).variant == old(c).variant,
        final(c).born_tile == old(c).born_tile,
{
}

/// An envelope goes through its stages in turn, each when its level is reached,
/// and moves nothing else.
pub proof fn law_stepping_the_envelope(c: &mut Cursor, reached: bool, silent: bool)
    requires
        call_ensures(Cursor::envelope, (c, reached, silent), ()),
    ensures
        !reached ==> *final(c) == *old(c),
        reached && old(c).stage == 0 ==> final(c).stage == 1,
        reached && old(c).stage == 1 && !silent ==> final(c).stage == 2,
        reached && old(c).stage == 1 && silent ==> final(c).stage == 4,
        reached && old(c).stage == 2 ==> final(c).stage == 2,
        reached && old(c).stage == 3 ==> final(c).stage == 4,
        reached && old(c).stage == 4 ==> final(c).stage == 4,
        final(c).phase == old(c).phase && final(c).voice == old(c).voice,
        final(c).step == old(c).step && final(c).variant == old(c).variant,
{
}

/// Entering a tile lets a voice go whose note is off by then, unless it is a
/// one-shot; bends it from its own step, where its channel bends; and moves no
/// phase.
pub proof fn law_entering_a_tile(
    c: &mut Cursor,
    tile: u32,
    offs: u32,
    t: &TileControls,
    r: TileChange,
)
    requires
        call_ensures(Cursor::enter_tile, (c, tile, offs, t), r),
    ensures
        r.released <==> !is_one_shot(old(c).voice.flags) && old(c).stage < 3 && offs >= old(c).voice.ordinal,
        r.released ==> final(c).stage == 3,
        !r.released ==> final(c).stage == old(c).stage,
        !t.bend_active ==> final(c).step == old(c).step,
        t.bend_active ==> final(c).step.0 == old(c).voice.step.scaled(t.bend),
        r.reload ==> t.variant_active && final(c).variant == t.variant,
        !r.reload ==> final(c).variant == old(c).variant,
        r.reload ==> t.variant != old(c).variant,
        t.variant_active && t.variant != old(c).variant && old(c).voice.born_variant == 0
            ==> r.reload,
        t.variant_active && t.variant != old(c).variant && tile > old(c).born_tile ==> r.reload,
        old(c).voice.born_variant != 0 && tile <= old(c).born_tile ==> !r.reload,
        final(c).phase == old(c).phase && final(c).voice == old(c).voice,
        final(c).born_tile == old(c).born_tile,
{
}

/// A region is rooted at the key its `pitch_keycenter` names, else at its `key`,
/// else at the root of its sample.
pub proof fn law_reading_a_root(
    ops: &OpcodeSet,
    d: &Decimals,
    sample: u32,
    info: &SampleInfo,
    r: Region,
    k: int,
    j: int,
)
    requires
        call_ensures(region_from_opcodes, (ops, d, sample, info), r),
        0 <= k <= 127,
        0 <= j <= 127,
    ensures
        names_key(ops@, "pitch_keycenter"@, k) ==> r.root_key_override == k,
        names_no_key(ops@, "pitch_keycenter"@) && names_key(ops@, "key"@, j)
            ==> r.root_key_override == j,
        names_no_key(ops@, "pitch_keycenter"@) && names_no_key(ops@, "key"@)
            ==> r.root_key_override == info.root_key,
        r.sample == sample,
{
    crate::region_laws::law_the_key_centre_is_the_root(ops@, *d, sample, *info, k, j);
}

/// Every candidate that a note-on adds is ranked by the quantised loudness of the
/// voice it is built into, and the command it becomes plays that voice: it loops
/// where that voice does, from the same phase, by the same step, through the same
/// sample.
pub proof fn law_playing_a_note_on(
    d: &mut Driver,
    bank: &Bank,
    ch: u8,
    key: u8,
    vel: u8,
    rel: u32,
    r: Refresh,
    i: int,
)
    requires
        call_ensures(Driver::handle_event, (d, bank, Event::NoteOn { ch, key, vel }, rel), r),
        old(d)@.channels.len() == 16,
        old(d)@.gates.slots.len() == 2048,
        old(d)@.notes.len() == old(d)@.ordinals.len(),
        old(d)@.notes.len() + 1 < DEFERRED,
        old(d)@.block_first_id <= old(d)@.next_note_id,
        key < 128,
        vel < 128,
        rel < old(d).cfg.block_frames <= 65535,
        old(d)@.next_note_id + old(d).cfg.max_layers - old(d)@.block_first_id <= u32::MAX,
        old(d)@.next_note_id + old(d).cfg.max_layers <= u64::MAX,
        0 <= old(d)@.block_start(old(d).cfg),
        old(d)@.block_start(old(d).cfg) + u32::MAX + u32::MAX <= u64::MAX,
        old(d)@.variants.cur[chan_of(ch)] < 64,
        old(d)@.cands.len() <= i < final(d)@.cands.len(),
    ensures
        ({
            let cand = final(d)@.cands[i];
            let cmd = final(d)@.command_of(*bank, cand);
            &&& bank.voice_of(cand.region as int, key, vel) matches Some(v) && {
                &&& cand.key as int / 0x1_0000_0000_0000 == gain_q(v.loud)
                &&& amplitude(cand) == gain_q(v.loud)
                &&& has_loop(cmd.flags) == has_loop(v.flags)
                &&& loop_ends_with_note(cmd.flags) == loop_ends_with_note(v.flags)
                &&& is_one_shot(cmd.flags) == is_one_shot(v.flags)
                &&& cmd.phase_hi * 0x1_0000_0000 + cmd.phase_lo == v.phase.0
                &&& cmd.step_hi * 0x1_0000_0000 + cmd.step_lo == v.step.0
                &&& cmd.smp_base == v.smp_base && cmd.smp_len == v.smp_len
                &&& cmd.loop_start == v.loop_start && cmd.loop_end == v.loop_end
                &&& cmd.gain_l == v.gain_l && cmd.gain_r == v.gain_r
                &&& cmd.start_rel == rel + v.delay_frames
            }
            &&& cmd.gate_slot == chan_of(ch) * 128 + key
            &&& cmd.ordinal == final(d)@.gates.slots[chan_of(ch) * 128 + key].on
            &&& cmd.variant == old(d)@.variants.cur[chan_of(ch)]
        }),
        !r.bend && !r.gain,
{
    law_a_note_on_starts_its_layers(old(d)@, old(d).cfg, *bank, ch, key, vel, rel, i);
}

/// An event at or past the end of the block is put off and changes nothing; a
/// tempo change is taken whenever it comes; either of the others is counted, once.
pub proof fn law_offering_an_event(d: &mut Driver, bank: &Bank, ev: Event, frame: u64, r: Offer)
    requires
        call_ensures(Driver::offer, (d, bank, ev, frame), r),
        old(d)@.stats.events < u64::MAX,
    ensures
        ev is Tempo ==> r == Offer::Tempo(ev->Tempo_0) && final(d)@ == old(d)@.counted(),
        !(ev is Tempo) && frame >= old(d)@.block_start(old(d).cfg) + old(d).cfg.block_frames ==> r
            == Offer::Later && final(d)@ == old(d)@,
        !(ev is Tempo) && frame < old(d)@.block_start(old(d).cfg) + old(d).cfg.block_frames
            ==> r is Taken,
        r is Taken ==> final(d)@ == old(d)@.counted().handled(
            old(d).cfg,
            *bank,
            ev,
            old(d)@.rel_of(old(d).cfg, frame),
        ),
        old(d)@.counted().stats.events == old(d)@.stats.events + 1,
        final(d).cfg == old(d).cfg,
{
}

/// Closing a block starts or drops every candidate: those let through are started
/// in their order behind what was queued already, the rest are counted as dropped,
/// and nothing else moves.
pub proof fn law_closing_a_block(d: &mut Driver, bank: &Bank, live: u32, i: int)
    requires
        call_ensures(Driver::close_block, (d, bank, live), ()),
        old(d)@.stats.dropped + old(d)@.cands.len() <= u64::MAX,
        old(d)@.stats.voices_spawned + old(d)@.cands.len() <= u64::MAX,
        old(d)@.cands.len() <= u32::MAX,
    ensures
        final(d)@.spawns.len() - old(d)@.spawns.len() + (final(d)@.stats.dropped
            - old(d)@.stats.dropped) == old(d)@.cands.len(),
        0 <= i < old(d)@.spawns.len() ==> final(d)@.spawns[i] == old(d)@.spawns[i],
        old(d)@.spawns.len() <= i < final(d)@.spawns.len() ==> final(d)@.spawns[i] == old(d)@.command_of(*bank, final(d)@.cands[i - old(d)@.spawns.len()]),
        final(d)@.stats.voices_spawned == old(d)@.stats.voices_spawned + old(d)@.cands.len(),
        final(d)@.stats.last_live == live,
        final(d)@.stats.last_want == old(d)@.cands.len(),
        final(d)@.stats.last_take == final(d)@.spawns.len() - old(d)@.spawns.len(),
        final(d)@.stats.last_want_energy as int == energy(
            final(d)@.cands,
            final(d)@.cands.len() as int,
        ),
        final(d)@.stats.last_take_energy as int == energy(
            final(d)@.cands,
            final(d)@.spawns.len() - old(d)@.spawns.len(),
        ),
        final(d)@.cands.len() == old(d)@.cands.len(),
        live + old(d)@.cands.len() <= old(d).cfg.max_voices ==> final(d)@.stats.dropped == old(d)@.stats.dropped,
        final(d)@.gates == old(d)@.gates && final(d)@.chan == old(d)@.chan,
        final(d)@.channels == old(d)@.channels && final(d)@.variants == old(d)@.variants,
        final(d)@.notes == old(d)@.notes && final(d)@.deferred == old(d)@.deferred,
        final(d)@.next_note_id == old(d)@.next_note_id,
        final(d)@.block_index == old(d)@.block_index,
{
    lemma_energy_fits(final(d)@.cands, final(d)@.cands.len() as int);
    lemma_energy_fits(final(d)@.cands, final(d)@.spawns.len() - old(d)@.spawns.len());
}

proof fn lemma_energy_fits(cands: Seq<Cand>, n: int)
    requires
        0 <= n <= cands.len() <= u32::MAX,
    ensures
        0 <= energy(cands, n) <= n * 0xffff,
    decreases n,
{
    if n > 0 {
        lemma_energy_fits(cands, n - 1);
        assert(n * 0xffff == (n - 1) * 0xffff + 0xffff) by (nonlinear_arith);
    }
}

/// Settling a block counts it, its frames and the samples it clipped, notes what it
/// stole, and says whether there is more: while the stream runs or a voice is still
/// to start there always is.
pub proof fn law_settling_a_block(
    d: &mut Driver,
    bank: &Bank,
    active: u64,
    stolen: u64,
    clipped: u64,
    more: bool,
)
    requires
        call_ensures(Driver::settle, (d, bank, active, stolen, clipped), more),
        old(d)@.stats.clipped + clipped <= u64::MAX,
        old(d)@.stats.frames + old(d).cfg.block_frames <= u64::MAX,
        old(d)@.stats.blocks < u64::MAX,
    ensures
        final(d)@.stats.clipped == old(d)@.stats.clipped + clipped,
        final(d)@.stats.last_stolen == stolen,
        final(d)@.stats.frames == old(d)@.stats.frames + old(d).cfg.block_frames,
        final(d)@.stats.blocks == old(d)@.stats.blocks + 1,
        final(d)@.block_index == old(d)@.block_index + 1,
        final(d)@.stats.dropped == old(d)@.stats.dropped,
        final(d)@.stats.events == old(d)@.stats.events,
        final(d)@.stats.notes == old(d)@.stats.notes,
        !old(d)@.stream_done || old(d)@.deferred.len() > 0 ==> more && final(d)@.tail_left == old(d)@.tail_left,
        old(d)@.stream_done && old(d)@.deferred.len() == 0 && active == 0 ==> !more,
        old(d)@.stream_done && old(d)@.deferred.len() == 0 && active > 0 && old(d)@.tail_left > 0
            ==> final(d)@.tail_left == old(d)@.tail_left - 1 && more == (old(d)@.tail_left > 1),
        final(d)@.gates == old(d)@.gates && final(d)@.chan == old(d)@.chan,
        final(d)@.channels == old(d)@.channels && final(d)@.deferred == old(d)@.deferred,
{
}

/// Builds are handed over once: what waited is given, in order, and none waits
/// after.
pub proof fn law_taking_the_builds(d: &mut Driver, bank: &Bank, r: Vec<Build>)
    requires
        call_ensures(Driver::take_builds, (d, bank), r),
    ensures
        r@ == old(d)@.variants.pending,
        final(d)@.variants.pending.len() == 0,
        final(d)@.variants.cur == old(d)@.variants.cur,
        final(d)@.variants.used == old(d)@.variants.used,
        final(d)@.gates == old(d)@.gates && final(d)@.chan == old(d)@.chan,
        final(d)@.channels == old(d)@.channels && final(d)@.cands == old(d)@.cands,
        final(d)@.stats == old(d)@.stats,
{
}

/// Closing the rows fills in both tables to the end of the block, and touches
/// nothing else.
pub proof fn law_closing_the_rows(d: &mut Driver, bank: &Bank)
    requires
        call_ensures(Driver::close_rows, (d, bank), ()),
    ensures
        final(d)@.gates == old(d)@.gates.end(),
        final(d)@.chan == old(d)@.chan.end(),
        final(d)@.channels == old(d)@.channels && final(d)@.variants == old(d)@.variants,
        final(d)@.cands == old(d)@.cands && final(d)@.spawns == old(d)@.spawns,
        final(d)@.deferred == old(d)@.deferred && final(d)@.stats == old(d)@.stats,
{
}

/// A voice is started behind those that sound, as its command says, silent and at
/// the opening of its attack.
pub proof fn law_starting_a_voice(p: &mut Pool, c: &SpawnCmd, i: int)
    requires
        call_ensures(Pool::push, (p, c), ()),
        c.variant < u32::MAX,
    ensures
        final(p).voices@.len() == old(p).voices@.len() + 1,
        0 <= i < old(p).voices@.len() ==> final(p).voices@[i] == old(p).voices@[i],
        ({
            let v = final(p).voices@.last();
            &&& v.phase.0 == c.phase_hi * 0x1_0000_0000 + c.phase_lo
            &&& v.step.0 == c.step_hi * 0x1_0000_0000 + c.step_lo
            &&& v.note_id == c.note_id_hi * 0x1_0000_0000 + c.note_id_lo
            &&& v.smp_base == c.smp_base && v.smp_len == c.smp_len
            &&& v.loop_start == c.loop_start && v.loop_end == c.loop_end
            &&& v.flags == c.flags && v.params == c.params && v.region == c.region
            &&& v.gain_l == c.gain_l && v.gain_r == c.gain_r
            &&& v.gate_slot == c.gate_slot && v.ordinal == c.ordinal
            &&& v.start_rel == c.start_rel && v.born_variant == c.variant + 1
            &&& v.env_stage == 0 && v.env_level == 0 && v.filt_z1 == 0 && v.filt_z2 == 0
            &&& v.stop_rel == 0
        }),
        final(p).stolen == old(p).stolen && final(p).dropped == old(p).dropped,
        final(p).peak == old(p).peak,
{
}

/// Cutting a pool keeps its first voices, and all of them where there are no more.
pub proof fn law_cutting_the_pool(p: &mut Pool, n: usize, i: int)
    requires
        call_ensures(Pool::truncate, (p, n), ()),
    ensures
        n <= old(p).voices@.len() ==> final(p).voices@.len() == n,
        n >= old(p).voices@.len() ==> final(p).voices@.len() == old(p).voices@.len(),
        0 <= i < final(p).voices@.len() ==> final(p).voices@[i] == old(p).voices@[i],
        final(p).stolen == old(p).stolen && final(p).dropped == old(p).dropped,
        final(p).peak == old(p).peak,
{
}

proof fn lemma_live_voices_stay(voices: Seq<Voice>, keep: Seq<bool>, n: int, i: int)
    requires
        0 <= i < n,
        keep[i],
    ensures
        kept(voices, keep, n).contains(voices[i]),
    decreases n,
{
    let a = kept(voices, keep, n - 1);
    let b = kept(voices, keep, n);
    if i == n - 1 {
        assert(b[a.len() as int] == voices[i]);
    } else {
        lemma_live_voices_stay(voices, keep, n - 1, i);
        let x = choose|x: int| 0 <= x < a.len() && a[x] == voices[i];
        assert(b[x] == voices[i]);
    }
}

proof fn lemma_where_kept(voices: Seq<Voice>, keep: Seq<bool>, n: int, j: int) -> (k: int)
    requires
        0 <= j < kept(voices, keep, n).len(),
    ensures
        0 <= k < n,
        keep[k],
        voices[k] == kept(voices, keep, n)[j],
    decreases n,
{
    if keep[n - 1] && j == kept(voices, keep, n - 1).len() {
        n - 1
    } else {
        lemma_where_kept(voices, keep, n - 1, j)
    }
}

/// A block that ends keeps every voice that is not dead, and no other.
pub proof fn law_ending_a_block_in_the_pool(p: &mut Pool, out: &Vec<u32>, i: int, j: int)
    requires
        call_ensures(Pool::finish_block, (p, out), ()),
    ensures
        0 <= i < old(p).voices@.len() && old(p).voices@[i].env_stage != 4 ==> final(p).voices@.contains(old(p).voices@[i]),
        0 <= j < final(p).voices@.len() ==> final(p).voices@[j].env_stage != 4 && old(p).voices@.contains(final(p).voices@[j]),
        final(p).stolen == old(p).stolen && final(p).dropped == old(p).dropped,
{
    let v = old(p).voices@;
    let keep = Seq::new(v.len(), |k: int| v[k].env_stage != ENV_DEAD);
    if 0 <= i < v.len() && v[i].env_stage != 4 {
        lemma_live_voices_stay(v, keep, v.len() as int, i);
    }
    if 0 <= j < final(p).voices@.len() {
        let k = lemma_where_kept(v, keep, v.len() as int, j);
        assert(v[k] == final(p).voices@[j]);
    }
}

/// Retiring voices keeps every one that is not dead, and no other.
pub proof fn law_retiring_voices(p: &mut Pool, i: int, j: int)
    requires
        call_ensures(Pool::retire, (p,), ()),
    ensures
        0 <= i < old(p).voices@.len() && old(p).voices@[i].env_stage != 4 ==> final(p).voices@.contains(old(p).voices@[i]),
        0 <= j < final(p).voices@.len() ==> final(p).voices@[j].env_stage != 4 && old(p).voices@.contains(final(p).voices@[j]),
        final(p).stolen == old(p).stolen && final(p).dropped == old(p).dropped,
        final(p).peak == old(p).peak,
{
    let v = old(p).voices@;
    let keep = Seq::new(v.len(), |k: int| v[k].env_stage != ENV_DEAD);
    if 0 <= i < v.len() && v[i].env_stage != 4 {
        lemma_live_voices_stay(v, keep, v.len() as int, i);
    }
    if 0 <= j < final(p).voices@.len() {
        let k = lemma_where_kept(v, keep, v.len() as int, j);
        assert(v[k] == final(p).voices@[j]);
    }
}

/// The commands of a block end up as voices or as drops, and the voices that sound
/// already stay in their places: as many of them as are counted as stolen may be
/// given an end, and nothing else about any of them changes.
pub proof fn law_a_block_comes_into_the_pool(
    p: &mut Pool,
    cfg: &Config,
    cmds: &Vec<SpawnCmd>,
    levels: &Vec<u16>,
    i: int,
)
    requires
        call_ensures(Pool::spawn, (p, cfg, cmds, levels), ()),
        0 <= i < old(p).voices@.len(),
    ensures
        (final(p).voices@.len() - old(p).voices@.len()) + (final(p).dropped - old(p).dropped)
            == cmds@.len(),
        final(p).voices@.len() >= old(p).voices@.len(),
        final(p).voices@[i] == (Voice { stop_rel: final(p).voices@[i].stop_rel, ..old(p).voices@[i] }),
        final(p).stolen == old(p).stolen ==> final(p).voices@[i] == old(p).voices@[i],
        cfg.steal_rule == StealRule::DropNew ==> final(p).stolen == old(p).stolen,
        old(p).voices@.len() + cmds@.len() <= cfg.max_voices ==> final(p).dropped == old(p).dropped
            && final(p).stolen == old(p).stolen,
        final(p).peak == old(p).peak,
{
    let live = old(p).voices@.len() as int;
    let want = cmds@.len() as int;
    let need = give_way(*cfg, live, want);
    let take = find_room(*cfg, live, want);
    let keys = steal_keys(cfg.steal_rule, old(p).voices@, levels@);
    let victims = choose|victims: Seq<usize>|
        #![trigger are_victims(keys, need, victims)]
        are_victims(keys, need, victims) && final(p).voices@ == scheduled(
            old(p).voices@,
            victims,
            cfg.span_frames(),
        ) + started(cmds@, take);
    assert(are_victims(keys, need, victims));
    assert(final(p).voices@[i] == scheduled(old(p).voices@, victims, cfg.span_frames())[i]);
}

/// A compaction keeps the marked voices, every one, and no other.
pub proof fn law_compacting_the_pool(p: &mut Pool, keep: &Vec<bool>, i: int, j: int)
    requires
        call_ensures(Pool::swap_remove_compact, (p, keep), ()),
    ensures
        0 <= i < old(p).voices@.len() && i < keep@.len() && keep@[i] ==> final(p).voices@.contains(
            old(p).voices@[i],
        ),
        0 <= j < final(p).voices@.len() ==> exists|k: int|
            0 <= k < keep@.len() && keep@[k] && #[trigger] old(p).voices@[k] == final(p).voices@[j],
        final(p).stolen == old(p).stolen && final(p).dropped == old(p).dropped,
        final(p).peak == old(p).peak,
{
    let v = old(p).voices@;
    let n = if keep@.len() < v.len() {
        keep@.len() as int
    } else {
        v.len() as int
    };
    if 0 <= i < n && keep@[i] {
        lemma_live_voices_stay(v, keep@, n, i);
    }
    if 0 <= j < final(p).voices@.len() {
        let k = lemma_where_kept(v, keep@, n, j);
        assert(v[k] == final(p).voices@[j]);
    }
}

/// A note-on is numbered by its key's count and is the last the key counts; no
/// other key and no pedal moves.
pub proof fn law_counting_a_note_on(
    g: &mut GateTable,
    ch: u8,
    key: u8,
    frame: u32,
    ordinal: u32,
    i: int,
)
    requires
        call_ensures(GateTable::note_on, (g, ch, key, frame), ordinal),
        old(g)@.wf(),
        0 <= i < 2048,
    ensures
        ({
            let s = (ch as int % 16) * 128 + key as int % 128;
            &&& final(g)@.slots[s].on == ordinal
            &&& old(g)@.slots[s].on < u32::MAX ==> ordinal == old(g)@.slots[s].on + 1
            &&& i != s ==> final(g)@.slots[i] == old(g)@.slots[i]
            &&& final(g)@.slots[s].off == old(g)@.slots[s].off
            &&& final(g)@.sustain == old(g)@.sustain && final(g)@.sostenuto == old(g)@.sostenuto
        }),
{
}

/// A note-off with no pedal down is published at once, one more, where a note is
/// un-lifted; under the sustain pedal none is. No other key moves.
pub proof fn law_counting_a_note_off(g: &mut GateTable, ch: u8, key: u8, frame: u32, i: int)
    requires
        call_ensures(GateTable::note_off, (g, ch, key, frame), ()),
        old(g)@.wf(),
        0 <= i < 2048,
        old(g)@.slots[i].balanced(),
        old(g)@.slots[i].on < 0x7fff_ffff,
        old(g)@.slots[i].off <= old(g)@.slots[i].on,
    ensures
        ({
            let s = (ch as int % 16) * 128 + key as int % 128;
            let c = ch as int % 16;
            let x = old(g)@.slots[i];
            let y = final(g)@.slots[i];
            &&& i != s ==> y == x
            &&& y.on == x.on
            &&& i == s && !old(g)@.sustain[c] && !old(g)@.sostenuto[c] && x.on - x.off - x.pending
                > 0 ==> y.off == x.off + 1 && y.pending == x.pending
            &&& i == s && old(g)@.sustain[c] && x.on - x.off - x.pending > 0 ==> y.off == x.off
                && y.pending == x.pending + 1
            &&& i == s && x.on - x.off - x.pending == 0 ==> y == x
            &&& final(g)@.sustain == old(g)@.sustain && final(g)@.sostenuto == old(g)@.sostenuto
        }),
{
    crate::table_laws::law_a_note_off_takes_one(old(g)@, ch, key, frame, i);
}

/// The sustain pedal is its channel's; pressing it moves no counter, and letting it
/// go, with the other pedal up, publishes all that it deferred.
pub proof fn law_working_the_sustain_pedal(
    g: &mut GateTable,
    ch: u8,
    down: bool,
    frame: u32,
    c: int,
    i: int,
)
    requires
        call_ensures(GateTable::set_sustain, (g, ch, down, frame), ()),
        old(g)@.wf(),
        0 <= c < 16,
        0 <= i < 2048,
        old(g)@.slots[i].off + old(g)@.slots[i].pending < u32::MAX,
    ensures
        ({
            let mine = ch as int % 16;
            let x = old(g)@.slots[i];
            let y = final(g)@.slots[i];
            &&& final(g)@.sustain[mine] == down
            &&& c != mine ==> final(g)@.sustain[c] == old(g)@.sustain[c]
            &&& final(g)@.sostenuto == old(g)@.sostenuto
            &&& down || i / 128 != mine ==> y == x
            &&& !down && old(g)@.sustain[mine] && !old(g)@.sostenuto[mine] && i / 128 == mine
                ==> y.off == x.off + x.pending && y.pending == 0
            &&& y.on == x.on
        }),
{
    crate::table_laws::law_pedals_are_their_channels(old(g)@, ch, down, frame, c, i);
}

/// The sostenuto pedal is its channel's; pressing it publishes nothing and holds
/// what sounds, and letting it go, with the other pedal up, publishes all that is
/// deferred.
pub proof fn law_working_the_sostenuto_pedal(
    g: &mut GateTable,
    ch: u8,
    down: bool,
    frame: u32,
    c: int,
    i: int,
)
    requires
        call_ensures(GateTable::set_sostenuto, (g, ch, down, frame), ()),
        old(g)@.wf(),
        0 <= c < 16,
        0 <= i < 2048,
        old(g)@.slots[i].off + old(g)@.slots[i].pending < u32::MAX,
    ensures
        ({
            let mine = ch as int % 16;
            let x = old(g)@.slots[i];
            let y = final(g)@.slots[i];
            &&& final(g)@.sostenuto[mine] == down
            &&& c != mine ==> final(g)@.sostenuto[c] == old(g)@.sostenuto[c]
            &&& final(g)@.sustain == old(g)@.sustain
            &&& i / 128 != mine ==> y == x
            &&& down ==> y.off == x.off && y.pending == x.pending
            &&& down && !old(g)@.sostenuto[mine] && i / 128 == mine ==> y.held == x.unlifted()
                && y.caught_off == x.pending
            &&& !down && old(g)@.sostenuto[mine] && !old(g)@.sustain[mine] && i / 128 == mine
                ==> y.off == x.off + x.pending && y.pending == 0 && y.held == 0
            &&& !down && old(g)@.sostenuto[mine] && old(g)@.sustain[mine] && i / 128 == mine
                ==> y.off == x.off && y.pending == x.pending && y.held == 0
            &&& y.on == x.on
        }),
{
    crate::table_laws::law_pedals_are_their_channels(old(g)@, ch, down, frame, c, i);
}

/// All sound off releases every note of its channel, pedals or not, and no note of
/// another.
pub proof fn law_ending_a_channels_notes(g: &mut GateTable, ch: u8, frame: u32, i: int)
    requires
        call_ensures(GateTable::all_sound_off, (g, ch, frame), ()),
        old(g)@.wf(),
        0 <= i < 2048,
    ensures
        i / 128 == ch as int % 16 ==> final(g)@.slots[i].off == old(g)@.slots[i].on && final(g)@.slots[i].pending == 0,
        i / 128 != ch as int % 16 ==> final(g)@.slots[i] == old(g)@.slots[i],
        final(g)@.slots[i].on == old(g)@.slots[i].on,
        final(g)@.sustain == old(g)@.sustain && final(g)@.sostenuto == old(g)@.sostenuto,
{
}

/// All notes off lifts every key of its channel: with both pedals up every note
/// that is not yet off is, under the sustain pedal none is published, and keys of
/// other channels stay as they are.
pub proof fn law_lifting_a_channels_keys(g: &mut GateTable, ch: u8, frame: u32, i: int)
    requires
        call_ensures(GateTable::all_notes_off, (g, ch, frame), ()),
        old(g)@.wf(),
        0 <= i < 2048,
        old(g)@.slots[i].balanced(),
        old(g)@.slots[i].off <= old(g)@.slots[i].on,
    ensures
        ({
            let c = ch as int % 16;
            let x = old(g)@.slots[i];
            let y = final(g)@.slots[i];
            &&& i / 128 != c ==> y == x
            &&& y.on == x.on
            &&& i / 128 == c ==> y.off + y.pending == x.on
            &&& i / 128 == c && !old(g)@.sustain[c] && !old(g)@.sostenuto[c] ==> y.pending
                == x.pending
            &&& i / 128 == c && old(g)@.sustain[c] ==> y.off == x.off
            &&& final(g)@.sustain == old(g)@.sustain && final(g)@.sostenuto == old(g)@.sostenuto
        }),
{
}

/// Setting a channel's bend sets its own word from then on, and no other.
pub proof fn law_bending_a_channel(t: &mut ChannelTable, ch: u8, factor: u32, frame: u32, i: int)
    requires
        call_ensures(ChannelTable::set_bend, (t, ch, factor, frame), ()),
        old(t)@.wf(),
        0 <= i < 64,
    ensures
        final(t)@.now[(ch as int % 16) * 4] == factor,
        i != (ch as int % 16) * 4 ==> final(t)@.now[i] == old(t)@.now[i],
{
}

/// Setting a channel's gains sets its left and its right word, and no other.
pub proof fn law_mixing_a_channel(
    t: &mut ChannelTable,
    ch: u8,
    l: u32,
    r: u32,
    frame: u32,
    i: int,
)
    requires
        call_ensures(ChannelTable::set_gain, (t, ch, l, r, frame), ()),
        old(t)@.wf(),
        0 <= i < 64,
    ensures
        final(t)@.now[(ch as int % 16) * 4 + 1] == l,
        final(t)@.now[(ch as int % 16) * 4 + 2] == r,
        i != (ch as int % 16) * 4 + 1 && i != (ch as int % 16) * 4 + 2 ==> final(t)@.now[i] == old(t)@.now[i],
{
}

/// Setting a channel's variant sets its own word, and no other.
pub proof fn law_moving_a_channels_variant(
    t: &mut ChannelTable,
    ch: u8,
    variant: u32,
    frame: u32,
    i: int,
)
    requires
        call_ensures(ChannelTable::set_variant, (t, ch, variant, frame), ()),
        old(t)@.wf(),
        0 <= i < 64,
    ensures
        final(t)@.now[(ch as int % 16) * 4 + 3] == variant,
        i != (ch as int % 16) * 4 + 3 ==> final(t)@.now[i] == old(t)@.now[i],
{
}

/// Through the driver, a bend or a gain reaches its channel's words and nothing
/// besides.
pub proof fn law_the_driver_bends_and_mixes(
    d: &mut Driver,
    e: &mut Driver,
    bank: &Bank,
    ch: u8,
    x: u32,
    y: u32,
    rel: u32,
)
    requires
        call_ensures(Driver::set_bend, (d, bank, ch, x, rel), ()),
        call_ensures(Driver::set_gain, (e, bank, ch, x, y, rel), ()),
        old(d)@.chan.wf(),
        old(e)@.chan.wf(),
    ensures
        final(d)@.chan.now[(ch as int % 16) * 4] == x,
        final(e)@.chan.now[(ch as int % 16) * 4 + 1] == x,
        final(e)@.chan.now[(ch as int % 16) * 4 + 2] == y,
        final(d)@.gates == old(d)@.gates && final(e)@.gates == old(e)@.gates,
        final(d)@.channels == old(d)@.channels && final(e)@.channels == old(e)@.channels,
        final(d)@.cands == old(d)@.cands && final(e)@.cands == old(e)@.cands,
        final(d)@.stats == old(d)@.stats && final(e)@.stats == old(e)@.stats,
{
}

/// A new block has no candidates but the parked voices that are due, no notes and
/// no commands, and keeps every channel, pedal and counter.
pub proof fn law_beginning_a_block(d: &mut Driver, bank: &Bank, k: int)
    requires
        call_ensures(Driver::begin_block, (d, bank), ()),
        0 <= k < final(d)@.deferred.len(),
    ensures
        final(d)@.deferred[k].frame >= old(d)@.block_start(old(d).cfg) + old(d).cfg.block_frames,
        final(d)@.deferred.len() + final(d)@.cands.len() == old(d)@.deferred.len(),
{
    crate::render_laws::law_a_block_brings_in_what_is_due(old(d)@, old(d).cfg, k);
}

/// Samples are written in the order they come, and every byte is counted.
pub proof fn law_writing_floats(w: &mut WavWriter, bits: &Vec<u32>, r: Vec<u8>, i: int)
    requires
        call_ensures(WavWriter::encode_floats, (w, bits), r),
        old(w).data_bytes + bits@.len() * 4 <= u64::MAX,
        0 <= i < bits@.len(),
    ensures
        r@.len() == bits@.len() * 4,
        final(w).data_bytes == old(w).data_bytes + r@.len(),
        bits@[i] == r@[4 * i] + r@[4 * i + 1] * 0x100 + r@[4 * i + 2] * 0x1_0000 + r@[4 * i + 3]
            * 0x100_0000,
        final(w).format == old(w).format && final(w).channels == old(w).channels,
        final(w).finished == old(w).finished,
{
    crate::sound_file_laws::law_samples_in_bytes(bits@, Seq::<i16>::empty(), i);
}

/// As for floats: 16-bit samples take two bytes each, and every byte is counted.
pub proof fn law_writing_integers(w: &mut WavWriter, vals: &Vec<i16>, r: Vec<u8>)
    requires
        call_ensures(WavWriter::encode_pcm, (w, vals), r),
        old(w).data_bytes + vals@.len() * 2 <= u64::MAX,
    ensures
        r@ == pcm_bytes(vals@),
        final(w).data_bytes == old(w).data_bytes + vals@.len() * 2,
        final(w).format == old(w).format && final(w).channels == old(w).channels,
        final(w).finished == old(w).finished,
{
}

/// A file is finished once: the sizes are those of what was written, and asking
/// again gives none.
pub proof fn law_finishing_a_file(w: &mut WavWriter, r: Option<SizePatch>)
    requires
        call_ensures(WavWriter::finish, (w,), r),
    ensures
        r is Some <==> !old(w).finished,
        final(w).finished,
        final(w).data_bytes == old(w).data_bytes,
        !old(w).finished && old(w).data_bytes + 36 <= u32::MAX ==> r == Some(
            SizePatch {
                riff_size: (old(w).data_bytes + 36) as u32,
                data_size: old(w).data_bytes as u32,
                saturated: false,
            },
        ),
{
}

/// A frame leaves the limiter in the order it came, under an envelope that is no
/// lower than any peak still to leave with it.
pub proof fn law_entering_the_limiter(
    b: &mut Brickwall,
    frame: (u32, u32),
    peak: u64,
    r: ((u32, u32), u64),
)
    requires
        call_ensures(Brickwall::enter, (b, frame, peak), r),
    ensures
        r.0 == old(b).delay@[0],
        final(b).delay@ == old(b).delay@.skip(1).push(frame),
        final(b).peaks.history@ == old(b).peaks.history@.push(peak),
        clean(final(b).peaks.history@) ==> is_peak(
            r.1,
            final(b).peaks.history@,
            window_start(old(b).peaks.count as int, old(b).look as int),
            old(b).peaks.count as int,
        ),
        final(b).peak_in == peak_seen(old(b).peak_in, peak),
        final(b).gains == old(b).gains && final(b).min_gain == old(b).min_gain,
{
}

/// Gains leave the average in the order they came, one for each that comes.
pub proof fn law_averaging_gains(b: &mut Brickwall, gain: u64, r: u64)
    requires
        call_ensures(Brickwall::average, (b, gain), r),
    ensures
        r == old(b).gains@[0],
        final(b).gains@ == old(b).gains@.skip(1).push(gain),
        final(b).delay == old(b).delay && final(b).peaks == old(b).peaks,
        final(b).peak_in == old(b).peak_in && final(b).min_gain == old(b).min_gain,
{
}

/// The smallest gain applied is kept, and nothing else moves.
pub proof fn law_noting_a_gain(b: &mut Brickwall, gain: u64)
    requires
        call_ensures(Brickwall::applied, (b, gain), ()),
    ensures
        final(b).min_gain == gain_seen(old(b).min_gain, gain),
        final(b).min_gain == gain || final(b).min_gain == old(b).min_gain,
        final(b).gains == old(b).gains && final(b).delay == old(b).delay,
        final(b).peak_in == old(b).peak_in,
{
}

/// Clamping keeps every sample in its place, changes those that are out of range
/// and no others, and counts the ones it changed.
pub proof fn law_clamping_a_block(buf: &mut Vec<u32>, n: u64, i: int)
    requires
        call_ensures(clamp_block, (buf,), n),
        0 <= i < old(buf)@.len(),
    ensures
        final(buf)@.len() == old(buf)@.len(),
        !is_clipped(old(buf)@[i]) ==> final(buf)@[i] == old(buf)@[i],
        is_clipped(old(buf)@[i]) && old(buf)@[i] < 0x8000_0000 ==> final(buf)@[i] == 0x3f80_0000,
        is_clipped(old(buf)@[i]) && old(buf)@[i] >= 0x8000_0000 ==> final(buf)@[i] == 0xbf80_0000,
        n == clipped_count(old(buf)@),
{
}

/// A stream gives its events by time: each is the next of its own track, none of
/// another track is earlier, and only that track moves on.
pub proof fn law_reading_the_next_event(s: &mut MidiStream, r: Option<(u64, Event)>, i: int)
    requires
        call_ensures(MidiStream::next, (s,), r),
        0 <= i < old(s).tracks@.len(),
        old(s).tracks@[i].next is Some,
    ensures
        r is Some,
        r->Some_0.0 <= old(s).tracks@[i].tick,
        exists|k: int|
            0 <= k < old(s).tracks@.len() && (#[trigger] old(s).tracks@[k]).next is Some && r
                == Some((old(s).tracks@[k].tick, old(s).tracks@[k].next->Some_0)) && final(s).tracks@
                == old(s).tracks@.update(k, old(s).tracks@[k].advanced(old(s).bytes@)),
        final(s).bytes == old(s).bytes && final(s).division == old(s).division,
{
    lemma_earliest_track(old(s).tracks@, old(s).tracks@.len() as int, i);
}

proof fn lemma_earliest_track(tracks: Seq<Track>, n: int, i: int)
    requires
        0 <= i < n <= tracks.len(),
        tracks[i].next is Some,
    ensures
        earliest(tracks, n) matches Some(k) && 0 <= k < n && tracks[k].next is Some
            && tracks[k].tick <= tracks[i].tick,
    decreases n,
{
    if i < n - 1 {
        lemma_earliest_track(tracks, n - 1, i);
    } else {
        lemma_earliest_is_a_track(tracks, n - 1);
    }
}

proof fn lemma_earliest_is_a_track(tracks: Seq<Track>, n: int)
    requires
        0 <= n <= tracks.len(),
    ensures
        earliest(tracks, n) matches Some(k) ==> 0 <= k < n && tracks[k].next is Some,
    decreases n,
{
    if n > 0 {
        lemma_earliest_is_a_track(tracks, n - 1);
    }
}

/// An event is counted once by its kind and, where it is a controller, once by its
/// number; the last time seen is its own.
pub proof fn law_noting_an_event(p: &mut Report, tick: u64, ev: Event, i: int)
    requires
        call_ensures(Report::note, (p, tick, ev), ()),
        old(p).wf(),
        forall|k: int| 0 <= k < 7 ==> #[trigger] old(p).counts@[k] < u64::MAX,
        forall|k: int| 0 <= k < 128 ==> #[trigger] old(p).controllers@[k] < u64::MAX,
        0 <= i < 128,
    ensures
        final(p).last_tick == tick,
        ev is NoteOn ==> final(p).counts@[0] == old(p).counts@[0] + 1,
        ev is NoteOff ==> final(p).counts@[1] == old(p).counts@[1] + 1,
        ev is Cc ==> final(p).counts@[2] == old(p).counts@[2] + 1,
        ev is Program ==> final(p).counts@[3] == old(p).counts@[3] + 1,
        ev is PitchBend ==> final(p).counts@[4] == old(p).counts@[4] + 1,
        ev is Tempo ==> final(p).counts@[5] == old(p).counts@[5] + 1,
        ev is Other ==> final(p).counts@[6] == old(p).counts@[6] + 1,
        final(p).controllers@[i] == old(p).controllers@[i] + (if ev is Cc && ev->Cc_num as int % 128
            == i {
            1int
        } else {
            0
        }),
{
}

/// A block of a session takes the commands that fit, changes the voice buffers
/// over, and counts what it could not take.
pub proof fn law_a_session_begins_a_block(s: &mut Session, cfg: &Config, queued: u32, r: BlockWork)
    requires
        call_ensures(Session::begin_block, (s, cfg, queued), r),
        old(s).live <= cfg.max_voices <= 0x7fff_ffff,
        old(s).parity < 2,
        cfg.steal_cap() >= 0,
        old(s).dropped + queued <= u64::MAX,
    ensures
        r.plan.spawn_count + r.plan.dropped == queued,
        final(s).live == old(s).live + r.plan.spawn_count,
        final(s).dropped == old(s).dropped + r.plan.dropped,
        final(s).parity == 1 - old(s).parity,
        final(s).stolen == old(s).stolen,
        r.live == old(s).live && r.parity == old(s).parity,
        r.regrow <==> r.plan.spawn_count > old(s).cmds_capacity,
        r.plan.spawn_count <= final(s).cmds_capacity,
        old(s).live + queued <= cfg.max_voices ==> r.plan.dropped == 0 && r.plan.steal_k == 0,
{
    crate::device_laws::law_commands_start_or_are_counted(*cfg, old(s).live as int, queued as int);
}

/// What is read back after a block replaces the live and the stolen count and adds
/// to the drops; a buffer that is too short changes nothing.
pub proof fn law_a_session_ends_a_block(
    s: &mut Session,
    cfg: &Config,
    words: &Vec<u32>,
    r: Option<u32>,
)
    requires
        call_ensures(Session::finish_block, (s, cfg, words), r),
        old(s).dropped + u32::MAX <= u64::MAX,
    ensures
        r is None ==> *final(s) == *old(s),
        r matches Some(n) ==> final(s).dropped == old(s).dropped + n,
        r is Some <==> words@.len() >= STATE_SLOTS,
        r is Some ==> final(s).live == state_of(words@, cfg.max_voices).live,
        r is Some ==> final(s).stolen == state_of(words@, cfg.max_voices).stolen,
        final(s).parity == old(s).parity && final(s).cmds_capacity == old(s).cmds_capacity,
{
}

/// Selecting a sound gives the slot the channel is on from then on. One that a copy
/// already holds builds nothing; a new one, while there is room, takes a new copy.
pub proof fn law_selecting_a_sound(
    v: &mut VariantTable,
    c: usize,
    sound: Sound,
    max: u32,
    slot: u32,
)
    requires
        call_ensures(VariantTable::select, (v, c, sound, max), slot),
        old(v)@.wf(),
        c < 16,
        old(v)@.clock < u64::MAX,
    ensures
        slot == final(v)@.cur[c as int],
        final(v)@.used[slot as int],
        old(v)@.states.contains(quantised(sound)) ==> final(v)@.states == old(v)@.states && final(v)@.pending == old(v)@.pending && final(v)@.states[slot as int] == quantised(sound),
        !old(v)@.states.contains(quantised(sound)) && old(v)@.states.len() < slot_cap(max)
            ==> final(v)@.states == old(v)@.states.push(quantised(sound)) && slot
            == old(v)@.states.len() && final(v)@.pending.last() == (Build { slot, sound }),
        final(v)@.asked.contains(quantised(sound)),
{
    crate::table_laws::law_how_many_copies(max);
    crate::table_laws::law_what_selecting_does(old(v)@, c as int, sound, slot_cap(max));
}

/// A layer of a note is one voice: every region that answers gives its own, and
/// what was there before stays.
pub proof fn law_building_layers(
    bank: &Bank,
    preset: u32,
    key: u8,
    vel: u8,
    max: usize,
    out: &mut Vec<VoiceSpawn>,
    i: int,
)
    requires
        call_ensures(Bank::note_on, (bank, preset, key, vel, max, out), ()),
        key < 128,
    ensures
        final(out)@.len() == old(out)@.len() + bank.layers(preset, key, vel, max as int).len(),
        0 <= i < old(out)@.len() ==> final(out)@[i] == old(out)@[i],
        old(out)@.len() <= i < final(out)@.len() ==> bank.voice_of(
            bank.layers(preset, key, vel, max as int)[i - old(out)@.len()] as int,
            key,
            vel,
        ) == Some(final(out)@[i]),
{
    let n = old(out)@.len();
    if n <= i < final(out)@.len() {
        crate::bank_laws::law_preview_is_exact(*bank, preset, key, vel, max as int, i - n);
    }
}

/// A preview of a note has a layer for each of its voices, with the gains, the
/// loudness and the delay that voice has.
pub proof fn law_previewing_layers(
    bank: &Bank,
    preset: u32,
    key: u8,
    vel: u8,
    max: usize,
    out: &mut Vec<PreviewLayer>,
    i: int,
)
    requires
        call_ensures(Bank::preview_note_on, (bank, preset, key, vel, max, out), ()),
        key < 128,
        old(out)@.len() <= i < final(out)@.len(),
    ensures
        final(out)@.len() == old(out)@.len() + bank.layers(preset, key, vel, max as int).len(),
        ({
            let p = final(out)@[i];
            &&& p.region == bank.layers(preset, key, vel, max as int)[i - old(out)@.len()]
            &&& bank.voice_of(p.region as int, key, vel) matches Some(v) && v.gain_l == p.gain_l
                && v.gain_r == p.gain_r && v.loud == p.loud && v.delay_frames == p.delay_frames
        }),
{
    let n = old(out)@.len();
    crate::bank_laws::law_preview_is_exact(*bank, preset, key, vel, max as int, i - n);
}

/// Opcodes read back as they were given last, and giving one keeps the others.
pub proof fn law_giving_an_opcode(
    ops: &mut OpcodeSet,
    key: Vec<char>,
    value: Vec<char>,
    other: Seq<char>,
)
    requires
        call_ensures(OpcodeSet::insert, (ops, key, value), ()),
    ensures
        final(ops)@.contains_key(key@) && final(ops)@[key@] == value@,
        other != key@ ==> final(ops)@.contains_key(other) == old(ops)@.contains_key(other),
        other != key@ && old(ops)@.contains_key(other) ==> final(ops)@[other] == old(ops)@[other],
{
}

/// A sample goes behind those in the pool, with silence behind it, and is found by
/// the index it is given.
pub proof fn law_adding_a_sample(
    pool: &mut Vec<i16>,
    samples: &mut Vec<SampleInfo>,
    data: &Vec<i16>,
    pool_rate: u32,
    meta: SampleMeta,
    index: u32,
    i: int,
)
    requires
        call_ensures(add_sample, (pool, samples, data, pool_rate, meta), index),
        old(pool)@.len() + data@.len() <= u32::MAX,
        0 <= i,
    ensures
        index == old(samples)@.len(),
        final(samples)@.len() == index + 1,
        i < index ==> final(samples)@[i] == old(samples)@[i],
        ({
            let s = final(samples)@[index as int];
            &&& s.start == old(pool)@.len()
            &&& s.len == data@.len()
            &&& i < old(pool)@.len() ==> final(pool)@[i] == old(pool)@[i]
            &&& i < data@.len() ==> final(pool)@[s.start + i] == data@[i]
            &&& s.start + s.len <= i < final(pool)@.len() ==> final(pool)@[i] == 0
            &&& final(pool)@.len() > s.start + s.len
        }),
{
}

} // verus!
