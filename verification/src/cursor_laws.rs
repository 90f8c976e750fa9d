//! A voice over many frames and many blocks.

use crate::cursor::{
    fade_at, has_loop, is_one_shot, loop_ends_with_note, loops, neighbour, phase_after,
    stage_after, Cursor, Fade, Frame, ParamStore, TileControls,
};
use crate::fixed::{Fixed, BEND_ONE, FIXED_ONE};
use crate::pool::{voice_for, Voice};
use crate::voice::{SpawnCmd, ENV_ATTACK, ENV_DEAD, ENV_DECAY, ENV_RELEASE, ENV_SUSTAIN};
use vstd::prelude::*;

verus! {

/// What one frame meets: its key's note-off count and its channel's controls,
/// where it opens a tile, and what its envelope finds.
pub struct Met {
    pub offs: u32,
    pub tile: TileControls,
    pub reached: bool,
    pub silent: bool,
}

/// A voice after some frames of its block, from frame `f` on.
pub open spec fn after_frames(
    c: Cursor,
    f: int,
    met: Seq<Met>,
    tile_frames: u32,
    fade: u32,
) -> Cursor
    decreases met.len(),
{
    if met.len() == 0 {
        c
    } else {
        let m = met.last();
        after_frames(c, f, met.drop_last(), tile_frames, fade).over_frame(
            f + met.len() - 1,
            tile_frames,
            fade,
            m.offs,
            m.tile,
            m.reached,
            m.silent,
        )
    }
}

/// Whether a voice sounds through all of those frames, and no bend is met.
pub open spec fn sounds_unbent(
    c: Cursor,
    f: int,
    met: Seq<Met>,
    tile_frames: u32,
    fade: u32,
) -> bool {
    forall|k: int|
        0 <= k < met.len() ==> {
            let p = #[trigger] after_frames(c, f, met.take(k), tile_frames, fade);
            &&& !met[k].tile.bend_active
            &&& p.frame_is(f + k) == Frame::Play
        }
}

/// What one block of a voice meets, and the state its arithmetic leaves.
pub struct Played {
    pub met: Seq<Met>,
    pub level: u32,
    pub z1: u32,
    pub z2: u32,
}

/// A voice after a number of blocks.
pub open spec fn after_blocks(
    v: Voice,
    blocks: Seq<Played>,
    tile_frames: u32,
    fade: u32,
) -> Voice
    decreases blocks.len(),
{
    if blocks.len() == 0 {
        v
    } else {
        let before = after_blocks(v, blocks.drop_last(), tile_frames, fade);
        let b = blocks.last();
        after_frames(Cursor::begun(before, tile_frames), 0, b.met, tile_frames, fade).ended(
            b.level,
            b.z1,
            b.z2,
        )
    }
}

/// The frames of a number of blocks.
pub open spec fn frames_of(blocks: Seq<Played>) -> int
    decreases blocks.len(),
{
    if blocks.len() == 0 {
        0
    } else {
        frames_of(blocks.drop_last()) + blocks.last().met.len()
    }
}

/// Rendering is seamless across blocks: a voice starts its next block exactly
/// where the last frame left it. Its phase, its envelope stage and level and its
/// filter's memory are what they were; which sample it reads, how it loops, its
/// step, gains, constants, key and identity never change. Its next block has it
/// sounding from the first frame, under no birth variant and no scheduled stop.
pub proof fn law_rendering_is_seamless(c: Cursor, level: u32, z1: u32, z2: u32, tile_frames: u32)
    requires
        tile_frames > 0,
    ensures
        ({
            let v = c.ended(level, z1, z2);
            let n = Cursor::begun(v, tile_frames);
            &&& n.phase == c.phase
            &&& n.stage == c.stage
            &&& n.step == c.voice.step
            &&& n.voice.env_level == level
            &&& n.voice.filt_z1 == z1
            &&& n.voice.filt_z2 == z2
            &&& n.voice.smp_base == c.voice.smp_base
            &&& n.voice.smp_len == c.voice.smp_len
            &&& n.voice.loop_start == c.voice.loop_start
            &&& n.voice.loop_end == c.voice.loop_end
            &&& n.voice.flags == c.voice.flags
            &&& n.voice.gain_l == c.voice.gain_l
            &&& n.voice.gain_r == c.voice.gain_r
            &&& n.voice.params == c.voice.params
            &&& n.voice.region == c.voice.region
            &&& n.voice.gate_slot == c.voice.gate_slot
            &&& n.voice.ordinal == c.voice.ordinal
            &&& n.voice.note_id == c.voice.note_id
            &&& n.voice.start_rel == 0
            &&& n.voice.stop_rel == 0
            &&& n.voice.born_variant == 0
            &&& n.born_tile == 0
            &&& n.variant == 0
            &&& forall|f: int| 0 <= f ==> #[trigger] n.frame_is(f) != Frame::Wait
            &&& forall|f: int, fade: u32| #[trigger]
                fade_at(n.voice.stop_rel, f, fade) == Fade::Full
        }),
{
    assert(0int / tile_frames as int == 0) by (nonlinear_arith)
        requires
            tile_frames > 0,
    ;
}

/// A sounding frame moves a voice that is not looping on by one step, and a
/// looping one by one step taken round its loop; a frame that does not sound does
/// not move it at all. No frame touches what identifies the voice.
pub proof fn law_a_frame_moves_one_step(
    c: Cursor,
    f: int,
    reached: bool,
    silent: bool,
    fade: u32,
)
    ensures
        ({
            let n = c.played(f, reached, silent, fade);
            &&& c.frame_is(f) != Frame::Play ==> n.phase == c.phase
            &&& c.frame_is(f) == Frame::Play && !has_loop(c.voice.flags) ==> n.phase.0 == (c.phase.0
                + c.step.0) % 0x1_0000_0000_0000_0000
            &&& c.frame_is(f) == Frame::Play && (c.phase.0 + c.step.0) / 0x1_0000_0000
                < c.voice.loop_end ==> n.phase.0 == c.phase.0 + c.step.0
            &&& n.voice == c.voice
            &&& n.step == c.step
            &&& n.variant == c.variant
            &&& n.born_tile == c.born_tile
        }),
{
}

proof fn lemma_after_frames(c: Cursor, f: int, met: Seq<Met>, tile_frames: u32, fade: u32)
    requires
        sounds_unbent(c, f, met, tile_frames, fade),
        !has_loop(c.voice.flags),
    ensures
        after_frames(c, f, met, tile_frames, fade).voice == c.voice,
        after_frames(c, f, met, tile_frames, fade).step == c.step,
        after_frames(c, f, met, tile_frames, fade).phase.0 == (c.phase.0 + met.len() * c.step.0)
            % 0x1_0000_0000_0000_0000,
    decreases met.len(),
{
    let m = 0x1_0000_0000_0000_0000int;
    if met.len() == 0 {
        assert(met.len() * c.step.0 == 0) by (nonlinear_arith)
            requires
                met.len() == 0,
        ;
    } else {
        let before = met.drop_last();
        assert forall|k: int| 0 <= k < before.len() implies {
            let p = #[trigger] after_frames(c, f, before.take(k), tile_frames, fade);
            &&& !before[k].tile.bend_active
            &&& p.frame_is(f + k) == Frame::Play
        } by {
            assert(before.take(k) =~= met.take(k));
            assert(after_frames(c, f, met.take(k), tile_frames, fade).frame_is(f + k)
                == Frame::Play);
        }
        lemma_after_frames(c, f, before, tile_frames, fade);
        let k = met.len() - 1;
        assert(met.take(k) =~= before);
        let p = after_frames(c, f, before, tile_frames, fade);
        assert(after_frames(c, f, met.take(k), tile_frames, fade).frame_is(f + k) == Frame::Play);
        let l = met.last();
        let n = p.over_frame(f + k, tile_frames, fade, l.offs, l.tile, l.reached, l.silent);
        let q = if (f + k) % tile_frames as int == 0 {
            p.in_tile((f + k) / tile_frames as int, l.offs, l.tile)
        } else {
            p
        };
        assert(q.phase == p.phase && q.step == p.step && q.voice == p.voice);
        assert(q.frame_is(f + k) == Frame::Play);
        assert(n.phase.0 == (p.phase.0 + c.step.0) % m);
        let x = c.phase.0 + k * c.step.0;
        assert(met.len() * c.step.0 == k * c.step.0 + c.step.0) by (nonlinear_arith)
            requires
                met.len() == k + 1,
        ;
        vstd::arithmetic::div_mod::lemma_add_mod_noop(x, c.step.0 as int, m);
        vstd::arithmetic::div_mod::lemma_small_mod(c.step.0 as nat, m as nat);
    }
}

/// A voice that played `n` frames without a loop and without bend, over any
/// number of blocks, stands at its opening phase plus `n` steps.
pub proof fn law_phase_counts_every_frame(
    v: Voice,
    blocks: Seq<Played>,
    tile_frames: u32,
    fade: u32,
)
    requires
        tile_frames > 0,
        !has_loop(v.flags),
        forall|k: int|
            0 <= k < blocks.len() ==> sounds_unbent(
                Cursor::begun(
                    #[trigger] after_blocks(v, blocks.take(k), tile_frames, fade),
                    tile_frames,
                ),
                0,
                blocks[k].met,
                tile_frames,
                fade,
            ),
    ensures
        ({
            let e = after_blocks(v, blocks, tile_frames, fade);
            &&& e.phase.0 == (v.phase.0 + frames_of(blocks) * v.step.0) % 0x1_0000_0000_0000_0000
            &&& e.step == v.step
            &&& e.note_id == v.note_id
            &&& e.flags == v.flags
        }),
    decreases blocks.len(),
{
    let m = 0x1_0000_0000_0000_0000int;
    if blocks.len() == 0 {
        assert(frames_of(blocks) * v.step.0 == 0) by (nonlinear_arith)
            requires
                frames_of(blocks) == 0,
        ;
    } else {
        let before = blocks.drop_last();
        assert forall|k: int| 0 <= k < before.len() implies sounds_unbent(
            Cursor::begun(
                #[trigger] after_blocks(v, before.take(k), tile_frames, fade),
                tile_frames,
            ),
            0,
            before[k].met,
            tile_frames,
            fade,
        ) by {
            assert(before.take(k) =~= blocks.take(k));
        }
        law_phase_counts_every_frame(v, before, tile_frames, fade);
        let k = blocks.len() - 1;
        assert(blocks.take(k) =~= before);
        let b = after_blocks(v, before, tile_frames, fade);
        assert(after_blocks(v, blocks.take(k), tile_frames, fade) == b);
        let c = Cursor::begun(b, tile_frames);
        let l = blocks.last();
        lemma_after_frames(c, 0, l.met, tile_frames, fade);
        let n = l.met.len() as int;
        let s = v.step.0 as int;
        let x = v.phase.0 + frames_of(before) * s;
        assert((frames_of(before) + n) * s == frames_of(before) * s + n * s) by (nonlinear_arith);
        vstd::arithmetic::div_mod::lemma_add_mod_noop(x, n * s, m);
        vstd::arithmetic::div_mod::lemma_add_mod_noop(x % m, n * s, m);
        vstd::arithmetic::div_mod::lemma_mod_twice(x, m);
    }
}

/// Going round a loop takes whole turns of it and nothing else: the phase a
/// looping voice gets is the phase it would have had, less a whole number of loop
/// lengths, and it lies inside the loop.
pub proof fn law_looping_takes_whole_turns(
    phase: Fixed,
    step: Fixed,
    loop_start: u32,
    loop_end: u32,
) -> (turns: int)
    requires
        loop_start < loop_end,
        phase.0 + step.0 < 0x1_0000_0000_0000_0000,
    ensures
        ({
            let n = phase_after(phase, step, true, loop_start, loop_end).0;
            let sum = phase.0 + step.0;
            &&& turns >= 0
            &&& n == sum - turns * (loop_end - loop_start) * 0x1_0000_0000
            &&& sum / 0x1_0000_0000 < loop_end ==> turns == 0
            &&& sum / 0x1_0000_0000 >= loop_end ==> turns > 0 && loop_start <= n as int
                / 0x1_0000_0000 < loop_end
        }),
{
    let sum = Fixed((phase.0 + step.0) as u64);
    assert((phase.0 + step.0) % 0x1_0000_0000_0000_0000 == phase.0 + step.0);
    let span = loop_end - loop_start;
    if sum.whole() >= loop_end {
        let over = sum.whole() - loop_start;
        let q = over / span;
        let r = over % span;
        vstd::arithmetic::div_mod::lemma_fundamental_div_mod(over, span);
        vstd::arithmetic::div_mod::lemma_mod_bound(over, span);
        let n = (loop_start + r) * FIXED_ONE + sum.fraction();
        assert(0 <= n < 0x1_0000_0000_0000_0000);
        assert(q > 0) by (nonlinear_arith)
            requires
                over == span * q + r,
                over >= span,
                0 <= r < span,
                span > 0,
        ;
        assert(n as int / 0x1_0000_0000 == loop_start + r);
        assert(q * span == span * q) by (nonlinear_arith);
        q
    } else {
        assert(0 * span == 0);
        0
    }
}

/// What a frame interpolates towards: the next frame, round to the loop's start
/// at its end and held at the sample's last frame outside a loop; the frame
/// before, held at the first.
pub proof fn law_neighbours_are_the_next_frames(
    idx: u32,
    loop_start: u32,
    loop_end: u32,
    len: u32,
)
    requires
        len > 0,
    ensures
        idx + 1 < len ==> neighbour(idx, 1, false, loop_start, loop_end, len) == idx + 1,
        idx + 1 >= len ==> neighbour(idx, 1, false, loop_start, loop_end, len) == len - 1,
        idx + 2 < len ==> neighbour(idx, 2, false, loop_start, loop_end, len) == idx + 2,
        0 < idx <= len ==> neighbour(idx, -1, false, loop_start, loop_end, len) == idx - 1,
        neighbour(0, -1, false, loop_start, loop_end, len) == 0,
        idx + 1 < loop_end ==> neighbour(idx, 1, true, loop_start, loop_end, len) == idx + 1,
        idx + 2 < loop_end ==> neighbour(idx, 2, true, loop_start, loop_end, len) == idx + 2,
        loop_start < loop_end && idx + 1 == loop_end ==> neighbour(
            idx,
            1,
            true,
            loop_start,
            loop_end,
            len,
        ) == loop_start,
        loop_start + 1 < loop_end && idx + 1 == loop_end ==> neighbour(
            idx,
            2,
            true,
            loop_start,
            loop_end,
            len,
        ) == loop_start + 1,
        0 < idx <= loop_end ==> neighbour(idx, -1, true, loop_start, loop_end, len) == idx - 1,
{
    if loop_start < loop_end {
        let span = loop_end - loop_start;
        vstd::arithmetic::div_mod::lemma_mod_self_0(span);
        if span > 1 {
            vstd::arithmetic::div_mod::lemma_mod_add_multiples_vanish(1, span);
            vstd::arithmetic::div_mod::lemma_small_mod(1, span as nat);
        }
    }
}

/// An envelope goes through attack, decay, sustain and release in turn. A stage
/// ends only when its level is reached: attack gives way to decay, decay to
/// sustain, or to the end where the sustain is silent, release to the end.
/// Sustain holds until the note-off, and nothing revives a dead voice.
pub proof fn law_envelope_stages_in_turn(stage: u32, silent: bool)
    ensures
        stage_after(stage, false, silent) == stage,
        stage_after(ENV_ATTACK, true, silent) == ENV_DECAY,
        stage_after(ENV_DECAY, true, false) == ENV_SUSTAIN,
        stage_after(ENV_DECAY, true, true) == ENV_DEAD,
        stage_after(ENV_SUSTAIN, true, silent) == ENV_SUSTAIN,
        stage_after(ENV_RELEASE, true, silent) == ENV_DEAD,
        stage_after(ENV_DEAD, true, silent) == ENV_DEAD,
        ENV_ATTACK < ENV_DECAY < ENV_SUSTAIN < ENV_RELEASE < ENV_DEAD,
{
}

/// A stolen voice fades from its stop frame on, one step per frame, and is silent
/// when the fade is over. Before its stop it is untouched, and a voice that is not
/// stolen never fades.
pub proof fn law_fades_start_at_the_stop(stop_rel: u32, n: int, fade: u32)
    requires
        0 <= n,
    ensures
        fade_at(0, n, fade) == Fade::Full,
        stop_rel > 0 && n < stop_rel - 1 ==> fade_at(stop_rel, n, fade) == Fade::Full,
        stop_rel > 0 && n < fade ==> fade_at(stop_rel, stop_rel - 1 + n, fade) == Fade::Partial(
            n as u32,
        ),
        stop_rel > 0 && n >= fade ==> fade_at(stop_rel, stop_rel - 1 + n, fade) == Fade::Silent,
{
}

/// A loop runs for good, or until the note is released, or not at all.
pub proof fn law_when_a_voice_loops(flags: u32, stage: u32)
    ensures
        !has_loop(flags) ==> !loops(flags, stage),
        has_loop(flags) && !loop_ends_with_note(flags) ==> loops(flags, stage),
        has_loop(flags) && loop_ends_with_note(flags) ==> loops(flags, stage) == (stage
            == ENV_ATTACK || stage == ENV_DECAY || stage == ENV_SUSTAIN),
{
}

/// A voice waits for its start, plays its sample to the last frame and ends
/// there; only a loop carries it past the end, and a dead voice stays over.
pub proof fn law_a_voice_plays_its_sample_out(c: Cursor, f: int)
    ensures
        c.frame_is(f) == Frame::Wait <==> f < c.voice.start_rel,
        f >= c.voice.start_rel && c.stage != ENV_DEAD && c.phase.0 < c.voice.smp_len
            * 0x1_0000_0000 ==> c.frame_is(f) == Frame::Play,
        f >= c.voice.start_rel && c.stage != ENV_DEAD && !has_loop(c.voice.flags) && c.phase.0
            >= c.voice.smp_len * 0x1_0000_0000 ==> c.frame_is(f) == Frame::Over,
        f >= c.voice.start_rel && c.stage == ENV_DEAD ==> c.frame_is(f) == Frame::Over,
        f >= c.voice.start_rel && c.stage < ENV_RELEASE && has_loop(c.voice.flags)
            ==> c.frame_is(f) == Frame::Play,
{
    let p = c.phase.0 as int;
    let n = c.voice.smp_len as int;
    vstd::arithmetic::div_mod::lemma_fundamental_div_mod(p, 0x1_0000_0000);
    assert(p < n * 0x1_0000_0000 <==> p / 0x1_0000_0000 < n);
}

/// A tile's row acts on what it is for: a note-off releases a voice that waits
/// for it, a bend scales the step the voice was built with, so that bends do not
/// pile up, and a variant moves the voice's constants. A quiet row does nothing.
pub proof fn law_rows_act_on_their_own(c: Cursor, tile: int, offs: u32, t: TileControls)
    ensures
        ({
            let n = c.in_tile(tile, offs, t);
            &&& n.phase == c.phase
            &&& n.voice == c.voice
            &&& n.born_tile == c.born_tile
            &&& n.stage == c.stage || n.stage == ENV_RELEASE
            &&& n.stage != c.stage ==> c.stage < ENV_RELEASE && offs >= c.voice.ordinal
                && !is_one_shot(c.voice.flags)
            &&& c.stage < ENV_RELEASE && offs >= c.voice.ordinal && !is_one_shot(c.voice.flags)
                ==> n.stage == ENV_RELEASE
            &&& !t.bend_active ==> n.step == c.step
            &&& t.bend_active && t.bend == BEND_ONE ==> n.step == c.voice.step
            &&& t.bend_active && c.voice.step.0 * t.bend / 0x100_0000
                < 0x1_0000_0000_0000_0000 ==> n.step.0 == c.voice.step.0 * t.bend / 0x100_0000
            &&& t.bend_active ==> n.step == n.in_tile(tile, offs, t).step
            &&& !t.variant_active ==> n.variant == c.variant
            &&& t.variant_active && c.voice.born_variant == 0 ==> n.variant == t.variant
            &&& t.variant_active && tile > c.born_tile ==> n.variant == t.variant
            &&& c.voice.born_variant != 0 && tile <= c.born_tile ==> n.variant == c.variant
        }),
{
    crate::fixed::law_unity_bend_is_identity(c.voice.step);
}

/// A started voice is what its command says: it opens at the command's phase and
/// step, in attack and silent, with a clean filter, and under the variant of its
/// own note-on; it reads the sample, loops, gains, constants and key the command
/// names, and starts at the frame the command asks for.
pub proof fn law_a_started_voice_is_its_command(cmd: SpawnCmd, tile_frames: u32)
    requires
        cmd.variant < u32::MAX,
        tile_frames > 0,
    ensures
        ({
            let c = Cursor::begun(voice_for(cmd), tile_frames);
            &&& c.phase.0 == cmd.phase_hi * 0x1_0000_0000 + cmd.phase_lo
            &&& c.step.0 == cmd.step_hi * 0x1_0000_0000 + cmd.step_lo
            &&& c.stage == ENV_ATTACK
            &&& c.variant == cmd.variant
            &&& c.voice.born_variant > 0
            &&& c.born_tile == cmd.start_rel as int / tile_frames as int
            &&& c.voice.start_rel == cmd.start_rel
            &&& c.voice.stop_rel == 0
            &&& c.voice.env_level == 0 && c.voice.filt_z1 == 0 && c.voice.filt_z2 == 0
            &&& c.voice.smp_base == cmd.smp_base && c.voice.smp_len == cmd.smp_len
            &&& c.voice.loop_start == cmd.loop_start && c.voice.loop_end == cmd.loop_end
            &&& c.voice.flags == cmd.flags
            &&& c.voice.params == cmd.params && c.voice.region == cmd.region
            &&& c.voice.gate_slot == cmd.gate_slot && c.voice.ordinal == cmd.ordinal
            &&& c.voice.gain_l == cmd.gain_l && c.voice.gain_r == cmd.gain_r
            &&& c.voice.note_id == cmd.note_id_hi * 0x1_0000_0000 + cmd.note_id_lo
            &&& forall|f: int| #[trigger] c.frame_is(f) == Frame::Wait <==> f < cmd.start_rel
        }),
{
    let q = cmd.start_rel as int / tile_frames as int;
    assert(0 <= q <= cmd.start_rel) by (nonlinear_arith)
        requires
            q == cmd.start_rel as int / tile_frames as int,
            tile_frames > 0,
            cmd.start_rel >= 0,
    ;
}

/// A variant reads its own table and no other: the bank's for variant zero and
/// for one that was never installed or is too short.
pub proof fn law_variants_read_their_own_table(
    store: ParamStore,
    bank: Seq<crate::bank::RegionParams>,
    variant: u32,
    place: int,
)
    requires
        0 <= place,
    ensures
        store.at(bank, 0, place) == bank[place],
        variant > store.tables@.len() ==> store.at(bank, variant, place) == bank[place],
        0 < variant <= store.tables@.len() && place < store.tables@[variant - 1]@.len()
            ==> store.at(bank, variant, place) == store.tables@[variant - 1]@[place],
        0 < variant <= store.tables@.len() && place >= store.tables@[variant - 1]@.len()
            ==> store.at(bank, variant, place) == bank[place],
{
}

} // verus!
