//! One voice's way through a block: gate, variant, loop, steal and envelope
//! decisions, and which pool samples each frame reads.
//!
//! The signal arithmetic itself is done by whoever drives the cursor; what it
//! finds (an envelope reached its target, a level is below the floor) comes back
//! as plain answers.

use crate::bank::RegionParams;
use crate::config::{Config, Interpolation};
use crate::fixed::{Fixed, FIXED_ONE};
use crate::pool::{stop_frame, Voice};
use crate::voice::{ENV_ATTACK, ENV_DEAD, ENV_DECAY, ENV_RELEASE, ENV_SUSTAIN};
use vstd::prelude::*;

verus! {

/// Whether the voice flags ask for a loop.
pub open spec fn has_loop(flags: u32) -> bool {
    flags % 2 == 1
}

/// Whether the loop ends with the note.
pub open spec fn loop_ends_with_note(flags: u32) -> bool {
    flags as int / 2 % 2 == 1
}

/// Whether the voice plays its sample out whatever the key does.
pub open spec fn is_one_shot(flags: u32) -> bool {
    flags as int / 4 % 2 == 1
}

/// Whether a voice loops at an envelope stage.
pub open spec fn loops(flags: u32, stage: u32) -> bool {
    has_loop(flags) && !(loop_ends_with_note(flags) && stage >= ENV_RELEASE)
}

fn looping(flags: u32, stage: u32) -> (r: bool)
    ensures
        r == loops(flags, stage),
{
    flags % 2 == 1 && !(flags / 2 % 2 == 1 && stage >= ENV_RELEASE)
}

/// The index `off` frames away from `idx`, honouring the loop. Past the loop's
/// end it comes round; outside a loop it stops at the sample's ends.
pub open spec fn neighbour(
    idx: u32,
    off: int,
    in_loop: bool,
    loop_start: u32,
    loop_end: u32,
    len: u32,
) -> int {
    let raw = idx + off;
    if in_loop {
        if raw >= loop_end {
            let span = if loop_end - loop_start < 1 {
                1
            } else {
                loop_end - loop_start
            };
            loop_start + (raw - loop_start) % span
        } else if raw < 0 {
            0
        } else {
            raw
        }
    } else if raw > len - 1 {
        len - 1
    } else if raw < 0 {
        0
    } else {
        raw
    }
}

/// Index of the sample `off` frames after `idx`, honouring the loop.
pub fn advance_index(
    idx: u32,
    off: i32,
    in_loop: bool,
    loop_start: u32,
    loop_end: u32,
    len: u32,
) -> (r: u32)
    requires
        !in_loop ==> 0 < len,
    ensures
        r == neighbour(idx, off as int, in_loop, loop_start, loop_end, len),
{
    let raw: i64 = idx as i64 + off as i64;
    if in_loop {
        if raw >= loop_end as i64 {
            if loop_end <= loop_start {
                assert((raw - loop_start) % 1 == 0);
                return loop_start;
            }
            let span: u32 = loop_end - loop_start;
            let over: u64 = (raw - loop_start as i64) as u64;
            proof {
                vstd::arithmetic::div_mod::lemma_mod_bound(over as int, span as int);
            }
            loop_start + (over % span as u64) as u32
        } else if raw < 0 {
            0
        } else {
            raw as u32
        }
    } else if raw > len as i64 - 1 {
        len - 1
    } else if raw < 0 {
        0
    } else {
        raw as u32
    }
}

/// A neighbour of an index inside a proper loop is inside it or before it, never
/// past its end.
pub proof fn law_neighbours_stay_in_the_loop(
    idx: u32,
    off: int,
    loop_start: u32,
    loop_end: u32,
    len: u32,
)
    requires
        loop_start < loop_end <= len,
        idx < loop_end,
        -1 <= off <= 2,
    ensures
        0 <= neighbour(idx, off, true, loop_start, loop_end, len) < loop_end,
{
    let raw = idx + off;
    if raw >= loop_end {
        vstd::arithmetic::div_mod::lemma_mod_bound(raw - loop_start, loop_end - loop_start);
    }
}

/// Outside a loop a neighbour is always a frame of the sample.
pub proof fn law_neighbours_stay_in_the_sample(
    idx: u32,
    off: int,
    loop_start: u32,
    loop_end: u32,
    len: u32,
)
    requires
        0 < len,
    ensures
        0 <= neighbour(idx, off, false, loop_start, loop_end, len) < len,
{
}

/// The four pool indices an interpolator may read: the one before, the one at,
/// and the two after the phase.
#[derive(Debug, Clone, Copy, PartialEq, Eq, Structural)]
pub struct Taps {
    pub before: u32,
    pub at: u32,
    pub next: u32,
    pub after: u32,
}

/// The phase one step on. In a loop, a phase that reaches the loop's end comes
/// round with its fraction kept.
pub open spec fn phase_after(
    phase: Fixed,
    step: Fixed,
    in_loop: bool,
    loop_start: u32,
    loop_end: u32,
) -> Fixed {
    let sum = Fixed(((phase.0 + step.0) % 0x1_0000_0000_0000_0000) as u64);
    if in_loop && sum.whole() >= loop_end {
        let span = if loop_end - loop_start < 1 {
            1
        } else {
            loop_end - loop_start
        };
        Fixed(
            ((loop_start + (sum.whole() - loop_start) % span) * FIXED_ONE + sum.fraction()) as u64,
        )
    } else {
        sum
    }
}

/// Step a phase.
pub fn advance_phase(
    phase: Fixed,
    step: Fixed,
    in_loop: bool,
    loop_start: u32,
    loop_end: u32,
) -> (r: Fixed)
    requires
        in_loop ==> loop_start <= loop_end,
    ensures
        r == phase_after(phase, step, in_loop, loop_start, loop_end),
{
    let sum = phase.wrapping_add(step);
    if in_loop {
        let hi: u32 = sum.hi();
        if hi >= loop_end {
            let d: u32 = loop_end - loop_start;
            let span: u32 = if d < 1 {
                1
            } else {
                d
            };
            let over: u32 = hi - loop_start;
            proof {
                vstd::arithmetic::div_mod::lemma_mod_bound(over as int, span as int);
                if d < 1 {
                    assert(over as int % 1 == 0);
                }
            }
            let wrapped: u32 = loop_start + over % span;
            return Fixed::from_parts(wrapped, sum.lo());
        }
    }
    sum
}

/// A looping phase never leaves its loop's end behind, and coming round keeps
/// its fraction.
pub proof fn law_looping_phase_stays_before_the_end(
    phase: Fixed,
    step: Fixed,
    loop_start: u32,
    loop_end: u32,
)
    requires
        loop_start < loop_end,
    ensures
        phase_after(phase, step, true, loop_start, loop_end).whole() < loop_end,
        phase_after(phase, step, true, loop_start, loop_end).fraction() == ((phase.0 + step.0)
            % 0x1_0000_0000_0000_0000) % 0x1_0000_0000,
{
    let sum = Fixed(((phase.0 + step.0) % 0x1_0000_0000_0000_0000) as u64);
    if sum.whole() >= loop_end {
        let span = loop_end - loop_start;
        let m = (sum.whole() - loop_start) % span;
        vstd::arithmetic::div_mod::lemma_mod_bound(sum.whole() - loop_start, span);
        let w = loop_start + m;
        let f = sum.fraction();
        assert((w * FIXED_ONE + f) / FIXED_ONE as int == w);
        assert((w * FIXED_ONE + f) % FIXED_ONE as int == f);
    }
}

/// The envelope's next stage. `reached` says that the level has reached the end
/// of the stage, `silent` that the sustain level is below the floor.
pub open spec fn stage_after(stage: u32, reached: bool, silent: bool) -> u32 {
    if !reached {
        stage
    } else if stage == ENV_ATTACK {
        ENV_DECAY
    } else if stage == ENV_DECAY {
        if silent {
            ENV_DEAD
        } else {
            ENV_SUSTAIN
        }
    } else if stage == ENV_RELEASE {
        ENV_DEAD
    } else {
        stage
    }
}

/// The envelope's next stage.
pub fn next_stage(stage: u32, reached: bool, silent: bool) -> (r: u32)
    ensures
        r == stage_after(stage, reached, silent),
{
    if !reached {
        return stage;
    }
    match stage {
        ENV_ATTACK => ENV_DECAY,
        ENV_DECAY => if silent {
            ENV_DEAD
        } else {
            ENV_SUSTAIN
        },
        ENV_RELEASE => ENV_DEAD,
        _ => stage,
    }
}

/// An envelope only moves forward, and a dead voice stays dead.
pub proof fn law_envelopes_only_move_forward(stage: u32, reached: bool, silent: bool)
    requires
        stage <= ENV_DEAD,
    ensures
        stage <= stage_after(stage, reached, silent) <= ENV_DEAD,
        stage == ENV_DEAD ==> stage_after(stage, reached, silent) == ENV_DEAD,
{
}

/// What a frame is to a voice.
#[derive(Debug, Clone, Copy, PartialEq, Eq, Structural)]
pub enum Frame {
    /// The voice has not started yet.
    Wait,
    /// The voice is over, from this frame on.
    Over,
    /// The voice sounds.
    Play,
}

/// How far a stolen voice has faded at a frame.
#[derive(Debug, Clone, Copy, PartialEq, Eq, Structural)]
pub enum Fade {
    /// Not at all.
    Full,
    /// Frames into the fade.
    Partial(u32),
    /// To silence: the voice is over.
    Silent,
}

/// How far a voice stopping at `stop_rel` has faded at frame `f`.
pub open spec fn fade_at(stop_rel: u32, f: int, fade: u32) -> Fade {
    if stop_rel != 0 && f + 1 >= stop_rel {
        if f + 1 - stop_rel >= fade {
            Fade::Silent
        } else {
            Fade::Partial((f + 1 - stop_rel) as u32)
        }
    } else {
        Fade::Full
    }
}

/// The controls of one gate tile as a voice reads them.
#[derive(Debug, Clone, Copy, PartialEq, Eq, Structural)]
pub struct TileControls {
    pub bend_active: bool,
    pub bend: u32,
    pub variant_active: bool,
    pub variant: u32,
}

/// What entering a tile changed.
#[derive(Debug, Clone, Copy, PartialEq, Eq, Structural)]
pub struct TileChange {
    /// The note-off was seen: the voice entered its release.
    pub released: bool,
    /// The constants have to be read again, from this variant.
    pub reload: bool,
}

/// A voice on its way through a block.
#[derive(Debug, Clone, Copy, PartialEq, Eq, Structural)]
pub struct Cursor {
    pub voice: Voice,
    pub phase: Fixed,
    /// The step with the channel's bend applied.
    pub step: Fixed,
    pub stage: u32,
    /// The params variant in force.
    pub variant: u32,
    /// The tile the voice starts in.
    pub born_tile: u32,
}

impl Cursor {
    /// The start of a voice's block. A voice born in this block is under the
    /// variant of its own note-on.
    pub open spec fn begun(v: Voice, tile_frames: u32) -> Cursor {
        Cursor {
            voice: v,
            phase: v.phase,
            step: v.step,
            stage: v.env_stage,
            variant: if v.born_variant > 0 {
                (v.born_variant - 1) as u32
            } else {
                0
            },
            born_tile: (v.start_rel as int / tile_frames as int) as u32,
        }
    }

    pub fn begin(v: Voice, tile_frames: u32) -> (r: Cursor)
        requires
            tile_frames > 0,
        ensures
            r == Cursor::begun(v, tile_frames),
    {
        Cursor {
            voice: v,
            phase: v.phase,
            step: v.step,
            stage: v.env_stage,
            variant: v.born_variant.saturating_sub(1),
            born_tile: v.start_rel / tile_frames,
        }
    }

    /// Whether the note-off reaches the voice: it is no one-shot, it is not released
    /// yet and its key has seen its note-off.
    pub open spec fn gated(self, offs: u32) -> bool {
        !is_one_shot(self.voice.flags) && self.stage < ENV_RELEASE && offs >= self.voice.ordinal
    }

    /// Whether a tile's row moves the voice to another variant. Rows show the
    /// state at the start of their tile, so a voice is under its own birth
    /// variant in the tile it was born in, and under the rows from the next.
    pub open spec fn moves_variant(self, tile: int, c: TileControls) -> bool {
        c.variant_active && c.variant != self.variant && !(self.voice.born_variant != 0 && tile
            <= self.born_tile)
    }

    pub open spec fn in_tile(self, tile: int, offs: u32, c: TileControls) -> Cursor {
        Cursor {
            stage: if self.gated(offs) {
                ENV_RELEASE
            } else {
                self.stage
            },
            step: if c.bend_active {
                Fixed(self.voice.step.scaled(c.bend))
            } else {
                self.step
            },
            variant: if self.moves_variant(tile, c) {
                c.variant
            } else {
                self.variant
            },
            ..self
        }
    }

    /// Enter a gate tile: `offs` is the note-off count of the voice's key, `c`
    /// the controls of its channel.
    pub fn enter_tile(&mut self, tile: u32, offs: u32, c: &TileControls) -> (r: TileChange)
        ensures
            *final(self) == old(self).in_tile(tile as int, offs, *c),
            r.released == old(self).gated(offs),
            r.reload == old(self).moves_variant(tile as int, *c),
    {
        let mut r = TileChange { released: false, reload: false };
        if self.voice.flags / 4 % 2 == 0 && self.stage < ENV_RELEASE && offs
            >= self.voice.ordinal {
            self.stage = ENV_RELEASE;
            r.released = true;
        }
        if c.bend_active {
            self.step = self.voice.step.scale(c.bend);
        }
        if c.variant_active {
            let born_here = self.voice.born_variant != 0 && tile <= self.born_tile;
            if c.variant != self.variant && !born_here {
                self.variant = c.variant;
                r.reload = true;
            }
        }
        r
    }

    /// What a frame is to the voice.
    pub open spec fn frame_is(self, f: int) -> Frame {
        if f < self.voice.start_rel {
            Frame::Wait
        } else if self.stage == ENV_DEAD {
            Frame::Over
        } else if !loops(self.voice.flags, self.stage) && self.phase.whole() >= self.voice.smp_len {
            Frame::Over
        } else {
            Frame::Play
        }
    }

    /// Look at a frame. A voice that has run out of its sample dies here.
    pub fn frame(&mut self, f: u32) -> (r: Frame)
        ensures
            r == old(self).frame_is(f as int),
            *final(self) == (Cursor {
                stage: if r == Frame::Over {
                    ENV_DEAD
                } else {
                    old(self).stage
                },
                ..*old(self)
            }),
    {
        if f < self.voice.start_rel {
            return Frame::Wait;
        }
        if self.stage == ENV_DEAD {
            return Frame::Over;
        }
        if !looping(self.voice.flags, self.stage) && self.phase.hi() >= self.voice.smp_len {
            self.stage = ENV_DEAD;
            return Frame::Over;
        }
        Frame::Play
    }

    /// The pool indices the interpolator reads at this frame, within the sample.
    /// `in_loop` is whether the voice looped when the frame began.
    pub fn taps(&self, interpolation: Interpolation, in_loop: bool) -> (r: Taps)
        requires
            !in_loop ==> self.voice.smp_len > 0,
        ensures
            r.at == self.phase.whole(),
            interpolation != Interpolation::Nearest ==> r.next == neighbour(
                r.at,
                1,
                in_loop,
                self.voice.loop_start,
                self.voice.loop_end,
                self.voice.smp_len,
            ),
            interpolation == Interpolation::Cubic ==> {
                &&& r.before == neighbour(
                    r.at,
                    -1,
                    in_loop,
                    self.voice.loop_start,
                    self.voice.loop_end,
                    self.voice.smp_len,
                )
                &&& r.after == neighbour(
                    r.at,
                    2,
                    in_loop,
                    self.voice.loop_start,
                    self.voice.loop_end,
                    self.voice.smp_len,
                )
            },
            interpolation == Interpolation::Nearest ==> r.next == r.at,
            interpolation != Interpolation::Cubic ==> r.before == r.at && r.after == r.next,
    {
        let at: u32 = self.phase.hi();
        let v = &self.voice;
        match interpolation {
            Interpolation::Nearest => Taps { before: at, at, next: at, after: at },
            Interpolation::Linear => {
                let next: u32 = advance_index(
                    at,
                    1,
                    in_loop,
                    v.loop_start,
                    v.loop_end,
                    v.smp_len,
                );
                Taps { before: at, at, next, after: next }
            },
            Interpolation::Cubic => Taps {
                before: advance_index(at, -1, in_loop, v.loop_start, v.loop_end, v.smp_len),
                at,
                next: advance_index(at, 1, in_loop, v.loop_start, v.loop_end, v.smp_len),
                after: advance_index(at, 2, in_loop, v.loop_start, v.loop_end, v.smp_len),
            },
        }
    }

    /// Whether the voice loops right now.
    pub fn in_loop(&self) -> (r: bool)
        ensures
            r == loops(self.voice.flags, self.stage),
    {
        looping(self.voice.flags, self.stage)
    }

    /// Take what the envelope found: it reached the end of its stage, and with
    /// it, at the end of a decay, a sustain below the floor.
    pub fn envelope(&mut self, reached: bool, silent: bool)
        ensures
            *final(self) == (Cursor {
                stage: stage_after(old(self).stage, reached, silent),
                ..*old(self)
            }),
    {
        self.stage = next_stage(self.stage, reached, silent);
    }

    /// How far the voice has faded at a frame, if it is being stolen. A voice
    /// that has faded to silence dies.
    pub fn fade(&mut self, f: u32, fade: u32) -> (r: Fade)
        requires
            f < u32::MAX,
        ensures
            r == fade_at(old(self).voice.stop_rel, f as int, fade),
            *final(self) == (Cursor {
                stage: if r == Fade::Silent {
                    ENV_DEAD
                } else {
                    old(self).stage
                },
                ..*old(self)
            }),
    {
        let stop: u32 = self.voice.stop_rel;
        if stop != 0 && f + 1 >= stop {
            let d: u32 = f + 1 - stop;
            if d >= fade {
                self.stage = ENV_DEAD;
                return Fade::Silent;
            }
            return Fade::Partial(d);
        }
        Fade::Full
    }

    /// Step to the next frame.
    pub fn advance(&mut self, in_loop: bool)
        requires
            in_loop ==> old(self).voice.loop_start <= old(self).voice.loop_end,
        ensures
            *final(self) == (Cursor {
                phase: phase_after(
                    old(self).phase,
                    old(self).step,
                    in_loop,
                    old(self).voice.loop_start,
                    old(self).voice.loop_end,
                ),
                ..*old(self)
            }),
    {
        self.phase = advance_phase(
            self.phase,
            self.step,
            in_loop,
            self.voice.loop_start,
            self.voice.loop_end,
        );
    }

    /// One frame of the voice's way: looked at, its envelope moved, its fade
    /// applied, stepped on. `reached` and `silent` are what the envelope found.
    pub open spec fn played(self, f: int, reached: bool, silent: bool, fade: u32) -> Cursor {
        match self.frame_is(f) {
            Frame::Wait => self,
            Frame::Over => Cursor { stage: ENV_DEAD, ..self },
            Frame::Play => Cursor {
                stage: if fade_at(self.voice.stop_rel, f, fade) == Fade::Silent {
                    ENV_DEAD
                } else {
                    stage_after(self.stage, reached, silent)
                },
                phase: phase_after(
                    self.phase,
                    self.step,
                    loops(self.voice.flags, self.stage) && self.voice.loop_start
                        <= self.voice.loop_end,
                    self.voice.loop_start,
                    self.voice.loop_end,
                ),
                ..self
            },
        }
    }

    /// Whether `next` is where frame `f` takes the voice, whatever its tile's row
    /// holds and whatever its envelope finds. A frame that opens a tile enters it
    /// first.
    pub open spec fn leads_to(self, next: Cursor, f: int, tile_frames: u32, fade: u32) -> bool {
        exists|offs: u32, t: TileControls, reached: bool, silent: bool|
            next == #[trigger] self.over_frame(f, tile_frames, fade, offs, t, reached, silent)
    }

    /// A frame and, where it opens one, its tile.
    pub open spec fn over_frame(
        self,
        f: int,
        tile_frames: u32,
        fade: u32,
        offs: u32,
        t: TileControls,
        reached: bool,
        silent: bool,
    ) -> Cursor {
        let c = if f % tile_frames as int == 0 {
            self.in_tile(f / tile_frames as int, offs, t)
        } else {
            self
        };
        c.played(f, reached, silent, fade)
    }

    /// The voice as the block leaves it.
    pub open spec fn ended(self, env_level: u32, z1: u32, z2: u32) -> Voice {
        Voice {
            phase: self.phase,
            env_stage: self.stage,
            env_level,
            filt_z1: z1,
            filt_z2: z2,
            start_rel: 0,
            born_variant: 0,
            stop_rel: 0,
            ..self.voice
        }
    }

    /// The voice as the block leaves it. Its birth, its start and a scheduled
    /// stop belong to the block that is over.
    pub fn end(&self, env_level: u32, z1: u32, z2: u32) -> (r: Voice)
        ensures
            r == self.ended(env_level, z1, z2),
    {
        let mut v = self.voice;
        v.phase = self.phase;
        v.env_stage = self.stage;
        v.env_level = env_level;
        v.filt_z1 = z1;
        v.filt_z2 = z2;
        v.start_rel = 0;
        v.born_variant = 0;
        v.stop_rel = 0;
        v
    }
}

/// A stolen voice is silent before its block ends, so the pool is back inside
/// its ceiling by then: with the stop frame a valid configuration schedules, the
/// last frame of the block finds the fade over.
pub proof fn law_stolen_voices_end_with_the_block(
    cfg: Config,
    id: u64,
)
    requires
        cfg.fault() is None,
    ensures
        fade_at(
            stop_frame(id, cfg.span_frames()),
            cfg.block_frames - 1,
            cfg.steal_fade_frames,
        ) == Fade::Silent,
{
    let x = id as int % 0x1_0000_0000;
    vstd::arithmetic::div_mod::lemma_mod_bound(x, cfg.span_frames());
}

/// A voice's way through a block: where it is before each frame, and after the
/// last.
pub open spec fn is_walk(walk: Seq<Cursor>, v: Voice, cfg: Config) -> bool {
    &&& walk.len() == cfg.block_frames + 1
    &&& walk[0] == Cursor::begun(v, cfg.gate_frames)
    &&& forall|f: int|
        0 <= f < cfg.block_frames ==> (#[trigger] walk[f]).leads_to(
            walk[f + 1],
            f,
            cfg.gate_frames,
            cfg.steal_fade_frames,
        )
}

proof fn lemma_walk_keeps_its_voice(walk: Seq<Cursor>, v: Voice, cfg: Config, f: int)
    requires
        is_walk(walk, v, cfg),
        0 <= f <= cfg.block_frames,
    ensures
        walk[f].voice == v,
    decreases f,
{
    if f > 0 {
        lemma_walk_keeps_its_voice(walk, v, cfg, f - 1);
        assert(walk[f - 1].leads_to(walk[f], f - 1, cfg.gate_frames, cfg.steal_fade_frames));
    }
}

/// A voice that was sounding before the block and is stolen in it is dead at the
/// end of the block, whatever its rows hold and whatever its envelope does.
pub proof fn law_a_stolen_voice_dies_in_its_block(walk: Seq<Cursor>, v: Voice, cfg: Config)
    requires
        cfg.fault() is None,
        is_walk(walk, v, cfg),
        v.start_rel == 0,
        v.stop_rel == stop_frame(v.note_id, cfg.span_frames()),
    ensures
        walk.last().stage == ENV_DEAD,
{
    let f = cfg.block_frames - 1;
    law_stolen_voices_end_with_the_block(cfg, v.note_id);
    lemma_walk_keeps_its_voice(walk, v, cfg, f);
    assert(walk[f].leads_to(walk[f + 1], f, cfg.gate_frames, cfg.steal_fade_frames));
    assert(walk.last() == walk[f + 1]);
}

/// A fade only deepens.
pub proof fn law_fades_only_deepen(stop_rel: u32, f: int, fade: u32)
    requires
        0 <= f,
        fade_at(stop_rel, f, fade) == Fade::Silent,
    ensures
        fade_at(stop_rel, f + 1, fade) == Fade::Silent,
{
}

/// A voice is released at the first tile whose row shows its note-off, and never
/// goes back. A one-shot voice is not released by its note-off at all.
pub proof fn law_release_follows_the_gate(c: Cursor, tile: int, offs: u32, t: TileControls)
    requires
        c.stage <= ENV_DEAD,
    ensures
        !is_one_shot(c.voice.flags) && offs >= c.voice.ordinal ==> c.in_tile(tile, offs, t).stage
            >= ENV_RELEASE,
        is_one_shot(c.voice.flags) ==> c.in_tile(tile, offs, t).stage == c.stage,
        offs < c.voice.ordinal ==> c.in_tile(tile, offs, t).stage == c.stage,
        c.stage <= c.in_tile(tile, offs, t).stage,
{
}

/// A voice born in this block keeps the variant of its own note-on through the
/// tile it was born in.
pub proof fn law_newborn_voices_keep_their_variant(
    v: Voice,
    tile_frames: u32,
    tile: int,
    offs: u32,
    t: TileControls,
)
    requires
        v.born_variant > 0,
        tile_frames > 0,
        0 <= tile <= Cursor::begun(v, tile_frames).born_tile,
    ensures
        Cursor::begun(v, tile_frames).in_tile(tile, offs, t).variant == v.born_variant - 1,
{
}

/// The copies of the params table beyond the bank's own.
pub struct ParamStore {
    /// Entry `i` holds variant `i + 1`.
    pub tables: Vec<Vec<RegionParams>>,
}

impl ParamStore {
    pub fn new() -> (r: ParamStore)
        ensures
            r.tables@.len() == 0,
    {
        ParamStore { tables: Vec::new() }
    }

    /// Install a copy. Variant zero is the bank's own and is never stored.
    pub fn set(&mut self, index: u32, data: Vec<RegionParams>)
        requires
            old(self).tables@.len() <= u32::MAX,
        ensures
            index == 0 ==> final(self).tables == old(self).tables,
            index > 0 ==> {
                let n = old(self).tables@.len() as int;
                &&& final(self).tables@.len() == (if n < index {
                    index as int
                } else {
                    n
                })
                &&& final(self).tables@[index - 1] == data
                &&& forall|i: int|
                    0 <= i < n && i != index - 1 ==> #[trigger] final(self).tables@[i] == old(
                        self,
                    ).tables@[i]
                &&& forall|i: int|
                    n <= i < index - 1 ==> (#[trigger] final(self).tables@[i])@.len() == 0
            },
    {
        if index == 0 {
            return;
        }
        let ghost t0 = self.tables@;
        let i: usize = index as usize - 1;
        while self.tables.len() <= i
            invariant
                i < index,
                i + 1 == index,
                t0.len() <= self.tables@.len(),
                self.tables@.len() <= index || self.tables@ == t0,
                forall|k: int| 0 <= k < t0.len() ==> #[trigger] self.tables@[k] == t0[k],
                forall|k: int|
                    t0.len() <= k < self.tables@.len() ==> (#[trigger] self.tables@[k])@.len() == 0,
            decreases index - self.tables@.len(),
        {
            self.tables.push(Vec::new());
        }
        self.tables[i] = data;
    }

    /// The constants at a place of a variant: those of the bank for variant
    /// zero, and where a variant was never installed.
    pub open spec fn at(&self, bank: Seq<RegionParams>, variant: u32, place: int) -> RegionParams {
        if variant > 0 && variant - 1 < self.tables@.len() && place < self.tables@[variant
            - 1]@.len() {
            self.tables@[variant - 1]@[place]
        } else {
            bank[place]
        }
    }

    pub fn params_of(&self, bank: &Vec<RegionParams>, variant: u32, place: usize) -> (r: RegionParams)
        requires
            place < bank@.len(),
        ensures
            r == self.at(bank@, variant, place as int),
    {
        if variant > 0 {
            let i: usize = variant as usize - 1;
            if i < self.tables.len() {
                let t = &self.tables[i];
                if place < t.len() {
                    return t[place];
                }
            }
        }
        bank[place]
    }
}

/// What was installed is what is read.
pub proof fn law_installed_params_are_read(
    after: ParamStore,
    bank: Seq<RegionParams>,
    index: u32,
    data: Vec<RegionParams>,
    place: int,
)
    requires
        index > 0,
        after.tables@.len() >= index,
        after.tables@[index - 1] == data,
        0 <= place < data@.len(),
    ensures
        after.at(bank, index, place) == data@[place],
        after.at(bank, 0, place) == bank[place],
{
}

} // verus!
