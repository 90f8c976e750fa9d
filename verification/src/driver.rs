//! Block-at-a-time render driver.
//!
//! Owns channel state, the note-off and controller tables and the candidates of the
//! block in hand. A host pulls events off a stream and offers them one by one;
//! the driver answers what is left to be worked out in floating point, and at
//! the end of a block hands over the voices to start.

use crate::admission::{
    admitted, apply_rule, energy, note_pack, note_unpack, packed, sum_energy, unpacked, Cand,
    NoteOn, DEFERRED,
};
use crate::bank::{Bank, PreviewLayer, VoiceSpawn};
use crate::channels::{ChannelTable, Channels, CHAN_ROW};
use crate::config::{AdmitRule, Config, ConfigError};
use crate::controls::{ChannelState, Effect, Event, Sound};
use crate::gates::{chan_of, slot_of, GateTable, Gates, GATE_SLOTS};
use crate::variants::{slot_cap, Build, VariantTable, Variants, VARIANT_SLOTS};
use crate::voice::{admit_key, key_of, pick, SpawnCmd};
use vstd::prelude::*;

verus! {

/// How long to keep rendering after the last event before giving up on voices
/// that will not die, in seconds.
pub const MAX_TAIL_SECONDS: u64 = 60;

/// Counters a render reports.
#[derive(Debug, Clone, Copy, PartialEq, Eq, Structural)]
pub struct DriverStats {
    pub frames: u64,
    pub blocks: u64,
    pub events: u64,
    /// Note-on layers the blocks could not take in.
    pub dropped: u64,
    pub notes: u64,
    /// Layers the blocks queued, dropped ones included.
    pub voices_spawned: u64,
    /// Samples the final clamp had to pull back to full scale.
    pub clipped: u64,
    /// Voices alive when the last block's admission was decided.
    pub last_live: u32,
    /// Layers the last block queued.
    pub last_want: u32,
    /// Layers admission let through.
    pub last_take: u32,
    /// Voices the backend killed to make room for them.
    pub last_stolen: u64,
    /// Summed opening amplitude of every layer the last block queued, and of the
    /// part it let through.
    pub last_want_energy: u64,
    pub last_take_energy: u64,
}

/// A voice whose delay pushes its start past the block it was struck in.
#[derive(Debug, Clone, Copy, PartialEq, Eq, Structural)]
pub struct Deferred {
    /// The frame it starts at, counted from the start of the render.
    pub frame: u64,
    pub cmd: SpawnCmd,
    /// The sum of its gains' magnitudes.
    pub loud: u32,
}

/// The driver as its contracts speak of it.
#[verifier::ext_equal]
pub struct DriverState {
    pub gates: Gates,
    pub chan: Channels,
    pub channels: Seq<ChannelState>,
    pub variants: Variants,
    /// This block's note-ons, packed, and their ordinals.
    pub notes: Seq<u64>,
    pub ordinals: Seq<u32>,
    /// One entry per layer this block might start.
    pub cands: Seq<Cand>,
    /// This block's share of the deferred voices.
    pub deferred_now: Seq<SpawnCmd>,
    pub deferred: Seq<Deferred>,
    /// The voices to start.
    pub spawns: Seq<SpawnCmd>,
    /// A voice queued this block was born under a variant.
    pub spawn_variants: bool,
    pub next_note_id: int,
    pub block_first_id: int,
    pub block_index: int,
    pub stream_done: bool,
    pub end_sent: bool,
    pub tail_left: int,
    pub stats: DriverStats,
}

/// The command that starts a built layer.
pub open spec fn command(
    v: VoiceSpawn,
    variant: u32,
    gate_slot: int,
    ordinal: u32,
    start_rel: int,
    id: int,
) -> SpawnCmd {
    SpawnCmd {
        phase_lo: v.phase.fraction() as u32,
        phase_hi: v.phase.whole() as u32,
        step_lo: v.step.fraction() as u32,
        step_hi: v.step.whole() as u32,
        smp_base: v.smp_base,
        smp_len: v.smp_len,
        loop_start: v.loop_start,
        loop_end: v.loop_end,
        flags: v.flags,
        params: v.params,
        variant,
        region: v.region,
        gate_slot: gate_slot as u32,
        ordinal,
        start_rel: start_rel as u32,
        note_id_lo: (id % 0x1_0000_0000) as u32,
        note_id_hi: (id / 0x1_0000_0000) as u32,
        gain_l: v.gain_l,
        gain_r: v.gain_r,
    }
}

fn make_cmd(
    v: &VoiceSpawn,
    variant: u32,
    gate_slot: u32,
    ordinal: u32,
    start_rel: u32,
    id: u64,
) -> (r: SpawnCmd)
    ensures
        r == command(*v, variant, gate_slot as int, ordinal, start_rel as int, id as int),
{
    SpawnCmd {
        phase_lo: v.phase.lo(),
        phase_hi: v.phase.hi(),
        step_lo: v.step.lo(),
        step_hi: v.step.hi(),
        smp_base: v.smp_base,
        smp_len: v.smp_len,
        loop_start: v.loop_start,
        loop_end: v.loop_end,
        flags: v.flags,
        params: v.params,
        variant,
        region: v.region,
        gate_slot,
        ordinal,
        start_rel,
        note_id_lo: (id % 0x1_0000_0000) as u32,
        note_id_hi: (id / 0x1_0000_0000) as u32,
        gain_l: v.gain_l,
        gain_r: v.gain_r,
    }
}

/// The preset a program change on a channel resolves to. The tenth channel is
/// percussion, and drum kits live in bank 128.
pub open spec fn preset_for(bank: Bank, c: int, msb: u8, program: u8) -> u32 {
    let b: u16 = if c == 9 {
        128
    } else {
        msb as u16
    };
    match crate::bank::resolved(bank.index@, b, program as u16) {
        Some(p) => p,
        None => 0,
    }
}

fn find_program(bank: &Bank, c: usize, msb: u8, program: u8) -> (r: u32)
    ensures
        r == preset_for(*bank, c as int, msb, program),
{
    let b: u16 = if c == 9 {
        128
    } else {
        msb as u16
    };
    match bank.find_preset(b, program as u16) {
        Some(p) => p,
        None => 0,
    }
}

/// A note-on being turned into candidates.
pub struct Strike {
    pub on: NoteOn,
    pub ordinal: u32,
    /// Where its packed form goes, if any of its layers is a candidate.
    pub note: u32,
}

impl DriverState {
    /// First frame of the block in hand.
    pub open spec fn block_start(self, cfg: Config) -> int {
        self.block_index * cfg.block_frames
    }

    /// First frame of the next block.
    pub open spec fn block_end(self, cfg: Config) -> int {
        self.block_start(cfg) + cfg.block_frames
    }

    /// One layer of a note-on. A layer whose delay takes it past the block is
    /// built and parked; any other becomes a candidate, and pins the variant it
    /// was born under.
    pub open spec fn layer(self, cfg: Config, bank: Bank, s: Strike, region: u32) -> DriverState {
        let p = bank.preview_of(region as int, s.on.vel);
        let id = self.next_note_id;
        if p.delay_frames != 0 && s.on.rel + p.delay_frames >= cfg.block_frames {
            DriverState {
                next_note_id: id + 1,
                deferred: self.deferred.push(
                    Deferred {
                        frame: (self.block_start(cfg) + s.on.rel + p.delay_frames) as u64,
                        cmd: command(
                            bank.voice_of(
                                region as int,
                                Bank::key_of(s.on.key),
                                s.on.vel,
                            )->Some_0,
                            s.on.variant,
                            slot_of(s.on.ch, s.on.key),
                            s.ordinal,
                            s.on.rel as int,
                            id,
                        ),
                        loud: p.loud,
                    },
                ),
                ..self
            }
        } else {
            DriverState {
                next_note_id: id + 1,
                notes: if self.notes.len() == s.note {
                    self.notes.push(packed(s.on) as u64)
                } else {
                    self.notes
                },
                ordinals: if self.notes.len() == s.note {
                    self.ordinals.push(s.ordinal)
                } else {
                    self.ordinals
                },
                cands: self.cands.push(
                    Cand {
                        key: key_of(p.loud, self.cands.len() as u64),
                        note: s.note,
                        region,
                        id_off: (id - self.block_first_id) as u32,
                    },
                ),
                variants: if s.on.variant != 0 {
                    self.variants.pin(s.on.variant as int)
                } else {
                    self.variants
                },
                spawn_variants: self.spawn_variants || s.on.variant != 0,
                ..self
            }
        }
    }

    /// The first `n` layers of a note-on.
    pub open spec fn layers(self, cfg: Config, bank: Bank, s: Strike, regions: Seq<u32>, n: int)
        -> DriverState
        decreases n,
    {
        if n <= 0 {
            self
        } else {
            self.layers(cfg, bank, s, regions, n - 1).layer(cfg, bank, s, regions[n - 1])
        }
    }

    /// A note-on.
    pub open spec fn note_on(self, cfg: Config, bank: Bank, ch: u8, key: u8, vel: u8, rel: u32)
        -> DriverState {
        let c = chan_of(ch);
        let s = Strike {
            on: NoteOn { ch: c as u8, key, vel, variant: self.variants.cur[c], rel },
            ordinal: self.gates.slots[slot_of(ch, key)].strike().on,
            note: self.notes.len() as u32,
        };
        let regions = bank.layers(self.channels[c].preset, key, vel, cfg.max_layers as int);
        let d = DriverState {
            gates: self.gates.note_on(ch, key, rel),
            stats: DriverStats { notes: (self.stats.notes + 1) as u64, ..self.stats },
            ..self
        };
        d.layers(cfg, bank, s, regions, regions.len() as int)
    }

    /// One of the five sound controllers.
    pub open spec fn sound_cc(self, cfg: Config, ch: u8, which: int, val: u8, rel: u32)
        -> DriverState {
        let c = chan_of(ch);
        let s = self.channels[c];
        if s.sound.at(which) == val {
            self
        } else {
            let sound = s.sound.with(which, val);
            let v = self.variants.select(c, sound, slot_cap(cfg.max_param_variants));
            DriverState {
                channels: self.channels.update(c, ChannelState { sound, ..s }),
                variants: v,
                chan: self.chan.set_variant(ch, v.cur[c], rel),
                ..self
            }
        }
    }

    /// The first `n` sound controllers back at their neutral position.
    pub open spec fn neutral_sound(self, cfg: Config, ch: u8, rel: u32, n: int) -> DriverState
        decreases n,
    {
        if n <= 0 {
            self
        } else {
            self.neutral_sound(cfg, ch, rel, n - 1).sound_cc(cfg, ch, n - 1, 64, rel)
        }
    }

    /// A controller.
    pub open spec fn cc(self, cfg: Config, ch: u8, num: u8, val: u8, rel: u32) -> DriverState {
        let c = chan_of(ch);
        let s = self.channels[c];
        let d = DriverState {
            channels: self.channels.update(c, s.after_cc(num, val, cfg.default_channel_volume)),
            ..self
        };
        match s.effect_of(num, val) {
            Effect::Nothing => d,
            Effect::Gain => d,
            Effect::Bend => d,
            Effect::Sustain(down) => DriverState {
                gates: d.gates.set_sustain(ch, down, rel),
                ..d
            },
            Effect::Sostenuto(down) => DriverState {
                gates: d.gates.set_sostenuto(ch, down, rel),
                ..d
            },
            Effect::Sound(which) => d.sound_cc(cfg, ch, which as int, val, rel),
            Effect::AllSoundOff => DriverState { gates: d.gates.all_sound_off(ch, rel), ..d },
            Effect::AllNotesOff => DriverState { gates: d.gates.all_notes_off(ch, rel), ..d },
            Effect::Reset => {
                let e = d.neutral_sound(cfg, ch, rel, 5);
                DriverState { gates: e.gates.reset_controllers(ch, rel), ..e }
            },
        }
    }

    /// The state after an event at a frame of the block.
    pub open spec fn handled(self, cfg: Config, bank: Bank, ev: Event, rel: u32) -> DriverState {
        match ev {
            Event::NoteOn { ch, key, vel } => self.note_on(cfg, bank, ch, key, vel, rel),
            Event::NoteOff { ch, key } => DriverState {
                gates: self.gates.note_off(ch, key, rel),
                ..self
            },
            Event::Cc { ch, num, val } => self.cc(cfg, ch, num, val, rel),
            Event::Program { ch, val } => {
                let c = chan_of(ch);
                let s = self.channels[c];
                DriverState {
                    channels: self.channels.update(
                        c,
                        ChannelState { preset: preset_for(bank, c, s.bank_msb, val), ..s },
                    ),
                    ..self
                }
            },
            Event::PitchBend { ch, val } => {
                let c = chan_of(ch);
                DriverState {
                    channels: self.channels.update(
                        c,
                        ChannelState { bend_val: val, ..self.channels[c] },
                    ),
                    ..self
                }
            },
            Event::Tempo(_) => self,
            Event::Other => self,
        }
    }

    /// What an event leaves to be worked out in floating point.
    pub open spec fn refresh_of(self, ev: Event, rel: u32) -> Refresh {
        match ev {
            Event::Cc { ch, num, val } => {
                let e = self.channels[chan_of(ch)].effect_of(num, val);
                Refresh {
                    ch: chan_of(ch) as u8,
                    rel,
                    bend: e is Bend || e is Reset,
                    gain: e is Gain || e is Reset,
                }
            },
            Event::PitchBend { ch, val } => Refresh {
                ch: chan_of(ch) as u8,
                rel,
                bend: true,
                gain: false,
            },
            _ => Refresh { ch: 0, rel, bend: false, gain: false },
        }
    }

    /// The frame of the block an event at an absolute frame falls on. Events
    /// from before the block fall on its first frame.
    pub open spec fn rel_of(self, cfg: Config, frame: u64) -> u32 {
        let r = if frame < self.block_start(cfg) {
            0
        } else {
            frame - self.block_start(cfg)
        };
        (if r < cfg.block_frames {
            r
        } else {
            cfg.block_frames - 1
        }) as u32
    }

    pub open spec fn counted(self) -> DriverState {
        DriverState {
            stats: DriverStats { events: (self.stats.events + 1) as u64, ..self.stats },
            ..self
        }
    }

    /// The deferred voice at `i` brought into the block as a candidate.
    pub open spec fn recalled(self, cfg: Config, i: int) -> DriverState {
        let d = self.deferred[i];
        let start = if d.frame < self.block_start(cfg) {
            0
        } else {
            d.frame - self.block_start(cfg)
        };
        DriverState {
            deferred: self.deferred.update(i, self.deferred.last()).drop_last(),
            deferred_now: self.deferred_now.push(
                SpawnCmd { start_rel: start as u32, ..d.cmd },
            ),
            cands: self.cands.push(
                Cand {
                    key: key_of(d.loud, self.cands.len() as u64),
                    note: DEFERRED,
                    region: self.deferred_now.len() as u32,
                    id_off: 0,
                },
            ),
            variants: if d.cmd.variant != 0 {
                self.variants.pin(d.cmd.variant as int)
            } else {
                self.variants
            },
            spawn_variants: self.spawn_variants || d.cmd.variant != 0,
            ..self
        }
    }

    /// Every deferred voice from place `i` on that starts before the block ends,
    /// brought into the block.
    pub open spec fn recall(self, cfg: Config, i: int) -> DriverState
        decreases self.deferred.len() - i,
    {
        if i < 0 || i >= self.deferred.len() {
            self
        } else if self.deferred[i].frame < self.block_end(cfg) {
            self.recalled(cfg, i).recall(cfg, i)
        } else {
            self.recall(cfg, i + 1)
        }
    }

    /// A new block, before any event.
    pub open spec fn begin(self, cfg: Config) -> DriverState {
        DriverState {
            gates: self.gates.begin(),
            chan: self.chan.begin(),
            variants: self.variants.begin(),
            notes: Seq::empty(),
            ordinals: Seq::empty(),
            cands: Seq::empty(),
            deferred_now: Seq::empty(),
            spawns: Seq::empty(),
            spawn_variants: false,
            block_first_id: self.next_note_id,
            ..self
        }.recall(cfg, 0)
    }

    /// All sound off on the first `n` channels, at the start of the block.
    pub open spec fn silenced(self, n: int) -> DriverState
        decreases n,
    {
        if n <= 0 {
            self
        } else {
            let d = self.silenced(n - 1);
            DriverState { gates: d.gates.all_sound_off((n - 1) as u8, 0), ..d }
        }
    }

    /// The stream ran out: everything is released, once, so looping voices stop.
    pub open spec fn ended(self) -> DriverState {
        if self.end_sent {
            DriverState { stream_done: true, ..self }
        } else {
            DriverState { stream_done: true, end_sent: true, ..self.silenced(16) }
        }
    }

    /// The command a candidate becomes.
    pub open spec fn command_of(self, bank: Bank, c: Cand) -> SpawnCmd {
        if c.note == DEFERRED {
            self.deferred_now[c.region as int]
        } else {
            let n = unpacked(self.notes[c.note as int]);
            let v = bank.voice_of(c.region as int, Bank::key_of(n.key), n.vel)->Some_0;
            command(
                v,
                n.variant,
                slot_of(n.ch, n.key),
                self.ordinals[c.note as int],
                n.rel + v.delay_frames,
                self.block_first_id + c.id_off,
            )
        }
    }

    /// A candidate refers to something that can be started, inside the block and
    /// under a variant that is kept for all of it.
    pub open spec fn sound_cand(self, cfg: Config, bank: Bank, c: Cand) -> bool {
        if c.note == DEFERRED {
            &&& c.region < self.deferred_now.len()
            &&& self.deferred_now[c.region as int].start_rel < cfg.block_frames
            &&& self.deferred_now[c.region as int].variant < VARIANT_SLOTS
            &&& self.variants.used[self.deferred_now[c.region as int].variant as int]
        } else {
            let n = unpacked(self.notes[c.note as int]);
            &&& c.note < self.notes.len()
            &&& c.region < bank.regions@.len()
            &&& bank.buildable(c.region as int, Bank::key_of(n.key) as int)
            &&& n.rel + bank.math@[c.region as int].delay_frames < cfg.block_frames
            &&& self.block_first_id + c.id_off < self.next_note_id
            &&& self.variants.used[n.variant as int]
        }
    }

    /// Whether rendering goes on after a block that left `active` voices.
    pub open spec fn more_after(self, active: u64) -> bool {
        if !self.stream_done || self.deferred.len() > 0 {
            true
        } else if active > 0 {
            self.tail_left > 1
        } else {
            false
        }
    }

    /// The end of a block that left `active` voices.
    pub open spec fn settled(self, cfg: Config, active: u64) -> DriverState {
        DriverState {
            stats: DriverStats {
                frames: (self.stats.frames + cfg.block_frames) as u64,
                blocks: (self.stats.blocks + 1) as u64,
                ..self.stats
            },
            block_index: self.block_index + 1,
            tail_left: if self.stream_done && self.deferred.len() == 0 && active > 0
                && self.tail_left > 0 {
                self.tail_left - 1
            } else {
                self.tail_left
            },
            ..self
        }
    }

    /// A channel at power-on, with its first program.
    pub open spec fn first_channel(cfg: Config, bank: Bank, c: int) -> ChannelState {
        ChannelState {
            preset: preset_for(bank, c, 0, 0),
            ..ChannelState::power_on(cfg.default_channel_volume)
        }
    }

    /// The state a render starts with.
    pub open spec fn initial(cfg: Config, bank: Bank) -> DriverState {
        let tiles = cfg.block_frames as int / cfg.gate_frames as int;
        DriverState {
            gates: Gates {
                rows: Seq::new((tiles * GATE_SLOTS) as nat, |i: int| 0u32),
                slots: Seq::new(GATE_SLOTS as nat, |i: int| crate::gates::Slot::zero()),
                sustain: Seq::new(16, |i: int| false),
                sostenuto: Seq::new(16, |i: int| false),
                cursor: 0,
                tiles,
                tile_frames: cfg.gate_frames as int,
            },
            chan: Channels {
                rows: Seq::new(
                    (tiles * CHAN_ROW) as nat,
                    |i: int| crate::channels::power_on_word(i),
                ),
                now: Seq::new(CHAN_ROW as nat, |i: int| crate::channels::power_on_word(i)),
                cursor: 0,
                tiles,
                tile_frames: cfg.gate_frames as int,
                bend_active: false,
                gain_active: false,
                variant_active: false,
            },
            channels: Seq::new(16, |c: int| DriverState::first_channel(cfg, bank, c)),
            variants: Variants::initial(),
            notes: Seq::empty(),
            ordinals: Seq::empty(),
            cands: Seq::empty(),
            deferred_now: Seq::empty(),
            deferred: Seq::empty(),
            spawns: Seq::empty(),
            spawn_variants: false,
            next_note_id: 1,
            block_first_id: 0,
            block_index: 0,
            stream_done: false,
            end_sent: false,
            tail_left: MAX_TAIL_SECONDS * cfg.sample_rate / cfg.block_frames as int,
            stats: DriverStats {
                frames: 0,
                blocks: 0,
                events: 0,
                dropped: 0,
                notes: 0,
                voices_spawned: 0,
                clipped: 0,
                last_live: 0,
                last_want: 0,
                last_take: 0,
                last_stolen: 0,
                last_want_energy: 0,
                last_take_energy: 0,
            },
        }
    }

    /// A note-on whose packed form is in its place or still to come.
    pub open spec fn striking(self, s: Strike) -> bool {
        &&& s.on.fits()
        &&& s.note == self.notes.len() || (s.note + 1 == self.notes.len()
            && self.notes[s.note as int] == packed(s.on))
        &&& s.note < DEFERRED
    }

    pub open spec fn wf(self, cfg: Config, bank: Bank) -> bool {
        &&& self.gates.wf()
        &&& self.chan.wf()
        &&& self.channels.len() == 16
        &&& self.variants.wf()
        &&& self.notes.len() == self.ordinals.len()
        &&& self.block_first_id <= self.next_note_id
        &&& forall|i: int|
            0 <= i < self.cands.len() ==> self.sound_cand(cfg, bank, #[trigger] self.cands[i])
        &&& forall|i: int|
            0 <= i < self.deferred.len() ==> (#[trigger] self.deferred[i]).cmd.variant
                < VARIANT_SLOTS
    }

    /// The counters are far enough from their machine limits for another event
    /// and the end of the block.
    pub open spec fn room(self) -> bool {
        &&& self.cands.len() <= 0xffff_0000
        &&& self.notes.len() <= 0xffff_0000
        &&& self.deferred_now.len() <= 0xffff_0000
        &&& self.deferred.len() <= 0xffff_0000
        &&& self.next_note_id <= 0xffff_ffff_0000_0000
        &&& self.next_note_id - self.block_first_id <= 0xffff_0000
        &&& self.block_index <= 0xff_ffff_ffff
        &&& self.variants.clock <= 0xffff_ffff_0000_0000
        &&& self.stats.frames <= 0xffff_ffff_0000_0000
        &&& self.stats.blocks <= 0xffff_ffff_0000_0000
        &&& self.stats.dropped <= 0xffff_ffff_0000_0000
        &&& self.stats.notes <= 0xffff_ffff_0000_0000
        &&& self.stats.voices_spawned <= 0xffff_ffff_0000_0000
    }

    /// As `room`, and the event itself can be counted.
    pub open spec fn room_for_event(self) -> bool {
        self.room() && self.stats.events < u64::MAX
    }
}

/// What an event leaves to be worked out in floating point: a channel's bend
/// factor, its gains, or both, from a frame of the block on.
#[derive(Debug, Clone, Copy, PartialEq, Eq, Structural)]
pub struct Refresh {
    pub ch: u8,
    pub rel: u32,
    pub bend: bool,
    pub gain: bool,
}

/// What the driver makes of an offered event.
#[derive(Debug, Clone, Copy, PartialEq, Eq, Structural)]
pub enum Offer {
    /// It belongs to a later block; offer it again there.
    Later,
    /// A tempo change, which applies from its own tick.
    Tempo(u32),
    /// Taken in.
    Taken(Refresh),
}

/// The render driver.
pub struct Driver {
    pub cfg: Config,
    pub gates: GateTable,
    pub chan: ChannelTable,
    pub channels: Vec<ChannelState>,
    pub variants: VariantTable,
    pub notes: Vec<u64>,
    pub ordinals: Vec<u32>,
    pub cands: Vec<Cand>,
    pub deferred_now: Vec<SpawnCmd>,
    pub deferred: Vec<Deferred>,
    pub spawns: Vec<SpawnCmd>,
    pub spawn_variants: bool,
    pub next_note_id: u64,
    pub block_first_id: u64,
    pub block_index: u64,
    pub stream_done: bool,
    pub end_sent: bool,
    pub tail_left: u64,
    pub stats: DriverStats,
}

impl View for Driver {
    type V = DriverState;

    open spec fn view(&self) -> DriverState {
        DriverState {
            gates: self.gates@,
            chan: self.chan@,
            channels: self.channels@,
            variants: self.variants@,
            notes: self.notes@,
            ordinals: self.ordinals@,
            cands: self.cands@,
            deferred_now: self.deferred_now@,
            deferred: self.deferred@,
            spawns: self.spawns@,
            spawn_variants: self.spawn_variants,
            next_note_id: self.next_note_id as int,
            block_first_id: self.block_first_id as int,
            block_index: self.block_index as int,
            stream_done: self.stream_done,
            end_sent: self.end_sent,
            tail_left: self.tail_left as int,
            stats: self.stats,
        }
    }
}

/// The bank has been indexed and its tables built.
pub open spec fn bank_ready(bank: Bank) -> bool {
    bank.presets_ready() && bank.tables_ready()
}

/// The MIDI data bytes of an event are in range.
pub open spec fn valid_event(ev: Event) -> bool {
    match ev {
        Event::NoteOn { ch, key, vel } => key < 128 && vel < 128,
        _ => true,
    }
}

impl Driver {
    pub open spec fn wf(&self, bank: Bank) -> bool {
        &&& self@.wf(self.cfg, bank)
        &&& self.cfg.fault() is None
        &&& bank_ready(bank)
    }

    /// Whether the counters have room for another event and the end of the
    /// block.
    pub fn has_room(&self) -> (r: bool)
        ensures
            r == self@.room_for_event(),
    {
        self.cands.len() <= 0xffff_0000 && self.notes.len() <= 0xffff_0000
            && self.deferred_now.len() <= 0xffff_0000 && self.deferred.len() <= 0xffff_0000
            && self.next_note_id <= 0xffff_ffff_0000_0000 && (self.next_note_id
            < self.block_first_id || self.next_note_id - self.block_first_id <= 0xffff_0000)
            && self.block_index <= 0xff_ffff_ffff && self.variants.clock <= 0xffff_ffff_0000_0000
            && self.stats.frames <= 0xffff_ffff_0000_0000 && self.stats.blocks
            <= 0xffff_ffff_0000_0000 && self.stats.events < u64::MAX
            && self.stats.dropped <= 0xffff_ffff_0000_0000 && self.stats.notes
            <= 0xffff_ffff_0000_0000 && self.stats.voices_spawned <= 0xffff_ffff_0000_0000
    }

    fn block_start(&self) -> (r: u64)
        requires
            self.block_index <= 0xff_ffff_ffff,
            self.cfg.block_frames <= 65535,
        ensures
            r == self@.block_start(self.cfg),
            r <= 0xff_ffff_ffff * 65535,
    {
        assert(0 <= self.block_index * self.cfg.block_frames <= 0xff_ffff_ffff * 65535)
            by (nonlinear_arith)
            requires
                0 <= self.block_index <= 0xff_ffff_ffff,
                0 <= self.cfg.block_frames <= 65535,
        ;
        self.block_index * self.cfg.block_frames as u64
    }

    fn add_layer(&mut self, bank: &Bank, s: &Strike, p: PreviewLayer)
        requires
            old(self).wf(*bank),
            old(self)@.striking(*s),
            p.region < bank.regions@.len(),
            p == bank.preview_of(p.region as int, s.on.vel),
            bank.buildable(p.region as int, Bank::key_of(s.on.key) as int),
            s.on.rel < old(self).cfg.block_frames,
            old(self).block_index <= 0xff_ffff_ffff,
            old(self).cands@.len() < 0xffff_ffff,
            old(self).notes@.len() < 0xffff_ffff,
            old(self).next_note_id < u64::MAX,
            old(self).next_note_id - old(self).block_first_id <= 0xffff_ffff,
        ensures
            final(self).wf(*bank),
            final(self).cfg == old(self).cfg,
            final(self)@ == old(self)@.layer(old(self).cfg, *bank, *s, p.region),
            final(self)@.striking(*s),
    {
        let id: u64 = self.next_note_id;
        self.next_note_id = id + 1;
        let ghost st0 = old(self)@;
        let ghost cfg = self.cfg;
        if p.delay_frames != 0 && s.on.rel as u64 + p.delay_frames as u64
            >= self.cfg.block_frames as u64 {
            let start: u64 = self.block_start() + s.on.rel as u64 + p.delay_frames as u64;
            let v = bank.build_layer(p.region, s.on.key, s.on.vel);
            if let Some(v) = v {
                let slot: usize = GateTable::slot(s.on.ch, s.on.key);
                let cmd = make_cmd(&v, s.on.variant, slot as u32, s.ordinal, s.on.rel, id);
                self.deferred.push(Deferred { frame: start, cmd, loud: p.loud });
            }
            assert(self@ =~= st0.layer(cfg, *bank, *s, p.region));
            proof {
                assert forall|i: int| 0 <= i < self@.cands.len() implies self@.sound_cand(
                    cfg,
                    *bank,
                    #[trigger] self@.cands[i],
                ) by {
                    assert(st0.sound_cand(cfg, *bank, st0.cands[i]));
                }
                assert forall|i: int| 0 <= i < self@.deferred.len() implies (
                #[trigger] self@.deferred[i]).cmd.variant < VARIANT_SLOTS by {
                    if i < st0.deferred.len() {
                        assert(self@.deferred[i] == st0.deferred[i]);
                    }
                }
            }
            return;
        }
        if self.notes.len() == s.note as usize {
            let w: u64 = note_pack(s.on);
            self.notes.push(w);
            self.ordinals.push(s.ordinal);
        }
        let id_off: u32 = (id - self.block_first_id) as u32;
        let key: u64 = admit_key(p.loud, self.cands.len() as u64);
        self.cands.push(Cand { key, note: s.note, region: p.region, id_off });
        if s.on.variant != 0 {
            self.variants.pin(s.on.variant);
            self.spawn_variants = true;
        }
        assert(self@ =~= st0.layer(cfg, *bank, *s, p.region));
        proof {
            crate::admission::law_pack_round_trip(s.on);
            assert(self@.notes[s.note as int] == packed(s.on) as u64);
            assert forall|i: int| 0 <= i < self@.cands.len() implies self@.sound_cand(
                cfg,
                *bank,
                #[trigger] self@.cands[i],
            ) by {
                if i < st0.cands.len() {
                    assert(self@.cands[i] == st0.cands[i]);
                    assert(st0.sound_cand(cfg, *bank, st0.cands[i]));
                }
            }
            assert forall|i: int| 0 <= i < self@.deferred.len() implies (
            #[trigger] self@.deferred[i]).cmd.variant < VARIANT_SLOTS by {
                assert(self@.deferred[i] == st0.deferred[i]);
            }
        }
    }

    fn strike(&mut self, bank: &Bank, ch: u8, key: u8, vel: u8, rel: u32)
        requires
            old(self).wf(*bank),
            old(self)@.room(),
            key < 128,
            vel < 128,
            rel < old(self).cfg.block_frames,
        ensures
            final(self).wf(*bank),
            final(self).cfg == old(self).cfg,
            final(self)@ == old(self)@.note_on(old(self).cfg, *bank, ch, key, vel, rel),
    {
        let ghost st0 = self@;
        let ghost cfg = self.cfg;
        let c: usize = (ch % 16) as usize;
        let ordinal: u32 = self.gates.note_on(ch, key, rel);
        self.stats.notes = self.stats.notes + 1;
        let variant: u32 = self.variants.cur[c];
        let preset: u32 = self.channels[c].preset;
        let mut prev: Vec<PreviewLayer> = Vec::new();
        let max: usize = self.cfg.max_layers as usize;
        bank.preview_note_on(preset, key, vel, max, &mut prev);
        let s = Strike {
            on: NoteOn { ch: ch % 16, key, vel, variant, rel },
            ordinal,
            note: self.notes.len() as u32,
        };
        let ghost regions = bank.layers(preset, key, vel, max as int);
        let ghost st1 = self@;
        proof {
            lemma_wf_frame(st0, st1, cfg, *bank);
            crate::bank_laws::law_layers_are_capped(*bank, preset, key, vel, max as int);
            assert(st0.variants.cur[c as int] < st0.variants.states.len());
        }
        let mut i: usize = 0;
        while i < prev.len()
            invariant
                i <= prev@.len() == regions.len(),
                regions.len() <= 255,
                self.wf(*bank),
                self.cfg == cfg,
                cfg.fault() is None,
                bank_ready(*bank),
                regions == bank.layers(preset, key, vel, max as int),
                prev@ == Seq::<PreviewLayer>::empty() + regions.map_values(
                    |r: u32| bank.preview_of(r as int, vel),
                ),
                s.on.key == key,
                s.on.vel == vel,
                s.on.rel == rel,
                key < 128,
                vel < 128,
                rel < cfg.block_frames,
                self@ == st1.layers(cfg, *bank, s, regions, i as int),
                self@.striking(s),
                self.block_index == st1.block_index,
                self.block_index <= 0xff_ffff_ffff,
                self.cands@.len() <= 0xffff_0000 + i,
                self.notes@.len() <= 0xffff_0001,
                s.note <= 0xffff_0000,
                self.next_note_id <= 0xffff_ffff_0000_0000 + i,
                self.next_note_id - self.block_first_id <= 0xffff_0000 + i,
            decreases prev@.len() - i,
        {
            let p = prev[i];
            proof {
                lemma_layer_regions(*bank, preset, key, vel, max as int, i as int);
                assert(p == bank.preview_of(regions[i as int] as int, vel));
                assert(p.region == regions[i as int]);
                crate::bank_laws::law_preview_is_exact(
                    *bank,
                    preset,
                    key,
                    vel,
                    max as int,
                    i as int,
                );
            }
            self.add_layer(bank, &s, p);
            i += 1;
        }
        assert(self@ == st0.note_on(cfg, *bank, ch, key, vel, rel));
    }

    fn set_sound_cc(&mut self, ch: u8, which: u8, val: u8, rel: u32, Ghost(bank): Ghost<Bank>)
        requires
            old(self).wf(bank),
            old(self).variants.clock < u64::MAX,
        ensures
            final(self).wf(bank),
            final(self).cfg == old(self).cfg,
            final(self)@ == old(self)@.sound_cc(old(self).cfg, ch, which as int, val, rel),
            final(self).variants.clock <= old(self).variants.clock + 1,
    {
        let ghost st0 = self@;
        let c: usize = (ch % 16) as usize;
        let mut s = self.channels[c];
        if s.sound.get(which) == val {
            return;
        }
        let sound = s.sound.set(which, val);
        s.sound = sound;
        self.channels[c] = s;
        let max: u32 = self.cfg.max_param_variants;
        let slot: u32 = self.variants.select(c, sound, max);
        self.chan.set_variant(ch, slot, rel);
        assert(self@ =~= st0.sound_cc(self.cfg, ch, which as int, val, rel));
        proof {
            assert(self@.variants.used == st0.variants.used.update(slot as int, true));
            lemma_wf_frame(st0, self@, self.cfg, bank);
        }
    }

    fn handle_cc(
        &mut self,
        ch: u8,
        num: u8,
        val: u8,
        rel: u32,
        Ghost(bank): Ghost<Bank>,
    ) -> (r: Refresh)
        requires
            old(self).wf(bank),
            old(self)@.room(),
        ensures
            final(self).wf(bank),
            final(self).cfg == old(self).cfg,
            final(self)@ == old(self)@.cc(old(self).cfg, ch, num, val, rel),
            r == old(self)@.refresh_of(Event::Cc { ch, num, val }, rel),
    {
        let ghost st0 = self@;
        let ghost cfg = self.cfg;
        let c: usize = (ch % 16) as usize;
        let (s, effect) = self.channels[c].cc(num, val, self.cfg.default_channel_volume);
        self.channels[c] = s;
        let ghost st1 = self@;
        proof {
            lemma_wf_frame(st0, st1, cfg, bank);
        }
        let mut bend = false;
        let mut gain = false;
        match effect {
            Effect::Nothing => {},
            Effect::Gain => {
                gain = true;
            },
            Effect::Bend => {
                bend = true;
            },
            Effect::Sustain(down) => {
                self.gates.set_sustain(ch, down, rel);
            },
            Effect::Sostenuto(down) => {
                self.gates.set_sostenuto(ch, down, rel);
            },
            Effect::Sound(which) => {
                self.set_sound_cc(ch, which, val, rel, Ghost(bank));
            },
            Effect::AllSoundOff => {
                self.gates.all_sound_off(ch, rel);
            },
            Effect::AllNotesOff => {
                self.gates.all_notes_off(ch, rel);
            },
            Effect::Reset => {
                let mut w: u8 = 0;
                while w < 5
                    invariant
                        w <= 5,
                        self.wf(bank),
                        self.cfg == cfg,
                        self@ == st1.neutral_sound(cfg, ch, rel, w as int),
                        self.variants.clock <= 0xffff_ffff_0000_0000 + w,
                    decreases 5 - w,
                {
                    self.set_sound_cc(ch, w, 64, rel, Ghost(bank));
                    w += 1;
                }
                let ghost st2 = self@;
                self.gates.reset_controllers(ch, rel);
                proof {
                    lemma_wf_frame(st2, self@, cfg, bank);
                }
                bend = true;
                gain = true;
            },
        }
        proof {
            if !(effect is Reset || effect is Sound) {
                lemma_wf_frame(st1, self@, cfg, bank);
            }
        }
        assert(self@ =~= st0.cc(cfg, ch, num, val, rel));
        Refresh { ch: ch % 16, rel, bend, gain }
    }

    /// Take one event at a frame of the block. Returns what is left to be worked
    /// out in floating point.
    pub fn handle_event(&mut self, bank: &Bank, ev: Event, rel: u32) -> (r: Refresh)
        requires
            old(self).wf(*bank),
            old(self)@.room(),
            valid_event(ev),
            rel < old(self).cfg.block_frames,
        ensures
            final(self).wf(*bank),
            final(self).cfg == old(self).cfg,
            final(self)@ == old(self)@.handled(old(self).cfg, *bank, ev, rel),
            r == old(self)@.refresh_of(ev, rel),
    {
        let ghost st0 = self@;
        let ghost cfg = self.cfg;
        match ev {
            Event::NoteOn { ch, key, vel } => {
                self.strike(bank, ch, key, vel, rel);
                Refresh { ch: 0, rel, bend: false, gain: false }
            },
            Event::NoteOff { ch, key } => {
                self.gates.note_off(ch, key, rel);
                proof {
                    lemma_wf_frame(st0, self@, cfg, *bank);
                }
                Refresh { ch: 0, rel, bend: false, gain: false }
            },
            Event::Cc { ch, num, val } => self.handle_cc(ch, num, val, rel, Ghost(*bank)),
            Event::Program { ch, val } => {
                let c: usize = (ch % 16) as usize;
                let mut s = self.channels[c];
                s.preset = find_program(bank, c, s.bank_msb, val);
                self.channels[c] = s;
                proof {
                    lemma_wf_frame(st0, self@, cfg, *bank);
                }
                Refresh { ch: 0, rel, bend: false, gain: false }
            },
            Event::PitchBend { ch, val } => {
                let c: usize = (ch % 16) as usize;
                let mut s = self.channels[c];
                s.bend_val = val;
                self.channels[c] = s;
                proof {
                    lemma_wf_frame(st0, self@, cfg, *bank);
                }
                Refresh { ch: ch % 16, rel, bend: true, gain: false }
            },
            Event::Tempo(_) => Refresh { ch: 0, rel, bend: false, gain: false },
            Event::Other => Refresh { ch: 0, rel, bend: false, gain: false },
        }
    }
}

impl Driver {
    /// A driver for `cfg` and `bank`, every channel at power-on with its first
    /// program. Refuses a configuration that does not validate.
    pub fn open(cfg: Config, bank: &Bank) -> (r: Result<Driver, ConfigError>)
        requires
            cfg.channels == 2 && 8_000 <= cfg.sample_rate <= 768_000 && cfg.block_frames != 0
                ==> cfg.reduce_tile != 0,
            bank_ready(*bank),
        ensures
            match cfg.fault() {
                Some(e) => r == Err::<Driver, ConfigError>(e),
                None => r matches Ok(d) && d.cfg == cfg && d.wf(*bank) && d@ == DriverState::initial(
                    cfg,
                    *bank,
                ),
            },
    {
        match cfg.validate() {
            Err(e) => {
                return Err(e);
            },
            Ok(_) => {},
        }
        let mut channels: Vec<ChannelState> = Vec::new();
        let mut c: usize = 0;
        while c < 16
            invariant
                c <= 16,
                channels@.len() == c,
                forall|i: int|
                    0 <= i < c ==> #[trigger] channels@[i] == DriverState::first_channel(
                        cfg,
                        *bank,
                        i,
                    ),
            decreases 16 - c,
        {
            let mut s = ChannelState::new(cfg.default_channel_volume);
            s.preset = find_program(bank, c, s.bank_msb, 0);
            channels.push(s);
            c += 1;
        }
        proof {
            crate::config::law_tiles_cover_the_block(cfg);
            let t = cfg.block_frames as int / cfg.gate_frames as int;
            assert(t * GATE_SLOTS <= 65535 * 2048 && t * CHAN_ROW <= 65535 * 2048)
                by (nonlinear_arith)
                requires
                    t >= 1,
                    t * cfg.gate_frames == cfg.block_frames,
                    1 <= cfg.gate_frames,
                    cfg.block_frames <= 65535,
            ;
        }
        let gates = GateTable::new(&cfg);
        let chan = ChannelTable::new(&cfg);
        let tail: u64 = MAX_TAIL_SECONDS * cfg.sample_rate as u64 / cfg.block_frames as u64;
        let d = Driver {
            cfg,
            gates,
            chan,
            channels,
            variants: VariantTable::new(),
            notes: Vec::new(),
            ordinals: Vec::new(),
            cands: Vec::new(),
            deferred_now: Vec::new(),
            deferred: Vec::new(),
            spawns: Vec::new(),
            spawn_variants: false,
            next_note_id: 1,
            block_first_id: 0,
            block_index: 0,
            stream_done: false,
            end_sent: false,
            tail_left: tail,
            stats: DriverStats {
                frames: 0,
                blocks: 0,
                events: 0,
                dropped: 0,
                notes: 0,
                voices_spawned: 0,
                clipped: 0,
                last_live: 0,
                last_want: 0,
                last_take: 0,
                last_stolen: 0,
                last_want_energy: 0,
                last_take_energy: 0,
            },
        };
        assert(d@ =~= DriverState::initial(cfg, *bank));
        Ok(d)
    }

    fn recall_deferred(&mut self, Ghost(bank): Ghost<Bank>)
        requires
            old(self).wf(bank),
            old(self)@.room(),
            old(self)@.cands.len() == 0,
            old(self)@.deferred_now.len() == 0,
        ensures
            final(self).wf(bank),
            final(self).cfg == old(self).cfg,
            final(self)@ == old(self)@.recall(old(self).cfg, 0),
    {
        let ghost st0 = self@;
        let ghost cfg = self.cfg;
        let start: u64 = self.block_start();
        let end: u64 = start + self.cfg.block_frames as u64;
        let mut i: usize = 0;
        while i < self.deferred.len()
            invariant
                i <= self.deferred@.len(),
                self.wf(bank),
                self.cfg == cfg,
                cfg.block_frames <= 65535,
                self.block_index == st0.block_index,
                start == st0.block_start(cfg),
                end == st0.block_end(cfg),
                st0.recall(cfg, 0) == self@.recall(cfg, i as int),
                self.cands@.len() == self.deferred_now@.len(),
                self.deferred_now@.len() + self.deferred@.len() <= 0xffff_0000,
            decreases self.deferred@.len() - i,
        {
            let ghost before = self@;
            if self.deferred[i].frame < end {
                let d = self.deferred.swap_remove(i);
                let mut cmd = d.cmd;
                cmd.start_rel = if d.frame < start {
                    0
                } else {
                    (d.frame - start) as u32
                };
                assert(d == before.deferred[i as int]);
                if cmd.variant != 0 {
                    self.variants.pin(cmd.variant);
                    self.spawn_variants = true;
                }
                let key: u64 = admit_key(d.loud, self.cands.len() as u64);
                let region: u32 = self.deferred_now.len() as u32;
                self.cands.push(Cand { key, note: DEFERRED, region, id_off: 0 });
                self.deferred_now.push(cmd);
                assert(self@ =~= before.recalled(cfg, i as int));
                proof {
                    assert forall|k: int| 0 <= k < self@.cands.len() implies self@.sound_cand(
                        cfg,
                        bank,
                        #[trigger] self@.cands[k],
                    ) by {
                        if k < before.cands.len() {
                            assert(self@.cands[k] == before.cands[k]);
                            assert(before.sound_cand(cfg, bank, before.cands[k]));
                        }
                    }
                    assert forall|k: int| 0 <= k < self@.deferred.len() implies (
                    #[trigger] self@.deferred[k]).cmd.variant < VARIANT_SLOTS by {
                        if k == i {
                            assert(self@.deferred[k] == before.deferred[before.deferred.len() - 1]);
                        } else {
                            assert(self@.deferred[k] == before.deferred[k]);
                        }
                    }
                }
            } else {
                i += 1;
            }
        }
    }

    /// Start a block: clear what the last one gathered and bring in the deferred
    /// voices that start in this one.
    pub fn begin_block(&mut self, bank: &Bank)
        requires
            old(self).wf(*bank),
            old(self)@.room(),
        ensures
            final(self).wf(*bank),
            final(self).cfg == old(self).cfg,
            final(self)@ == old(self)@.begin(old(self).cfg),
    {
        let ghost st0 = self@;
        self.gates.begin_block();
        self.chan.begin_block();
        self.variants.begin_block();
        self.notes = Vec::new();
        self.ordinals = Vec::new();
        self.cands = Vec::new();
        self.deferred_now = Vec::new();
        self.spawns = Vec::new();
        self.spawn_variants = false;
        self.block_first_id = self.next_note_id;
        proof {
            let st1 = self@;
            assert forall|i: int| 0 <= i < st1.deferred.len() implies (
            #[trigger] st1.deferred[i]).cmd.variant < VARIANT_SLOTS by {
                assert(st1.deferred[i] == st0.deferred[i]);
            }
        }
        self.recall_deferred(Ghost(*bank));
    }

    /// Offer an event at an absolute frame. An event past the block is refused,
    /// to be offered again in its own block; a tempo change is always taken, as
    /// it applies from its own tick.
    pub fn offer(&mut self, bank: &Bank, ev: Event, frame: u64) -> (r: Offer)
        requires
            old(self).wf(*bank),
            old(self)@.room_for_event(),
            valid_event(ev),
        ensures
            final(self).wf(*bank),
            final(self).cfg == old(self).cfg,
            ({
                let st = old(self)@;
                let cfg = old(self).cfg;
                match ev {
                    Event::Tempo(us) => r == Offer::Tempo(us) && final(self)@ == st.counted(),
                    _ => if frame >= st.block_end(cfg) {
                        r == Offer::Later && final(self)@ == st
                    } else {
                        let rel = st.rel_of(cfg, frame);
                        &&& r == Offer::Taken(st.refresh_of(ev, rel))
                        &&& final(self)@ == st.counted().handled(cfg, *bank, ev, rel)
                    },
                }
            }),
    {
        let ghost st0 = self@;
        let ghost cfg = self.cfg;
        if let Event::Tempo(us) = ev {
            self.stats.events = self.stats.events + 1;
            proof {
                lemma_wf_frame(st0, self@, cfg, *bank);
            }
            return Offer::Tempo(us);
        }
        let start: u64 = self.block_start();
        let end: u64 = start + self.cfg.block_frames as u64;
        if frame >= end {
            return Offer::Later;
        }
        let rel: u32 = if frame < start {
            0
        } else {
            (frame - start) as u32
        };
        self.stats.events = self.stats.events + 1;
        proof {
            lemma_wf_frame(st0, self@, cfg, *bank);
        }
        let r = self.handle_event(bank, ev, rel);
        Offer::Taken(r)
    }

    /// Set a channel's bend factor, worked out for a `Refresh`.
    pub fn set_bend(&mut self, bank: &Bank, ch: u8, factor: u32, rel: u32)
        requires
            old(self).wf(*bank),
        ensures
            final(self).wf(*bank),
            final(self).cfg == old(self).cfg,
            final(self)@ == (DriverState {
                chan: old(self)@.chan.set_bend(ch, factor, rel),
                ..old(self)@
            }),
    {
        self.chan.set_bend(ch, factor, rel);
        proof {
            lemma_wf_frame(old(self)@, self@, self.cfg, *bank);
        }
    }

    /// What the start of a file leaves to be worked out for a channel: its gains,
    /// where it powers on below full volume. A file that never sends a volume is
    /// heard at the configured one.
    pub fn opening(&self, bank: &Bank, ch: u8) -> (r: Refresh)
        requires
            self.wf(*bank),
        ensures
            r == (Refresh {
                ch,
                rel: 0,
                bend: false,
                gain: self@.channels[chan_of(ch)].volume != 127,
            }),
    {
        let c: usize = (ch % 16) as usize;
        Refresh { ch, rel: 0, bend: false, gain: self.channels[c].volume != 127 }
    }

    /// Set a channel's gains, worked out for a `Refresh`.
    pub fn set_gain(&mut self, bank: &Bank, ch: u8, l: u32, r: u32, rel: u32)
        requires
            old(self).wf(*bank),
        ensures
            final(self).wf(*bank),
            final(self).cfg == old(self).cfg,
            final(self)@ == (DriverState {
                chan: old(self)@.chan.set_gain(ch, l, r, rel),
                ..old(self)@
            }),
    {
        self.chan.set_gain(ch, l, r, rel);
        proof {
            lemma_wf_frame(old(self)@, self@, self.cfg, *bank);
        }
    }

    /// The stream has run out. The first time, everything is released, pedal or
    /// not, so a file that ends with a pedal down does not ring into the tail.
    pub fn end_of_stream(&mut self, bank: &Bank)
        requires
            old(self).wf(*bank),
        ensures
            final(self).wf(*bank),
            final(self).cfg == old(self).cfg,
            final(self)@ == old(self)@.ended(),
    {
        let ghost st0 = self@;
        let ghost cfg = self.cfg;
        if !self.end_sent {
            let mut ch: u8 = 0;
            while ch < 16
                invariant
                    ch <= 16,
                    self.wf(*bank),
                    self.cfg == cfg,
                    self@ == st0.silenced(ch as int),
                decreases 16 - ch,
            {
                let ghost before = self@;
                self.gates.all_sound_off(ch, 0);
                proof {
                    lemma_wf_frame(before, self@, cfg, *bank);
                }
                ch += 1;
            }
            self.end_sent = true;
        }
        self.stream_done = true;
        proof {
            lemma_wf_frame(st0.silenced(if st0.end_sent {
                0
            } else {
                16
            }), self@, cfg, *bank);
        }
    }

    /// Hand out the copies of the params table to build before this block
    /// renders.
    pub fn take_builds(&mut self, bank: &Bank) -> (r: Vec<Build>)
        requires
            old(self).wf(*bank),
        ensures
            final(self).wf(*bank),
            final(self).cfg == old(self).cfg,
            r@ == old(self)@.variants.pending,
            final(self)@ == (DriverState {
                variants: Variants { pending: Seq::empty(), ..old(self)@.variants },
                ..old(self)@
            }),
    {
        let r = self.variants.take_pending();
        proof {
            lemma_wf_frame(old(self)@, self@, self.cfg, *bank);
        }
        r
    }

    /// Publish the rest of the block's gate and controller rows.
    pub fn close_rows(&mut self, bank: &Bank)
        requires
            old(self).wf(*bank),
        ensures
            final(self).wf(*bank),
            final(self).cfg == old(self).cfg,
            final(self)@ == (DriverState {
                gates: old(self)@.gates.end(),
                chan: old(self)@.chan.end(),
                ..old(self)@
            }),
    {
        self.gates.end_block();
        self.chan.end_block();
        proof {
            lemma_wf_frame(old(self)@, self@, self.cfg, *bank);
        }
    }

    /// Whether the backend has to watch params variants this block: some
    /// published row names one, or a queued voice was born under one.
    pub fn watches_variants(&self) -> (r: bool)
        ensures
            r == (self@.chan.variant_active || self@.spawn_variants),
    {
        self.chan.variant_active() || self.spawn_variants
    }

    /// Decide which of the block's candidates start, given `live` voices in the
    /// pool, and build those.
    ///
    /// The candidates to keep come to the front by the admission rule; the
    /// commands to start them are left in `spawns`, in that order.
    pub fn close_block(&mut self, bank: &Bank, live: u32)
        requires
            old(self).wf(*bank),
            old(self)@.room(),
            old(self).cfg.admissible(live as int, old(self)@.cands.len() as int),
        ensures
            final(self).wf(*bank),
            final(self).cfg == old(self).cfg,
            ({
                let a = old(self)@;
                let b = final(self)@;
                let want = a.cands.len() as int;
                let take = old(self).cfg.admit_count(live as int, want);
                &&& 0 <= take <= want
                &&& admitted(old(self).cfg.admit_rule, b.cands, a.cands, take)
                &&& b.spawns == a.spawns + Seq::new(
                    take as nat,
                    |i: int| a.command_of(*bank, b.cands[i]),
                )
                &&& b == (DriverState {
                    cands: b.cands,
                    spawns: b.spawns,
                    stats: DriverStats {
                        dropped: (a.stats.dropped + want - take) as u64,
                        voices_spawned: (a.stats.voices_spawned + want) as u64,
                        last_live: live,
                        last_want: want as u32,
                        last_take: take as u32,
                        last_want_energy: energy(b.cands, want) as u64,
                        last_take_energy: energy(b.cands, take) as u64,
                        ..a.stats
                    },
                    ..a
                })
            }),
    {
        let ghost a = self@;
        let ghost cfg = self.cfg;
        let want: usize = self.cands.len();
        let take: usize = self.cfg.admit_take(live, want as u32) as usize;
        proof {
            crate::config::law_admission_is_bounded(cfg, live as int, want as int);
        }
        self.stats.dropped = self.stats.dropped + (want - take) as u64;
        self.stats.last_live = live;
        self.stats.last_want = want as u32;
        self.stats.last_take = take as u32;
        apply_rule(&mut self.cands, self.cfg.admit_rule, take);
        let ghost kept = self.cands@;
        self.stats.last_want_energy = sum_energy(&self.cands, want);
        self.stats.last_take_energy = sum_energy(&self.cands, take);
        proof {
            assert forall|i: int| 0 <= i < want implies a.sound_cand(
                cfg,
                *bank,
                #[trigger] kept[i],
            ) by {
                lemma_admitted_came_from(cfg.admit_rule, kept, a.cands, take as int, i);
            }
            assert forall|i: int| 0 <= i < self@.cands.len() implies self@.sound_cand(
                cfg,
                *bank,
                #[trigger] self@.cands[i],
            ) by {
                assert(a.sound_cand(cfg, *bank, kept[i]));
            }
            assert forall|i: int| 0 <= i < self@.deferred.len() implies (
            #[trigger] self@.deferred[i]).cmd.variant < VARIANT_SLOTS by {
                assert(self@.deferred[i] == a.deferred[i]);
            }
        }
        self.materialise(bank, take);
        self.stats.voices_spawned = self.stats.voices_spawned + want as u64;
        proof {
            assert forall|i: int| 0 <= i < self@.cands.len() implies self@.sound_cand(
                cfg,
                *bank,
                #[trigger] self@.cands[i],
            ) by {
                assert(a.sound_cand(cfg, *bank, kept[i]));
            }
            assert forall|i: int| 0 <= i < self@.deferred.len() implies (
            #[trigger] self@.deferred[i]).cmd.variant < VARIANT_SLOTS by {
                assert(self@.deferred[i] == a.deferred[i]);
            }
            assert(self@.spawns =~= a.spawns + Seq::new(
                take as nat,
                |i: int| a.command_of(*bank, self@.cands[i]),
            ));
        }
    }

    /// Build the voices for the first `take` candidates, at the end of `spawns`
    /// in candidate order.
    fn materialise(&mut self, bank: &Bank, take: usize)
        requires
            old(self).wf(*bank),
            take <= old(self)@.cands.len(),
            old(self)@.next_note_id <= u64::MAX,
        ensures
            final(self).cfg == old(self).cfg,
            final(self)@ == (DriverState {
                spawns: old(self)@.spawns + Seq::new(
                    take as nat,
                    |i: int| old(self)@.command_of(*bank, old(self)@.cands[i]),
                ),
                ..old(self)@
            }),
    {
        let ghost a = self@;
        let ghost cfg = self.cfg;
        let mut i: usize = 0;
        while i < take
            invariant
                i <= take <= a.cands.len(),
                a.wf(cfg, *bank),
                cfg.fault() is None,
                bank_ready(*bank),
                a.next_note_id <= u64::MAX,
                self.cfg == cfg,
                self@ == (DriverState { spawns: self.spawns@, ..a }),
                self.spawns@ == a.spawns + Seq::new(
                    i as nat,
                    |k: int| a.command_of(*bank, a.cands[k]),
                ),
            decreases take - i,
        {
            let c = self.cands[i];
            assert(c == a.cands[i as int]);
            assert(a.sound_cand(cfg, *bank, c));
            let cmd = if c.note == DEFERRED {
                self.deferred_now[c.region as usize]
            } else {
                let n = note_unpack(self.notes[c.note as usize]);
                let ordinal: u32 = self.ordinals[c.note as usize];
                match bank.build_layer(c.region, n.key, n.vel) {
                    Some(v) => {
                        // A delayed layer whose start still lands inside this
                        // block is a candidate like any other, but starts late.
                        let start_rel: u32 = n.rel + v.delay_frames;
                        let slot: usize = GateTable::slot(n.ch, n.key);
                        let id: u64 = self.block_first_id + c.id_off as u64;
                        make_cmd(&v, n.variant, slot as u32, ordinal, start_rel, id)
                    },
                    None => {
                        // The candidate was previewed, so it can be built.
                        assert(false);
                        SpawnCmd::default()
                    },
                }
            };
            assert(cmd == a.command_of(*bank, c));
            self.spawns.push(cmd);
            assert(self.spawns@ =~= a.spawns + Seq::new(
                (i + 1) as nat,
                |k: int| a.command_of(*bank, a.cands[k]),
            ));
            i += 1;
        }
    }

    /// End a block that rendered: `stolen` voices were killed for it, the final
    /// clamp pulled `clipped` samples back, and `active` voices are left. Returns
    /// whether there is more to render.
    pub fn settle(&mut self, bank: &Bank, active: u64, stolen: u64, clipped: u64) -> (more: bool)
        requires
            old(self).wf(*bank),
            old(self)@.room(),
            old(self).stats.clipped + clipped <= u64::MAX,
        ensures
            final(self).wf(*bank),
            final(self).cfg == old(self).cfg,
            more == old(self)@.more_after(active),
            final(self)@ == (DriverState {
                stats: DriverStats {
                    last_stolen: stolen,
                    clipped: (old(self).stats.clipped + clipped) as u64,
                    ..old(self)@.settled(old(self).cfg, active).stats
                },
                ..old(self)@.settled(old(self).cfg, active)
            }),
    {
        self.stats.last_stolen = stolen;
        self.stats.clipped = self.stats.clipped + clipped;
        self.stats.frames = self.stats.frames + self.cfg.block_frames as u64;
        self.stats.blocks = self.stats.blocks + 1;
        self.block_index = self.block_index + 1;
        let more = if !self.stream_done || self.deferred.len() > 0 {
            true
        } else if active > 0 {
            self.tail_left = self.tail_left.saturating_sub(1);
            self.tail_left != 0
        } else {
            false
        };
        proof {
            lemma_wf_frame(old(self)@, self@, self.cfg, *bank);
        }
        more
    }
}

/// Everything an admission rule leaves in place was a candidate before.
proof fn lemma_admitted_came_from(
    rule: AdmitRule,
    after: Seq<Cand>,
    before: Seq<Cand>,
    take: int,
    i: int,
)
    requires
        admitted(rule, after, before, take),
        0 <= take <= before.len(),
        0 <= i < before.len(),
    ensures
        before.contains(after[i]),
{
    if take == 0 || take >= before.len() {
        assert(before[i] == after[i]);
    } else {
        match rule {
            AdmitRule::Even => {
                if i < take {
                    crate::voice::law_picks_never_fall_behind(i, before.len() as int, take);
                    let p = pick(i, before.len() as int, take);
                    assert(after[i] == before[p]);
                } else {
                    assert(after[i] == before[i]);
                }
            },
            AdmitRule::Loudest => {
                after.to_multiset_ensures();
                before.to_multiset_ensures();
                assert(after.contains(after[i]));
                assert(after.to_multiset().count(after[i]) > 0);
                assert(before.to_multiset().contains(after[i]));
            },
        }
    }
}

/// Well-formedness rests on the tables and on what the candidates refer to.
proof fn lemma_wf_frame(a: DriverState, b: DriverState, cfg: Config, bank: Bank)
    requires
        a.wf(cfg, bank),
        b.gates.wf(),
        b.chan.wf(),
        b.channels.len() == 16,
        b.variants.wf(),
        b.notes == a.notes,
        b.ordinals == a.ordinals,
        b.cands == a.cands,
        b.deferred_now == a.deferred_now,
        b.deferred == a.deferred,
        b.next_note_id == a.next_note_id,
        b.block_first_id == a.block_first_id,
        forall|i: int|
            0 <= i < VARIANT_SLOTS && a.variants.used[i] ==> #[trigger] b.variants.used[i],
    ensures
        b.wf(cfg, bank),
{
    assert forall|i: int| 0 <= i < b.cands.len() implies b.sound_cand(
        cfg,
        bank,
        #[trigger] b.cands[i],
    ) by {
        assert(a.sound_cand(cfg, bank, a.cands[i]));
    }
}

/// The regions that answer a note exist.
proof fn lemma_layer_regions(bank: Bank, preset: u32, key: u8, vel: u8, max: int, i: int)
    requires
        bank_ready(bank),
        0 <= max,
        0 <= i < bank.layers(preset, key, vel, max).len(),
    ensures
        bank.layers(preset, key, vel, max)[i] < bank.regions@.len(),
{
    let k = Bank::key_of(key) as int;
    let p = bank.presets@[preset as int];
    assert(p.indexed());
    assert(p.key_index@[k] <= p.key_index@[k + 1]);
    let list = p.on_key(k);
    assert(crate::bank::names_regions(list, bank.regions@));
    lemma_answering_regions(bank, list, Bank::key_of(key), vel, max, list.len() as int, i);
}

proof fn lemma_answering_regions(
    bank: Bank,
    list: Seq<u32>,
    key: u8,
    vel: u8,
    max: int,
    n: int,
    i: int,
)
    requires
        0 <= n <= list.len(),
        crate::bank::names_regions(list, bank.regions@),
    ensures
        0 <= i < bank.answering(list, key, vel, max, n).len() ==> bank.answering(
            list,
            key,
            vel,
            max,
            n,
        )[i] < bank.regions@.len(),
    decreases n,
{
    if n > 0 {
        lemma_answering_regions(bank, list, key, vel, max, n - 1, i);
    }
}

} // verus!
