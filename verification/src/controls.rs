//! Channel controller state and what each controller does to it.

use crate::roles::role_table;
use vstd::prelude::*;

verus! {

/// One event of a MIDI stream.
#[allow(inconsistent_fields)]
#[derive(Debug, Clone, Copy, PartialEq, Eq, Structural)]
pub enum Event {
    NoteOn { ch: u8, key: u8, vel: u8 },
    NoteOff { ch: u8, key: u8 },
    Cc { ch: u8, num: u8, val: u8 },
    Program { ch: u8, val: u8 },
    /// Relative to centre, -8192 to 8191.
    PitchBend { ch: u8, val: i16 },
    /// Microseconds per quarter note.
    Tempo(u32),
    Other,
}

/// A selected RPN that is not one this synth acts on, including the null RPN and
/// anything reached through NRPN. Outside the 14-bit range, so it can never
/// compare equal to RPN 0.
pub const RPN_NONE: u16 = 0x4000;

/// Highest bend range the increment controller reaches, in cents.
pub const MAX_BEND_CENTS: u32 = 12700;

/// The five sound controllers: CC71 to CC75, in that order.
#[derive(Debug, Clone, Copy, PartialEq, Eq, Structural)]
pub struct Sound {
    pub resonance: u8,
    pub release: u8,
    pub attack: u8,
    pub brightness: u8,
    pub decay: u8,
}

impl Sound {
    /// All five at their neutral position.
    pub open spec fn neutral() -> Sound {
        Sound { resonance: 64, release: 64, attack: 64, brightness: 64, decay: 64 }
    }

    /// One of the five, by its distance from CC71.
    pub open spec fn at(self, which: int) -> u8 {
        if which == 0 {
            self.resonance
        } else if which == 1 {
            self.release
        } else if which == 2 {
            self.attack
        } else if which == 3 {
            self.brightness
        } else {
            self.decay
        }
    }

    /// One of the five set.
    pub open spec fn with(self, which: int, val: u8) -> Sound {
        if which == 0 {
            Sound { resonance: val, ..self }
        } else if which == 1 {
            Sound { release: val, ..self }
        } else if which == 2 {
            Sound { attack: val, ..self }
        } else if which == 3 {
            Sound { brightness: val, ..self }
        } else {
            Sound { decay: val, ..self }
        }
    }

    pub fn get(self, which: u8) -> (r: u8)
        ensures
            r == self.at(which as int),
    {
        match which {
            0 => self.resonance,
            1 => self.release,
            2 => self.attack,
            3 => self.brightness,
            _ => self.decay,
        }
    }

    pub fn set(self, which: u8, val: u8) -> (r: Sound)
        ensures
            r == self.with(which as int, val),
    {
        let mut s = self;
        match which {
            0 => {
                s.resonance = val;
            },
            1 => {
                s.release = val;
            },
            2 => {
                s.attack = val;
            },
            3 => {
                s.brightness = val;
            },
            _ => {
                s.decay = val;
            },
        }
        s
    }
}

/// Everything one channel carries between events.
#[derive(Debug, Clone, Copy, PartialEq, Eq, Structural)]
pub struct ChannelState {
    pub bank_msb: u8,
    pub bank_lsb: u8,
    /// Index of the preset the channel plays.
    pub preset: u32,
    /// Raw pitch bend relative to centre.
    pub bend_val: i16,
    /// Bend range in cents.
    pub bend_cents: u32,
    /// Currently selected RPN.
    pub rpn_sel: u16,
    pub volume: u8,
    pub expression: u8,
    pub pan: u8,
    pub sound: Sound,
    pub modulation: u8,
    pub vib_rate: u8,
    pub vib_depth: u8,
    pub tremolo: u8,
    pub soft: u8,
    /// Fine halves of the four controllers that have one worth reading.
    pub lsb_mod: u8,
    pub lsb_volume: u8,
    pub lsb_pan: u8,
    pub lsb_expression: u8,
}

/// What a controller asks for beyond the channel state itself.
#[derive(Debug, Clone, Copy, PartialEq, Eq, Structural)]
pub enum Effect {
    Nothing,
    /// The channel's output gains have to be worked out again.
    Gain,
    /// The channel's bend factor has to be worked out again.
    Bend,
    Sustain(bool),
    Sostenuto(bool),
    /// One of the five sound controllers, by its distance from CC71.
    Sound(u8),
    AllSoundOff,
    AllNotesOff,
    Reset,
}

/// The RPN number a selection carries over when one of its halves changes.
pub open spec fn rpn_base(sel: u16) -> u16 {
    if sel == RPN_NONE {
        0
    } else {
        sel
    }
}

/// A bend range with its cents replaced: the whole semitones stay. The range
/// never passes what 32 bits of cents can hold.
pub open spec fn fine_bend(cents: u32, val: u8) -> u32 {
    let c = cents as int / 100 * 100 + val;
    if c > u32::MAX {
        u32::MAX
    } else {
        c as u32
    }
}

impl ChannelState {
    /// The state a channel powers on with.
    pub open spec fn power_on(default_volume: u8) -> ChannelState {
        ChannelState {
            bank_msb: 0,
            bank_lsb: 0,
            preset: 0,
            bend_val: 0,
            bend_cents: 200,
            rpn_sel: 0,
            volume: if default_volume < 127 {
                default_volume
            } else {
                127
            },
            expression: 127,
            pan: 64,
            sound: Sound::neutral(),
            modulation: 0,
            vib_rate: 64,
            vib_depth: 64,
            tremolo: 0,
            soft: 0,
            lsb_mod: 0,
            lsb_volume: 0,
            lsb_pan: 0,
            lsb_expression: 0,
        }
    }

    pub fn new(default_volume: u8) -> (r: ChannelState)
        ensures
            r == ChannelState::power_on(default_volume),
    {
        ChannelState {
            bank_msb: 0,
            bank_lsb: 0,
            preset: 0,
            bend_val: 0,
            bend_cents: 200,
            rpn_sel: 0,
            volume: if default_volume < 127 {
                default_volume
            } else {
                127
            },
            expression: 127,
            pan: 64,
            sound: Sound { resonance: 64, release: 64, attack: 64, brightness: 64, decay: 64 },
            modulation: 0,
            vib_rate: 64,
            vib_depth: 64,
            tremolo: 0,
            soft: 0,
            lsb_mod: 0,
            lsb_volume: 0,
            lsb_pan: 0,
            lsb_expression: 0,
        }
    }

    /// A controller reset: everything a channel carries goes back to where it
    /// powers on, except its preset, which is no controller, and its sound
    /// controllers, which the reset moves one by one.
    pub open spec fn after_reset(self, default_volume: u8) -> ChannelState {
        ChannelState {
            preset: self.preset,
            sound: self.sound,
            ..ChannelState::power_on(default_volume)
        }
    }

    pub fn reset(self, default_volume: u8) -> (r: ChannelState)
        ensures
            r == self.after_reset(default_volume),
    {
        let mut s = ChannelState::new(default_volume);
        s.preset = self.preset;
        s.sound = self.sound;
        s
    }

    /// The channel state after a controller. The sound controllers, the pedals
    /// and the channel mode messages leave it to their effect.
    pub open spec fn after_cc(self, num: u8, val: u8, default_volume: u8) -> ChannelState {
        let bends = self.rpn_sel == 0;
        if num == 0 {
            ChannelState { bank_msb: val, ..self }
        } else if num == 1 {
            ChannelState { modulation: val, lsb_mod: 0, ..self }
        } else if num == 33 {
            ChannelState { lsb_mod: val, ..self }
        } else if num == 39 {
            ChannelState { lsb_volume: val, ..self }
        } else if num == 42 {
            ChannelState { lsb_pan: val, ..self }
        } else if num == 43 {
            ChannelState { lsb_expression: val, ..self }
        } else if num == 32 {
            ChannelState { bank_lsb: val, ..self }
        } else if num == 6 && bends {
            ChannelState { bend_cents: (val * 100) as u32, ..self }
        } else if num == 38 && bends {
            ChannelState { bend_cents: fine_bend(self.bend_cents, val), ..self }
        } else if num == 96 && bends {
            ChannelState {
                bend_cents: if self.bend_cents + 100 < MAX_BEND_CENTS {
                    (self.bend_cents + 100) as u32
                } else {
                    MAX_BEND_CENTS
                },
                ..self
            }
        } else if num == 97 && bends {
            ChannelState {
                bend_cents: if self.bend_cents >= 100 {
                    (self.bend_cents - 100) as u32
                } else {
                    0
                },
                ..self
            }
        } else if num == 98 || num == 99 {
            ChannelState { rpn_sel: RPN_NONE, ..self }
        } else if num == 100 {
            ChannelState { rpn_sel: (rpn_base(self.rpn_sel) & 0x3f80) | (val as u16), ..self }
        } else if num == 101 {
            ChannelState {
                rpn_sel: (rpn_base(self.rpn_sel) & 0x7f) | ((val as u16) << 7u16),
                ..self
            }
        } else if num == 7 {
            ChannelState { volume: val, lsb_volume: 0, ..self }
        } else if num == 10 {
            ChannelState { pan: val, lsb_pan: 0, ..self }
        } else if num == 11 {
            ChannelState { expression: val, lsb_expression: 0, ..self }
        } else if num == 67 {
            ChannelState { soft: val, ..self }
        } else if num == 76 {
            ChannelState { vib_rate: val, ..self }
        } else if num == 77 {
            ChannelState { vib_depth: val, ..self }
        } else if num == 92 {
            ChannelState { tremolo: val, ..self }
        } else if num == 121 {
            self.after_reset(default_volume)
        } else {
            self
        }
    }

    /// What a controller asks for beyond the channel state.
    pub open spec fn effect_of(self, num: u8, val: u8) -> Effect {
        if num == 7 || num == 10 || num == 11 || num == 39 || num == 42 || num == 43 || num == 67 {
            Effect::Gain
        } else if (num == 6 || num == 38 || num == 96 || num == 97) && self.rpn_sel == 0 {
            Effect::Bend
        } else if num == 64 {
            Effect::Sustain(val >= 64)
        } else if num == 66 {
            Effect::Sostenuto(val >= 64)
        } else if 71 <= num <= 75 {
            Effect::Sound((num - 71) as u8)
        } else if num == 120 {
            Effect::AllSoundOff
        } else if num == 121 {
            Effect::Reset
        } else if 123 <= num <= 127 {
            Effect::AllNotesOff
        } else {
            Effect::Nothing
        }
    }

    /// Take one controller.
    pub fn cc(self, num: u8, val: u8, default_volume: u8) -> (r: (ChannelState, Effect))
        ensures
            r.0 == self.after_cc(num, val, default_volume),
            r.1 == self.effect_of(num, val),
    {
        let mut s = self;
        let bends = self.rpn_sel == 0;
        let keep: u16 = if self.rpn_sel == RPN_NONE {
            0
        } else {
            self.rpn_sel
        };
        let e = match num {
            0 => {
                s.bank_msb = val;
                Effect::Nothing
            },
            1 => {
                s.modulation = val;
                s.lsb_mod = 0;
                Effect::Nothing
            },
            33 => {
                s.lsb_mod = val;
                Effect::Nothing
            },
            39 => {
                s.lsb_volume = val;
                Effect::Gain
            },
            42 => {
                s.lsb_pan = val;
                Effect::Gain
            },
            43 => {
                s.lsb_expression = val;
                Effect::Gain
            },
            32 => {
                s.bank_lsb = val;
                Effect::Nothing
            },
            // Data entry, and the increment/decrement pair that walks the same
            // value. Only RPN 0, pitch bend sensitivity, is acted on.
            6 => if bends {
                s.bend_cents = val as u32 * 100;
                Effect::Bend
            } else {
                Effect::Nothing
            },
            38 => if bends {
                s.bend_cents = (self.bend_cents / 100 * 100).saturating_add(val as u32);
                Effect::Bend
            } else {
                Effect::Nothing
            },
            96 => if bends {
                s.bend_cents = if self.bend_cents < MAX_BEND_CENTS - 100 {
                    self.bend_cents + 100
                } else {
                    MAX_BEND_CENTS
                };
                Effect::Bend
            } else {
                Effect::Nothing
            },
            97 => if bends {
                s.bend_cents = if self.bend_cents >= 100 {
                    self.bend_cents - 100
                } else {
                    0
                };
                Effect::Bend
            } else {
                Effect::Nothing
            },
            98 | 99 => {
                s.rpn_sel = RPN_NONE;
                Effect::Nothing
            },
            100 => {
                s.rpn_sel = (keep & 0x3f80) | (val as u16);
                Effect::Nothing
            },
            101 => {
                s.rpn_sel = (keep & 0x7f) | ((val as u16) << 7u16);
                Effect::Nothing
            },
            7 => {
                s.volume = val;
                s.lsb_volume = 0;
                Effect::Gain
            },
            10 => {
                s.pan = val;
                s.lsb_pan = 0;
                Effect::Gain
            },
            11 => {
                s.expression = val;
                s.lsb_expression = 0;
                Effect::Gain
            },
            64 => Effect::Sustain(val >= 64),
            66 => Effect::Sostenuto(val >= 64),
            67 => {
                s.soft = val;
                Effect::Gain
            },
            71 => Effect::Sound(0),
            72 => Effect::Sound(1),
            73 => Effect::Sound(2),
            74 => Effect::Sound(3),
            75 => Effect::Sound(4),
            76 => {
                s.vib_rate = val;
                Effect::Nothing
            },
            77 => {
                s.vib_depth = val;
                Effect::Nothing
            },
            92 => {
                s.tremolo = val;
                Effect::Nothing
            },
            120 => Effect::AllSoundOff,
            121 => {
                s = self.reset(default_volume);
                Effect::Reset
            },
            // Every channel mode message carries an all-notes-off with it. The
            // mode itself is not implemented.
            123 | 124 | 125 | 126 | 127 => Effect::AllNotesOff,
            _ => Effect::Nothing,
        };
        (s, e)
    }
}

/// A controller with its fine half as a fraction: 14 bits where a fine half was
/// sent, 7 bits otherwise, so that without one it is exactly the coarse half
/// over its full scale.
pub open spec fn fraction(msb: u8, lsb: u8) -> (int, int) {
    if lsb == 0 {
        (msb as int, 127)
    } else {
        (msb * 128 + lsb, 16383)
    }
}

/// Numerator and denominator of a controller with its fine half.
pub fn fine(msb: u8, lsb: u8) -> (r: (u32, u32))
    ensures
        r.0 == fraction(msb, lsb).0,
        r.1 == fraction(msb, lsb).1,
{
    if lsb == 0 {
        (msb as u32, 127)
    } else {
        (msb as u32 * 128 + lsb as u32, 16383)
    }
}

impl ChannelState {
    /// Whether the pan sits at its exact centre, where both sides are at unity.
    pub fn centred(&self) -> (r: bool)
        ensures
            r == (self.pan == 64 && self.lsb_pan == 0),
    {
        self.pan == 64 && self.lsb_pan == 0
    }

    /// Whether the channel has any vibrato: the wheel is up and its depth is not
    /// turned off.
    pub fn has_vibrato(&self) -> (r: bool)
        ensures
            r == (self.modulation * 128 + self.lsb_mod > 0 && self.vib_depth > 0),
    {
        (self.modulation > 0 || self.lsb_mod > 0) && self.vib_depth > 0
    }

    /// Whether the channel has any tremolo.
    pub fn has_tremolo(&self) -> (r: bool)
        ensures
            r == (self.tremolo > 0),
    {
        self.tremolo > 0
    }
}

/// A channel at power-on has no vibrato, no tremolo and a centred pan, so a file
/// that never moves them pays nothing for them.
pub proof fn law_power_on_is_plain(default_volume: u8)
    ensures
        ({
            let s = ChannelState::power_on(default_volume);
            &&& s.pan == 64 && s.lsb_pan == 0
            &&& s.modulation == 0 && s.lsb_mod == 0
            &&& s.tremolo == 0
            &&& s.bend_val == 0
            &&& s.sound == Sound::neutral()
        }),
{
}

/// A controller that is not listed as applied changes nothing: neither the
/// channel nor anything else.
pub proof fn law_unlisted_controllers_do_nothing(
    s: ChannelState,
    num: u8,
    val: u8,
    default_volume: u8,
)
    requires
        !(role_table(num).1 is Applied),
    ensures
        s.after_cc(num, val, default_volume) == s,
        s.effect_of(num, val) == Effect::Nothing,
{
}

/// A controller that is listed as applied does something: for some channel and
/// some value it changes the state or asks for an effect.
pub proof fn law_listed_controllers_do_something(num: u8, default_volume: u8)
    requires
        role_table(num).1 is Applied,
    ensures
        exists|s: ChannelState, val: u8|
            s.after_cc(num, val, default_volume) != s || #[trigger] s.effect_of(num, val)
                != Effect::Nothing,
{
    let s = ChannelState { rpn_sel: 0, ..ChannelState::power_on(0) };
    let t = ChannelState { rpn_sel: 5, ..s };
    assert((0u16 & 0x3f80u16) | (1u8 as u16) == 1u16) by (bit_vector);
    assert((0u16 & 0x7fu16) | ((1u8 as u16) << 7u16) == 128u16) by (bit_vector);
    assert(s.effect_of(num, 1) != Effect::Nothing || s.after_cc(num, 1, default_volume) != s
        || s.after_cc(num, 2, default_volume) != s);
    assert(s.effect_of(num, 2) == s.effect_of(num, 2));
}

/// Data entry under an NRPN or any RPN but 0 cannot move the bend range.
pub proof fn law_only_rpn_zero_moves_the_bend_range(
    s: ChannelState,
    num: u8,
    val: u8,
    default_volume: u8,
)
    requires
        s.rpn_sel != 0,
        num != 121,
    ensures
        s.after_cc(num, val, default_volume).bend_cents == s.bend_cents,
        s.effect_of(num, val) != Effect::Bend,
{
}

/// Selecting an RPN by its two halves, in either order, selects that number;
/// selecting an NRPN afterwards parks the selection where no data entry reaches
/// it.
pub proof fn law_rpn_selection(s: ChannelState, msb: u8, lsb: u8, default_volume: u8)
    requires
        msb < 128,
        lsb < 128,
        s.rpn_sel <= RPN_NONE,
    ensures
        s.after_cc(101, msb, default_volume).after_cc(100, lsb, default_volume).rpn_sel == msb * 128
            + lsb,
        s.after_cc(100, lsb, default_volume).after_cc(101, msb, default_volume).rpn_sel == msb * 128
            + lsb,
        s.after_cc(98, lsb, default_volume).rpn_sel != 0,
{
    let b = rpn_base(s.rpn_sel);
    let m = msb as u16;
    let l = lsb as u16;
    let x = (b & 0x7f) | (m << 7u16);
    let y = (b & 0x3f80) | l;
    assert(m < 128 && l < 128 && b < 0x4000 ==> {
        &&& ((b & 0x7f) | (m << 7u16)) != 0x4000
        &&& ((b & 0x3f80) | l) != 0x4000
        &&& ((((b & 0x7f) | (m << 7u16)) & 0x3f80) | l) == m * 128 + l
        &&& ((((b & 0x3f80) | l) & 0x7f) | (m << 7u16)) == m * 128 + l
    }) by (bit_vector);
}

/// The fine half of a controller starts over when the coarse half moves.
pub proof fn law_coarse_clears_fine(s: ChannelState, val: u8, default_volume: u8)
    ensures
        s.after_cc(1, val, default_volume).lsb_mod == 0,
        s.after_cc(7, val, default_volume).lsb_volume == 0,
        s.after_cc(10, val, default_volume).lsb_pan == 0,
        s.after_cc(11, val, default_volume).lsb_expression == 0,
{
}

/// A reset takes a channel back to where it powers on, but for its preset and the
/// sound controllers, which follow one by one.
pub proof fn law_reset_is_power_on(s: ChannelState, val: u8, default_volume: u8)
    ensures
        ({
            let r = s.after_cc(121, val, default_volume);
            r == (ChannelState {
                preset: s.preset,
                sound: s.sound,
                ..ChannelState::power_on(default_volume)
            })
        }),
{
}

} // verus!
