//! What each controller moves, and what it leaves alone.

use crate::controls::{fraction, ChannelState, Effect, Sound};
use vstd::prelude::*;

verus! {

/// Each controller moves its own field and no other. A coarse controller takes
/// its fine half back to zero with it; nothing else is touched, and a controller
/// that owns no field leaves the channel as it is. Only a reset moves more than
/// that.
pub proof fn law_each_controller_moves_its_own_field(
    s: ChannelState,
    num: u8,
    val: u8,
    default_volume: u8,
)
    requires
        num != 121,
    ensures
        ({
            let a = s.after_cc(num, val, default_volume);
            &&& a.volume == (if num == 7 { val } else { s.volume })
            &&& a.pan == (if num == 10 { val } else { s.pan })
            &&& a.expression == (if num == 11 { val } else { s.expression })
            &&& a.modulation == (if num == 1 { val } else { s.modulation })
            &&& a.soft == (if num == 67 { val } else { s.soft })
            &&& a.vib_rate == (if num == 76 { val } else { s.vib_rate })
            &&& a.vib_depth == (if num == 77 { val } else { s.vib_depth })
            &&& a.tremolo == (if num == 92 { val } else { s.tremolo })
            &&& a.bank_msb == (if num == 0 { val } else { s.bank_msb })
            &&& a.bank_lsb == (if num == 32 { val } else { s.bank_lsb })
            &&& a.lsb_mod == (if num == 33 { val } else if num == 1 { 0 } else { s.lsb_mod })
            &&& a.lsb_volume == (if num == 39 { val } else if num == 7 { 0 } else {
                s.lsb_volume
            })
            &&& a.lsb_pan == (if num == 42 { val } else if num == 10 { 0 } else { s.lsb_pan })
            &&& a.lsb_expression == (if num == 43 { val } else if num == 11 { 0 } else {
                s.lsb_expression
            })
            &&& a.preset == s.preset
            &&& a.bend_val == s.bend_val
            &&& a.sound == s.sound
            &&& !(num == 6 || num == 38 || num == 96 || num == 97) ==> a.bend_cents
                == s.bend_cents
            &&& !(98 <= num <= 101) ==> a.rpn_sel == s.rpn_sel
        }),
{
}

/// Two controllers of different fields do not get in each other's way: in either
/// order the channel ends up the same.
pub proof fn law_controllers_of_different_fields_commute(
    s: ChannelState,
    n: u8,
    a: u8,
    m: u8,
    b: u8,
    default_volume: u8,
)
    requires
        n == 1 || n == 7 || n == 10 || n == 11 || n == 67 || n == 76 || n == 77 || n == 92,
        m == 1 || m == 7 || m == 10 || m == 11 || m == 67 || m == 76 || m == 77 || m == 92,
        n != m,
    ensures
        s.after_cc(n, a, default_volume).after_cc(m, b, default_volume) == s.after_cc(
            m,
            b,
            default_volume,
        ).after_cc(n, a, default_volume),
{
}

/// What moves a channel's loudness or its place in the stereo field asks for its
/// gains to be worked out again, and nothing else does; likewise for what bends
/// its pitch. So neither is ever stale, and neither is worked out for nothing.
pub proof fn law_effects_follow_what_moved(
    s: ChannelState,
    num: u8,
    val: u8,
    default_volume: u8,
)
    requires
        num != 121,
    ensures
        ({
            let a = s.after_cc(num, val, default_volume);
            let e = s.effect_of(num, val);
            &&& (a.volume != s.volume || a.expression != s.expression || a.pan != s.pan || a.soft
                != s.soft || a.lsb_volume != s.lsb_volume || a.lsb_expression
                != s.lsb_expression || a.lsb_pan != s.lsb_pan) ==> e == Effect::Gain
            &&& a.bend_cents != s.bend_cents ==> e == Effect::Bend
            &&& e == Effect::Gain ==> a.bend_cents == s.bend_cents && a.rpn_sel == s.rpn_sel
                && a.modulation == s.modulation
            &&& e == Effect::Bend ==> s.rpn_sel == 0 && a.volume == s.volume && a.pan == s.pan
                && a.expression == s.expression
        }),
{
}

/// The pedals read the upper half of their range as down, the sound controllers
/// count from CC71, and the channel mode messages end notes: each number asks for
/// its own effect, and no other number does.
pub proof fn law_each_effect_has_its_numbers(s: ChannelState, num: u8, val: u8)
    ensures
        ({
            let e = s.effect_of(num, val);
            &&& (e is Sustain) == (num == 64)
            &&& num == 64 ==> e == Effect::Sustain(val as int / 64 >= 1)
            &&& (e is Sostenuto) == (num == 66)
            &&& num == 66 ==> e == Effect::Sostenuto(val as int / 64 >= 1)
            &&& (e is Sound) == (71 <= num <= 75)
            &&& e matches Effect::Sound(which) ==> which + 71 == num
            &&& (e is AllSoundOff) == (num == 120)
            &&& (e is Reset) == (num == 121)
            &&& (e is AllNotesOff) == (num >= 123 && num < 128)
            &&& (e is Gain) == (num == 7 || num == 39 || num == 10 || num == 42 || num == 11 || num
                == 43 || num == 67)
            &&& (e is Bend) == (s.rpn_sel == 0 && (num == 6 || num == 38 || num == 96 || num == 97))
        }),
{
}

/// Under RPN 0, data entry spells the bend range: the coarse half is semitones,
/// the fine half cents on top of them. Increment and decrement walk it by a
/// semitone within nought and 127 semitones, and the one undoes the other.
pub proof fn law_data_entry_spells_the_bend_range(
    s: ChannelState,
    semis: u8,
    cents: u8,
    any: u8,
    default_volume: u8,
)
    requires
        s.rpn_sel == 0,
        cents < 100,
    ensures
        s.after_cc(6, semis, default_volume).bend_cents == 100 * semis,
        s.after_cc(6, semis, default_volume).after_cc(38, cents, default_volume).bend_cents == 100
            * semis + cents,
        s.bend_cents <= u32::MAX - 100 ==> {
            &&& s.after_cc(38, cents, default_volume).bend_cents % 100 == cents
            &&& s.after_cc(38, cents, default_volume).bend_cents / 100 == s.bend_cents / 100
        },
        s.bend_cents + 100 <= 12700 ==> {
            &&& s.after_cc(96, any, default_volume).bend_cents == s.bend_cents + 100
            &&& s.after_cc(96, any, default_volume).after_cc(97, any, default_volume).bend_cents
                == s.bend_cents
        },
        s.bend_cents + 100 > 12700 ==> s.after_cc(96, any, default_volume).bend_cents == 12700,
        s.bend_cents < 100 ==> s.after_cc(97, any, default_volume).bend_cents == 0,
        100 <= s.bend_cents <= 12700 ==> {
            &&& s.after_cc(97, any, default_volume).bend_cents == s.bend_cents - 100
            &&& s.after_cc(97, any, default_volume).after_cc(96, any, default_volume).bend_cents
                == s.bend_cents
        },
{
}

/// Selecting one half of an RPN keeps the other half of the RPN selected before.
pub proof fn law_an_rpn_half_keeps_the_other(
    s: ChannelState,
    msb: u8,
    lsb: u8,
    other: u8,
    default_volume: u8,
)
    requires
        msb < 128,
        lsb < 128,
        other < 128,
        s.rpn_sel == msb * 128 + lsb,
    ensures
        s.after_cc(100, other, default_volume).rpn_sel == msb * 128 + other,
        s.after_cc(101, other, default_volume).rpn_sel == other * 128 + lsb,
        s.after_cc(98, other, default_volume).rpn_sel > 0x3fff,
        s.after_cc(99, other, default_volume).rpn_sel > 0x3fff,
{
    let b = s.rpn_sel;
    let m = msb as u16;
    let l = lsb as u16;
    let o = other as u16;
    assert(m < 128 && l < 128 && o < 128 && b == m * 128 + l ==> {
        &&& ((b & 0x3f80) | o) == m * 128 + o
        &&& ((b & 0x7f) | (o << 7u16)) == o * 128 + l
    }) by (bit_vector);
}

/// After an NRPN was selected, one half of an RPN stands beside a zero half.
pub proof fn law_an_rpn_half_alone(
    s: ChannelState,
    other: u8,
    any: u8,
    half: u8,
    default_volume: u8,
)
    requires
        half < 128,
        other == 98 || other == 99,
    ensures
        ({
            let n = s.after_cc(other, any, default_volume);
            &&& n.after_cc(100, half, default_volume).rpn_sel == half
            &&& n.after_cc(101, half, default_volume).rpn_sel == half * 128
        }),
{
    let o = half as u16;
    assert(o < 128 ==> ((0u16 & 0x3f80) | o) == o && ((0u16 & 0x7f) | (o << 7u16)) == o * 128)
        by (bit_vector);
}

/// A channel powers on at the default volume, full expression, a bend range of
/// two semitones with RPN 0 selected, everything else at rest; and a reset takes
/// every controller back there, whatever they were.
pub proof fn law_power_on_values(s: ChannelState, val: u8, default_volume: u8)
    requires
        default_volume <= 127,
    ensures
        ({
            let p = ChannelState::power_on(default_volume);
            let r = s.after_cc(121, val, default_volume);
            &&& p.volume == default_volume && r.volume == default_volume
            &&& p.expression == 127 && r.expression == 127
            &&& p.pan == 64 && r.pan == 64
            &&& p.bend_cents == 200 && r.bend_cents == 200
            &&& p.bend_val == 0 && r.bend_val == 0
            &&& p.rpn_sel == 0 && r.rpn_sel == 0
            &&& p.bank_msb == 0 && r.bank_msb == 0
            &&& p.bank_lsb == 0 && r.bank_lsb == 0
            &&& p.modulation == 0 && r.modulation == 0
            &&& p.vib_rate == 64 && r.vib_rate == 64
            &&& p.vib_depth == 64 && r.vib_depth == 64
            &&& p.tremolo == 0 && r.tremolo == 0
            &&& p.soft == 0 && r.soft == 0
            &&& p.lsb_mod == 0 && p.lsb_volume == 0 && p.lsb_pan == 0 && p.lsb_expression == 0
            &&& r.lsb_mod == 0 && r.lsb_volume == 0 && r.lsb_pan == 0 && r.lsb_expression == 0
            &&& p.preset == 0 && r.preset == s.preset
            &&& r.sound == s.sound
            &&& forall|w: int| 0 <= w < 5 ==> #[trigger] p.sound.at(w) == 64
        }),
{
}

/// A default volume past full scale is full scale.
pub proof fn law_default_volume_is_capped(default_volume: u8)
    ensures
        ChannelState::power_on(default_volume).volume <= 127,
        default_volume > 127 ==> ChannelState::power_on(default_volume).volume == 127,
{
}

/// The five sound controllers by name: resonance, release, attack, brightness
/// and decay, from CC71 on. Setting one is what is read back, and moves no other.
pub proof fn law_sound_controllers_by_name(s: Sound, which: int, other: int, val: u8)
    requires
        0 <= which < 5,
        0 <= other < 5,
    ensures
        s.with(which, val).at(which) == val,
        which != other ==> s.with(which, val).at(other) == s.at(other),
        s.with(0, val).resonance == val && s.at(0) == s.resonance,
        s.with(1, val).release == val && s.at(1) == s.release,
        s.with(2, val).attack == val && s.at(2) == s.attack,
        s.with(3, val).brightness == val && s.at(3) == s.brightness,
        s.with(4, val).decay == val && s.at(4) == s.decay,
{
}

/// A controller at full scale is one, at rest it is nought, and it only grows:
/// the fine half refines the coarse one without passing the next step.
pub proof fn law_fine_halves_refine(msb: u8, lsb: u8)
    requires
        msb < 127,
        0 < lsb < 127,
    ensures
        fraction(127, 0).0 == fraction(127, 0).1,
        fraction(127, 127).0 == fraction(127, 127).1,
        fraction(0, 0).0 == 0,
        fraction(msb, 0).0 * 127 == msb * fraction(msb, 0).1,
        fraction(msb, (lsb + 1) as u8).0 == fraction(msb, lsb).0 + 1,
        fraction((msb + 1) as u8, lsb).0 == fraction(msb, lsb).0 + 128,
        fraction(msb, lsb).1 == fraction(127, 127).1,
        fraction(0, 1).0 == 1,
        fraction(msb, lsb).0 < fraction(msb, lsb).1,
{
}

} // verus!
