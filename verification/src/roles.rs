//! What this synthesizer does with each MIDI controller.

use vstd::prelude::*;

verus! {

/// What this synth does with a controller number.
///
/// Every number from 0 to 127 has an entry, so "is this doing anything" is
/// answerable for the controllers a file actually sends.
#[derive(Debug, Clone, Copy, PartialEq, Eq)]
pub enum CcRole {
    /// Acted on.
    Applied,
    /// Recognised, and correctly does nothing to an offline render.
    Inert(&'static str),
    /// Would change what is heard, and is not implemented. The string says what
    /// it would take.
    Missing(&'static str),
}

/// Name and role of each controller number.
pub open spec fn role_table(num: u8) -> (&'static str, CcRole) {
    match num {
        0 => ("bank select msb", CcRole::Applied),
        1 => ("modulation", CcRole::Applied),
        2 => ("breath", CcRole::Inert("no default mapping in GM; a soundfont would have to bind it")),
        3 => ("", CcRole::Inert("undefined by the MIDI spec")),
        4 => ("foot controller", CcRole::Inert("no default mapping in GM; a soundfont would have to bind it")),
        5 => ("portamento time", CcRole::Missing("portamento needs per-voice glide state")),
        6 => ("data entry msb", CcRole::Applied),
        7 => ("channel volume", CcRole::Applied),
        8 => ("balance", CcRole::Inert("for two-source channels; a sampler has one")),
        9 => ("", CcRole::Inert("undefined by the MIDI spec")),
        10 => ("pan", CcRole::Applied),
        11 => ("expression", CcRole::Applied),
        12 | 13 => ("effect control", CcRole::Missing("effects are not implemented")),
        14 | 15 => ("", CcRole::Inert("undefined by the MIDI spec")),
        n if 16 <= n && n <= 19 => ("general purpose", CcRole::Inert("general purpose, no defined destination")),
        n if 20 <= n && n <= 31 => ("", CcRole::Inert("undefined by the MIDI spec")),
        32 => ("bank select lsb", CcRole::Applied),
        33 => ("modulation lsb", CcRole::Applied),
        38 => ("data entry lsb", CcRole::Applied),
        39 => ("channel volume lsb", CcRole::Applied),
        42 => ("pan lsb", CcRole::Applied),
        43 => ("expression lsb", CcRole::Applied),
        n if 34 <= n && n <= 63 => ("", CcRole::Inert("fine resolution for a controller that is not implemented")),
        64 => ("sustain pedal", CcRole::Applied),
        65 => ("portamento", CcRole::Missing("portamento needs per-voice glide state")),
        66 => ("sostenuto", CcRole::Applied),
        67 => ("soft pedal", CcRole::Applied),
        68 => ("legato footswitch", CcRole::Missing("legato needs mono voice allocation")),
        69 => ("hold 2", CcRole::Missing("a second hold that lengthens release rather than damping")),
        70 => ("sound variation", CcRole::Inert("no default mapping in GM; a soundfont would have to bind it")),
        71 => ("resonance", CcRole::Applied),
        72 => ("release time", CcRole::Applied),
        73 => ("attack time", CcRole::Applied),
        74 => ("brightness", CcRole::Applied),
        75 => ("decay time", CcRole::Applied),
        76 => ("vibrato rate", CcRole::Applied),
        77 => ("vibrato depth", CcRole::Applied),
        78 => ("vibrato delay", CcRole::Missing("the LFO starts immediately")),
        79 => ("sound controller 10", CcRole::Inert("no default mapping in GM; a soundfont would have to bind it")),
        n if 80 <= n && n <= 83 => ("general purpose", CcRole::Inert("general purpose, no defined destination")),
        84 => ("portamento control", CcRole::Missing("portamento needs per-voice glide state")),
        n if 85 <= n && n <= 87 => ("", CcRole::Inert("undefined by the MIDI spec")),
        88 => ("high resolution velocity", CcRole::Missing("velocity is read as 7 bits")),
        89 | 90 => ("", CcRole::Inert("undefined by the MIDI spec")),
        91 => ("reverb send", CcRole::Missing("effects are not implemented")),
        92 => ("tremolo depth", CcRole::Applied),
        93 => ("chorus send", CcRole::Missing("effects are not implemented")),
        94 => ("celeste depth", CcRole::Missing("effects are not implemented")),
        95 => ("phaser depth", CcRole::Missing("effects are not implemented")),
        96 => ("data increment", CcRole::Applied),
        97 => ("data decrement", CcRole::Applied),
        98 | 99 => ("nrpn select", CcRole::Applied),
        100 | 101 => ("rpn select", CcRole::Applied),
        n if 102 <= n && n <= 119 => ("", CcRole::Inert("undefined by the MIDI spec")),
        120 => ("all sound off", CcRole::Applied),
        121 => ("reset controllers", CcRole::Applied),
        122 => ("local control", CcRole::Inert("there is no keyboard attached to an offline render")),
        123 => ("all notes off", CcRole::Applied),
        124 => ("omni off", CcRole::Applied),
        125 => ("omni on", CcRole::Applied),
        126 => ("mono mode on", CcRole::Applied),
        127 => ("poly mode on", CcRole::Applied),
        _ => ("", CcRole::Inert("undefined by the MIDI spec")),
    }
}

/// Name and role for one controller number.
pub fn cc_role(num: u8) -> (r: (&'static str, CcRole))
    ensures
        r == role_table(num),
{
    match num {
        0 => ("bank select msb", CcRole::Applied),
        1 => ("modulation", CcRole::Applied),
        2 => ("breath", CcRole::Inert("no default mapping in GM; a soundfont would have to bind it")),
        3 => ("", CcRole::Inert("undefined by the MIDI spec")),
        4 => ("foot controller", CcRole::Inert("no default mapping in GM; a soundfont would have to bind it")),
        5 => ("portamento time", CcRole::Missing("portamento needs per-voice glide state")),
        6 => ("data entry msb", CcRole::Applied),
        7 => ("channel volume", CcRole::Applied),
        8 => ("balance", CcRole::Inert("for two-source channels; a sampler has one")),
        9 => ("", CcRole::Inert("undefined by the MIDI spec")),
        10 => ("pan", CcRole::Applied),
        11 => ("expression", CcRole::Applied),
        12 | 13 => ("effect control", CcRole::Missing("effects are not implemented")),
        14 | 15 => ("", CcRole::Inert("undefined by the MIDI spec")),
        n if 16 <= n && n <= 19 => ("general purpose", CcRole::Inert("general purpose, no defined destination")),
        n if 20 <= n && n <= 31 => ("", CcRole::Inert("undefined by the MIDI spec")),
        32 => ("bank select lsb", CcRole::Applied),
        33 => ("modulation lsb", CcRole::Applied),
        38 => ("data entry lsb", CcRole::Applied),
        39 => ("channel volume lsb", CcRole::Applied),
        42 => ("pan lsb", CcRole::Applied),
        43 => ("expression lsb", CcRole::Applied),
        n if 34 <= n && n <= 63 => ("", CcRole::Inert("fine resolution for a controller that is not implemented")),
        64 => ("sustain pedal", CcRole::Applied),
        65 => ("portamento", CcRole::Missing("portamento needs per-voice glide state")),
        66 => ("sostenuto", CcRole::Applied),
        67 => ("soft pedal", CcRole::Applied),
        68 => ("legato footswitch", CcRole::Missing("legato needs mono voice allocation")),
        69 => ("hold 2", CcRole::Missing("a second hold that lengthens release rather than damping")),
        70 => ("sound variation", CcRole::Inert("no default mapping in GM; a soundfont would have to bind it")),
        71 => ("resonance", CcRole::Applied),
        72 => ("release time", CcRole::Applied),
        73 => ("attack time", CcRole::Applied),
        74 => ("brightness", CcRole::Applied),
        75 => ("decay time", CcRole::Applied),
        76 => ("vibrato rate", CcRole::Applied),
        77 => ("vibrato depth", CcRole::Applied),
        78 => ("vibrato delay", CcRole::Missing("the LFO starts immediately")),
        79 => ("sound controller 10", CcRole::Inert("no default mapping in GM; a soundfont would have to bind it")),
        n if 80 <= n && n <= 83 => ("general purpose", CcRole::Inert("general purpose, no defined destination")),
        84 => ("portamento control", CcRole::Missing("portamento needs per-voice glide state")),
        n if 85 <= n && n <= 87 => ("", CcRole::Inert("undefined by the MIDI spec")),
        88 => ("high resolution velocity", CcRole::Missing("velocity is read as 7 bits")),
        89 | 90 => ("", CcRole::Inert("undefined by the MIDI spec")),
        91 => ("reverb send", CcRole::Missing("effects are not implemented")),
        92 => ("tremolo depth", CcRole::Applied),
        93 => ("chorus send", CcRole::Missing("effects are not implemented")),
        94 => ("celeste depth", CcRole::Missing("effects are not implemented")),
        95 => ("phaser depth", CcRole::Missing("effects are not implemented")),
        96 => ("data increment", CcRole::Applied),
        97 => ("data decrement", CcRole::Applied),
        98 | 99 => ("nrpn select", CcRole::Applied),
        100 | 101 => ("rpn select", CcRole::Applied),
        n if 102 <= n && n <= 119 => ("", CcRole::Inert("undefined by the MIDI spec")),
        120 => ("all sound off", CcRole::Applied),
        121 => ("reset controllers", CcRole::Applied),
        122 => ("local control", CcRole::Inert("there is no keyboard attached to an offline render")),
        123 => ("all notes off", CcRole::Applied),
        124 => ("omni off", CcRole::Applied),
        125 => ("omni on", CcRole::Applied),
        126 => ("mono mode on", CcRole::Applied),
        127 => ("poly mode on", CcRole::Applied),
        _ => ("", CcRole::Inert("undefined by the MIDI spec")),
    }
}

/// Whether a controller changes anything about the render.
pub fn handles_cc(num: u8) -> (r: bool)
    ensures
        r == (role_table(num).1 is Applied),
{
    match cc_role(num).1 {
        CcRole::Applied => true,
        _ => false,
    }
}

} // verus!
