use kestrel::controls::{fine, ChannelState, Effect, Sound, RPN_NONE};
use kestrel::variants::VariantTable;

fn on() -> ChannelState {
    ChannelState::new(127)
}

#[test]
fn a_channel_powers_on_plain() {
    let s = on();
    assert_eq!((s.volume, s.expression, s.pan, s.bend_cents), (127, 127, 64, 200));
    assert!(s.centred() && !s.has_vibrato() && !s.has_tremolo());
    assert_eq!(ChannelState::new(200).volume, 127);
    assert_eq!(ChannelState::new(100).volume, 100);
}

#[test]
fn coarse_halves_clear_fine_ones() {
    let (s, e) = on().cc(39, 9, 127);
    assert_eq!((s.lsb_volume, e), (9, Effect::Gain));
    let (s, e) = s.cc(7, 50, 127);
    assert_eq!((s.volume, s.lsb_volume, e), (50, 0, Effect::Gain));
    let (s, e) = s.cc(33, 1, 127);
    assert_eq!((s.lsb_mod, e), (1, Effect::Nothing));
    assert!(s.has_vibrato());
    let (s, _) = s.cc(1, 0, 127);
    assert!(!s.has_vibrato());
    assert_eq!(fine(100, 0), (100, 127));
    assert_eq!(fine(100, 5), (12805, 16383));
}

#[test]
fn only_the_bend_range_parameter_moves_the_bend_range() {
    let (s, e) = on().cc(6, 12, 127);
    assert_eq!((s.bend_cents, e), (1200, Effect::Bend));
    let (s, _) = s.cc(38, 50, 127);
    assert_eq!(s.bend_cents, 1250);
    let (s, _) = s.cc(96, 0, 127);
    assert_eq!(s.bend_cents, 1350);
    let (s, _) = s.cc(97, 0, 127);
    assert_eq!(s.bend_cents, 1250);
    // An unregistered parameter parks the selection.
    let (s, e) = s.cc(99, 1, 127);
    assert_eq!((s.rpn_sel, e), (RPN_NONE, Effect::Nothing));
    let (s, e) = s.cc(6, 24, 127);
    assert_eq!((s.bend_cents, e), (1250, Effect::Nothing));
    let (s, _) = s.cc(101, 0, 127);
    let (s, _) = s.cc(100, 0, 127);
    assert_eq!(s.rpn_sel, 0);
    let (s, _) = s.cc(101, 1, 127);
    let (s, _) = s.cc(100, 2, 127);
    assert_eq!(s.rpn_sel, 130);
    let (s, _) = s.cc(100, 0, 127);
    let (s, _) = s.cc(101, 0, 127);
    let (s, _) = s.cc(6, 0, 127);
    let (s, _) = s.cc(97, 0, 127);
    assert_eq!(s.bend_cents, 0, "never below none");
}

#[test]
fn pedals_and_modes_are_passed_on() {
    assert_eq!(on().cc(64, 64, 127).1, Effect::Sustain(true));
    assert_eq!(on().cc(64, 63, 127).1, Effect::Sustain(false));
    assert_eq!(on().cc(66, 127, 127).1, Effect::Sostenuto(true));
    assert_eq!(on().cc(71, 3, 127).1, Effect::Sound(0));
    assert_eq!(on().cc(75, 3, 127).1, Effect::Sound(4));
    assert_eq!(on().cc(120, 0, 127).1, Effect::AllSoundOff);
    assert_eq!(on().cc(121, 0, 127).1, Effect::Reset);
    for n in 123..=127 {
        assert_eq!(on().cc(n, 0, 127).1, Effect::AllNotesOff);
    }
    assert_eq!(on().cc(91, 99, 127), (on(), Effect::Nothing));
}

#[test]
fn a_reset_goes_back_to_power_on() {
    let (s, _) = on().cc(10, 3, 127);
    let (s, _) = s.cc(6, 9, 127);
    let (s, _) = s.cc(99, 1, 127);
    assert_eq!(s.rpn_sel, RPN_NONE);
    let mut s = s;
    s.preset = 4;
    let r = s.reset(127);
    assert_eq!(r, ChannelState { preset: 4, ..on() });
    assert_eq!(r.rpn_sel, on().rpn_sel);
    assert_eq!(r.cc(6, 9, 127).0.bend_cents, 900, "the bend range is selected as at the start");
}

#[test]
fn sound_controllers_are_addressed_by_place() {
    let s = on().sound;
    for w in 0..5u8 {
        assert_eq!(s.get(w), 64);
        assert_eq!(s.set(w, 9).get(w), 9);
    }
}

fn bright(v: u8) -> Sound {
    Sound { resonance: 64, release: 64, attack: 64, brightness: v, decay: 64 }
}

#[test]
fn each_combination_gets_its_own_copy_while_slots_last() {
    let mut t = VariantTable::new();
    t.begin_block();
    assert_eq!(t.select(0, bright(70), 3), 1);
    assert_eq!(t.select(1, bright(71), 3), 1, "the same after quantising");
    assert_eq!(t.select(2, bright(80), 3), 2);
    assert_eq!(t.select(0, bright(64), 3), 0);
    let b = t.take_pending();
    assert_eq!(b.iter().map(|b| b.slot).collect::<Vec<u32>>(), vec![1, 2]);
    assert_eq!(b[0].sound, bright(70));
    assert!(t.take_pending().is_empty());
    assert_eq!(t.param_variants(), 2);
    assert_eq!(VariantTable::new().param_variants(), 0);
    // Every slot was used in this block, so the closest stands in.
    assert_eq!(t.select(3, bright(82), 3), 2);
    assert_eq!((t.rebuilds, t.fallbacks), (0, 1));
}

#[test]
fn the_stalest_free_copy_is_rebuilt() {
    let mut t = VariantTable::new();
    t.begin_block();
    t.select(0, bright(10), 3);
    t.select(0, bright(20), 3);
    t.take_pending();
    t.begin_block();
    // Slot 2 is current on channel 0 and so in use; slot 1 is free.
    assert_eq!(t.select(1, bright(90), 3), 1);
    assert_eq!((t.rebuilds, t.fallbacks), (1, 0));
    t.begin_block();
    t.pin(1);
    t.pin(2);
    assert_eq!(t.select(2, bright(30), 3), 2, "pinned copies are never rebuilt");
    assert_eq!(t.fallbacks, 1);
}
