use kestrel::config::Config;
use kestrel::gates::GateTable;

fn cfg() -> Config {
    Config { block_frames: 64, reduce_tile: 8, gate_frames: 16, ..Default::default() }
}

#[test]
fn gate_rows_reflect_state_at_tile_start() {
    let mut g = GateTable::new(&cfg());
    assert_eq!(g.tiles, 4);
    g.begin_block();
    let ord = g.note_on(0, 60, 0);
    assert_eq!(ord, 1);
    g.note_off(0, 60, 40); // tile 2
    g.end_block();

    let s = GateTable::slot(0, 60);
    assert_eq!(g.row(0)[s], 0);
    assert_eq!(g.row(1)[s], 0);
    assert_eq!(g.row(2)[s], 0, "the off happens inside tile 2, not before it");
    assert_eq!(g.row(3)[s], 1);
}

#[test]
fn the_pedal_defers_note_offs_and_releases_them_together() {
    let mut g = GateTable::new(&cfg());
    let s = GateTable::slot(0, 60);
    g.begin_block();
    g.note_on(0, 60, 0);
    g.set_sustain(0, true, 0);
    g.note_off(0, 60, 16); // held
    g.end_block();
    assert_eq!(g.row(3)[s], 0, "a pedalled note-off must not be published");
    assert_eq!(g.sounding(), 1, "the held note is still sounding");

    g.begin_block();
    g.set_sustain(0, false, 16);
    g.end_block();
    assert_eq!(g.row(1)[s], 0, "the release lands at the lift, not before");
    assert_eq!(g.row(2)[s], 1);
    assert_eq!(g.sounding(), 0);
}

/// Restriking a key while the pedal is down leaves two notes sounding and one
/// deferred note-off.
#[test]
fn a_restrike_under_the_pedal_releases_only_what_was_lifted() {
    let mut g = GateTable::new(&cfg());
    let s = GateTable::slot(0, 60);
    g.begin_block();
    g.set_sustain(0, true, 0);
    g.note_on(0, 60, 0);
    g.note_off(0, 60, 0);
    g.note_on(0, 60, 16);
    // A second off with only one note left un-lifted is still legal.
    g.note_off(0, 60, 16);
    // A third has nothing behind it and must be dropped.
    g.note_off(0, 60, 16);
    g.end_block();
    assert_eq!(g.sounding(), 2, "both strikes are held by the pedal");

    g.begin_block();
    g.set_sustain(0, false, 0);
    g.end_block();
    assert_eq!(g.row(3)[s], 2, "both held offs publish, the third does not");
    assert_eq!(g.sounding(), 0);
}

#[test]
fn unmatched_note_off_does_not_pre_release() {
    let mut g = GateTable::new(&cfg());
    g.begin_block();
    g.note_off(0, 60, 0); // nothing sounding
    let ord = g.note_on(0, 60, 16);
    g.end_block();
    let s = GateTable::slot(0, 60);
    assert_eq!(ord, 1);
    assert_eq!(g.row(3)[s], 0, "stray note-off must not release the next note");
}

#[test]
fn retrigger_releases_in_order() {
    let mut g = GateTable::new(&cfg());
    g.begin_block();
    let a = g.note_on(0, 60, 0);
    let b = g.note_on(0, 60, 0);
    g.note_off(0, 60, 16);
    g.end_block();
    assert_eq!((a, b), (1, 2));
    let s = GateTable::slot(0, 60);
    // Only the first note is released.
    assert!(g.row(3)[s] >= a);
    assert!(g.row(3)[s] < b);
}

#[test]
fn slots_take_channel_and_key_in_range() {
    assert_eq!(GateTable::slot(0, 0), 0);
    assert_eq!(GateTable::slot(15, 127), 2047);
    assert_eq!(GateTable::slot(16, 128), 0);
    assert_eq!(GateTable::slot(3, 60), 444);
}

#[test]
fn released_compares_the_ordinal() {
    let mut g = GateTable::new(&cfg());
    g.begin_block();
    let a = g.note_on(2, 40, 0);
    let s = GateTable::slot(2, 40) as u32;
    assert!(!g.released(s, a));
    g.note_off(2, 40, 1);
    assert!(g.released(s, a));
    assert!(!g.released(s, a + 1));
}

#[test]
fn sostenuto_holds_only_what_it_caught() {
    let mut g = GateTable::new(&cfg());
    g.begin_block();
    g.note_on(1, 60, 0);
    g.set_sostenuto(1, true, 0);
    g.note_on(1, 62, 0);
    g.note_off(1, 60, 4);
    g.note_off(1, 62, 4);
    g.end_block();
    assert_eq!(g.row(3)[GateTable::slot(1, 60)], 0, "caught, so held");
    assert_eq!(g.row(3)[GateTable::slot(1, 62)], 1, "struck later, so damped");
    g.begin_block();
    g.set_sostenuto(1, false, 0);
    g.end_block();
    assert_eq!(g.row(3)[GateTable::slot(1, 60)], 1);
}

#[test]
fn a_stray_off_under_sostenuto_is_dropped() {
    let mut g = GateTable::new(&cfg());
    g.begin_block();
    g.note_on(0, 60, 0);
    g.set_sostenuto(0, true, 0);
    g.note_off(0, 60, 1); // held
    g.note_off(0, 60, 2); // nothing left to lift
    g.set_sostenuto(0, false, 3);
    g.end_block();
    assert_eq!(g.sounding(), 0);
    assert_eq!(g.row(3)[GateTable::slot(0, 60)], 1);
}

#[test]
fn all_notes_off_waits_for_the_pedal() {
    let mut g = GateTable::new(&cfg());
    g.begin_block();
    g.note_on(0, 60, 0);
    g.note_on(0, 64, 0);
    g.set_sustain(0, true, 0);
    g.all_notes_off(0, 8);
    assert_eq!(g.sounding(), 2);
    g.set_sustain(0, false, 9);
    assert_eq!(g.sounding(), 0);
}

#[test]
fn all_sound_off_ignores_the_pedal() {
    let mut g = GateTable::new(&cfg());
    g.begin_block();
    g.note_on(0, 60, 0);
    g.note_on(1, 60, 0);
    g.set_sustain(0, true, 0);
    g.all_sound_off(0, 8);
    assert_eq!(g.sounding(), 1, "the other channel goes on");
    assert!(g.sustained(0));
}

#[test]
fn a_reset_lifts_both_pedals() {
    let mut g = GateTable::new(&cfg());
    g.begin_block();
    g.note_on(0, 60, 0);
    g.set_sustain(0, true, 0);
    g.set_sostenuto(0, true, 0);
    g.note_off(0, 60, 1);
    assert_eq!(g.sounding(), 1);
    g.reset_controllers(0, 2);
    assert!(!g.sustained(0));
    assert_eq!(g.sounding(), 0);
}

#[test]
fn counters_wrap() {
    let mut g = GateTable::new(&cfg());
    let s = GateTable::slot(0, 1);
    g.slots[s].on = u32::MAX;
    g.slots[s].off = u32::MAX;
    g.begin_block();
    assert_eq!(g.note_on(0, 1, 0), 0);
    assert_eq!(g.sounding(), 1);
    g.note_off(0, 1, 0);
    assert_eq!(g.sounding(), 0);
}

#[test]
fn a_sustain_lift_keeps_only_what_sostenuto_caught() {
    let mut g = GateTable::new(&cfg());
    g.begin_block();
    g.set_sostenuto(0, true, 0);
    g.note_on(0, 60, 0);
    g.set_sustain(0, true, 0);
    g.note_off(0, 60, 0);
    assert_eq!(g.sounding(), 1, "the sustain pedal holds it");
    g.set_sustain(0, false, 16);
    assert_eq!(g.sounding(), 0, "struck after the sostenuto pedal, so not held by it");

    let mut g = GateTable::new(&cfg());
    let (a, b) = (GateTable::slot(2, 60), GateTable::slot(2, 62));
    g.begin_block();
    g.note_on(2, 60, 0);
    g.set_sostenuto(2, true, 0);
    g.note_on(2, 62, 0);
    g.set_sustain(2, true, 0);
    g.note_off(2, 60, 1);
    g.note_off(2, 62, 1);
    g.set_sostenuto(2, true, 2); // pressed again, which takes nothing back
    g.set_sustain(2, false, 16);
    g.end_block();
    assert_eq!((g.row(3)[a], g.row(3)[b]), (0, 1));
    assert_eq!((g.slots[a].pending, g.slots[a].caught_off), (1, 1));
    assert_eq!(g.sounding(), 1);
    g.begin_block();
    g.set_sostenuto(2, false, 0);
    g.end_block();
    assert_eq!(g.row(3)[a], 1);
    assert_eq!(g.sounding(), 0);
}

#[test]
fn sostenuto_holds_a_note_the_sustain_pedal_was_holding() {
    let mut g = GateTable::new(&cfg());
    g.begin_block();
    g.note_on(0, 60, 0);
    g.set_sustain(0, true, 0);
    g.note_off(0, 60, 1);
    g.set_sostenuto(0, true, 2); // the note is still sounding
    g.set_sustain(0, false, 3);
    assert_eq!(g.sounding(), 1);
    g.set_sostenuto(0, false, 4);
    assert_eq!(g.sounding(), 0);
}

#[test]
fn what_sostenuto_caught_passes_to_a_sustain_pedal_still_down() {
    let mut g = GateTable::new(&cfg());
    g.begin_block();
    g.note_on(0, 60, 0);
    g.note_on(0, 60, 0);
    g.set_sostenuto(0, true, 0);
    g.all_notes_off(0, 1);
    assert_eq!(g.sounding(), 2);
    g.set_sustain(0, true, 2);
    g.set_sostenuto(0, false, 3);
    assert_eq!(g.sounding(), 2, "the other pedal is still down");
    g.set_sustain(0, false, 4);
    assert_eq!(g.sounding(), 0);
}
