use kestrel::controls::Event;
use kestrel::report::{names_midi, Report};
use kestrel::roles::{cc_role, handles_cc, CcRole};

#[test]
fn events_are_counted_by_kind_and_number() {
    let mut r = Report::new();
    r.note(0, Event::Tempo(500_000));
    r.note(5, Event::NoteOn { ch: 0, key: 60, vel: 90 });
    r.note(6, Event::Cc { ch: 0, num: 7, val: 100 });
    r.note(7, Event::Cc { ch: 0, num: 91, val: 40 });
    r.note(7, Event::Cc { ch: 1, num: 91, val: 41 });
    r.note(8, Event::NoteOff { ch: 0, key: 60 });
    r.note(9, Event::PitchBend { ch: 0, val: -5 });
    r.note(9, Event::Program { ch: 0, val: 3 });
    r.note(12, Event::Other);
    assert_eq!(r.counts, vec![1, 1, 3, 1, 1, 1, 1]);
    assert_eq!(r.used(), vec![7, 91]);
    assert_eq!(r.controllers[91], 2);
    assert_eq!(r.missing(), 2);
    assert_eq!(r.last_tick, 12);
}

#[test]
fn an_empty_report_is_empty() {
    let r = Report::new();
    assert_eq!(r.missing(), 0);
    assert!(r.used().is_empty());
}

#[test]
fn midi_files_go_by_their_extension() {
    assert!(names_midi("MID"));
    assert!(names_midi("midi"));
    assert!(names_midi("rmi"));
    assert!(!names_midi("sf2"));
    assert!(!names_midi(""));
}

#[test]
fn every_controller_has_a_role() {
    assert_eq!(cc_role(7), ("channel volume", CcRole::Applied));
    assert_eq!(
        cc_role(5),
        ("portamento time", CcRole::Missing("portamento needs per-voice glide state"))
    );
    assert_eq!(
        cc_role(8),
        ("balance", CcRole::Inert("for two-source channels; a sampler has one"))
    );
    assert_eq!(
        cc_role(40),
        ("", CcRole::Inert("fine resolution for a controller that is not implemented"))
    );
    assert_eq!(cc_role(91), ("reverb send", CcRole::Missing("effects are not implemented")));
    assert_eq!(cc_role(127), ("poly mode on", CcRole::Applied));
    assert_eq!(cc_role(200), ("", CcRole::Inert("undefined by the MIDI spec")));
    let applied = (0..=255u8).filter(|n| handles_cc(*n)).count();
    assert_eq!(applied, 36);
    assert!(handles_cc(64) && !handles_cc(65) && !handles_cc(3));
}
