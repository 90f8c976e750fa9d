use kestrel::controls::Event;
use kestrel::midi::MidiStream;

fn track(body: &[u8]) -> Vec<u8> {
    let mut t = b"MTrk".to_vec();
    t.extend_from_slice(&(body.len() as u32).to_be_bytes());
    t.extend_from_slice(body);
    t
}

fn file(tracks: &[Vec<u8>]) -> Vec<u8> {
    let mut f = b"MThd\0\0\0\x06\0\x01".to_vec();
    f.extend_from_slice(&(tracks.len() as u16).to_be_bytes());
    f.extend_from_slice(&480u16.to_be_bytes());
    for t in tracks {
        f.extend_from_slice(t);
    }
    f
}

fn events(bytes: Vec<u8>) -> Vec<(u64, Event)> {
    let mut s = MidiStream::open(bytes).unwrap();
    let mut out = Vec::new();
    while let Some(e) = s.next() {
        out.push(e);
    }
    out
}

#[test]
fn a_track_is_read() {
    let t = track(&[
        0x00, 0xff, 0x51, 0x03, 0x07, 0xa1, 0x20, // 500000 us
        0x00, 0xc2, 0x05, //
        0x60, 0x92, 60, 100, //
        0x81, 0x00, 62, 0, // running status, no velocity
        0x00, 0x82, 60, 64, //
        0x00, 0xe2, 0x00, 0x40, //
        0x00, 0xb2, 7, 99, //
        0x00, 0xf0, 0x02, 1, 0xf7, //
        0x00, 0xff, 0x2f, 0x00, //
        0x00, 0x92, 60, 100, // behind the end mark
    ]);
    assert_eq!(
        events(file(&[t])),
        vec![
            (0, Event::Tempo(500_000)),
            (0, Event::Program { ch: 2, val: 5 }),
            (0x60, Event::NoteOn { ch: 2, key: 60, vel: 100 }),
            (0xe0, Event::NoteOff { ch: 2, key: 62 }),
            (0xe0, Event::NoteOff { ch: 2, key: 60 }),
            (0xe0, Event::PitchBend { ch: 2, val: 0 }),
            (0xe0, Event::Cc { ch: 2, num: 7, val: 99 }),
            (0xe0, Event::Other),
        ]
    );
}

#[test]
fn tracks_are_merged_by_time() {
    let a = track(&[10, 0x90, 1, 1, 10, 0x90, 2, 1]);
    let b = track(&[5, 0x90, 3, 1, 5, 0x90, 4, 1, 50, 0x90, 5, 1]);
    let got: Vec<(u64, u8)> = events(file(&[a, b]))
        .into_iter()
        .map(|(t, e)| match e {
            Event::NoteOn { key, .. } => (t, key),
            _ => panic!("notes only"),
        })
        .collect();
    assert_eq!(got, vec![(5, 3), (10, 1), (10, 4), (20, 2), (60, 5)]);
}

#[test]
fn broken_files_play_as_far_as_they_go() {
    let mut f = file(&[track(&[0, 0x90, 60, 1, 0, 0x90, 61])]);
    assert_eq!(events(f.clone()).len(), 1);
    let n = f.len();
    f.truncate(n - 4);
    assert_eq!(events(f).len(), 0);
    assert_eq!(events(file(&[])).len(), 0);
    // Data bytes without a status are no event.
    assert_eq!(events(file(&[track(&[0, 60, 1])])).len(), 0);
}

#[test]
fn headers_are_checked() {
    assert!(MidiStream::open(Vec::new()).is_none());
    assert!(MidiStream::open(b"MThx\0\0\0\x06\0\x01\0\x01\0\x60".to_vec()).is_none());
    assert!(MidiStream::open(b"MThd\0\0\0\x05\0\x01\0\x01\0\x60".to_vec()).is_none());
    let s = MidiStream::open(file(&[track(&[]), track(&[])])).unwrap();
    assert_eq!((s.format, s.division, s.track_count()), (1, 480, 2));
    let mut wrapped = b"RIFF\0\0\0\0RMIDdata\0\0\0\0".to_vec();
    wrapped.extend(file(&[track(&[3, 0x90, 1, 1])]));
    assert_eq!(events(wrapped), vec![(3, Event::NoteOn { ch: 0, key: 1, vel: 1 })]);
}
