use kestrel::bank::{Bank, Gain, Pitch, Preset, Region, RegionMath, SampleInfo};
use kestrel::channels::{CHAN_BEND, CHAN_FIELDS};
use kestrel::config::{Config, ConfigError};
use kestrel::controls::Event;
use kestrel::driver::{Driver, Offer};
use kestrel::gates::GateTable;

fn cfg() -> Config {
    Config {
        block_frames: 64,
        reduce_tile: 8,
        gate_frames: 16,
        steal_fade_frames: 8,
        max_voices: 4,
        ..Default::default()
    }
}

fn math(delay: u32) -> RegionMath {
    RegionMath {
        pitches: (0..128).map(|_| Pitch { ratio: 1.0f64.to_bits(), step: 1 << 32 }).collect(),
        gains: (0..256u32)
            .map(|v| {
                let g = v as f32 / 127.0;
                Gain { l: g.to_bits(), r: g.to_bits(), loud: (2.0 * g).to_bits() }
            })
            .collect(),
        start: 0,
        end: 0,
        loop_start: 0,
        loop_end: 0,
        delay_frames: delay,
    }
}

fn bank(delays: &[u32]) -> Bank {
    let mut b = Bank {
        pool: vec![0; 100],
        pool_rate: 48000,
        samples: vec![SampleInfo {
            start: 0,
            len: 100,
            loop_start: 0,
            loop_end: 0,
            rate: 48000,
            root_key: 60,
            correction_cents: 0,
            resample_ratio: 1.0f32.to_bits(),
            name: String::from("s"),
        }],
        regions: delays.iter().map(|_| Region::default()).collect(),
        params: Vec::new(),
        presets: vec![Preset {
            bank: 0,
            program: 0,
            name: String::from("p"),
            regions: (0..delays.len() as u32).collect(),
            key_index: Vec::new(),
            key_regions: Vec::new(),
        }],
        index: Vec::new(),
        name: String::from("b"),
        math: Vec::new(),
        key_ok: Vec::new(),
    };
    b.build_params();
    b.build_admission_tables(delays.iter().map(|d| math(*d)).collect());
    b.finish();
    b
}

fn open(b: &Bank) -> Driver {
    match Driver::open(cfg(), b) {
        Ok(d) => d,
        Err(_) => panic!("valid"),
    }
}

fn hit(key: u8, vel: u8) -> Event {
    Event::NoteOn { ch: 0, key, vel }
}

#[test]
fn a_bad_configuration_is_refused() {
    let b = bank(&[0]);
    let r = Driver::open(Config { max_voices: 0, ..cfg() }, &b);
    assert!(matches!(r, Err(ConfigError::NoVoices)));
}

#[test]
fn a_note_becomes_a_command() {
    let b = bank(&[0]);
    let mut d = open(&b);
    assert!(d.has_room());
    d.begin_block(&b);
    match d.offer(&b, hit(60, 127), 20) {
        Offer::Taken(r) => assert!(!r.bend && !r.gain),
        _ => panic!("inside the block"),
    }
    d.close_rows(&b);
    d.close_block(&b, 0);
    assert_eq!(d.spawns.len(), 1);
    let c = d.spawns[0];
    assert_eq!((c.start_rel, c.ordinal, c.note_id_lo, c.variant), (20, 1, 1, 0));
    assert_eq!(c.gate_slot, GateTable::slot(0, 60) as u32);
    assert_eq!((c.step_hi, c.step_lo, c.smp_len), (1, 0, 100));
    assert_eq!(d.stats.notes, 1);
    assert_eq!(d.stats.voices_spawned, 1);
    assert!(d.settle(&b, 1, 0, 0));
    assert_eq!((d.stats.frames, d.stats.blocks), (64, 1));
}

#[test]
fn events_past_the_block_wait() {
    let b = bank(&[0]);
    let mut d = open(&b);
    d.begin_block(&b);
    assert_eq!(d.offer(&b, hit(60, 100), 64), Offer::Later);
    assert_eq!(d.stats.events, 0);
    assert_eq!(d.offer(&b, Event::Tempo(400_000), 1000), Offer::Tempo(400_000));
    assert_eq!(d.stats.events, 1);
    d.close_rows(&b);
    d.close_block(&b, 0);
    d.settle(&b, 0, 0, 0);
    d.begin_block(&b);
    assert!(matches!(d.offer(&b, hit(60, 100), 64), Offer::Taken(_)));
    // An event that is late starts with the block.
    assert!(matches!(d.offer(&b, hit(61, 100), 3), Offer::Taken(_)));
    d.close_block(&b, 0);
    assert_eq!(d.spawns[0].start_rel, 0);
    assert_eq!(d.spawns[1].start_rel, 0);
}

#[test]
fn a_full_pool_keeps_the_loudest() {
    let b = bank(&[0]);
    let mut d = open(&b);
    d.begin_block(&b);
    for v in [10u8, 120, 20, 110, 30, 100, 40, 90] {
        d.offer(&b, hit(60, v), 5);
    }
    // Four candidates may start beside none; one stratum for each of them.
    d.close_block(&b, 0);
    let mut got: Vec<f32> = d.spawns.iter().map(|c| f32::from_bits(c.gain_l) * 127.0).collect();
    got.sort_by(|a, b| a.total_cmp(b));
    let got: Vec<i32> = got.iter().map(|g| g.round() as i32).collect();
    assert_eq!(got, vec![90, 100, 110, 120]);
    assert_eq!((d.stats.last_want, d.stats.last_take, d.stats.dropped), (8, 4, 4));
    assert!(d.stats.last_take_energy < d.stats.last_want_energy);
}

#[test]
fn delayed_layers_start_in_their_own_block() {
    let b = bank(&[0, 10, 100]);
    let mut d = open(&b);
    d.begin_block(&b);
    d.offer(&b, hit(60, 100), 20);
    d.close_rows(&b);
    d.close_block(&b, 0);
    let rels: Vec<u32> = d.spawns.iter().map(|c| c.start_rel).collect();
    assert_eq!(rels, vec![20, 30]);
    assert_eq!(d.deferred.len(), 1);
    assert_eq!(d.deferred[0].frame, 120);
    d.end_of_stream(&b);
    assert!(d.settle(&b, 0, 0, 0), "a voice is still to come");
    d.begin_block(&b);
    d.close_rows(&b);
    d.close_block(&b, 2);
    assert_eq!(d.spawns.len(), 1);
    assert_eq!((d.spawns[0].start_rel, d.spawns[0].note_id_lo), (56, 3));
    assert!(!d.settle(&b, 0, 0, 0));
}

#[test]
fn controllers_ask_for_arithmetic() {
    let b = bank(&[0]);
    let mut d = open(&b);
    d.begin_block(&b);
    match d.offer(&b, Event::PitchBend { ch: 3, val: 4096 }, 20) {
        Offer::Taken(r) => {
            assert_eq!((r.ch, r.rel, r.bend, r.gain), (3, 20, true, false));
            d.set_bend(&b, r.ch, 0x0123_4567, r.rel);
        }
        _ => panic!("inside the block"),
    }
    match d.offer(&b, Event::Cc { ch: 3, num: 7, val: 1 }, 20) {
        Offer::Taken(r) => {
            assert!(r.gain && !r.bend);
            d.set_gain(&b, r.ch, 1, 2, r.rel);
        }
        _ => panic!("inside the block"),
    }
    d.close_rows(&b);
    d.chan.refresh_active();
    assert_eq!(d.chan.row(2)[3 * CHAN_FIELDS + CHAN_BEND], 0x0123_4567);
    assert_eq!(d.chan.gains_at(3, 3), (1, 2));
    assert!(!d.watches_variants());
}

#[test]
fn sound_controllers_build_a_copy() {
    let b = bank(&[0]);
    let mut d = open(&b);
    d.begin_block(&b);
    d.offer(&b, Event::Cc { ch: 0, num: 74, val: 100 }, 10);
    d.offer(&b, hit(60, 100), 10);
    let builds = d.take_builds(&b);
    assert_eq!(builds.len(), 1);
    assert_eq!((builds[0].slot, builds[0].sound.brightness), (1, 100));
    d.close_rows(&b);
    d.chan.refresh_active();
    assert!(d.watches_variants());
    d.close_block(&b, 0);
    assert_eq!(d.spawns[0].variant, 1, "born under the controller of its own tick");
    // A reset moves the channel back to the untouched copy.
    d.offer(&b, Event::Cc { ch: 0, num: 121, val: 0 }, 12);
    d.offer(&b, hit(60, 100), 12);
    assert_eq!(d.channels[0].sound.brightness, 64);
}

#[test]
fn the_end_releases_everything_once() {
    let b = bank(&[0]);
    let mut d = open(&b);
    d.begin_block(&b);
    d.offer(&b, hit(60, 100), 0);
    d.offer(&b, Event::Cc { ch: 0, num: 64, val: 127 }, 0);
    d.offer(&b, Event::NoteOff { ch: 0, key: 60 }, 1);
    assert_eq!(d.gates.sounding(), 1);
    d.end_of_stream(&b);
    assert_eq!(d.gates.sounding(), 0);
    assert!(d.stream_done && d.end_sent);
    d.close_rows(&b);
    d.close_block(&b, 0);
    // The tail is bounded: sixty seconds of blocks.
    assert_eq!(d.tail_left, 45_000);
    assert!(d.settle(&b, 1, 0, 0));
    d.tail_left = 1;
    assert!(!d.settle(&b, 1, 0, 0), "voices that will not die are given up on");
}

#[test]
fn percussion_has_its_own_bank() {
    let mut b = bank(&[0]);
    b.presets.push(Preset {
        bank: 128,
        program: 0,
        name: String::from("drums"),
        regions: vec![0],
        key_index: Vec::new(),
        key_regions: Vec::new(),
    });
    b.finish();
    let d = open(&b);
    assert_eq!(d.channels[9].preset, 1);
    assert_eq!(d.channels[0].preset, 0);
}

#[test]
fn two_runs_agree() {
    let run = || {
        let b = bank(&[0, 3]);
        let mut d = open(&b);
        d.begin_block(&b);
        for i in 0..40u8 {
            d.offer(&b, hit(30 + i, 1 + 3 * i), i as u64);
        }
        d.close_block(&b, 2);
        d.spawns.clone()
    };
    assert_eq!(run(), run());
}

#[test]
fn a_reset_is_the_start_of_file_state() {
    let b = bank(&[0]);
    let start = open(&b);
    let mut d = open(&b);
    d.begin_block(&b);
    let cc = |num: u8, val: u8| Event::Cc { ch: 3, num, val };
    d.offer(&b, cc(64, 127), 0);
    d.offer(&b, Event::NoteOn { ch: 3, key: 60, vel: 90 }, 0);
    d.offer(&b, Event::NoteOff { ch: 3, key: 60 }, 1);
    for (n, v) in [
        (0, 5), (32, 6), (99, 1), (98, 2), (7, 3), (10, 4), (11, 5), (1, 6), (33, 7), (67, 127),
        (71, 1), (72, 2), (73, 3), (74, 4), (75, 5), (76, 6), (77, 7), (92, 8), (66, 127),
    ] {
        d.offer(&b, cc(n, v), 2);
    }
    d.offer(&b, Event::PitchBend { ch: 3, val: 4096 }, 2);
    d.offer(&b, Event::Cc { ch: 4, num: 7, val: 9 }, 2);
    assert_ne!(d.channels[3], start.channels[3]);
    assert_eq!(d.gates.sounding(), 1);
    let others = d.channels[4];
    match d.offer(&b, cc(121, 0), 16) {
        Offer::Taken(r) => assert!(r.bend && r.gain && r.ch == 3),
        _ => panic!("inside the block"),
    }
    assert_eq!(d.channels[3], start.channels[3]);
    assert_eq!(d.channels[4], others);
    assert!(!d.gates.sustained(3));
    assert_eq!(d.gates.sounding(), 0);
}

#[test]
fn a_channel_powers_on_at_the_configured_volume() {
    let b = bank(&[0]);
    let d = open(&b);
    assert!(!d.opening(&b, 3).gain, "full volume is unity");
    let quiet = Config { default_channel_volume: 100, ..cfg() };
    let mut d = match Driver::open(quiet, &b) {
        Ok(d) => d,
        Err(_) => panic!("valid"),
    };
    assert_eq!(d.channels[3].volume, 100);
    let r = d.opening(&b, 3);
    assert_eq!((r.ch, r.rel, r.bend, r.gain), (3, 0, false, true));
    d.set_gain(&b, 3, 11, 12, r.rel);
    d.begin_block(&b);
    d.close_rows(&b);
    for t in 0..d.chan.tiles {
        assert_eq!(d.chan.gains_at(3, t), (11, 12), "from the first frame on");
    }
}
