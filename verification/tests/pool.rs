use kestrel::bank::{RegionParams, VF_LOOP, VF_LOOP_UNTIL_RELEASE, VF_ONE_SHOT};
use kestrel::config::{Config, Interpolation, StealRule};
use kestrel::cursor::{
    advance_index, advance_phase, next_stage, Cursor, Fade, Frame, ParamStore, TileControls,
};
use kestrel::fixed::{Fixed, BEND_ONE};
use kestrel::pool::{choose_victims, Pool};
use kestrel::voice::{
    SpawnCmd, ENV_ATTACK, ENV_DEAD, ENV_DECAY, ENV_RELEASE, ENV_SUSTAIN,
};

fn cmd(id: u64) -> SpawnCmd {
    SpawnCmd {
        note_id_lo: id as u32,
        note_id_hi: (id >> 32) as u32,
        step_hi: 1,
        smp_len: 100,
        ordinal: 1,
        ..Default::default()
    }
}

fn cfg(rule: StealRule) -> Config {
    Config {
        max_voices: 8,
        max_steal_percent: 25,
        steal_rule: rule,
        block_frames: 64,
        steal_fade_frames: 8,
        ..Default::default()
    }
}

fn filled(ids: &[u64]) -> Pool {
    let mut p = Pool::new();
    for i in ids {
        p.push(&cmd(*i));
    }
    p
}

#[test]
fn voices_start_silent_in_their_attack() {
    let mut p = Pool::new();
    p.push(&SpawnCmd { phase_hi: 2, phase_lo: 3, variant: 4, ..cmd((1 << 40) + 7) });
    let v = p.voices[0];
    assert_eq!((v.env_stage, v.env_level, v.born_variant, v.stop_rel), (ENV_ATTACK, 0, 5, 0));
    assert_eq!(v.phase, Fixed::from_parts(2, 3));
    assert_eq!(v.note_id, (1 << 40) + 7);
}

#[test]
fn a_roomy_pool_takes_everything() {
    let mut p = filled(&[1, 2]);
    p.spawn(&cfg(StealRule::Oldest), &vec![cmd(3), cmd(4)], &vec![0, 0]);
    assert_eq!((p.len(), p.stolen, p.dropped), (4, 0, 0));
}

#[test]
fn the_oldest_give_way_and_go_on_sounding() {
    let mut p = filled(&[5, 3, 8, 1, 9, 2, 7, 6]);
    let new: Vec<SpawnCmd> = (10..15).map(cmd).collect();
    p.spawn(&cfg(StealRule::Oldest), &new, &vec![0; 8]);
    // A quarter of eight.
    assert_eq!((p.stolen, p.dropped, p.len()), (2, 3, 10));
    let stopping: Vec<u64> =
        p.voices.iter().filter(|v| v.stop_rel != 0).map(|v| v.note_id).collect();
    assert_eq!(stopping, vec![1, 2]);
    assert_eq!(p.voices[3].stop_rel, 1 % 56 + 1);
    // Five commands, room for two, picked evenly.
    assert_eq!((p.voices[8].note_id, p.voices[9].note_id), (10, 12));
}

#[test]
fn the_quietest_give_way() {
    let mut p = filled(&[1, 2, 3, 4, 5, 6, 7, 8]);
    let levels = vec![900, 800, 5, 700, 600, 5, 500, 400];
    p.spawn(&cfg(StealRule::Quietest), &vec![cmd(9)], &levels);
    let stopping: Vec<u64> =
        p.voices.iter().filter(|v| v.stop_rel != 0).map(|v| v.note_id).collect();
    assert_eq!(stopping, vec![3], "the lower id of two as quiet");
}

#[test]
fn dropping_new_notes_kills_none() {
    let mut p = filled(&[1, 2, 3, 4, 5, 6, 7]);
    p.spawn(&cfg(StealRule::DropNew), &vec![cmd(8), cmd(9), cmd(10)], &vec![0; 7]);
    assert_eq!((p.len(), p.stolen, p.dropped), (8, 0, 2));
    assert_eq!(p.voices[7].note_id, 8);
}

#[test]
fn victims_are_the_smallest() {
    let mut v = choose_victims(&vec![9, 2, 7, 1, 8, 3], 3);
    v.sort();
    assert_eq!(v, vec![1, 3, 5]);
    assert!(choose_victims(&vec![], 0).is_empty());
}

#[test]
fn dead_voices_leave_in_order() {
    let mut p = filled(&[1, 2, 3, 4]);
    p.voices[1].env_stage = ENV_DEAD;
    p.retire();
    assert_eq!(p.voices.iter().map(|v| v.note_id).collect::<Vec<u64>>(), vec![1, 3, 4]);
    p.swap_remove_compact(&vec![false, true, false]);
    assert_eq!(p.voices[0].note_id, 3);
    assert_eq!(p.len(), 1);
    p.truncate(0);
    assert_eq!(p.len(), 0);
}

#[test]
fn neighbours_honour_the_loop() {
    assert_eq!(advance_index(9, 1, true, 4, 10, 20), 4);
    assert_eq!(advance_index(9, 2, true, 4, 10, 20), 5);
    assert_eq!(advance_index(4, -1, true, 4, 10, 20), 3);
    assert_eq!(advance_index(0, -1, true, 0, 10, 20), 0);
    assert_eq!(advance_index(19, 2, false, 4, 10, 20), 19);
    assert_eq!(advance_index(0, -1, false, 4, 10, 20), 0);
}

#[test]
fn the_phase_comes_round() {
    let p = advance_phase(Fixed::from_parts(9, 7), Fixed::from_int(3), true, 4, 10);
    assert_eq!(p, Fixed::from_parts(6, 7));
    let p = advance_phase(Fixed::from_parts(9, 7), Fixed::from_int(3), false, 4, 10);
    assert_eq!(p, Fixed::from_parts(12, 7));
}

#[test]
fn envelope_stages_follow_each_other() {
    assert_eq!(next_stage(ENV_ATTACK, false, false), ENV_ATTACK);
    assert_eq!(next_stage(ENV_ATTACK, true, false), ENV_DECAY);
    assert_eq!(next_stage(ENV_DECAY, true, false), ENV_SUSTAIN);
    assert_eq!(next_stage(ENV_DECAY, true, true), ENV_DEAD);
    assert_eq!(next_stage(ENV_SUSTAIN, true, true), ENV_SUSTAIN);
    assert_eq!(next_stage(ENV_RELEASE, true, false), ENV_DEAD);
    assert_eq!(next_stage(ENV_DEAD, true, true), ENV_DEAD);
}

fn quiet() -> TileControls {
    TileControls { bend_active: false, bend: BEND_ONE, variant_active: false, variant: 0 }
}

#[test]
fn a_voice_walks_through_its_block() {
    let mut p = filled(&[1]);
    p.voices[0].start_rel = 3;
    p.voices[0].smp_len = 5;
    let mut c = Cursor::begin(p.voices[0], 16);
    let t = c.enter_tile(0, 0, &quiet());
    assert!(!t.released && !t.reload);
    assert_eq!(c.frame(2), Frame::Wait);
    for f in 3..8 {
        assert_eq!(c.frame(f), Frame::Play);
        assert_eq!(c.taps(Interpolation::Linear, c.in_loop()).at, f - 3);
        assert_eq!(c.fade(f, 8), Fade::Full);
        c.advance(false);
    }
    assert_eq!(c.frame(8), Frame::Over, "the sample ran out");
    let v = c.end(0, 0, 0);
    assert_eq!((v.env_stage, v.start_rel, v.born_variant), (ENV_DEAD, 0, 0));
}

#[test]
fn a_note_off_releases_and_ends_the_loop() {
    let mut p = filled(&[1]);
    p.voices[0].flags = VF_LOOP + VF_LOOP_UNTIL_RELEASE;
    p.voices[0].loop_end = 10;
    let mut c = Cursor::begin(p.voices[0], 16);
    c.enter_tile(0, 0, &quiet());
    assert!(c.in_loop());
    let t = c.enter_tile(1, 1, &quiet());
    assert!(t.released);
    assert_eq!(c.stage, ENV_RELEASE);
    assert!(!c.in_loop());
    assert!(!c.enter_tile(2, 1, &quiet()).released, "once");
}

#[test]
fn a_voice_keeps_its_birth_variant_for_its_first_tile() {
    let mut p = Pool::new();
    p.push(&SpawnCmd { variant: 2, start_rel: 20, ..cmd(1) });
    let mut c = Cursor::begin(p.voices[0], 16);
    let row = TileControls { variant_active: true, variant: 5, ..quiet() };
    assert!(!c.enter_tile(1, 0, &row).reload);
    assert_eq!(c.variant, 2);
    assert!(c.enter_tile(2, 0, &row).reload);
    assert_eq!(c.variant, 5);
    let bent = TileControls { bend_active: true, bend: 2 * BEND_ONE, ..quiet() };
    c.enter_tile(3, 0, &bent);
    assert_eq!(c.step, Fixed::from_int(2));
}

#[test]
fn a_stolen_voice_fades() {
    let mut p = filled(&[1]);
    p.voices[0].stop_rel = 5;
    let mut c = Cursor::begin(p.voices[0], 16);
    assert_eq!(c.fade(3, 4), Fade::Full);
    assert_eq!(c.fade(4, 4), Fade::Partial(0));
    assert_eq!(c.fade(7, 4), Fade::Partial(3));
    assert_eq!(c.fade(8, 4), Fade::Silent);
    assert_eq!(c.stage, ENV_DEAD);
}

#[test]
fn params_fall_back_to_the_bank() {
    let entry = |x: u32| RegionParams {
        attack_rate: x,
        attack_end: 0,
        decay_coef: 0,
        decay_target: 0,
        sustain: 0,
        release_coef: 0,
        b0: 0,
        b1: 0,
        a1: 0,
        a2: 0,
        flags: 0,
        pad: 0,
    };
    let bank = vec![entry(1), entry(2)];
    let mut s = ParamStore::new();
    s.set(0, vec![entry(9)]);
    s.set(2, vec![entry(20), entry(21)]);
    assert_eq!(s.params_of(&bank, 0, 1).attack_rate, 2);
    assert_eq!(s.params_of(&bank, 2, 1).attack_rate, 21);
    assert_eq!(s.params_of(&bank, 1, 1).attack_rate, 2, "never uploaded");
    assert_eq!(s.params_of(&bank, 9, 0).attack_rate, 1);
}

#[test]
fn a_one_shot_voice_is_not_released() {
    let mut p = filled(&[1]);
    p.voices[0].flags = VF_ONE_SHOT;
    let mut c = Cursor::begin(p.voices[0], 16);
    assert!(!c.enter_tile(0, 5, &quiet()).released);
    assert_eq!(c.stage, ENV_ATTACK);
    for f in 0..100u32 {
        assert_eq!(c.frame(f), Frame::Play);
        c.advance(false);
    }
    assert_eq!(c.frame(100), Frame::Over, "it plays its sample out");
    assert_eq!(c.stage, ENV_DEAD);
}

#[test]
fn a_block_ends_inside_the_ceiling() {
    for rule in [StealRule::Oldest, StealRule::Quietest, StealRule::DropNew] {
        let cfg = Config { gate_frames: 16, reduce_tile: 8, ..cfg(rule) };
        let mut p = filled(&[5, 3, 8, 1, 9, 2, 7, 6]);
        let new: Vec<SpawnCmd> =
            (10..30).map(|i| SpawnCmd { smp_len: 1000, ..cmd(i) }).collect();
        for v in p.voices.iter_mut() {
            v.smp_len = 1000;
        }
        p.spawn(&cfg, &new, &vec![7; 8]);
        let take = cfg.admit_take(8, 20);
        assert_eq!(p.len() as u32, 8 + take);
        assert_eq!(p.dropped, 20 - take as u64);
        assert_eq!(p.stolen, if rule == StealRule::DropNew { 0 } else { 2 });
        for i in 0..p.len() {
            let mut c = Cursor::begin(p.voices[i], cfg.gate_frames);
            for f in 0..cfg.block_frames {
                if f % cfg.gate_frames == 0 {
                    c.enter_tile(f / cfg.gate_frames, 0, &quiet());
                }
                match c.frame(f) {
                    Frame::Wait => continue,
                    Frame::Over => break,
                    Frame::Play => {}
                }
                c.fade(f, cfg.steal_fade_frames);
                c.advance(false);
            }
            p.voices[i] = c.end(0, 0, 0);
        }
        let order: Vec<u64> = p.voices.iter().map(|v| v.note_id).collect();
        p.finish_block(&vec![0.25f32.to_bits(), (-0.5f32).to_bits()]);
        assert_eq!(f32::from_bits(p.peak), 0.5);
        assert_eq!(p.len(), 8);
        let gone: Vec<u64> = if rule == StealRule::DropNew { vec![] } else { vec![1, 2] };
        let left: Vec<u64> = p.voices.iter().map(|v| v.note_id).collect();
        let want: Vec<u64> = order.into_iter().filter(|i| !gone.contains(i)).collect();
        assert_eq!(left, want);
        assert!(p.voices.iter().all(|v| v.start_rel == 0 && v.stop_rel == 0));
    }
}
