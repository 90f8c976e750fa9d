use kestrel::bank::{
    Bank, Gain, LoopMode, Pitch, Preset, PreviewLayer, Region, RegionMath, SampleInfo,
    VoiceSpawn, VF_LOOP, VF_LOOP_UNTIL_RELEASE, VF_ONE_SHOT,
};
use kestrel::fixed::Fixed;

fn sample(len: u32) -> SampleInfo {
    SampleInfo {
        start: 100,
        len,
        loop_start: 10,
        loop_end: 90,
        rate: 48000,
        root_key: 60,
        correction_cents: 0,
        resample_ratio: 1.0f32.to_bits(),
        name: String::from("s"),
    }
}

fn math() -> RegionMath {
    RegionMath {
        pitches: (0..128)
            .map(|k| Pitch { ratio: 1.0f64.to_bits(), step: (1u64 << 32) + k })
            .collect(),
        gains: (0..256u32).map(|v| Gain { l: v, r: v + 1000, loud: 2 * v }).collect(),
        start: 0,
        end: 0,
        loop_start: 0,
        loop_end: 0,
        delay_frames: 0,
    }
}

fn preset(bank: u16, program: u16, regions: Vec<u32>) -> Preset {
    Preset {
        bank,
        program,
        name: String::from("p"),
        regions,
        key_index: Vec::new(),
        key_regions: Vec::new(),
    }
}

fn bank(regions: Vec<Region>, samples: Vec<SampleInfo>, maths: Vec<RegionMath>) -> Bank {
    let all: Vec<u32> = (0..regions.len() as u32).collect();
    let mut b = Bank {
        pool: vec![0; 5],
        pool_rate: 48000,
        samples,
        regions,
        params: Vec::new(),
        presets: vec![preset(0, 0, all)],
        index: Vec::new(),
        name: String::from("b"),
        math: Vec::new(),
        key_ok: Vec::new(),
    };
    b.build_params();
    b.build_admission_tables(maths);
    b.finish();
    b
}

#[test]
fn loop_modes_have_flags() {
    assert_eq!(LoopMode::NoLoop.flags(), 0);
    assert_eq!(LoopMode::Continuous.flags(), VF_LOOP);
    assert_eq!(LoopMode::UntilRelease.flags(), VF_LOOP | VF_LOOP_UNTIL_RELEASE);
}

#[test]
fn presets_are_found_the_way_hardware_falls_back() {
    let mut b = bank(vec![], vec![], vec![]);
    b.presets = vec![
        preset(0, 5, vec![]),
        preset(128, 3, vec![]),
        preset(0, 0, vec![]),
        preset(8, 5, vec![]),
    ];
    b.finish();
    assert_eq!(b.find_preset(8, 5), Some(3));
    assert_eq!(b.find_preset(9, 5), Some(0), "the same program in bank zero");
    assert_eq!(b.find_preset(128, 77), Some(1), "drums fall back to drums");
    assert_eq!(b.find_preset(4, 77), Some(2), "then anything at all");
    b.presets = Vec::new();
    b.finish();
    assert_eq!(b.find_preset(0, 0), None);
}

#[test]
fn regions_answer_keys_and_velocities() {
    let low = Region { key_hi: 59, ..Default::default() };
    let soft = Region { key_lo: 60, vel_hi: 63, ..Default::default() };
    let loud = Region { key_lo: 60, vel_lo: 64, ..Default::default() };
    let b = bank(vec![low, soft, loud], vec![sample(100)], vec![math(), math(), math()]);
    let layers = |key: u8, vel: u8, max: usize| {
        let mut out: Vec<VoiceSpawn> = Vec::new();
        b.note_on(0, key, vel, max, &mut out);
        out.iter().map(|v| v.region).collect::<Vec<u32>>()
    };
    assert_eq!(layers(10, 100, 16), vec![0]);
    assert_eq!(layers(60, 63, 16), vec![1]);
    assert_eq!(layers(127, 64, 16), vec![2]);
    assert_eq!(layers(200, 64, 16), vec![2], "a key past the last is the last");
    assert_eq!(layers(60, 63, 0), Vec::<u32>::new());
    let mut out: Vec<VoiceSpawn> = Vec::new();
    b.note_on(9, 60, 63, 16, &mut out);
    assert!(out.is_empty(), "no such preset");
}

#[test]
fn the_preview_is_exact() {
    let mut broken = math();
    broken.pitches[60].ratio = f64::INFINITY.to_bits();
    let missing = Region { sample: 7, ..Default::default() };
    let delayed = RegionMath { delay_frames: 12, ..math() };
    let b = bank(
        vec![Region::default(), missing, Region::default(), Region::default()],
        vec![sample(100)],
        vec![math(), math(), broken, delayed],
    );
    for key in [59u8, 60, 61] {
        for vel in [0u8, 64, 127] {
            let mut voices: Vec<VoiceSpawn> = Vec::new();
            b.note_on(0, key, vel, 16, &mut voices);
            let mut seen: Vec<PreviewLayer> = Vec::new();
            b.preview_note_on(0, key, vel, 16, &mut seen);
            assert_eq!(voices.len(), if key == 60 { 2 } else { 3 });
            assert_eq!(voices.len(), seen.len());
            for (v, p) in voices.iter().zip(&seen) {
                assert_eq!(
                    (v.region, v.gain_l, v.gain_r, v.loud, v.delay_frames),
                    (p.region, p.gain_l, p.gain_r, p.loud, p.delay_frames)
                );
                assert_eq!(b.build_layer(p.region, key, vel), Some(*v));
            }
        }
    }
    assert_eq!(b.build_layer(1, 60, 64), None);
    assert_eq!(b.build_layer(99, 60, 64), None);
}

#[test]
fn offsets_are_clamped_to_the_sample() {
    let r = Region { loop_mode: LoopMode::Continuous, ..Default::default() };
    let wild = RegionMath { start: 1000, end: -30, loop_start: -50, loop_end: 50, ..math() };
    let tight = RegionMath { loop_start: 79, ..math() };
    let b = bank(vec![r, r], vec![sample(100)], vec![wild, tight]);
    let v = b.build_layer(0, 60, 64).unwrap();
    assert_eq!(v.phase, Fixed::from_int(99));
    assert_eq!((v.smp_base, v.smp_len), (100, 70));
    assert_eq!((v.loop_start, v.loop_end, v.flags), (0, 70, VF_LOOP));
    assert_eq!(v.step.0, (1u64 << 32) + 60);
    assert_eq!((v.gain_l, v.gain_r, v.loud), (64, 1064, 128));
    let v = b.build_layer(1, 60, 64).unwrap();
    assert_eq!((v.loop_start, v.loop_end, v.flags), (89, 90, 0), "one frame is no loop");
}

#[test]
fn params_blocks_are_laid_end_to_end() {
    let keyed = Region { keynum_to_decay: 5, ..Default::default() };
    let opening = Region {
        vel_lo: 20,
        vel_hi: 29,
        filter_veltrack_cents: 9600.0f32.to_bits(),
        ..Default::default()
    };
    let plain = Region::default();
    let mut b = bank(
        vec![keyed, opening, plain],
        vec![sample(100)],
        vec![math(), math(), math()],
    );
    assert_eq!(b.build_params(), 139);
    assert_eq!(b.regions.iter().map(|r| r.params_base).collect::<Vec<u32>>(), vec![0, 128, 138]);
    let plan = b.plan_params();
    assert_eq!(plan.len(), 139);
    assert_eq!((plan[64].region, plan[64].key, plan[64].vel), (0, 64, 0));
    assert_eq!((plan[131].region, plan[131].key, plan[131].vel), (1, 60, 23));
    assert_eq!(plan[138].region, 2);
    assert_eq!(b.build_layer(0, 64, 1).unwrap().params, 64);
    assert_eq!(b.build_layer(1, 64, 25).unwrap().params, 133);
    assert_eq!(b.build_layer(1, 64, 127).unwrap().params, 137);
    assert_eq!(b.build_layer(2, 64, 1).unwrap().params, 138);
    assert_eq!(b.pool_bytes(), 10);
}

#[test]
fn the_blank_region_is_open() {
    let r = Region::default();
    assert_eq!((r.key_lo, r.key_hi, r.vel_lo, r.vel_hi), (0, 127, 0, 127));
    assert_eq!(f32::from_bits(r.attack), 0.001);
    assert_eq!(f32::from_bits(r.filter_fc_cents), 13500.0);
    assert_eq!(f32::from_bits(r.amp_veltrack), 100.0);
    assert_eq!((r.root_key_override, r.scale_tuning, r.params_vel_span), (-1, 100, 1));
}

#[test]
fn one_shot_regions_ignore_the_note_off() {
    let r = Region { one_shot: true, ..Default::default() };
    let looped = Region { one_shot: true, loop_mode: LoopMode::Continuous, ..Default::default() };
    let b = bank(vec![r, looped], vec![sample(100)], vec![math(), math()]);
    assert_eq!(b.build_layer(0, 60, 64).unwrap().flags, VF_ONE_SHOT);
    assert_eq!(b.build_layer(1, 60, 64).unwrap().flags, VF_ONE_SHOT);
    assert!(!Region::default().one_shot);
}

#[test]
fn any_velocity_byte_can_be_asked_for() {
    let wide = Region { vel_hi: 255, ..Default::default() };
    let b = bank(vec![wide, Region::default()], vec![sample(100)], vec![math(), math()]);
    assert_eq!(b.build_layer(0, 60, 200).unwrap().gain_l, 200);
    assert_eq!(b.build_layer(1, 60, 255).unwrap().gain_l, 255);
    let mut out = Vec::new();
    b.note_on(0, 60, 200, 16, &mut out);
    assert_eq!(out.iter().map(|v| v.region).collect::<Vec<u32>>(), vec![0]);
    let b = bank(vec![Region::default()], vec![sample(100)], vec![math()]);
    let mut seen = Vec::new();
    b.preview_note_on(0, 60, 200, 16, &mut seen);
    assert!(seen.is_empty());
}
