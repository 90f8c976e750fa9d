use kestrel::fixed::{Fixed, BEND_ONE};
use kestrel::voice::{admit_key, mix48, pack_spawns, rank_gain_q, spawn_pick, SpawnCmd};

#[test]
fn picks_spread_over_the_queue() {
    let p: Vec<usize> = (0..4).map(|i| spawn_pick(i, 10, 4)).collect();
    assert_eq!(p, vec![0, 2, 5, 7]);
    for i in 0..7 {
        assert_eq!(spawn_pick(i, 7, 7), i);
        assert!(spawn_pick(i, 100, 7) >= i);
    }
}

#[test]
fn loudness_is_the_top_of_the_pattern() {
    assert_eq!(rank_gain_q(0), 0);
    assert_eq!(rank_gain_q(f32::NAN.to_bits()), 0);
    assert_eq!(rank_gain_q((-1.0f32).to_bits()), 0);
    assert_eq!(rank_gain_q(1.0f32.to_bits()), 0x3f80);
    assert_eq!(rank_gain_q(f32::INFINITY.to_bits()), 0x7f80);
    // No clamp to saturate: louder than full scale still ranks higher.
    assert!(rank_gain_q(4.0f32.to_bits()) > rank_gain_q(2.0f32.to_bits()));
    assert!(rank_gain_q(1e-6f32.to_bits()) > rank_gain_q(1e-7f32.to_bits()));
}

#[test]
fn the_mix_scatters_and_never_repeats() {
    assert_eq!(mix48(0), 0);
    let m = 0x0000_ffff_ffff_ffffu64;
    let by_hand = |index: u64| {
        let mut z = index & m;
        z = (z ^ (z >> 24)) & m;
        z = z.wrapping_mul(0x9e37_79b9_7f4b) & m;
        z = (z ^ (z >> 23)) & m;
        z = z.wrapping_mul(0xbf58_476d_1ce5) & m;
        (z ^ (z >> 25)) & m
    };
    let mut seen: Vec<u64> = Vec::new();
    for i in [1u64, 2, 3, 4, 1000, 0xffff_ffff, m, m + 1, u64::MAX] {
        assert_eq!(mix48(i), by_hand(i));
    }
    for i in 0..2000u64 {
        seen.push(mix48(i));
    }
    seen.sort();
    seen.dedup();
    assert_eq!(seen.len(), 2000);
    // Parity of the place carries no rank.
    let even: u64 = (0..1000).filter(|i| mix48(2 * i) > mix48(2 * i + 1)).count() as u64;
    assert!(even > 400 && even < 600);
}

#[test]
fn amplitude_decides_before_place() {
    let loud = 1.0f32.to_bits();
    let soft = 0.5f32.to_bits();
    for i in 0..50 {
        assert!(admit_key(loud, i) > admit_key(soft, 49 - i));
        assert_ne!(admit_key(loud, i), admit_key(loud, i + 1));
    }
    assert_eq!(admit_key(loud, 5), (0x3f80 << 48) | mix48(5));
}

#[test]
fn commands_are_packed_in_order() {
    let c = SpawnCmd {
        phase_lo: 1,
        phase_hi: 2,
        params: 10,
        gain_l: 18,
        gain_r: 19,
        ..Default::default()
    };
    let w = pack_spawns(&vec![SpawnCmd::default(), c]);
    assert_eq!(w.len(), 38);
    assert_eq!(&w[..19], &[0u32; 19]);
    assert_eq!((w[19], w[20], w[28], w[36], w[37]), (1, 2, 10, 18, 19));
}

#[test]
fn fixed_point_parts() {
    let f = Fixed::from_parts(7, 9);
    assert_eq!((f.hi(), f.lo()), (7, 9));
    assert_eq!(Fixed::from_int(3).0, 3u64 << 32);
    assert_eq!(Fixed(u64::MAX).wrapping_add(Fixed(2)).0, 1);
    assert_eq!(f.scale(BEND_ONE), f);
    assert_eq!(Fixed::from_int(6).scale(BEND_ONE / 2), Fixed::from_int(3));
}
