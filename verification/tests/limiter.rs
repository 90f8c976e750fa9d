use kestrel::brickwall::{Brickwall, PeakWindow, Ring};
use kestrel::limiter::{block_peak, clamp_block, first_non_finite};

fn bits(v: &[f32]) -> Vec<u32> {
    v.iter().map(|x| x.to_bits()).collect()
}

#[test]
fn the_clamp_moves_only_what_is_out_of_range() {
    let mut b = bits(&[0.5, 1.0, -1.0, 1.5, -2.0, f32::INFINITY, -0.0]);
    assert_eq!(clamp_block(&mut b), 3);
    assert_eq!(b, bits(&[0.5, 1.0, -1.0, 1.0, -1.0, 1.0, -0.0]));
    assert_eq!(clamp_block(&mut b), 0);
    let mut b = vec![f32::NAN.to_bits()];
    assert_eq!(clamp_block(&mut b), 0);
    assert_eq!(b[0], f32::NAN.to_bits());
}

#[test]
fn the_first_bad_sample_is_found() {
    assert_eq!(first_non_finite(&bits(&[0.0, 1.0])), None);
    assert_eq!(first_non_finite(&bits(&[0.0, f32::NAN, f32::INFINITY])), Some(1));
    assert_eq!(first_non_finite(&bits(&[-f32::INFINITY])), Some(0));
    assert_eq!(first_non_finite(&Vec::new()), None);
}

#[test]
fn a_ring_delays() {
    let mut r = Ring::new(3, 0u64);
    let out: Vec<u64> = (1..=6).map(|i| r.swap(i)).collect();
    assert_eq!(out, vec![0, 0, 0, 1, 2, 3]);
}

#[test]
fn the_window_holds_its_largest() {
    let xs = [3.0f64, 1.0, 4.0, 1.0, 5.0, 9.0, 2.0, 6.0, 5.0, 3.0, 5.0];
    let look = 2usize;
    let mut w = PeakWindow::new(look as u64);
    for (i, x) in xs.iter().enumerate() {
        let got = f64::from_bits(w.push(x.to_bits()));
        let from = i.saturating_sub(look);
        let want = xs[from..=i].iter().fold(0.0f64, |a, b| a.max(*b));
        assert_eq!(got, want, "step {i}");
    }
}

#[test]
fn frames_leave_after_the_latency() {
    let mut b = Brickwall::new(4, true);
    assert_eq!(b.latency(), 7);
    assert_eq!(Brickwall::new(4, false).latency(), 4);
    for i in 0..20u32 {
        let (out, env) = b.enter((i + 1, i + 101), (i as f64).to_bits());
        let want = if i < 7 { (0, 0) } else { (i - 6, i + 94) };
        assert_eq!(out, want);
        assert_eq!(f64::from_bits(env), i as f64);
    }
    assert_eq!(f64::from_bits(b.peak_in), 19.0);
    assert_eq!(f64::from_bits(b.average(0.5f64.to_bits())), 1.0);
    for _ in 0..4 {
        assert_eq!(f64::from_bits(b.average(0.25f64.to_bits())), 1.0);
    }
    assert_eq!(f64::from_bits(b.average(0.25f64.to_bits())), 0.5);
}

#[test]
fn a_peak_stays_in_every_window_until_its_frame_leaves() {
    let look = 5;
    let mut b = Brickwall::new(look, false);
    for t in 0..30usize {
        let peak = if t == 10 { 8.0f64 } else { 1.0 };
        let (_, env) = b.enter((0, 0), peak.to_bits());
        let inside = t >= 10 && t <= 10 + look;
        assert_eq!(f64::from_bits(env), if inside { 8.0 } else { 1.0 });
    }
}

#[test]
fn the_smallest_gain_is_kept() {
    let mut b = Brickwall::new(4, false);
    assert_eq!(f64::from_bits(b.min_gain), 1.0);
    for g in [1.0f64, 0.5, 0.75, f64::NAN, 0.25, 0.9] {
        b.applied(g.to_bits());
    }
    assert_eq!(f64::from_bits(b.min_gain), 0.25);
    b.enter((0, 0), 8.0f64.to_bits());
    b.average(0.1f64.to_bits());
    assert_eq!(f64::from_bits(b.min_gain), 0.25, "only what was applied counts");
}

#[test]
fn the_peak_is_the_largest_magnitude() {
    let bits = |v: &[f32]| v.iter().map(|x| x.to_bits()).collect::<Vec<u32>>();
    let peak = |v: &[f32]| f32::from_bits(block_peak(&bits(v)));
    assert_eq!(peak(&[0.5, -0.75, 0.25, -0.0]), 0.75);
    assert_eq!(peak(&[f32::NAN, 0.5, -f32::NAN]), 0.5);
    assert_eq!(peak(&[1.0, f32::NEG_INFINITY]), f32::INFINITY);
    assert_eq!(peak(&[]), 0.0);
}
