use kestrel::admission::{
    apply_rule, note_pack, note_unpack, rank_candidates, sum_energy, thin_evenly, Cand, NoteOn,
    DEFERRED,
};
use kestrel::config::AdmitRule;
use kestrel::select::select_top;
use kestrel::voice::admit_key;

fn cands(n: u32, loud: fn(u32) -> f32) -> Vec<Cand> {
    (0..n)
        .map(|i| Cand {
            key: admit_key(loud(i).to_bits(), i as u64),
            note: i,
            region: 0,
            id_off: i,
        })
        .collect()
}

#[test]
fn notes_pack_and_unpack() {
    let n = NoteOn { ch: 15, key: 127, vel: 1, variant: 63, rel: 65535 };
    let w = note_pack(n);
    assert_eq!(w, 15 | (127 << 4) | (1 << 11) | (63 << 18) | (65535 << 24));
    assert_eq!(note_unpack(w), n);
    let n = NoteOn { ch: 0, key: 60, vel: 100, variant: 0, rel: 17 };
    assert_eq!(note_unpack(note_pack(n)), n);
}

#[test]
fn ranking_keeps_the_loudest_of_each_stratum() {
    // Two candidates a stratum; the second of each pair is louder.
    let mut c = cands(128, |i| if i % 2 == 1 { 1.0 } else { 0.5 });
    rank_candidates(&mut c, 64);
    let mut kept: Vec<u32> = c[..64].iter().map(|c| c.note).collect();
    kept.sort();
    assert_eq!(kept, (0..64).map(|i| 2 * i + 1).collect::<Vec<u32>>());
}

#[test]
fn ranking_never_reaches_into_the_next_stratum() {
    // More is asked of some strata than they hold.
    let mut c = cands(67, |_| 1.0);
    rank_candidates(&mut c, 66);
    let mut all: Vec<u32> = c.iter().map(|c| c.note).collect();
    all.sort();
    assert_eq!(all, (0..67).collect::<Vec<u32>>());
    let mut kept: Vec<u32> = c[..66].iter().map(|c| c.note).collect();
    kept.sort();
    kept.dedup();
    assert_eq!(kept.len(), 66);
}

#[test]
fn few_survivors_make_few_strata() {
    let mut c = cands(10, |i| i as f32 + 1.0);
    rank_candidates(&mut c, 2);
    let kept: Vec<u32> = c[..2].iter().map(|c| c.note).collect();
    assert_eq!(kept, vec![4, 9]);
}

#[test]
fn thinning_keeps_the_timing() {
    let mut c = cands(10, |_| 1.0);
    thin_evenly(&mut c, 4);
    let kept: Vec<u32> = c[..4].iter().map(|c| c.note).collect();
    assert_eq!(kept, vec![0, 2, 5, 7]);
}

#[test]
fn a_roomy_block_is_left_alone() {
    for rule in [AdmitRule::Loudest, AdmitRule::Even] {
        let mut c = cands(10, |i| (10 - i) as f32);
        apply_rule(&mut c, rule, 10);
        let order: Vec<u32> = c.iter().map(|c| c.note).collect();
        assert_eq!(order, (0..10).collect::<Vec<u32>>());
        apply_rule(&mut c, rule, 0);
        assert_eq!(c[0].note, 0);
    }
}

#[test]
fn energy_adds_the_loudness_fields() {
    let c = cands(3, |i| [1.0, 2.0, 0.5][i as usize]);
    assert_eq!(sum_energy(&c, 0), 0);
    assert_eq!(sum_energy(&c, 2), 0x3f80 + 0x4000);
    assert_eq!(sum_energy(&c, 3), 0x3f80 + 0x4000 + 0x3f00);
    assert_eq!(DEFERRED, u32::MAX);
}

#[test]
fn selection_partitions() {
    let mut c = cands(200, |i| ((i * 37) % 101) as f32 + 1.0);
    select_top(&mut c, 50, 150, 30);
    let worst_in = c[50..80].iter().map(|c| c.key).min();
    let best_out = c[80..150].iter().map(|c| c.key).max();
    assert!(worst_in > best_out);
    assert_eq!(c[0].note, 0);
    assert_eq!(c[199].note, 199);
}
