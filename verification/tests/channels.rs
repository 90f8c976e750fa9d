use kestrel::channels::{
    ChannelTable, CHAN_BEND, CHAN_FIELDS, CHAN_GAIN_L, CHAN_GAIN_R, CHAN_VARIANT,
};
use kestrel::config::Config;
use kestrel::fixed::BEND_ONE;
use kestrel::gates::GateTable;

fn cfg() -> Config {
    Config { block_frames: 64, reduce_tile: 8, gate_frames: 16, ..Default::default() }
}

fn at(t: &ChannelTable, tile: usize, ch: usize, field: usize) -> u32 {
    t.row(tile)[ch * CHAN_FIELDS + field]
}

#[test]
fn rows_start_at_unity() {
    let t = ChannelTable::new(&cfg());
    assert_eq!(t.tiles, 4);
    assert_eq!(at(&t, 3, 15, CHAN_BEND), BEND_ONE);
    assert_eq!(at(&t, 0, 0, CHAN_GAIN_L), 1.0f32.to_bits());
    assert_eq!(at(&t, 0, 0, CHAN_VARIANT), 0);
    assert!(!t.any_active());
}

#[test]
fn a_bend_shows_from_the_tile_after_it() {
    let mut t = ChannelTable::new(&cfg());
    t.begin_block();
    t.set_bend(2, 0x0200_0000, 20); // tile 1
    t.end_block();
    t.refresh_active();
    assert_eq!(at(&t, 1, 2, CHAN_BEND), BEND_ONE);
    assert_eq!(at(&t, 2, 2, CHAN_BEND), 0x0200_0000);
    assert_eq!(at(&t, 3, 1, CHAN_BEND), BEND_ONE);
    assert!(t.bend_active() && !t.gain_active() && !t.variant_active());
    // Carried into the next block.
    t.begin_block();
    t.end_block();
    assert_eq!(at(&t, 0, 2, CHAN_BEND), 0x0200_0000);
}

#[test]
fn gains_and_variants_are_tracked_apart() {
    let mut t = ChannelTable::new(&cfg());
    t.begin_block();
    t.set_gain(0, 0.5f32.to_bits(), 0.25f32.to_bits(), 0);
    t.end_block();
    t.refresh_active();
    assert_eq!(t.gains_at(0, 1), (0.5f32.to_bits(), 0.25f32.to_bits()));
    assert!(t.gain_active() && !t.bend_active() && !t.variant_active());
    t.begin_block();
    t.set_gain(0, 1.0f32.to_bits(), 1.0f32.to_bits(), 0);
    t.set_variant(3, 7, 0);
    t.end_block();
    t.begin_block();
    t.end_block();
    t.refresh_active();
    assert!(!t.gain_active() && t.variant_active() && t.any_active());
    assert_eq!(at(&t, 0, 3, CHAN_VARIANT), 7);
}

#[test]
fn modulation_multiplies_one_tile() {
    let mut t = ChannelTable::new(&cfg());
    t.begin_block();
    t.set_bend(0, 0x0180_0000, 0);
    t.end_block();
    t.begin_block();
    t.end_block();
    t.modulate_bend(0, 1, 0x0080_0000);
    assert_eq!(at(&t, 0, 0, CHAN_BEND), 0x0180_0000);
    assert_eq!(at(&t, 1, 0, CHAN_BEND), 0x00c0_0000);
    t.modulate_bend(0, 2, 0);
    assert_eq!(at(&t, 2, 0, CHAN_BEND), 1, "never zero");
    t.modulate_gain(0, 3, 5, 6);
    assert_eq!((at(&t, 3, 0, CHAN_GAIN_L), at(&t, 3, 0, CHAN_GAIN_R)), (5, 6));
}

#[test]
fn the_gate_slot_names_the_channel() {
    for ch in 0..16u8 {
        assert_eq!(ChannelTable::channel_of(GateTable::slot(ch, 99) as u32), ch as usize);
    }
    assert_eq!(ChannelTable::channel_of(16 * 128), 0);
}
