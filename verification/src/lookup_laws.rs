//! Which regions a note finds, which preset a program finds, and which constants
//! a region gets.

use crate::bank::{
    base_of, blank_region, block_len, covering, covers, entry_at, first_match, laid_out, per_key,
    resolved, vel_span, Bank, IndexEntry, LoopMode, Region,
};
use crate::fbits::mag32;
use vstd::prelude::*;

verus! {

/// A region sounds on the keys from its lowest to its highest, both of them in.
pub proof fn law_a_region_covers_its_keys(r: Region, key: int)
    ensures
        covers(r, r.key_lo as int) <==> r.key_lo <= r.key_hi,
        covers(r, r.key_hi as int) <==> r.key_lo <= r.key_hi,
        covers(r, key) <==> !(key < r.key_lo) && !(key > r.key_hi),
{
}

/// The index of a key names the preset's regions that cover it, all of them and no
/// other, in the preset's order.
pub proof fn law_the_index_names_every_region(
    preset: Seq<u32>,
    regions: Seq<Region>,
    key: int,
    n: int,
    i: int,
)
    requires
        0 <= n <= preset.len(),
        0 <= i < n,
    ensures
        ({
            let c = covering(preset, regions, key, n);
            let r = regions[preset[i] as int];
            &&& r.key_lo <= key <= r.key_hi ==> c.contains(preset[i])
            &&& forall|j: int|
                0 <= j < c.len() ==> regions[#[trigger] c[j] as int].key_lo <= key
                    <= regions[c[j] as int].key_hi && preset.contains(c[j])
            &&& c.len() <= n
        }),
    decreases n,
{
    let before = covering(preset, regions, key, n - 1);
    let c = covering(preset, regions, key, n);
    if n - 1 > 0 {
        if i < n - 1 {
            law_the_index_names_every_region(preset, regions, key, n - 1, i);
        } else {
            law_the_index_names_every_region(preset, regions, key, n - 1, 0);
        }
    } else {
        assert(before.len() == 0);
    }
    let last = regions[preset[n - 1] as int];
    if last.key_lo <= key <= last.key_hi {
        assert(c == before.push(preset[n - 1]));
        assert(c.last() == preset[n - 1]);
        if i < n - 1 && before.contains(preset[i]) {
            let j = choose|j: int| 0 <= j < before.len() && before[j] == preset[i];
            assert(c[j] == preset[i]);
        }
    }
    assert forall|j: int| 0 <= j < c.len() implies regions[#[trigger] c[j] as int].key_lo <= key
        <= regions[c[j] as int].key_hi && preset.contains(c[j]) by {
        if j < before.len() {
            assert(c[j] == before[j]);
        } else {
            assert(c[j] == preset[n - 1]);
        }
    }
}

/// A list without a region that covers the key gains nothing, and one more that
/// does gains it at the end: the index keeps the preset's order.
pub proof fn law_the_index_keeps_the_order(
    preset: Seq<u32>,
    regions: Seq<Region>,
    key: int,
    n: int,
)
    requires
        0 < n <= preset.len(),
    ensures
        ({
            let r = regions[preset[n - 1] as int];
            let c = covering(preset, regions, key, n);
            let b = covering(preset, regions, key, n - 1);
            &&& r.key_lo <= key <= r.key_hi ==> c.len() == b.len() + 1 && c.drop_last() == b
                && c.last() == preset[n - 1]
            &&& !(r.key_lo <= key <= r.key_hi) ==> c == b
        }),
{
    let b = covering(preset, regions, key, n - 1);
    assert(b.push(preset[n - 1]).drop_last() =~= b);
}

proof fn lemma_all_answer(
    bank: Bank,
    list: Seq<u32>,
    key: u8,
    vel: u8,
    max: int,
    n: int,
    i: int,
)
    requires
        0 <= i < n <= list.len(),
        bank.answers(list[i] as int, key, vel),
        bank.answering(list, key, vel, max, n).len() < max,
    ensures
        bank.answering(list, key, vel, max, n).contains(list[i]),
    decreases n,
{
    let got = bank.answering(list, key, vel, max, n - 1);
    let all = bank.answering(list, key, vel, max, n);
    if i < n - 1 {
        lemma_all_answer(bank, list, key, vel, max, n - 1, i);
        let j = choose|j: int| 0 <= j < got.len() && got[j] == list[i];
        assert(all[j] == list[i]);
    } else {
        assert(all.last() == list[i]);
    }
}

/// Every region of the key that answers the velocity and can be built is a layer
/// of the note, until there are as many as there may be.
pub proof fn law_every_answering_region_is_a_layer(
    bank: Bank,
    preset: u32,
    key: u8,
    vel: u8,
    max: int,
    i: int,
)
    requires
        preset < bank.presets@.len(),
        key < 128,
        0 <= i < bank.presets@[preset as int].on_key(key as int).len(),
        bank.layers(preset, key, vel, max).len() < max,
        ({
            let r = bank.presets@[preset as int].on_key(key as int)[i] as int;
            let g = bank.regions@[r];
            &&& g.vel_lo <= vel <= g.vel_hi
            &&& g.sample < bank.samples@.len()
            &&& bank.samples@[g.sample as int].len > 0
            &&& 0 < bank.math@[r].pitches@[key as int].ratio < 0x7ff0_0000_0000_0000
        }),
    ensures
        bank.layers(preset, key, vel, max).contains(
            bank.presets@[preset as int].on_key(key as int)[i],
        ),
{
    let list = bank.presets@[preset as int].on_key(key as int);
    lemma_all_answer(bank, list, key, vel, max, list.len() as int, i);
}

/// A region can be built on a key where its sample exists and is not empty and its
/// pitch there is a number above nought; nothing else has a say.
pub proof fn law_what_can_be_built(bank: Bank, r: int, k: u8, vel: u8)
    requires
        k < 128,
    ensures
        bank.voice_of(r, k, vel) is Some <==> {
            &&& bank.regions@[r].sample < bank.samples@.len()
            &&& bank.samples@[bank.regions@[r].sample as int].len > 0
            &&& bank.math@[r].pitches@[k as int].ratio > 0
            &&& bank.math@[r].pitches@[k as int].ratio < 0x7ff0_0000_0000_0000
        },
        bank.preview_of(r, vel).loud == bank.math@[r].gains@[vel as int].loud,
        bank.preview_of(r, vel).gain_l == bank.math@[r].gains@[vel as int].l,
        bank.preview_of(r, vel).gain_r == bank.math@[r].gains@[vel as int].r,
        bank.preview_of(r, vel).delay_frames == bank.math@[r].delay_frames,
{
}

/// A key byte past the keyboard plays the last key; a preset that does not exist
/// has no layers.
pub proof fn law_keys_and_presets_past_the_end(bank: Bank, preset: u32, key: u8, vel: u8, max: int)
    ensures
        key <= 127 ==> Bank::key_of(key) == key,
        key > 127 ==> Bank::key_of(key) == 127,
        key >= 127 ==> bank.layers(preset, key, vel, max) == bank.layers(preset, 127, vel, max),
        preset >= bank.presets@.len() ==> bank.layers(preset, key, vel, max).len() == 0,
{
}

/// Without a preset for the program in the bank, in bank 0 or, for drums, in the
/// drum bank, the first preset of the index stands in.
pub proof fn law_anything_rather_than_nothing(index: Seq<IndexEntry>, bank: u16, program: u16)
    requires
        index.len() > 0,
        forall|i: int|
            0 <= i < index.len() ==> (#[trigger] index[i]).program != program || (index[i].bank
                != bank && index[i].bank != 0),
        bank == 128 ==> forall|i: int| 0 <= i < index.len() ==> (#[trigger] index[i]).bank != 128,
    ensures
        resolved(index, bank, program) == Some(index[0].preset),
{
    lemma_no_match(index, bank, program, false, 0);
    lemma_no_match(index, 0, program, false, 0);
    if bank == 128 {
        lemma_no_match(index, 128, 0, true, 0);
    }
}

proof fn lemma_no_match(index: Seq<IndexEntry>, bank: u16, program: u16, any: bool, from: int)
    requires
        0 <= from,
        forall|i: int|
            0 <= i < index.len() ==> (#[trigger] index[i]).bank != bank || (!any
                && index[i].program != program),
    ensures
        first_match(index, bank, program, any, from) is None,
    decreases index.len() - from,
{
    if from < index.len() {
        assert(index[from].bank != bank || (!any && index[from].program != program));
        lemma_no_match(index, bank, program, any, from + 1);
    }
}

/// How many constants a region has: one per velocity of its own where its filter
/// tracks velocity, one per key where its envelope depends on the key.
pub proof fn law_how_many_constants(r: Region)
    requires
        r.vel_lo <= r.vel_hi < 128,
    ensures
        mag32(r.filter_veltrack_cents) == 0 ==> vel_span(r) == 1,
        mag32(r.filter_veltrack_cents) != 0 ==> vel_span(r) == r.vel_hi - r.vel_lo + 1,
        per_key(r) <==> r.keynum_to_hold != 0 || r.keynum_to_decay != 0,
        per_key(r) ==> block_len(r) == 128 * vel_span(r),
        !per_key(r) ==> block_len(r) == vel_span(r),
        r.filter_veltrack_cents == 0 && r.keynum_to_hold == 0 && r.keynum_to_decay == 0
            ==> block_len(r) == 1,
{
}

/// The blocks of constants stand one behind the other, the first at the start.
pub proof fn law_constants_stand_in_a_row(regions: Seq<Region>, i: int)
    requires
        0 <= i,
    ensures
        base_of(regions, 0) == 0,
        base_of(regions, i + 1) == base_of(regions, i) + block_len(regions[i]),
{
}

/// A region is told where its constants are and nothing else about it changes.
pub proof fn law_laying_out_changes_nothing_else(r: Region, base: int)
    requires
        0 <= base <= u32::MAX,
        r.vel_lo <= r.vel_hi < 128,
    ensures
        ({
            let l = laid_out(r, base);
            &&& l.params_base == base
            &&& l.params_stride == (if per_key(r) { 1u32 } else { 0u32 })
            &&& l.params_vel_span == vel_span(r)
            &&& l == (Region {
                params_base: l.params_base,
                params_stride: l.params_stride,
                params_vel_span: l.params_vel_span,
                ..r
            })
        }),
{
}

/// The entries of a block: velocity by velocity from the region's lowest, and
/// within each key by key; middle C stands for every key where the key has no say.
pub proof fn law_entries_of_a_block(r: Region, index: int, v: int, k: int)
    requires
        0 <= index <= u32::MAX,
        0 <= v,
        0 <= k < 128,
        r.vel_lo + v <= 127,
    ensures
        r.params_stride != 0 ==> {
            let e = entry_at(r, index, v * 128 + k);
            e.region == index && e.key == k && e.vel == r.vel_lo + v
        },
        r.params_stride == 0 ==> {
            let e = entry_at(r, index, v);
            e.region == index && e.key == 60 && e.vel == r.vel_lo + v
        },
{
    vstd::arithmetic::div_mod::lemma_fundamental_div_mod_converse(v * 128 + k, 128, v, k);
}

/// The region a loader starts from plays every key and velocity once, untuned,
/// centred, through an open filter.
pub proof fn law_a_blank_region()
    ensures
        ({
            let r = blank_region();
            &&& r.key_lo == 0 && r.key_hi == 127 && r.vel_lo == 0 && r.vel_hi == 127
            &&& r.root_key_override == -1 && r.fixed_key == -1 && r.fixed_vel == -1
            &&& r.coarse_tune == 0 && r.fine_tune == 0 && r.scale_tuning == 100
            &&& r.attenuation_cb == 0 && r.amp_veltrack == 0x42c8_0000 && r.pan == 0
            &&& r.loop_mode == LoopMode::NoLoop && !r.one_shot
            &&& r.addr_start == 0 && r.addr_end == 0 && r.addr_loop_start == 0 && r.addr_loop_end
                == 0
            &&& r.exclusive_class == 0 && r.delay == 0 && r.hold == 0
            &&& r.attack == 0x3a83_126f && r.decay == 0x3a83_126f && r.release == 0x3a83_126f
            &&& r.sustain == 0x3f80_0000
            &&& r.keynum_to_hold == 0 && r.keynum_to_decay == 0
            &&& r.filter_fc_cents == 0x4652_f000 && r.filter_q_cb == 0 && r.filter_veltrack_cents
                == 0
            &&& r.params_vel_span == 1 && r.params_stride == 0
        }),
{
}

} // verus!
