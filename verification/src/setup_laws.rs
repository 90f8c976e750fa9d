//! What is set up before a render, and what is asked of it.

use crate::admission::{admitted, apply_rule, Cand};
use crate::bank::{
    base_of, block_len, entry_at, indexes, laid_out, planned, Bank, ParamEntry, Preset, Region,
    RegionParams, SampleInfo, VoiceSpawn,
};
use crate::brickwall::Brickwall;
use crate::channels::ChannelTable;
use crate::config::{AdmitRule, Config, ConfigError};
use crate::controls::{ChannelState, Sound};
use crate::cursor::ParamStore;
use crate::driver::Driver;
use crate::gates::GateTable;
use crate::gpu::Session;
use crate::lookup_laws::law_the_index_names_every_region;
use crate::opcodes::OpcodeSet;
use crate::pool::Pool;
use crate::report::Report;
use crate::sfz::{
    add_regions, assemble, note_unhandled, region_of, section_views, set_views, times_reported,
    Assembly, Decimals, Regions, Section, SfzError, Tally,
};
use crate::voice::{admit_key, gain_q, mix48, pack_spawns, SpawnCmd};
use crate::wav::{SampleFormat, WavWriter};
use vstd::prelude::*;

verus! {

/// A configuration is accepted exactly where it has no fault, and is refused for
/// the fault it has; what is accepted is in stereo, at a rate between 8 and 768 kHz.
pub proof fn law_checking_a_configuration(c: &Config, r: Result<(), ConfigError>)
    requires
        call_ensures(Config::validate, (c,), r),
    ensures
        r is Ok <==> c.fault() is None,
        r is Err ==> c.fault() == Some(r->Err_0),
        r is Ok ==> c.channels == 2 && 8_000 <= c.sample_rate <= 768_000 && c.block_frames > 0,
{
}

/// A driver opens for every configuration that has no fault, with every channel at
/// power-on and nothing to play.
pub proof fn law_opening_a_driver(cfg: Config, bank: &Bank, r: Result<Driver, ConfigError>, c: int)
    requires
        call_ensures(Driver::open, (cfg, bank), r),
        0 <= c < 16,
        cfg.default_channel_volume <= 127,
    ensures
        r is Ok <==> cfg.fault() is None,
        r is Err ==> cfg.fault() == Some(r->Err_0),
        r matches Ok(d) ==> {
            &&& d.cfg == cfg
            &&& d@.channels[c].volume == cfg.default_channel_volume
            &&& d@.channels[c].expression == 127 && d@.channels[c].pan == 64
            &&& d@.cands.len() == 0 && d@.spawns.len() == 0 && d@.deferred.len() == 0
            &&& !d@.gates.sustain[c] && !d@.gates.sostenuto[c]
            &&& d@.block_index == 0 && d@.next_note_id == 1 && !d@.stream_done
            &&& d@.stats.events == 0 && d@.stats.dropped == 0
        },
{
    crate::render_laws::law_how_a_render_starts(cfg, *bank, c, 0);
}

/// The end of the stream releases every note, the first time it is reached, and
/// leaves what is parked to start.
pub proof fn law_reaching_the_end(d: &mut Driver, bank: &Bank, i: int)
    requires
        call_ensures(Driver::end_of_stream, (d, bank), ()),
        old(d)@.gates.wf(),
        0 <= i < 2048,
    ensures
        final(d)@.stream_done && final(d)@.end_sent,
        !old(d)@.end_sent ==> final(d)@.gates.slots[i].off == old(d)@.gates.slots[i].on,
        old(d)@.end_sent ==> final(d)@.gates == old(d)@.gates,
        final(d)@.deferred == old(d)@.deferred && final(d)@.cands == old(d)@.cands,
        final(d)@.channels == old(d)@.channels,
{
    crate::render_laws::law_the_end_releases_every_note(old(d)@, i);
}

/// A preset is found by its own bank and program.
pub proof fn law_finding_a_preset(bank: &Bank, p: int, r: Option<u32>)
    requires
        indexes(bank.index@, bank.presets@, bank.presets@.len() as int),
        0 <= p < bank.presets@.len(),
        call_ensures(
            Bank::find_preset,
            (bank, bank.presets@[p].bank, bank.presets@[p].program),
            r,
        ),
    ensures
        r matches Some(q) && q <= p && bank.presets@[q as int].bank == bank.presets@[p].bank
            && bank.presets@[q as int].program == bank.presets@[p].program,
{
    crate::bank_laws::law_find_prefers_the_exact_pair(bank.index@, bank.presets@, p);
}

/// A layer is the voice of its region at its key, and a region that is not there
/// has none.
pub proof fn law_building_a_layer(
    bank: &Bank,
    region: u32,
    key: u8,
    vel: u8,
    r: Option<VoiceSpawn>,
)
    requires
        call_ensures(Bank::build_layer, (bank, region, key, vel), r),
    ensures
        region >= bank.regions@.len() ==> r is None,
        region < bank.regions@.len() && key < 128 ==> r == bank.voice_of(region as int, key, vel),
{
}

/// The index of a preset names, for each key, the preset's regions that cover it.
pub proof fn law_indexing_a_preset(p: &mut Preset, regions: &Vec<Region>, k: int, i: int)
    requires
        call_ensures(Preset::build_key_index, (p, regions), ()),
        0 <= k < 128,
        0 <= i < old(p).regions@.len(),
    ensures
        ({
            let r = regions@[old(p).regions@[i] as int];
            r.key_lo <= k <= r.key_hi ==> final(p).on_key(k).contains(old(p).regions@[i])
        }),
        forall|j: int|
            0 <= j < final(p).on_key(k).len() ==> regions@[#[trigger] final(p).on_key(
                k,
            )[j] as int].key_lo <= k <= regions@[final(p).on_key(k)[j] as int].key_hi,
        final(p).bank == old(p).bank && final(p).program == old(p).program,
        final(p).regions == old(p).regions,
{
    law_the_index_names_every_region(
        old(p).regions@,
        regions@,
        k,
        old(p).regions@.len() as int,
        i,
    );
}

/// The plan of the constants has every region's block, from its first entry to its
/// last, where the region looks for it, and nothing else.
pub proof fn law_planning_constants(bank: &Bank, plan: Vec<ParamEntry>, i: int, o: int)
    requires
        call_ensures(Bank::plan_params, (bank,), plan),
        0 <= i < bank.regions@.len(),
        0 <= o < block_len(bank.regions@[i]),
    ensures
        plan@[base_of(bank.regions@, i) + o] == entry_at(bank.regions@[i], i, o),
        plan@.len() == base_of(bank.regions@, bank.regions@.len() as int),
{
    assert(planned(plan@, bank.regions@, i));
}

/// Laying out the constants gives each region the place behind those before it, and
/// changes nothing else of any region.
pub proof fn law_placing_constants(bank: &mut Bank, n: u32, i: int)
    requires
        call_ensures(Bank::build_params, (bank,), n),
        0 <= i < old(bank).regions@.len(),
    ensures
        n == base_of(old(bank).regions@, old(bank).regions@.len() as int),
        final(bank).regions@.len() == old(bank).regions@.len(),
        final(bank).regions@[i] == laid_out(
            old(bank).regions@[i],
            base_of(old(bank).regions@, i),
        ),
        final(bank).regions@[i].key_lo == old(bank).regions@[i].key_lo,
        final(bank).regions@[i].key_hi == old(bank).regions@[i].key_hi,
        final(bank).regions@[i].sample == old(bank).regions@[i].sample,
        final(bank).regions@[i].loop_mode == old(bank).regions@[i].loop_mode,
        final(bank).pool == old(bank).pool && final(bank).samples == old(bank).samples,
        final(bank).presets == old(bank).presets,
{
}

/// What is installed as a variant is what the variant reads from then on; the
/// bank's own is read by variant zero, and the other variants keep theirs.
pub proof fn law_installing_a_variant(
    p: &mut ParamStore,
    q: &ParamStore,
    index: u32,
    data: Vec<RegionParams>,
    bank: &Vec<RegionParams>,
    variant: u32,
    place: usize,
    r: RegionParams,
    before: RegionParams,
)
    requires
        call_ensures(ParamStore::set, (p, index, data), ()),
        *q == *final(p),
        call_ensures(ParamStore::params_of, (q, bank, variant, place), r),
        before == old(p).at(bank@, variant, place as int),
    ensures
        variant == 0 ==> r == bank@[place as int],
        variant == index && index > 0 && place < data@.len() ==> r == data@[place as int],
        variant == index && index > 0 && place >= data@.len() ==> r == bank@[place as int],
        variant != index ==> r == before,
{
}

/// Merged opcodes are the second set's where it has them, else the first's.
pub proof fn law_merging_opcodes(a: &OpcodeSet, b: &OpcodeSet, r: OpcodeSet, k: Seq<char>)
    requires
        call_ensures(OpcodeSet::merged, (a, b), r),
    ensures
        r@.contains_key(k) <==> a@.contains_key(k) || b@.contains_key(k),
        b@.contains_key(k) ==> r@[k] == b@[k],
        a@.contains_key(k) && !b@.contains_key(k) ==> r@[k] == a@[k],
{
}

/// A copy of a set of opcodes is that set.
pub proof fn law_copying_opcodes(a: &OpcodeSet, r: OpcodeSet)
    requires
        call_ensures(OpcodeSet::copy, (a,), r),
    ensures
        r@ == a@,
{
}

/// Of two candidates, the one with the larger quantised amplitude has the larger
/// key, whatever their places; and at one amplitude two places never tie.
pub proof fn law_keys_rank_by_loudness(a: u32, b: u32, i: u64, j: u64, k: u64, l: u64)
    requires
        call_ensures(admit_key, (a, i), k),
        call_ensures(admit_key, (b, j), l),
    ensures
        gain_q(a) < gain_q(b) ==> k < l,
        k as int / 0x1_0000_0000_0000 == gain_q(a),
        i < j <= 0xffff_ffff_ffff ==> k != l,
{
    crate::voice::lemma_key_fields(a, i);
    crate::voice::lemma_key_fields(b, j);
    if i < j <= 0xffff_ffff_ffff && k == l {
        crate::voice::law_mix_is_one_to_one(i, j);
    }
}

/// Scrambled places stay inside 48 bits, and no two places of a block share one.
pub proof fn law_scrambled_places(i: u64, j: u64, k: u64, l: u64)
    requires
        call_ensures(mix48, (i,), k),
        call_ensures(mix48, (j,), l),
        i < j <= 0xffff_ffff_ffff,
    ensures
        k <= 0xffff_ffff_ffff,
        k != l,
{
    if k == l {
        crate::voice::law_mix_is_one_to_one(i, j);
    }
}

/// The rule of a block lets the same candidates through, in some order, and all of
/// them where they fit.
pub proof fn law_applying_the_rule(cands: &mut Vec<Cand>, rule: AdmitRule, take: usize, i: int)
    requires
        call_ensures(apply_rule, (cands, rule, take), ()),
        0 <= i < take <= old(cands)@.len(),
    ensures
        final(cands)@.len() == old(cands)@.len(),
        take == old(cands)@.len() ==> final(cands)@[i] == old(cands)@[i],
        admitted(rule, final(cands)@, old(cands)@, take as int),
{
}

/// Every command takes its own stretch of words in the upload, in order, with its
/// flags and its loop in their places.
pub proof fn law_packing_commands(cmds: &Vec<SpawnCmd>, r: Vec<u32>, i: int)
    requires
        call_ensures(pack_spawns, (cmds,), r),
        0 <= i < cmds@.len(),
    ensures
        r@.len() == 19 * cmds@.len(),
        r@[19 * i] == cmds@[i].phase_lo && r@[19 * i + 1] == cmds@[i].phase_hi,
        r@[19 * i + 6] == cmds@[i].loop_start && r@[19 * i + 7] == cmds@[i].loop_end,
        r@[19 * i + 8] == cmds@[i].flags,
        r@[19 * i + 17] == cmds@[i].gain_l && r@[19 * i + 18] == cmds@[i].gain_r,
{
    crate::device_laws::law_words_of_a_command(cmds@, i);
}

/// A new file has its header and no data.
pub proof fn law_starting_a_file(
    rate: u32,
    channels: u16,
    format: SampleFormat,
    r: (WavWriter, Vec<u8>),
)
    requires
        call_ensures(WavWriter::create, (rate, channels, format), r),
        rate * channels * 4 <= u32::MAX,
        channels <= 1000,
    ensures
        r.0.data_bytes == 0 && !r.0.finished,
        r.0.format == format && r.0.channels == channels,
        r.1@.len() == 44,
        r.1@[22] + r.1@[23] * 256 == channels,
        r.1@[34] + r.1@[35] * 256 == (if format == SampleFormat::Pcm16 { 16int } else { 32 }),
{
    crate::sound_file_laws::law_the_header_of_a_file(rate, channels, format, 0, 0);
    crate::sound_file_laws::law_little_end_first(r.1@, 22, 0, 0);
    crate::sound_file_laws::law_little_end_first(r.1@, 34, 0, 0);
}

/// A new limiter holds its look-ahead of silence, at unity, and says how late it is.
pub proof fn law_a_new_limiter(look: usize, true_peak: bool, b: Brickwall, late: usize, i: int)
    requires
        call_ensures(Brickwall::new, (look, true_peak), b),
        call_ensures(Brickwall::latency, (&b,), late),
        look >= 1,
    ensures
        late >= look,
        !true_peak ==> late == look,
        b.look == look && b.gains@.len() == look + 1,
        b.min_gain == 0x3ff0_0000_0000_0000,
        b.peak_in == 0,
        0 <= i < b.delay@.len() ==> b.delay@[i] == (0u32, 0u32),
        0 <= i < b.gains@.len() ==> b.gains@[i] == 0x3ff0_0000_0000_0000,
{
}

/// Nothing is counted, held or playing in what is new.
pub proof fn law_new_is_empty(p: Pool, r: Report, s: Session, o: OpcodeSet, n: u32, i: int)
    requires
        call_ensures(Pool::new, (), p),
        call_ensures(Report::new, (), r),
        call_ensures(Session::new, (n,), s),
        call_ensures(OpcodeSet::new, (), o),
    ensures
        p.voices@.len() == 0 && p.stolen == 0 && p.dropped == 0 && p.peak == 0,
        0 <= i < 7 ==> r.counts@[i] == 0,
        0 <= i < 128 ==> r.controllers@[i] == 0,
        r.last_tick == 0,
        s.live == 0 && s.parity == 0 && s.stolen == 0 && s.dropped == 0,
        s.cmds_capacity == n,
        o@ == Map::<Seq<char>, Seq<char>>::empty(),
{
}

/// A block that has ended has every row written: each tile after the last event
/// holds what the counters are.
pub proof fn law_rows_are_complete(g: &mut GateTable, h: &GateTable, tile: usize, r: &[u32], s: int)
    requires
        call_ensures(GateTable::end_block, (g,), ()),
        *h == *final(g),
        call_ensures(GateTable::row, (h, tile), r),
        old(g)@.wf(),
        tile < old(g).tiles,
        0 <= s < 2048,
    ensures
        final(g)@.slots == old(g)@.slots,
        final(g)@.sustain == old(g)@.sustain && final(g)@.sostenuto == old(g)@.sostenuto,
        tile >= old(g)@.cursor ==> r@[s] == old(g)@.slots[s].off,
        tile < old(g)@.cursor ==> r@[s] == old(g)@.entry(tile as int, s),
{
    let t = tile as int;
    let c = old(g)@.cursor;
    let n = old(g)@.tiles;
    assert(final(g)@.entry(t, s) == r@[s]);
    assert(t * 2048 + s < n * 2048) by (nonlinear_arith)
        requires
            t + 1 <= n,
            s < 2048,
    ;
    assert(0 <= t * 2048 + s) by (nonlinear_arith)
        requires
            0 <= t,
            0 <= s,
    ;
    assert((t * 2048 + s) % 2048 == s);
    if t >= c {
        assert(c * 2048 <= t * 2048 + s) by (nonlinear_arith)
            requires
                c <= t,
                0 <= s,
        ;
    } else {
        assert(t * 2048 + s < c * 2048) by (nonlinear_arith)
            requires
                t + 1 <= c,
                s < 2048,
        ;
    }
}

/// A channel's gains at a tile are its left and right words there.
pub proof fn law_reading_gains(t: &ChannelTable, ch: u8, tile: usize, r: (u32, u32), row: &[u32])
    requires
        call_ensures(ChannelTable::gains_at, (t, ch, tile), r),
        call_ensures(ChannelTable::row, (t, tile), row),
    ensures
        r.0 == row@[(ch as int % 16) * 4 + 1],
        r.1 == row@[(ch as int % 16) * 4 + 2],
{
    assert(row@[(ch as int % 16) * 4 + 1] == t@.entry(tile as int, (ch as int % 16) * 4 + 1));
    assert(row@[(ch as int % 16) * 4 + 2] == t@.entry(tile as int, (ch as int % 16) * 4 + 2));
}

/// A reset lifts both pedals of its channel, and no other's.
pub proof fn law_resetting_the_pedals(g: &mut GateTable, ch: u8, frame: u32, c: int)
    requires
        call_ensures(GateTable::reset_controllers, (g, ch, frame), ()),
        old(g)@.wf(),
        0 <= c < 16,
    ensures
        !final(g)@.sustain[ch as int % 16] && !final(g)@.sostenuto[ch as int % 16],
        c != ch as int % 16 ==> final(g)@.sustain[c] == old(g)@.sustain[c] && final(g)@.sostenuto[c]
            == old(g)@.sostenuto[c],
{
}

/// A channel is reset to where it powers on, but for its program and its sound
/// controllers.
pub proof fn law_resetting_a_channel(s: ChannelState, v: u8, n: ChannelState, r: ChannelState)
    requires
        call_ensures(ChannelState::new, (v,), n),
        call_ensures(ChannelState::reset, (s, v), r),
        v <= 127,
    ensures
        r == (ChannelState { preset: s.preset, sound: s.sound, ..n }),
        n.volume == v && n.expression == 127 && n.pan == 64 && n.bend_cents == 200,
        n.modulation == 0 && n.bend_val == 0 && n.preset == 0,
{
    crate::control_laws::law_power_on_values(s, 0, v);
}

/// A sound controller reads back as it was set, and setting one keeps the others.
pub proof fn law_setting_a_sound(s: Sound, which: u8, other: u8, val: u8, t: Sound, r: u8, q: u8)
    requires
        which < 5,
        other < 5,
        call_ensures(Sound::set, (s, which, val), t),
        call_ensures(Sound::get, (t, other), r),
        call_ensures(Sound::get, (s, other), q),
    ensures
        which == other ==> r == val,
        which != other ==> r == q,
{
}

/// A file is refused exactly where no region comes of it.
pub proof fn law_assembling_regions(sections: &Vec<Section>, r: Result<Regions, SfzError>)
    requires
        call_ensures(assemble, (sections,), r),
    ensures
        r is Err ==> r->Err_0 == SfzError::NoRegions,
        r is Ok ==> r->Ok_0.sets@.len() > 0,
        r is Ok <==> Assembly::all(section_views(sections@), sections@.len() as int).regions.len()
            > 0,
{
    if r is Ok {
        assert(set_views(r->Ok_0.sets@).len() == r->Ok_0.sets@.len());
    }
}

/// Counting a name adds one to it, and to no other.
pub proof fn law_counting_a_name(t: &mut Tally, name: Vec<char>, other: Seq<char>)
    requires
        call_ensures(Tally::bump, (t, name), ()),
    ensures
        final(t)@.contains_key(name@),
        !old(t)@.contains_key(name@) ==> final(t)@[name@] == 1,
        old(t)@.contains_key(name@) && old(t)@[name@] < u32::MAX ==> final(t)@[name@]
            == old(t)@[name@] + 1,
        other != name@ ==> final(t)@.contains_key(other) == old(t)@.contains_key(other),
        other != name@ && old(t)@.contains_key(other) ==> final(t)@[other] == old(t)@[other],
{
}

/// What a region leaves unread is counted under the name it goes by.
pub proof fn law_counting_what_is_unread(ops: &OpcodeSet, t: &mut Tally, name: Seq<char>)
    requires
        call_ensures(note_unhandled, (ops, t), ()),
        old(t)@.contains_key(name),
        old(t)@[name] + times_reported(ops@, name) < u32::MAX,
        times_reported(ops@, name) >= 0,
    ensures
        final(t)@.contains_key(name),
        final(t)@[name] == old(t)@[name] + times_reported(ops@, name),
{
}

/// A region comes into being for each channel of its sample, behind those there
/// are; of a stereo pair the first is hard left and the second hard right.
pub proof fn law_adding_regions(
    ops: &OpcodeSet,
    d: &Decimals,
    channels: &Vec<u32>,
    samples: &Vec<SampleInfo>,
    regions: &mut Vec<Region>,
    unknown: &mut Tally,
    i: int,
)
    requires
        call_ensures(add_regions, (ops, d, channels, samples, regions, unknown), ()),
        0 <= i < channels@.len(),
    ensures
        final(regions)@.len() == old(regions)@.len() + channels@.len(),
        i < old(regions)@.len() ==> final(regions)@[i] == old(regions)@[i],
        ({
            let r = final(regions)@[old(regions)@.len() + i];
            let one = region_of(ops@, *d, channels@[i], samples@[channels@[i] as int]);
            &&& channels@.len() != 2 ==> r == one
            &&& channels@.len() == 2 && i == 0 ==> r.pan == 0xbf80_0000
            &&& channels@.len() == 2 && i == 1 ==> r.pan == 0x3f80_0000
            &&& r == (Region { pan: r.pan, ..one })
        }),
{
}

} // verus!
