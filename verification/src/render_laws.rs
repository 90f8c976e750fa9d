//! A render from its first block to its last: where events fall, what a block
//! starts with, and how it ends.

use crate::admission::{amplitude, energy, Cand};
use crate::bank::Bank;
use crate::config::Config;
use crate::controls::Event;
use crate::driver::DriverState;
use crate::gates::Gates;
use crate::voice::{gain_q, key_of, lemma_key_fields};
use vstd::prelude::*;

verus! {

/// An event falls on its own frame of the block: where the block has that frame,
/// on it; before the block, on its first; past it, on its last.
pub proof fn law_events_fall_on_their_frame(d: DriverState, cfg: Config, frame: u64)
    requires
        0 < cfg.block_frames,
        0 <= d.block_index,
    ensures
        d.block_start(cfg) <= frame < d.block_end(cfg) ==> d.block_start(cfg) + d.rel_of(cfg, frame)
            == frame,
        frame < d.block_start(cfg) ==> d.rel_of(cfg, frame) == 0,
        frame >= d.block_end(cfg) ==> d.rel_of(cfg, frame) == cfg.block_frames - 1,
        d.rel_of(cfg, frame) < cfg.block_frames,
        d.block_end(cfg) == d.block_start(cfg) + cfg.block_frames,
{
    assert(0 <= d.block_start(cfg)) by (nonlinear_arith)
        requires
            d.block_start(cfg) == d.block_index * cfg.block_frames,
            0 <= d.block_index,
            0 < cfg.block_frames,
    ;
}

/// Blocks follow each other without a gap: the next starts where this one ends,
/// and as many frames are counted.
pub proof fn law_blocks_follow_each_other(d: DriverState, cfg: Config, active: u64)
    requires
        d.stats.frames + cfg.block_frames <= u64::MAX,
        d.stats.blocks < u64::MAX,
    ensures
        ({
            let n = d.settled(cfg, active);
            &&& n.block_start(cfg) == d.block_end(cfg)
            &&& n.stats.frames == d.stats.frames + cfg.block_frames
            &&& n.stats.blocks == d.stats.blocks + 1
            &&& n.stats.events == d.stats.events && n.stats.notes == d.stats.notes
            &&& n.stats.dropped == d.stats.dropped
            &&& n.channels == d.channels && n.gates == d.gates && n.chan == d.chan
            &&& n.deferred == d.deferred && n.next_note_id == d.next_note_id
        }),
{
    assert((d.block_index + 1) * cfg.block_frames == d.block_index * cfg.block_frames
        + cfg.block_frames) by (nonlinear_arith);
}

/// A render goes on while the stream does or a voice is still to start; after that
/// while voices sound and the tail lasts, which is a minute of blocks and loses
/// one with each of them.
pub proof fn law_when_a_render_goes_on(d: DriverState, cfg: Config, bank: Bank, active: u64)
    requires
        d.tail_left >= 0,
        cfg.block_frames > 0,
    ensures
        !d.stream_done ==> d.more_after(active),
        d.deferred.len() > 0 ==> d.more_after(active),
        d.stream_done && d.deferred.len() == 0 ==> (d.more_after(active) <==> active > 0
            && d.settled(cfg, active).tail_left > 0),
        !d.stream_done || d.deferred.len() > 0 || active == 0 ==> d.settled(cfg, active).tail_left
            == d.tail_left,
        d.stream_done && d.deferred.len() == 0 && active > 0 && d.tail_left > 0 ==> d.settled(
            cfg,
            active,
        ).tail_left == d.tail_left - 1,
        DriverState::initial(cfg, bank).tail_left == 60 * cfg.sample_rate
            / cfg.block_frames as int,
{
}

/// Counting an event moves that count alone.
pub proof fn law_events_are_counted(d: DriverState)
    requires
        d.stats.events < u64::MAX,
    ensures
        d.counted().stats.events == d.stats.events + 1,
        d.counted().stats.notes == d.stats.notes,
        d.counted() == (DriverState { stats: d.counted().stats, ..d }),
{
}

proof fn lemma_recall_keeps(d: DriverState, cfg: Config, i: int)
    ensures
        ({
            let r = d.recall(cfg, i);
            &&& r.channels == d.channels
            &&& r.gates == d.gates
            &&& r.chan == d.chan
            &&& r.notes == d.notes
            &&& r.ordinals == d.ordinals
            &&& r.spawns == d.spawns
            &&& r.next_note_id == d.next_note_id
            &&& r.block_first_id == d.block_first_id
            &&& r.block_index == d.block_index
            &&& r.stats == d.stats
            &&& r.variants.cur == d.variants.cur
            &&& r.variants.states == d.variants.states
            &&& r.stream_done == d.stream_done
            &&& r.end_sent == d.end_sent
            &&& r.tail_left == d.tail_left
        }),
    decreases d.deferred.len() - i,
{
    if 0 <= i < d.deferred.len() {
        if d.deferred[i].frame < d.block_end(cfg) {
            lemma_recall_keeps(d.recalled(cfg, i), cfg, i);
        } else {
            lemma_recall_keeps(d, cfg, i + 1);
        }
    }
}

/// A new block starts with no notes and no commands of its own, and with all that
/// lasts: the channels' controllers, the pedals and note counts, the rows' words,
/// the copies each channel is on, the ids and the counts.
pub proof fn law_what_a_block_starts_with(d: DriverState, cfg: Config)
    ensures
        ({
            let b = d.begin(cfg);
            &&& b.notes.len() == 0 && b.ordinals.len() == 0 && b.spawns.len() == 0
            &&& b.channels == d.channels
            &&& b.gates.slots == d.gates.slots && b.gates.sustain == d.gates.sustain
                && b.gates.sostenuto == d.gates.sostenuto
            &&& b.gates.cursor == 0 && b.chan.cursor == 0
            &&& b.chan.now == d.chan.now
            &&& b.variants.cur == d.variants.cur && b.variants.states == d.variants.states
            &&& b.next_note_id == d.next_note_id
            &&& b.block_first_id == d.next_note_id
            &&& b.block_index == d.block_index
            &&& b.stats == d.stats
            &&& d.deferred.len() == 0 ==> b.cands.len() == 0 && b.deferred_now.len() == 0
                && !b.spawn_variants
        }),
{
    let e = DriverState {
        gates: d.gates.begin(),
        chan: d.chan.begin(),
        variants: d.variants.begin(),
        notes: Seq::empty(),
        ordinals: Seq::empty(),
        cands: Seq::empty(),
        deferred_now: Seq::empty(),
        spawns: Seq::empty(),
        spawn_variants: false,
        block_first_id: d.next_note_id,
        ..d
    };
    lemma_recall_keeps(e, cfg, 0);
}

/// A new block brings in every parked voice that is due in it and leaves every
/// other parked; each comes in as a candidate.
pub proof fn law_a_block_brings_in_what_is_due(d: DriverState, cfg: Config, k: int)
    requires
        0 <= k < d.begin(cfg).deferred.len(),
    ensures
        ({
            let b = d.begin(cfg);
            &&& b.deferred[k].frame >= d.block_end(cfg)
            &&& b.cands.len() == b.deferred_now.len()
            &&& b.deferred.len() + b.cands.len() == d.deferred.len()
        }),
{
    let e = DriverState {
        gates: d.gates.begin(),
        chan: d.chan.begin(),
        variants: d.variants.begin(),
        notes: Seq::empty(),
        ordinals: Seq::empty(),
        cands: Seq::empty(),
        deferred_now: Seq::empty(),
        spawns: Seq::empty(),
        spawn_variants: false,
        block_first_id: d.next_note_id,
        ..d
    };
    crate::driver_laws::law_recall_takes_what_is_due(e, cfg, 0);
}

proof fn lemma_silenced(d: DriverState, n: int, i: int)
    requires
        d.gates.wf(),
        0 <= n <= 16,
        0 <= i < 2048,
    ensures
        ({
            let a = d.silenced(n);
            &&& a.gates.wf()
            &&& i / 128 < n ==> a.gates.slots[i].off == d.gates.slots[i].on
                && a.gates.slots[i].pending == 0
            &&& i / 128 >= n ==> a.gates.slots[i] == d.gates.slots[i]
            &&& a.gates.slots[i].on == d.gates.slots[i].on
            &&& a.gates.sustain == d.gates.sustain && a.gates.sostenuto == d.gates.sostenuto
            &&& a.channels == d.channels && a.cands == d.cands && a.deferred == d.deferred
            &&& a.next_note_id == d.next_note_id
        }),
    decreases n,
{
    if n > 0 {
        lemma_silenced(d, n - 1, i);
        let b = d.silenced(n - 1);
        let g = b.gates.at(0);
        assert(g.slots == b.gates.slots);
        assert(crate::gates::chan_of((n - 1) as u8) == n - 1);
        lemma_at_keeps(b.gates, 0);
    }
}

proof fn lemma_at_keeps(g: Gates, frame: u32)
    requires
        g.wf(),
    ensures
        g.at(frame).wf(),
        g.at(frame).slots == g.slots,
{
    let t = frame as int / g.tile_frames;
    assert(t >= 0) by (nonlinear_arith)
        requires
            t == frame as int / g.tile_frames,
            frame >= 0,
            g.tile_frames > 0,
    ;
}

/// The end of the stream releases every note of every channel, deferred or not,
/// and what is parked still starts. It does so once.
pub proof fn law_the_end_releases_every_note(d: DriverState, i: int)
    requires
        d.gates.wf(),
        0 <= i < 2048,
    ensures
        ({
            let e = d.ended();
            &&& e.stream_done && e.end_sent
            &&& !d.end_sent ==> e.gates.slots[i].off == d.gates.slots[i].on
                && e.gates.slots[i].pending == 0 && e.gates.slots[i].on == d.gates.slots[i].on
            &&& d.end_sent ==> e.gates == d.gates
            &&& e.channels == d.channels && e.deferred == d.deferred && e.cands == d.cands
        }),
{
    lemma_silenced(d, 16, i);
}

proof fn lemma_silenced_from_the_start(d: DriverState, n: int)
    requires
        d.gates.wf(),
        d.gates.tiles >= 1,
        d.gates.cursor == 0,
        0 <= n <= 16,
    ensures
        d.silenced(n).gates.wf(),
        d.silenced(n).gates.tiles == d.gates.tiles,
        n > 0 ==> d.silenced(n).gates.cursor == 1,
        n == 0 ==> d.silenced(n).gates.cursor == 0,
    decreases n,
{
    if n > 0 {
        lemma_silenced_from_the_start(d, n - 1);
        let g = d.silenced(n - 1).gates;
        lemma_at_keeps(g, 0);
        assert(0int / g.tile_frames == 0) by (nonlinear_arith)
            requires
                g.tile_frames > 0,
        ;
    }
}

/// The release at the end of the stream comes with the block it is found in: of a
/// block that had no event yet only the first tile is still as it was.
pub proof fn law_the_end_is_heard_at_once(d: DriverState)
    requires
        d.gates.wf(),
        d.gates.tiles >= 1,
        d.gates.cursor == 0,
        !d.end_sent,
    ensures
        d.ended().gates.cursor == 1,
{
    lemma_silenced_from_the_start(d, 16);
}

/// A render starts with sixteen channels at power-on, each on the first program of
/// its bank, nothing struck, nothing parked and the first id at one.
pub proof fn law_how_a_render_starts(cfg: Config, bank: Bank, c: int, i: int)
    requires
        0 <= c < 16,
        0 <= i < 2048,
        cfg.default_channel_volume <= 127,
    ensures
        ({
            let d = DriverState::initial(cfg, bank);
            &&& d.channels.len() == 16
            &&& d.channels[c].volume == cfg.default_channel_volume
            &&& d.channels[c].expression == 127 && d.channels[c].pan == 64
            &&& d.channels[c].preset == (match crate::bank::resolved(bank.index@, if c == 9 {
                128u16
            } else {
                0u16
            }, 0) {
                Some(p) => p,
                None => 0u32,
            })
            &&& d.gates.slots[i].on == 0 && d.gates.slots[i].off == 0 && d.gates.slots[i].pending
                == 0
            &&& d.gates.slots[i].held == 0 && d.gates.slots[i].caught_off == 0
            &&& !d.gates.sustain[c] && !d.gates.sostenuto[c]
            &&& d.chan.now[c * 4] == 0x0100_0000 && d.chan.now[c * 4 + 1] == 0x3f80_0000
                && d.chan.now[c * 4 + 2] == 0x3f80_0000 && d.chan.now[c * 4 + 3] == 0
            &&& !d.chan.bend_active && !d.chan.gain_active && !d.chan.variant_active
            &&& !d.spawn_variants
            &&& d.gates.cursor == 0 && d.chan.cursor == 0
            &&& d.variants.cur[c] == 0
            &&& d.deferred.len() == 0 && d.cands.len() == 0 && d.spawns.len() == 0
            &&& d.next_note_id == 1 && d.block_index == 0
            &&& !d.stream_done && !d.end_sent
            &&& d.stats.events == 0 && d.stats.notes == 0 && d.stats.frames == 0 && d.stats.dropped
                == 0
        }),
{
    assert((c * 4) % 4 == 0 && (c * 4 + 1) % 4 == 1 && (c * 4 + 2) % 4 == 2 && (c * 4 + 3) % 4
        == 3);
}

/// The energy of a queue is the sum of its candidates' quantised amplitudes: one
/// more candidate adds its own.
pub proof fn law_energy_adds_up(cands: Seq<Cand>, n: int, loud: u32, place: u64)
    requires
        0 < n <= cands.len(),
        cands[n - 1].key == key_of(loud, place),
    ensures
        energy(cands, 0) == 0,
        energy(cands, n) == energy(cands, n - 1) + gain_q(loud),
        amplitude(cands[n - 1]) == gain_q(loud),
{
    lemma_key_fields(loud, place);
}

/// Events that are no notes, controllers, programs or bends change nothing.
pub proof fn law_other_events_do_nothing(
    d: DriverState,
    cfg: Config,
    bank: Bank,
    us: u32,
    rel: u32,
)
    ensures
        d.handled(cfg, bank, Event::Tempo(us), rel) == d,
        d.handled(cfg, bank, Event::Other, rel) == d,
        !d.refresh_of(Event::Other, rel).bend && !d.refresh_of(Event::Other, rel).gain,
{
}

/// The notes a stream strikes are counted, whether or not a layer of them starts.
pub proof fn law_notes_are_counted(
    d: DriverState,
    cfg: Config,
    bank: Bank,
    ch: u8,
    key: u8,
    vel: u8,
    rel: u32,
)
    requires
        d.stats.notes < u64::MAX,
    ensures
        d.note_on(cfg, bank, ch, key, vel, rel).stats.notes == d.stats.notes + 1,
        d.note_on(cfg, bank, ch, key, vel, rel).stats.events == d.stats.events,
        d.note_on(cfg, bank, ch, key, vel, rel).channels == d.channels,
{
    let c = crate::gates::chan_of(ch);
    let s = crate::driver::Strike {
        on: crate::admission::NoteOn {
            ch: c as u8,
            key,
            vel,
            variant: d.variants.cur[c],
            rel,
        },
        ordinal: d.gates.slots[crate::gates::slot_of(ch, key)].strike().on,
        note: d.notes.len() as u32,
    };
    let regions = bank.layers(d.channels[c].preset, key, vel, cfg.max_layers as int);
    let b = DriverState {
        gates: d.gates.note_on(ch, key, rel),
        stats: crate::driver::DriverStats { notes: (d.stats.notes + 1) as u64, ..d.stats },
        ..d
    };
    lemma_layers_keep_counts(b, cfg, bank, s, regions, regions.len() as int);
}

proof fn lemma_layers_keep_counts(
    d: DriverState,
    cfg: Config,
    bank: Bank,
    s: crate::driver::Strike,
    regions: Seq<u32>,
    n: int,
)
    ensures
        d.layers(cfg, bank, s, regions, n).stats == d.stats,
        d.layers(cfg, bank, s, regions, n).channels == d.channels,
    decreases n,
{
    if n > 0 {
        lemma_layers_keep_counts(d, cfg, bank, s, regions, n - 1);
    }
}

} // verus!
