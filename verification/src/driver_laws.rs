//! What holds of the driver over any block.

use crate::admission::{is_top_of, law_admitted_set_is_unique, Cand, NoteOn};
use crate::bank::Bank;
use crate::config::Config;
use crate::controls::{law_unlisted_controllers_do_nothing, ChannelState, Effect, Event, Sound};
use crate::driver::{DriverState, DriverStats, Strike};
use crate::gate_laws::{
    law_power_on_is_settled, law_reset_lifts_the_pedals, law_settled_is_kept, settled, step,
    GateEvent, Timed,
};
use crate::gates::{chan_of, slot_of, GATE_SLOTS};
use crate::roles::role_table;
use crate::variants::VARIANT_SLOTS;
use crate::voice::{key_of, law_mix_is_one_to_one, mixed, MASK48};
use vstd::prelude::*;

verus! {

/// Every voice a block starts, starts inside it, and under a params variant that
/// no later controller of the block can rebuild.
pub proof fn law_spawns_start_inside_the_block(
    d: DriverState,
    cfg: Config,
    bank: Bank,
    i: int,
)
    requires
        d.wf(cfg, bank),
        cfg.fault() is None,
        0 <= i < d.cands.len(),
    ensures
        d.command_of(bank, d.cands[i]).start_rel < cfg.block_frames,
        d.command_of(bank, d.cands[i]).variant < VARIANT_SLOTS,
        d.variants.used[d.command_of(bank, d.cands[i]).variant as int],
{
    assert(d.sound_cand(cfg, bank, d.cands[i]));
}

/// Note ids are handed out one per layer, in layer order, whether the layer
/// starts in this block, later or never.
pub proof fn law_every_layer_takes_one_id(
    d: DriverState,
    cfg: Config,
    bank: Bank,
    s: Strike,
    regions: Seq<u32>,
    n: int,
)
    requires
        0 <= n <= regions.len(),
    ensures
        d.layers(cfg, bank, s, regions, n).next_note_id == d.next_note_id + n,
        d.layers(cfg, bank, s, regions, n).block_first_id == d.block_first_id,
        d.layers(cfg, bank, s, regions, n).cands.len() + d.layers(
            cfg,
            bank,
            s,
            regions,
            n,
        ).deferred.len() == d.cands.len() + d.deferred.len() + n,
    decreases n,
{
    if n > 0 {
        law_every_layer_takes_one_id(d, cfg, bank, s, regions, n - 1);
    }
}

/// Bringing in the deferred voices takes exactly those that start before the
/// block ends: the ones left all start later, and none is lost.
pub proof fn law_recall_takes_what_is_due(d: DriverState, cfg: Config, i: int)
    requires
        0 <= i <= d.deferred.len(),
        forall|k: int| 0 <= k < i ==> (#[trigger] d.deferred[k]).frame >= d.block_end(cfg),
    ensures
        ({
            let r = d.recall(cfg, i);
            &&& forall|k: int|
                0 <= k < r.deferred.len() ==> (#[trigger] r.deferred[k]).frame >= d.block_end(cfg)
            &&& r.deferred.len() + r.deferred_now.len() == d.deferred.len() + d.deferred_now.len()
            &&& r.cands.len() - d.cands.len() == r.deferred_now.len() - d.deferred_now.len()
            &&& r.next_note_id == d.next_note_id
        }),
    decreases d.deferred.len() - i,
{
    if i < d.deferred.len() {
        if d.deferred[i].frame < d.block_end(cfg) {
            let e = d.recalled(cfg, i);
            assert(e.block_end(cfg) == d.block_end(cfg));
            assert forall|k: int| 0 <= k < i implies (#[trigger] e.deferred[k]).frame
                >= d.block_end(cfg) by {
                assert(e.deferred[k] == d.deferred[k]);
            }
            law_recall_takes_what_is_due(e, cfg, i);
        } else {
            law_recall_takes_what_is_due(d, cfg, i + 1);
        }
    }
}

/// A controller that is not listed as applied leaves the driver as it was.
pub proof fn law_unlisted_controllers_leave_the_driver_alone(
    d: DriverState,
    cfg: Config,
    bank: Bank,
    ch: u8,
    num: u8,
    val: u8,
    rel: u32,
)
    requires
        d.channels.len() == 16,
        !(role_table(num).1 is Applied),
    ensures
        d.handled(cfg, bank, Event::Cc { ch, num, val }, rel) == d,
        !d.refresh_of(Event::Cc { ch, num, val }, rel).bend,
        !d.refresh_of(Event::Cc { ch, num, val }, rel).gain,
{
    let c = chan_of(ch);
    law_unlisted_controllers_do_nothing(d.channels[c], num, val, cfg.default_channel_volume);
    assert(d.channels.update(c, d.channels[c]) =~= d.channels);
}

/// An event on one channel leaves the state of the others alone.
pub proof fn law_events_stay_on_their_channel(
    d: DriverState,
    cfg: Config,
    ch: u8,
    num: u8,
    val: u8,
    rel: u32,
    c: int,
)
    requires
        d.channels.len() == 16,
        0 <= c < 16,
        c != chan_of(ch),
    ensures
        d.cc(cfg, ch, num, val, rel).channels[c] == d.channels[c],
{
    let e = DriverState {
        channels: d.channels.update(
            chan_of(ch),
            d.channels[chan_of(ch)].after_cc(num, val, cfg.default_channel_volume),
        ),
        ..d
    };
    lemma_neutral_sound_channels(e, cfg, ch, rel, 5, c);
}

proof fn lemma_neutral_sound_channels(
    d: DriverState,
    cfg: Config,
    ch: u8,
    rel: u32,
    n: int,
    c: int,
)
    requires
        d.channels.len() == 16,
        0 <= c < 16,
        c != chan_of(ch),
    ensures
        d.neutral_sound(cfg, ch, rel, n).channels.len() == 16,
        d.neutral_sound(cfg, ch, rel, n).channels[c] == d.channels[c],
    decreases n,
{
    if n > 0 {
        lemma_neutral_sound_channels(d, cfg, ch, rel, n - 1, c);
    }
}

/// A controller reset takes the channel back to the state it has at the start of a
/// file, keeping only its program: every controller is where it powers on, both
/// pedals are up and every note-off they held is published. The rows of bend and
/// gain are refreshed, and no other channel changes.
pub proof fn law_reset_is_the_start_of_file_state(
    d: DriverState,
    cfg: Config,
    bank: Bank,
    ch: u8,
    val: u8,
    rel: u32,
)
    requires
        d.channels.len() == 16,
        settled(d.gates),
    ensures
        ({
            let c = chan_of(ch);
            let ev = Event::Cc { ch, num: 121, val };
            let e = d.handled(cfg, bank, ev, rel);
            &&& e.channels[c] == (ChannelState {
                preset: d.channels[c].preset,
                ..DriverState::initial(cfg, bank).channels[c]
            })
            &&& !e.gates.sustain[c] && !e.gates.sostenuto[c]
            &&& forall|i: int|
                0 <= i < GATE_SLOTS && i / 128 == c ==> {
                    &&& (#[trigger] e.gates.slots[i]).pending == 0
                    &&& e.gates.slots[i].held == 0
                    &&& e.gates.slots[i].on == d.gates.slots[i].on
                    &&& e.gates.slots[i].sounding() == d.gates.slots[i].unlifted()
                }
            &&& forall|i: int|
                0 <= i < GATE_SLOTS && i / 128 != c ==> #[trigger] e.gates.slots[i]
                    == d.gates.slots[i]
            &&& forall|k: int|
                0 <= k < 16 && k != c ==> {
                    &&& #[trigger] e.channels[k] == d.channels[k]
                    &&& e.gates.sustain[k] == d.gates.sustain[k]
                    &&& e.gates.sostenuto[k] == d.gates.sostenuto[k]
                }
            &&& d.refresh_of(ev, rel).bend
            &&& d.refresh_of(ev, rel).gain
        }),
{
    let c = chan_of(ch);
    let ev = Event::Cc { ch, num: 121, val };
    let s = d.channels[c];
    let e = DriverState {
        channels: d.channels.update(c, s.after_cc(121, val, cfg.default_channel_volume)),
        ..d
    };
    lemma_neutral_sound_sets(e, cfg, ch, rel, 5);
    let n = e.neutral_sound(cfg, ch, rel, 5);
    let f = d.handled(cfg, bank, ev, rel);
    let sound = n.channels[c].sound;
    assert(sound.at(0) == 64 && sound.at(1) == 64 && sound.at(2) == 64 && sound.at(3) == 64
        && sound.at(4) == 64);
    assert(sound == Sound::neutral());
    assert forall|i: int| 0 <= i < GATE_SLOTS && i / 128 == c implies {
        &&& (#[trigger] f.gates.slots[i]).pending == 0
        &&& f.gates.slots[i].held == 0
        &&& f.gates.slots[i].on == d.gates.slots[i].on
        &&& f.gates.slots[i].sounding() == d.gates.slots[i].unlifted()
    } by {
        law_reset_lifts_the_pedals(d.gates, ch, rel, i);
    }
    law_reset_lifts_the_pedals(d.gates, ch, rel, c * 128);
    assert forall|k: int| 0 <= k < 16 && k != c implies {
        &&& #[trigger] f.channels[k] == d.channels[k]
        &&& f.gates.sustain[k] == d.gates.sustain[k]
        &&& f.gates.sostenuto[k] == d.gates.sostenuto[k]
    } by {
        lemma_neutral_sound_channels(e, cfg, ch, rel, 5, k);
    }
}

proof fn lemma_layers_keep_the_gates(
    d: DriverState,
    cfg: Config,
    bank: Bank,
    s: Strike,
    regions: Seq<u32>,
    n: int,
)
    ensures
        d.layers(cfg, bank, s, regions, n).gates == d.gates,
    decreases n,
{
    if n > 0 {
        lemma_layers_keep_the_gates(d, cfg, bank, s, regions, n - 1);
    }
}

/// What an event is to the note-off table, if anything.
pub open spec fn gate_event(d: DriverState, ev: Event) -> Option<GateEvent> {
    match ev {
        Event::NoteOn { ch, key, .. } => Some(GateEvent::NoteOn { ch, key }),
        Event::NoteOff { ch, key } => Some(GateEvent::NoteOff { ch, key }),
        Event::Cc { ch, num, val } => match d.channels[chan_of(ch)].effect_of(num, val) {
            Effect::Sustain(down) => Some(GateEvent::Sustain { ch, down }),
            Effect::Sostenuto(down) => Some(GateEvent::Sostenuto { ch, down }),
            Effect::AllSoundOff => Some(GateEvent::AllSoundOff { ch }),
            Effect::AllNotesOff => Some(GateEvent::AllNotesOff { ch }),
            Effect::Reset => Some(GateEvent::ResetControllers { ch }),
            _ => None,
        },
        _ => None,
    }
}

/// An event moves the note-off table by what it is to it, and by nothing else.
pub proof fn law_events_step_the_note_offs(
    d: DriverState,
    cfg: Config,
    bank: Bank,
    ev: Event,
    rel: u32,
)
    requires
        d.channels.len() == 16,
    ensures
        d.handled(cfg, bank, ev, rel).gates == match gate_event(d, ev) {
            Some(event) => step(d.gates, Timed { frame: rel, event }),
            None => d.gates,
        },
{
    match ev {
        Event::NoteOn { ch, key, vel } => {
            let c = chan_of(ch);
            let s = Strike {
                on: NoteOn { ch: c as u8, key, vel, variant: d.variants.cur[c], rel },
                ordinal: d.gates.slots[slot_of(ch, key)].strike().on,
                note: d.notes.len() as u32,
            };
            let regions = bank.layers(d.channels[c].preset, key, vel, cfg.max_layers as int);
            let e = DriverState {
                gates: d.gates.note_on(ch, key, rel),
                stats: DriverStats { notes: (d.stats.notes + 1) as u64, ..d.stats },
                ..d
            };
            lemma_layers_keep_the_gates(e, cfg, bank, s, regions, regions.len() as int);
        },
        Event::Cc { ch, num, val } => {
            let c = chan_of(ch);
            let e = DriverState {
                channels: d.channels.update(
                    c,
                    d.channels[c].after_cc(num, val, cfg.default_channel_volume),
                ),
                ..d
            };
            lemma_neutral_sound_sets(e, cfg, ch, rel, 5);
        },
        _ => {},
    }
}

/// Every event keeps the driver's note-offs settled: what is deferred is what a
/// pedal that is down holds, and nothing else. The one condition is that no key is
/// asked to hold more notes than it can count.
pub proof fn law_events_keep_the_note_offs_settled(
    d: DriverState,
    cfg: Config,
    bank: Bank,
    ev: Event,
    rel: u32,
)
    requires
        d.channels.len() == 16,
        settled(d.gates),
        ev matches Event::NoteOn { ch, key, .. } ==> d.gates.slots[slot_of(ch, key)].sounding()
            < 0xffff_ffff,
    ensures
        settled(d.handled(cfg, bank, ev, rel).gates),
{
    law_events_step_the_note_offs(d, cfg, bank, ev, rel);
    match gate_event(d, ev) {
        Some(event) => {
            law_settled_is_kept(d.gates, Timed { frame: rel, event });
        },
        None => {},
    }
}

proof fn lemma_neutral_sound_sets(d: DriverState, cfg: Config, ch: u8, rel: u32, n: int)
    requires
        d.channels.len() == 16,
        0 <= n <= 5,
    ensures
        d.neutral_sound(cfg, ch, rel, n).channels.len() == 16,
        d.neutral_sound(cfg, ch, rel, n).gates == d.gates,
        d.neutral_sound(cfg, ch, rel, n).channels[chan_of(ch)] == (ChannelState {
            sound: d.neutral_sound(cfg, ch, rel, n).channels[chan_of(ch)].sound,
            ..d.channels[chan_of(ch)]
        }),
        forall|w: int|
            0 <= w < n ==> #[trigger] d.neutral_sound(
                cfg,
                ch,
                rel,
                n,
            ).channels[chan_of(ch)].sound.at(w) == 64,
    decreases n,
{
    if n > 0 {
        lemma_neutral_sound_sets(d, cfg, ch, rel, n - 1);
        let a = d.neutral_sound(cfg, ch, rel, n - 1);
        let b = a.sound_cc(cfg, ch, n - 1, 64, rel);
        assert forall|w: int| 0 <= w < n implies #[trigger] b.channels[chan_of(ch)].sound.at(w)
            == 64 by {
            if w < n - 1 {
                assert(a.channels[chan_of(ch)].sound.at(w) == 64);
            }
        }
    }
}

/// The end of the stream releases everything once; reaching it again changes
/// nothing more.
pub proof fn law_the_end_comes_once(d: DriverState)
    ensures
        d.ended().ended() == d.ended(),
        d.ended().stream_done,
        d.ended().end_sent,
{
}

/// Past the end of the stream a render stops: at once when nothing sounds and
/// nothing is still to start, and after its tail runs out otherwise.
pub proof fn law_the_tail_runs_out(d: DriverState, cfg: Config, active: u64)
    requires
        d.stream_done,
        d.deferred.len() == 0,
        d.tail_left >= 0,
    ensures
        active == 0 ==> !d.more_after(active),
        active > 0 && d.more_after(active) ==> d.settled(cfg, active).tail_left < d.tail_left,
        d.tail_left == 0 ==> !d.more_after(active),
{
}

/// A render starts with a settled gate table.
pub proof fn law_render_starts_settled(cfg: Config, bank: Bank)
    requires
        cfg.fault() is None,
    ensures
        settled(DriverState::initial(cfg, bank).gates),
{
    crate::config::law_tiles_cover_the_block(cfg);
    law_power_on_is_settled(DriverState::initial(cfg, bank).gates);
}

/// Every candidate carries the scrambled number of its place in the block.
pub open spec fn keyed(cands: Seq<Cand>) -> bool {
    forall|i: int|
        0 <= i < cands.len() ==> (#[trigger] cands[i]).key as int % 0x1_0000_0000_0000 == mixed(
            i as u64,
        )
}

proof fn lemma_key_tail(loud: u32, i: int)
    requires
        0 <= i <= u64::MAX,
    ensures
        key_of(loud, i as u64) as int % 0x1_0000_0000_0000 == mixed(i as u64),
{
    crate::voice::lemma_key_fields(loud, i as u64);
}

/// Candidates are keyed by their place, however they come into the block.
pub proof fn law_candidates_are_keyed_by_place(
    d: DriverState,
    cfg: Config,
    bank: Bank,
    s: Strike,
    region: u32,
    i: int,
)
    requires
        keyed(d.cands),
        d.cands.len() < u64::MAX,
    ensures
        keyed(d.layer(cfg, bank, s, region).cands),
        keyed(d.recalled(cfg, i).cands),
{
    lemma_key_tail(bank.preview_of(region as int, s.on.vel).loud, d.cands.len() as int);
    lemma_key_tail(d.deferred[i].loud, d.cands.len() as int);
}

/// No two candidates of a block tie.
pub proof fn law_candidates_never_tie(cands: Seq<Cand>, i: int, j: int)
    requires
        keyed(cands),
        cands.len() <= MASK48,
        0 <= i < j < cands.len(),
    ensures
        cands[i].key != cands[j].key,
{
    if cands[i].key == cands[j].key {
        law_mix_is_one_to_one(i as u64, j as u64);
    }
}

/// Which candidates of a stratum are let through is a function of the block
/// alone: any two ways of choosing the top of the same stretch of a block's
/// candidates hold the same ones.
pub proof fn law_admission_is_reproducible(
    cands: Seq<Cand>,
    lo: int,
    hi: int,
    a: Seq<Cand>,
    b: Seq<Cand>,
)
    requires
        keyed(cands),
        cands.len() <= MASK48,
        0 <= lo <= hi <= cands.len(),
        is_top_of(a, cands.subrange(lo, hi)),
        is_top_of(b, cands.subrange(lo, hi)),
        a.len() == b.len(),
    ensures
        a.to_multiset() == b.to_multiset(),
{
    let seg = cands.subrange(lo, hi);
    assert forall|i: int, j: int| 0 <= i < j < seg.len() implies (#[trigger] seg[i]).key != (
    #[trigger] seg[j]).key by {
        law_candidates_never_tie(cands, lo + i, lo + j);
    }
    law_admitted_set_is_unique(a, b, seg);
}

} // verus!
