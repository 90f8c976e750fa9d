//! What holds of the note-off table over any sequence of events.

use crate::gates::{chan_of, slot_of, wrap_add, Gates, Slot, GATE_SLOTS};
use vstd::prelude::*;

verus! {

/// One event the note-off table takes.
pub enum GateEvent {
    NoteOn { ch: u8, key: u8 },
    NoteOff { ch: u8, key: u8 },
    Sustain { ch: u8, down: bool },
    Sostenuto { ch: u8, down: bool },
    AllNotesOff { ch: u8 },
    AllSoundOff { ch: u8 },
    ResetControllers { ch: u8 },
}

/// An event at a frame of the block.
pub struct Timed {
    pub frame: u32,
    pub event: GateEvent,
}

/// The table after one event.
pub open spec fn step(g: Gates, e: Timed) -> Gates {
    match e.event {
        GateEvent::NoteOn { ch, key } => g.note_on(ch, key, e.frame),
        GateEvent::NoteOff { ch, key } => g.note_off(ch, key, e.frame),
        GateEvent::Sustain { ch, down } => g.set_sustain(ch, down, e.frame),
        GateEvent::Sostenuto { ch, down } => g.set_sostenuto(ch, down, e.frame),
        GateEvent::AllNotesOff { ch } => g.all_notes_off(ch, e.frame),
        GateEvent::AllSoundOff { ch } => g.all_sound_off(ch, e.frame),
        GateEvent::ResetControllers { ch } => g.reset_controllers(ch, e.frame),
    }
}

/// The table after a sequence of events.
pub open spec fn run(g: Gates, events: Seq<Timed>) -> Gates
    decreases events.len(),
{
    if events.len() == 0 {
        g
    } else {
        step(run(g, events.drop_last()), events.last())
    }
}

/// A slot whose counters agree with each other and with the pedals: with the
/// sustain pedal up, only what the sostenuto pedal caught is deferred; with the
/// sostenuto pedal up, nothing is caught.
pub open spec fn slot_settled(s: Slot, sustain: bool, sostenuto: bool) -> bool {
    &&& s.balanced()
    &&& !sostenuto ==> s.held == 0 && s.caught_off == 0
    &&& !sustain ==> s.pending == s.caught_off
}

/// A table all of whose slots are settled.
pub open spec fn settled(g: Gates) -> bool {
    &&& g.wf()
    &&& forall|i: int|
        #![trigger g.slots[i]]
        0 <= i < GATE_SLOTS ==> slot_settled(g.slots[i], g.sustain[i / 128], g.sostenuto[i / 128])
}

/// A slot can take one more note without its count of sounding notes wrapping.
pub open spec fn has_room(g: Gates, e: Timed) -> bool {
    e.event matches GateEvent::NoteOn { ch, key } ==> g.slots[slot_of(ch, key)].sounding()
        < 0xffff_ffff
}

/// Writing rows leaves everything but the rows and the cursor alone.
proof fn lemma_at(g: Gates, frame: u32)
    requires
        g.wf(),
    ensures
        g.at(frame).wf(),
        g.at(frame).slots == g.slots,
        g.at(frame).sustain == g.sustain,
        g.at(frame).sostenuto == g.sostenuto,
        g.at(frame).tiles == g.tiles,
        g.at(frame).tile_frames == g.tile_frames,
        g.cursor <= g.at(frame).cursor,
{
    let tile = frame as int / g.tile_frames;
    if g.tile_frames > 0 {
        assert(tile >= 0) by (nonlinear_arith)
            requires
                tile == frame as int / g.tile_frames,
                g.tile_frames > 0,
                frame >= 0,
        ;
    }
}

/// An event leaves the shape of the table alone.
proof fn lemma_step_shape(g: Gates, e: Timed)
    requires
        g.wf(),
    ensures
        step(g, e).wf(),
        step(g, e).tiles == g.tiles,
        step(g, e).tile_frames == g.tile_frames,
{
    lemma_at(g, e.frame);
    if let GateEvent::ResetControllers { ch } = e.event {
        lemma_at(g.set_sostenuto(ch, false, e.frame), e.frame);
    }
}

/// What each operation does to a settled slot.
proof fn lemma_settled_slot(s: Slot, sustain: bool, sostenuto: bool)
    requires
        slot_settled(s, sustain, sostenuto),
    ensures
        s.sounding() < 0xffff_ffff ==> slot_settled(s.strike(), sustain, sostenuto),
        slot_settled(s.lift(sustain, sostenuto), sustain, sostenuto),
        slot_settled(s, true, sostenuto),
        slot_settled(s.catch(), sustain, true),
        sostenuto ==> slot_settled(s.flush_uncaught(), false, sostenuto),
        !sostenuto ==> slot_settled(s.flush(), false, sostenuto),
        sustain ==> slot_settled(s.forget(), sustain, false),
        !sustain ==> slot_settled(s.forget().flush(), sustain, false),
        slot_settled(s.silence(), sustain, sostenuto),
{
}

proof fn lemma_settled_damp(s: Slot, sustain: bool, sostenuto: bool)
    requires
        slot_settled(s, sustain, sostenuto),
    ensures
        slot_settled(s.damp(sustain, sostenuto), sustain, sostenuto),
{
}

proof fn lemma_settled_pedals(g: Gates, e: Timed)
    requires
        settled(g),
        e.event is Sustain || e.event is Sostenuto,
    ensures
        settled(step(g, e)),
{
    lemma_step_shape(g, e);
    lemma_at(g, e.frame);
    let h = step(g, e);
    assert forall|i: int| #![trigger h.slots[i]] 0 <= i < GATE_SLOTS implies slot_settled(
        h.slots[i],
        h.sustain[i / 128],
        h.sostenuto[i / 128],
    ) by {
        assert(slot_settled(g.slots[i], g.sustain[i / 128], g.sostenuto[i / 128]));
        lemma_settled_slot(g.slots[i], g.sustain[i / 128], g.sostenuto[i / 128]);
    }
}

/// Every event keeps a settled table settled, so long as no slot is asked to
/// hold more notes than it can count.
pub proof fn law_settled_is_kept(g: Gates, e: Timed)
    requires
        settled(g),
        has_room(g, e),
    ensures
        settled(step(g, e)),
{
    if e.event is Sustain || e.event is Sostenuto {
        lemma_settled_pedals(g, e);
    } else if let GateEvent::ResetControllers { ch } = e.event {
        let up = Timed { frame: e.frame, event: GateEvent::Sostenuto { ch, down: false } };
        let sustain = Timed { frame: e.frame, event: GateEvent::Sustain { ch, down: false } };
        lemma_settled_pedals(g, up);
        lemma_settled_pedals(step(g, up), sustain);
    } else {
        lemma_step_shape(g, e);
        lemma_at(g, e.frame);
        let h = step(g, e);
        assert forall|i: int| #![trigger h.slots[i]] 0 <= i < GATE_SLOTS implies slot_settled(
            h.slots[i],
            h.sustain[i / 128],
            h.sostenuto[i / 128],
        ) by {
            let s = g.slots[i];
            assert(slot_settled(s, g.sustain[i / 128], g.sostenuto[i / 128]));
            lemma_settled_slot(s, g.sustain[i / 128], g.sostenuto[i / 128]);
            lemma_settled_damp(s, g.sustain[i / 128], g.sostenuto[i / 128]);
        }
    }
}

/// A table with no note sounding and every pedal up is settled.
pub proof fn law_power_on_is_settled(g: Gates)
    requires
        g.wf(),
        g.slots == Seq::new(GATE_SLOTS as nat, |i: int| Slot::zero()),
        g.sustain == Seq::new(16, |i: int| false),
        g.sostenuto == Seq::new(16, |i: int| false),
    ensures
        settled(g),
{
}

/// A note-off with nothing to lift changes no counter of any slot, whatever the
/// pedals do.
pub proof fn law_unmatched_note_off_is_dropped(g: Gates, ch: u8, key: u8, frame: u32)
    requires
        g.wf(),
        g.slots[slot_of(ch, key)].unlifted() == 0,
    ensures
        g.note_off(ch, key, frame).slots == g.slots,
{
    lemma_at(g, frame);
    assert(g.note_off(ch, key, frame).slots =~= g.slots);
}

/// With both pedals up a note-off releases the oldest un-released note and no
/// other: the released ordinals grow by the one just past the old off count.
pub proof fn law_note_off_releases_the_oldest(s: Slot, ordinal: u32)
    requires
        s.balanced(),
        s.pending == 0,
        s.off < s.on,
    ensures
        s.lift(false, false).off >= ordinal <==> (s.off >= ordinal || ordinal == s.off + 1),
        s.lift(false, false).on == s.on,
{
}

/// `n` note-offs in a row at one slot.
pub open spec fn lift_n(s: Slot, n: nat, sustain: bool, sostenuto: bool) -> Slot
    decreases n,
{
    if n == 0 {
        s
    } else {
        lift_n(s, (n - 1) as nat, sustain, sostenuto).lift(sustain, sostenuto)
    }
}

pub open spec fn smaller(a: int, b: int) -> int {
    if a < b {
        a
    } else {
        b
    }
}

/// The sustain pedal defers note-offs and releases them together: while it is
/// down nothing is published however many note-offs come, and its lift releases
/// as many notes as were lifted, never more than were sounding.
pub proof fn law_sustain_defers_then_releases(s: Slot, n: nat)
    requires
        s.balanced(),
    ensures
        lift_n(s, n, true, false).off == s.off,
        lift_n(s, n, true, false).on == s.on,
        lift_n(s, n, true, false).sounding() == s.sounding(),
        lift_n(s, n, true, false).flush().sounding() == s.unlifted() - smaller(
            n as int,
            s.unlifted() as int,
        ),
        lift_n(s, n, true, false).flush().off == wrap_add(
            s.off,
            (s.pending + smaller(n as int, s.unlifted() as int)) as u32,
        ),
    decreases n,
{
    lemma_lift_n_sustained(s, n);
}

proof fn lemma_lift_n_sustained(s: Slot, n: nat)
    requires
        s.balanced(),
    ensures
        lift_n(s, n, true, false) == (Slot {
            pending: (s.pending + smaller(n as int, s.unlifted() as int)) as u32,
            ..s
        }),
    decreases n,
{
    if n > 0 {
        lemma_lift_n_sustained(s, (n - 1) as nat);
    }
}

/// Lifting the sustain pedal publishes every note-off it held: on its channel
/// what goes on sounding is the notes not lifted, and those the sostenuto pedal
/// caught while that pedal is down. A key that had nothing caught is left with
/// its un-lifted notes alone.
pub proof fn law_sustain_lift_publishes_what_it_held(g: Gates, ch: u8, frame: u32, i: int)
    requires
        settled(g),
        0 <= i < GATE_SLOTS,
        i / 128 == chan_of(ch),
        g.sustain[chan_of(ch)],
    ensures
        ({
            let s = g.slots[i];
            let h = g.set_sustain(ch, false, frame).slots[i];
            &&& h.sounding() == s.unlifted() + s.caught_off
            &&& h.pending == s.caught_off
            &&& h.unlifted() == s.unlifted()
            &&& h.held == s.held
            &&& !g.sostenuto[chan_of(ch)] ==> h.sounding() == s.unlifted()
        }),
{
    lemma_at(g, frame);
    assert(slot_settled(g.slots[i], g.sustain[i / 128], g.sostenuto[i / 128]));
}

/// A note struck after the sostenuto pedal went down is not held by it: struck,
/// then lifted under the sustain pedal, it is released when that pedal lifts,
/// though the sostenuto pedal is still down.
pub proof fn law_later_notes_end_with_the_sustain_pedal(s: Slot)
    requires
        slot_settled(s, true, true),
        s.held == 0,
        s.sounding() < 0xffff_ffff,
    ensures
        s.strike().lift(true, true).flush_uncaught().sounding() == s.unlifted() + s.caught_off,
{
}

/// What sounds when the sostenuto pedal goes down is what it holds: however many
/// of those notes are then lifted, and whether or not the sustain pedal is pressed
/// and lifted again, they all sound on until the sostenuto pedal comes up.
pub proof fn law_sostenuto_holds_what_was_sounding(s: Slot, n: nat, sustain: bool)
    requires
        s.balanced(),
        n <= s.unlifted(),
    ensures
        lift_n(s.catch(), n, sustain, true).sounding() == s.sounding(),
        lift_n(s.catch(), n, sustain, true).flush_uncaught().sounding() == s.sounding(),
        lift_n(s.catch(), n, sustain, true).forget().flush().sounding() == s.unlifted() - n,
{
    lemma_lift_n(s.catch(), n, sustain, true);
}

/// The sostenuto pedal holds what it caught and nothing else: with `n` note-offs
/// under it alone, the first ones (up to what it caught) are deferred and the
/// rest published at once.
pub proof fn law_sostenuto_holds_what_it_caught(s: Slot, n: nat)
    requires
        s.balanced(),
        n <= s.unlifted(),
    ensures
        lift_n(s, n, false, true) == (Slot {
            on: s.on,
            off: wrap_add(s.off, (n - smaller(n as int, s.held as int)) as u32),
            pending: (s.pending + smaller(n as int, s.held as int)) as u32,
            held: (s.held - smaller(n as int, s.held as int)) as u32,
            caught_off: (s.caught_off + smaller(n as int, s.held as int)) as u32,
        }),
    decreases n,
{
    if n > 0 {
        law_sostenuto_holds_what_it_caught(s, (n - 1) as nat);
    }
}

/// A note struck while the sostenuto pedal is down is not among those it holds.
pub proof fn law_sostenuto_ignores_later_notes(s: Slot)
    ensures
        s.strike().held == s.held,
        s.catch().held == s.unlifted(),
{
}

/// All-notes-off is a note-off for every un-lifted note: a held pedal defers it
/// just as it would defer each of them.
pub proof fn law_all_notes_off_lifts_every_note(s: Slot, sustain: bool, sostenuto: bool)
    requires
        s.balanced(),
    ensures
        s.damp(sustain, sostenuto) == lift_n(s, s.unlifted() as nat, sustain, sostenuto),
        s.damp(sustain, sostenuto).unlifted() == 0,
        sustain ==> s.damp(sustain, sostenuto).sounding() == s.sounding(),
{
    lemma_lift_n(s, s.unlifted() as nat, sustain, sostenuto);
}

proof fn lemma_lift_n(s: Slot, n: nat, sustain: bool, sostenuto: bool)
    requires
        s.balanced(),
        n <= s.unlifted(),
    ensures
        ({
            let h = if sostenuto {
                smaller(n as int, s.held as int)
            } else {
                0
            };
            lift_n(s, n, sustain, sostenuto) == (Slot {
                on: s.on,
                off: if sustain {
                    s.off
                } else {
                    wrap_add(s.off, (n - h) as u32)
                },
                pending: (s.pending + (if sustain {
                    n as int
                } else {
                    h
                })) as u32,
                held: (s.held - h) as u32,
                caught_off: (s.caught_off + h) as u32,
            })
        }),
    decreases n,
{
    if n > 0 {
        lemma_lift_n(s, (n - 1) as nat, sustain, sostenuto);
    }
}

/// After all-sound-off nothing on the channel sounds or is deferred, and the
/// other channels are as they were.
pub proof fn law_all_sound_off_is_silent(g: Gates, ch: u8, frame: u32, i: int)
    requires
        g.wf(),
        0 <= i < GATE_SLOTS,
    ensures
        i / 128 == chan_of(ch) ==> g.all_sound_off(ch, frame).slots[i].sounding() == 0
            && g.all_sound_off(ch, frame).slots[i].pending == 0,
        i / 128 != chan_of(ch) ==> g.all_sound_off(ch, frame).slots[i] == g.slots[i],
{
    lemma_at(g, frame);
}

/// After a controller reset both pedals of the channel are up and, in a settled
/// table, nothing on it is deferred any more.
pub proof fn law_reset_lifts_the_pedals(g: Gates, ch: u8, frame: u32, i: int)
    requires
        settled(g),
        0 <= i < GATE_SLOTS,
        i / 128 == chan_of(ch),
    ensures
        !g.reset_controllers(ch, frame).sustain[chan_of(ch)],
        !g.reset_controllers(ch, frame).sostenuto[chan_of(ch)],
        g.reset_controllers(ch, frame).slots[i].pending == 0,
        g.reset_controllers(ch, frame).slots[i].held == 0,
        g.reset_controllers(ch, frame).slots[i].on == g.slots[i].on,
        g.reset_controllers(ch, frame).slots[i].sounding() == g.slots[i].unlifted(),
{
    lemma_at(g, frame);
    lemma_at(g.set_sostenuto(ch, false, frame), frame);
    assert(slot_settled(g.slots[i], g.sustain[i / 128], g.sostenuto[i / 128]));
}

/// The tile an event falls in.
pub open spec fn tile_of(g: Gates, e: Timed) -> int {
    e.frame as int / g.tile_frames
}

/// Events come in the order of their frames.
pub open spec fn in_order(events: Seq<Timed>) -> bool {
    forall|i: int, j: int| 0 <= i <= j < events.len() ==> events[i].frame <= events[j].frame
}

/// The first `n` events are the ones in tiles before `t`.
pub open spec fn cut(g: Gates, events: Seq<Timed>, n: int, t: int) -> bool {
    &&& 0 <= n <= events.len()
    &&& forall|i: int| 0 <= i < n ==> tile_of(g, #[trigger] events[i]) < t
    &&& forall|i: int| n <= i < events.len() ==> tile_of(g, #[trigger] events[i]) >= t
}

/// Every slot has the same off count in both tables.
pub open spec fn same_offs(a: Gates, b: Gates) -> bool {
    forall|s: int| 0 <= s < GATE_SLOTS ==> (#[trigger] a.slots[s]).off == b.slots[s].off
}

/// Row `t` of `a` shows the off counts of `b`.
pub open spec fn row_shows(a: Gates, t: int, b: Gates) -> bool {
    forall|s: int| 0 <= s < GATE_SLOTS ==> #[trigger] a.entry(t, s) == b.slots[s].off
}

proof fn lemma_run_shape(g: Gates, events: Seq<Timed>)
    requires
        g.wf(),
    ensures
        run(g, events).wf(),
        run(g, events).tiles == g.tiles,
        run(g, events).tile_frames == g.tile_frames,
    decreases events.len(),
{
    if events.len() > 0 {
        lemma_run_shape(g, events.drop_last());
        lemma_step_shape(run(g, events.drop_last()), events.last());
    }
}

/// What writing rows up to `to` does to one row.
proof fn lemma_write_to(g: Gates, to: int, t: int)
    requires
        g.wf(),
        to <= g.tiles,
        0 <= t < g.tiles,
    ensures
        g.cursor <= t < to ==> row_shows(g.write_to(to), t, g),
        !(g.cursor <= t < to) ==> forall|s: int|
            0 <= s < GATE_SLOTS ==> #[trigger] g.write_to(to).entry(t, s) == g.entry(t, s),
{
    let h = g.write_to(to);
    assert forall|s: int| 0 <= s < GATE_SLOTS implies (if g.cursor <= t < to {
        #[trigger] h.entry(t, s) == g.slots[s].off
    } else {
        h.entry(t, s) == g.entry(t, s)
    }) by {
        let i = t * GATE_SLOTS + s;
        let n = GATE_SLOTS as int;
        assert(0 <= i < g.tiles * n) by (nonlinear_arith)
            requires
                i == t * n + s,
                0 <= t < g.tiles,
                0 <= s < n,
        ;
        vstd::arithmetic::div_mod::lemma_fundamental_div_mod_converse(i, n, t, s);
        assert(g.cursor <= t ==> g.cursor * n <= i) by (nonlinear_arith)
            requires
                i == t * n + s,
                0 <= s < n,
        ;
        assert(t < to ==> i < to * n) by (nonlinear_arith)
            requires
                i == t * n + s,
                0 <= s < n,
        ;
        assert(t < g.cursor ==> i < g.cursor * n) by (nonlinear_arith)
            requires
                i == t * n + s,
                0 <= s < n,
        ;
        assert(to <= t ==> to * n <= i) by (nonlinear_arith)
            requires
                i == t * n + s,
                0 <= s < n,
        ;
    }
}

/// What a step does to the rows: an event either changes nothing at all, or the
/// table first writes its rows up to the event's tile.
proof fn lemma_step_rows(g: Gates, e: Timed)
    requires
        g.wf(),
    ensures
        step(g, e) == g || (step(g, e).rows == g.at(e.frame).rows && step(g, e).cursor == g.at(
            e.frame,
        ).cursor),
{
    lemma_at(g, e.frame);
    if let GateEvent::ResetControllers { ch } = e.event {
        let h = g.set_sostenuto(ch, false, e.frame);
        lemma_at(h, e.frame);
        if h != g {
            assert(h.at(e.frame).rows == h.rows);
        }
    }
}

/// The state of a block half way through its events: the rows already written
/// show the counts before their tiles, and for the rows still to come the
/// counts have not moved since the last event before their tiles.
spec fn half_way(g: Gates, events: Seq<Timed>, k: int) -> bool {
    let h = run(g, events.take(k));
    &&& h.wf()
    &&& h.tiles == g.tiles
    &&& h.tile_frames == g.tile_frames
    &&& forall|t: int, n: int|
        #![trigger cut(g, events, n, t)]
        0 <= t < h.cursor && cut(g, events, n, t) ==> n <= k && row_shows(
            h,
            t,
            run(g, events.take(n)),
        )
    &&& forall|t: int, n: int|
        #![trigger cut(g, events, n, t)]
        h.cursor <= t < h.tiles && cut(g, events, n, t) && n <= k ==> same_offs(
            run(g, events.take(n)),
            h,
        )
    &&& k > 0 ==> h.cursor <= tile_of(g, events[k - 1]) + 1
}

proof fn lemma_half_way(g: Gates, events: Seq<Timed>, k: int)
    requires
        g.wf(),
        g.cursor == 0,
        in_order(events),
        0 <= k <= events.len(),
    ensures
        half_way(g, events, k),
    decreases k,
{
    if k == 0 {
        assert(events.take(0) =~= Seq::<Timed>::empty());
    } else {
        lemma_half_way(g, events, k - 1);
        let h0 = run(g, events.take(k - 1));
        let e = events[k - 1];
        assert(events.take(k).drop_last() =~= events.take(k - 1));
        assert(events.take(k).last() == e);
        let h = run(g, events.take(k));
        assert(h == step(h0, e));
        lemma_step_shape(h0, e);
        lemma_step_rows(h0, e);
        lemma_at(h0, e.frame);
        let tile = tile_of(g, e);
        if k > 1 {
            assert(tile_of(g, events[k - 2]) <= tile) by {
                vstd::arithmetic::div_mod::lemma_div_is_ordered(
                    events[k - 2].frame as int,
                    e.frame as int,
                    g.tile_frames,
                );
            }
        }
        assert(tile >= 0) by (nonlinear_arith)
            requires
                tile == e.frame as int / g.tile_frames,
                g.tile_frames > 0,
                e.frame >= 0,
        ;
        let to = if tile < g.tiles {
            tile + 1
        } else {
            g.tiles
        };
        assert forall|t: int, n: int| #![trigger cut(g, events, n, t)]
            0 <= t < h.cursor && cut(g, events, n, t) implies n <= k && row_shows(
            h,
            t,
            run(g, events.take(n)),
        ) by {
            if t < h0.cursor {
                assert(row_shows(h0, t, run(g, events.take(n))));
                if h != h0 {
                    lemma_write_to(h0, to, t);
                    assert forall|s: int| 0 <= s < GATE_SLOTS implies #[trigger] h.entry(t, s)
                        == run(g, events.take(n)).slots[s].off by {
                        assert(h0.write_to(to).entry(t, s) == h0.entry(t, s));
                    }
                }
            } else {
                assert(h0.cursor <= t < to);
                if n > k - 1 {
                    assert(tile_of(g, events[k - 1]) < t);
                    assert(false);
                }
                lemma_write_to(h0, to, t);
                let p = run(g, events.take(n));
                assert(same_offs(p, h0));
                assert forall|s: int| 0 <= s < GATE_SLOTS implies #[trigger] h.entry(t, s)
                    == p.slots[s].off by {
                    assert(h0.write_to(to).entry(t, s) == h0.slots[s].off);
                    assert(p.slots[s].off == h0.slots[s].off);
                }
            }
        }
        assert forall|t: int, n: int| #![trigger cut(g, events, n, t)]
            h.cursor <= t < h.tiles && cut(g, events, n, t) && n <= k implies same_offs(
            run(g, events.take(n)),
            h,
        ) by {
            if n < k {
                assert(same_offs(run(g, events.take(n)), h0));
                if h != h0 {
                    assert(to <= t);
                    assert(tile_of(g, events[k - 1]) >= t);
                }
            }
        }
    }
}

/// Rows carry the state at the start of their tile: after a block's events, in
/// the order of their frames, row `t` shows the off counts left by exactly the
/// events in the tiles before `t`.
pub proof fn law_rows_show_the_state_at_tile_start(
    g: Gates,
    events: Seq<Timed>,
    n: int,
    t: int,
    slot: int,
)
    requires
        g.wf(),
        in_order(events),
        0 <= t < g.tiles,
        cut(g, events, n, t),
        0 <= slot < GATE_SLOTS,
    ensures
        run(g.begin(), events).end().entry(t, slot) == run(
            g.begin(),
            events.take(n),
        ).slots[slot].off,
{
    let b = g.begin();
    lemma_half_way(b, events, events.len() as int);
    assert(events.take(events.len() as int) =~= events);
    let h = run(b, events);
    lemma_write_to(h, h.tiles, t);
    assert(cut(b, events, n, t));
    let p = run(b, events.take(n));
    if t < h.cursor {
        assert(row_shows(h, t, p));
        assert(h.entry(t, slot) == p.slots[slot].off);
        assert(h.end().entry(t, slot) == h.entry(t, slot));
    } else {
        assert(same_offs(p, h));
        assert(p.slots[slot].off == h.slots[slot].off);
        assert(h.end().entry(t, slot) == h.slots[slot].off);
    }
}

} // verus!
