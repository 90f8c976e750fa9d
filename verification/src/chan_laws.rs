//! What holds of the controller rows over any sequence of events.

use crate::channels::{Channels, CHAN_ROW};
use vstd::prelude::*;

verus! {

/// One event the controller table takes.
pub enum ChanEvent {
    Bend { ch: u8, factor: u32 },
    Gain { ch: u8, l: u32, r: u32 },
    Variant { ch: u8, variant: u32 },
}

/// An event at a frame of the block.
pub struct Timed {
    pub frame: u32,
    pub event: ChanEvent,
}

/// The table after one event.
pub open spec fn step(g: Channels, e: Timed) -> Channels {
    match e.event {
        ChanEvent::Bend { ch, factor } => g.set_bend(ch, factor, e.frame),
        ChanEvent::Gain { ch, l, r } => g.set_gain(ch, l, r, e.frame),
        ChanEvent::Variant { ch, variant } => g.set_variant(ch, variant, e.frame),
    }
}

/// The table after a sequence of events.
pub open spec fn run(g: Channels, events: Seq<Timed>) -> Channels
    decreases events.len(),
{
    if events.len() == 0 {
        g
    } else {
        step(run(g, events.drop_last()), events.last())
    }
}

/// Writing rows leaves everything but the rows and the cursor alone.
proof fn lemma_at(g: Channels, frame: u32)
    requires
        g.wf(),
    ensures
        g.at(frame).wf(),
        g.at(frame).now == g.now,
        g.at(frame).tiles == g.tiles,
        g.at(frame).tile_frames == g.tile_frames,
        g.cursor <= g.at(frame).cursor,
{
    let tile = frame as int / g.tile_frames;
    if g.tile_frames > 0 {
        assert(tile >= 0) by (nonlinear_arith)
            requires
                tile == frame as int / g.tile_frames,
                g.tile_frames > 0,
                frame >= 0,
        ;
    }
}

/// An event leaves the shape of the table alone.
proof fn lemma_step_shape(g: Channels, e: Timed)
    requires
        g.wf(),
    ensures
        step(g, e).wf(),
        step(g, e).tiles == g.tiles,
        step(g, e).tile_frames == g.tile_frames,
{
    lemma_at(g, e.frame);
}

/// The tile an event falls in.
pub open spec fn tile_of(g: Channels, e: Timed) -> int {
    e.frame as int / g.tile_frames
}

/// Events come in the order of their frames.
pub open spec fn in_order(events: Seq<Timed>) -> bool {
    forall|i: int, j: int| 0 <= i <= j < events.len() ==> events[i].frame <= events[j].frame
}

/// The first `n` events are the ones in tiles before `t`.
pub open spec fn cut(g: Channels, events: Seq<Timed>, n: int, t: int) -> bool {
    &&& 0 <= n <= events.len()
    &&& forall|i: int| 0 <= i < n ==> tile_of(g, #[trigger] events[i]) < t
    &&& forall|i: int| n <= i < events.len() ==> tile_of(g, #[trigger] events[i]) >= t
}

/// Both tables have the same words.
pub open spec fn same_words(a: Channels, b: Channels) -> bool {
    forall|s: int| 0 <= s < CHAN_ROW ==> #[trigger] a.now[s] == b.now[s]
}

/// Row `t` of `a` shows the words of `b`.
pub open spec fn row_shows(a: Channels, t: int, b: Channels) -> bool {
    forall|s: int| 0 <= s < CHAN_ROW ==> #[trigger] a.entry(t, s) == b.now[s]
}

proof fn lemma_run_shape(g: Channels, events: Seq<Timed>)
    requires
        g.wf(),
    ensures
        run(g, events).wf(),
        run(g, events).tiles == g.tiles,
        run(g, events).tile_frames == g.tile_frames,
    decreases events.len(),
{
    if events.len() > 0 {
        lemma_run_shape(g, events.drop_last());
        lemma_step_shape(run(g, events.drop_last()), events.last());
    }
}

/// What writing rows up to `to` does to one row.
proof fn lemma_write_to(g: Channels, to: int, t: int)
    requires
        g.wf(),
        to <= g.tiles,
        0 <= t < g.tiles,
    ensures
        g.cursor <= t < to ==> row_shows(g.write_to(to), t, g),
        !(g.cursor <= t < to) ==> forall|s: int|
            0 <= s < CHAN_ROW ==> #[trigger] g.write_to(to).entry(t, s) == g.entry(t, s),
{
    let h = g.write_to(to);
    assert forall|s: int| 0 <= s < CHAN_ROW implies (if g.cursor <= t < to {
        #[trigger] h.entry(t, s) == g.now[s]
    } else {
        h.entry(t, s) == g.entry(t, s)
    }) by {
        let i = t * CHAN_ROW + s;
        let n = CHAN_ROW as int;
        assert(0 <= i < g.tiles * n) by (nonlinear_arith)
            requires
                i == t * n + s,
                0 <= t < g.tiles,
                0 <= s < n,
        ;
        vstd::arithmetic::div_mod::lemma_fundamental_div_mod_converse(i, n, t, s);
        assert(g.cursor <= t ==> g.cursor * n <= i) by (nonlinear_arith)
            requires
                i == t * n + s,
                0 <= s < n,
        ;
        assert(t < to ==> i < to * n) by (nonlinear_arith)
            requires
                i == t * n + s,
                0 <= s < n,
        ;
        assert(t < g.cursor ==> i < g.cursor * n) by (nonlinear_arith)
            requires
                i == t * n + s,
                0 <= s < n,
        ;
        assert(to <= t ==> to * n <= i) by (nonlinear_arith)
            requires
                i == t * n + s,
                0 <= s < n,
        ;
    }
}

/// What a step does to the rows: an event either changes nothing at all, or the
/// table first writes its rows up to the event's tile.
proof fn lemma_step_rows(g: Channels, e: Timed)
    requires
        g.wf(),
    ensures
        step(g, e) == g || (step(g, e).rows == g.at(e.frame).rows && step(g, e).cursor == g.at(
            e.frame,
        ).cursor),
{
    lemma_at(g, e.frame);
}

/// The state of a block half way through its events: the rows already written
/// show the words before their tiles, and for the rows still to come the
/// words have not moved since the last event before their tiles.
spec fn half_way(g: Channels, events: Seq<Timed>, k: int) -> bool {
    let h = run(g, events.take(k));
    &&& h.wf()
    &&& h.tiles == g.tiles
    &&& h.tile_frames == g.tile_frames
    &&& forall|t: int, n: int|
        #![trigger cut(g, events, n, t)]
        0 <= t < h.cursor && cut(g, events, n, t) ==> n <= k && row_shows(
            h,
            t,
            run(g, events.take(n)),
        )
    &&& forall|t: int, n: int|
        #![trigger cut(g, events, n, t)]
        h.cursor <= t < h.tiles && cut(g, events, n, t) && n <= k ==> same_words(
            run(g, events.take(n)),
            h,
        )
    &&& k > 0 ==> h.cursor <= tile_of(g, events[k - 1]) + 1
}

proof fn lemma_half_way(g: Channels, events: Seq<Timed>, k: int)
    requires
        g.wf(),
        g.cursor == 0,
        in_order(events),
        0 <= k <= events.len(),
    ensures
        half_way(g, events, k),
    decreases k,
{
    if k == 0 {
        assert(events.take(0) =~= Seq::<Timed>::empty());
    } else {
        lemma_half_way(g, events, k - 1);
        let h0 = run(g, events.take(k - 1));
        let e = events[k - 1];
        assert(events.take(k).drop_last() =~= events.take(k - 1));
        assert(events.take(k).last() == e);
        let h = run(g, events.take(k));
        assert(h == step(h0, e));
        lemma_step_shape(h0, e);
        lemma_step_rows(h0, e);
        lemma_at(h0, e.frame);
        let tile = tile_of(g, e);
        if k > 1 {
            assert(tile_of(g, events[k - 2]) <= tile) by {
                vstd::arithmetic::div_mod::lemma_div_is_ordered(
                    events[k - 2].frame as int,
                    e.frame as int,
                    g.tile_frames,
                );
            }
        }
        assert(tile >= 0) by (nonlinear_arith)
            requires
                tile == e.frame as int / g.tile_frames,
                g.tile_frames > 0,
                e.frame >= 0,
        ;
        let to = if tile < g.tiles {
            tile + 1
        } else {
            g.tiles
        };
        assert forall|t: int, n: int| #![trigger cut(g, events, n, t)]
            0 <= t < h.cursor && cut(g, events, n, t) implies n <= k && row_shows(
            h,
            t,
            run(g, events.take(n)),
        ) by {
            if t < h0.cursor {
                assert(row_shows(h0, t, run(g, events.take(n))));
                if h != h0 {
                    lemma_write_to(h0, to, t);
                    assert forall|s: int| 0 <= s < CHAN_ROW implies #[trigger] h.entry(t, s)
                        == run(g, events.take(n)).now[s] by {
                        assert(h0.write_to(to).entry(t, s) == h0.entry(t, s));
                    }
                }
            } else {
                assert(h0.cursor <= t < to);
                if n > k - 1 {
                    assert(tile_of(g, events[k - 1]) < t);
                    assert(false);
                }
                lemma_write_to(h0, to, t);
                let p = run(g, events.take(n));
                assert(same_words(p, h0));
                assert forall|s: int| 0 <= s < CHAN_ROW implies #[trigger] h.entry(t, s)
                    == p.now[s] by {
                    assert(h0.write_to(to).entry(t, s) == h0.now[s]);
                    assert(p.now[s] == h0.now[s]);
                }
            }
        }
        assert forall|t: int, n: int| #![trigger cut(g, events, n, t)]
            h.cursor <= t < h.tiles && cut(g, events, n, t) && n <= k implies same_words(
            run(g, events.take(n)),
            h,
        ) by {
            if n < k {
                assert(same_words(run(g, events.take(n)), h0));
                if h != h0 {
                    assert(to <= t);
                    assert(tile_of(g, events[k - 1]) >= t);
                }
            }
        }
    }
}

/// Rows carry the state at the start of their tile: after a block's events, in
/// the order of their frames, row `t` shows the words left by exactly the
/// events in the tiles before `t`.
pub proof fn law_rows_show_the_state_at_tile_start(
    g: Channels,
    events: Seq<Timed>,
    n: int,
    t: int,
    i: int,
)
    requires
        g.wf(),
        in_order(events),
        0 <= t < g.tiles,
        cut(g, events, n, t),
        0 <= i < CHAN_ROW,
    ensures
        run(g.begin(), events).end().entry(t, i) == run(
            g.begin(),
            events.take(n),
        ).now[i],
{
    let b = g.begin();
    lemma_half_way(b, events, events.len() as int);
    assert(events.take(events.len() as int) =~= events);
    let h = run(b, events);
    lemma_write_to(h, h.tiles, t);
    assert(cut(b, events, n, t));
    let p = run(b, events.take(n));
    if t < h.cursor {
        assert(row_shows(h, t, p));
        assert(h.entry(t, i) == p.now[i]);
        assert(h.end().entry(t, i) == h.entry(t, i));
    } else {
        assert(same_words(p, h));
        assert(p.now[i] == h.now[i]);
        assert(h.end().entry(t, i) == h.now[i]);
    }
}

} // verus!
