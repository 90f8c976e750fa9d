//! The note-off table, the channel rows and the copies of the constants: what each
//! operation moves and what it leaves.

use crate::channels::{bend_product, power_on_word, word, Channels};
use crate::controls::Sound;
use crate::gates::{slot_of, wrap_add, wrap_sub, Gates, Slot};
use crate::variants::{distance, find_state, quantised, slot_cap, without, Build, Choice, Variants};
use vstd::prelude::*;

verus! {

/// Counters go round at 32 bits: one is the difference of the other two.
pub proof fn law_counters_go_round(a: u32, b: u32)
    ensures
        wrap_sub(wrap_add(a, b), b) == a,
        wrap_add(wrap_sub(a, b), b) == a,
        a + b < 0x1_0000_0000 ==> wrap_add(a, b) == a + b,
        a >= b ==> wrap_sub(a, b) == a - b,
        wrap_add(0xffff_ffff, 1) == 0,
        wrap_sub(0, 1) == 0xffff_ffff,
{
}

/// Every channel and key has a slot of its own.
pub proof fn law_slots_are_their_own(ch: u8, key: u8, other_ch: u8, other_key: u8)
    requires
        ch < 16,
        key < 128,
        other_ch < 16,
        other_key < 128,
    ensures
        slot_of(ch, key) == ch * 128 + key,
        slot_of(ch, key) == slot_of(other_ch, other_key) ==> ch == other_ch && key == other_key,
        0 <= slot_of(ch, key) < 2048,
{
}

/// A note-on counts one more note on its own key, and nothing else: no pedal, no
/// other key and no note-off moves.
pub proof fn law_a_note_on_counts_one(g: Gates, ch: u8, key: u8, frame: u32, i: int)
    requires
        g.wf(),
        0 <= i < 2048,
    ensures
        ({
            let a = g.note_on(ch, key, frame);
            let s = (ch as int % 16) * 128 + key as int % 128;
            &&& i != s ==> a.slots[i] == g.slots[i]
            &&& i == s && g.slots[i].on < u32::MAX ==> a.slots[i].on == g.slots[i].on + 1
            &&& i == s ==> a.slots[i].off == g.slots[i].off && a.slots[i].pending
                == g.slots[i].pending && a.slots[i].held == g.slots[i].held
                && a.slots[i].caught_off == g.slots[i].caught_off
            &&& a.sustain == g.sustain && a.sostenuto == g.sostenuto
            &&& a.slots.len() == g.slots.len()
        }),
{
}

/// A note-off takes one note off its own key: it is published, or deferred by a
/// pedal, but never both and never lost while a note is un-lifted. Nothing else
/// moves.
pub proof fn law_a_note_off_takes_one(g: Gates, ch: u8, key: u8, frame: u32, i: int)
    requires
        g.wf(),
        0 <= i < 2048,
        g.slots[i].balanced(),
        g.slots[i].on < 0x7fff_ffff,
        g.slots[i].off <= g.slots[i].on,
    ensures
        ({
            let a = g.note_off(ch, key, frame);
            let s = (ch as int % 16) * 128 + key as int % 128;
            let c = ch as int % 16;
            let x = g.slots[i];
            let y = a.slots[i];
            let up = !g.sustain[c] && !g.sostenuto[c];
            &&& i != s ==> y == x
            &&& i == s ==> y.on == x.on
            &&& i == s && x.on - x.off - x.pending > 0 ==> (y.off + y.pending) == (x.off + x.pending)
                + 1
            &&& i == s && x.on - x.off - x.pending == 0 ==> y == x
            &&& i == s && x.on - x.off - x.pending > 0 && up ==> y.off == x.off + 1 && y.pending
                == x.pending
            &&& i == s && x.on - x.off - x.pending > 0 && g.sustain[c] ==> y.off == x.off
                && y.pending == x.pending + 1
            &&& i == s && x.on - x.off - x.pending > 0 && g.sostenuto[c] && x.held > 0 ==> y.off
                == x.off && y.held == x.held - 1
            &&& i == s && x.on - x.off - x.pending > 0 && g.sostenuto[c] && x.held == 0
                && !g.sustain[c] ==> y.off == x.off + 1 && y.held == 0
            &&& a.sustain == g.sustain && a.sostenuto == g.sostenuto
        }),
{
}

/// A pedal is its own channel's and moves no other pedal. Pressing the sustain
/// pedal moves no counter; pressing the sostenuto pedal publishes nothing; neither
/// pedal moves a key of another channel.
pub proof fn law_pedals_are_their_channels(g: Gates, ch: u8, down: bool, frame: u32, c: int, i: int)
    requires
        g.wf(),
        0 <= c < 16,
        0 <= i < 2048,
    ensures
        ({
            let a = g.set_sustain(ch, down, frame);
            let b = g.set_sostenuto(ch, down, frame);
            let mine = ch as int % 16;
            &&& a.sustain[mine] == down && b.sostenuto[mine] == down
            &&& c != mine ==> a.sustain[c] == g.sustain[c] && b.sostenuto[c] == g.sostenuto[c]
            &&& a.sostenuto == g.sostenuto && b.sustain == g.sustain
            &&& down ==> a.slots == g.slots
            &&& down ==> b.slots[i].off == g.slots[i].off && b.slots[i].pending
                == g.slots[i].pending && b.slots[i].on == g.slots[i].on
            &&& i / 128 != mine ==> a.slots[i] == g.slots[i] && b.slots[i] == g.slots[i]
            &&& down == g.sustain[mine] ==> a == g
            &&& down == g.sostenuto[mine] ==> b == g
        }),
{
}

/// Publishing what is deferred adds it to the published note-offs and leaves
/// nothing deferred; what the sostenuto pedal caught stays deferred where only the
/// rest is published.
pub proof fn law_publishing(s: Slot)
    requires
        s.balanced(),
        s.off + s.pending < u32::MAX,
    ensures
        s.flush().off == s.off + s.pending,
        s.flush().pending == 0 && s.flush().caught_off == 0,
        s.flush().on == s.on && s.flush().held == s.held,
        s.flush_uncaught().off == s.off + s.pending - s.caught_off,
        s.flush_uncaught().pending == s.caught_off,
        s.flush_uncaught().on == s.on && s.flush_uncaught().held == s.held
            && s.flush_uncaught().caught_off == s.caught_off,
        s.catch().held == s.unlifted() && s.catch().caught_off == s.pending,
        s.catch().on == s.on && s.catch().off == s.off && s.catch().pending == s.pending,
        s.forget().held == 0 && s.forget().caught_off == 0,
        s.forget().on == s.on && s.forget().off == s.off && s.forget().pending == s.pending,
        s.silence().off == s.on && s.silence().on == s.on && s.silence().pending == 0,
{
}

/// A voice is released once its key has seen as many note-offs as its own note-on
/// was the number of: the first note-off releases the first note.
pub proof fn law_a_voice_waits_for_its_own_note_off(s: Slot)
    requires
        s.off == s.on,
        s.pending == 0,
        s.on < 0x7fff_ffff,
    ensures
        ({
            let ordinal = s.strike().on;
            &&& s.strike().off < ordinal
            &&& s.strike().lift(false, false).off >= ordinal
            &&& s.strike().strike().lift(false, false).off >= ordinal
            &&& s.strike().strike().lift(false, false).off < s.strike().strike().on
            &&& s.strike().lift(true, false).off < ordinal
            &&& s.strike().lift(true, false).flush().off >= ordinal
        }),
{
}

proof fn lemma_sounding_after(g: Gates, s: int, on: u32, n: int)
    requires
        0 <= s < g.slots.len(),
        0 <= n <= g.slots.len(),
    ensures
        ({
            let a = Gates { slots: g.slots.update(s, Slot { on, ..g.slots[s] }), ..g };
            a.sounding_in(n) == g.sounding_in(n) + (if s < n {
                a.slots[s].sounding() - g.slots[s].sounding()
            } else {
                0
            })
        }),
    decreases n,
{
    if n > 0 {
        lemma_sounding_after(g, s, on, n - 1);
    }
}

/// What sounds over all keys is one more after a note-on, and the same however many
/// rows are published on the way.
pub proof fn law_what_sounds_is_counted(g: Gates, ch: u8, key: u8, frame: u32)
    requires
        g.wf(),
        g.slots[slot_of(ch, key)].on < u32::MAX,
        g.slots[slot_of(ch, key)].off <= g.slots[slot_of(ch, key)].on,
    ensures
        g.note_on(ch, key, frame).sounding_in(2048) == g.sounding_in(2048) + 1,
{
    let s = slot_of(ch, key);
    let b = g.at(frame);
    lemma_sounding_same(g, b, 2048);
    lemma_sounding_after(b, s, (g.slots[s].on + 1) as u32, 2048);
}

proof fn lemma_sounding_same(a: Gates, b: Gates, n: int)
    requires
        a.slots == b.slots,
    ensures
        a.sounding_in(n) == b.sounding_in(n),
    decreases n,
{
    if n > 0 {
        lemma_sounding_same(a, b, n - 1);
    }
}

/// A row is sixteen channels of four words: bend, left gain, right gain and
/// variant. A channel powers on unbent, at unity on both sides and on the
/// untouched constants.
pub proof fn law_words_of_a_row(ch: u8, i: int)
    requires
        0 <= i,
    ensures
        word(ch, 0) == (ch as int % 16) * 4,
        word(ch, 3) == word(ch, 0) + 3,
        0 <= word(ch, 0) && word(ch, 3) < 64,
        power_on_word(4 * i) == 0x0100_0000,
        power_on_word(4 * i + 1) == 0x3f80_0000,
        power_on_word(4 * i + 2) == 0x3f80_0000,
        power_on_word(4 * i + 3) == 0,
{
}

/// Setting a channel's bend, gains or variant sets its own words from then on,
/// the left gain left and the right gain right, and no other word of any channel.
pub proof fn law_each_control_sets_its_own_words(
    g: Channels,
    ch: u8,
    x: u32,
    y: u32,
    frame: u32,
    i: int,
)
    requires
        g.wf(),
        0 <= i < 64,
    ensures
        ({
            let at = (ch as int % 16) * 4;
            let b = g.set_bend(ch, x, frame);
            let l = g.set_gain(ch, x, y, frame);
            let v = g.set_variant(ch, x, frame);
            &&& b.now[at] == x
            &&& l.now[at + 1] == x && l.now[at + 2] == y
            &&& v.now[at + 3] == x
            &&& i != at ==> b.now[i] == g.now[i]
            &&& i != at + 1 && i != at + 2 ==> l.now[i] == g.now[i]
            &&& i != at + 3 ==> v.now[i] == g.now[i]
            &&& b.now.len() == 64 && l.now.len() == 64 && v.now.len() == 64
        }),
{
}

/// Setting what is already set writes nothing, not even a row.
pub proof fn law_setting_the_same_does_nothing(g: Channels, ch: u8, x: u32, y: u32, frame: u32)
    requires
        g.wf(),
    ensures
        ({
            let b = g.set_bend(ch, x, frame);
            let l = g.set_gain(ch, x, y, frame);
            let v = g.set_variant(ch, x, frame);
            &&& b.set_bend(ch, x, frame) == b
            &&& l.set_gain(ch, x, y, frame) == l
            &&& v.set_variant(ch, x, frame) == v
        }),
{
}

/// A modulation lies over one channel's word of one tile: a bend is multiplied,
/// so that a factor of one leaves it, gains are replaced side for side, and no
/// other published word changes.
pub proof fn law_modulation_touches_one_tile(
    g: Channels,
    ch: u8,
    tile: int,
    x: u32,
    y: u32,
    i: int,
)
    requires
        g.wf(),
        0 <= tile < g.tiles,
        0 <= i < g.rows.len(),
    ensures
        ({
            let at = tile * 64 + (ch as int % 16) * 4;
            let b = g.modulate_bend(ch, tile, x);
            let l = g.modulate_gain(ch, tile, x, y);
            &&& 0 <= at && at + 3 < g.rows.len()
            &&& i != at ==> b.rows[i] == g.rows[i]
            &&& i != at + 1 && i != at + 2 ==> l.rows[i] == g.rows[i]
            &&& l.rows[at + 1] == x && l.rows[at + 2] == y
            &&& x == 0x0100_0000 && g.rows[at] > 0 ==> b.rows[at] == g.rows[at]
            &&& b.rows[at] > 0
            &&& b.now == g.now && l.now == g.now
        }),
{
    assert(tile * 64 + 64 <= g.tiles * 64) by (nonlinear_arith)
        requires
            tile + 1 <= g.tiles,
    ;
    assert(0 <= tile * 64) by (nonlinear_arith)
        requires
            0 <= tile,
    ;
    let at = tile * 64 + (ch as int % 16) * 4;
    let v = g.rows[at] as int;
    assert(v * 0x0100_0000 / 0x0100_0000 == v);
}

/// A bend factor times another, in 8.24 fixed point: one is neutral on either
/// side, the order has no say, and a bend never reaches nought.
pub proof fn law_bends_multiply(a: u32, b: u32)
    ensures
        a > 0 ==> bend_product(a, 0x0100_0000) == a,
        bend_product(a, b) == bend_product(b, a),
        bend_product(a, b) >= 1,
        0 < a * b / 0x0100_0000 < 0x1_0000_0000 ==> bend_product(a, b) == a * b / 0x0100_0000,
        a * b < 0x0100_0000 ==> bend_product(a, b) == 1,
{
    assert(a * b == b * a) by (nonlinear_arith);
}

/// What a block uses is what its rows hold: bends, gains and variants are each in
/// use exactly where some row's own word is off its neutral value.
pub proof fn law_what_a_block_uses(g: Channels, tile: int, ch: u8)
    requires
        g.wf(),
        0 <= tile < g.tiles,
    ensures
        ({
            let at = tile * 64 + (ch as int % 16) * 4;
            let r = g.refreshed();
            &&& g.rows[at] != 0x0100_0000 ==> r.bend_active
            &&& g.rows[at + 1] != 0x3f80_0000 || g.rows[at + 2] != 0x3f80_0000 ==> r.gain_active
            &&& g.rows[at + 3] != 0 ==> r.variant_active
            &&& (forall|i: int|
                0 <= i < g.rows.len() ==> #[trigger] g.rows[i] == (if i % 4 == 0 {
                    0x0100_0000u32
                } else if i % 4 == 3 {
                    0u32
                } else {
                    0x3f80_0000u32
                })) ==> !r.bend_active && !r.gain_active && !r.variant_active
            &&& r.rows == g.rows && r.now == g.now
        }),
{
    assert(tile * 64 + 64 <= g.tiles * 64) by (nonlinear_arith)
        requires
            tile + 1 <= g.tiles,
    ;
    assert(0 <= tile * 64) by (nonlinear_arith)
        requires
            0 <= tile,
    ;
    let at = tile * 64 + (ch as int % 16) * 4;
    assert(at % 4 == 0 && (at + 1) % 4 == 1 && (at + 2) % 4 == 2 && (at + 3) % 4 == 3);
    let w0 = g.rows[at];
    let w1 = g.rows[at + 1];
    let w2 = g.rows[at + 2];
    let w3 = g.rows[at + 3];
}

/// The sound controllers are told apart in steps of two, each on its own: two
/// settings share a copy exactly when every one of the five falls into the same
/// step.
pub proof fn law_sound_steps(a: Sound, b: Sound)
    ensures
        quantised(a) == quantised(b) <==> {
            &&& a.resonance as int / 2 == b.resonance as int / 2
            &&& a.release as int / 2 == b.release as int / 2
            &&& a.attack as int / 2 == b.attack as int / 2
            &&& a.brightness as int / 2 == b.brightness as int / 2
            &&& a.decay as int / 2 == b.decay as int / 2
        },
        quantised(Sound::neutral()).brightness == 32,
        quantised(a).resonance == a.resonance / 2 && quantised(a).release == a.release / 2,
        quantised(a).attack == a.attack / 2 && quantised(a).brightness == a.brightness / 2,
        quantised(a).decay == a.decay / 2,
{
}

/// How far two settings are apart: nought for the same, the same from either
/// side, and one more for each step that any one controller moves away.
pub proof fn law_distances(a: Sound, b: Sound, which: int, val: u8)
    requires
        0 <= which < 5,
    ensures
        distance(a, a) == 0,
        distance(a, b) == distance(b, a),
        distance(a, b) == 0 ==> a == b,
        distance(a, b) >= 0,
        distance(a, a.with(which, val)) == (if val < a.at(which) {
            a.at(which) - val
        } else {
            val - a.at(which)
        }),
{
}

proof fn lemma_without(pending: Seq<Build>, slot: u32, n: int)
    requires
        0 <= n <= pending.len(),
    ensures
        forall|i: int|
            0 <= i < without(pending, slot, n).len() ==> (#[trigger] without(
                pending,
                slot,
                n,
            )[i]).slot != slot,
        forall|i: int|
            0 <= i < n && (#[trigger] pending[i]).slot != slot ==> without(
                pending,
                slot,
                n,
            ).contains(pending[i]),
    decreases n,
{
    if n > 0 {
        lemma_without(pending, slot, n - 1);
        let w = without(pending, slot, n - 1);
        let a = without(pending, slot, n);
        assert forall|i: int| 0 <= i < n && (#[trigger] pending[i]).slot != slot implies a.contains(
            pending[i],
        ) by {
            if i < n - 1 {
                assert(w.contains(pending[i]));
                let j = choose|j: int| 0 <= j < w.len() && w[j] == pending[i];
                assert(a[j] == pending[i]);
            } else {
                assert(a.last() == pending[i]);
            }
        }
    }
}

/// A copy is built once per block, from the raw controllers last asked of it:
/// queuing a build drops an earlier one for the same slot and keeps all others.
pub proof fn law_builds_are_queued_once(v: Variants, slot: int, sound: Sound, i: int)
    requires
        0 <= slot < 64,
        0 <= i < v.pending.len(),
    ensures
        ({
            let q = v.queued(slot, sound);
            &&& q.len() > 0
            &&& q.last() == (Build { slot: slot as u32, sound })
            &&& forall|j: int| 0 <= j < q.len() - 1 ==> (#[trigger] q[j]).slot != slot
            &&& v.pending[i].slot != slot ==> q.contains(v.pending[i])
        }),
{
    let n = v.pending.len() as int;
    lemma_without(v.pending, slot as u32, n);
    let w = without(v.pending, slot as u32, n);
    let q = v.queued(slot, sound);
    assert forall|j: int| 0 <= j < q.len() - 1 implies (#[trigger] q[j]).slot != slot by {
        assert(q[j] == w[j]);
    }
    if v.pending[i].slot != slot {
        assert(w.contains(v.pending[i]));
        let j = choose|j: int| 0 <= j < w.len() && w[j] == v.pending[i];
        assert(q[j] == v.pending[i]);
    }
}

proof fn lemma_found(states: Seq<Sound>, want: Sound, from: int)
    requires
        0 <= from,
    ensures
        find_state(states, want, from) matches Some(i) ==> from <= i < states.len() && states[i]
            == want,
        find_state(states, want, from) is None ==> forall|j: int|
            from <= j < states.len() ==> #[trigger] states[j] != want,
    decreases states.len() - from,
{
    if from < states.len() && states[from] != want {
        lemma_found(states, want, from + 1);
    }
}

/// A combination some copy already holds is taken from it and builds nothing; a
/// new one, while there is room, takes a new copy, built from the raw controllers.
/// The copy selected is the channel's from then on, kept for the block, and the
/// one most lately selected.
pub proof fn law_what_selecting_does(v: Variants, c: int, sound: Sound, cap: int)
    requires
        v.wf(),
        0 <= c < 16,
        v.clock < u64::MAX,
        1 <= cap <= 63,
    ensures
        ({
            let w = v.select(c, sound, cap);
            let held = v.states.contains(quantised(sound));
            &&& w.clock == v.clock + 1
            &&& w.cur[c] < w.states.len()
            &&& w.used[w.cur[c] as int]
            &&& w.stamp[w.cur[c] as int] == v.clock + 1
            &&& held ==> w.states == v.states && w.pending == v.pending && w.rebuilds == v.rebuilds
                && w.fallbacks == v.fallbacks && w.states[w.cur[c] as int] == quantised(sound)
            &&& !held && v.states.len() < cap ==> {
                &&& w.cur[c] == v.states.len()
                &&& w.states == v.states.push(quantised(sound))
                &&& w.pending.last() == (Build { slot: w.cur[c], sound })
                &&& w.rebuilds == v.rebuilds && w.fallbacks == v.fallbacks
            }
            &&& w.asked.contains(quantised(sound))
        }),
{
    let want = quantised(sound);
    lemma_found(v.states, want, 0);
    if v.states.contains(want) {
        let i = choose|i: int| 0 <= i < v.states.len() && v.states[i] == want;
        assert(find_state(v.states, want, 0) is Some);
    }
    lemma_choice_in_range(v, want, cap);
    let w = v.select(c, sound, cap);
    if !v.asked.contains(want) {
        assert(w.asked.last() == want);
    }
}

/// With every copy taken, a new combination is built over a copy that nothing uses,
/// and that is counted; where every copy is in use none is built, the channel takes
/// one that is there, and that is counted.
pub proof fn law_selecting_when_full(v: Variants, c: int, sound: Sound, cap: int)
    requires
        v.wf(),
        0 <= c < 16,
        v.clock < u64::MAX,
        1 <= cap <= 63,
        v.states.len() >= cap,
        !v.states.contains(quantised(sound)),
    ensures
        ({
            let w = v.select(c, sound, cap);
            let s = w.cur[c] as int;
            let free = exists|i: int| 1 <= i < v.states.len() && !(#[trigger] v.used[i]);
            &&& free ==> {
                &&& !v.used[s]
                &&& s >= 1
                &&& w.states == v.states.update(s, quantised(sound))
                &&& w.pending.last() == (Build { slot: s as u32, sound })
                &&& w.rebuilds == v.rebuilds + 1 && w.fallbacks == v.fallbacks
            }
            &&& !free ==> {
                &&& w.states == v.states && w.pending == v.pending
                &&& w.rebuilds == v.rebuilds && w.fallbacks == v.fallbacks + 1
            }
            &&& w.states.len() == v.states.len()
        }),
{
    let want = quantised(sound);
    lemma_found(v.states, want, 0);
    lemma_choice_in_range(v, want, cap);
    lemma_stalest_is_free(v.used, v.stamp, v.states.len() as int);
}

proof fn lemma_stalest_is_free(used: Seq<bool>, stamp: Seq<u64>, n: int)
    ensures
        crate::variants::stalest(used, stamp, n) matches Some(i) ==> 1 <= i < n && !used[i],
        crate::variants::stalest(used, stamp, n) is None ==> forall|i: int|
            1 <= i < n ==> #[trigger] used[i],
    decreases n,
{
    if n > 1 {
        lemma_stalest_is_free(used, stamp, n - 1);
    }
}

proof fn lemma_choice_in_range(v: Variants, want: Sound, cap: int)
    requires
        v.wf(),
        cap <= 63,
    ensures
        v.choice(want, cap) matches Choice::Held(i) ==> i < v.states.len(),
        v.choice(want, cap) matches Choice::Rebuilt(i) ==> i < v.states.len(),
        v.choice(want, cap) matches Choice::Closest(i) ==> i < v.states.len(),
        v.choice(want, cap) matches Choice::Fresh(i) ==> i == v.states.len() && i < 63,
{
    lemma_found(v.states, want, 0);
    lemma_stalest_range(v.used, v.stamp, v.states.len() as int);
    lemma_nearest_range(v.states, want, v.states.len() as int);
}

proof fn lemma_stalest_range(used: Seq<bool>, stamp: Seq<u64>, n: int)
    ensures
        crate::variants::stalest(used, stamp, n) matches Some(i) ==> 1 <= i < n,
    decreases n,
{
    if n > 1 {
        lemma_stalest_range(used, stamp, n - 1);
    }
}

proof fn lemma_nearest_range(states: Seq<Sound>, want: Sound, n: int)
    requires
        n >= 1,
    ensures
        0 <= crate::variants::nearest(states, want, n) < n,
    decreases n,
{
    if n > 1 {
        lemma_nearest_range(states, want, n - 1);
    }
}

/// A new block keeps what a channel is on, and the untouched copy, and lets go of
/// every other; a queued voice keeps its own copy too.
pub proof fn law_what_a_block_keeps(v: Variants, slot: int, c: int)
    requires
        v.wf(),
        0 <= slot < 64,
        0 <= c < 16,
    ensures
        v.begin().used[0],
        v.begin().used[v.cur[c] as int],
        slot != 0 && (forall|d: int| 0 <= d < 16 ==> #[trigger] v.cur[d] != slot)
            ==> !v.begin().used[slot],
        v.begin().cur == v.cur && v.begin().states == v.states && v.begin().stamp == v.stamp,
        v.pin(slot).used[slot],
        v.pin(slot).states == v.states && v.pin(slot).cur == v.cur,
{
    assert(v.cur[c] == v.cur[c]);
}

/// The number of copies is what the configuration asks for, within one and
/// sixty-three.
pub proof fn law_how_many_copies(max: u32)
    ensures
        1 <= max <= 63 ==> slot_cap(max) == max,
        max == 0 ==> slot_cap(max) == 1,
        max > 63 ==> slot_cap(max) == 63,
{
}

/// A render starts with every channel on the untouched copy.
pub proof fn law_the_first_copy_is_neutral(c: int)
    requires
        0 <= c < 16,
    ensures
        Variants::initial().cur[c] == 0,
        Variants::initial().states.len() == 1,
        Variants::initial().states[0] == quantised(Sound::neutral()),
        Variants::initial().used[0],
        Variants::initial().pending.len() == 0,
{
}

} // verus!
