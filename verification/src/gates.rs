//! The note-off gate table.
//!
//! A voice cannot be found by searching the pool without either a sort or an
//! index that survives compaction, so the lookup is inverted: the host
//! publishes a small table of how many note-offs each key has seen, and each
//! voice compares its own ordinal against it.

use crate::config::Config;
use vstd::prelude::*;

verus! {

/// Slots in the note-off table: 16 MIDI channels by 128 keys.
pub const GATE_SLOTS: usize = 2048;

/// The counters of one (channel, key) pair. All of them wrap.
#[derive(Debug, Clone, Copy, PartialEq, Eq, Structural)]
pub struct Slot {
    /// Note-ons seen.
    pub on: u32,
    /// Note-offs published to the voices.
    pub off: u32,
    /// Note-offs that arrived while a pedal was down and are not published yet.
    pub pending: u32,
    /// Notes the sostenuto pedal caught and whose note-off has not come.
    pub held: u32,
    /// Of the pending note-offs, those of notes the sostenuto pedal caught.
    pub caught_off: u32,
}

/// How far counter `a` is past counter `b`, around the wrap.
pub open spec fn wrap_sub(a: u32, b: u32) -> u32 {
    if a >= b {
        (a - b) as u32
    } else {
        (a - b + 0x1_0000_0000) as u32
    }
}

/// Counter `a` moved on by `b`, around the wrap.
pub open spec fn wrap_add(a: u32, b: u32) -> u32 {
    if a + b <= 0xffff_ffff {
        (a + b) as u32
    } else {
        (a + b - 0x1_0000_0000) as u32
    }
}

impl Slot {
    pub open spec fn zero() -> Slot {
        Slot { on: 0, off: 0, pending: 0, held: 0, caught_off: 0 }
    }

    /// Notes started and not yet released.
    pub open spec fn sounding(self) -> u32 {
        wrap_sub(self.on, self.off)
    }

    /// Notes whose note-off has not come: sounding, and not deferred.
    pub open spec fn unlifted(self) -> u32 {
        wrap_sub(self.sounding(), self.pending)
    }

    /// A note-on.
    pub open spec fn strike(self) -> Slot {
        Slot { on: wrap_add(self.on, 1), ..self }
    }

    /// A note-off, given the state of the channel's two pedals. A note-off with
    /// nothing to lift is dropped. One that lifts a note the sostenuto pedal
    /// caught is deferred, as is any note-off under the sustain pedal; all
    /// others are published.
    pub open spec fn lift(self, sustain: bool, sostenuto: bool) -> Slot {
        if self.unlifted() == 0 {
            self
        } else if sostenuto && self.held > 0 {
            Slot {
                pending: wrap_add(self.pending, 1),
                held: (self.held - 1) as u32,
                caught_off: wrap_add(self.caught_off, 1),
                ..self
            }
        } else if sustain {
            Slot { pending: wrap_add(self.pending, 1), ..self }
        } else {
            Slot { off: wrap_add(self.off, 1), ..self }
        }
    }

    /// Publish everything that is deferred.
    pub open spec fn flush(self) -> Slot {
        Slot { off: wrap_add(self.off, self.pending), pending: 0, caught_off: 0, ..self }
    }

    /// Publish what the sustain pedal deferred, and keep what the sostenuto pedal
    /// did.
    pub open spec fn flush_uncaught(self) -> Slot {
        Slot {
            off: wrap_add(self.off, wrap_sub(self.pending, self.caught_off)),
            pending: self.caught_off,
            ..self
        }
    }

    /// The sostenuto pedal goes down: it holds everything that is sounding, the
    /// un-lifted notes and those the sustain pedal is holding.
    pub open spec fn catch(self) -> Slot {
        Slot { held: self.unlifted(), caught_off: self.pending, ..self }
    }

    /// The sostenuto pedal comes up: it holds nothing any more, and what it
    /// deferred is deferred by the sustain pedal alone.
    pub open spec fn forget(self) -> Slot {
        Slot { held: 0, caught_off: 0, ..self }
    }

    /// Of the un-lifted notes, those the sostenuto pedal holds.
    pub open spec fn caught(self, sostenuto: bool) -> u32 {
        if !sostenuto {
            0
        } else if self.held < self.unlifted() {
            self.held
        } else {
            self.unlifted()
        }
    }

    /// A note-off for every un-lifted note.
    pub open spec fn damp(self, sustain: bool, sostenuto: bool) -> Slot {
        let caught = self.caught(sostenuto);
        let rest = (self.unlifted() - caught) as u32;
        Slot {
            on: self.on,
            off: if sustain {
                self.off
            } else {
                wrap_add(self.off, rest)
            },
            pending: wrap_add(self.pending, if sustain {
                self.unlifted()
            } else {
                caught
            }),
            held: (self.held - caught) as u32,
            caught_off: wrap_add(self.caught_off, caught),
        }
    }

    /// Release everything at once, pedal or not.
    pub open spec fn silence(self) -> Slot {
        Slot { on: self.on, off: self.on, pending: 0, held: 0, caught_off: 0 }
    }

    /// The counters agree with each other: no more is deferred than sounds, the
    /// sostenuto pedal holds no more than is un-lifted and has deferred no more
    /// than is deferred.
    pub open spec fn balanced(self) -> bool {
        &&& self.pending <= self.sounding()
        &&& self.held <= self.unlifted()
        &&& self.caught_off <= self.pending
    }
}

/// The table as its contracts speak of it.
#[verifier::ext_equal]
pub struct Gates {
    /// The published rows, one after another.
    pub rows: Seq<u32>,
    pub slots: Seq<Slot>,
    /// Per channel, whether the sustain pedal is down.
    pub sustain: Seq<bool>,
    /// Per channel, whether the sostenuto pedal is down.
    pub sostenuto: Seq<bool>,
    /// Next tile that still needs its row.
    pub cursor: int,
    pub tiles: int,
    pub tile_frames: int,
}

/// The channel a channel byte names.
pub open spec fn chan_of(ch: u8) -> int {
    ch as int % 16
}

/// The slot a channel byte and a key byte name.
pub open spec fn slot_of(ch: u8, key: u8) -> int {
    chan_of(ch) * 128 + key as int % 128
}

/// `f` applied to every slot of channel `c`.
pub open spec fn on_channel(slots: Seq<Slot>, c: int, f: spec_fn(Slot) -> Slot) -> Seq<Slot> {
    Seq::new(
        slots.len(),
        |i: int|
            if i / 128 == c {
                f(slots[i])
            } else {
                slots[i]
            },
    )
}

impl Gates {
    pub open spec fn wf(self) -> bool {
        &&& self.slots.len() == GATE_SLOTS
        &&& self.sustain.len() == 16
        &&& self.sostenuto.len() == 16
        &&& 0 <= self.cursor <= self.tiles
        &&& self.rows.len() == self.tiles * GATE_SLOTS
        &&& self.tile_frames > 0
    }

    /// One published counter.
    pub open spec fn entry(self, tile: int, slot: int) -> u32 {
        self.rows[tile * GATE_SLOTS + slot]
    }

    /// The rows from the cursor up to tile `to` written with the off counts of
    /// this moment.
    pub open spec fn write_to(self, to: int) -> Gates {
        if to <= self.cursor {
            self
        } else {
            Gates {
                rows: Seq::new(
                    self.rows.len(),
                    |i: int|
                        if self.cursor * GATE_SLOTS <= i < to * GATE_SLOTS {
                            self.slots[i % (GATE_SLOTS as int)].off
                        } else {
                            self.rows[i]
                        },
                ),
                cursor: to,
                ..self
            }
        }
    }

    /// The rows written up to and including the tile that holds `frame`, so they
    /// reflect the state before any event at that frame.
    pub open spec fn at(self, frame: u32) -> Gates {
        let tile = frame as int / self.tile_frames;
        self.write_to(if tile < self.tiles {
            tile + 1
        } else {
            self.tiles
        })
    }

    pub open spec fn begin(self) -> Gates {
        Gates { cursor: 0, ..self }
    }

    pub open spec fn end(self) -> Gates {
        self.write_to(self.tiles)
    }

    pub open spec fn note_on(self, ch: u8, key: u8, frame: u32) -> Gates {
        let g = self.at(frame);
        let s = slot_of(ch, key);
        Gates { slots: g.slots.update(s, g.slots[s].strike()), ..g }
    }

    pub open spec fn note_off(self, ch: u8, key: u8, frame: u32) -> Gates {
        let g = self.at(frame);
        let s = slot_of(ch, key);
        let c = chan_of(ch);
        Gates { slots: g.slots.update(s, g.slots[s].lift(g.sustain[c], g.sostenuto[c])), ..g }
    }

    pub open spec fn set_sustain(self, ch: u8, down: bool, frame: u32) -> Gates {
        let c = chan_of(ch);
        if down == self.sustain[c] {
            self
        } else {
            let g = self.at(frame);
            Gates {
                sustain: g.sustain.update(c, down),
                slots: if down {
                    g.slots
                } else if g.sostenuto[c] {
                    on_channel(g.slots, c, |s: Slot| s.flush_uncaught())
                } else {
                    on_channel(g.slots, c, |s: Slot| s.flush())
                },
                ..g
            }
        }
    }

    pub open spec fn set_sostenuto(self, ch: u8, down: bool, frame: u32) -> Gates {
        let c = chan_of(ch);
        if down == self.sostenuto[c] {
            self
        } else {
            let g = self.at(frame);
            Gates {
                sostenuto: g.sostenuto.update(c, down),
                slots: if down {
                    on_channel(g.slots, c, |s: Slot| s.catch())
                } else if g.sustain[c] {
                    on_channel(g.slots, c, |s: Slot| s.forget())
                } else {
                    on_channel(g.slots, c, |s: Slot| s.forget().flush())
                },
                ..g
            }
        }
    }

    pub open spec fn all_notes_off(self, ch: u8, frame: u32) -> Gates {
        let g = self.at(frame);
        let c = chan_of(ch);
        Gates {
            slots: on_channel(g.slots, c, |s: Slot| s.damp(g.sustain[c], g.sostenuto[c])),
            ..g
        }
    }

    pub open spec fn all_sound_off(self, ch: u8, frame: u32) -> Gates {
        let g = self.at(frame);
        Gates { slots: on_channel(g.slots, chan_of(ch), |s: Slot| s.silence()), ..g }
    }

    pub open spec fn reset_controllers(self, ch: u8, frame: u32) -> Gates {
        self.set_sostenuto(ch, false, frame).set_sustain(ch, false, frame)
    }

    /// Notes started but not yet released, over the first `n` slots.
    pub open spec fn sounding_in(self, n: int) -> int
        decreases n,
    {
        if n <= 0 {
            0
        } else {
            self.sounding_in(n - 1) + self.slots[n - 1].sounding()
        }
    }
}

/// Per-block note-off state, sampled once per gate tile.
pub struct GateTable {
    /// `tiles * GATE_SLOTS` entries, tile-major.
    pub rows: Vec<u32>,
    pub tiles: usize,
    /// Live counters, carried across blocks.
    pub slots: Vec<Slot>,
    /// Per channel, set while the sustain pedal is down.
    pub sustain: Vec<bool>,
    /// Per channel, set while the sostenuto pedal is down.
    pub sostenuto: Vec<bool>,
    /// Next tile that still needs its row written.
    pub cursor: usize,
    pub tile_frames: u32,
}

impl View for GateTable {
    type V = Gates;

    open spec fn view(&self) -> Gates {
        Gates {
            rows: self.rows@,
            slots: self.slots@,
            sustain: self.sustain@,
            sostenuto: self.sostenuto@,
            cursor: self.cursor as int,
            tiles: self.tiles as int,
            tile_frames: self.tile_frames as int,
        }
    }
}

fn unlifted(s: Slot) -> (r: u32)
    ensures
        r == s.unlifted(),
{
    s.on.wrapping_sub(s.off).wrapping_sub(s.pending)
}

fn flush(s: Slot) -> (r: Slot)
    ensures
        r == s.flush(),
{
    Slot { off: s.off.wrapping_add(s.pending), pending: 0, caught_off: 0, ..s }
}

fn flush_uncaught(s: Slot) -> (r: Slot)
    ensures
        r == s.flush_uncaught(),
{
    let free: u32 = s.pending.wrapping_sub(s.caught_off);
    Slot { off: s.off.wrapping_add(free), pending: s.caught_off, ..s }
}

fn catch_sounding(s: Slot) -> (r: Slot)
    ensures
        r == s.catch(),
{
    Slot { held: unlifted(s), caught_off: s.pending, ..s }
}

fn forget(s: Slot) -> (r: Slot)
    ensures
        r == s.forget(),
{
    Slot { held: 0, caught_off: 0, ..s }
}

fn damp(s: Slot, sustain: bool, sostenuto: bool) -> (r: Slot)
    ensures
        r == s.damp(sustain, sostenuto),
{
    let u: u32 = unlifted(s);
    let caught: u32 = if !sostenuto {
        0
    } else if s.held < u {
        s.held
    } else {
        u
    };
    let rest: u32 = u - caught;
    let held: u32 = s.held - caught;
    let caught_off: u32 = s.caught_off.wrapping_add(caught);
    if sustain {
        Slot { pending: s.pending.wrapping_add(u), held, caught_off, ..s }
    } else {
        Slot {
            on: s.on,
            off: s.off.wrapping_add(rest),
            pending: s.pending.wrapping_add(caught),
            held,
            caught_off,
        }
    }
}

/// What a whole-channel operation does to each slot.
#[derive(Clone, Copy)]
enum ChannelOp {
    Flush,
    FlushUncaught,
    Catch,
    Forget,
    ForgetAndFlush,
    Damp(bool, bool),
    Silence,
}

impl ChannelOp {
    spec fn of(self, s: Slot) -> Slot {
        match self {
            ChannelOp::Flush => s.flush(),
            ChannelOp::FlushUncaught => s.flush_uncaught(),
            ChannelOp::Catch => s.catch(),
            ChannelOp::Forget => s.forget(),
            ChannelOp::ForgetAndFlush => s.forget().flush(),
            ChannelOp::Damp(sustain, sostenuto) => s.damp(sustain, sostenuto),
            ChannelOp::Silence => s.silence(),
        }
    }

    fn apply(self, s: Slot) -> (r: Slot)
        ensures
            r == self.of(s),
    {
        match self {
            ChannelOp::Flush => flush(s),
            ChannelOp::FlushUncaught => flush_uncaught(s),
            ChannelOp::Catch => catch_sounding(s),
            ChannelOp::Forget => forget(s),
            ChannelOp::ForgetAndFlush => flush(forget(s)),
            ChannelOp::Damp(sustain, sostenuto) => damp(s, sustain, sostenuto),
            ChannelOp::Silence => Slot {
                on: s.on,
                off: s.on,
                pending: 0,
                held: 0,
                caught_off: 0,
            },
        }
    }
}

impl GateTable {
    pub open spec fn wf(&self) -> bool {
        self@.wf()
    }

    /// A table for the block and gate-tile lengths of `cfg`, with no note
    /// sounding and every pedal up.
    pub fn new(cfg: &Config) -> (r: Self)
        requires
            cfg.gate_frames > 0,
            (cfg.block_frames as int / cfg.gate_frames as int) * GATE_SLOTS <= usize::MAX,
        ensures
            r.wf(),
            r.tiles == cfg.block_frames as int / cfg.gate_frames as int,
            r.rows@ == Seq::new((r.tiles * GATE_SLOTS) as nat, |i: int| 0u32),
            r@.tile_frames == cfg.gate_frames,
            r@.cursor == 0,
            r@.slots == Seq::new(GATE_SLOTS as nat, |i: int| Slot::zero()),
            r@.sustain == Seq::new(16, |i: int| false),
            r@.sostenuto == Seq::new(16, |i: int| false),
    {
        let tiles: usize = (cfg.block_frames / cfg.gate_frames) as usize;
        let zero = Slot { on: 0, off: 0, pending: 0, held: 0, caught_off: 0 };
        GateTable {
            rows: vec![0u32; tiles * GATE_SLOTS],
            tiles,
            slots: vec![zero; GATE_SLOTS],
            sustain: vec![false; 16],
            sostenuto: vec![false; 16],
            cursor: 0,
            tile_frames: cfg.gate_frames,
        }
    }

    /// The slot a channel and a key share.
    pub fn slot(ch: u8, key: u8) -> (r: usize)
        ensures
            r == slot_of(ch, key),
            r < GATE_SLOTS,
    {
        (ch % 16) as usize * 128 + (key % 128) as usize
    }

    /// Start a new block. Rows are written lazily as events arrive.
    pub fn begin_block(&mut self)
        requires
            old(self).wf(),
        ensures
            final(self).wf(),
            final(self)@ == old(self)@.begin(),
    {
        self.cursor = 0;
    }

    fn write_rows(&mut self, to: usize)
        requires
            old(self).wf(),
            to <= old(self).tiles,
        ensures
            final(self).wf(),
            final(self)@ == old(self)@.write_to(to as int),
    {
        let ghost g = self@;
        while self.cursor < to
            invariant
                g.wf(),
                to <= g.tiles,
                self.wf(),
                g.cursor <= self.cursor,
                self.cursor <= to || self.cursor == g.cursor,
                self@ == g.write_to(self.cursor as int),
            decreases to - self.cursor,
        {
            let ghost before = self@;
            let ghost t: int = self.cursor as int;
            assert(t * GATE_SLOTS + GATE_SLOTS <= self.tiles * GATE_SLOTS) by (nonlinear_arith)
                requires
                    t + 1 <= self.tiles,
            ;
            assert(self.rows.len() == self.tiles * GATE_SLOTS);
            let base: usize = self.cursor * GATE_SLOTS;
            let mut i: usize = 0;
            while i < GATE_SLOTS
                invariant
                    i <= GATE_SLOTS,
                    self.slots@ == before.slots,
                    self.slots@.len() == GATE_SLOTS,
                    base == t * GATE_SLOTS,
                    base + GATE_SLOTS <= before.rows.len(),
                    self@ == (Gates { rows: self.rows@, ..before }),
                    self.rows@.len() == before.rows.len(),
                    forall|j: int|
                        0 <= j < self.rows@.len() ==> #[trigger] self.rows@[j] == if base <= j < base
                            + i {
                            before.slots[j - base].off
                        } else {
                            before.rows[j]
                        },
                decreases GATE_SLOTS - i,
            {
                self.rows[base + i] = self.slots[i].off;
                i += 1;
            }
            self.cursor = self.cursor + 1;
            proof {
                let want = g.write_to(t + 1);
                assert forall|j: int| 0 <= j < want.rows.len() implies #[trigger] self.rows@[j]
                    == want.rows[j] by {
                    if base <= j < base + GATE_SLOTS {
                        assert(j % (GATE_SLOTS as int) == j - base) by {
                            vstd::arithmetic::div_mod::lemma_fundamental_div_mod_converse(
                                j,
                                GATE_SLOTS as int,
                                t,
                                j - base,
                            );
                        }
                    }
                }
                assert(self.rows@ =~= want.rows);
            }
        }
    }

    fn advance_to(&mut self, frame: u32)
        requires
            old(self).wf(),
        ensures
            final(self).wf(),
            final(self)@ == old(self)@.at(frame),
    {
        let tile: usize = (frame / self.tile_frames) as usize;
        let to: usize = if tile < self.tiles {
            tile + 1
        } else {
            self.tiles
        };
        self.write_rows(to);
    }

    /// Whether the note-off for `ordinal` at `slot` has been published.
    pub fn released(&self, slot: u32, ordinal: u32) -> (r: bool)
        requires
            self.wf(),
        ensures
            r == (self@.slots[slot as int % GATE_SLOTS as int].off >= ordinal),
    {
        self.slots[slot as usize % GATE_SLOTS].off >= ordinal
    }

    /// Register a note-on. Returns the ordinal the voice should carry.
    pub fn note_on(&mut self, ch: u8, key: u8, frame: u32) -> (ordinal: u32)
        requires
            old(self).wf(),
        ensures
            final(self).wf(),
            final(self)@ == old(self)@.note_on(ch, key, frame),
            ordinal == old(self)@.slots[slot_of(ch, key)].strike().on,
    {
        self.advance_to(frame);
        let s: usize = GateTable::slot(ch, key);
        let mut e = self.slots[s];
        e.on = e.on.wrapping_add(1);
        self.slots[s] = e;
        e.on
    }

    /// Register a note-off. A note-off with nothing behind it is ignored, which
    /// is what makes "release the oldest un-released note" fall out for free.
    pub fn note_off(&mut self, ch: u8, key: u8, frame: u32)
        requires
            old(self).wf(),
        ensures
            final(self).wf(),
            final(self)@ == old(self)@.note_off(ch, key, frame),
    {
        self.advance_to(frame);
        let s: usize = GateTable::slot(ch, key);
        let c: usize = (ch % 16) as usize;
        let mut e = self.slots[s];
        if unlifted(e) != 0 {
            if self.sostenuto[c] && e.held > 0 {
                e.pending = e.pending.wrapping_add(1);
                e.held = e.held - 1;
                e.caught_off = e.caught_off.wrapping_add(1);
            } else if self.sustain[c] {
                e.pending = e.pending.wrapping_add(1);
            } else {
                e.off = e.off.wrapping_add(1);
            }
        }
        self.slots[s] = e;
    }

    /// Whether the channel's sustain pedal is down.
    pub fn sustained(&self, ch: u8) -> (r: bool)
        requires
            self.wf(),
        ensures
            r == self@.sustain[chan_of(ch)],
    {
        self.sustain[(ch % 16) as usize]
    }

    fn sweep(&mut self, ch: u8, op: ChannelOp)
        requires
            old(self).wf(),
        ensures
            final(self).wf(),
            final(self)@ == (Gates {
                slots: on_channel(old(self)@.slots, chan_of(ch), |s: Slot| op.of(s)),
                ..old(self)@
            }),
    {
        let ghost before = self@;
        let base: usize = (ch % 16) as usize * 128;
        let mut k: usize = 0;
        while k < 128
            invariant
                k <= 128,
                before.wf(),
                base == chan_of(ch) * 128,
                0 <= chan_of(ch) < 16,
                self@ == (Gates { slots: self.slots@, ..before }),
                self.slots@.len() == GATE_SLOTS,
                forall|j: int|
                    0 <= j < GATE_SLOTS ==> #[trigger] self.slots@[j] == if base <= j < base + k {
                        op.of(before.slots[j])
                    } else {
                        before.slots[j]
                    },
            decreases 128 - k,
        {
            let e = self.slots[base + k];
            self.slots[base + k] = op.apply(e);
            k += 1;
        }
        assert(self.slots@ =~= on_channel(before.slots, chan_of(ch), |s: Slot| op.of(s)));
    }

    /// Move the sustain pedal. Pressing holds every later note-off on the
    /// channel; releasing publishes all of them at this frame, which is what
    /// makes a pedalled chord ring on and then damp together. What the sostenuto
    /// pedal caught stays held while that pedal is down.
    pub fn set_sustain(&mut self, ch: u8, down: bool, frame: u32)
        requires
            old(self).wf(),
        ensures
            final(self).wf(),
            final(self)@ == old(self)@.set_sustain(ch, down, frame),
    {
        let c: usize = (ch % 16) as usize;
        if down == self.sustain[c] {
            return;
        }
        self.advance_to(frame);
        self.sustain[c] = down;
        if !down {
            if self.sostenuto[c] {
                self.sweep(ch, ChannelOp::FlushUncaught);
            } else {
                self.sweep(ch, ChannelOp::Flush);
            }
        }
        assert(self@ =~= old(self)@.set_sustain(ch, down, frame));
    }

    /// Move the sostenuto pedal. It holds only the notes already sounding when
    /// it goes down; notes struck afterwards damp normally, which is the whole
    /// point of it.
    pub fn set_sostenuto(&mut self, ch: u8, down: bool, frame: u32)
        requires
            old(self).wf(),
        ensures
            final(self).wf(),
            final(self)@ == old(self)@.set_sostenuto(ch, down, frame),
    {
        let c: usize = (ch % 16) as usize;
        if down == self.sostenuto[c] {
            return;
        }
        self.advance_to(frame);
        self.sostenuto[c] = down;
        if down {
            self.sweep(ch, ChannelOp::Catch);
        } else if self.sustain[c] {
            self.sweep(ch, ChannelOp::Forget);
        } else {
            self.sweep(ch, ChannelOp::ForgetAndFlush);
        }
        assert(self@ =~= old(self)@.set_sostenuto(ch, down, frame));
    }

    /// Release what is sounding on the channel, but a held pedal still holds:
    /// the notes damp when the pedal comes up, not here.
    pub fn all_notes_off(&mut self, ch: u8, frame: u32)
        requires
            old(self).wf(),
        ensures
            final(self).wf(),
            final(self)@ == old(self)@.all_notes_off(ch, frame),
    {
        self.advance_to(frame);
        let c: usize = (ch % 16) as usize;
        let sustain = self.sustain[c];
        let sostenuto = self.sostenuto[c];
        self.sweep(ch, ChannelOp::Damp(sustain, sostenuto));
        assert(self@ =~= old(self)@.all_notes_off(ch, frame));
    }

    /// Stop everything on the channel now, pedal or not, and drop what the pedal
    /// was holding.
    pub fn all_sound_off(&mut self, ch: u8, frame: u32)
        requires
            old(self).wf(),
        ensures
            final(self).wf(),
            final(self)@ == old(self)@.all_sound_off(ch, frame),
    {
        self.advance_to(frame);
        self.sweep(ch, ChannelOp::Silence);
        assert(self@ =~= old(self)@.all_sound_off(ch, frame));
    }

    /// Lifting the pedals is part of resetting a channel's controllers, so
    /// anything they were holding damps here.
    pub fn reset_controllers(&mut self, ch: u8, frame: u32)
        requires
            old(self).wf(),
        ensures
            final(self).wf(),
            final(self)@ == old(self)@.reset_controllers(ch, frame),
    {
        self.set_sostenuto(ch, false, frame);
        self.set_sustain(ch, false, frame);
    }

    /// Finish the block by filling any tiles no event reached.
    pub fn end_block(&mut self)
        requires
            old(self).wf(),
        ensures
            final(self).wf(),
            final(self)@ == old(self)@.end(),
    {
        let t: usize = self.tiles;
        self.write_rows(t);
    }

    /// The published row of one tile.
    pub fn row(&self, tile: usize) -> (r: &[u32])
        requires
            self.wf(),
            tile < self.tiles,
        ensures
            r@.len() == GATE_SLOTS,
            forall|s: int| 0 <= s < GATE_SLOTS ==> #[trigger] r@[s] == self@.entry(tile as int, s),
    {
        assert(tile * GATE_SLOTS + GATE_SLOTS <= self.tiles * GATE_SLOTS) by (nonlinear_arith)
            requires
                tile + 1 <= self.tiles,
        ;
        assert(self.rows.len() == self.tiles * GATE_SLOTS);
        let base: usize = tile * GATE_SLOTS;
        vstd::slice::slice_subrange(self.rows.as_slice(), base, base + GATE_SLOTS)
    }

    /// Number of notes started but not yet released, across all slots. Notes a
    /// pedal is holding count as sounding, because they are.
    pub fn sounding(&self) -> (r: u64)
        requires
            self.wf(),
        ensures
            r == self@.sounding_in(GATE_SLOTS as int),
    {
        let mut n: u64 = 0;
        let mut i: usize = 0;
        while i < GATE_SLOTS
            invariant
                i <= GATE_SLOTS,
                self.wf(),
                n == self@.sounding_in(i as int),
                n <= i * 0xffff_ffff,
            decreases GATE_SLOTS - i,
        {
            let e = self.slots[i];
            n += e.on.wrapping_sub(e.off) as u64;
            i += 1;
        }
        n
    }
}

} // verus!
