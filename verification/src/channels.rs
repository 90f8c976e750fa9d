//! Per-channel controller state, published the same way the note-off gate is:
//! one row per gate tile, which a voice reads for its own channel.

use crate::config::Config;
use crate::fbits::F32_ONE;
use crate::fixed::BEND_ONE;
use crate::gates::{chan_of, slot_of};
use vstd::prelude::*;

verus! {

pub const BEND_CHANNELS: usize = 16;

/// Words per channel in a row: bend factor, left gain, right gain, variant.
pub const CHAN_FIELDS: usize = 4;

pub const CHAN_BEND: usize = 0;

pub const CHAN_GAIN_L: usize = 1;

pub const CHAN_GAIN_R: usize = 2;

/// Which copy of the params table this channel's voices read.
pub const CHAN_VARIANT: usize = 3;

/// Words in one row.
pub const CHAN_ROW: usize = 64;

/// The table as its contracts speak of it.
#[verifier::ext_equal]
pub struct Channels {
    /// The published rows, one after another.
    pub rows: Seq<u32>,
    /// The words of every channel at this moment.
    pub now: Seq<u32>,
    /// Next tile that still needs its row.
    pub cursor: int,
    pub tiles: int,
    pub tile_frames: int,
    pub bend_active: bool,
    pub gain_active: bool,
    pub variant_active: bool,
}

/// Where a row keeps one field of a channel.
pub open spec fn word(ch: u8, field: int) -> int {
    chan_of(ch) * CHAN_FIELDS + field
}

/// What a channel powers on with.
pub open spec fn power_on_word(i: int) -> u32 {
    if i % 4 == CHAN_BEND {
        BEND_ONE
    } else if i % 4 == CHAN_VARIANT {
        0
    } else {
        F32_ONE
    }
}

/// An 8.24 product of two bend factors, kept in 32 bits and never zero.
pub open spec fn bend_product(a: u32, b: u32) -> u32 {
    let p = ((a * b / BEND_ONE as int) % 0x1_0000_0000) as u32;
    if p == 0 {
        1
    } else {
        p
    }
}

impl Channels {
    pub open spec fn wf(self) -> bool {
        &&& self.now.len() == CHAN_ROW
        &&& 0 <= self.cursor <= self.tiles
        &&& self.rows.len() == self.tiles * CHAN_ROW
        &&& self.tile_frames > 0
    }

    /// One published word.
    pub open spec fn entry(self, tile: int, i: int) -> u32 {
        self.rows[tile * CHAN_ROW + i]
    }

    /// The rows from the cursor up to tile `to` written with the words of this
    /// moment.
    pub open spec fn write_to(self, to: int) -> Channels {
        if to <= self.cursor {
            self
        } else {
            Channels {
                rows: Seq::new(
                    self.rows.len(),
                    |i: int|
                        if self.cursor * CHAN_ROW <= i < to * CHAN_ROW {
                            self.now[i % (CHAN_ROW as int)]
                        } else {
                            self.rows[i]
                        },
                ),
                cursor: to,
                ..self
            }
        }
    }

    /// The rows written up to and including the tile that holds `frame`.
    pub open spec fn at(self, frame: u32) -> Channels {
        let tile = frame as int / self.tile_frames;
        self.write_to(if tile < self.tiles {
            tile + 1
        } else {
            self.tiles
        })
    }

    pub open spec fn begin(self) -> Channels {
        Channels { cursor: 0, ..self }
    }

    pub open spec fn end(self) -> Channels {
        self.write_to(self.tiles)
    }

    /// One word set from `frame` on. Setting what is already there does nothing.
    pub open spec fn set_word(self, i: int, v: u32, frame: u32) -> Channels {
        if self.now[i] == v {
            self
        } else {
            let g = self.at(frame);
            Channels { now: g.now.update(i, v), ..g }
        }
    }

    pub open spec fn set_bend(self, ch: u8, factor: u32, frame: u32) -> Channels {
        self.set_word(word(ch, CHAN_BEND as int), factor, frame)
    }

    pub open spec fn set_gain(self, ch: u8, l: u32, r: u32, frame: u32) -> Channels {
        let il = word(ch, CHAN_GAIN_L as int);
        let ir = word(ch, CHAN_GAIN_R as int);
        if self.now[il] == l && self.now[ir] == r {
            self
        } else {
            let g = self.at(frame);
            Channels { now: g.now.update(il, l).update(ir, r), ..g }
        }
    }

    pub open spec fn set_variant(self, ch: u8, variant: u32, frame: u32) -> Channels {
        self.set_word(word(ch, CHAN_VARIANT as int), variant, frame)
    }

    pub open spec fn modulate_bend(self, ch: u8, tile: int, factor: u32) -> Channels {
        let i = tile * CHAN_ROW + word(ch, CHAN_BEND as int);
        Channels { rows: self.rows.update(i, bend_product(self.rows[i], factor)), ..self }
    }

    pub open spec fn modulate_gain(self, ch: u8, tile: int, l: u32, r: u32) -> Channels {
        let il = tile * CHAN_ROW + word(ch, CHAN_GAIN_L as int);
        let ir = tile * CHAN_ROW + word(ch, CHAN_GAIN_R as int);
        Channels { rows: self.rows.update(il, l).update(ir, r), ..self }
    }

    /// Some published entry bends.
    pub open spec fn any_bend(self) -> bool {
        exists|i: int|
            0 <= i < self.rows.len() && i % 4 == CHAN_BEND && #[trigger] self.rows[i] != BEND_ONE
    }

    /// Some published entry scales its channel.
    pub open spec fn any_gain(self) -> bool {
        exists|i: int|
            0 <= i < self.rows.len() && (i % 4 == CHAN_GAIN_L || i % 4 == CHAN_GAIN_R)
                && #[trigger] self.rows[i] != F32_ONE
    }

    /// Some published entry names another copy of the params table.
    pub open spec fn any_variant(self) -> bool {
        exists|i: int|
            0 <= i < self.rows.len() && i % 4 == CHAN_VARIANT && #[trigger] self.rows[i] != 0
    }

    pub open spec fn refreshed(self) -> Channels {
        Channels {
            bend_active: self.any_bend(),
            gain_active: self.any_gain(),
            variant_active: self.any_variant(),
            ..self
        }
    }
}

/// The per-channel controller rows of one block.
///
/// Bend, gain and variant are tracked separately: if one of them sat at its
/// neutral value for the whole block, the render pass is told and skips it.
pub struct ChannelTable {
    /// `tiles * BEND_CHANNELS * CHAN_FIELDS` entries, tile-major. Gains are
    /// single-precision bit patterns; the bend factor is 8.24 fixed point.
    pub rows: Vec<u32>,
    pub tiles: usize,
    /// Current state per channel, carried across blocks.
    pub now: Vec<u32>,
    /// Next tile that still needs its row written.
    pub cursor: usize,
    pub tile_frames: u32,
    pub bends: bool,
    pub gains: bool,
    pub variants: bool,
}

impl View for ChannelTable {
    type V = Channels;

    open spec fn view(&self) -> Channels {
        Channels {
            rows: self.rows@,
            now: self.now@,
            cursor: self.cursor as int,
            tiles: self.tiles as int,
            tile_frames: self.tile_frames as int,
            bend_active: self.bends,
            gain_active: self.gains,
            variant_active: self.variants,
        }
    }
}

impl ChannelTable {
    pub open spec fn wf(&self) -> bool {
        self@.wf()
    }

    /// A table for the block and gate-tile lengths of `cfg`, every channel
    /// unbent, at unity gain and on the untouched params table.
    pub fn new(cfg: &Config) -> (r: Self)
        requires
            cfg.gate_frames > 0,
            (cfg.block_frames as int / cfg.gate_frames as int) * CHAN_ROW <= usize::MAX,
        ensures
            r.wf(),
            r.tiles == cfg.block_frames as int / cfg.gate_frames as int,
            r@.tile_frames == cfg.gate_frames,
            r@.cursor == 0,
            r@.now == Seq::new(CHAN_ROW as nat, |i: int| power_on_word(i)),
            r@.rows == Seq::new((r.tiles * CHAN_ROW) as nat, |i: int| power_on_word(i)),
            !r@.bend_active,
            !r@.gain_active,
            !r@.variant_active,
    {
        let tiles: usize = (cfg.block_frames / cfg.gate_frames) as usize;
        let mut now: Vec<u32> = Vec::new();
        let mut i: usize = 0;
        while i < CHAN_ROW
            invariant
                i <= CHAN_ROW,
                now@ == Seq::new(i as nat, |j: int| power_on_word(j)),
            decreases CHAN_ROW - i,
        {
            now.push(ChannelTable::neutral(i));
            i += 1;
        }
        let n: usize = tiles * CHAN_ROW;
        let mut rows: Vec<u32> = Vec::new();
        let mut j: usize = 0;
        while j < n
            invariant
                j <= n,
                rows@ == Seq::new(j as nat, |k: int| power_on_word(k)),
            decreases n - j,
        {
            rows.push(ChannelTable::neutral(j));
            j += 1;
        }
        ChannelTable {
            rows,
            tiles,
            now,
            cursor: 0,
            tile_frames: cfg.gate_frames,
            bends: false,
            gains: false,
            variants: false,
        }
    }

    fn neutral(i: usize) -> (r: u32)
        ensures
            r == power_on_word(i as int),
    {
        let f: usize = i % CHAN_FIELDS;
        if f == CHAN_BEND {
            BEND_ONE
        } else if f == CHAN_VARIANT {
            0
        } else {
            F32_ONE
        }
    }

    /// Start a new block.
    pub fn begin_block(&mut self)
        requires
            old(self).wf(),
        ensures
            final(self).wf(),
            final(self)@ == old(self)@.begin(),
    {
        self.cursor = 0;
    }

    fn write_rows(&mut self, to: usize)
        requires
            old(self).wf(),
            to <= old(self).tiles,
        ensures
            final(self).wf(),
            final(self)@ == old(self)@.write_to(to as int),
    {
        let ghost g = self@;
        while self.cursor < to
            invariant
                g.wf(),
                to <= g.tiles,
                self.wf(),
                g.cursor <= self.cursor,
                self.cursor <= to || self.cursor == g.cursor,
                self@ == g.write_to(self.cursor as int),
            decreases to - self.cursor,
        {
            let ghost before = self@;
            let ghost t: int = self.cursor as int;
            assert(t * CHAN_ROW + CHAN_ROW <= self.tiles * CHAN_ROW) by (nonlinear_arith)
                requires
                    t + 1 <= self.tiles,
            ;
            assert(self.rows.len() == self.tiles * CHAN_ROW);
            let base: usize = self.cursor * CHAN_ROW;
            let mut i: usize = 0;
            while i < CHAN_ROW
                invariant
                    i <= CHAN_ROW,
                    self.now@ == before.now,
                    self.now@.len() == CHAN_ROW,
                    base == t * CHAN_ROW,
                    base + CHAN_ROW <= before.rows.len(),
                    self@ == (Channels { rows: self.rows@, ..before }),
                    self.rows@.len() == before.rows.len(),
                    forall|j: int|
                        0 <= j < self.rows@.len() ==> #[trigger] self.rows@[j] == if base <= j < base
                            + i {
                            before.now[j - base]
                        } else {
                            before.rows[j]
                        },
                decreases CHAN_ROW - i,
            {
                self.rows[base + i] = self.now[i];
                i += 1;
            }
            self.cursor = self.cursor + 1;
            proof {
                let want = g.write_to(t + 1);
                assert forall|j: int| 0 <= j < want.rows.len() implies #[trigger] self.rows@[j]
                    == want.rows[j] by {
                    if base <= j < base + CHAN_ROW {
                        assert(j % (CHAN_ROW as int) == j - base) by {
                            vstd::arithmetic::div_mod::lemma_fundamental_div_mod_converse(
                                j,
                                CHAN_ROW as int,
                                t,
                                j - base,
                            );
                        }
                    }
                }
                assert(self.rows@ =~= want.rows);
            }
        }
    }

    fn advance_to(&mut self, frame: u32)
        requires
            old(self).wf(),
        ensures
            final(self).wf(),
            final(self)@ == old(self)@.at(frame),
    {
        let tile: usize = (frame / self.tile_frames) as usize;
        let to: usize = if tile < self.tiles {
            tile + 1
        } else {
            self.tiles
        };
        self.write_rows(to);
    }

    /// Set a channel's bend factor from this frame on.
    pub fn set_bend(&mut self, ch: u8, factor: u32, frame: u32)
        requires
            old(self).wf(),
        ensures
            final(self).wf(),
            final(self)@ == old(self)@.set_bend(ch, factor, frame),
    {
        let i: usize = (ch % 16) as usize * CHAN_FIELDS + CHAN_BEND;
        if self.now[i] == factor {
            return;
        }
        self.advance_to(frame);
        self.now[i] = factor;
    }

    /// Set a channel's output gains, as single-precision bit patterns, from this
    /// frame on. These multiply the per-voice gains.
    pub fn set_gain(&mut self, ch: u8, l: u32, r: u32, frame: u32)
        requires
            old(self).wf(),
        ensures
            final(self).wf(),
            final(self)@ == old(self)@.set_gain(ch, l, r, frame),
    {
        let base: usize = (ch % 16) as usize * CHAN_FIELDS;
        if self.now[base + CHAN_GAIN_L] == l && self.now[base + CHAN_GAIN_R] == r {
            return;
        }
        self.advance_to(frame);
        self.now[base + CHAN_GAIN_L] = l;
        self.now[base + CHAN_GAIN_R] = r;
    }

    /// Select which copy of the params table this channel reads from.
    pub fn set_variant(&mut self, ch: u8, variant: u32, frame: u32)
        requires
            old(self).wf(),
        ensures
            final(self).wf(),
            final(self)@ == old(self)@.set_variant(ch, variant, frame),
    {
        let i: usize = (ch % 16) as usize * CHAN_FIELDS + CHAN_VARIANT;
        if self.now[i] == variant {
            return;
        }
        self.advance_to(frame);
        self.now[i] = variant;
    }

    /// Fill any tiles no event reached. Call before the modulation and
    /// `refresh_active`.
    pub fn end_block(&mut self)
        requires
            old(self).wf(),
        ensures
            final(self).wf(),
            final(self)@ == old(self)@.end(),
    {
        let t: usize = self.tiles;
        self.write_rows(t);
    }

    fn index(&self, ch: u8, tile: usize, field: usize) -> (i: usize)
        requires
            self.wf(),
            tile < self.tiles,
            field < CHAN_FIELDS,
        ensures
            i == tile * CHAN_ROW + word(ch, field as int),
            i < self.rows@.len(),
    {
        assert(tile * CHAN_ROW + CHAN_ROW <= self.tiles * CHAN_ROW) by (nonlinear_arith)
            requires
                tile + 1 <= self.tiles,
        ;
        assert(self.rows.len() == self.tiles * CHAN_ROW);
        tile * CHAN_ROW + (ch % 16) as usize * CHAN_FIELDS + field
    }

    /// Multiply a tile's already-published bend factor, for an oscillator the
    /// host evaluates per tile rather than per event. Modulation is a curve laid
    /// over whatever the bend lever last asked for, not a replacement for it.
    pub fn modulate_bend(&mut self, ch: u8, tile: usize, factor: u32)
        requires
            old(self).wf(),
            tile < old(self).tiles,
        ensures
            final(self).wf(),
            final(self)@ == old(self)@.modulate_bend(ch, tile as int, factor),
    {
        let i: usize = self.index(ch, tile, CHAN_BEND);
        let row: u32 = self.rows[i];
        assert(0 <= row * factor <= 0xffff_ffff * 0xffff_ffff) by (nonlinear_arith)
            requires
                0 <= row <= 0xffff_ffff,
                0 <= factor <= 0xffff_ffff,
        ;
        let p: u64 = row as u64 * factor as u64 / BEND_ONE as u64;
        let scaled: u32 = (p % 0x1_0000_0000) as u32;
        self.rows[i] = if scaled < 1 {
            1
        } else {
            scaled
        };
    }

    /// A tile's already-published gains, as bit patterns.
    pub fn gains_at(&self, ch: u8, tile: usize) -> (r: (u32, u32))
        requires
            self.wf(),
            tile < self.tiles,
        ensures
            r.0 == self@.entry(tile as int, word(ch, CHAN_GAIN_L as int)),
            r.1 == self@.entry(tile as int, word(ch, CHAN_GAIN_R as int)),
    {
        let il: usize = self.index(ch, tile, CHAN_GAIN_L);
        let ir: usize = self.index(ch, tile, CHAN_GAIN_R);
        (self.rows[il], self.rows[ir])
    }

    /// Replace a tile's already-published gains by their scaled values, as bit
    /// patterns, for a tremolo oscillator.
    pub fn modulate_gain(&mut self, ch: u8, tile: usize, l: u32, r: u32)
        requires
            old(self).wf(),
            tile < old(self).tiles,
        ensures
            final(self).wf(),
            final(self)@ == old(self)@.modulate_gain(ch, tile as int, l, r),
    {
        let il: usize = self.index(ch, tile, CHAN_GAIN_L);
        let ir: usize = self.index(ch, tile, CHAN_GAIN_R);
        self.rows[il] = l;
        self.rows[ir] = r;
    }

    /// Find out which of the three controls the published rows use at all.
    pub fn refresh_active(&mut self)
        requires
            old(self).wf(),
        ensures
            final(self).wf(),
            final(self)@ == old(self)@.refreshed(),
    {
        let mut bends = false;
        let mut gains = false;
        let mut variants = false;
        let n: usize = self.rows.len();
        let ghost rows = self.rows@;
        let mut i: usize = 0;
        while i < n
            invariant
                i <= n,
                n == rows.len(),
                self@ == old(self)@,
                self.rows@ == rows,
                bends == exists|j: int|
                    0 <= j < i && j % 4 == CHAN_BEND && #[trigger] rows[j] != BEND_ONE,
                gains == exists|j: int|
                    0 <= j < i && (j % 4 == CHAN_GAIN_L || j % 4 == CHAN_GAIN_R)
                        && #[trigger] rows[j] != F32_ONE,
                variants == exists|j: int|
                    0 <= j < i && j % 4 == CHAN_VARIANT && #[trigger] rows[j] != 0,
            decreases n - i,
        {
            let w: u32 = self.rows[i];
            let f: usize = i % CHAN_FIELDS;
            assert(rows[i as int] == w);
            if f == CHAN_BEND {
                if w != BEND_ONE {
                    bends = true;
                }
            } else if f == CHAN_VARIANT {
                if w != 0 {
                    variants = true;
                }
            } else if w != F32_ONE {
                gains = true;
            }
            i += 1;
        }
        self.bends = bends;
        self.gains = gains;
        self.variants = variants;
    }

    /// False when every channel read the untouched params table, which lets a
    /// backend skip re-reading a voice's constants entirely.
    pub fn variant_active(&self) -> (r: bool)
        ensures
            r == self@.variant_active,
    {
        self.variants
    }

    /// True when any of the three needs the controller path at all.
    pub fn any_active(&self) -> (r: bool)
        ensures
            r == (self@.bend_active || self@.gain_active || self@.variant_active),
    {
        self.bends || self.gains || self.variants
    }

    /// False when nothing in this block is bent.
    pub fn bend_active(&self) -> (r: bool)
        ensures
            r == self@.bend_active,
    {
        self.bends
    }

    /// False when every channel sat at unity gain.
    pub fn gain_active(&self) -> (r: bool)
        ensures
            r == self@.gain_active,
    {
        self.gains
    }

    /// The published row of one tile.
    pub fn row(&self, tile: usize) -> (r: &[u32])
        requires
            self.wf(),
            tile < self.tiles,
        ensures
            r@.len() == CHAN_ROW,
            forall|i: int| 0 <= i < CHAN_ROW ==> #[trigger] r@[i] == self@.entry(tile as int, i),
    {
        assert(tile * CHAN_ROW + CHAN_ROW <= self.tiles * CHAN_ROW) by (nonlinear_arith)
            requires
                tile + 1 <= self.tiles,
        ;
        assert(self.rows.len() == self.tiles * CHAN_ROW);
        let base: usize = tile * CHAN_ROW;
        vstd::slice::slice_subrange(self.rows.as_slice(), base, base + CHAN_ROW)
    }

    /// The channel a voice belongs to, recovered from its gate slot.
    pub fn channel_of(gate_slot: u32) -> (r: usize)
        ensures
            r == (gate_slot as int / 128) % 16,
    {
        (gate_slot / 128 % 16) as usize
    }
}

/// A gate slot remembers its channel.
pub proof fn law_slot_names_its_channel(ch: u8, key: u8)
    ensures
        (slot_of(ch, key) / 128) % 16 == chan_of(ch),
{
}

/// A table whose rows are all neutral needs no controller path.
pub proof fn law_neutral_rows_are_inactive(g: Channels)
    requires
        g.wf(),
        forall|i: int| 0 <= i < g.rows.len() ==> #[trigger] g.rows[i] == power_on_word(i),
    ensures
        !g.refreshed().bend_active,
        !g.refreshed().gain_active,
        !g.refreshed().variant_active,
{
}

/// Setting what a channel already has changes nothing, whatever the frame.
pub proof fn law_redundant_settings_change_nothing(g: Channels, ch: u8, frame: u32)
    requires
        g.wf(),
    ensures
        g.set_bend(ch, g.now[word(ch, CHAN_BEND as int)], frame) == g,
        g.set_variant(ch, g.now[word(ch, CHAN_VARIANT as int)], frame) == g,
        g.set_gain(
            ch,
            g.now[word(ch, CHAN_GAIN_L as int)],
            g.now[word(ch, CHAN_GAIN_R as int)],
            frame,
        ) == g,
{
}

/// A setting reaches its own channel's words and no others.
pub proof fn law_settings_stay_on_their_channel(g: Channels, ch: u8, v: u32, frame: u32, i: int)
    requires
        g.wf(),
        0 <= i < CHAN_ROW,
        i / 4 != chan_of(ch),
    ensures
        g.set_bend(ch, v, frame).now[i] == g.now[i],
        g.set_variant(ch, v, frame).now[i] == g.now[i],
        g.set_gain(ch, v, v, frame).now[i] == g.now[i],
{
}

} // verus!
