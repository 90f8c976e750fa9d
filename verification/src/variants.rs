//! Copies of the params table, one per combination of sound controllers in use.
//!
//! The sound controllers change filter coefficients and envelope rates, so they
//! cannot be a per-channel scalar. Instead the whole params table is rebuilt for
//! each distinct combination a file uses, and a channel selects between the
//! copies. This module decides which copy a channel is on; the copies themselves
//! are built by whoever does the arithmetic.

use crate::controls::Sound;
use vstd::prelude::*;

verus! {

/// Slots a packed note-on can name.
pub const VARIANT_SLOTS: usize = 64;

/// The most copies that are ever built.
pub const MAX_VARIANTS: usize = 63;

/// How far the sound controllers are quantised before they become a variant:
/// two steps of a controller, so 64 levels.
pub const SOUND_CC_STEP: u8 = 2;

/// A combination of sound controllers, quantised.
pub open spec fn quantised(s: Sound) -> Sound {
    Sound {
        resonance: s.resonance / SOUND_CC_STEP,
        release: s.release / SOUND_CC_STEP,
        attack: s.attack / SOUND_CC_STEP,
        brightness: s.brightness / SOUND_CC_STEP,
        decay: s.decay / SOUND_CC_STEP,
    }
}

fn quantise(s: Sound) -> (r: Sound)
    ensures
        r == quantised(s),
{
    Sound {
        resonance: s.resonance / SOUND_CC_STEP,
        release: s.release / SOUND_CC_STEP,
        attack: s.attack / SOUND_CC_STEP,
        brightness: s.brightness / SOUND_CC_STEP,
        decay: s.decay / SOUND_CC_STEP,
    }
}

pub open spec fn gap(a: u8, b: u8) -> int {
    if a < b {
        b - a
    } else {
        a - b
    }
}

/// How far two combinations are apart.
pub open spec fn distance(a: Sound, b: Sound) -> int {
    gap(a.resonance, b.resonance) + gap(a.release, b.release) + gap(a.attack, b.attack) + gap(
        a.brightness,
        b.brightness,
    ) + gap(a.decay, b.decay)
}

fn apart(a: u8, b: u8) -> (r: u32)
    ensures
        r == gap(a, b),
{
    if a < b {
        (b - a) as u32
    } else {
        (a - b) as u32
    }
}

fn measure(a: Sound, b: Sound) -> (r: u32)
    ensures
        r == distance(a, b),
{
    apart(a.resonance, b.resonance) + apart(a.release, b.release) + apart(a.attack, b.attack)
        + apart(a.brightness, b.brightness) + apart(a.decay, b.decay)
}

/// A copy to build: its slot and the raw controllers to build it from.
#[derive(Debug, Clone, Copy, PartialEq, Eq, Structural)]
pub struct Build {
    pub slot: u32,
    pub sound: Sound,
}

/// The table as its contracts speak of it.
#[verifier::ext_equal]
pub struct Variants {
    /// The quantised combination each slot holds.
    pub states: Seq<Sound>,
    /// Every combination the file has asked for.
    pub asked: Seq<Sound>,
    /// When each slot was last selected.
    pub stamp: Seq<u64>,
    /// Slots some channel or queued voice has pointed at during this block.
    pub used: Seq<bool>,
    pub clock: int,
    /// The slot each channel is on.
    pub cur: Seq<u32>,
    /// Copies asked for this block and not yet built.
    pub pending: Seq<Build>,
    pub rebuilds: int,
    pub fallbacks: int,
}

/// The first slot from `from` on that holds a combination.
pub open spec fn find_state(states: Seq<Sound>, want: Sound, from: int) -> Option<int>
    decreases states.len() - from,
{
    if from < 0 || from >= states.len() {
        None
    } else if states[from] == want {
        Some(from)
    } else {
        find_state(states, want, from + 1)
    }
}

/// Among the first `n` slots but slot 0, the one that nothing has pointed at
/// this block and that was selected longest ago; the lowest of several.
pub open spec fn stalest(used: Seq<bool>, stamp: Seq<u64>, n: int) -> Option<int>
    decreases n,
{
    if n <= 1 {
        None
    } else {
        let b = stalest(used, stamp, n - 1);
        if used[n - 1] {
            b
        } else {
            match b {
                None => Some(n - 1),
                Some(j) => if stamp[n - 1] < stamp[j] {
                    Some(n - 1)
                } else {
                    b
                },
            }
        }
    }
}

/// Among the first `n` slots, the one closest to a combination; the lowest of
/// several.
pub open spec fn nearest(states: Seq<Sound>, want: Sound, n: int) -> int
    decreases n,
{
    if n <= 1 {
        0
    } else {
        let b = nearest(states, want, n - 1);
        if distance(states[n - 1], want) < distance(states[b], want) {
            n - 1
        } else {
            b
        }
    }
}

/// Which slot a combination gets.
#[derive(Debug, Clone, Copy, PartialEq, Eq, Structural)]
pub enum Choice {
    /// A slot holds it already.
    Held(usize),
    /// A new slot.
    Fresh(usize),
    /// A slot nothing points at any more.
    Rebuilt(usize),
    /// Every slot is spoken for: the closest one.
    Closest(usize),
}

/// The builds without those for one slot.
pub open spec fn without(pending: Seq<Build>, slot: u32, n: int) -> Seq<Build>
    decreases n,
{
    if n <= 0 {
        Seq::empty()
    } else {
        let before = without(pending, slot, n - 1);
        if pending[n - 1].slot == slot {
            before
        } else {
            before.push(pending[n - 1])
        }
    }
}

/// The cap on slots as it takes effect.
pub open spec fn slot_cap(max_variants: u32) -> int {
    if max_variants < 1 {
        1
    } else if max_variants > MAX_VARIANTS {
        MAX_VARIANTS as int
    } else {
        max_variants as int
    }
}

impl Variants {
    pub open spec fn wf(self) -> bool {
        &&& 1 <= self.states.len() <= MAX_VARIANTS
        &&& self.stamp.len() == self.states.len()
        &&& self.used.len() == VARIANT_SLOTS
        &&& self.used[0]
        &&& self.cur.len() == 16
        &&& forall|c: int|
            0 <= c < 16 ==> (#[trigger] self.cur[c]) < self.states.len()
                && self.used[self.cur[c] as int]
        &&& forall|i: int|
            0 <= i < self.pending.len() ==> (#[trigger] self.pending[i]).slot < self.states.len()
        &&& self.fallbacks <= self.clock
        &&& self.rebuilds <= self.clock
        &&& 0 <= self.fallbacks
        &&& 0 <= self.rebuilds
    }

    /// The table a render starts with: one slot, holding the neutral
    /// combination, and every channel on it.
    pub open spec fn initial() -> Variants {
        Variants {
            states: seq![quantised(Sound::neutral())],
            asked: seq![quantised(Sound::neutral())],
            stamp: seq![0u64],
            used: Seq::new(VARIANT_SLOTS as nat, |i: int| i == 0),
            clock: 0,
            cur: Seq::new(16, |i: int| 0u32),
            pending: Seq::empty(),
            rebuilds: 0,
            fallbacks: 0,
        }
    }

    /// The slot a combination gets.
    pub open spec fn choice(self, want: Sound, cap: int) -> Choice {
        let n = self.states.len() as int;
        match find_state(self.states, want, 0) {
            Some(i) => Choice::Held(i as usize),
            None => if n < cap {
                Choice::Fresh(n as usize)
            } else {
                match stalest(self.used, self.stamp, n) {
                    Some(i) => Choice::Rebuilt(i as usize),
                    None => Choice::Closest(nearest(self.states, want, n) as usize),
                }
            },
        }
    }

    /// A build queued for a slot. A slot rebuilt twice in one block only needs
    /// its last state.
    pub open spec fn queued(self, slot: int, sound: Sound) -> Seq<Build> {
        without(self.pending, slot as u32, self.pending.len() as int).push(
            Build { slot: slot as u32, sound },
        )
    }

    /// Channel `c` moved onto the copy for its raw sound controllers.
    pub open spec fn select(self, c: int, sound: Sound, cap: int) -> Variants {
        let want = quantised(sound);
        let asked = if self.asked.contains(want) {
            self.asked
        } else {
            self.asked.push(want)
        };
        let (slot, states, stamp, pending, rebuilds, fallbacks) = match self.choice(want, cap) {
            Choice::Held(i) => (
                i as int,
                self.states,
                self.stamp,
                self.pending,
                self.rebuilds,
                self.fallbacks,
            ),
            Choice::Fresh(i) => (
                i as int,
                self.states.push(want),
                self.stamp.push(0),
                self.queued(i as int, sound),
                self.rebuilds,
                self.fallbacks,
            ),
            Choice::Rebuilt(i) => (
                i as int,
                self.states.update(i as int, want),
                self.stamp,
                self.queued(i as int, sound),
                self.rebuilds + 1,
                self.fallbacks,
            ),
            Choice::Closest(i) => (
                i as int,
                self.states,
                self.stamp,
                self.pending,
                self.rebuilds,
                self.fallbacks + 1,
            ),
        };
        Variants {
            states,
            asked,
            stamp: stamp.update(slot, (self.clock + 1) as u64),
            used: self.used.update(slot, true),
            clock: self.clock + 1,
            cur: self.cur.update(c, slot as u32),
            pending,
            rebuilds,
            fallbacks,
        }
    }

    /// A new block: what each channel is on stays referenced for all of it.
    pub open spec fn begin(self) -> Variants {
        Variants {
            used: Seq::new(
                VARIANT_SLOTS as nat,
                |i: int| i == 0 || exists|c: int| 0 <= c < 16 && #[trigger] self.cur[c] == i,
            ),
            ..self
        }
    }

    /// A slot a queued voice was born under.
    pub open spec fn pin(self, slot: int) -> Variants {
        Variants { used: self.used.update(slot, true), ..self }
    }
}

/// Which copy of the params table each channel reads.
pub struct VariantTable {
    pub states: Vec<Sound>,
    pub asked: Vec<Sound>,
    pub stamp: Vec<u64>,
    pub used: Vec<bool>,
    pub clock: u64,
    pub cur: Vec<u32>,
    pub pending: Vec<Build>,
    pub rebuilds: u64,
    pub fallbacks: u64,
}

impl View for VariantTable {
    type V = Variants;

    open spec fn view(&self) -> Variants {
        Variants {
            states: self.states@,
            asked: self.asked@,
            stamp: self.stamp@,
            used: self.used@,
            clock: self.clock as int,
            cur: self.cur@,
            pending: self.pending@,
            rebuilds: self.rebuilds as int,
            fallbacks: self.fallbacks as int,
        }
    }
}

proof fn lemma_find(states: Seq<Sound>, want: Sound, from: int)
    requires
        0 <= from,
    ensures
        find_state(states, want, from) matches Some(i) ==> from <= i < states.len() && states[i]
            == want,
        find_state(states, want, from) is None ==> forall|j: int|
            from <= j < states.len() ==> #[trigger] states[j] != want,
    decreases states.len() - from,
{
    if from < states.len() && states[from] != want {
        lemma_find(states, want, from + 1);
    }
}

proof fn lemma_stalest(used: Seq<bool>, stamp: Seq<u64>, n: int)
    requires
        n <= used.len(),
        n <= stamp.len(),
    ensures
        stalest(used, stamp, n) matches Some(i) ==> {
            &&& 1 <= i < n
            &&& !used[i]
            &&& forall|j: int| 1 <= j < n && !used[j] ==> stamp[i] <= #[trigger] stamp[j]
        },
        stalest(used, stamp, n) is None ==> forall|j: int| 1 <= j < n ==> #[trigger] used[j],
    decreases n,
{
    if n > 1 {
        lemma_stalest(used, stamp, n - 1);
    }
}

proof fn lemma_nearest(states: Seq<Sound>, want: Sound, n: int)
    requires
        1 <= n <= states.len(),
    ensures
        0 <= nearest(states, want, n) < n,
        forall|j: int|
            0 <= j < n ==> distance(states[nearest(states, want, n)], want) <= distance(
                #[trigger] states[j],
                want,
            ),
    decreases n,
{
    if n > 1 {
        lemma_nearest(states, want, n - 1);
    }
}

proof fn lemma_without(pending: Seq<Build>, slot: u32, n: int, bound: int)
    requires
        0 <= n <= pending.len(),
        forall|i: int| 0 <= i < pending.len() ==> (#[trigger] pending[i]).slot < bound,
    ensures
        without(pending, slot, n).len() <= n,
        forall|i: int|
            0 <= i < without(pending, slot, n).len() ==> (#[trigger] without(
                pending,
                slot,
                n,
            )[i]).slot < bound && without(pending, slot, n)[i].slot != slot,
    decreases n,
{
    if n > 0 {
        lemma_without(pending, slot, n - 1, bound);
    }
}

impl VariantTable {
    pub open spec fn wf(&self) -> bool {
        self@.wf()
    }

    pub fn new() -> (r: VariantTable)
        ensures
            r.wf(),
            r@ == Variants::initial(),
    {
        let neutral = quantise(
            Sound { resonance: 64, release: 64, attack: 64, brightness: 64, decay: 64 },
        );
        let mut states: Vec<Sound> = Vec::new();
        states.push(neutral);
        let mut asked: Vec<Sound> = Vec::new();
        asked.push(neutral);
        let mut stamp: Vec<u64> = Vec::new();
        stamp.push(0);
        let mut used = vec![false; VARIANT_SLOTS];
        used[0] = true;
        VariantTable {
            states,
            asked,
            stamp,
            used,
            clock: 0,
            cur: vec![0u32; 16],
            pending: Vec::new(),
            rebuilds: 0,
            fallbacks: 0,
        }
    }

    /// Start a block.
    pub fn begin_block(&mut self)
        requires
            old(self).wf(),
        ensures
            final(self).wf(),
            final(self)@ == old(self)@.begin(),
    {
        let mut used = vec![false; VARIANT_SLOTS];
        used[0] = true;
        let mut c: usize = 0;
        while c < 16
            invariant
                c <= 16,
                self@ == old(self)@,
                self.wf(),
                used@.len() == VARIANT_SLOTS,
                forall|i: int|
                    0 <= i < VARIANT_SLOTS ==> #[trigger] used@[i] == (i == 0 || exists|d: int|
                        0 <= d < c && #[trigger] self.cur@[d] == i),
            decreases 16 - c,
        {
            let v: u32 = self.cur[c];
            let ghost before = used@;
            used[v as usize] = true;
            proof {
                assert forall|i: int| 0 <= i < VARIANT_SLOTS implies #[trigger] used@[i] == (i == 0
                    || exists|d: int| 0 <= d < c + 1 && #[trigger] self.cur@[d] == i) by {
                    if i == v {
                        assert(self.cur@[c as int] == i);
                    } else {
                        assert(used@[i] == before[i]);
                        if before[i] && i != 0 {
                            let d = choose|d: int| 0 <= d < c && #[trigger] self.cur@[d] == i;
                            assert(self.cur@[d] == i);
                        }
                    }
                }
            }
            c += 1;
        }
        self.used = used;
        assert(self@.used =~= old(self)@.begin().used);
        assert forall|c: int| 0 <= c < 16 implies (#[trigger] self.cur@[c]) < self.states@.len()
            && self.used@[self.cur@[c] as int] by {
            assert(old(self)@.cur[c] == self.cur@[c]);
        }
    }

    fn choose_slot(&self, want: Sound, cap: usize) -> (r: Choice)
        requires
            self.wf(),
        ensures
            r == self@.choice(want, cap as int),
    {
        let n: usize = self.states.len();
        let mut i: usize = 0;
        while i < n
            invariant
                i <= n == self.states@.len(),
                n <= MAX_VARIANTS,
                find_state(self.states@, want, 0) == find_state(self.states@, want, i as int),
            decreases n - i,
        {
            if self.states[i] == want {
                return Choice::Held(i);
            }
            i += 1;
        }
        if n < cap {
            return Choice::Fresh(n);
        }
        let mut victim: Option<usize> = None;
        let mut k: usize = 1;
        while k < n
            invariant
                1 <= k <= n == self.states@.len(),
                n <= MAX_VARIANTS,
                self.wf(),
                stalest(self.used@, self.stamp@, k as int) == (match victim {
                    Some(v) => Some(v as int),
                    None => None::<int>,
                }),
                victim matches Some(v) ==> v < k,
            decreases n - k,
        {
            if !self.used[k] {
                match victim {
                    None => {
                        victim = Some(k);
                    },
                    Some(j) => {
                        if self.stamp[k] < self.stamp[j] {
                            victim = Some(k);
                        }
                    },
                }
            }
            k += 1;
        }
        if let Some(v) = victim {
            return Choice::Rebuilt(v);
        }
        let mut best: usize = 0;
        let mut m: usize = 1;
        while m < n
            invariant
                1 <= m <= n == self.states@.len(),
                n <= MAX_VARIANTS,
                best < m,
                best == nearest(self.states@, want, m as int),
            decreases n - m,
        {
            if measure(self.states[m], want) < measure(self.states[best], want) {
                best = m;
            }
            m += 1;
        }
        Choice::Closest(best)
    }

    fn queue_build(&mut self, slot: usize, sound: Sound)
        requires
            old(self).wf(),
            slot < old(self).states@.len(),
        ensures
            final(self)@ == (Variants { pending: old(self)@.queued(slot as int, sound), ..old(self)@
            }),
            final(self).wf(),
    {
        let ghost p0 = self.pending@;
        let mut kept: Vec<Build> = Vec::new();
        let mut i: usize = 0;
        while i < self.pending.len()
            invariant
                i <= p0.len(),
                self.pending@ == p0,
                self@ == old(self)@,
                kept@ == without(p0, slot as u32, i as int),
            decreases p0.len() - i,
        {
            let b = self.pending[i];
            if b.slot != slot as u32 {
                kept.push(b);
            }
            i += 1;
        }
        kept.push(Build { slot: slot as u32, sound });
        self.pending = kept;
        proof {
            lemma_without(p0, slot as u32, p0.len() as int, self.states@.len() as int);
        }
    }

    /// Move channel `c` onto whichever copy of the params table matches its raw
    /// sound controllers, queueing that copy to be built if no slot holds it
    /// yet. Past the cap a slot that nothing has pointed at during this block is
    /// reused, the stalest first; where there is none, the channel takes the
    /// closest copy that exists. Returns the slot.
    pub fn select(&mut self, c: usize, sound: Sound, max_variants: u32) -> (slot: u32)
        requires
            old(self).wf(),
            c < 16,
            old(self).clock < u64::MAX,
        ensures
            final(self).wf(),
            final(self)@ == old(self)@.select(c as int, sound, slot_cap(max_variants)),
            slot == final(self)@.cur[c as int],
            slot < MAX_VARIANTS,
            final(self)@.used == old(self)@.used.update(slot as int, true),
    {
        let want = quantise(sound);
        let cap: usize = if max_variants < 1 {
            1
        } else if max_variants as usize > MAX_VARIANTS {
            MAX_VARIANTS
        } else {
            max_variants as usize
        };
        let ghost v0 = self@;
        proof {
            lemma_find(v0.states, want, 0);
            lemma_stalest(v0.used, v0.stamp, v0.states.len() as int);
            lemma_nearest(v0.states, want, v0.states.len() as int);
        }
        let choice = self.choose_slot(want, cap);
        self.note_asked(want);
        let slot: usize = match choice {
            Choice::Held(i) => i,
            Choice::Fresh(i) => {
                self.states.push(want);
                self.stamp.push(0);
                self.queue_build(i, sound);
                i
            },
            Choice::Rebuilt(i) => {
                self.states[i] = want;
                self.queue_build(i, sound);
                self.rebuilds = self.rebuilds + 1;
                i
            },
            Choice::Closest(i) => {
                self.fallbacks = self.fallbacks + 1;
                i
            },
        };
        self.clock = self.clock + 1;
        self.stamp[slot] = self.clock;
        self.used[slot] = true;
        self.cur[c] = slot as u32;
        assert(self@ =~= v0.select(c as int, sound, cap as int));
        assert forall|d: int| 0 <= d < 16 implies (#[trigger] self@.cur[d]) < self@.states.len()
            && self@.used[self@.cur[d] as int] by {
            assert(d != c ==> v0.cur[d] == self@.cur[d]);
        }
        proof {
            let n = v0.pending.len() as int;
            let kept = without(v0.pending, slot as u32, n);
            lemma_without(v0.pending, slot as u32, n, v0.states.len() as int);
            assert forall|i: int| 0 <= i < self@.pending.len() implies (
            #[trigger] self@.pending[i]).slot < self@.states.len() by {
                if self@.pending == v0.pending {
                    assert(v0.pending[i] == self@.pending[i]);
                } else if i < kept.len() {
                    assert(kept[i] == self@.pending[i]);
                }
            }
        }
        slot as u32
    }

    fn note_asked(&mut self, want: Sound)
        requires
            old(self).wf(),
        ensures
            final(self).wf(),
            final(self)@ == (Variants {
                asked: if old(self)@.asked.contains(want) {
                    old(self)@.asked
                } else {
                    old(self)@.asked.push(want)
                },
                ..old(self)@
            }),
    {
        let mut i: usize = 0;
        while i < self.asked.len()
            invariant
                i <= self.asked@.len(),
                self@ == old(self)@,
                self.wf(),
                forall|j: int| 0 <= j < i ==> #[trigger] self.asked@[j] != want,
            decreases self.asked@.len() - i,
        {
            if self.asked[i] == want {
                assert(self.asked@.contains(want)) by {
                    assert(self.asked@[i as int] == want);
                }
                return;
            }
            i += 1;
        }
        self.asked.push(want);
    }

    /// Keep a slot from being reused for the rest of the block, because a voice
    /// queued in it was born under it.
    pub fn pin(&mut self, slot: u32)
        requires
            old(self).wf(),
            slot < VARIANT_SLOTS,
        ensures
            final(self).wf(),
            final(self)@ == old(self)@.pin(slot as int),
    {
        self.used[slot as usize] = true;
        assert forall|c: int| 0 <= c < 16 implies (#[trigger] self@.cur[c]) < self@.states.len()
            && self@.used[self@.cur[c] as int] by {
            assert(old(self)@.cur[c] == self@.cur[c]);
        }
        assert forall|i: int| 0 <= i < self@.pending.len() implies (
        #[trigger] self@.pending[i]).slot < self@.states.len() by {
            assert(old(self)@.pending[i] == self@.pending[i]);
        }
    }

    /// Hand out the builds queued this block, oldest first.
    pub fn take_pending(&mut self) -> (r: Vec<Build>)
        requires
            old(self).wf(),
        ensures
            r@ == old(self)@.pending,
            final(self).wf(),
            final(self)@ == (Variants { pending: Seq::empty(), ..old(self)@ }),
    {
        let mut out: Vec<Build> = Vec::new();
        std::mem::swap(&mut out, &mut self.pending);
        out
    }

    /// Copies of the params table the file asked for and got. The untouched table
    /// is none of them.
    pub fn param_variants(&self) -> (r: u32)
        requires
            self.wf(),
        ensures
            r == self@.states.len() - 1,
    {
        (self.states.len() - 1) as u32
    }
}

/// A copy that something has pointed at during this block is never rebuilt under
/// it: selecting leaves every used slot's contents alone, and slot 0, the
/// untouched table, always.
pub proof fn law_used_copies_are_never_rebuilt(
    v: Variants,
    c: int,
    sound: Sound,
    cap: int,
    i: int,
)
    requires
        v.wf(),
        0 <= i < v.states.len(),
        v.used[i],
    ensures
        v.select(c, sound, cap).states[i] == v.states[i],
        v.select(c, sound, cap).used[i],
        v.states.len() <= v.select(c, sound, cap).states.len(),
{
    lemma_find(v.states, quantised(sound), 0);
    lemma_stalest(v.used, v.stamp, v.states.len() as int);
    lemma_nearest(v.states, quantised(sound), v.states.len() as int);
}

/// A channel gets exactly the combination it asks for, unless the cap is reached
/// and every slot has been pointed at during this block.
pub proof fn law_selection_is_exact_while_slots_last(
    v: Variants,
    c: int,
    sound: Sound,
    cap: int,
)
    requires
        v.wf(),
        0 <= c < 16,
        1 <= cap <= MAX_VARIANTS,
        v.states.len() < cap || exists|i: int| 1 <= i < v.states.len() && !(#[trigger] v.used[i]),
    ensures
        v.select(c, sound, cap).states[v.select(c, sound, cap).cur[c] as int] == quantised(sound),
        v.select(c, sound, cap).fallbacks == v.fallbacks,
{
    lemma_find(v.states, quantised(sound), 0);
    lemma_stalest(v.used, v.stamp, v.states.len() as int);
}

/// Out of slots, a channel takes the copy closest to what it asked for.
pub proof fn law_fallback_is_the_closest_copy(
    v: Variants,
    c: int,
    sound: Sound,
    cap: int,
    i: int,
)
    requires
        v.wf(),
        0 <= c < 16,
        0 <= i < v.states.len(),
        v.choice(quantised(sound), cap) is Closest,
    ensures
        ({
            let w = v.select(c, sound, cap);
            &&& w.states == v.states
            &&& distance(w.states[w.cur[c] as int], quantised(sound)) <= distance(
                w.states[i],
                quantised(sound),
            )
        }),
{
    lemma_find(v.states, quantised(sound), 0);
    lemma_nearest(v.states, quantised(sound), v.states.len() as int);
}

/// The slot that gives way is the one selected longest ago among those nothing
/// points at.
pub proof fn law_the_stalest_copy_gives_way(v: Variants, want: Sound, cap: int, j: int)
    requires
        v.wf(),
        1 <= j < v.states.len(),
        !v.used[j],
        v.choice(want, cap) is Rebuilt,
    ensures
        v.choice(want, cap) matches Choice::Rebuilt(i) && v.stamp[i as int] <= v.stamp[j],
{
    lemma_stalest(v.used, v.stamp, v.states.len() as int);
}

/// Selecting moves no other channel.
pub proof fn law_selection_moves_one_channel(v: Variants, c: int, sound: Sound, cap: int, d: int)
    requires
        v.wf(),
        0 <= c < 16,
        0 <= d < 16,
        d != c,
    ensures
        v.select(c, sound, cap).cur[d] == v.cur[d],
{
}

} // verus!
