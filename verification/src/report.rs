//! What a MIDI file holds: how many events of each kind, which controllers it
//! sends, and how many of those this synthesizer does nothing with.

use crate::controls::Event;
use crate::roles::{cc_role, role_table, CcRole};
use crate::text::{lower_all, lowered, spells};
use vstd::prelude::*;

verus! {

/// The kinds of event that are told apart, as places in the counts.
pub const KINDS: usize = 7;

pub const KIND_CC: usize = 2;

/// How many controller numbers there are.
pub const CONTROLLERS: usize = 128;

/// Where an event is counted.
pub open spec fn kind_of(ev: Event) -> int {
    match ev {
        Event::NoteOn { .. } => 0,
        Event::NoteOff { .. } => 1,
        Event::Cc { .. } => 2,
        Event::Program { .. } => 3,
        Event::PitchBend { .. } => 4,
        Event::Tempo(_) => 5,
        Event::Other => 6,
    }
}

/// One more at place `i`.
pub open spec fn bumped(counts: Seq<u64>, i: int) -> Seq<u64> {
    counts.update(i, (counts[i] + 1) as u64)
}

/// The sum of the first `n` counts.
pub open spec fn sum_first(counts: Seq<u64>, n: int) -> int
    decreases n,
{
    if n <= 0 {
        0
    } else {
        sum_first(counts, n - 1) + counts[n - 1]
    }
}

proof fn lemma_sum_bumped(counts: Seq<u64>, i: int, n: int)
    requires
        0 <= i < counts.len(),
        n <= counts.len(),
        counts[i] < u64::MAX,
    ensures
        sum_first(bumped(counts, i), n) == sum_first(counts, n) + (if i < n {
            1int
        } else {
            0
        }),
    decreases n,
{
    if n > 0 {
        lemma_sum_bumped(counts, i, n - 1);
    }
}

proof fn lemma_one_is_in_the_sum(counts: Seq<u64>, i: int, n: int)
    requires
        0 <= i < n <= counts.len(),
    ensures
        counts[i] <= sum_first(counts, n),
        0 <= sum_first(counts, n),
    decreases n,
{
    if i == n - 1 {
        lemma_sum_nonneg(counts, n - 1);
    } else {
        lemma_one_is_in_the_sum(counts, i, n - 1);
    }
}

proof fn lemma_sum_nonneg(counts: Seq<u64>, n: int)
    ensures
        0 <= sum_first(counts, n),
    decreases n,
{
    if n > 0 {
        lemma_sum_nonneg(counts, n - 1);
    }
}

/// How many of the events counted for the first `n` controllers are ones this
/// synth would have to act on and does not.
pub open spec fn missing_first(counts: Seq<u64>, n: int) -> int
    decreases n,
{
    if n <= 0 {
        0
    } else if role_table((n - 1) as u8).1 is Missing {
        missing_first(counts, n - 1) + counts[n - 1]
    } else {
        missing_first(counts, n - 1)
    }
}

/// Which of the first `n` controllers were sent at all, in order.
pub open spec fn used_first(counts: Seq<u64>, n: int) -> Seq<u8>
    decreases n,
{
    if n <= 0 {
        Seq::empty()
    } else if counts[n - 1] != 0 {
        used_first(counts, n - 1).push((n - 1) as u8)
    } else {
        used_first(counts, n - 1)
    }
}

/// The tally of a MIDI stream.
pub struct Report {
    pub counts: Vec<u64>,
    pub controllers: Vec<u64>,
    pub last_tick: u64,
}

impl Report {
    /// Every controller event is counted once by kind and once by number.
    pub open spec fn wf(self) -> bool {
        &&& self.counts@.len() == KINDS
        &&& self.controllers@.len() == CONTROLLERS
        &&& sum_first(self.controllers@, CONTROLLERS as int) == self.counts@[KIND_CC as int]
    }

    /// Nothing counted.
    pub fn new() -> (r: Self)
        ensures
            r.wf(),
            r.counts@ == Seq::new(KINDS as nat, |i: int| 0u64),
            r.controllers@ == Seq::new(CONTROLLERS as nat, |i: int| 0u64),
            r.last_tick == 0,
    {
        let r = Report { counts: zeros(KINDS), controllers: zeros(CONTROLLERS), last_tick: 0 };
        proof {
            lemma_zeros_sum(r.controllers@, CONTROLLERS as int);
        }
        r
    }

    /// Count one event.
    pub fn note(&mut self, tick: u64, ev: Event)
        requires
            old(self).wf(),
            old(self).counts@[kind_of(ev)] < u64::MAX,
        ensures
            final(self).wf(),
            final(self).last_tick == tick,
            final(self).counts@ == bumped(old(self).counts@, kind_of(ev)),
            final(self).controllers@ == match ev {
                Event::Cc { num, .. } => bumped(old(self).controllers@, num as int % 128),
                _ => old(self).controllers@,
            },
    {
        self.last_tick = tick;
        let k: usize = match ev {
            Event::NoteOn { .. } => 0,
            Event::NoteOff { .. } => 1,
            Event::Cc { num, .. } => {
                let i: usize = (num % 128) as usize;
                proof {
                    lemma_one_is_in_the_sum(self.controllers@, i as int, CONTROLLERS as int);
                    lemma_sum_bumped(self.controllers@, i as int, CONTROLLERS as int);
                }
                let c: u64 = self.controllers[i];
                self.controllers.set(i, c + 1);
                KIND_CC
            },
            Event::Program { .. } => 3,
            Event::PitchBend { .. } => 4,
            Event::Tempo(_) => 5,
            Event::Other => 6,
        };
        let n: u64 = self.counts[k];
        self.counts.set(k, n + 1);
    }

    /// How many controller events are unimplemented.
    pub fn missing(&self) -> (r: u64)
        requires
            self.wf(),
        ensures
            r == missing_first(self.controllers@, CONTROLLERS as int),
            r <= self.counts@[KIND_CC as int],
    {
        let mut n: u64 = 0;
        let mut i: usize = 0;
        while i < CONTROLLERS
            invariant
                self.wf(),
                i <= CONTROLLERS,
                n == missing_first(self.controllers@, i as int),
                n <= sum_first(self.controllers@, i as int),
            decreases CONTROLLERS - i,
        {
            proof {
                lemma_sum_grows(self.controllers@, i + 1, CONTROLLERS as int);
            }
            match cc_role(i as u8).1 {
                CcRole::Missing(_) => {
                    n = n + self.controllers[i];
                },
                _ => {},
            }
            i += 1;
        }
        n
    }

    /// The controllers the file sends, in order.
    pub fn used(&self) -> (r: Vec<u8>)
        requires
            self.wf(),
        ensures
            r@ == used_first(self.controllers@, CONTROLLERS as int),
    {
        let mut out: Vec<u8> = Vec::new();
        let mut i: usize = 0;
        while i < CONTROLLERS
            invariant
                self.wf(),
                i <= CONTROLLERS,
                out@ == used_first(self.controllers@, i as int),
            decreases CONTROLLERS - i,
        {
            if self.controllers[i] != 0 {
                out.push(i as u8);
            }
            i += 1;
        }
        out
    }
}

fn zeros(n: usize) -> (r: Vec<u64>)
    ensures
        r@ == Seq::new(n as nat, |i: int| 0u64),
{
    let mut v: Vec<u64> = Vec::new();
    let mut i: usize = 0;
    while i < n
        invariant
            i <= n,
            v@ == Seq::new(i as nat, |k: int| 0u64),
        decreases n - i,
    {
        v.push(0);
        assert(v@ =~= Seq::new((i + 1) as nat, |k: int| 0u64));
        i += 1;
    }
    v
}

proof fn lemma_zeros_sum(counts: Seq<u64>, n: int)
    requires
        n <= counts.len(),
        forall|i: int| 0 <= i < counts.len() ==> #[trigger] counts[i] == 0,
    ensures
        sum_first(counts, n) == 0,
    decreases n,
{
    if n > 0 {
        lemma_zeros_sum(counts, n - 1);
    }
}

proof fn lemma_sum_grows(counts: Seq<u64>, a: int, b: int)
    requires
        a <= b,
    ensures
        sum_first(counts, a) <= sum_first(counts, b),
    decreases b - a,
{
    if a < b {
        lemma_sum_grows(counts, a, b - 1);
        if b <= 0 {
            assert(sum_first(counts, b) == 0);
        }
    }
}

/// A report lists a controller exactly when the file sent it.
pub proof fn law_report_lists_what_was_sent(counts: Seq<u64>, num: u8, n: int)
    requires
        0 <= n <= counts.len() <= CONTROLLERS,
        num < n,
    ensures
        used_first(counts, n).contains(num) <==> counts[num as int] != 0,
    decreases n,
{
    let front = used_first(counts, n - 1);
    lemma_used_are_below(counts, n - 1);
    if num < n - 1 {
        law_report_lists_what_was_sent(counts, num, n - 1);
        if counts[n - 1] != 0 {
            let whole = front.push((n - 1) as u8);
            if front.contains(num) {
                let k = choose|k: int| 0 <= k < front.len() && front[k] == num;
                assert(whole[k] == num);
            }
            if whole.contains(num) {
                let k = choose|k: int| 0 <= k < whole.len() && whole[k] == num;
                assert(k < front.len());
                assert(front[k] == num);
            }
        }
    } else if counts[n - 1] != 0 {
        let whole = front.push((n - 1) as u8);
        assert(whole[front.len() as int] == num);
    } else if front.contains(num) {
        let k = choose|k: int| 0 <= k < front.len() && front[k] == num;
        assert(front[k] < n - 1);
    }
}

proof fn lemma_used_are_below(counts: Seq<u64>, n: int)
    requires
        0 <= n <= CONTROLLERS,
    ensures
        forall|k: int|
            0 <= k < used_first(counts, n).len() ==> (#[trigger] used_first(counts, n)[k]) < n,
    decreases n,
{
    if n > 0 {
        lemma_used_are_below(counts, n - 1);
        let front = used_first(counts, n - 1);
        let whole = used_first(counts, n);
        assert forall|k: int| 0 <= k < whole.len() implies (#[trigger] whole[k]) < n by {
            if k < front.len() {
                assert(whole[k] == front[k]);
                assert(front[k] < n - 1);
            }
        }
    }
}

/// Whether a file name's extension, in any letter case, is one of a MIDI file.
pub open spec fn midi_extension(ext: Seq<char>) -> bool {
    let e = lower_all(ext);
    e == "mid"@ || e == "midi"@ || e == "rmi"@
}

/// Whether a file is read as MIDI, by its extension.
pub fn names_midi(ext: &str) -> (r: bool)
    ensures
        r == midi_extension(ext@),
{
    let e = lowered(ext);
    spells(&e, "mid") || spells(&e, "midi") || spells(&e, "rmi")
}

} // verus!
