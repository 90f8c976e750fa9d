//! What a report counts, what a controller is called, how bit patterns are
//! ordered, and what the limiter remembers.

use crate::brickwall::{
    beaten_dropped, gain_seen, group_delay, peak_seen, window_start, Peak,
};
use crate::controls::Event;
use crate::fbits::{at_most64, is_finite32, is_nan32, mag32, mag64, ord32, ord64, within64};
use crate::passes::{entry_of, layout_of, Group, Kernel};
use crate::report::{bumped, kind_of, midi_extension, missing_first, sum_first, used_first};
use crate::roles::role_table;
use crate::text::lower_all;
use vstd::prelude::*;

verus! {

/// Each kind of event has its own place in the counts.
pub proof fn law_where_events_are_counted(ev: Event)
    ensures
        kind_of(ev) == 0 <==> ev is NoteOn,
        kind_of(ev) == 1 <==> ev is NoteOff,
        kind_of(ev) == 2 <==> ev is Cc,
        kind_of(ev) == 3 <==> ev is Program,
        kind_of(ev) == 4 <==> ev is PitchBend,
        kind_of(ev) == 5 <==> ev is Tempo,
        kind_of(ev) == 6 <==> ev is Other,
{
}

/// Counting moves one count, by one.
pub proof fn law_one_count_moves(counts: Seq<u64>, i: int, j: int)
    requires
        0 <= i < counts.len(),
        0 <= j < counts.len(),
        counts[i] < u64::MAX,
    ensures
        bumped(counts, i)[i] == counts[i] + 1,
        j != i ==> bumped(counts, i)[j] == counts[j],
        bumped(counts, i).len() == counts.len(),
{
}

/// Sums of counts: a count more adds itself to the sum, and to what is missing
/// where the controller is one that would have to be acted on.
pub proof fn law_sums_of_counts(counts: Seq<u64>, n: int)
    requires
        0 < n <= 128,
        n <= counts.len(),
    ensures
        sum_first(counts, 0) == 0,
        missing_first(counts, 0) == 0,
        sum_first(counts, n) - sum_first(counts, n - 1) == counts[n - 1],
        role_table((n - 1) as u8).1 is Missing ==> missing_first(counts, n) - missing_first(
            counts,
            n - 1,
        ) == counts[n - 1],
        !(role_table((n - 1) as u8).1 is Missing) ==> missing_first(counts, n) == missing_first(
            counts,
            n - 1,
        ),
{
}

/// The controllers a report lists are in order, each once.
pub proof fn law_listed_in_order(counts: Seq<u64>, n: int, i: int, j: int)
    requires
        0 <= n <= 128,
        n <= counts.len(),
        0 <= i < j < used_first(counts, n).len(),
    ensures
        used_first(counts, n)[i] < used_first(counts, n)[j],
        used_first(counts, n)[j] < n,
    decreases n,
{
    if n > 0 {
        let front = used_first(counts, n - 1);
        let whole = used_first(counts, n);
        if j < front.len() {
            law_listed_in_order(counts, n - 1, i, j);
        } else {
            lemma_below(counts, n - 1, i);
        }
    }
}

proof fn lemma_below(counts: Seq<u64>, n: int, i: int)
    requires
        0 <= n <= 128,
        0 <= i < used_first(counts, n).len(),
    ensures
        used_first(counts, n)[i] < n,
    decreases n,
{
    if n > 0 {
        let front = used_first(counts, n - 1);
        if i < front.len() {
            lemma_below(counts, n - 1, i);
        }
    }
}

/// A file is taken for MIDI by its extension, in any letter case.
pub proof fn law_midi_extensions(a: Seq<char>, b: Seq<char>)
    ensures
        midi_extension(a) <==> lower_all(a) == "mid"@ || lower_all(a) == "midi"@ || lower_all(a)
            == "rmi"@,
        lower_all(a) == lower_all(b) ==> midi_extension(a) == midi_extension(b),
{
}

/// Which controllers would change what is heard and are left out: portamento,
/// legato, the second hold, the vibrato's delay, fine velocity and the effects.
pub proof fn law_which_controllers_are_missing(num: u8)
    ensures
        role_table(num).1 is Missing <==> num == 5 || num == 12 || num == 13 || num == 65 || num
            == 68 || num == 69 || num == 78 || num == 84 || num == 88 || num == 91 || num == 93
            || num == 94 || num == 95,
        role_table(num).1 is Applied <==> num == 0 || num == 1 || num == 6 || num == 7 || num == 10
            || num == 11 || num == 32 || num == 33 || num == 38 || num == 39 || num == 42 || num
            == 43 || num == 64 || num == 66 || num == 67 || (71 <= num <= 77) || num == 92 || (96
            <= num <= 101) || num == 120 || num == 121 || (123 <= num <= 127),
{
}

/// What the controllers that act are called.
pub proof fn law_controller_names()
    ensures
        role_table(0).0 == "bank select msb" && role_table(32).0 == "bank select lsb",
        role_table(1).0 == "modulation" && role_table(33).0 == "modulation lsb",
        role_table(7).0 == "channel volume" && role_table(39).0 == "channel volume lsb",
        role_table(10).0 == "pan" && role_table(42).0 == "pan lsb",
        role_table(11).0 == "expression" && role_table(43).0 == "expression lsb",
        role_table(64).0 == "sustain pedal" && role_table(66).0 == "sostenuto",
        role_table(67).0 == "soft pedal" && role_table(71).0 == "resonance",
        role_table(72).0 == "release time" && role_table(73).0 == "attack time",
        role_table(74).0 == "brightness" && role_table(75).0 == "decay time",
        role_table(76).0 == "vibrato rate" && role_table(77).0 == "vibrato depth",
        role_table(92).0 == "tremolo depth" && role_table(120).0 == "all sound off",
        role_table(121).0 == "reset controllers" && role_table(123).0 == "all notes off",
{
}

/// Patterns order as their numbers do: positive ones upwards, negative ones
/// downwards, the two zeros alike; past infinity is no number.
pub proof fn law_patterns_order_as_numbers(a: u32, b: u32, c: u64, e: u64)
    ensures
        a <= b <= 0x7f80_0000 ==> ord32(a) <= ord32(b),
        0x8000_0000 <= a <= b ==> ord32(a) >= ord32(b),
        0x8000_0000 < a && 0 < b < 0x8000_0000 ==> ord32(a) < ord32(b),
        ord32(0) == ord32(0x8000_0000),
        a < 0x8000_0000 ==> mag32(a) == a && mag32((a + 0x8000_0000) as u32) == a,
        is_nan32(a) <==> (0x7f80_0000 < a < 0x8000_0000) || a > 0xff80_0000,
        is_finite32(a) <==> a < 0x7f80_0000 || 0x8000_0000 <= a < 0xff80_0000,
        c <= e <= 0x7ff0_0000_0000_0000 ==> ord64(c) <= ord64(e) && at_most64(c, e),
        0x8000_0000_0000_0000 <= c <= e <= 0xfff0_0000_0000_0000 ==> ord64(c) >= ord64(e)
            && at_most64(e, c),
        0x8000_0000_0000_0000 <= c <= 0xfff0_0000_0000_0000 && e <= 0x7ff0_0000_0000_0000
            ==> at_most64(c, e),
        c < e <= 0x7ff0_0000_0000_0000 ==> !at_most64(e, c),
        0x7ff0_0000_0000_0000 < c < 0x8000_0000_0000_0000 ==> !at_most64(c, e) && !at_most64(e, c)
            && !within64(c, 0xfff0_0000_0000_0000, 0x7ff0_0000_0000_0000),
        c < 0x8000_0000_0000_0000 ==> mag64(c) == c,
{
}

/// A number is in a range where it is neither below its lower end nor above its
/// upper one, both ends in.
pub proof fn law_ranges(x: u64, lo: u64, hi: u64)
    requires
        mag64(lo) <= 0x7ff0_0000_0000_0000,
        mag64(hi) <= 0x7ff0_0000_0000_0000,
    ensures
        within64(x, lo, hi) <==> at_most64(lo, x) && at_most64(x, hi),
{
}

/// The audio waits three frames for the true-peak detector, and none without it;
/// the window of a peak is the lookahead and the frame itself.
pub proof fn law_how_long_the_audio_waits(now: int, look: int)
    requires
        0 <= now,
        0 <= look,
    ensures
        group_delay(true) == 3,
        group_delay(false) == 0,
        now >= look ==> now - window_start(now, look) == look,
        now < look ==> window_start(now, look) == 0,
{
}

/// What is no number is never the largest peak nor the smallest gain.
pub proof fn law_what_is_no_number_is_not_seen(a: u64, b: u64)
    requires
        mag64(b) > 0x7ff0_0000_0000_0000,
    ensures
        peak_seen(a, b) == a,
        gain_seen(a, b) == a,
{
}

/// The largest peak and the smallest gain seen so far.
pub proof fn law_largest_and_smallest(a: u64, b: u64)
    requires
        mag64(a) <= 0x7ff0_0000_0000_0000,
        mag64(b) <= 0x7ff0_0000_0000_0000,
    ensures
        ord64(peak_seen(a, b)) == (if ord64(a) < ord64(b) { ord64(b) } else { ord64(a) }),
        ord64(gain_seen(a, b)) == (if ord64(a) < ord64(b) { ord64(a) } else { ord64(b) }),
        peak_seen(a, b) == a || peak_seen(a, b) == b,
        gain_seen(a, b) == a || gain_seen(a, b) == b,
{
}

proof fn lemma_beaten_all_smaller(q: Seq<Peak>, v: u64, i: int)
    requires
        mag64(v) <= 0x7ff0_0000_0000_0000,
        0 <= i < q.len(),
        forall|k: int| 0 <= k < q.len() ==> mag64((#[trigger] q[k]).0) <= 0x7ff0_0000_0000_0000,
        forall|a: int, b: int|
            0 <= a < b < q.len() ==> ord64((#[trigger] q[a]).0) > ord64((#[trigger] q[b]).0),
    ensures
        beaten_dropped(q, v).len() <= q.len(),
        i < beaten_dropped(q, v).len() ==> beaten_dropped(q, v)[i] == q[i] && ord64(q[i].0) > ord64(
            v,
        ),
        i >= beaten_dropped(q, v).len() ==> ord64(q[i].0) <= ord64(v),
    decreases q.len(),
{
    if q.len() > 0 && at_most64(q.last().0, v) {
        let r = q.drop_last();
        if i < r.len() {
            assert forall|k: int| 0 <= k < r.len() implies mag64((#[trigger] r[k]).0)
                <= 0x7ff0_0000_0000_0000 by {
                assert(r[k] == q[k]);
            }
            assert forall|a: int, b: int| 0 <= a < b < r.len() implies ord64((#[trigger] r[a]).0)
                > ord64((#[trigger] r[b]).0) by {
                assert(r[a] == q[a] && r[b] == q[b]);
            }
            lemma_beaten_all_smaller(r, v, i);
            assert(r[i] == q[i]);
        } else {
            lemma_beaten_len(r, v);
        }
    } else {
        let last = q[q.len() - 1];
        assert(mag64(last.0) <= 0x7ff0_0000_0000_0000);
        if i < q.len() - 1 {
            assert(ord64(q[i].0) > ord64(q[q.len() - 1].0));
        }
    }
}

proof fn lemma_beaten_len(q: Seq<Peak>, v: u64)
    ensures
        beaten_dropped(q, v).len() <= q.len(),
    decreases q.len(),
{
    if q.len() > 0 && at_most64(q.last().0, v) {
        lemma_beaten_len(q.drop_last(), v);
    }
}

/// A new peak drives out exactly the waiting ones it is not below.
pub proof fn law_a_peak_drives_out_smaller_ones(q: Seq<Peak>, v: u64, i: int)
    requires
        mag64(v) <= 0x7ff0_0000_0000_0000,
        0 <= i < q.len(),
        forall|k: int| 0 <= k < q.len() ==> mag64((#[trigger] q[k]).0) <= 0x7ff0_0000_0000_0000,
        forall|a: int, b: int|
            0 <= a < b < q.len() ==> ord64((#[trigger] q[a]).0) > ord64((#[trigger] q[b]).0),
    ensures
        i < beaten_dropped(q, v).len() <==> ord64(q[i].0) > ord64(v),
{
    lemma_beaten_all_smaller(q, v, i);
}

/// The shader and the entry point each kernel is found under.
pub proof fn law_kernel_names()
    ensures
        entry_of(Kernel::SpawnMain) == ("spawn", "main"),
        entry_of(Kernel::SpawnCommit) == ("spawn", "commit"),
        entry_of(Kernel::Render) == ("render", "main"),
        entry_of(Kernel::RenderChan) == ("render_chan", "main"),
        entry_of(Kernel::Reduce) == ("reduce", "main"),
        entry_of(Kernel::ScanLocal) == ("compact", "scan_local"),
        entry_of(Kernel::ScanBlocks) == ("compact", "scan_blocks"),
        entry_of(Kernel::Scatter) == ("compact", "scatter"),
        entry_of(Kernel::CompactCommit) == ("compact", "commit"),
        entry_of(Kernel::MarkStolen) == ("compact", "mark_stolen"),
        entry_of(Kernel::NoteStolen) == ("compact", "note_stolen"),
        entry_of(Kernel::SelClear) == ("select", "clear"),
        entry_of(Kernel::SelInit) == ("select", "init"),
        entry_of(Kernel::SelHistogram) == ("select", "histogram"),
        entry_of(Kernel::SelRefine) == ("select", "refine"),
        entry_of(Kernel::SortInit) == ("sort", "init"),
        entry_of(Kernel::SortAdvance) == ("sort", "advance_bit"),
        entry_of(Kernel::SortBuildKeys) == ("sort", "build_keys"),
        entry_of(Kernel::SortScanLocal) == ("sort", "scan_local"),
        entry_of(Kernel::SortScanBlocks) == ("sort", "scan_blocks"),
        entry_of(Kernel::SortSplit) == ("sort", "split"),
        entry_of(Kernel::SortGather) == ("sort", "gather"),
{
}

/// A kernel is laid out for the group of the shader it is in.
pub proof fn law_kernels_are_laid_out_by_shader(k: Kernel)
    ensures
        layout_of(k) == Group::Spawn <==> k == Kernel::SpawnMain || k == Kernel::SpawnCommit,
        layout_of(k) == Group::Render <==> k == Kernel::Render || k == Kernel::RenderChan,
        layout_of(k) == Group::Reduce <==> k == Kernel::Reduce,
        layout_of(k) == Group::Select <==> k == Kernel::SelClear || k == Kernel::SelInit || k
            == Kernel::SelHistogram || k == Kernel::SelRefine,
        layout_of(k) == Group::Sort(0) <==> k == Kernel::SortInit || k == Kernel::SortAdvance || k
            == Kernel::SortBuildKeys || k == Kernel::SortScanLocal || k == Kernel::SortScanBlocks
            || k == Kernel::SortSplit || k == Kernel::SortGather,
{
}

} // verus!
