//! What holds of any SFZ instrument.

use crate::bank::SampleInfo;
use crate::sfz::{
    bumped, channel_region, known, region_of, reported_as, Assembly, Decimals,
    SectionView,
};
use crate::sfz_text::{
    blank, last_run, lemma_value_end_bounds, next_stop, value_end_of, ItemView, Progress,
};
use vstd::prelude::*;

verus! {

/// A region takes each opcode from its own section, else from its group, else
/// from the global section.
pub proof fn law_regions_inherit(a: Assembly, s: SectionView, key: Seq<char>)
    requires
        s.header == "region"@,
    ensures
        ({
            let r = a.with(s).regions.last();
            &&& s.ops.contains_key(key) ==> r.contains_key(key) && r[key] == s.ops[key]
            &&& !s.ops.contains_key(key) && a.group.contains_key(key) ==> r.contains_key(key)
                && r[key] == a.group[key]
            &&& !s.ops.contains_key(key) && !a.group.contains_key(key) && a.global.contains_key(key)
                ==> r.contains_key(key) && r[key] == a.global[key]
            &&& r.contains_key(key) ==> s.ops.contains_key(key) || a.group.contains_key(key)
                || a.global.contains_key(key)
        }),
{
    reveal_strlit("global");
    reveal_strlit("master");
    reveal_strlit("group");
    reveal_strlit("region");
    assert("region"@[1] == 'e' && "master"@[1] == 'a');
    assert("region"@.len() == 6 && "global"@[0] == 'g' && "region"@[0] == 'r');
    assert("group"@[0] == 'g');
}

/// A region sounds on MIDI keys and velocities only.
pub proof fn law_regions_stay_in_midi_range(
    ops: Map<Seq<char>, Seq<char>>,
    d: Decimals,
    sample: u32,
    info: SampleInfo,
)
    ensures
        ({
            let r = region_of(ops, d, sample, info);
            &&& r.key_lo <= 127 && r.key_hi <= 127
            &&& r.vel_lo <= 127 && r.vel_hi <= 127
            &&& r.fixed_key == -1 && r.fixed_vel == -1
            &&& r.addr_start >= 0
            &&& r.root_key_override >= 0
        }),
{
}

/// A stereo sample becomes two regions, hard left and hard right, that agree in
/// everything but their sample's own data; a mono sample keeps its pan.
pub proof fn law_stereo_becomes_a_panned_pair(
    ops: Map<Seq<char>, Seq<char>>,
    d: Decimals,
    channels: Seq<u32>,
    samples: Seq<SampleInfo>,
)
    requires
        channels.len() == 1 || channels.len() == 2,
    ensures
        channels.len() == 2 ==> {
            &&& channel_region(ops, d, channels, samples, 0).pan == 0xbf80_0000u32
            &&& channel_region(ops, d, channels, samples, 1).pan == 0x3f80_0000u32
            &&& channel_region(ops, d, channels, samples, 0).key_lo == channel_region(
                ops,
                d,
                channels,
                samples,
                1,
            ).key_lo
            &&& channel_region(ops, d, channels, samples, 0).key_hi == channel_region(
                ops,
                d,
                channels,
                samples,
                1,
            ).key_hi
        },
        channels.len() == 1 ==> channel_region(ops, d, channels, samples, 0) == region_of(
            ops,
            d,
            channels[0],
            samples[channels[0] as int],
        ),
{
}

/// Two sets of opcodes say the same of `k`.
pub open spec fn same_at(
    a: Map<Seq<char>, Seq<char>>,
    b: Map<Seq<char>, Seq<char>>,
    k: Seq<char>,
) -> bool {
    a.contains_key(k) == b.contains_key(k) && (a.contains_key(k) ==> a[k] == b[k])
}

/// An opcode is reported exactly where it is not on the list of those the loader
/// reads.
pub proof fn law_unlisted_opcodes_are_reported(k: Seq<char>)
    ensures
        reported_as(k) is None <==> known(k),
{
}

/// Two sets of opcodes that agree on everything the loader lists describe the same
/// region: what is reported has no part in it.
pub proof fn law_reported_opcodes_change_nothing(
    a: Map<Seq<char>, Seq<char>>,
    b: Map<Seq<char>, Seq<char>>,
    d: Decimals,
    sample: u32,
    info: SampleInfo,
)
    requires
        forall|k: Seq<char>| #[trigger] known(k) ==> same_at(a, b, k),
    ensures
        region_of(a, d, sample, info) == region_of(b, d, sample, info),
{
    assert(known("key"@) && known("lokey"@) && known("hikey"@) && known("pitch_keycenter"@));
    assert(known("lovel"@) && known("hivel"@) && known("transpose"@) && known("offset"@));
    assert(known("end"@) && known("loop_start"@) && known("loop_end"@) && known("group"@));
    assert(known("loop_mode"@) && known("loopmode"@) && known("fil_type"@));
}

/// A count never goes down.
pub proof fn law_counts_only_grow(t: Map<Seq<char>, u32>, name: Seq<char>, other: Seq<char>)
    requires
        t.contains_key(other),
    ensures
        bumped(t, name).contains_key(other),
        bumped(t, name)[other] >= t[other],
{
}

/// A value with no `=` and no `<` behind it runs to the end of the line.
pub proof fn law_last_value_runs_to_the_end(k: Seq<u8>)
    requires
        forall|i: int| 0 <= i < k.len() ==> #[trigger] k[i] != 61 && k[i] != 60,
    ensures
        value_end_of(k) == k.len(),
{
    lemma_no_stop(k, 0);
}

proof fn lemma_no_stop(k: Seq<u8>, from: int)
    requires
        0 <= from,
        forall|i: int| 0 <= i < k.len() ==> #[trigger] k[i] != 61 && k[i] != 60,
    ensures
        next_stop(k, from) is None,
    decreases k.len() - from,
{
    if from < k.len() {
        assert(k[from] != 61 && k[from] != 60);
        lemma_no_stop(k, from + 1);
    }
}

/// A value keeps the spaces inside it: where one ends before the end of the
/// line, what follows starts with white space or with the `=` or `<` itself.
pub proof fn law_values_end_at_a_break(k: Seq<u8>)
    ensures
        0 <= value_end_of(k) <= k.len(),
        value_end_of(k) < k.len() ==> blank(k[value_end_of(k)]) || k[value_end_of(k)] == 61 || k[
        value_end_of(k)] == 60,
{
    lemma_value_end_bounds(k);
    lemma_stop_is(k, 0);
    if let Some(e) = next_stop(k, 0) {
        lemma_run_is(k, e);
    }
}

proof fn lemma_stop_is(k: Seq<u8>, from: int)
    requires
        0 <= from,
    ensures
        next_stop(k, from) matches Some(e) ==> from <= e < k.len() && (k[e] == 61 || k[e] == 60),
    decreases k.len() - from,
{
    if from < k.len() && !(k[from] == 61 || k[from] == 60) {
        lemma_stop_is(k, from + 1);
    }
}

proof fn lemma_run_is(k: Seq<u8>, end: int)
    ensures
        last_run(k, end) matches Some(w) ==> 0 <= w < end && blank(k[w]),
    decreases end,
{
    if end > 0 {
        lemma_run_is(k, end - 1);
    }
}

/// Closing a section twice is closing it once.
pub proof fn law_sections_close_once(p: Progress)
    ensures
        p.closed().closed() == p.closed(),
{
}

/// A header starts an empty section and hands over the one before it.
pub proof fn law_headers_start_empty_sections(p: Progress, name: Seq<char>)
    ensures
        p.header(name).current == Map::<Seq<char>, Seq<char>>::empty(),
        p.header(name).header == name,
        p.started ==> p.header(name).items == p.items.push(
            ItemView::Section(p.header, p.current),
        ),
        !p.started ==> p.header(name).items == p.items,
{
}

} // verus!
