//! What holds of a bank's lookups.

use crate::bank::{
    base_of, before, block_len, effective_key, entry_at, first_match, indexes, lists, params_offset,
    per_key, placed, resolved, vel_span, voice_from, Bank, IndexEntry, LoopMode, Preset, Region,
    RegionMath, SampleInfo,
};
use crate::cursor::{has_loop, is_one_shot};
use vstd::prelude::*;

verus! {

proof fn lemma_answering(bank: Bank, list: Seq<u32>, key: u8, vel: u8, max: int, n: int, i: int)
    requires
        0 <= n <= list.len(),
        0 <= max,
    ensures
        bank.answering(list, key, vel, max, n).len() <= max,
        bank.answering(list, key, vel, max, n).len() <= n,
        0 <= i < bank.answering(list, key, vel, max, n).len() ==> bank.answers(
            bank.answering(list, key, vel, max, n)[i] as int,
            key,
            vel,
        ),
    decreases n,
{
    if n > 0 {
        lemma_answering(bank, list, key, vel, max, n - 1, i);
    }
}

/// The preview is exact: it names the same layers as the note-on, in the same
/// order, each of which can be built, with the same gains and the same delay.
/// The `i`-th preview entry is the `i`-th voice.
pub proof fn law_preview_is_exact(bank: Bank, preset: u32, key: u8, vel: u8, max: int, i: int)
    requires
        0 <= max,
        0 <= i < bank.layers(preset, key, vel, max).len(),
    ensures
        ({
            let r = bank.layers(preset, key, vel, max)[i] as int;
            let p = bank.preview_of(r, vel);
            bank.voice_of(r, Bank::key_of(key), vel) matches Some(v) && {
                &&& v.region == p.region
                &&& v.gain_l == p.gain_l
                &&& v.gain_r == p.gain_r
                &&& v.loud == p.loud
                &&& v.delay_frames == p.delay_frames
            }
        }),
{
    let list = bank.presets@[preset as int].on_key(Bank::key_of(key) as int);
    lemma_answering(bank, list, Bank::key_of(key), vel, max, list.len() as int, i);
}

/// A note never starts more layers than it may.
pub proof fn law_layers_are_capped(bank: Bank, preset: u32, key: u8, vel: u8, max: int)
    requires
        0 <= max,
    ensures
        bank.layers(preset, key, vel, max).len() <= max,
{
    let list = bank.presets@[preset as int].on_key(Bank::key_of(key) as int);
    lemma_answering(bank, list, Bank::key_of(key), vel, max, list.len() as int, 0);
}

/// Every layer of a note answers its velocity.
pub proof fn law_layers_answer_the_velocity(
    bank: Bank,
    preset: u32,
    key: u8,
    vel: u8,
    max: int,
    i: int,
)
    requires
        0 <= max,
        0 <= i < bank.layers(preset, key, vel, max).len(),
    ensures
        ({
            let r = bank.regions@[bank.layers(preset, key, vel, max)[i] as int];
            r.vel_lo <= vel <= r.vel_hi
        }),
{
    let list = bank.presets@[preset as int].on_key(Bank::key_of(key) as int);
    lemma_answering(bank, list, Bank::key_of(key), vel, max, list.len() as int, i);
}

/// A voice stays inside its sample: it starts on a frame of it, ends no later
/// than it, and a looping voice loops over at least two of its frames.
pub proof fn law_voice_stays_in_its_sample(
    r: Region,
    index: u32,
    s: SampleInfo,
    m: RegionMath,
    key: u8,
    vel: u8,
)
    requires
        s.len > 0,
    ensures
        voice_from(r, index, s, m, key, vel).phase.whole() < s.len,
        voice_from(r, index, s, m, key, vel).phase.fraction() == 0,
        1 <= voice_from(r, index, s, m, key, vel).smp_len <= s.len,
        voice_from(r, index, s, m, key, vel).loop_end <= voice_from(
            r,
            index,
            s,
            m,
            key,
            vel,
        ).smp_len,
        has_loop(voice_from(r, index, s, m, key, vel).flags) ==> voice_from(
            r,
            index,
            s,
            m,
            key,
            vel,
        ).loop_start + 2 <= voice_from(r, index, s, m, key, vel).loop_end,
        r.loop_mode == LoopMode::NoLoop ==> !has_loop(voice_from(r, index, s, m, key, vel).flags),
        is_one_shot(voice_from(r, index, s, m, key, vel).flags) == r.one_shot,
{
}

/// A voice's params index lands in its own region's block, on the entry for the
/// key it plays (where the envelope depends on the key) and for its velocity
/// (where the filter does).
pub proof fn law_voice_reads_its_own_params(regions: Seq<Region>, i: int, key: u8, vel: u8)
    requires
        0 <= i < regions.len() <= u32::MAX,
        placed(regions, i),
        key < 128,
        regions[i].fixed_key < 128,
        regions[i].vel_lo <= vel <= regions[i].vel_hi,
        vel < 128,
    ensures
        ({
            let r = regions[i];
            let o = params_offset(r, key, vel);
            let e = entry_at(r, i, o);
            &&& 0 <= o < block_len(r)
            &&& e.region == i
            &&& per_key(r) ==> e.key == effective_key(r, key)
            &&& vel_span(r) > 1 ==> e.vel == vel
        }),
{
    let r = regions[i];
    let o = params_offset(r, key, vel);
    let keys: int = if r.params_stride != 0 {
        128
    } else {
        1
    };
    let ki: int = if r.params_stride != 0 {
        effective_key(r, key) as int
    } else {
        0
    };
    let vi: int = if r.params_vel_span > 1 {
        vel - r.vel_lo
    } else {
        0
    };
    assert(o == vi * keys + ki);
    assert(0 <= vi < vel_span(r));
    assert(0 <= o < vel_span(r) * keys) by (nonlinear_arith)
        requires
            o == vi * keys + ki,
            0 <= vi < vel_span(r),
            0 <= ki < keys,
    ;
    vstd::arithmetic::div_mod::lemma_fundamental_div_mod_converse(o, keys, vi, ki);
}

/// Blocks of the params table do not overlap: each ends where the next begins.
pub proof fn law_params_blocks_are_disjoint(regions: Seq<Region>, i: int, j: int)
    requires
        0 <= i < j,
    ensures
        base_of(regions, i) + block_len(regions[i]) <= base_of(regions, j),
    decreases j,
{
    if i < j - 1 {
        law_params_blocks_are_disjoint(regions, i, j - 1);
        let r = regions[j - 1];
        assert(block_len(r) >= 0) by (nonlinear_arith)
            requires
                block_len(r) == vel_span(r) * (if per_key(r) {
                    128int
                } else {
                    1int
                }),
                vel_span(r) >= 1,
        ;
    }
}

/// What `first_match` finds: the first matching entry, if there is one.
proof fn lemma_first_match(
    index: Seq<IndexEntry>,
    bank: u16,
    program: u16,
    any_program: bool,
    from: int,
) -> (at: int)
    requires
        0 <= from <= index.len(),
    ensures
        first_match(index, bank, program, any_program, from) matches Some(p) ==> {
            &&& from <= at < index.len()
            &&& index[at].preset == p
            &&& index[at].bank == bank
            &&& any_program || index[at].program == program
            &&& forall|j: int|
                from <= j < at ==> (#[trigger] index[j]).bank != bank || !(any_program
                    || index[j].program == program)
        },
        first_match(index, bank, program, any_program, from) is None ==> forall|j: int|
            from <= j < index.len() ==> (#[trigger] index[j]).bank != bank || !(any_program
                || index[j].program == program),
    decreases index.len() - from,
{
    if from >= index.len() {
        from
    } else if index[from].bank == bank && (any_program || index[from].program == program) {
        from
    } else {
        lemma_first_match(index, bank, program, any_program, from + 1)
    }
}

/// A preset is found by its own bank and program: the lookup gives the earliest
/// loaded preset with exactly that pair, whenever there is one.
pub proof fn law_find_prefers_the_exact_pair(
    index: Seq<IndexEntry>,
    presets: Seq<Preset>,
    p: int,
)
    requires
        indexes(index, presets, presets.len() as int),
        0 <= p < presets.len(),
    ensures
        resolved(index, presets[p].bank, presets[p].program) matches Some(q) && {
            &&& q <= p
            &&& presets[q as int].bank == presets[p].bank
            &&& presets[q as int].program == presets[p].program
            &&& forall|j: int|
                0 <= j < q ==> (#[trigger] presets[j]).bank != presets[p].bank
                    || presets[j].program != presets[p].program
        },
{
    let b = presets[p].bank;
    let g = presets[p].program;
    let at = lemma_first_match(index, b, g, false, 0);
    assert(lists(index, p));
    let i = choose|i: int| 0 <= i < index.len() && (#[trigger] index[i]).preset == p;
    assert(index[i].bank == b && index[i].program == g);
    let q = index[at].preset as int;
    if at < i {
        assert(before(index[at], index[i]));
    }
    assert forall|j: int| 0 <= j < q implies (#[trigger] presets[j]).bank != b
        || presets[j].program != g by {
        if presets[j].bank == b && presets[j].program == g {
            assert(lists(index, j));
            let k = choose|k: int| 0 <= k < index.len() && (#[trigger] index[k]).preset == j;
            assert(index[k].bank == b && index[k].program == g);
            if at < k {
                assert(before(index[at], index[k]));
            }
        }
    }
}

/// Without an exact match the same program in bank 0 stands in.
pub proof fn law_find_falls_back_to_bank_zero(
    index: Seq<IndexEntry>,
    presets: Seq<Preset>,
    bank: u16,
    p: int,
)
    requires
        indexes(index, presets, presets.len() as int),
        0 <= p < presets.len(),
        presets[p].bank == 0,
        forall|j: int|
            0 <= j < presets.len() ==> (#[trigger] presets[j]).bank != bank || presets[j].program
                != presets[p].program,
    ensures
        resolved(index, bank, presets[p].program) == resolved(index, 0, presets[p].program),
        resolved(index, bank, presets[p].program) matches Some(q) && presets[q as int].bank == 0
            && presets[q as int].program == presets[p].program,
{
    let g = presets[p].program;
    let at = lemma_first_match(index, bank, g, false, 0);
    if first_match(index, bank, g, false, 0) is Some {
        let q = index[at].preset as int;
        assert(presets[q].bank == bank && presets[q].program == g);
    }
    law_find_prefers_the_exact_pair(index, presets, p);
    let z = lemma_first_match(index, 0, g, false, 0);
    assert(lists(index, p));
    let i = choose|i: int| 0 <= i < index.len() && (#[trigger] index[i]).preset == p;
    assert(index[i].bank == 0 && index[i].program == g);
}

/// A drum program that is missing falls back to a drum preset rather than to a
/// melodic one, unless bank 0 has the program.
pub proof fn law_drums_fall_back_to_drums(
    index: Seq<IndexEntry>,
    presets: Seq<Preset>,
    program: u16,
    p: int,
)
    requires
        indexes(index, presets, presets.len() as int),
        0 <= p < presets.len(),
        presets[p].bank == 128,
        forall|j: int|
            0 <= j < presets.len() ==> (#[trigger] presets[j]).bank != 0 || presets[j].program
                != program,
    ensures
        resolved(index, 128, program) matches Some(q) && presets[q as int].bank == 128,
{
    let a = lemma_first_match(index, 128, program, false, 0);
    let b = lemma_first_match(index, 0, program, false, 0);
    if first_match(index, 0, program, false, 0) is Some {
        let q = index[b].preset as int;
        assert(presets[q].bank == 0 && presets[q].program == program);
    }
    let c = lemma_first_match(index, 128, 0, true, 0);
    assert(lists(index, p));
    let i = choose|i: int| 0 <= i < index.len() && (#[trigger] index[i]).preset == p;
    assert(index[i].bank == 128);
}

/// A lookup fails only in a bank without presets, and names a preset that
/// exists.
pub proof fn law_find_fails_only_when_empty(
    index: Seq<IndexEntry>,
    presets: Seq<Preset>,
    bank: u16,
    program: u16,
)
    requires
        indexes(index, presets, presets.len() as int),
    ensures
        resolved(index, bank, program) is None <==> presets.len() == 0,
        resolved(index, bank, program) matches Some(q) ==> q < presets.len(),
{
    let a = lemma_first_match(index, bank, program, false, 0);
    let b = lemma_first_match(index, 0, program, false, 0);
    let c = lemma_first_match(index, 128, 0, true, 0);
}

} // verus!
