//! What each SFZ opcode does to a region, and what each header starts.

use crate::bank::{LoopMode, SampleInfo};
use crate::sfz::{
    accidentals, accidentals_end, bracketed, bumped, channel_region, known,
    letter_step, note_of, region_of, reported_as, sample_info, sample_root, slashed, tallied,
    times_reported, unimplemented_group, usable, Assembly, Decimals, SampleMeta, SectionView,
};
use crate::text::{begins, integer_of, trimmed};
use vstd::prelude::*;

verus! {

/// An opcode spells the integer `n`.
pub open spec fn spells_number(ops: Map<Seq<char>, Seq<char>>, name: Seq<char>, n: int) -> bool {
    ops.contains_key(name) && integer_of(trimmed(ops[name])) == Some(n as i32) && i32::MIN <= n
        <= i32::MAX
}

/// An opcode names the key `n`, as a number or as a note.
pub open spec fn names_key(ops: Map<Seq<char>, Seq<char>>, name: Seq<char>, n: int) -> bool {
    spells_number(ops, name, n) || (ops.contains_key(name) && integer_of(trimmed(ops[name])) is None
        && note_of(trimmed(ops[name])) == Some(n as i32) && i32::MIN <= n <= i32::MAX)
}

/// An opcode names no key: it is absent, or it is neither a number nor a note.
pub open spec fn names_no_key(ops: Map<Seq<char>, Seq<char>>, name: Seq<char>) -> bool {
    ops.contains_key(name) ==> integer_of(trimmed(ops[name])) is None && note_of(
        trimmed(ops[name]),
    ) is None
}

/// The root of a region is the key its `pitch_keycenter` names, whatever `key`,
/// `lokey`, `hikey` and the sample say; without it a region with a `key` has that
/// for its root, and without either the sample's own. What is named past the ends
/// of the keyboard is the end.
pub proof fn law_the_key_centre_is_the_root(
    ops: Map<Seq<char>, Seq<char>>,
    d: Decimals,
    sample: u32,
    info: SampleInfo,
    k: int,
    j: int,
)
    ensures
        ({
            let root = region_of(ops, d, sample, info).root_key_override;
            &&& names_key(ops, "pitch_keycenter"@, k) && 0 <= k <= 127 ==> root == k
            &&& names_key(ops, "pitch_keycenter"@, k) && k > 127 ==> root == 127
            &&& names_key(ops, "pitch_keycenter"@, k) && k < 0 ==> root == 0
            &&& names_no_key(ops, "pitch_keycenter"@) && names_key(ops, "key"@, j) && 0 <= j <= 127
                ==> root == j
            &&& names_no_key(ops, "pitch_keycenter"@) && names_key(ops, "key"@, j) && j > 127
                ==> root == 127
            &&& names_no_key(ops, "pitch_keycenter"@) && names_key(ops, "key"@, j) && j < 0
                ==> root == 0
            &&& names_no_key(ops, "pitch_keycenter"@) && names_no_key(ops, "key"@) ==> root
                == info.root_key
        }),
{
}

/// A region sounds from its `lokey` to its `hikey`. `key` stands for both, where
/// they are not given themselves; with none of the three it is the whole keyboard.
pub proof fn law_keys_bound_the_region(
    ops: Map<Seq<char>, Seq<char>>,
    d: Decimals,
    sample: u32,
    info: SampleInfo,
    lo: int,
    hi: int,
    k: int,
)
    requires
        0 <= lo <= 127,
        0 <= hi <= 127,
        0 <= k <= 127,
    ensures
        ({
            let r = region_of(ops, d, sample, info);
            &&& names_key(ops, "lokey"@, lo) ==> r.key_lo == lo
            &&& names_key(ops, "hikey"@, hi) ==> r.key_hi == hi
            &&& names_no_key(ops, "lokey"@) && names_key(ops, "key"@, k) ==> r.key_lo == k
            &&& names_no_key(ops, "hikey"@) && names_key(ops, "key"@, k) ==> r.key_hi == k
            &&& names_no_key(ops, "lokey"@) && names_no_key(ops, "key"@) ==> r.key_lo == 0
            &&& names_no_key(ops, "hikey"@) && names_no_key(ops, "key"@) ==> r.key_hi == 127
        }),
{
}

/// Keys named past an end of the keyboard are that end.
pub proof fn law_keys_stop_at_the_keyboard(
    ops: Map<Seq<char>, Seq<char>>,
    d: Decimals,
    sample: u32,
    info: SampleInfo,
    k: int,
)
    ensures
        ({
            let r = region_of(ops, d, sample, info);
            &&& names_key(ops, "lokey"@, k) && k > 127 ==> r.key_lo == 127
            &&& names_key(ops, "lokey"@, k) && k < 0 ==> r.key_lo == 0
            &&& names_key(ops, "hikey"@, k) && k > 127 ==> r.key_hi == 127
            &&& names_key(ops, "hikey"@, k) && k < 0 ==> r.key_hi == 0
        }),
{
}

/// An integer opcode's value: what it spells, or what a decimal reading of it
/// gives where it spells no integer.
pub open spec fn reads(
    ops: Map<Seq<char>, Seq<char>>,
    name: Seq<char>,
    decimal: Option<i32>,
    n: int,
) -> bool {
    spells_number(ops, name, n) || (ops.contains_key(name) && integer_of(trimmed(ops[name])) is None
        && decimal == Some(n as i32) && i32::MIN <= n <= i32::MAX)
}

/// An integer opcode has no value: it is absent, or no number at all.
pub open spec fn reads_nothing(
    ops: Map<Seq<char>, Seq<char>>,
    name: Seq<char>,
    decimal: Option<i32>,
) -> bool {
    ops.contains_key(name) ==> integer_of(trimmed(ops[name])) is None && decimal is None
}

/// A region answers velocities from its `lovel` to its `hivel`, of all of them
/// where neither is given, and its `group` is its exclusive class.
pub proof fn law_velocities_bound_the_region(
    ops: Map<Seq<char>, Seq<char>>,
    d: Decimals,
    sample: u32,
    info: SampleInfo,
    v: int,
)
    ensures
        ({
            let r = region_of(ops, d, sample, info);
            &&& reads(ops, "lovel"@, d.lovel, v) && 0 <= v <= 127 ==> r.vel_lo == v
            &&& reads(ops, "lovel"@, d.lovel, v) && v > 127 ==> r.vel_lo == 127
            &&& reads(ops, "lovel"@, d.lovel, v) && v < 0 ==> r.vel_lo == 0
            &&& reads(ops, "hivel"@, d.hivel, v) && 0 <= v <= 127 ==> r.vel_hi == v
            &&& reads(ops, "hivel"@, d.hivel, v) && v > 127 ==> r.vel_hi == 127
            &&& reads(ops, "hivel"@, d.hivel, v) && v < 0 ==> r.vel_hi == 0
            &&& reads_nothing(ops, "lovel"@, d.lovel) ==> r.vel_lo == 0
            &&& reads_nothing(ops, "hivel"@, d.hivel) ==> r.vel_hi == 127
            &&& reads(ops, "group"@, d.group, v) && 0 <= v <= 255 ==> r.exclusive_class == v
            &&& reads(ops, "group"@, d.group, v) && v > 255 ==> r.exclusive_class == 255
            &&& reads(ops, "group"@, d.group, v) && v < 0 ==> r.exclusive_class == 0
            &&& reads_nothing(ops, "group"@, d.group) ==> r.exclusive_class == 0
        }),
{
}

/// A region is tuned by `tune` in cents, or by `pitch`, its other name, where
/// `tune` is not given; by `transpose` in semitones; and tracks the keyboard by
/// `pitch_keytrack`, at a semitone per key where it is not given.
pub proof fn law_tuning_opcodes(
    ops: Map<Seq<char>, Seq<char>>,
    d: Decimals,
    sample: u32,
    info: SampleInfo,
    t: int,
    c: i16,
)
    ensures
        ({
            let r = region_of(ops, d, sample, info);
            &&& d.tune == Some(c) ==> r.fine_tune == c
            &&& d.tune is None && d.pitch == Some(c) ==> r.fine_tune == c
            &&& d.tune is None && d.pitch is None ==> r.fine_tune == 0
            &&& d.pitch_keytrack == Some(c) ==> r.scale_tuning == c
            &&& d.pitch_keytrack is None ==> r.scale_tuning == 100
            &&& reads(ops, "transpose"@, d.transpose, t) && -127 <= t <= 127 ==> r.coarse_tune == t
            &&& reads(ops, "transpose"@, d.transpose, t) && t > 127 ==> r.coarse_tune == 127
            &&& reads(ops, "transpose"@, d.transpose, t) && t < -127 ==> r.coarse_tune == -127
            &&& reads_nothing(ops, "transpose"@, d.transpose) ==> r.coarse_tune == 0
        }),
{
}

/// The places a region names in its sample come back as the sample's own place
/// plus the region's offset to it: it starts at its `offset`, ends at its `end`
/// and loops from its `loop_start` to its `loop_end`; without one of them the
/// sample's own place stands.
pub proof fn law_places_in_the_sample(
    ops: Map<Seq<char>, Seq<char>>,
    d: Decimals,
    sample: u32,
    info: SampleInfo,
    p: int,
)
    requires
        info.len < 0x4000_0000,
        info.loop_start < 0x4000_0000,
        info.loop_end < 0x4000_0000,
        -0x4000_0000 < p < 0x4000_0000,
    ensures
        ({
            let r = region_of(ops, d, sample, info);
            &&& reads(ops, "offset"@, d.offset, p) && p >= 0 ==> r.addr_start == p
            &&& reads(ops, "offset"@, d.offset, p) && p < 0 ==> r.addr_start == 0
            &&& reads_nothing(ops, "offset"@, d.offset) ==> r.addr_start == 0
            &&& reads(ops, "end"@, d.end, p) && p > 0 ==> info.len + r.addr_end == p
            &&& reads(ops, "end"@, d.end, p) && p <= 0 ==> r.addr_end == 0
            &&& reads_nothing(ops, "end"@, d.end) ==> r.addr_end == 0
            &&& reads(ops, "loop_start"@, d.loop_start, p) ==> info.loop_start + r.addr_loop_start
                == p
            &&& reads_nothing(ops, "loop_start"@, d.loop_start) ==> r.addr_loop_start == 0
            &&& reads(ops, "loop_end"@, d.loop_end, p) ==> info.loop_end + r.addr_loop_end == p
            &&& reads_nothing(ops, "loop_end"@, d.loop_end) ==> r.addr_loop_end == 0
            &&& r.sample == sample
        }),
{
}

/// The level, envelope and filter opcodes each set the part of the region they
/// name, and each has its own default: no attenuation, full velocity tracking,
/// centred, and an instant attack to full level.
pub proof fn law_levels_times_and_filter(
    ops: Map<Seq<char>, Seq<char>>,
    d: Decimals,
    sample: u32,
    info: SampleInfo,
    x: u32,
)
    ensures
        ({
            let r = region_of(ops, d, sample, info);
            let lp = ops.contains_key("fil_type"@) ==> begins(ops["fil_type"@], "lpf"@);
            &&& d.volume == Some(x) ==> r.attenuation_cb == x
            &&& d.volume is None ==> r.attenuation_cb == 0
            &&& d.amp_veltrack == Some(x) ==> r.amp_veltrack == x
            &&& d.amp_veltrack is None ==> r.amp_veltrack == 0x42c8_0000
            &&& d.pan == Some(x) ==> r.pan == x
            &&& d.pan is None ==> r.pan == 0
            &&& d.ampeg_delay == Some(x) ==> r.delay == x
            &&& d.ampeg_delay is None ==> r.delay == 0
            &&& d.ampeg_attack == Some(x) ==> r.attack == x
            &&& d.ampeg_attack is None ==> r.attack == 0x3a83_126f
            &&& d.ampeg_hold == Some(x) ==> r.hold == x
            &&& d.ampeg_hold is None ==> r.hold == 0
            &&& d.ampeg_decay == Some(x) ==> r.decay == x
            &&& d.ampeg_decay is None ==> r.decay == 0x42c8_0000
            &&& d.ampeg_sustain == Some(x) ==> r.sustain == x
            &&& d.ampeg_sustain is None ==> r.sustain == 0x3f80_0000
            &&& d.ampeg_release == Some(x) ==> r.release == x
            &&& d.ampeg_release is None ==> r.release == 0x3d4c_cccd
            &&& d.resonance == Some(x) ==> r.filter_q_cb == x
            &&& d.resonance is None ==> r.filter_q_cb == 0
            &&& lp && d.cutoff == Some(x) ==> r.filter_fc_cents == x
            &&& lp && d.fil_veltrack == Some(x) ==> r.filter_veltrack_cents == x
            &&& !lp || d.cutoff is None ==> r.filter_fc_cents == 0x4652_f000
            &&& !lp || d.fil_veltrack is None ==> r.filter_veltrack_cents == 0
            &&& r.keynum_to_hold == 0 && r.keynum_to_decay == 0
            &&& r.fixed_key == -1 && r.fixed_vel == -1
        }),
{
}

/// How a region asks to loop: `loop_mode`, or its older spelling where that is not
/// given.
pub open spec fn asks_to_loop(ops: Map<Seq<char>, Seq<char>>, word: Seq<char>) -> bool {
    if ops.contains_key("loop_mode"@) {
        ops["loop_mode"@] == word
    } else {
        ops.contains_key("loopmode"@) && ops["loopmode"@] == word
    }
}

/// The loop words: continuous loops for good, sustain until the note-off, one-shot
/// and no-loop not at all, and only one-shot ignores the note-off. Without a word
/// the sample's own loop is used, where it has one of two frames or more.
pub proof fn law_loop_words(
    ops: Map<Seq<char>, Seq<char>>,
    d: Decimals,
    sample: u32,
    info: SampleInfo,
)
    ensures
        ({
            let r = region_of(ops, d, sample, info);
            &&& asks_to_loop(ops, "loop_continuous"@) ==> r.loop_mode == LoopMode::Continuous
                && !r.one_shot
            &&& asks_to_loop(ops, "loop_sustain"@) ==> r.loop_mode == LoopMode::UntilRelease
                && !r.one_shot
            &&& asks_to_loop(ops, "one_shot"@) ==> r.loop_mode == LoopMode::NoLoop && r.one_shot
            &&& asks_to_loop(ops, "no_loop"@) ==> r.loop_mode == LoopMode::NoLoop && !r.one_shot
            &&& !ops.contains_key("loop_mode"@) && !ops.contains_key("loopmode"@) ==> {
                &&& !r.one_shot
                &&& info.loop_end >= info.loop_start + 2 ==> r.loop_mode == LoopMode::Continuous
                &&& info.loop_end < info.loop_start + 2 ==> r.loop_mode == LoopMode::NoLoop
            }
            &&& r.one_shot ==> asks_to_loop(ops, "one_shot"@)
        }),
{
    reveal_strlit("loop_continuous");
    reveal_strlit("loop_sustain");
    reveal_strlit("one_shot");
    reveal_strlit("no_loop");
    assert("loop_continuous"@.len() == 15);
    assert("loop_sustain"@.len() == 12);
    assert("one_shot"@.len() == 8);
    assert("no_loop"@.len() == 7);
    assert(Seq::<char>::empty().len() == 0);
}

/// One half of a stereo sample is its own channel's region with the pan set hard
/// to its side and nothing else changed; whatever pan the opcodes ask for is not
/// heard twice.
pub proof fn law_stereo_halves(
    ops: Map<Seq<char>, Seq<char>>,
    d: Decimals,
    channels: Seq<u32>,
    samples: Seq<SampleInfo>,
    half: int,
)
    requires
        channels.len() == 2,
        0 <= half < 2,
    ensures
        ({
            let h = channel_region(ops, d, channels, samples, half);
            let p: u32 = if half == 0 { 0xbf80_0000 } else { 0x3f80_0000 };
            h == region_of(
                ops,
                (Decimals { pan: Some(p), ..d }),
                channels[half],
                samples[channels[half] as int],
            )
        }),
{
}

/// A sample knows where it is in the pool, keeps its loop inside itself, is at the
/// pool's rate where the pool has one, and is rooted where its file says, else at
/// middle C.
pub proof fn law_what_a_sample_is(start: int, len: int, pool_rate: u32, meta: SampleMeta)
    requires
        0 <= start <= u32::MAX,
        0 < len <= u32::MAX,
    ensures
        ({
            let s = sample_info(start, len, pool_rate, meta);
            &&& s.start == start && s.len == len
            &&& meta.loop_start < len ==> s.loop_start == meta.loop_start
            &&& meta.loop_start >= len ==> s.loop_start == len - 1
            &&& meta.loop_end <= len ==> s.loop_end == meta.loop_end
            &&& meta.loop_end > len ==> s.loop_end == len
            &&& pool_rate > 0 ==> s.rate == pool_rate
            &&& pool_rate == 0 ==> s.rate == meta.source_rate
            &&& meta.root_key matches Some(k) ==> s.root_key == k
            &&& meta.root_key is None ==> s.root_key == 60
            &&& s.correction_cents == meta.correction_cents
            &&& s.resample_ratio == meta.resample_ratio
            &&& s.name == meta.name
        }),
{
}

/// What a region leaves unread is counted: each name its unread opcodes go under
/// goes up by their number for every time the region is counted, and no other
/// name moves.
pub proof fn law_what_is_unread_is_counted(
    t: Map<Seq<char>, u32>,
    ops: Map<Seq<char>, Seq<char>>,
    n: int,
    name: Seq<char>,
)
    requires
        0 <= n,
        !t.contains_key(name) || t[name] + n * times_reported(ops, name) < u32::MAX,
        n * times_reported(ops, name) < u32::MAX,
        n * times_reported(ops, name) >= 0,
    ensures
        ({
            let a = tallied(t, ops, n);
            let more = n * times_reported(ops, name);
            &&& n == 0 ==> a.contains_key(name) == t.contains_key(name)
            &&& times_reported(ops, name) == 0 ==> a.contains_key(name) == t.contains_key(name)
            &&& t.contains_key(name) ==> a.contains_key(name) && a[name] == t[name] + more
            &&& !t.contains_key(name) && n > 0 && times_reported(ops, name) > 0
                ==> a.contains_key(name) && a[name] == more
        }),
{
}

/// A region sounds when it names a sample, unless its end is -1.
pub proof fn law_which_regions_sound(ops: Map<Seq<char>, Seq<char>>, end: Option<i32>, e: int)
    ensures
        !ops.contains_key("sample"@) ==> !usable(ops, end),
        ops.contains_key("sample"@) && reads(ops, "end"@, end, -1) ==> !usable(ops, end),
        ops.contains_key("sample"@) && reads(ops, "end"@, end, e) && e != -1 ==> usable(ops, end),
        ops.contains_key("sample"@) && reads_nothing(ops, "end"@, end) ==> usable(ops, end),
{
}

proof fn lemma_headers_differ()
    ensures
        "global"@ != "master"@,
        "global"@ != "group"@,
        "global"@ != "region"@,
        "master"@ != "group"@,
        "master"@ != "region"@,
        "group"@ != "region"@,
        "control"@ != "global"@ && "control"@ != "master"@ && "control"@ != "group"@
            && "control"@ != "region"@,
        "curve"@ != "global"@ && "curve"@ != "master"@ && "curve"@ != "group"@ && "curve"@
            != "region"@,
        "effect"@ != "global"@ && "effect"@ != "master"@ && "effect"@ != "group"@ && "effect"@
            != "region"@,
{
    reveal_strlit("global");
    reveal_strlit("master");
    reveal_strlit("group");
    reveal_strlit("region");
    reveal_strlit("control");
    reveal_strlit("curve");
    reveal_strlit("effect");
    assert("global"@.len() == 6 && "master"@.len() == 6 && "group"@.len() == 5 && "region"@.len()
        == 6 && "control"@.len() == 7 && "curve"@.len() == 5 && "effect"@.len() == 6);
    assert("global"@[0] == 'g' && "master"@[0] == 'm' && "group"@[0] == 'g' && "region"@[0] == 'r');
    assert("curve"@[0] == 'c' && "effect"@[0] == 'e');
}

/// What each header starts. A global section replaces all that regions inherit; a
/// master section adds to it, with its own word over the global one's, and both
/// start a new group; a group section replaces the group and leaves the global
/// section; a region adds one region and leaves what later regions inherit;
/// control, curve and effect sections change nothing; any other header is counted
/// under its name.
pub proof fn law_what_headers_start(a: Assembly, s: SectionView, key: Seq<char>)
    ensures
        ({
            let b = a.with(s);
            let h = s.header;
            &&& h == "global"@ ==> b.global == s.ops && b.group == Map::<
                Seq<char>,
                Seq<char>,
            >::empty() && b.regions == a.regions && b.unknown == a.unknown
            &&& h == "master"@ ==> {
                &&& s.ops.contains_key(key) ==> b.global.contains_key(key) && b.global[key]
                    == s.ops[key]
                &&& !s.ops.contains_key(key) && a.global.contains_key(key)
                    ==> b.global.contains_key(key) && b.global[key] == a.global[key]
                &&& b.global.contains_key(key) ==> s.ops.contains_key(key)
                    || a.global.contains_key(key)
                &&& b.group == Map::<Seq<char>, Seq<char>>::empty()
                &&& b.regions == a.regions
                &&& b.unknown == a.unknown
            }
            &&& h == "group"@ ==> b.group == s.ops && b.global == a.global && b.regions
                == a.regions && b.unknown == a.unknown
            &&& h == "region"@ ==> b.group == a.group && b.global == a.global && b.regions.len()
                == a.regions.len() + 1 && b.regions.drop_last() == a.regions && b.unknown
                == a.unknown
            &&& h == "control"@ || h == "curve"@ || h == "effect"@ ==> b == a
            &&& !(h == "global"@ || h == "master"@ || h == "group"@ || h == "region"@ || h
                == "control"@ || h == "curve"@ || h == "effect"@) ==> {
                &&& b.global == a.global && b.group == a.group && b.regions == a.regions
                &&& b.unknown.contains_key(bracketed(h))
                &&& !a.unknown.contains_key(bracketed(h)) ==> b.unknown[bracketed(h)] == 1
                &&& a.unknown.contains_key(bracketed(h)) && a.unknown[bracketed(h)] < u32::MAX
                    ==> b.unknown[bracketed(h)] == a.unknown[bracketed(h)] + 1
            }
        }),
{
    lemma_headers_differ();
    if s.header == "region"@ {
        assert(a.with(s).regions.drop_last() =~= a.regions);
    }
}

/// Counting one more of a name moves that name's count alone.
pub proof fn law_a_bump_counts_one(t: Map<Seq<char>, u32>, name: Seq<char>, other: Seq<char>)
    ensures
        bumped(t, name).contains_key(name),
        !t.contains_key(name) ==> bumped(t, name)[name] == 1,
        t.contains_key(name) && t[name] < u32::MAX ==> bumped(t, name)[name] == t[name] + 1,
        t.contains_key(name) && t[name] == u32::MAX ==> bumped(t, name)[name] == u32::MAX,
        other != name ==> bumped(t, name).contains_key(other) == t.contains_key(other),
        other != name && t.contains_key(other) ==> bumped(t, name)[other] == t[other],
{
}

/// Sample paths start at the directory the last control section names, with its
/// backslashes turned to slashes; sections of any other kind have no say, nor has
/// a control section that names none.
pub proof fn law_the_last_control_section_names_the_directory(sections: Seq<SectionView>, n: int)
    requires
        0 < n <= sections.len(),
    ensures
        sample_root(sections, 0).len() == 0,
        sections[n - 1].header != "control"@ ==> sample_root(sections, n) == sample_root(
            sections,
            n - 1,
        ),
        !sections[n - 1].ops.contains_key("default_path"@) ==> sample_root(sections, n)
            == sample_root(sections, n - 1),
        sections[n - 1].header == "control"@ && sections[n - 1].ops.contains_key("default_path"@)
            ==> {
            let p = sections[n - 1].ops["default_path"@];
            let root = sample_root(sections, n);
            &&& root.len() == p.len()
            &&& forall|i: int|
                0 <= i < p.len() ==> #[trigger] root[i] == (if p[i] == '\\' { '/' } else { p[i] })
        },
{
}

/// A path keeps its length and every character but its backslashes, which become
/// slashes; done twice it changes nothing more.
pub proof fn law_slashes(s: Seq<char>, i: int)
    requires
        0 <= i < s.len(),
    ensures
        slashed(s).len() == s.len(),
        s[i] == '\\' ==> slashed(s)[i] == '/',
        s[i] != '\\' ==> slashed(s)[i] == s[i],
        slashed(slashed(s)) == slashed(s),
{
    assert(slashed(slashed(s)) =~= slashed(s));
}

proof fn lemma_shift(s: Seq<char>, t: Seq<char>, i: int)
    requires
        1 <= i <= s.len(),
        t.len() == s.len() + 1,
        forall|k: int| 1 <= k < s.len() ==> t[k + 1] == #[trigger] s[k],
    ensures
        accidentals_end(t, i + 1) == accidentals_end(s, i) + 1,
        i <= accidentals_end(s, i) <= s.len(),
    decreases s.len() - i,
{
    if i < s.len() && (s[i] == '#' || s[i] == 'b') {
        assert(t[i + 1] == s[i]);
        lemma_shift(s, t, i + 1);
    } else if i < s.len() {
        assert(t[i + 1] == s[i]);
    }
}

proof fn lemma_shift_sum(s: Seq<char>, t: Seq<char>, i: int, n: int)
    requires
        1 <= i,
        n <= s.len(),
        t.len() == s.len() + 1,
        forall|k: int| 1 <= k < s.len() ==> t[k + 1] == #[trigger] s[k],
    ensures
        accidentals(t, i + 1, n + 1) == accidentals(s, i, n),
    decreases n - i,
{
    if i < n {
        assert(t[i + 1] == s[i]);
        lemma_shift_sum(s, t, i + 1, n);
    }
}

/// A sharp behind a note's letter raises it by a semitone, a flat lowers it by
/// one, and neither changes whether it is a note.
pub proof fn law_accidentals_move_by_a_semitone(letter: char, rest: Seq<char>)
    ensures
        ({
            let plain = note_of(seq![letter] + rest);
            let sharp = note_of(seq![letter, '#'] + rest);
            let flat = note_of(seq![letter, 'b'] + rest);
            &&& (plain is Some) == (sharp is Some)
            &&& (plain is Some) == (flat is Some)
            &&& plain matches Some(n) ==> {
                &&& n < i32::MAX ==> sharp == Some((n + 1) as i32)
                &&& n > i32::MIN ==> flat == Some((n - 1) as i32)
            }
        }),
{
    let s = seq![letter] + rest;
    let u = seq![letter, '#'] + rest;
    let f = seq![letter, 'b'] + rest;
    assert forall|k: int| 1 <= k < s.len() implies u[k + 1] == #[trigger] s[k] && f[k + 1] == s[k] by {
    }
    lemma_shift(s, u, 1);
    lemma_shift(s, f, 1);
    let e = accidentals_end(s, 1);
    lemma_shift_sum(s, u, 1, e);
    lemma_shift_sum(s, f, 1, e);
    assert(u[1] == '#' && f[1] == 'b');
    assert(accidentals_end(u, 1) == accidentals_end(u, 2));
    assert(accidentals_end(f, 1) == accidentals_end(f, 2));
    assert(accidentals(u, 1, e + 1) == 1 + accidentals(u, 2, e + 1));
    assert(accidentals(f, 1, e + 1) == -1 + accidentals(f, 2, e + 1));
    assert(u.skip(e + 1) =~= s.skip(e));
    assert(f.skip(e + 1) =~= s.skip(e));
}

/// The notes of an octave: C, D, E, F, G, A and B, in either case, at their
/// semitones above the C; an octave is twelve keys and middle C, `c4`, is key 60.
pub proof fn law_notes_of_an_octave(rest: Seq<char>, octave: int)
    requires
        integer_of(trimmed(rest)) == Some(octave as i32),
        -1000 < octave < 1000,
        rest.len() > 0,
        rest[0] != '#',
        rest[0] != 'b',
    ensures
        note_of(seq!['c'] + rest) == Some((60 + (octave - 4) * 12) as i32),
        note_of(seq!['d'] + rest) == Some((62 + (octave - 4) * 12) as i32),
        note_of(seq!['e'] + rest) == Some((64 + (octave - 4) * 12) as i32),
        note_of(seq!['f'] + rest) == Some((65 + (octave - 4) * 12) as i32),
        note_of(seq!['g'] + rest) == Some((67 + (octave - 4) * 12) as i32),
        note_of(seq!['a'] + rest) == Some((69 + (octave - 4) * 12) as i32),
        note_of(seq!['b'] + rest) == Some((71 + (octave - 4) * 12) as i32),
        note_of(seq!['C'] + rest) == note_of(seq!['c'] + rest),
        note_of(seq!['D'] + rest) == note_of(seq!['d'] + rest),
        note_of(seq!['E'] + rest) == note_of(seq!['e'] + rest),
        note_of(seq!['F'] + rest) == note_of(seq!['f'] + rest),
        note_of(seq!['G'] + rest) == note_of(seq!['g'] + rest),
        note_of(seq!['A'] + rest) == note_of(seq!['a'] + rest),
        note_of(seq!['B'] + rest) == note_of(seq!['b'] + rest),
{
    lemma_plain_note('c', rest, octave, 0);
    lemma_plain_note('d', rest, octave, 2);
    lemma_plain_note('e', rest, octave, 4);
    lemma_plain_note('f', rest, octave, 5);
    lemma_plain_note('g', rest, octave, 7);
    lemma_plain_note('a', rest, octave, 9);
    lemma_plain_note('b', rest, octave, 11);
    lemma_plain_note('C', rest, octave, 0);
    lemma_plain_note('D', rest, octave, 2);
    lemma_plain_note('E', rest, octave, 4);
    lemma_plain_note('F', rest, octave, 5);
    lemma_plain_note('G', rest, octave, 7);
    lemma_plain_note('A', rest, octave, 9);
    lemma_plain_note('B', rest, octave, 11);
}

proof fn lemma_plain_note(letter: char, rest: Seq<char>, octave: int, step: int)
    requires
        letter_step(letter) == Some(step),
        0 <= step < 12,
        integer_of(trimmed(rest)) == Some(octave as i32),
        -1000 < octave < 1000,
        rest.len() > 0,
        rest[0] != '#',
        rest[0] != 'b',
    ensures
        note_of(seq![letter] + rest) == Some((60 + step + (octave - 4) * 12) as i32),
{
    let s = seq![letter] + rest;
    assert(s[1] == rest[0]);
    assert(accidentals_end(s, 1) == 1);
    assert(s.skip(1) =~= rest);
    assert(accidentals(s, 1, 1) == 0);
}

/// What starts with no note letter, or has no octave, is no note.
pub proof fn law_what_is_no_note(s: Seq<char>)
    ensures
        s.len() == 0 ==> note_of(s) is None,
        s.len() > 0 && !('a' <= s[0] <= 'g' || 'A' <= s[0] <= 'G') ==> note_of(s) is None,
        s.len() > 0 && ('a' <= s[0] <= 'g' || 'A' <= s[0] <= 'G') ==> (note_of(s) is Some
            <==> integer_of(trimmed(s.skip(accidentals_end(s, 1)))) is Some),
{
}

/// The opcodes that the loader reads, by name: where the sample is, which keys and
/// velocities it answers, its pitch, level, place, loop, envelope and filter, its
/// group and the directory of its samples. No other is read.
pub proof fn law_opcodes_that_are_read(k: Seq<char>)
    ensures
        known(k) <==> seq![
            "sample"@, "lokey"@, "hikey"@, "key"@, "lovel"@, "hivel"@, "pitch_keycenter"@,
            "pitch_keytrack"@, "tune"@, "pitch"@, "transpose"@, "volume"@, "amp_veltrack"@,
            "pan"@, "loop_mode"@, "loopmode"@, "loop_start"@, "loop_end"@, "offset"@, "end"@,
            "ampeg_delay"@, "ampeg_attack"@, "ampeg_hold"@, "ampeg_decay"@, "ampeg_sustain"@,
            "ampeg_release"@, "cutoff"@, "resonance"@, "fil_veltrack"@, "fil_type"@, "group"@,
            "default_path"@,
        ].contains(k),
{
    let names = seq![
        "sample"@, "lokey"@, "hikey"@, "key"@, "lovel"@, "hivel"@, "pitch_keycenter"@,
        "pitch_keytrack"@, "tune"@, "pitch"@, "transpose"@, "volume"@, "amp_veltrack"@,
        "pan"@, "loop_mode"@, "loopmode"@, "loop_start"@, "loop_end"@, "offset"@, "end"@,
        "ampeg_delay"@, "ampeg_attack"@, "ampeg_hold"@, "ampeg_decay"@, "ampeg_sustain"@,
        "ampeg_release"@, "cutoff"@, "resonance"@, "fil_veltrack"@, "fil_type"@, "group"@,
        "default_path"@,
    ];
    if known(k) {
        assert(names[0] == "sample"@);
        assert(names[1] == "lokey"@);
        assert(names[2] == "hikey"@);
        assert(names[3] == "key"@);
        assert(names[4] == "lovel"@);
        assert(names[5] == "hivel"@);
        assert(names[6] == "pitch_keycenter"@);
        assert(names[7] == "pitch_keytrack"@);
        assert(names[8] == "tune"@);
        assert(names[9] == "pitch"@);
        assert(names[10] == "transpose"@);
        assert(names[11] == "volume"@);
        assert(names[12] == "amp_veltrack"@);
        assert(names[13] == "pan"@);
        assert(names[14] == "loop_mode"@);
        assert(names[15] == "loopmode"@);
        assert(names[16] == "loop_start"@);
        assert(names[17] == "loop_end"@);
        assert(names[18] == "offset"@);
        assert(names[19] == "end"@);
        assert(names[20] == "ampeg_delay"@);
        assert(names[21] == "ampeg_attack"@);
        assert(names[22] == "ampeg_hold"@);
        assert(names[23] == "ampeg_decay"@);
        assert(names[24] == "ampeg_sustain"@);
        assert(names[25] == "ampeg_release"@);
        assert(names[26] == "cutoff"@);
        assert(names[27] == "resonance"@);
        assert(names[28] == "fil_veltrack"@);
        assert(names[29] == "fil_type"@);
        assert(names[30] == "group"@);
        assert(names[31] == "default_path"@);
    }
    if names.contains(k) {
        let i = choose|i: int| 0 <= i < names.len() && names[i] == k;
    }
}

/// An opcode the loader does not read is reported under its own name, or together
/// with its kind where the whole kind is left out on purpose.
pub proof fn law_names_of_reported_opcodes(k: Seq<char>)
    requires
        !known(k),
    ensures
        begins(k, "amplfo_"@) ==> reported_as(k) == Some("amplfo_* (not implemented)"@),
        begins(k, "fillfo_"@) ==> reported_as(k) == Some("fillfo_* (not implemented)"@),
        begins(k, "pitchlfo_"@) ==> reported_as(k) == Some("pitchlfo_* (not implemented)"@),
        begins(k, "set_cc"@) ==> reported_as(k) == Some("set_cc* (not implemented)"@),
        begins(k, "label_cc"@) ==> reported_as(k) == Some("label_cc* (not implemented)"@),
        unimplemented_group(k) is None ==> reported_as(k) == Some(k),
        !(begins(k, "amplfo_"@) || begins(k, "fillfo_"@) || begins(k, "pitchlfo_"@) || begins(
            k,
            "set_cc"@,
        ) || begins(k, "label_cc"@)) ==> reported_as(k) == Some(k),
{
    reveal_strlit("amplfo_");
    reveal_strlit("fillfo_");
    reveal_strlit("pitchlfo_");
    reveal_strlit("set_cc");
    reveal_strlit("label_cc");
    if begins(k, "amplfo_"@) {
        assert(k[0] == "amplfo_"@[0]);
    }
    if begins(k, "fillfo_"@) {
        assert(k[0] == "fillfo_"@[0]);
    }
    if begins(k, "pitchlfo_"@) {
        assert(k[0] == "pitchlfo_"@[0]);
    }
    if begins(k, "set_cc"@) {
        assert(k[0] == "set_cc"@[0]);
    }
    if begins(k, "label_cc"@) {
        assert(k[0] == "label_cc"@[0]);
    }
}

} // verus!
