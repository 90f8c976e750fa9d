//! What a configuration is refused for, what its words mean, and how many voices
//! a block may take and steal.

use crate::config::{
    is_pow2, AdmitRule, Config, ConfigError, EnvelopeCurve, Interpolation, StealRule,
};
use crate::fbits::within64;
use crate::limiter::{clamped, is_clipped, LimiterMode};
use crate::pool::{find_room, give_way, scheduled, started, stop_frame, voice_for, Voice};
use crate::text::lower_all;
use crate::voice::{pick, SpawnCmd};
use vstd::arithmetic::power2::pow2;
use vstd::prelude::*;

verus! {

/// A configuration is accepted exactly when every setting is in its range: stereo
/// at 8 to 768 kHz, a block of whole tiles that a packed note-on can index,
/// workgroups the device can hold, limiter settings in theirs, voices and layers
/// to play, and a fade shorter than the block.
pub proof fn law_what_makes_a_configuration_valid(c: Config)
    ensures
        c.fault() is None <==> {
            &&& c.channels == 2
            &&& 8000 <= c.sample_rate && c.sample_rate <= 768000
            &&& 0 < c.block_frames && c.block_frames <= 65535
            &&& c.block_frames % c.reduce_tile == 0
            &&& c.block_frames % c.gate_frames == 0
            &&& c.gate_frames > 0 && c.gate_frames % c.reduce_tile == 0
            &&& exists|k: nat| c.reduce_tile == #[trigger] pow2(k)
            &&& exists|k: nat| c.workgroup_size == #[trigger] pow2(k)
            &&& 32 <= c.workgroup_size && c.workgroup_size <= 1024
            &&& c.workgroup_size >= 2 * c.reduce_tile
            &&& c.workgroup_size * (c.reduce_tile * 2 + 1) * 4 <= 49152
            &&& within64(c.limiter_ceiling_db, 0xc038_0000_0000_0000, 0)
            &&& within64(c.limiter_lookahead_ms, 0x3fa9_9999_9999_999a, 0x4059_0000_0000_0000)
            &&& within64(c.limiter_sustain_ms, 0, 0x40c3_8800_0000_0000)
            &&& within64(c.limiter_release_ms, 0x3fb9_9999_9999_999a, 0x40b3_8800_0000_0000)
            &&& c.max_voices > 0
            &&& 0 < c.steal_fade_frames && c.steal_fade_frames < c.block_frames
            &&& 1 <= c.max_steal_percent && c.max_steal_percent <= 100
            &&& 1 <= c.max_layers && c.max_layers <= 255
        },
{
}

/// A refusal names a setting that is really out of its range.
pub proof fn law_a_refusal_names_its_setting(c: Config)
    ensures
        c.fault() == Some(ConfigError::Channels) <==> c.channels != 2,
        c.channels == 2 ==> (c.fault() == Some(ConfigError::SampleRate) <==> c.sample_rate < 8000
            || c.sample_rate > 768000),
        c.fault() == Some(ConfigError::BlockFrames) ==> c.block_frames == 0 || c.block_frames
            % c.reduce_tile != 0,
        c.fault() == Some(ConfigError::WorkgroupSize) ==> !is_pow2(c.workgroup_size)
            || c.workgroup_size < 32 || c.workgroup_size > 1024,
        c.fault() == Some(ConfigError::ReduceTile) ==> !is_pow2(c.reduce_tile),
        c.fault() == Some(ConfigError::GateFrames) ==> c.gate_frames == 0 || c.gate_frames
            % c.reduce_tile != 0 || c.block_frames % c.gate_frames != 0,
        c.fault() == Some(ConfigError::WorkgroupStorage) ==> c.workgroup_size * (c.reduce_tile * 2
            + 1) * 4 > 49152,
        c.fault() == Some(ConfigError::WorkgroupLanes) ==> c.workgroup_size < 2 * c.reduce_tile,
        c.fault() == Some(ConfigError::LimiterCeiling) ==> !within64(
            c.limiter_ceiling_db,
            0xc038_0000_0000_0000,
            0,
        ),
        c.fault() == Some(ConfigError::LimiterLookahead) ==> !within64(
            c.limiter_lookahead_ms,
            0x3fa9_9999_9999_999a,
            0x4059_0000_0000_0000,
        ),
        c.fault() == Some(ConfigError::LimiterSustain) ==> !within64(
            c.limiter_sustain_ms,
            0,
            0x40c3_8800_0000_0000,
        ),
        c.fault() == Some(ConfigError::LimiterRelease) ==> !within64(
            c.limiter_release_ms,
            0x3fb9_9999_9999_999a,
            0x40b3_8800_0000_0000,
        ),
        c.fault() == Some(ConfigError::NoVoices) ==> c.max_voices == 0,
        c.fault() == Some(ConfigError::StealFade) ==> c.steal_fade_frames == 0
            || c.steal_fade_frames >= c.block_frames,
        c.fault() == Some(ConfigError::StealPercent) ==> c.max_steal_percent == 0
            || c.max_steal_percent > 100,
        c.fault() == Some(ConfigError::TooManyLayers) ==> c.max_layers > 255,
        c.fault() == Some(ConfigError::BlockTooLong) ==> c.block_frames > 65535,
        c.fault() == Some(ConfigError::NoLayers) ==> c.max_layers == 0,
{
}

/// The interpolation words, in any letter case.
pub proof fn law_interpolation_words(word: Seq<char>)
    ensures
        ({
            let w = lower_all(word);
            let r = Interpolation::named(word);
            &&& r == Some(Interpolation::Nearest) <==> w == "nearest"@ || w == "none"@ || w == "0"@
            &&& r == Some(Interpolation::Linear) <==> w == "linear"@ || w == "1"@
            &&& r == Some(Interpolation::Cubic) <==> w == "cubic"@ || w == "hermite"@ || w == "2"@
        }),
{
    reveal_strlit("nearest");
    reveal_strlit("none");
    reveal_strlit("0");
    reveal_strlit("linear");
    reveal_strlit("1");
    reveal_strlit("cubic");
    reveal_strlit("hermite");
    reveal_strlit("2");
    assert("nearest"@.len() == 7 && "none"@.len() == 4 && "0"@.len() == 1 && "linear"@.len() == 6
        && "1"@.len() == 1 && "cubic"@.len() == 5 && "hermite"@.len() == 7 && "2"@.len() == 1);
    assert("nearest"@[0] == 'n' && "hermite"@[0] == 'h');
    assert("0"@[0] == '0' && "1"@[0] == '1' && "2"@[0] == '2');
}

/// The envelope words, in any letter case.
pub proof fn law_envelope_words(word: Seq<char>)
    ensures
        ({
            let w = lower_all(word);
            let r = EnvelopeCurve::named(word);
            &&& r == Some(EnvelopeCurve::Exponential) <==> w == "exp"@ || w == "exponential"@ || w
                == "db"@
            &&& r == Some(EnvelopeCurve::Linear) <==> w == "lin"@ || w == "linear"@
        }),
{
    reveal_strlit("exp");
    reveal_strlit("exponential");
    reveal_strlit("db");
    reveal_strlit("lin");
    reveal_strlit("linear");
    assert("exp"@.len() == 3 && "exponential"@.len() == 11 && "db"@.len() == 2 && "lin"@.len() == 3
        && "linear"@.len() == 6);
    assert("exp"@[0] == 'e' && "lin"@[0] == 'l');
}

/// The stealing words, in any letter case.
pub proof fn law_steal_words(word: Seq<char>)
    ensures
        ({
            let w = lower_all(word);
            let r = StealRule::named(word);
            &&& r == Some(StealRule::Oldest) <==> w == "oldest"@
            &&& r == Some(StealRule::Quietest) <==> w == "quietest"@ || w == "quiet"@ || w
                == "level"@
            &&& r == Some(StealRule::DropNew) <==> w == "drop"@ || w == "dropnew"@ || w
                == "drop-new"@
        }),
{
    reveal_strlit("oldest");
    reveal_strlit("quietest");
    reveal_strlit("quiet");
    reveal_strlit("level");
    reveal_strlit("drop");
    reveal_strlit("dropnew");
    reveal_strlit("drop-new");
    assert("oldest"@.len() == 6 && "quietest"@.len() == 8 && "quiet"@.len() == 5 && "level"@.len()
        == 5 && "drop"@.len() == 4 && "dropnew"@.len() == 7 && "drop-new"@.len() == 8);
    assert("quietest"@[0] == 'q' && "drop-new"@[0] == 'd');
}

/// The admission words, in any letter case.
pub proof fn law_admission_words(word: Seq<char>)
    ensures
        ({
            let w = lower_all(word);
            let r = AdmitRule::named(word);
            &&& r == Some(AdmitRule::Loudest) <==> w == "loudest"@ || w == "loud"@ || w == "rank"@
                || w == "ranked"@
            &&& r == Some(AdmitRule::Even) <==> w == "even"@ || w == "spread"@ || w == "flat"@
        }),
{
    reveal_strlit("loudest");
    reveal_strlit("loud");
    reveal_strlit("rank");
    reveal_strlit("ranked");
    reveal_strlit("even");
    reveal_strlit("spread");
    reveal_strlit("flat");
    assert("loudest"@[0] == 'l' && "loud"@[0] == 'l' && "rank"@[0] == 'r' && "ranked"@[0] == 'r');
    assert("even"@[0] == 'e' && "spread"@[0] == 's' && "flat"@[0] == 'f');
}

/// The limiter words, in any letter case.
pub proof fn law_limiter_words(word: Seq<char>)
    ensures
        ({
            let w = lower_all(word);
            let r = LimiterMode::named(word);
            &&& r == Some(LimiterMode::Off) <==> w == "off"@ || w == "none"@
            &&& r == Some(LimiterMode::Omni) <==> w == "omni"@ || w == "kiva"@ || w == "legacy"@
            &&& r == Some(LimiterMode::Brickwall) <==> w == "brickwall"@ || w == "brick"@ || w
                == "peak"@
        }),
{
    reveal_strlit("off");
    reveal_strlit("none");
    reveal_strlit("omni");
    reveal_strlit("kiva");
    reveal_strlit("legacy");
    reveal_strlit("brickwall");
    reveal_strlit("brick");
    reveal_strlit("peak");
    assert("off"@.len() == 3 && "omni"@.len() == 4);
    assert("none"@[0] == 'n' && "omni"@[0] == 'o' && "kiva"@[0] == 'k' && "legacy"@[0] == 'l');
    assert("brickwall"@[0] == 'b' && "brick"@[0] == 'b' && "peak"@[0] == 'p' && "off"@[0] == 'o');
}

/// The letter case of a word has no say in what it means.
pub proof fn law_letter_case_does_not_matter(a: Seq<char>, b: Seq<char>)
    requires
        lower_all(a) == lower_all(b),
    ensures
        Interpolation::named(a) == Interpolation::named(b),
        EnvelopeCurve::named(a) == EnvelopeCurve::named(b),
        StealRule::named(a) == StealRule::named(b),
        AdmitRule::named(a) == AdmitRule::named(b),
        LimiterMode::named(a) == LimiterMode::named(b),
{
}

/// The numbers the shaders know the choices by.
pub proof fn law_shader_codes(i: Interpolation, e: EnvelopeCurve, s: StealRule)
    ensures
        i.code_of() == 0 <==> i == Interpolation::Nearest,
        i.code_of() == 1 <==> i == Interpolation::Linear,
        i.code_of() == 2 <==> i == Interpolation::Cubic,
        e.code_of() == 0 <==> e == EnvelopeCurve::Exponential,
        e.code_of() == 1 <==> e == EnvelopeCurve::Linear,
        s.code_of() == 0 <==> s == StealRule::Oldest,
        s.code_of() == 1 <==> s == StealRule::DropNew,
        s.code_of() == 2 <==> s == StealRule::Quietest,
{
}

/// One block steals at most its percentage of the pool, in whole voices, but
/// always at least one; a hundred percent is the whole pool.
pub proof fn law_the_steal_cap_is_a_percentage(c: Config)
    requires
        c.fault() is None,
    ensures
        1 <= c.steal_cap() <= c.max_voices,
        c.max_steal_percent == 100 ==> c.steal_cap() == c.max_voices,
        c.max_voices * c.max_steal_percent >= 100 ==> c.steal_cap() * 100 <= c.max_voices
            * c.max_steal_percent < (c.steal_cap() + 1) * 100,
        c.max_voices * c.max_steal_percent < 100 ==> c.steal_cap() == 1,
{
    let p = c.max_voices * c.max_steal_percent;
    assert(0 <= p <= c.max_voices * 100) by (nonlinear_arith)
        requires
            p == c.max_voices * c.max_steal_percent,
            0 <= c.max_voices,
            0 <= c.max_steal_percent <= 100,
    ;
    assert(p / 100 <= c.max_voices);
    assert((p / 100) % 0x1_0000_0000 == p / 100);
}

/// What a block may take in. While everything fits, everything is taken and
/// nothing gives way. Over the ceiling, where newcomers are dropped only the free
/// places are filled; otherwise as many voices give way as are missing, up to the
/// cap, and their places are filled too.
pub proof fn law_what_a_block_takes_in(c: Config, live: int, want: int)
    requires
        0 <= live <= c.max_voices,
        0 <= want,
        c.steal_cap() >= 0,
    ensures
        live + want <= c.max_voices ==> find_room(c, live, want) == want && give_way(c, live, want)
            == 0 && c.admit_count(live, want) == want && c.steal_need(live, want) == 0,
        live + want > c.max_voices && c.steal_rule == StealRule::DropNew ==> find_room(
            c,
            live,
            want,
        ) == c.max_voices - live && give_way(c, live, want) == 0,
        live + want > c.max_voices && c.steal_rule != StealRule::DropNew && live + want
            - c.max_voices <= c.steal_cap() && want <= c.max_voices ==> find_room(c, live, want)
            == want && give_way(c, live, want) == live + want - c.max_voices,
        live + want > c.max_voices && c.steal_rule != StealRule::DropNew && c.steal_cap() <= live
            && live + want - c.max_voices > c.steal_cap() ==> find_room(c, live, want)
            == c.max_voices - live + c.steal_cap() && give_way(c, live, want) == c.steal_cap(),
        find_room(c, live, want) == c.admit_count(live, want),
        give_way(c, live, want) == c.steal_need(live, want),
{
}

/// Steals are spread over the block by note id: ids that follow each other fade
/// from frames that follow each other, and the whole span is used before a frame
/// comes round again.
pub proof fn law_steals_are_spread(id: u64, span: int)
    requires
        0 < span <= 65535,
        id < 0xffff_ffff,
    ensures
        1 <= stop_frame(id, span) <= span,
        id < span ==> stop_frame(id, span) == id + 1,
        stop_frame(id, span) < span ==> stop_frame((id + 1) as u64, span) == stop_frame(id, span)
            + 1,
        stop_frame(id, span) == span ==> stop_frame((id + 1) as u64, span) == 1,
{
    let x = id as int;
    vstd::arithmetic::div_mod::lemma_mod_bound(x, span);
    vstd::arithmetic::div_mod::lemma_fundamental_div_mod(x, span);
    let q = x / span;
    let r = x % span;
    if x < span {
        vstd::arithmetic::div_mod::lemma_small_mod(x as nat, span as nat);
    }
    if r + 1 < span {
        assert(x + 1 == q * span + (r + 1)) by (nonlinear_arith)
            requires
                x == span * q + r,
        ;
        vstd::arithmetic::div_mod::lemma_fundamental_div_mod_converse(x + 1, span, q, r + 1);
    } else {
        assert(x + 1 == (q + 1) * span + 0) by (nonlinear_arith)
            requires
                x == span * q + r,
                r + 1 == span,
        ;
        vstd::arithmetic::div_mod::lemma_fundamental_div_mod_converse(x + 1, span, q + 1, 0);
    }
}

/// Stealing touches its victims and nobody else, and of them only the frame they
/// fade from: they go on sounding as they were until then.
pub proof fn law_stealing_touches_its_victims_alone(
    voices: Seq<Voice>,
    victims: Seq<usize>,
    span: int,
    i: int,
)
    requires
        0 <= i < voices.len() <= u32::MAX,
        0 < span <= 65535,
    ensures
        scheduled(voices, victims, span).len() == voices.len(),
        !victims.contains(i as usize) ==> scheduled(voices, victims, span)[i] == voices[i],
        victims.contains(i as usize) ==> {
            let v = scheduled(voices, victims, span)[i];
            &&& 1 <= v.stop_rel <= span
            &&& v == (Voice { stop_rel: v.stop_rel, ..voices[i] })
        },
{
    vstd::arithmetic::div_mod::lemma_mod_bound(
        voices[i].note_id as int % 0x1_0000_0000,
        span,
    );
}

/// The commands that fit start in order, each as the voice it describes, and the
/// first of them is the block's first command.
pub proof fn law_started_voices_are_the_picked_commands(
    cmds: Seq<SpawnCmd>,
    take: int,
    i: int,
    j: int,
)
    requires
        0 < take <= cmds.len(),
        0 <= i < j < take,
    ensures
        started(cmds, take).len() == take,
        started(cmds, take)[0] == voice_for(cmds[0]),
        0 <= pick(i, cmds.len() as int, take) < pick(j, cmds.len() as int, take) < cmds.len(),
        started(cmds, take)[i] == voice_for(cmds[pick(i, cmds.len() as int, take)]),
        take == cmds.len() ==> started(cmds, take)[i] == voice_for(cmds[i]),
{
    let want = cmds.len() as int;
    crate::voice::law_picks_never_fall_behind(i, want, take);
    crate::voice::law_picks_never_fall_behind(j, want, take);
    crate::voice::law_picks_strictly_increase(i, j, want, take);
    assert(0 * want / take == 0) by (nonlinear_arith)
        requires
            take > 0,
    ;
    assert(pick(0, want, take) == 0);
    if take == want {
        vstd::arithmetic::div_mod::lemma_div_multiples_vanish(i, want);
        assert(i * want == want * i) by (nonlinear_arith);
    }
}

/// An even thinning really is even: the `i`-th of `take` survivors stands at the
/// same share of the queue as of the survivors, to within one place.
pub proof fn law_thinning_is_even(i: int, want: int, take: int)
    requires
        0 < take <= want,
        0 <= i < take,
    ensures
        pick(i, want, take) * take <= i * want < (pick(i, want, take) + 1) * take,
{
    let p = i * want;
    assert(0 <= p) by (nonlinear_arith)
        requires
            p == i * want,
            0 <= i,
            0 < want,
    ;
    vstd::arithmetic::div_mod::lemma_fundamental_div_mod(p, take);
    vstd::arithmetic::div_mod::lemma_mod_bound(p, take);
    let q = p / take;
    assert(q * take == take * q && (q + 1) * take == take * q + take) by (nonlinear_arith);
}

/// The clamp pulls a sample past full scale to full scale of the same sign,
/// infinities too, and leaves every other as it is.
pub proof fn law_the_clamp_is_full_scale(v: u32)
    ensures
        0x3f80_0000 < v <= 0x7f80_0000 ==> clamped(v) == 0x3f80_0000 && is_clipped(v),
        0xbf80_0000 < v <= 0xff80_0000 ==> clamped(v) == 0xbf80_0000 && is_clipped(v),
        v <= 0x3f80_0000 || 0x7f80_0000 < v <= 0xbf80_0000 || v > 0xff80_0000 ==> clamped(v) == v
            && !is_clipped(v),
{
}

} // verus!
