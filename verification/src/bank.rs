//! Format-independent instrument bank.
//!
//! Soundfonts are flattened into this at load time: a flat sample pool plus a
//! list of regions with every generator already resolved. Note-on then costs one
//! range lookup. Floating-point values are held as bit patterns; the pitches and
//! gains that take floating-point arithmetic are computed once per region by the
//! loader and looked up here.

use crate::fbits::{mag32, magnitude32, F64_INF};
use crate::fixed::{Fixed, FIXED_ONE};
use vstd::prelude::*;

verus! {

/// Voice flag: the sample loops.
pub const VF_LOOP: u32 = 1;

/// Voice flag: loop only until the note is released, then run out the tail.
pub const VF_LOOP_UNTIL_RELEASE: u32 = 2;

/// Voice flag: ignore the note-off gate entirely (SFZ `loop_mode=one_shot`).
pub const VF_ONE_SHOT: u32 = 4;

/// Params flag: run the filter.
pub const RP_FILTER: u32 = 1;

#[derive(Debug, Clone, Copy, PartialEq, Eq, Structural)]
pub enum LoopMode {
    NoLoop,
    Continuous,
    UntilRelease,
}

impl LoopMode {
    /// The voice flags of a loop mode.
    pub open spec fn flag_bits(self) -> u32 {
        match self {
            LoopMode::NoLoop => 0,
            LoopMode::Continuous => VF_LOOP,
            LoopMode::UntilRelease => (VF_LOOP + VF_LOOP_UNTIL_RELEASE) as u32,
        }
    }

    pub fn flags(self) -> (r: u32)
        ensures
            r == self.flag_bits(),
    {
        match self {
            LoopMode::NoLoop => 0,
            LoopMode::Continuous => VF_LOOP,
            LoopMode::UntilRelease => VF_LOOP + VF_LOOP_UNTIL_RELEASE,
        }
    }
}

/// One sample in the flat pool.
#[derive(Debug, Clone)]
pub struct SampleInfo {
    /// Index of the first frame in `Bank::pool`.
    pub start: u32,
    pub len: u32,
    /// Loop points relative to `start`.
    pub loop_start: u32,
    pub loop_end: u32,
    /// Rate the data is stored at.
    pub rate: u32,
    pub root_key: u8,
    /// Sample-level tuning in cents, in single precision.
    pub correction_cents: u32,
    /// Pool frames per source frame, in single precision.
    pub resample_ratio: u32,
    pub name: String,
}

/// A key/velocity zone with every generator already applied.
#[derive(Debug, Clone, Copy, PartialEq, Eq, Structural)]
pub struct Region {
    pub sample: u32,
    pub key_lo: u8,
    pub key_hi: u8,
    pub vel_lo: u8,
    pub vel_hi: u8,
    /// Overrides the sample's root key when not negative.
    pub root_key_override: i16,
    /// Fixed key and velocity for drum-style regions; -1 when unset.
    pub fixed_key: i16,
    pub fixed_vel: i16,
    pub coarse_tune: i16,
    pub fine_tune: i16,
    /// Cents of pitch change per key. 100 is normal, 0 pins the pitch.
    pub scale_tuning: i16,
    pub attenuation_cb: u32,
    /// Velocity tracking in percent.
    pub amp_veltrack: u32,
    /// -1.0 hard left to 1.0 hard right.
    pub pan: u32,
    pub loop_mode: LoopMode,
    /// Play the sample out once, whatever the key does.
    pub one_shot: bool,
    /// Address offsets in source frames, applied on top of the sample's own
    /// start, end and loop points.
    pub addr_start: i32,
    pub addr_end: i32,
    pub addr_loop_start: i32,
    pub addr_loop_end: i32,
    pub exclusive_class: u8,
    /// Volume envelope in seconds, before key scaling.
    pub delay: u32,
    pub attack: u32,
    pub hold: u32,
    pub decay: u32,
    /// Sustain as a linear level in 0 to 1.
    pub sustain: u32,
    pub release: u32,
    /// Envelope key scaling, in timecents per key relative to key 60.
    pub keynum_to_hold: i16,
    pub keynum_to_decay: i16,
    pub filter_fc_cents: u32,
    pub filter_q_cb: u32,
    /// How far the cutoff opens at full velocity, in cents.
    pub filter_veltrack_cents: u32,
    /// First entry of this region's block in the params table.
    pub params_base: u32,
    /// 0 when one entry covers every key, 1 when there is an entry per key.
    pub params_stride: u32,
    /// Entries along velocity in this region's block, 1 when the cutoff does not
    /// track velocity. Indexed from `vel_lo`.
    pub params_vel_span: u32,
}

/// The region a loader starts from: every key and velocity, no tuning, no loop,
/// centred, with a 1 ms envelope and an open filter.
pub open spec fn blank_region() -> Region {
    Region {
        sample: 0,
        key_lo: 0,
        key_hi: 127,
        vel_lo: 0,
        vel_hi: 127,
        root_key_override: (-1int) as i16,
        fixed_key: (-1int) as i16,
        fixed_vel: (-1int) as i16,
        coarse_tune: 0,
        fine_tune: 0,
        scale_tuning: 100,
        attenuation_cb: 0,
        amp_veltrack: 0x42c8_0000,
        pan: 0,
        loop_mode: LoopMode::NoLoop,
        one_shot: false,
        addr_start: 0,
        addr_end: 0,
        addr_loop_start: 0,
        addr_loop_end: 0,
        exclusive_class: 0,
        delay: 0,
        attack: 0x3a83_126f,
        hold: 0,
        decay: 0x3a83_126f,
        sustain: 0x3f80_0000,
        release: 0x3a83_126f,
        keynum_to_hold: 0,
        keynum_to_decay: 0,
        filter_fc_cents: 0x4652_f000,
        filter_q_cb: 0,
        filter_veltrack_cents: 0,
        params_base: 0,
        params_stride: 0,
        params_vel_span: 1,
    }
}

impl Default for Region {
    fn default() -> (r: Self)
        ensures
            r == blank_region(),
    {
        Region {
            sample: 0,
            key_lo: 0,
            key_hi: 127,
            vel_lo: 0,
            vel_hi: 127,
            root_key_override: -1,
            fixed_key: -1,
            fixed_vel: -1,
            coarse_tune: 0,
            fine_tune: 0,
            scale_tuning: 100,
            attenuation_cb: 0,
            // 100.0.
            amp_veltrack: 0x42c8_0000,
            pan: 0,
            loop_mode: LoopMode::NoLoop,
            one_shot: false,
            addr_start: 0,
            addr_end: 0,
            addr_loop_start: 0,
            addr_loop_end: 0,
            exclusive_class: 0,
            delay: 0,
            // 0.001 s.
            attack: 0x3a83_126f,
            hold: 0,
            decay: 0x3a83_126f,
            // 1.0.
            sustain: 0x3f80_0000,
            release: 0x3a83_126f,
            keynum_to_hold: 0,
            keynum_to_decay: 0,
            // 13500.0.
            filter_fc_cents: 0x4652_f000,
            filter_q_cb: 0,
            filter_veltrack_cents: 0,
            params_base: 0,
            params_stride: 0,
            params_vel_span: 1,
        }
    }
}

/// Per-(region, key) signal constants, as bit patterns, in the order the render
/// pass reads them.
#[derive(Debug, Clone, Copy, PartialEq, Eq, Structural)]
pub struct RegionParams {
    pub attack_rate: u32,
    pub attack_end: u32,
    pub decay_coef: u32,
    pub decay_target: u32,
    pub sustain: u32,
    pub release_coef: u32,
    pub b0: u32,
    pub b1: u32,
    pub a1: u32,
    pub a2: u32,
    /// Bit 0: run the filter.
    pub flags: u32,
    pub pad: u32,
}

/// A bank/program pair with its zones flattened.
#[derive(Debug, Clone)]
pub struct Preset {
    pub bank: u16,
    pub program: u16,
    pub name: String,
    /// Indices into `Bank::regions`.
    pub regions: Vec<u32>,
    /// `key_index[k] .. key_index[k+1]` slices `key_regions` for key `k`.
    pub key_index: Vec<u32>,
    pub key_regions: Vec<u32>,
}

/// Whether a region sounds on a key.
pub open spec fn covers(r: Region, key: int) -> bool {
    r.key_lo <= key <= r.key_hi
}

/// The regions among the first `n` of a preset that sound on a key, in order.
pub open spec fn covering(preset: Seq<u32>, regions: Seq<Region>, key: int, n: int) -> Seq<u32>
    decreases n,
{
    if n <= 0 {
        Seq::empty()
    } else {
        let before = covering(preset, regions, key, n - 1);
        if covers(regions[preset[n - 1] as int], key) {
            before.push(preset[n - 1])
        } else {
            before
        }
    }
}

/// Every region a preset names exists.
pub open spec fn names_regions(preset: Seq<u32>, regions: Seq<Region>) -> bool {
    forall|i: int| 0 <= i < preset.len() ==> (#[trigger] preset[i]) < regions.len()
}

proof fn lemma_covering_len(preset: Seq<u32>, regions: Seq<Region>, key: int, n: int)
    requires
        0 <= n <= preset.len(),
        names_regions(preset, regions),
    ensures
        covering(preset, regions, key, n).len() <= n,
        names_regions(covering(preset, regions, key, n), regions),
    decreases n,
{
    if n > 0 {
        lemma_covering_len(preset, regions, key, n - 1);
    }
}

impl Preset {
    /// The regions the index lists for one key.
    pub open spec fn on_key(&self, key: int) -> Seq<u32> {
        self.key_regions@.subrange(self.key_index@[key] as int, self.key_index@[key + 1] as int)
    }

    /// The key index has an entry per key and slices the region list.
    pub open spec fn indexed(&self) -> bool {
        &&& self.key_index@.len() == 129
        &&& forall|k: int|
            0 <= k < 128 ==> (#[trigger] self.key_index@[k]) <= self.key_index@[k + 1]
        &&& forall|k: int|
            0 <= k < 129 ==> (#[trigger] self.key_index@[k]) <= self.key_regions@.len()
    }

    /// Index the preset's regions by key.
    pub fn build_key_index(&mut self, regions: &Vec<Region>)
        requires
            names_regions(old(self).regions@, regions@),
            old(self).regions@.len() * 128 <= u32::MAX,
        ensures
            final(self).indexed(),
            final(self).bank == old(self).bank,
            final(self).program == old(self).program,
            final(self).name == old(self).name,
            final(self).regions == old(self).regions,
            names_regions(final(self).key_regions@, regions@),
            forall|k: int|
                0 <= k < 128 ==> #[trigger] final(self).on_key(k) == covering(
                    old(self).regions@,
                    regions@,
                    k,
                    old(self).regions@.len() as int,
                ),
    {
        let ghost list = self.regions@;
        let ghost n = list.len() as int;
        self.key_index = Vec::new();
        self.key_regions = Vec::new();
        let mut k: u8 = 0;
        while k < 128
            invariant
                k <= 128,
                list == self.regions@,
                n == list.len(),
                n * 128 <= u32::MAX,
                names_regions(list, regions@),
                self.bank == old(self).bank,
                self.program == old(self).program,
                self.name == old(self).name,
                self.regions == old(self).regions,
                self.key_index@.len() == k,
                self.key_regions@.len() <= k * n,
                names_regions(self.key_regions@, regions@),
                forall|j: int|
                    0 <= j < k ==> (#[trigger] self.key_index@[j]) <= self.key_regions@.len(),
                forall|j: int|
                    0 <= j < k - 1 ==> (#[trigger] self.key_index@[j]) <= self.key_index@[j + 1],
                forall|j: int|
                    0 <= j < k - 1 ==> self.key_regions@.subrange(
                        (#[trigger] self.key_index@[j]) as int,
                        self.key_index@[j + 1] as int,
                    ) == covering(list, regions@, j, n),
                k > 0 ==> self.key_regions@.skip(self.key_index@[k - 1] as int) == covering(
                    list,
                    regions@,
                    k - 1,
                    n,
                ),
            decreases 128 - k,
        {
            assert(k * n <= 128 * n && (k + 1) * n == k * n + n) by (nonlinear_arith)
                requires
                    0 <= k <= 128,
                    0 <= n,
            ;
            let ghost before = self.key_regions@;
            let ghost ix = self.key_index@;
            let start: u32 = self.key_regions.len() as u32;
            self.key_index.push(start);
            let mut i: usize = 0;
            while i < self.regions.len()
                invariant
                    i <= n,
                    list == self.regions@,
                    n == list.len(),
                    names_regions(list, regions@),
                    names_regions(before, regions@),
                    self.bank == old(self).bank,
                    self.program == old(self).program,
                    self.name == old(self).name,
                    self.regions == old(self).regions,
                    self.key_index@ == ix.push(start),
                    self.key_regions@ == before + covering(list, regions@, k as int, i as int),
                    covering(list, regions@, k as int, i as int).len() <= i,
                    names_regions(self.key_regions@, regions@),
                decreases n - i,
            {
                let r: u32 = self.regions[i];
                let reg = regions[r as usize];
                if reg.key_lo <= k && k <= reg.key_hi {
                    self.key_regions.push(r);
                }
                i += 1;
            }
            proof {
                let now = self.key_regions@;
                assert(now.skip(start as int) =~= covering(list, regions@, k as int, n));
                assert forall|j: int| 0 <= j < k implies now.subrange(
                    (#[trigger] self.key_index@[j]) as int,
                    self.key_index@[j + 1] as int,
                ) == covering(list, regions@, j, n) by {
                    if j < k - 1 {
                        assert(self.key_index@[j] == ix[j] && self.key_index@[j + 1] == ix[j + 1]);
                        assert(now.subrange(ix[j] as int, ix[j + 1] as int) =~= before.subrange(
                            ix[j] as int,
                            ix[j + 1] as int,
                        ));
                    } else {
                        assert(now.subrange(ix[j] as int, start as int) =~= before.skip(
                            ix[j] as int,
                        ));
                    }
                }
            }
            k += 1;
        }
        let ghost ix = self.key_index@;
        let end: u32 = self.key_regions.len() as u32;
        self.key_index.push(end);
        proof {
            assert forall|j: int| 0 <= j < 128 implies #[trigger] self.on_key(j) == covering(
                list,
                regions@,
                j,
                n,
            ) by {
                assert(self.key_index@[j] == ix[j]);
                if j < 127 {
                    assert(self.key_index@[j + 1] == ix[j + 1]);
                } else {
                    assert(self.key_regions@.subrange(ix[j] as int, end as int)
                        =~= self.key_regions@.skip(ix[j] as int));
                }
            }
            assert forall|j: int| 0 <= j < 128 implies (#[trigger] self.key_index@[j])
                <= self.key_index@[j + 1] by {
                assert(self.key_index@[j] == ix[j]);
            }
        }
    }
}

/// A preset in the bank's sorted index.
#[derive(Debug, Clone, Copy, PartialEq, Eq, Structural)]
pub struct IndexEntry {
    pub bank: u16,
    pub program: u16,
    pub preset: u32,
}

/// Order of the index: by bank, then program, then load order.
pub open spec fn before(a: IndexEntry, b: IndexEntry) -> bool {
    a.bank < b.bank || (a.bank == b.bank && (a.program < b.program || (a.program == b.program
        && a.preset < b.preset)))
}

/// The index lists every preset of a bank once, in order.
pub open spec fn indexes(index: Seq<IndexEntry>, presets: Seq<Preset>, n: int) -> bool {
    &&& index.len() == n
    &&& forall|i: int|
        0 <= i < n ==> {
            let e = #[trigger] index[i];
            &&& e.preset < n
            &&& e.bank == presets[e.preset as int].bank
            &&& e.program == presets[e.preset as int].program
        }
    &&& forall|i: int, j: int| 0 <= i < j < n ==> before(#[trigger] index[i], #[trigger] index[j])
    &&& forall|p: int| 0 <= p < n ==> #[trigger] lists(index, p)
}

/// Some entry of the index is for preset `p`.
pub open spec fn lists(index: Seq<IndexEntry>, p: int) -> bool {
    exists|i: int| 0 <= i < index.len() && (#[trigger] index[i]).preset == p
}

/// The first entry from `from` on that matches, by bank where `any_program`, and
/// by bank and program otherwise.
pub open spec fn first_match(
    index: Seq<IndexEntry>,
    bank: u16,
    program: u16,
    any_program: bool,
    from: int,
) -> Option<u32>
    decreases index.len() - from,
{
    if from < 0 || from >= index.len() {
        None
    } else if index[from].bank == bank && (any_program || index[from].program == program) {
        Some(index[from].preset)
    } else {
        first_match(index, bank, program, any_program, from + 1)
    }
}

/// The preset a (bank, program) pair resolves to.
pub open spec fn resolved(index: Seq<IndexEntry>, bank: u16, program: u16) -> Option<u32> {
    if first_match(index, bank, program, false, 0) is Some {
        first_match(index, bank, program, false, 0)
    } else if first_match(index, 0, program, false, 0) is Some {
        first_match(index, 0, program, false, 0)
    } else if bank == 128 && first_match(index, 128, 0, true, 0) is Some {
        first_match(index, 128, 0, true, 0)
    } else if index.len() > 0 {
        Some(index[0].preset)
    } else {
        None
    }
}

/// The pitch of one region at one key: the playback ratio in double precision,
/// and the same ratio as a 32.32 step.
#[derive(Debug, Clone, Copy, PartialEq, Eq, Structural)]
pub struct Pitch {
    pub ratio: u64,
    pub step: u64,
}

impl Pitch {
    /// Finite and above zero.
    pub open spec fn playable(self) -> bool {
        0 < self.ratio < F64_INF
    }
}

/// The opening gains of one region at one velocity, and the sum of their
/// magnitudes, all in single precision.
#[derive(Debug, Clone, Copy, PartialEq, Eq, Structural)]
pub struct Gain {
    pub l: u32,
    pub r: u32,
    pub loud: u32,
}

/// What floating-point arithmetic makes of one region: computed once by the
/// loader, per key and per velocity as far as each depends on it.
#[derive(Debug, Clone)]
pub struct RegionMath {
    /// One pitch per key.
    pub pitches: Vec<Pitch>,
    /// One pair of gains per velocity byte.
    pub gains: Vec<Gain>,
    /// The address offsets in pool frames.
    pub start: i64,
    pub end: i64,
    pub loop_start: i64,
    pub loop_end: i64,
    /// Frames to wait before the voice starts.
    pub delay_frames: u32,
}

impl RegionMath {
    pub open spec fn wf(&self) -> bool {
        self.pitches@.len() == 128 && self.gains@.len() == 256
    }
}

/// Everything the device needs to start one voice.
#[derive(Debug, Clone, Copy, PartialEq, Eq, Structural)]
pub struct VoiceSpawn {
    pub phase: Fixed,
    pub step: Fixed,
    pub smp_base: u32,
    pub smp_len: u32,
    pub loop_start: u32,
    pub loop_end: u32,
    pub flags: u32,
    pub params: u32,
    pub region: u32,
    pub gain_l: u32,
    pub gain_r: u32,
    /// The sum of the gains' magnitudes.
    pub loud: u32,
    /// Frames to wait before the voice starts.
    pub delay_frames: u32,
    pub exclusive_class: u8,
}

/// One layer a note-on would produce, as far as admission needs to know it.
#[derive(Debug, Clone, Copy, PartialEq, Eq, Structural)]
pub struct PreviewLayer {
    pub region: u32,
    pub gain_l: u32,
    pub gain_r: u32,
    /// The sum of the gains' magnitudes.
    pub loud: u32,
    pub delay_frames: u32,
}

/// One entry of the params table: which region, key and velocity it is for.
#[derive(Debug, Clone, Copy, PartialEq, Eq, Structural)]
pub struct ParamEntry {
    pub region: u32,
    pub key: u8,
    pub vel: u8,
}

pub open spec fn clamped(x: int, lo: int, hi: int) -> int {
    if x < lo {
        lo
    } else if x > hi {
        hi
    } else {
        x
    }
}

fn clamp_sum(a: u32, b: i64, lo: u32, hi: u32) -> (r: u32)
    requires
        lo <= hi,
    ensures
        r == clamped(a + b, lo as int, hi as int),
{
    let x: i128 = a as i128 + b as i128;
    if x < lo as i128 {
        lo
    } else if x > hi as i128 {
        hi
    } else {
        x as u32
    }
}

/// The key a region plays for a struck key.
pub open spec fn effective_key(r: Region, key: u8) -> u8 {
    if r.fixed_key >= 0 {
        (r.fixed_key as int % 256) as u8
    } else {
        key
    }
}

/// Where in its params block a region looks for a key and velocity.
pub open spec fn params_offset(r: Region, key: u8, vel: u8) -> int {
    let keys: int = if r.params_stride != 0 {
        128
    } else {
        1
    };
    let ki: int = if r.params_stride != 0 {
        effective_key(r, key) as int
    } else {
        0
    };
    let vi: int = if r.params_vel_span > 1 {
        clamped(
            vel - r.vel_lo,
            0,
            r.params_vel_span - 1,
        )
    } else {
        0
    };
    vi * keys + ki
}

/// The voice flags of a region whose loop, after its offsets, runs from
/// `loop_start` to `loop_end`. A loop of fewer than two frames is not a loop.
pub open spec fn loop_flags(mode: LoopMode, loop_start: int, loop_end: int) -> u32 {
    if mode != LoopMode::NoLoop && loop_end <= loop_start + 1 {
        0
    } else {
        mode.flag_bits()
    }
}

/// The voice flags of a region: those of its loop, or, for a one-shot region, that
/// it ignores the note-off and does not loop.
pub open spec fn voice_flags(r: Region, loop_start: int, loop_end: int) -> u32 {
    if r.one_shot {
        VF_ONE_SHOT
    } else {
        loop_flags(r.loop_mode, loop_start, loop_end)
    }
}

fn flags_of(r: &Region, loop_start: u32, loop_end: u32) -> (flags: u32)
    ensures
        flags == voice_flags(*r, loop_start as int, loop_end as int),
{
    if r.one_shot {
        VF_ONE_SHOT
    } else if r.loop_mode != LoopMode::NoLoop && loop_end as u64 <= loop_start as u64 + 1 {
        0
    } else {
        r.loop_mode.flags()
    }
}

fn offset_in_block(r: &Region, key: u8, vel: u8) -> (offset: u32)
    ensures
        offset == params_offset(*r, key, vel),
{
    let eff_key: u8 = if r.fixed_key >= 0 {
        (r.fixed_key % 256) as u8
    } else {
        key
    };
    let keys: u32 = if r.params_stride != 0 {
        128
    } else {
        1
    };
    let ki: u32 = if r.params_stride != 0 {
        eff_key as u32
    } else {
        0
    };
    let vi: u32 = if r.params_vel_span > 1 {
        let d: u32 = if vel < r.vel_lo {
            0
        } else {
            (vel - r.vel_lo) as u32
        };
        if d < r.params_vel_span - 1 {
            d
        } else {
            r.params_vel_span - 1
        }
    } else {
        0
    };
    assert(vi <= 255);
    assert(0 <= vi * keys <= 255 * 128) by (nonlinear_arith)
        requires
            0 <= vi <= 255,
            0 <= keys <= 128,
    ;
    vi * keys + ki
}

/// The voice one region starts, given its sample and its precomputed
/// arithmetic.
pub open spec fn voice_from(
    r: Region,
    index: u32,
    s: SampleInfo,
    m: RegionMath,
    key: u8,
    vel: u8,
) -> VoiceSpawn {
    let smp_len = clamped(s.len + m.end, 1, s.len as int);
    let loop_start = clamped(s.loop_start + m.loop_start, 0, smp_len - 1);
    let loop_end = clamped(s.loop_end + m.loop_end, 0, smp_len);
    VoiceSpawn {
        phase: Fixed((clamped(m.start as int, 0, s.len - 1) * FIXED_ONE) as u64),
        step: Fixed(m.pitches@[key as int].step),
        smp_base: s.start,
        smp_len: smp_len as u32,
        loop_start: loop_start as u32,
        loop_end: loop_end as u32,
        flags: voice_flags(r, loop_start, loop_end),
        params: ((r.params_base + params_offset(r, key, vel)) % 0x1_0000_0000) as u32,
        region: index,
        gain_l: m.gains@[vel as int].l,
        gain_r: m.gains@[vel as int].r,
        loud: m.gains@[vel as int].loud,
        delay_frames: m.delay_frames,
        exclusive_class: r.exclusive_class,
    }
}

/// Entries a region's params block has along velocity.
pub open spec fn vel_span(r: Region) -> int {
    if mag32(r.filter_veltrack_cents) != 0 {
        if r.vel_hi < r.vel_lo {
            1
        } else if r.vel_hi - r.vel_lo + 1 < 128 {
            r.vel_hi - r.vel_lo + 1
        } else {
            128
        }
    } else {
        1
    }
}

/// Whether a region's envelope depends on the key.
pub open spec fn per_key(r: Region) -> bool {
    r.keynum_to_decay != 0 || r.keynum_to_hold != 0
}

/// Entries in a region's params block.
pub open spec fn block_len(r: Region) -> int {
    vel_span(r) * (if per_key(r) {
        128int
    } else {
        1int
    })
}

/// Where the params block of region `i` starts: after those of the regions
/// before it.
pub open spec fn base_of(regions: Seq<Region>, i: int) -> int
    decreases i,
{
    if i <= 0 {
        0
    } else {
        base_of(regions, i - 1) + block_len(regions[i - 1])
    }
}

/// A region with its place in the params table filled in.
pub open spec fn laid_out(r: Region, base: int) -> Region {
    Region {
        params_base: base as u32,
        params_stride: if per_key(r) {
            1
        } else {
            0
        },
        params_vel_span: vel_span(r) as u32,
        ..r
    }
}

/// The entry at offset `o` of a region's block.
pub open spec fn entry_at(r: Region, index: int, o: int) -> ParamEntry {
    let keys: int = if r.params_stride != 0 {
        128
    } else {
        1
    };
    ParamEntry {
        region: index as u32,
        key: if r.params_stride != 0 {
            (o % keys) as u8
        } else {
            60
        },
        vel: (if r.vel_lo + o / keys < 127 {
            r.vel_lo + o / keys
        } else {
            127
        }) as u8,
    }
}

/// The block of region `i` in a plan of the params table.
pub open spec fn planned(plan: Seq<ParamEntry>, regions: Seq<Region>, i: int) -> bool {
    forall|o: int|
        0 <= o < block_len(regions[i]) ==> plan[base_of(regions, i) + o] == #[trigger] entry_at(
            regions[i],
            i,
            o,
        )
}

/// Every region's block is in the params table, one after another.
pub open spec fn params_laid_out(regions: Seq<Region>) -> bool {
    &&& base_of(regions, regions.len() as int) <= u32::MAX
    &&& forall|i: int| 0 <= i < regions.len() ==> #[trigger] placed(regions, i)
}

/// Region `i` knows its place in the params table.
pub open spec fn placed(regions: Seq<Region>, i: int) -> bool {
    regions[i] == laid_out(regions[i], base_of(regions, i))
}

/// Everything the renderer needs from a soundfont.
pub struct Bank {
    pub pool: Vec<i16>,
    /// Rate every pool sample is stored at, or 0 when the pool is mixed-rate.
    pub pool_rate: u32,
    pub samples: Vec<SampleInfo>,
    pub regions: Vec<Region>,
    pub params: Vec<RegionParams>,
    pub presets: Vec<Preset>,
    /// Presets sorted by (bank, program).
    pub index: Vec<IndexEntry>,
    pub name: String,
    /// Per region, what floating-point arithmetic makes of it.
    pub math: Vec<RegionMath>,
    /// Per region and key, whether a voice can be built.
    pub key_ok: Vec<bool>,
}

impl Bank {
    /// The presets are indexed by key and name only regions that exist.
    pub open spec fn presets_ready(&self) -> bool {
        forall|p: int|
            0 <= p < self.presets@.len() ==> {
                &&& (#[trigger] self.presets@[p]).indexed()
                &&& names_regions(self.presets@[p].key_regions@, self.regions@)
            }
    }

    /// The precomputed arithmetic covers every region.
    pub open spec fn math_ready(&self) -> bool {
        &&& self.math@.len() == self.regions@.len()
        &&& forall|i: int| 0 <= i < self.math@.len() ==> (#[trigger] self.math@[i]).wf()
    }

    /// The admission tables agree with what can be built.
    pub open spec fn tables_ready(&self) -> bool {
        &&& self.math_ready()
        &&& self.key_ok@.len() == self.regions@.len() * 128
        &&& forall|r: int, k: int|
            0 <= r < self.regions@.len() && 0 <= k < 128 ==> #[trigger] self.key_ok@[r * 128 + k]
                == self.buildable(r, k)
    }

    /// Whether region `r` gives a voice on key `k`: its sample exists and is not
    /// empty, and its pitch is finite and positive. The velocity has no part in
    /// it.
    pub open spec fn buildable(&self, r: int, k: int) -> bool {
        &&& self.regions@[r].sample < self.samples@.len()
        &&& self.samples@[self.regions@[r].sample as int].len != 0
        &&& self.math@[r].pitches@[k].playable()
    }

    /// The voice region `r` gives on a key and velocity, if any.
    pub open spec fn voice_of(&self, r: int, key: u8, vel: u8) -> Option<VoiceSpawn> {
        if self.buildable(r, key as int) {
            Some(
                voice_from(
                    self.regions@[r],
                    r as u32,
                    self.samples@[self.regions@[r].sample as int],
                    self.math@[r],
                    key,
                    vel,
                ),
            )
        } else {
            None
        }
    }

    /// What admission is told of region `r` at a velocity.
    pub open spec fn preview_of(&self, r: int, vel: u8) -> PreviewLayer {
        PreviewLayer {
            region: r as u32,
            gain_l: self.math@[r].gains@[vel as int].l,
            gain_r: self.math@[r].gains@[vel as int].r,
            loud: self.math@[r].gains@[vel as int].loud,
            delay_frames: self.math@[r].delay_frames,
        }
    }

    /// Whether region `r` answers a note.
    pub open spec fn answers(&self, r: int, key: u8, vel: u8) -> bool {
        self.regions@[r].vel_lo <= vel <= self.regions@[r].vel_hi && self.buildable(r, key as int)
    }

    /// The first `max` regions among the first `n` of a list that answer a note.
    pub open spec fn answering(&self, list: Seq<u32>, key: u8, vel: u8, max: int, n: int) -> Seq<u32>
        decreases n,
    {
        if n <= 0 {
            Seq::empty()
        } else {
            let got = self.answering(list, key, vel, max, n - 1);
            if got.len() < max && self.answers(list[n - 1] as int, key, vel) {
                got.push(list[n - 1])
            } else {
                got
            }
        }
    }

    /// A key byte as the key it plays.
    pub open spec fn key_of(key: u8) -> u8 {
        if key < 127 {
            key
        } else {
            127
        }
    }

    /// The regions that sound for a note, in order.
    pub open spec fn layers(&self, preset: u32, key: u8, vel: u8, max: int) -> Seq<u32> {
        if preset < self.presets@.len() {
            let list = self.presets@[preset as int].on_key(Bank::key_of(key) as int);
            self.answering(list, Bank::key_of(key), vel, max, list.len() as int)
        } else {
            Seq::empty()
        }
    }

    /// Index the presets by key and by (bank, program). Call once after all
    /// regions exist.
    pub fn finish(&mut self)
        requires
            old(self).presets@.len() <= u32::MAX,
            forall|p: int|
                0 <= p < old(self).presets@.len() ==> {
                    &&& names_regions(
                        (#[trigger] old(self).presets@[p]).regions@,
                        old(self).regions@,
                    )
                    &&& old(self).presets@[p].regions@.len() * 128 <= u32::MAX
                },
        ensures
            final(self).presets_ready(),
            indexes(
                final(self).index@,
                final(self).presets@,
                final(self).presets@.len() as int,
            ),
            final(self).presets@.len() == old(self).presets@.len(),
            final(self).regions == old(self).regions,
            final(self).samples == old(self).samples,
            final(self).math == old(self).math,
            final(self).key_ok == old(self).key_ok,
            final(self).params == old(self).params,
            final(self).pool == old(self).pool,
            final(self).pool_rate == old(self).pool_rate,
            final(self).name == old(self).name,
            forall|p: int|
                0 <= p < old(self).presets@.len() ==> {
                    let a = #[trigger] final(self).presets@[p];
                    let b = old(self).presets@[p];
                    &&& a.bank == b.bank
                    &&& a.program == b.program
                    &&& a.name == b.name
                    &&& a.regions == b.regions
                    &&& forall|k: int|
                        0 <= k < 128 ==> #[trigger] a.on_key(k) == covering(
                            b.regions@,
                            old(self).regions@,
                            k,
                            b.regions@.len() as int,
                        )
                },
    {
        let n: usize = self.presets.len();
        let ghost p0 = self.presets@;
        let mut built: Vec<Preset> = Vec::new();
        let mut index: Vec<IndexEntry> = Vec::new();
        let mut presets: Vec<Preset> = Vec::new();
        std::mem::swap(&mut presets, &mut self.presets);
        let mut i: usize = 0;
        while i < n
            invariant
                i <= n == p0.len(),
                n <= u32::MAX,
                presets@ == p0.skip(i as int),
                built@.len() == i,
                self.regions == old(self).regions,
                self.samples == old(self).samples,
                self.math == old(self).math,
                self.key_ok == old(self).key_ok,
                self.params == old(self).params,
                self.pool == old(self).pool,
                self.pool_rate == old(self).pool_rate,
                self.name == old(self).name,
                forall|p: int|
                    0 <= p < n ==> {
                        &&& names_regions((#[trigger] p0[p]).regions@, self.regions@)
                        &&& p0[p].regions@.len() * 128 <= u32::MAX
                    },
                forall|p: int|
                    0 <= p < i ==> {
                        let a = #[trigger] built@[p];
                        let b = p0[p];
                        &&& a.indexed()
                        &&& names_regions(a.key_regions@, self.regions@)
                        &&& a.bank == b.bank
                        &&& a.program == b.program
                        &&& a.name == b.name
                        &&& a.regions == b.regions
                        &&& forall|k: int|
                            0 <= k < 128 ==> #[trigger] a.on_key(k) == covering(
                                b.regions@,
                                self.regions@,
                                k,
                                b.regions@.len() as int,
                            )
                    },
                indexes(index@, built@, i as int),
            decreases n - i,
        {
            let mut p = presets.remove(0);
            assert(p == p0[i as int]);
            assert(presets@ =~= p0.skip(i + 1));
            p.build_key_index(&self.regions);
            let e = IndexEntry { bank: p.bank, program: p.program, preset: i as u32 };
            let ghost b0 = built@;
            built.push(p);
            assert(built@.drop_last() =~= b0);
            insert_entry(&mut index, e, Ghost(b0), Ghost(built@));
            i += 1;
        }
        self.presets = built;
        self.index = index;
    }

    /// Resolve a (bank, program) pair, falling back the way hardware does: same
    /// program in bank 0, then for a drum bank its first preset, then anything
    /// at all.
    pub fn find_preset(&self, bank: u16, program: u16) -> (r: Option<u32>)
        ensures
            r == resolved(self.index@, bank, program),
    {
        if let Some(p) = self.first(bank, program, false) {
            return Some(p);
        }
        if let Some(p) = self.first(0, program, false) {
            return Some(p);
        }
        if bank == 128 {
            if let Some(p) = self.first(128, 0, true) {
                return Some(p);
            }
        }
        if self.index.len() > 0 {
            Some(self.index[0].preset)
        } else {
            None
        }
    }

    fn first(&self, bank: u16, program: u16, any_program: bool) -> (r: Option<u32>)
        ensures
            r == first_match(self.index@, bank, program, any_program, 0),
    {
        let mut i: usize = 0;
        while i < self.index.len()
            invariant
                i <= self.index@.len(),
                first_match(self.index@, bank, program, any_program, 0) == first_match(
                    self.index@,
                    bank,
                    program,
                    any_program,
                    i as int,
                ),
            decreases self.index@.len() - i,
        {
            let e = self.index[i];
            if e.bank == bank && (any_program || e.program == program) {
                return Some(e.preset);
            }
            i += 1;
        }
        None
    }

    fn build_voice(&self, region: u32, key: u8, vel: u8) -> (r: Option<VoiceSpawn>)
        requires
            self.math_ready(),
            region < self.regions@.len(),
            key < 128,
        ensures
            r == self.voice_of(region as int, key, vel),
    {
        let r = self.regions[region as usize];
        if r.sample as usize >= self.samples.len() {
            return None;
        }
        let s = &self.samples[r.sample as usize];
        if s.len == 0 {
            return None;
        }
        let m = &self.math[region as usize];
        assert(self.math@[region as int].wf());
        let pitch = m.pitches[key as usize];
        if pitch.ratio == 0 || pitch.ratio >= F64_INF {
            return None;
        }
        let gain = m.gains[vel as usize];
        let start: u32 = clamp_sum(0, m.start, 0, s.len - 1);
        let smp_len: u32 = clamp_sum(s.len, m.end, 1, s.len);
        let loop_start: u32 = clamp_sum(s.loop_start, m.loop_start, 0, smp_len - 1);
        let loop_end: u32 = clamp_sum(s.loop_end, m.loop_end, 0, smp_len);

        let params: u32 = r.params_base.wrapping_add(offset_in_block(&r, key, vel));
        let flags: u32 = flags_of(&r, loop_start, loop_end);
        Some(
            VoiceSpawn {
                phase: Fixed::from_int(start),
                step: Fixed(pitch.step),
                smp_base: s.start,
                smp_len,
                loop_start,
                loop_end,
                flags,
                params,
                region,
                gain_l: gain.l,
                gain_r: gain.r,
                loud: gain.loud,
                delay_frames: m.delay_frames,
                exclusive_class: r.exclusive_class,
            },
        )
    }

    /// Build the voices for one note-on, in layer order, at the end of `out`.
    pub fn note_on(
        &self,
        preset: u32,
        key: u8,
        vel: u8,
        max_layers: usize,
        out: &mut Vec<VoiceSpawn>,
    )
        requires
            self.presets_ready(),
            self.math_ready(),
        ensures
            final(out)@ == old(out)@ + self.layers(preset, key, vel, max_layers as int).map_values(
                |r: u32| self.voice_of(r as int, Bank::key_of(key), vel)->Some_0,
            ),
    {
        let ghost f = |r: u32| self.voice_of(r as int, Bank::key_of(key), vel)->Some_0;
        if preset as usize >= self.presets.len() {
            assert(out@ =~= old(out)@ + self.layers(preset, key, vel, max_layers as int).map_values(
                f,
            ));
            return;
        }
        let p = &self.presets[preset as usize];
        assert(self.presets@[preset as int].indexed());
        let k: u8 = if key < 127 {
            key
        } else {
            127
        };
        let lo: usize = p.key_index[k as usize] as usize;
        let hi: usize = p.key_index[k as usize + 1] as usize;
        let ghost list = p.on_key(k as int);
        assert(p.key_index@[k as int] <= p.key_index@[k + 1]);
        let mut layers: usize = 0;
        let mut i: usize = lo;
        while i < hi
            invariant
                lo <= i <= hi,
                hi <= p.key_regions@.len(),
                p.key_index@.len() == 129,
                k < 128,
                k == Bank::key_of(key),
                lo == p.key_index@[k as int],
                hi == p.key_index@[k + 1],
                list == p.key_regions@.subrange(lo as int, hi as int),
                self.math_ready(),
                names_regions(p.key_regions@, self.regions@),
                layers == self.answering(list, k, vel, max_layers as int, i - lo).len(),
                layers <= max_layers,
                f == (|r: u32| self.voice_of(r as int, Bank::key_of(key), vel)->Some_0),
                out@ == old(out)@ + self.answering(
                    list,
                    k,
                    vel,
                    max_layers as int,
                    i - lo,
                ).map_values(f),
            decreases hi - i,
        {
            let ri: u32 = p.key_regions[i];
            assert(list[i - lo] == ri);
            let ghost got = self.answering(list, k, vel, max_layers as int, i - lo);
            let r = self.regions[ri as usize];
            if layers < max_layers && r.vel_lo <= vel && vel <= r.vel_hi {
                if let Some(v) = self.build_voice(ri, k, vel) {
                    out.push(v);
                    layers += 1;
                    assert(got.push(ri).map_values(f) =~= got.map_values(f).push(v));
                }
            }
            i += 1;
        }
    }

    /// Build the one layer `preview_note_on` named, by its region index.
    pub fn build_layer(&self, region: u32, key: u8, vel: u8) -> (r: Option<VoiceSpawn>)
        requires
            self.math_ready(),
        ensures
            r == if region < self.regions@.len() {
                self.voice_of(region as int, Bank::key_of(key), vel)
            } else {
                None
            },
    {
        if region as usize >= self.regions.len() {
            return None;
        }
        let k: u8 = if key < 127 {
            key
        } else {
            127
        };
        self.build_voice(region, k, vel)
    }

    /// The layers `note_on` would produce, and each one's opening gain, without
    /// building any of them. A velocity past 127 is one no region answers to.
    pub fn preview_note_on(
        &self,
        preset: u32,
        key: u8,
        vel: u8,
        max_layers: usize,
        out: &mut Vec<PreviewLayer>,
    )
        requires
            self.presets_ready(),
            self.tables_ready(),
            vel < 128 || forall|r: int|
                0 <= r < self.regions@.len() ==> (#[trigger] self.regions@[r]).vel_hi < 128,
        ensures
            final(out)@ == old(out)@ + self.layers(preset, key, vel, max_layers as int).map_values(
                |r: u32| self.preview_of(r as int, vel),
            ),
    {
        let ghost f = |r: u32| self.preview_of(r as int, vel);
        if preset as usize >= self.presets.len() {
            assert(out@ =~= old(out)@ + self.layers(preset, key, vel, max_layers as int).map_values(
                f,
            ));
            return;
        }
        let p = &self.presets[preset as usize];
        assert(self.presets@[preset as int].indexed());
        let k: u8 = if key < 127 {
            key
        } else {
            127
        };
        let lo: usize = p.key_index[k as usize] as usize;
        let hi: usize = p.key_index[k as usize + 1] as usize;
        let ghost list = p.on_key(k as int);
        assert(p.key_index@[k as int] <= p.key_index@[k + 1]);
        let mut layers: usize = 0;
        let mut i: usize = lo;
        while i < hi
            invariant
                lo <= i <= hi,
                hi <= p.key_regions@.len(),
                p.key_index@.len() == 129,
                k < 128,
                lo == p.key_index@[k as int],
                hi == p.key_index@[k + 1],
                list == p.key_regions@.subrange(lo as int, hi as int),
                self.tables_ready(),
                names_regions(p.key_regions@, self.regions@),
                layers == self.answering(list, k, vel, max_layers as int, i - lo).len(),
                layers <= max_layers,
                f == (|r: u32| self.preview_of(r as int, vel)),
                out@ == old(out)@ + self.answering(
                    list,
                    k,
                    vel,
                    max_layers as int,
                    i - lo,
                ).map_values(f),
            decreases hi - i,
        {
            let ri: u32 = p.key_regions[i];
            assert(list[i - lo] == ri);
            let ghost got = self.answering(list, k, vel, max_layers as int, i - lo);
            let r = self.regions[ri as usize];
            if layers < max_layers && r.vel_lo <= vel && vel <= r.vel_hi && self.region_key_ok(
                ri,
                k,
            ) {
                let m = &self.math[ri as usize];
                assert(self.math@[ri as int].wf());
                let g = m.gains[vel as usize];
                let v = PreviewLayer {
                    region: ri,
                    gain_l: g.l,
                    gain_r: g.r,
                    loud: g.loud,
                    delay_frames: m.delay_frames,
                };
                out.push(v);
                layers += 1;
                assert(got.push(ri).map_values(f) =~= got.map_values(f).push(v));
            }
            i += 1;
        }
    }

    fn region_key_ok(&self, region: u32, key: u8) -> (r: bool)
        requires
            self.tables_ready(),
            region < self.regions@.len(),
            key < 128,
        ensures
            r == self.buildable(region as int, key as int),
    {
        assert(region * 128 + key < self.regions@.len() * 128) by (nonlinear_arith)
            requires
                region + 1 <= self.regions@.len(),
                key < 128,
        ;
        assert(self.key_ok.len() == self.regions@.len() * 128);
        self.key_ok[region as usize * 128 + key as usize]
    }

    /// Take the precomputed arithmetic and note for every region and key whether
    /// a voice can be built.
    pub fn build_admission_tables(&mut self, math: Vec<RegionMath>)
        requires
            math@.len() == old(self).regions@.len(),
            forall|i: int| 0 <= i < math@.len() ==> (#[trigger] math@[i]).wf(),
            math@.len() * 128 <= usize::MAX,
        ensures
            final(self).tables_ready(),
            final(self).math == math,
            final(self).regions == old(self).regions,
            final(self).samples == old(self).samples,
            final(self).presets == old(self).presets,
            final(self).index == old(self).index,
            final(self).params == old(self).params,
            final(self).pool == old(self).pool,
            final(self).pool_rate == old(self).pool_rate,
            final(self).name == old(self).name,
    {
        self.math = math;
        let n: usize = self.regions.len();
        let mut ok: Vec<bool> = Vec::new();
        let mut r: usize = 0;
        while r < n
            invariant
                r <= n,
                n == self.regions@.len(),
                self.math_ready(),
                ok@.len() == r * 128,
                forall|a: int, k: int|
                    0 <= a < r && 0 <= k < 128 ==> #[trigger] ok@[a * 128 + k] == self.buildable(
                        a,
                        k,
                    ),
            decreases n - r,
        {
            let reg = self.regions[r];
            let has_sample = (reg.sample as usize) < self.samples.len() && self.samples[
            reg.sample as usize].len != 0;
            let m = &self.math[r];
            assert(self.math@[r as int].wf());
            let ghost done = ok@;
            let mut k: usize = 0;
            while k < 128
                invariant
                    k <= 128,
                    m == &self.math@[r as int],
                    m.wf(),
                    reg == self.regions@[r as int],
                    has_sample == (reg.sample < self.samples@.len()
                        && self.samples@[reg.sample as int].len != 0),
                    done.len() == r * 128,
                    ok@.len() == r * 128 + k,
                    forall|j: int| 0 <= j < done.len() ==> #[trigger] ok@[j] == done[j],
                    forall|j: int|
                        0 <= j < k ==> #[trigger] ok@[r * 128 + j] == self.buildable(r as int, j),
                decreases 128 - k,
            {
                let p = m.pitches[k];
                ok.push(has_sample && p.ratio != 0 && p.ratio < F64_INF);
                k += 1;
            }
            r += 1;
            proof {
                assert forall|a: int, j: int| 0 <= a < r && 0 <= j < 128 implies #[trigger] ok@[a
                    * 128 + j] == self.buildable(a, j) by {
                    if a < r - 1 {
                        assert(ok@[a * 128 + j] == done[a * 128 + j]);
                    }
                }
            }
        }
        self.key_ok = ok;
    }

    /// Lay the params table out: where each region's block starts, and how far
    /// it runs along key and velocity. Every variant of the table repeats this
    /// layout. Returns the number of entries.
    pub fn build_params(&mut self) -> (n: u32)
        requires
            base_of(old(self).regions@, old(self).regions@.len() as int) <= u32::MAX,
        ensures
            n == base_of(old(self).regions@, old(self).regions@.len() as int),
            final(self).regions@.len() == old(self).regions@.len(),
            forall|i: int|
                0 <= i < old(self).regions@.len() ==> #[trigger] final(self).regions@[i]
                    == laid_out(old(self).regions@[i], base_of(old(self).regions@, i)),
            params_laid_out(final(self).regions@),
            base_of(final(self).regions@, final(self).regions@.len() as int) == n,
            final(self).samples == old(self).samples,
            final(self).presets == old(self).presets,
            final(self).index == old(self).index,
            final(self).params == old(self).params,
            final(self).pool == old(self).pool,
            final(self).pool_rate == old(self).pool_rate,
            final(self).name == old(self).name,
            final(self).math == old(self).math,
            final(self).key_ok == old(self).key_ok,
    {
        let ghost r0 = self.regions@;
        let count: usize = self.regions.len();
        let mut n: u32 = 0;
        let mut i: usize = 0;
        while i < count
            invariant
                i <= count == r0.len(),
                self.regions@.len() == count,
                n == base_of(r0, i as int),
                base_of(r0, count as int) <= u32::MAX,
                forall|j: int|
                    0 <= j < i ==> #[trigger] self.regions@[j] == laid_out(r0[j], base_of(r0, j)),
                forall|j: int| i <= j < count ==> #[trigger] self.regions@[j] == r0[j],
                self.samples == old(self).samples,
                self.presets == old(self).presets,
                self.index == old(self).index,
                self.params == old(self).params,
                self.pool == old(self).pool,
                self.pool_rate == old(self).pool_rate,
                self.name == old(self).name,
                self.math == old(self).math,
                self.key_ok == old(self).key_ok,
            decreases count - i,
        {
            let mut r = self.regions[i];
            let keyed = r.keynum_to_decay != 0 || r.keynum_to_hold != 0;
            let span: u32 = if magnitude32(r.filter_veltrack_cents) != 0 {
                if r.vel_hi < r.vel_lo {
                    1
                } else {
                    let d: u32 = (r.vel_hi - r.vel_lo) as u32 + 1;
                    if d < 128 {
                        d
                    } else {
                        128
                    }
                }
            } else {
                1
            };
            proof {
                lemma_base_monotone(r0, i + 1, count as int);
            }
            let len: u32 = if keyed {
                span * 128
            } else {
                span
            };
            r.params_base = n;
            r.params_stride = if keyed {
                1
            } else {
                0
            };
            r.params_vel_span = span;
            n = n + len;
            self.regions[i] = r;
            i += 1;
        }
        proof {
            lemma_base_agrees(r0, self.regions@, count as int);
            assert forall|j: int| 0 <= j < count implies #[trigger] placed(self.regions@, j) by {
                lemma_base_agrees(r0, self.regions@, j);
                lemma_base_monotone(r0, j, count as int);
            }
        }
        n
    }

    /// Every entry of the params table in order, for whoever computes them.
    pub fn plan_params(&self) -> (plan: Vec<ParamEntry>)
        requires
            params_laid_out(self.regions@),
            self.regions@.len() <= u32::MAX,
        ensures
            plan@.len() == base_of(self.regions@, self.regions@.len() as int),
            forall|i: int|
                0 <= i < self.regions@.len() ==> #[trigger] planned(plan@, self.regions@, i),
    {
        let ghost rs = self.regions@;
        let mut plan: Vec<ParamEntry> = Vec::new();
        let n: usize = self.regions.len();
        let mut i: usize = 0;
        while i < n
            invariant
                i <= n == rs.len(),
                n <= u32::MAX,
                rs == self.regions@,
                params_laid_out(rs),
                plan@.len() == base_of(rs, i as int),
                forall|a: int| 0 <= a < i ==> #[trigger] planned(plan@, rs, a),
            decreases n - i,
        {
            let r = self.regions[i];
            let ghost done = plan@;
            assert(placed(rs, i as int));
            plan_region(&mut plan, r, i as u32);
            i += 1;
            proof {
                assert forall|a: int| 0 <= a < i implies #[trigger] planned(plan@, rs, a) by {
                    if a < i - 1 {
                        assert(planned(done, rs, a));
                        lemma_base_monotone(rs, a + 1, i - 1);
                        lemma_base_monotone(rs, 0, a);
                        assert forall|o: int| 0 <= o < block_len(rs[a]) implies plan@[base_of(
                            rs,
                            a,
                        ) + o] == #[trigger] entry_at(rs[a], a, o) by {
                            assert(plan@[base_of(rs, a) + o] == done[base_of(rs, a) + o]);
                        }
                    } else {
                        assert forall|o: int| 0 <= o < block_len(rs[a]) implies plan@[base_of(
                            rs,
                            a,
                        ) + o] == #[trigger] entry_at(rs[a], a, o) by {
                            assert(plan@[done.len() + o] == entry_at(rs[a], a, o));
                        }
                    }
                }
            }
        }
        plan
    }

    /// Bytes of the sample pool.
    pub fn pool_bytes(&self) -> (r: u64)
        requires
            self.pool@.len() * 2 <= u64::MAX,
        ensures
            r == self.pool@.len() * 2,
    {
        self.pool.len() as u64 * 2
    }
}

/// The entries of one region's block, velocity-major.
fn plan_region(plan: &mut Vec<ParamEntry>, r: Region, index: u32)
    requires
        r == laid_out(r, r.params_base as int),
    ensures
        final(plan)@.len() == old(plan)@.len() + block_len(r),
        forall|j: int|
            0 <= j < old(plan)@.len() ==> #[trigger] final(plan)@[j] == old(plan)@[j],
        forall|o: int|
            0 <= o < block_len(r) ==> #[trigger] final(plan)@[old(plan)@.len() + o] == entry_at(
                r,
                index as int,
                o,
            ),
{
    let ghost done = plan@;
    let keys: u32 = if r.params_stride != 0 {
        128
    } else {
        1
    };
    let mut v: u32 = 0;
    while v < r.params_vel_span
        invariant
            v <= r.params_vel_span <= 128,
            keys == (if r.params_stride != 0 {
                128u32
            } else {
                1u32
            }),
            plan@.len() == done.len() + v * keys,
            forall|j: int| 0 <= j < done.len() ==> #[trigger] plan@[j] == done[j],
            forall|o: int|
                0 <= o < v * keys ==> #[trigger] plan@[done.len() + o] == entry_at(
                    r,
                    index as int,
                    o,
                ),
        decreases r.params_vel_span - v,
    {
        let vel: u8 = if r.vel_lo as u32 + v < 127 {
            (r.vel_lo as u32 + v) as u8
        } else {
            127
        };
        let ghost row = plan@;
        let mut k: u32 = 0;
        while k < keys
            invariant
                k <= keys <= 128,
                v < 128,
                keys == (if r.params_stride != 0 {
                    128u32
                } else {
                    1u32
                }),
                vel == (if r.vel_lo + v < 127 {
                    r.vel_lo + v
                } else {
                    127
                }),
                plan@.len() == row.len() + k,
                forall|j: int| 0 <= j < row.len() ==> #[trigger] plan@[j] == row[j],
                forall|j: int|
                    0 <= j < k ==> #[trigger] plan@[row.len() + j] == entry_at(
                        r,
                        index as int,
                        v * keys + j,
                    ),
            decreases keys - k,
        {
            proof {
                vstd::arithmetic::div_mod::lemma_fundamental_div_mod_converse(
                    v * keys + k,
                    keys as int,
                    v as int,
                    k as int,
                );
            }
            plan.push(
                ParamEntry {
                    region: index,
                    key: if r.params_stride != 0 {
                        k as u8
                    } else {
                        60
                    },
                    vel,
                },
            );
            k += 1;
        }
        proof {
            assert((v + 1) * keys == v * keys + keys) by (nonlinear_arith);
            assert forall|o: int| 0 <= o < (v + 1) * keys implies #[trigger] plan@[done.len() + o]
                == entry_at(r, index as int, o) by {
                if o < v * keys {
                    assert(plan@[done.len() + o] == row[done.len() + o]);
                } else {
                    assert(plan@[row.len() + (o - v * keys)] == entry_at(
                        r,
                        index as int,
                        v * keys + (o - v * keys),
                    ));
                }
            }
        }
        v += 1;
    }
}

proof fn lemma_base_monotone(rs: Seq<Region>, a: int, b: int)
    requires
        0 <= a <= b,
    ensures
        base_of(rs, a) <= base_of(rs, b),
        0 <= base_of(rs, a),
    decreases b,
{
    if b > 0 {
        assert(block_len(rs[b - 1]) >= 0) by (nonlinear_arith)
            requires
                block_len(rs[b - 1]) == vel_span(rs[b - 1]) * (if per_key(rs[b - 1]) {
                    128int
                } else {
                    1int
                }),
                vel_span(rs[b - 1]) >= 1,
        ;
        if a < b {
            lemma_base_monotone(rs, a, b - 1);
        } else {
            lemma_base_monotone(rs, b - 1, b - 1);
        }
    }
}

/// Filling in places does not move them.
proof fn lemma_base_agrees(a: Seq<Region>, b: Seq<Region>, n: int)
    requires
        0 <= n <= a.len() == b.len(),
        forall|j: int| 0 <= j < a.len() ==> #[trigger] b[j] == laid_out(a[j], base_of(a, j)),
    ensures
        base_of(a, n) == base_of(b, n),
    decreases n,
{
    if n > 0 {
        lemma_base_agrees(a, b, n - 1);
        assert(b[n - 1] == laid_out(a[n - 1], base_of(a, n - 1)));
    }
}

/// Put the entry of the newest preset in its place in the index.
fn insert_entry(
    index: &mut Vec<IndexEntry>,
    e: IndexEntry,
    Ghost(old_presets): Ghost<Seq<Preset>>,
    Ghost(presets): Ghost<Seq<Preset>>,
)
    requires
        indexes(old(index)@, old_presets, old_presets.len() as int),
        presets.len() == old_presets.len() + 1,
        presets.drop_last() == old_presets,
        e.preset == old_presets.len(),
        e.bank == presets.last().bank,
        e.program == presets.last().program,
    ensures
        indexes(final(index)@, presets, presets.len() as int),
{
    let n: usize = index.len();
    let ghost i0 = index@;
    let mut at: usize = n;
    while at > 0 && (index[at - 1].bank > e.bank || (index[at - 1].bank == e.bank && index[at
        - 1].program > e.program))
        invariant
            at <= n == index@.len(),
            index@ == i0,
            forall|j: int| at <= j < n ==> before(e, #[trigger] i0[j]),
        decreases at,
    {
        at -= 1;
    }
    index.insert(at, e);
    proof {
        let i1 = index@;
        let m = presets.len() as int;
        assert(i1 == i0.insert(at as int, e));
        assert forall|i: int| 0 <= i < m implies {
            let x = #[trigger] i1[i];
            &&& x.preset < m
            &&& x.bank == presets[x.preset as int].bank
            &&& x.program == presets[x.preset as int].program
        } by {
            if i < at {
                assert(i1[i] == i0[i]);
                assert(presets.drop_last()[i0[i].preset as int] == presets[i0[i].preset as int]);
            } else if i > at {
                assert(i1[i] == i0[i - 1]);
                assert(presets.drop_last()[i0[i - 1].preset as int] == presets[i0[i
                    - 1].preset as int]);
            }
        }
        assert forall|i: int, j: int| 0 <= i < j < m implies before(
            #[trigger] i1[i],
            #[trigger] i1[j],
        ) by {
            let a = if i < at {
                i
            } else {
                i - 1
            };
            let b = if j < at {
                j
            } else {
                j - 1
            };
            if i == at {
                assert(i1[j] == i0[b]);
            } else if j == at {
                assert(i1[i] == i0[a]);
                assert(before(i0[a], i0[at - 1]) || a == at - 1);
                assert(i0[at - 1].preset < e.preset);
            } else {
                assert(i1[i] == i0[a] && i1[j] == i0[b]);
            }
        }
        assert forall|p: int| 0 <= p < m implies #[trigger] lists(i1, p) by {
            if p == m - 1 {
                assert(i1[at as int].preset == p);
            } else {
                assert(lists(i0, p));
                let i = choose|i: int| 0 <= i < n && (#[trigger] i0[i]).preset == p;
                if i < at {
                    assert(i1[i] == i0[i]);
                } else {
                    assert(i1[i + 1] == i0[i]);
                }
            }
        }
    }
}

} // verus!
