//! All tunables live here. Nothing in this crate reads a magic constant that is
//! not derived from a `Config`.

use crate::fbits::{in_range64, within64};
use crate::limiter::LimiterMode;
use crate::text::{lower_all, lowered, spells};
use vstd::arithmetic::power2::{lemma2_to64, lemma_pow2_strictly_increases, lemma_pow2_unfold, pow2};
use vstd::prelude::*;

verus! {

/// Sample interpolation quality, used by every backend.
#[derive(Debug, Clone, Copy, PartialEq, Eq, Structural)]
pub enum Interpolation {
    /// Truncate to the nearest lower sample. One fetch per voice per frame.
    Nearest,
    /// Two-point linear. The default.
    Linear,
    /// Four-point Catmull-Rom. Roughly twice the sample-pool bandwidth.
    Cubic,
}

impl Interpolation {
    /// The variant a command-line word names, in any letter case.
    pub open spec fn named(word: Seq<char>) -> Option<Interpolation> {
        let w = lower_all(word);
        if w == "nearest"@ || w == "none"@ || w == "0"@ {
            Some(Interpolation::Nearest)
        } else if w == "linear"@ || w == "1"@ {
            Some(Interpolation::Linear)
        } else if w == "cubic"@ || w == "hermite"@ || w == "2"@ {
            Some(Interpolation::Cubic)
        } else {
            None
        }
    }

    pub fn parse(s: &str) -> (r: Option<Self>)
        ensures
            r == Interpolation::named(s@),
    {
        let w = lowered(s);
        if spells(&w, "nearest") || spells(&w, "none") || spells(&w, "0") {
            Some(Interpolation::Nearest)
        } else if spells(&w, "linear") || spells(&w, "1") {
            Some(Interpolation::Linear)
        } else if spells(&w, "cubic") || spells(&w, "hermite") || spells(&w, "2") {
            Some(Interpolation::Cubic)
        } else {
            None
        }
    }

    /// The number the shaders know this by.
    pub open spec fn code_of(self) -> u32 {
        match self {
            Interpolation::Nearest => 0,
            Interpolation::Linear => 1,
            Interpolation::Cubic => 2,
        }
    }

    /// The number the shaders know this by.
    pub fn code(self) -> (r: u32)
        ensures
            r == self.code_of(),
    {
        match self {
            Interpolation::Nearest => 0,
            Interpolation::Linear => 1,
            Interpolation::Cubic => 2,
        }
    }

    /// Number of pool samples the interpolator touches per frame.
    pub fn taps(self) -> (n: u32)
        ensures
            n == match self {
                Interpolation::Nearest => 1u32,
                Interpolation::Linear => 2u32,
                Interpolation::Cubic => 4u32,
            },
    {
        match self {
            Interpolation::Nearest => 1,
            Interpolation::Linear => 2,
            Interpolation::Cubic => 4,
        }
    }
}

/// Shape of the decay and release envelope segments.
#[derive(Debug, Clone, Copy, PartialEq, Eq, Structural)]
pub enum EnvelopeCurve {
    /// Level falls by a constant number of dB per frame (multiplicative).
    /// This is what the SoundFont format asks for.
    Exponential,
    /// Level falls by a constant amount per frame (additive).
    Linear,
}

impl EnvelopeCurve {
    /// The variant a command-line word names, in any letter case.
    pub open spec fn named(word: Seq<char>) -> Option<EnvelopeCurve> {
        let w = lower_all(word);
        if w == "exp"@ || w == "exponential"@ || w == "db"@ {
            Some(EnvelopeCurve::Exponential)
        } else if w == "lin"@ || w == "linear"@ {
            Some(EnvelopeCurve::Linear)
        } else {
            None
        }
    }

    pub fn parse(s: &str) -> (r: Option<Self>)
        ensures
            r == EnvelopeCurve::named(s@),
    {
        let w = lowered(s);
        if spells(&w, "exp") || spells(&w, "exponential") || spells(&w, "db") {
            Some(EnvelopeCurve::Exponential)
        } else if spells(&w, "lin") || spells(&w, "linear") {
            Some(EnvelopeCurve::Linear)
        } else {
            None
        }
    }

    /// The number the shaders know this by.
    pub open spec fn code_of(self) -> u32 {
        match self {
            EnvelopeCurve::Exponential => 0,
            EnvelopeCurve::Linear => 1,
        }
    }

    /// The number the shaders know this by.
    pub fn code(self) -> (r: u32)
        ensures
            r == self.code_of(),
    {
        match self {
            EnvelopeCurve::Exponential => 0,
            EnvelopeCurve::Linear => 1,
        }
    }
}

/// What happens when a note-on arrives and the voice pool is full.
///
/// The rule never depends on scheduling order, because that would make output
/// non-reproducible.
#[derive(Debug, Clone, Copy, PartialEq, Eq, Structural)]
pub enum StealRule {
    /// Kill the voices with the smallest note id, i.e. the ones that started
    /// earliest.
    Oldest,
    /// Refuse to start the new note instead of killing an old one.
    DropNew,
    /// Kill the voices with the lowest envelope level, ties broken by note id.
    Quietest,
}

impl StealRule {
    /// The variant a command-line word names, in any letter case.
    pub open spec fn named(word: Seq<char>) -> Option<StealRule> {
        let w = lower_all(word);
        if w == "oldest"@ {
            Some(StealRule::Oldest)
        } else if w == "quietest"@ || w == "quiet"@ || w == "level"@ {
            Some(StealRule::Quietest)
        } else if w == "drop"@ || w == "dropnew"@ || w == "drop-new"@ {
            Some(StealRule::DropNew)
        } else {
            None
        }
    }

    pub fn parse(s: &str) -> (r: Option<Self>)
        ensures
            r == StealRule::named(s@),
    {
        let w = lowered(s);
        if spells(&w, "oldest") {
            Some(StealRule::Oldest)
        } else if spells(&w, "quietest") || spells(&w, "quiet") || spells(&w, "level") {
            Some(StealRule::Quietest)
        } else if spells(&w, "drop") || spells(&w, "dropnew") || spells(&w, "drop-new") {
            Some(StealRule::DropNew)
        } else {
            None
        }
    }

    /// The number the shaders know this by.
    pub open spec fn code_of(self) -> u32 {
        match self {
            StealRule::Oldest => 0,
            StealRule::DropNew => 1,
            StealRule::Quietest => 2,
        }
    }

    /// The number the shaders know this by.
    pub fn code(self) -> (r: u32)
        ensures
            r == self.code_of(),
    {
        match self {
            StealRule::Oldest => 0,
            StealRule::DropNew => 1,
            StealRule::Quietest => 2,
        }
    }
}

/// Which of a saturated block's note-ons get admitted when they outnumber the
/// free pool slots.
///
/// Distinct from `StealRule`, which decides who dies. On a heavily
/// oversubscribed file dropping dominates stealing, so this is the rule that
/// decides most of what is heard.
#[derive(Debug, Clone, Copy, PartialEq, Eq, Structural)]
pub enum AdmitRule {
    /// Rank by opening amplitude, with a scrambled position as a tiebreak.
    Loudest,
    /// Thin the block evenly by event position, ignoring what each note is.
    Even,
}

impl AdmitRule {
    /// The variant a command-line word names, in any letter case.
    pub open spec fn named(word: Seq<char>) -> Option<AdmitRule> {
        let w = lower_all(word);
        if w == "loudest"@ || w == "loud"@ || w == "rank"@ || w == "ranked"@ {
            Some(AdmitRule::Loudest)
        } else if w == "even"@ || w == "spread"@ || w == "flat"@ {
            Some(AdmitRule::Even)
        } else {
            None
        }
    }

    pub fn parse(s: &str) -> (r: Option<Self>)
        ensures
            r == AdmitRule::named(s@),
    {
        let w = lowered(s);
        if spells(&w, "loudest") || spells(&w, "loud") || spells(&w, "rank") || spells(&w, "ranked") {
            Some(AdmitRule::Loudest)
        } else if spells(&w, "even") || spells(&w, "spread") || spells(&w, "flat") {
            Some(AdmitRule::Even)
        } else {
            None
        }
    }
}

/// Which backend renders the audio.
#[derive(Debug, Clone, Copy, PartialEq, Eq, Structural)]
pub enum BackendKind {
    /// Single-threaded scalar code.
    Cpu,
    /// A compute pipeline on the device.
    Gpu,
}

/// Every setting of a render.
///
/// Floating-point settings are held as IEEE 754 bit patterns: a `u32` for
/// single precision, a `u64` for double precision.
#[derive(Debug, Clone)]
pub struct Config {
    /// Output sample rate in Hz.
    pub sample_rate: u32,
    /// Output channel count. Only 2 is implemented.
    pub channels: u32,
    /// Frames rendered per dispatch.
    pub block_frames: u32,
    /// Frames handled per workgroup reduction step. `block_frames` must be a
    /// multiple of this.
    pub reduce_tile: u32,
    /// Frames between note-off gate checks, and so the granularity of a
    /// note-off. Must be a multiple of `reduce_tile`.
    pub gate_frames: u32,
    /// Invocations per workgroup in the render pass. One voice per invocation.
    pub workgroup_size: u32,
    /// Upper bound on workgroups dispatched by the render pass.
    pub max_render_workgroups: u32,
    /// Upper bound on the grid taken by every per-voice pass. `u32::MAX` means
    /// whatever the device's dispatch ceiling is.
    pub max_pool_workgroups: u32,
    /// Hard ceiling on concurrent voices.
    pub max_voices: u32,
    /// Voices per (channel, key) note-on.
    pub max_layers: u32,
    pub steal_rule: StealRule,
    /// Which note-ons survive when a block oversubscribes the pool.
    pub admit_rule: AdmitRule,
    /// Ceiling on how much of the pool one block may steal, in percent.
    pub max_steal_percent: u32,
    /// Frames a stolen voice fades over instead of being cut.
    pub steal_fade_frames: u32,
    /// Re-sort the voice pool by (region, envelope stage, phase) during
    /// compaction.
    pub sort_voices: bool,
    pub interpolation: Interpolation,
    pub decay_curve: EnvelopeCurve,
    pub release_curve: EnvelopeCurve,
    /// Envelope level below which a releasing voice is considered dead, in
    /// single precision.
    pub env_floor: u32,
    /// Enable the per-voice low-pass filter.
    pub filter_enabled: bool,
    /// Linear gain applied to the final mix before limiting, in single
    /// precision.
    pub master_volume: u32,
    /// Where channel volume sits on a channel that never sends one.
    pub default_channel_volume: u8,
    /// How many copies of the params table the sound controllers may build.
    pub max_param_variants: u32,
    /// Run a limiter over the mixed output.
    pub limiter: bool,
    /// Which limiter runs.
    pub limiter_mode: LimiterMode,
    /// Brickwall ceiling in dBFS, in double precision.
    pub limiter_ceiling_db: u64,
    /// Brickwall lookahead in milliseconds, in double precision.
    pub limiter_lookahead_ms: u64,
    /// Brickwall release in milliseconds, in double precision.
    pub limiter_release_ms: u64,
    /// Time constant of the brickwall's sustained stage in milliseconds, in
    /// double precision. Zero disables the stage.
    pub limiter_sustain_ms: u64,
    /// Detect inter-sample peaks by oversampling.
    pub limiter_true_peak: bool,
    /// Limiter attack in seconds, in single precision.
    pub limiter_attack: u32,
    /// Limiter release in seconds, in single precision.
    pub limiter_release: u32,
    /// Resample every sample to a single rate at load time.
    pub resample_pool: bool,
    /// Soft ceiling on sample-pool bytes on the device.
    pub sample_pool_budget: u64,
    /// Use Kahan compensation in the top levels of the reduction tree.
    pub kahan_reduce: bool,
    /// Check every output block for non-finite samples.
    pub nan_guard: bool,
    /// Compile the shaders without automatic bounds clamps.
    pub unchecked_shaders: bool,
    /// Log per-pass timings.
    pub profile: bool,
    /// Force a specific graphics backend, e.g. "vulkan" or "dx12".
    pub gpu_backend: Option<String>,
    /// Substring match against the adapter name.
    pub gpu_adapter: Option<String>,
}

/// Why a `Config` is refused. `Config::validate` reports the first that
/// applies, in this order.
#[derive(Debug, Clone, Copy, PartialEq, Eq, Structural)]
pub enum ConfigError {
    /// Only stereo output is implemented.
    Channels,
    /// The sample rate is outside 8 kHz to 768 kHz.
    SampleRate,
    /// The block is empty or no multiple of the reduce tile.
    BlockFrames,
    /// The workgroup size is no power of two in 32 to 1024.
    WorkgroupSize,
    /// The reduce tile is no power of two.
    ReduceTile,
    /// The note-off tile is no multiple of the reduce tile, or does not divide the
    /// block.
    GateFrames,
    /// The workgroup needs more shared storage than it can have.
    WorkgroupStorage,
    /// The workgroup has fewer threads than the reduction has lanes.
    WorkgroupLanes,
    /// The brickwall ceiling is outside -24 to 0 dB.
    LimiterCeiling,
    /// The brickwall lookahead is outside 0.05 to 100 ms.
    LimiterLookahead,
    /// The brickwall sustained stage is outside 0 to 10000 ms.
    LimiterSustain,
    /// The brickwall release is outside 0.1 to 5000 ms.
    LimiterRelease,
    /// The voice pool is empty.
    NoVoices,
    /// The steal fade is empty or does not fit in the block.
    StealFade,
    /// The steal percentage is outside 1 to 100.
    StealPercent,
    /// More layers per note than a packed note-on can number.
    TooManyLayers,
    /// A block longer than a packed note-on can index.
    BlockTooLong,
    /// No layers per note.
    NoLayers,
}

/// Bytes of workgroup storage a compute workgroup can have.
pub const MAX_SHARED_BYTES: u64 = 49152;

/// -24.0, the lowest brickwall ceiling.
pub const CEILING_LO: u64 = 0xc038_0000_0000_0000;

/// 0.0, the highest brickwall ceiling.
pub const CEILING_HI: u64 = 0;

/// 0.05, the shortest lookahead.
pub const LOOKAHEAD_LO: u64 = 0x3fa9_9999_9999_999a;

/// 100.0, the longest lookahead.
pub const LOOKAHEAD_HI: u64 = 0x4059_0000_0000_0000;

/// 0.0, the shortest sustained stage.
pub const SUSTAIN_LO: u64 = 0;

/// 10000.0, the longest sustained stage.
pub const SUSTAIN_HI: u64 = 0x40c3_8800_0000_0000;

/// 0.1, the shortest release.
pub const RELEASE_LO: u64 = 0x3fb9_9999_9999_999a;

/// 5000.0, the longest release.
pub const RELEASE_HI: u64 = 0x40b3_8800_0000_0000;

/// One of 1, 2, 4, and so on.
pub open spec fn is_pow2(n: u32) -> bool {
    exists|k: nat| n == #[trigger] pow2(k)
}

fn power_of_two(n: u32) -> (r: bool)
    ensures
        r == is_pow2(n),
{
    let mut p: u64 = 1;
    let ghost mut k: nat = 0;
    proof {
        lemma2_to64();
    }
    while p < n as u64
        invariant
            p == pow2(k),
            1 <= p <= 0x2_0000_0000,
            forall|j: nat| j < k ==> #[trigger] pow2(j) < n,
        decreases 0x2_0000_0000 - p,
    {
        proof {
            lemma_pow2_unfold(k + 1);
            k = k + 1;
        }
        p = p * 2;
    }
    proof {
        assert forall|j: nat| n == #[trigger] pow2(j) implies p == n by {
            if j > k {
                lemma_pow2_strictly_increases(k, j);
            }
        }
    }
    p == n as u64
}

impl Config {
    /// The bytes of workgroup storage the render pass stages.
    pub open spec fn shared_bytes(&self) -> int {
        self.workgroup_size * (self.reduce_tile * 2 + 1) * 4
    }

    /// The first reason this configuration is refused, if any.
    pub open spec fn fault(&self) -> Option<ConfigError> {
        if self.channels != 2 {
            Some(ConfigError::Channels)
        } else if !(8_000 <= self.sample_rate <= 768_000) {
            Some(ConfigError::SampleRate)
        } else if self.block_frames == 0 || self.block_frames % self.reduce_tile != 0 {
            Some(ConfigError::BlockFrames)
        } else if !is_pow2(self.workgroup_size) || !(32 <= self.workgroup_size <= 1024) {
            Some(ConfigError::WorkgroupSize)
        } else if !is_pow2(self.reduce_tile) {
            Some(ConfigError::ReduceTile)
        } else if self.gate_frames == 0 || self.gate_frames % self.reduce_tile != 0
            || self.block_frames % self.gate_frames != 0 {
            Some(ConfigError::GateFrames)
        } else if self.shared_bytes() > MAX_SHARED_BYTES {
            Some(ConfigError::WorkgroupStorage)
        } else if self.workgroup_size < self.reduce_tile * 2 {
            Some(ConfigError::WorkgroupLanes)
        } else if !within64(self.limiter_ceiling_db, CEILING_LO, CEILING_HI) {
            Some(ConfigError::LimiterCeiling)
        } else if !within64(self.limiter_lookahead_ms, LOOKAHEAD_LO, LOOKAHEAD_HI) {
            Some(ConfigError::LimiterLookahead)
        } else if !within64(self.limiter_sustain_ms, SUSTAIN_LO, SUSTAIN_HI) {
            Some(ConfigError::LimiterSustain)
        } else if !within64(self.limiter_release_ms, RELEASE_LO, RELEASE_HI) {
            Some(ConfigError::LimiterRelease)
        } else if self.max_voices == 0 {
            Some(ConfigError::NoVoices)
        } else if self.steal_fade_frames == 0 || self.steal_fade_frames >= self.block_frames {
            Some(ConfigError::StealFade)
        } else if self.max_steal_percent == 0 || self.max_steal_percent > 100 {
            Some(ConfigError::StealPercent)
        } else if self.max_layers > 255 {
            Some(ConfigError::TooManyLayers)
        } else if self.block_frames > 65535 {
            Some(ConfigError::BlockTooLong)
        } else if self.max_layers == 0 {
            Some(ConfigError::NoLayers)
        } else {
            None
        }
    }

    /// Check every setting a render relies on, reporting the first that is out
    /// of range.
    ///
    /// A zero reduce tile is the caller's to rule out where the block length is
    /// compared with it.
    pub fn validate(&self) -> (r: Result<(), ConfigError>)
        requires
            self.channels == 2 && 8_000 <= self.sample_rate <= 768_000 && self.block_frames != 0
                ==> self.reduce_tile != 0,
        ensures
            r == match self.fault() {
                Some(e) => Err::<(), ConfigError>(e),
                None => Ok::<(), ConfigError>(()),
            },
    {
        if self.channels != 2 {
            return Err(ConfigError::Channels);
        }
        if self.sample_rate < 8_000 || self.sample_rate > 768_000 {
            return Err(ConfigError::SampleRate);
        }
        if self.block_frames == 0 || self.block_frames % self.reduce_tile != 0 {
            return Err(ConfigError::BlockFrames);
        }
        if !power_of_two(self.workgroup_size) || self.workgroup_size < 32 || self.workgroup_size
            > 1024 {
            return Err(ConfigError::WorkgroupSize);
        }
        if !power_of_two(self.reduce_tile) {
            return Err(ConfigError::ReduceTile);
        }
        if self.gate_frames == 0 || self.gate_frames % self.reduce_tile != 0 || self.block_frames
            % self.gate_frames != 0 {
            return Err(ConfigError::GateFrames);
        }
        let lanes: u64 = self.reduce_tile as u64 * 2 + 1;
        assert(self.workgroup_size * lanes * 4 <= 1024 * 0x2_0000_0000 * 4) by (nonlinear_arith)
            requires
                self.workgroup_size <= 1024,
                lanes <= 0x2_0000_0000,
        ;
        assert(0 <= self.workgroup_size * lanes <= self.workgroup_size * lanes * 4)
            by (nonlinear_arith);
        let shared: u64 = self.workgroup_size as u64 * lanes * 4;
        if shared > MAX_SHARED_BYTES {
            return Err(ConfigError::WorkgroupStorage);
        }
        if (self.workgroup_size as u64) < self.reduce_tile as u64 * 2 {
            return Err(ConfigError::WorkgroupLanes);
        }
        if !in_range64(self.limiter_ceiling_db, CEILING_LO, CEILING_HI) {
            return Err(ConfigError::LimiterCeiling);
        }
        if !in_range64(self.limiter_lookahead_ms, LOOKAHEAD_LO, LOOKAHEAD_HI) {
            return Err(ConfigError::LimiterLookahead);
        }
        if !in_range64(self.limiter_sustain_ms, SUSTAIN_LO, SUSTAIN_HI) {
            return Err(ConfigError::LimiterSustain);
        }
        if !in_range64(self.limiter_release_ms, RELEASE_LO, RELEASE_HI) {
            return Err(ConfigError::LimiterRelease);
        }
        if self.max_voices == 0 {
            return Err(ConfigError::NoVoices);
        }
        if self.steal_fade_frames == 0 || self.steal_fade_frames >= self.block_frames {
            return Err(ConfigError::StealFade);
        }
        if self.max_steal_percent == 0 || self.max_steal_percent > 100 {
            return Err(ConfigError::StealPercent);
        }
        if self.max_layers > 255 {
            return Err(ConfigError::TooManyLayers);
        }
        if self.block_frames > 65535 {
            return Err(ConfigError::BlockTooLong);
        }
        if self.max_layers == 0 {
            return Err(ConfigError::NoLayers);
        }
        Ok(())
    }

    /// The most voices one block may steal: `max_steal_percent` of the pool in
    /// whole voices, at least one. The percentage is applied in 64 bits and the
    /// result kept in 32.
    pub open spec fn steal_cap(&self) -> int {
        let n = (self.max_voices * self.max_steal_percent / 100) % 0x1_0000_0000;
        if n < 1 {
            1
        } else {
            n
        }
    }

    /// The most voices one block may steal.
    pub fn max_steal(&self) -> (r: u32)
        ensures
            r == self.steal_cap(),
    {
        assert(0 <= self.max_voices * self.max_steal_percent <= 0xffff_ffff * 0xffff_ffff)
            by (nonlinear_arith)
            requires
                self.max_voices <= 0xffff_ffff,
                self.max_steal_percent <= 0xffff_ffff,
        ;
        let n: u64 = self.max_voices as u64 * self.max_steal_percent as u64 / 100;
        let m: u32 = (n % 0x1_0000_0000) as u32;
        if m < 1 {
            1
        } else {
            m
        }
    }

    /// Frames in which a steal may be scheduled. The fade has to finish inside
    /// the block, so a victim cannot start fading in the last `fade` frames.
    pub open spec fn span_frames(&self) -> int {
        if self.block_frames - self.steal_fade_frames < 1 {
            1
        } else {
            self.block_frames - self.steal_fade_frames
        }
    }

    /// Frames in which a steal may be scheduled.
    pub fn steal_span(&self) -> (r: u32)
        ensures
            r == self.span_frames(),
    {
        let s: u32 = self.block_frames.saturating_sub(self.steal_fade_frames);
        if s < 1 {
            1
        } else {
            s
        }
    }

    /// Voice slots to allocate: the pool's ceiling plus room for the voices one
    /// block may steal, which go on sounding while they fade.
    pub fn pool_slots(&self) -> (r: u32)
        ensures
            r == if self.max_voices + self.steal_cap() > u32::MAX {
                u32::MAX as int
            } else {
                self.max_voices + self.steal_cap()
            },
    {
        let m: u32 = self.max_steal();
        self.max_voices.saturating_add(m)
    }

    /// Voices that give way to `queued` note-ons against `live` voices.
    pub open spec fn steal_need(&self, live: int, queued: int) -> int {
        let cap = self.max_voices as int;
        let want = if queued < cap {
            queued
        } else {
            cap
        };
        if live + want <= cap || self.steal_rule == StealRule::DropNew {
            0
        } else {
            let over = live + want - cap;
            let a = if over < live {
                over
            } else {
                live
            };
            if a < self.steal_cap() {
                a
            } else {
                self.steal_cap()
            }
        }
    }

    /// How many of `queued` note-ons fit beside `live` voices once the voices
    /// that give way are gone.
    pub open spec fn admit_count(&self, live: int, queued: int) -> int {
        let cap = self.max_voices as int;
        let want = if queued < cap {
            queued
        } else {
            cap
        };
        let room = cap - (live - self.steal_need(live, queued));
        if want < room {
            want
        } else {
            room
        }
    }

    /// Whether the pool, less the voices that give way, is inside its ceiling,
    /// and the counts involved fit in 32 bits.
    pub open spec fn admissible(&self, live: int, queued: int) -> bool {
        &&& live + (if queued < self.max_voices {
            queued
        } else {
            self.max_voices as int
        }) <= u32::MAX
        &&& live - self.steal_need(live, queued) <= self.max_voices
    }

    /// How many of `queued` note-ons a block can admit, given `live` voices
    /// already in the pool.
    pub fn admit_take(&self, live: u32, queued: u32) -> (r: u32)
        requires
            self.admissible(live as int, queued as int),
        ensures
            r == self.admit_count(live as int, queued as int),
    {
        let cap: u32 = self.max_voices;
        let want: u32 = if queued < cap {
            queued
        } else {
            cap
        };
        if live + want <= cap {
            return want;
        }
        let need: u32 = match self.steal_rule {
            StealRule::DropNew => 0,
            _ => {
                let over: u32 = live + want - cap;
                let a: u32 = if over < live {
                    over
                } else {
                    live
                };
                let m: u32 = self.max_steal();
                if a < m {
                    a
                } else {
                    m
                }
            },
        };
        let room: u32 = cap - (live - need);
        if want < room {
            want
        } else {
            room
        }
    }

    /// Bytes of one interleaved output block.
    pub fn block_bytes(&self) -> (r: u64)
        requires
            self.block_frames * self.channels * 4 <= u64::MAX,
        ensures
            r == self.block_frames * self.channels * 4,
    {
        assert(0 <= self.block_frames * self.channels) by (nonlinear_arith);
        self.block_frames as u64 * self.channels as u64 * 4
    }

    /// Samples (not frames) in one interleaved output block.
    pub fn block_samples(&self) -> (r: usize)
        requires
            self.block_frames * self.channels <= usize::MAX,
        ensures
            r == self.block_frames * self.channels,
    {
        self.block_frames as usize * self.channels as usize
    }
}

impl Default for Config {
    fn default() -> (r: Self)
        ensures
            r.sample_rate == 48_000,
            r.channels == 2,
            r.block_frames == 4096,
            r.reduce_tile == 4,
            r.gate_frames == 32,
            r.workgroup_size == 256,
            r.max_render_workgroups == 2048,
            r.max_pool_workgroups == u32::MAX,
            r.max_voices == 1_048_576,
            r.max_layers == 16,
            r.steal_rule == StealRule::Quietest,
            r.admit_rule == AdmitRule::Loudest,
            r.max_steal_percent == 25,
            r.steal_fade_frames == 96,
            r.sort_voices,
            r.interpolation == Interpolation::Linear,
            r.decay_curve == EnvelopeCurve::Exponential,
            r.release_curve == EnvelopeCurve::Exponential,
            r.env_floor == 0x3727_c5ac,
            r.filter_enabled,
            r.master_volume == 0x3f80_0000,
            r.default_channel_volume == 127,
            r.max_param_variants == 32,
            r.limiter,
            r.limiter_mode == LimiterMode::Brickwall,
            r.limiter_ceiling_db == 0,
            r.limiter_lookahead_ms == 0x4000_0000_0000_0000,
            r.limiter_release_ms == 0x404e_0000_0000_0000,
            r.limiter_sustain_ms == 0,
            r.limiter_true_peak,
            r.limiter_attack == 0x3c23_d70a,
            r.limiter_release == 0x3dcc_cccd,
            r.resample_pool,
            r.sample_pool_budget == 2_147_483_648,
            !r.kahan_reduce,
            !r.nan_guard,
            !r.unchecked_shaders,
            !r.profile,
            r.gpu_backend is None,
            r.gpu_adapter is None,
    {
        Config {
            sample_rate: 48_000,
            channels: 2,
            block_frames: 4096,
            reduce_tile: 4,
            gate_frames: 32,
            workgroup_size: 256,
            max_render_workgroups: 2048,
            max_pool_workgroups: u32::MAX,
            max_voices: 1_048_576,
            max_layers: 16,
            steal_rule: StealRule::Quietest,
            admit_rule: AdmitRule::Loudest,
            max_steal_percent: 25,
            steal_fade_frames: 96,
            sort_voices: true,
            interpolation: Interpolation::Linear,
            decay_curve: EnvelopeCurve::Exponential,
            release_curve: EnvelopeCurve::Exponential,
            // 1.0e-5, or -100 dB.
            env_floor: 0x3727_c5ac,
            filter_enabled: true,
            // 1.0.
            master_volume: 0x3f80_0000,
            default_channel_volume: 127,
            max_param_variants: 32,
            limiter: true,
            limiter_mode: LimiterMode::Brickwall,
            limiter_ceiling_db: 0,
            // 2.0 ms.
            limiter_lookahead_ms: 0x4000_0000_0000_0000,
            // 60.0 ms.
            limiter_release_ms: 0x404e_0000_0000_0000,
            limiter_sustain_ms: 0,
            limiter_true_peak: true,
            // 0.01 s.
            limiter_attack: 0x3c23_d70a,
            // 0.1 s.
            limiter_release: 0x3dcc_cccd,
            resample_pool: true,
            sample_pool_budget: 2_147_483_648,
            kahan_reduce: false,
            nan_guard: false,
            unchecked_shaders: false,
            profile: false,
            gpu_backend: None,
            gpu_adapter: None,
        }
    }
}

/// What the driver admits, a backend keeps: asked again about the notes that
/// were admitted, the rule admits every one of them and frees as much room.
pub proof fn law_admission_is_settled(cfg: Config, live: int, queued: int)
    requires
        0 <= live <= u32::MAX,
        0 <= queued <= u32::MAX,
        cfg.admissible(live, queued),
    ensures
        cfg.admissible(live, cfg.admit_count(live, queued)),
        cfg.admit_count(live, cfg.admit_count(live, queued)) == cfg.admit_count(live, queued),
        live - cfg.steal_need(live, cfg.admit_count(live, queued)) + cfg.admit_count(live, queued)
            <= cfg.max_voices,
{
}

/// No block admits more than was queued, more than the pool holds, or a
/// negative number; and what survives the block fits the pool.
pub proof fn law_admission_is_bounded(cfg: Config, live: int, queued: int)
    requires
        0 <= live <= u32::MAX,
        0 <= queued <= u32::MAX,
        cfg.admissible(live, queued),
    ensures
        0 <= cfg.admit_count(live, queued) <= queued,
        cfg.admit_count(live, queued) <= cfg.max_voices,
        live - cfg.steal_need(live, queued) + cfg.admit_count(live, queued) <= cfg.max_voices,
        0 <= cfg.steal_need(live, queued) <= live,
        cfg.steal_need(live, queued) <= cfg.steal_cap(),
{
}

/// A pool that is inside its ceiling stays inside it whatever a block queues:
/// `admissible` asks nothing more of such a pool than that its counts fit.
pub proof fn law_ceiling_is_kept(cfg: Config, live: int, queued: int)
    requires
        0 <= live <= cfg.max_voices,
        0 <= queued <= u32::MAX,
        cfg.max_voices <= 0x7fff_ffff,
    ensures
        cfg.admissible(live, queued),
{
}

/// A valid configuration schedules every steal so that its fade ends inside the
/// block.
pub proof fn law_steal_fades_inside_the_block(cfg: Config, id: int)
    requires
        cfg.fault() is None,
        0 <= id,
    ensures
        id % cfg.span_frames() + cfg.steal_fade_frames <= cfg.block_frames - 1,
{
}

/// A valid configuration's gate tiles are made of whole reduce tiles and tile
/// the block exactly.
pub proof fn law_tiles_cover_the_block(cfg: Config)
    requires
        cfg.fault() is None,
    ensures
        (cfg.block_frames / cfg.gate_frames) * cfg.gate_frames == cfg.block_frames,
        (cfg.gate_frames / cfg.reduce_tile) * cfg.reduce_tile == cfg.gate_frames,
        cfg.block_frames / cfg.gate_frames >= 1,
{
    vstd::arithmetic::div_mod::lemma_fundamental_div_mod(
        cfg.block_frames as int,
        cfg.gate_frames as int,
    );
    if cfg.reduce_tile == 0 {
        let k = choose|k: nat| cfg.reduce_tile == #[trigger] pow2(k);
        vstd::arithmetic::power2::lemma_pow2_pos(k);
    }
    vstd::arithmetic::div_mod::lemma_fundamental_div_mod(
        cfg.gate_frames as int,
        cfg.reduce_tile as int,
    );
    vstd::arithmetic::mul::lemma_mul_is_commutative(
        cfg.block_frames as int / cfg.gate_frames as int,
        cfg.gate_frames as int,
    );
    vstd::arithmetic::mul::lemma_mul_is_commutative(
        cfg.gate_frames as int / cfg.reduce_tile as int,
        cfg.reduce_tile as int,
    );
    if cfg.block_frames as int / cfg.gate_frames as int <= 0 {
        assert((cfg.block_frames as int / cfg.gate_frames as int) * cfg.gate_frames <= 0)
            by (nonlinear_arith)
            requires
                cfg.block_frames as int / cfg.gate_frames as int <= 0,
                cfg.gate_frames >= 0,
        ;
    }
}

} // verus!
