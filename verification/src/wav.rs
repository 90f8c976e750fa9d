//! RIFF/WAVE files as bytes: headers, size fields, chunks and sample encodings.

use crate::bytes::{bytes16, bytes32, get16, get32, get64, le16, le32, le64, put16, put32};
use crate::text::{lower_all, lowered, spells};
use vstd::prelude::*;

verus! {

#[derive(Debug, Clone, Copy, PartialEq, Eq, Structural)]
pub enum SampleFormat {
    /// 16-bit signed integer.
    Pcm16,
    /// 32-bit IEEE float.
    Float32,
}

impl SampleFormat {
    /// The format a command-line word names, in any letter case.
    pub open spec fn named(word: Seq<char>) -> Option<SampleFormat> {
        let w = lower_all(word);
        if w == "pcm16"@ || w == "16"@ || w == "s16"@ || w == "int16"@ {
            Some(SampleFormat::Pcm16)
        } else if w == "float32"@ || w == "f32"@ || w == "32"@ || w == "float"@ {
            Some(SampleFormat::Float32)
        } else {
            None
        }
    }

    pub fn parse(s: &str) -> (r: Option<Self>)
        ensures
            r == SampleFormat::named(s@),
    {
        let w = lowered(s);
        if spells(&w, "pcm16") || spells(&w, "16") || spells(&w, "s16") || spells(&w, "int16") {
            Some(SampleFormat::Pcm16)
        } else if spells(&w, "float32") || spells(&w, "f32") || spells(&w, "32") || spells(
            &w,
            "float",
        ) {
            Some(SampleFormat::Float32)
        } else {
            None
        }
    }

    /// Bits per sample.
    pub open spec fn width(self) -> u16 {
        match self {
            SampleFormat::Pcm16 => 16,
            SampleFormat::Float32 => 32,
        }
    }

    /// The WAVE format tag: 1 for integers, 3 for floating point.
    pub open spec fn format_tag(self) -> u16 {
        match self {
            SampleFormat::Pcm16 => 1,
            SampleFormat::Float32 => 3,
        }
    }

    /// Bytes per sample.
    pub open spec fn size(self) -> int {
        self.width() as int / 8
    }

    pub fn bits(self) -> (r: u16)
        ensures
            r == self.width(),
    {
        match self {
            SampleFormat::Pcm16 => 16,
            SampleFormat::Float32 => 32,
        }
    }

    pub fn tag(self) -> (r: u16)
        ensures
            r == self.format_tag(),
    {
        match self {
            SampleFormat::Pcm16 => 1,
            SampleFormat::Float32 => 3,
        }
    }

    pub fn bytes(self) -> (r: u32)
        ensures
            r == self.size(),
    {
        self.bits() as u32 / 8
    }
}

pub const RIFF: [u8; 4] = [82, 73, 70, 70];

pub const WAVE: [u8; 4] = [87, 65, 86, 69];

pub const FMT: [u8; 4] = [102, 109, 116, 32];

pub const DATA: [u8; 4] = [100, 97, 116, 97];

pub const SMPL: [u8; 4] = [115, 109, 112, 108];

/// Bytes of one frame.
pub open spec fn block_align(channels: u16, format: SampleFormat) -> int {
    channels * format.size()
}

/// A header with the given size fields.
pub open spec fn header_bytes(
    sample_rate: u32,
    channels: u16,
    format: SampleFormat,
    riff_size: u32,
    data_size: u32,
) -> Seq<u8> {
    RIFF@ + bytes32(riff_size) + WAVE@ + FMT@ + bytes32(16) + bytes16(format.format_tag())
        + bytes16(channels) + bytes32(sample_rate) + bytes32(
        (sample_rate * block_align(channels, format)) as u32,
    ) + bytes16((block_align(channels, format) % 0x1_0000) as u16) + bytes16(format.width())
        + DATA@ + bytes32(data_size)
}

/// A 64-bit byte count as a size field, which saturates.
pub open spec fn size_field(n: int) -> u32 {
    if n > u32::MAX {
        u32::MAX
    } else {
        n as u32
    }
}

/// What is left to be written into a header once all data is out.
#[derive(Debug, Clone, Copy, PartialEq, Eq, Structural)]
pub struct SizePatch {
    /// For byte 4.
    pub riff_size: u32,
    /// For byte 40.
    pub data_size: u32,
    /// The file is past what the size fields can describe.
    pub saturated: bool,
}

/// The sizes of a file with `n` bytes of data.
pub open spec fn patch_of(n: int) -> SizePatch {
    SizePatch {
        riff_size: size_field(36 + n),
        data_size: size_field(n),
        saturated: 36 + n > u32::MAX,
    }
}

/// Book-keeping of a streaming writer. Sizes are patched into the header at the
/// end.
#[derive(Debug, Clone, Copy, PartialEq, Eq, Structural)]
pub struct WavWriter {
    pub format: SampleFormat,
    pub channels: u16,
    pub data_bytes: u64,
    pub finished: bool,
}

fn put4(out: &mut Vec<u8>, tag: [u8; 4])
    ensures
        final(out)@ == old(out)@ + tag@,
{
    out.push(tag[0]);
    out.push(tag[1]);
    out.push(tag[2]);
    out.push(tag[3]);
    assert(out@ =~= old(out)@ + tag@);
}

/// Samples encoded for a file, one after another.
pub open spec fn float_bytes(bits: Seq<u32>) -> Seq<u8> {
    Seq::new(bits.len() * 4, |i: int| bytes32(bits[i / 4])[i % 4])
}

/// Signed 16-bit samples encoded for a file.
pub open spec fn pcm_bytes(vals: Seq<i16>) -> Seq<u8> {
    Seq::new(vals.len() * 2, |i: int| bytes16(word16(vals[i / 2]))[i % 2])
}

/// A signed number as the unsigned one with the same bits.
pub open spec fn word16(v: i16) -> u16 {
    if v < 0 {
        (v + 0x1_0000) as u16
    } else {
        v as u16
    }
}

impl WavWriter {
    /// Start a file: the writer, and the header with its size fields at zero.
    pub fn create(sample_rate: u32, channels: u16, format: SampleFormat) -> (r: (
        WavWriter,
        Vec<u8>,
    ))
        requires
            sample_rate * block_align(channels, format) <= u32::MAX,
        ensures
            r.0 == (WavWriter { format, channels, data_bytes: 0, finished: false }),
            r.1@ == header_bytes(sample_rate, channels, format, 0, 0),
    {
        let size: u32 = format.bytes();
        assert(0 <= channels * size <= 65535 * 4) by (nonlinear_arith)
            requires
                0 <= channels <= 65535,
                0 <= size <= 4,
        ;
        let align: u32 = channels as u32 * size;
        let mut out: Vec<u8> = Vec::new();
        put4(&mut out, RIFF);
        put32(&mut out, 0);
        put4(&mut out, WAVE);
        put4(&mut out, FMT);
        put32(&mut out, 16);
        put16(&mut out, format.tag());
        put16(&mut out, channels);
        put32(&mut out, sample_rate);
        put32(&mut out, sample_rate * align);
        put16(&mut out, (align % 0x1_0000) as u16);
        put16(&mut out, format.bits());
        put4(&mut out, DATA);
        put32(&mut out, 0);
        assert(out@ =~= header_bytes(sample_rate, channels, format, 0, 0));
        (WavWriter { format, channels, data_bytes: 0, finished: false }, out)
    }

    /// Encode a block of single-precision samples, given as bit patterns, and
    /// count its bytes.
    pub fn encode_floats(&mut self, bits: &Vec<u32>) -> (r: Vec<u8>)
        requires
            old(self).data_bytes + bits@.len() * 4 <= u64::MAX,
        ensures
            r@ == float_bytes(bits@),
            *final(self) == (WavWriter {
                data_bytes: (old(self).data_bytes + bits@.len() * 4) as u64,
                ..*old(self)
            }),
    {
        let mut out: Vec<u8> = Vec::new();
        let mut i: usize = 0;
        while i < bits.len()
            invariant
                i <= bits@.len(),
                out@ == float_bytes(bits@.take(i as int)),
            decreases bits@.len() - i,
        {
            put32(&mut out, bits[i]);
            assert(out@ =~= float_bytes(bits@.take(i + 1)));
            i += 1;
        }
        assert(bits@.take(i as int) =~= bits@);
        self.data_bytes = self.data_bytes + bits.len() as u64 * 4;
        out
    }

    /// Encode a block of 16-bit samples and count its bytes.
    pub fn encode_pcm(&mut self, vals: &Vec<i16>) -> (r: Vec<u8>)
        requires
            old(self).data_bytes + vals@.len() * 2 <= u64::MAX,
        ensures
            r@ == pcm_bytes(vals@),
            *final(self) == (WavWriter {
                data_bytes: (old(self).data_bytes + vals@.len() * 2) as u64,
                ..*old(self)
            }),
    {
        let mut out: Vec<u8> = Vec::new();
        let mut i: usize = 0;
        while i < vals.len()
            invariant
                i <= vals@.len(),
                out@ == pcm_bytes(vals@.take(i as int)),
            decreases vals@.len() - i,
        {
            let v: i16 = vals[i];
            let w: u16 = if v < 0 {
                (v as i32 + 0x1_0000) as u16
            } else {
                v as u16
            };
            put16(&mut out, w);
            assert(out@ =~= pcm_bytes(vals@.take(i + 1)));
            i += 1;
        }
        assert(vals@.take(i as int) =~= vals@);
        self.data_bytes = self.data_bytes + vals.len() as u64 * 2;
        out
    }

    /// Whole frames written so far.
    pub fn frames_written(&self) -> (r: u64)
        requires
            self.channels > 0,
        ensures
            r == self.data_bytes as int / block_align(self.channels, self.format),
    {
        let size: u64 = self.format.bytes() as u64;
        assert(0 <= self.channels * size <= 65535 * 4) by (nonlinear_arith)
            requires
                0 <= self.channels <= 65535,
                0 <= size <= 4,
        ;
        let align: u64 = self.channels as u64 * size;
        assert(align > 0) by (nonlinear_arith)
            requires
                align == self.channels * self.format.size(),
                self.channels > 0,
                self.format.size() > 0,
        ;
        self.data_bytes / align
    }

    /// Finish the file: what to write into the header. Finishing again writes
    /// nothing.
    pub fn finish(&mut self) -> (r: Option<SizePatch>)
        requires
            old(self).data_bytes + 36 <= u64::MAX,
        ensures
            *final(self) == (WavWriter { finished: true, ..*old(self) }),
            r == if old(self).finished {
                None
            } else {
                Some(patch_of(old(self).data_bytes as int))
            },
    {
        if self.finished {
            return None;
        }
        self.finished = true;
        let riff: u64 = 36 + self.data_bytes;
        let riff_size: u32 = if riff > 0xffff_ffff {
            u32::MAX
        } else {
            riff as u32
        };
        let data_size: u32 = if self.data_bytes > 0xffff_ffff {
            u32::MAX
        } else {
            self.data_bytes as u32
        };
        Some(SizePatch { riff_size, data_size, saturated: riff > 0xffff_ffff })
    }
}

/// Encoding blocks one by one is encoding them all at once.
pub proof fn law_blocks_concatenate(a: Seq<u32>, b: Seq<u32>, c: Seq<i16>, d: Seq<i16>)
    ensures
        float_bytes(a + b) == float_bytes(a) + float_bytes(b),
        pcm_bytes(c + d) == pcm_bytes(c) + pcm_bytes(d),
{
    assert(float_bytes(a + b) =~= float_bytes(a) + float_bytes(b));
    assert(pcm_bytes(c + d) =~= pcm_bytes(c) + pcm_bytes(d));
}

/// Why a file cannot be read.
#[derive(Debug, Clone, Copy, PartialEq, Eq, Structural)]
pub enum WavError {
    /// The file ends inside a field or a chunk that is needed.
    Truncated,
    NotRiff,
    NotWave,
    /// A chunk claims more bytes than the file has.
    ChunkTooLong,
    NoData,
    NoFormat,
    /// A format tag and sample width nothing here decodes.
    Unsupported,
}

/// What the chunks of a file say, the last of a kind counting.
#[derive(Debug, Clone, Copy, PartialEq, Eq)]
pub struct Chunks {
    pub sample_rate: u32,
    pub channels: u16,
    pub bits: u16,
    pub tag: u16,
    /// Where the sample data lies: first byte and length.
    pub data: Option<(usize, usize)>,
    /// Loop start and end in frames.
    pub loop_points: Option<(u32, u32)>,
    pub root_key: Option<u8>,
    /// Pitch correction, as a 0.32 fraction of a semitone.
    pub pitch_fraction: u32,
}

pub open spec fn no_chunks() -> Chunks {
    Chunks {
        sample_rate: 0,
        channels: 0,
        bits: 0,
        tag: 0,
        data: None,
        loop_points: None,
        root_key: None,
        pitch_fraction: 0,
    }
}

/// Whether four bytes spell a tag.
pub open spec fn tag_is(b: Seq<u8>, i: int, tag: [u8; 4]) -> bool {
    b[i] == tag[0] && b[i + 1] == tag[1] && b[i + 2] == tag[2] && b[i + 3] == tag[3]
}

/// The tag that marks an extensible format, whose real tag comes later.
pub const TAG_EXTENSIBLE: u16 = 0xfffe;

/// A chunk's length rounded up to an even number.
pub open spec fn padded(size: int) -> int {
    size + size % 2
}

/// The chunk at `pos`, of `size` bytes, taken into account.
pub open spec fn with_chunk(b: Seq<u8>, pos: int, size: int, c: Chunks) -> Result<Chunks, WavError> {
    let at = pos + 8;
    if tag_is(b, pos, FMT) {
        if at + 16 > b.len() {
            Err(WavError::Truncated)
        } else {
            let tag = le16(b, at);
            if tag == TAG_EXTENSIBLE && size >= 40 && at + 26 > b.len() {
                Err(WavError::Truncated)
            } else {
                Ok(
                    Chunks {
                        tag: if tag == TAG_EXTENSIBLE && size >= 40 {
                            le16(b, at + 24)
                        } else {
                            tag
                        },
                        channels: le16(b, at + 2),
                        sample_rate: le32(b, at + 4),
                        bits: le16(b, at + 14),
                        ..c
                    },
                )
            }
        }
    } else if tag_is(b, pos, DATA) {
        if at + size > b.len() {
            Err(WavError::Truncated)
        } else {
            Ok(Chunks { data: Some((at as usize, size as usize)), ..c })
        }
    } else if tag_is(b, pos, SMPL) {
        if at + padded(size) > b.len() {
            Err(WavError::Truncated)
        } else if padded(size) < 36 {
            Ok(c)
        } else {
            Ok(
                Chunks {
                    root_key: if le32(b, at + 20) < 128 {
                        Some(le32(b, at + 20) as u8)
                    } else {
                        c.root_key
                    },
                    pitch_fraction: le32(b, at + 24),
                    loop_points: if le32(b, at + 28) > 0 && padded(size) >= 60 {
                        Some((le32(b, at + 44), le32(b, at + 48)))
                    } else {
                        c.loop_points
                    },
                    ..c
                },
            )
        }
    } else {
        Ok(c)
    }
}

/// The chunks from `pos` on.
pub open spec fn scan(b: Seq<u8>, pos: int, c: Chunks) -> Result<Chunks, WavError>
    decreases
            (if pos > b.len() {
                0
            } else {
                b.len() - pos + 1
            }),
{
    if pos < 0 || pos + 4 > b.len() {
        Ok(c)
    } else if pos + 8 > b.len() {
        Err(WavError::Truncated)
    } else {
        let size = le32(b, pos + 4) as int;
        if size > b.len() {
            Err(WavError::ChunkTooLong)
        } else {
            match with_chunk(b, pos, size, c) {
                Err(e) => Err(e),
                Ok(d) => scan(b, pos + 8 + padded(size), d),
            }
        }
    }
}

/// The chunks of a whole file.
pub open spec fn chunks_of(b: Seq<u8>) -> Result<Chunks, WavError> {
    if b.len() < 4 {
        Err(WavError::Truncated)
    } else if !tag_is(b, 0, RIFF) {
        Err(WavError::NotRiff)
    } else if b.len() < 12 {
        Err(WavError::Truncated)
    } else if !tag_is(b, 8, WAVE) {
        Err(WavError::NotWave)
    } else {
        scan(b, 12, no_chunks())
    }
}

/// Decoded samples, as their encoding gives them.
#[derive(Debug, Clone)]
pub enum Samples {
    /// Integers, and the magnitude of their full scale.
    Int(Vec<i32>, u32),
    /// Single-precision bit patterns.
    Single(Vec<u32>),
    /// Double-precision bit patterns.
    Double(Vec<u64>),
}

/// Decoded samples as the contracts speak of them.
#[verifier::ext_equal]
pub enum SampleSeq {
    Int(Seq<i32>, u32),
    Single(Seq<u32>),
    Double(Seq<u64>),
}

impl View for Samples {
    type V = SampleSeq;

    open spec fn view(&self) -> SampleSeq {
        match self {
            Samples::Int(v, scale) => SampleSeq::Int(v@, *scale),
            Samples::Single(v) => SampleSeq::Single(v@),
            Samples::Double(v) => SampleSeq::Double(v@),
        }
    }
}

/// An unsigned number of `span` values read as a signed one.
pub open spec fn signed(x: int, span: int) -> i32 {
    (if x < span / 2 {
        x
    } else {
        x - span
    }) as i32
}

/// The samples a run of bytes holds in an encoding.
pub open spec fn decoded(b: Seq<u8>, tag: u16, bits: u16) -> Option<SampleSeq> {
    let n = b.len() as int;
    if tag == 1 && bits == 8 {
        Some(SampleSeq::Int(Seq::new(n as nat, |i: int| (b[i] - 128) as i32), 128))
    } else if tag == 1 && bits == 16 {
        Some(
            SampleSeq::Int(
                Seq::new((n / 2) as nat, |i: int| signed(le16(b, i * 2) as int, 0x1_0000)),
                32768,
            ),
        )
    } else if tag == 1 && bits == 24 {
        Some(
            SampleSeq::Int(
                Seq::new(
                    (n / 3) as nat,
                    |i: int|
                        signed(
                            b[i * 3] + b[i * 3 + 1] * 0x100 + b[i * 3 + 2] * 0x1_0000,
                            0x100_0000,
                        ),
                ),
                8388608,
            ),
        )
    } else if tag == 1 && bits == 32 {
        Some(
            SampleSeq::Int(
                Seq::new((n / 4) as nat, |i: int| signed(le32(b, i * 4) as int, 0x1_0000_0000)),
                2147483648,
            ),
        )
    } else if tag == 3 && bits == 32 {
        Some(SampleSeq::Single(Seq::new((n / 4) as nat, |i: int| le32(b, i * 4))))
    } else if tag == 3 && bits == 64 {
        Some(SampleSeq::Double(Seq::new((n / 8) as nat, |i: int| le64(b, i * 8))))
    } else {
        None
    }
}

fn to_signed(x: u32, half: u32) -> (r: i32)
    requires
        half == 0x8000 || half == 0x80_0000 || half == 0x8000_0000,
        x < half * 2,
    ensures
        r == signed(x as int, half * 2),
{
    if x < half {
        x as i32
    } else {
        (x as i64 - half as i64 * 2) as i32
    }
}

/// Decode a run of bytes. Fails on an encoding nothing here decodes.
pub fn decode_samples(b: &[u8], tag: u16, bits: u16) -> (r: Result<Samples, WavError>)
    ensures
        match decoded(b@, tag, bits) {
            Some(s) => r matches Ok(v) && v@ == s,
            None => r == Err::<Samples, WavError>(WavError::Unsupported),
        },
{
    let n: usize = b.len();
    if tag == 1 && bits == 8 {
        let mut v: Vec<i32> = Vec::new();
        let mut i: usize = 0;
        while i < n
            invariant
                i <= n == b@.len(),
                v@ == Seq::new(i as nat, |k: int| (b@[k] - 128) as i32),
            decreases n - i,
        {
            v.push(b[i] as i32 - 128);
            assert(v@ =~= Seq::new((i + 1) as nat, |k: int| (b@[k] - 128) as i32));
            i += 1;
        }
        return Ok(Samples::Int(v, 128));
    }
    if tag == 1 && bits == 16 {
        let mut v: Vec<i32> = Vec::new();
        let m: usize = n / 2;
        let mut i: usize = 0;
        while i < m
            invariant
                i <= m,
                m * 2 <= n == b@.len(),
                v@ == Seq::new(i as nat, |k: int| signed(le16(b@, k * 2) as int, 0x1_0000)),
            decreases m - i,
        {
            let x: u16 = get16(b, i * 2);
            v.push(to_signed(x as u32, 0x8000));
            assert(v@ =~= Seq::new(
                (i + 1) as nat,
                |k: int| signed(le16(b@, k * 2) as int, 0x1_0000),
            ));
            i += 1;
        }
        return Ok(Samples::Int(v, 32768));
    }
    if tag == 1 && bits == 24 {
        let mut v: Vec<i32> = Vec::new();
        let m: usize = n / 3;
        let mut i: usize = 0;
        let ghost f = |k: int|
            signed(b@[k * 3] + b@[k * 3 + 1] * 0x100 + b@[k * 3 + 2] * 0x1_0000, 0x100_0000);
        while i < m
            invariant
                i <= m,
                m * 3 <= n == b@.len(),
                f == (|k: int|
                    signed(
                        b@[k * 3] + b@[k * 3 + 1] * 0x100 + b@[k * 3 + 2] * 0x1_0000,
                        0x100_0000,
                    )),
                v@ == Seq::new(i as nat, f),
            decreases m - i,
        {
            let x: u32 = b[i * 3] as u32 + b[i * 3 + 1] as u32 * 0x100 + b[i * 3 + 2] as u32
                * 0x1_0000;
            v.push(to_signed(x, 0x80_0000));
            assert(v@ =~= Seq::new((i + 1) as nat, f));
            i += 1;
        }
        return Ok(Samples::Int(v, 8388608));
    }
    if tag == 1 && bits == 32 {
        let mut v: Vec<i32> = Vec::new();
        let m: usize = n / 4;
        let mut i: usize = 0;
        while i < m
            invariant
                i <= m,
                m * 4 <= n == b@.len(),
                v@ == Seq::new(i as nat, |k: int| signed(le32(b@, k * 4) as int, 0x1_0000_0000)),
            decreases m - i,
        {
            let x: u32 = get32(b, i * 4);
            v.push(to_signed(x, 0x8000_0000));
            assert(v@ =~= Seq::new(
                (i + 1) as nat,
                |k: int| signed(le32(b@, k * 4) as int, 0x1_0000_0000),
            ));
            i += 1;
        }
        return Ok(Samples::Int(v, 2147483648));
    }
    if tag == 3 && bits == 32 {
        let mut v: Vec<u32> = Vec::new();
        let m: usize = n / 4;
        let mut i: usize = 0;
        while i < m
            invariant
                i <= m,
                m * 4 <= n == b@.len(),
                v@ == Seq::new(i as nat, |k: int| le32(b@, k * 4)),
            decreases m - i,
        {
            v.push(get32(b, i * 4));
            assert(v@ =~= Seq::new((i + 1) as nat, |k: int| le32(b@, k * 4)));
            i += 1;
        }
        return Ok(Samples::Single(v));
    }
    if tag == 3 && bits == 64 {
        let mut v: Vec<u64> = Vec::new();
        let m: usize = n / 8;
        let mut i: usize = 0;
        while i < m
            invariant
                i <= m,
                m * 8 <= n == b@.len(),
                v@ == Seq::new(i as nat, |k: int| le64(b@, k * 8)),
            decreases m - i,
        {
            v.push(get64(b, i * 8));
            assert(v@ =~= Seq::new((i + 1) as nat, |k: int| le64(b@, k * 8)));
            i += 1;
        }
        return Ok(Samples::Double(v));
    }
    Err(WavError::Unsupported)
}

/// A file read into memory.
#[derive(Debug, Clone)]
pub struct WavData {
    pub sample_rate: u32,
    pub channels: u16,
    /// The samples of all channels, interleaved.
    pub interleaved: Samples,
    /// Loop start and end in frames, if the file declares a loop.
    pub loop_points: Option<(u32, u32)>,
    /// The MIDI note the sample was recorded at, if the file says.
    pub root_key: Option<u8>,
    /// Pitch correction, as a 0.32 fraction of a semitone.
    pub pitch_fraction: u32,
}

/// A file's contents as the contracts speak of them.
#[verifier::ext_equal]
pub struct WavFile {
    pub sample_rate: u32,
    pub channels: u16,
    pub interleaved: SampleSeq,
    pub loop_points: Option<(u32, u32)>,
    pub root_key: Option<u8>,
    pub pitch_fraction: u32,
}

impl View for WavData {
    type V = WavFile;

    open spec fn view(&self) -> WavFile {
        WavFile {
            sample_rate: self.sample_rate,
            channels: self.channels,
            interleaved: self.interleaved@,
            loop_points: self.loop_points,
            root_key: self.root_key,
            pitch_fraction: self.pitch_fraction,
        }
    }
}

/// What a file holds.
pub open spec fn contents(b: Seq<u8>) -> Result<WavFile, WavError> {
    match chunks_of(b) {
        Err(e) => Err(e),
        Ok(c) => match c.data {
            None => Err(WavError::NoData),
            Some((at, n)) => if c.channels == 0 {
                Err(WavError::NoFormat)
            } else {
                match decoded(b.subrange(at as int, at + n), c.tag, c.bits) {
                    None => Err(WavError::Unsupported),
                    Some(s) => Ok(
                        WavFile {
                            sample_rate: c.sample_rate,
                            channels: c.channels,
                            interleaved: s,
                            loop_points: c.loop_points,
                            root_key: c.root_key,
                            pitch_fraction: c.pitch_fraction,
                        },
                    ),
                }
            },
        },
    }
}

fn same_tag(b: &[u8], i: usize, tag: [u8; 4]) -> (r: bool)
    requires
        i + 4 <= b@.len(),
    ensures
        r == tag_is(b@, i as int, tag),
{
    b[i] == tag[0] && b[i + 1] == tag[1] && b[i + 2] == tag[2] && b[i + 3] == tag[3]
}

fn take_chunk(b: &[u8], pos: usize, size: usize, c: Chunks) -> (r: Result<Chunks, WavError>)
    requires
        pos + 8 <= b@.len(),
        size <= b@.len(),
    ensures
        r == with_chunk(b@, pos as int, size as int, c),
        r matches Ok(d) ==> d.data matches Some((at, n)) ==> d.data == c.data || at + n
            <= b@.len(),
{
    let n: usize = b.len();
    let at: usize = pos + 8;
    let mut d = c;
    if same_tag(b, pos, FMT) {
        if n - at < 16 {
            return Err(WavError::Truncated);
        }
        let tag: u16 = get16(b, at);
        d.tag = tag;
        d.channels = get16(b, at + 2);
        d.sample_rate = get32(b, at + 4);
        d.bits = get16(b, at + 14);
        if tag == TAG_EXTENSIBLE && size >= 40 {
            if n - at < 26 {
                return Err(WavError::Truncated);
            }
            d.tag = get16(b, at + 24);
        }
        return Ok(d);
    }
    if same_tag(b, pos, DATA) {
        if n - at < size {
            return Err(WavError::Truncated);
        }
        d.data = Some((at, size));
        return Ok(d);
    }
    if same_tag(b, pos, SMPL) {
        let odd: usize = size % 2;
        if n - at < size || n - at - size < odd {
            return Err(WavError::Truncated);
        }
        let len: usize = size + odd;
        if len < 36 {
            return Ok(c);
        }
        let note: u32 = get32(b, at + 20);
        if note < 128 {
            d.root_key = Some(note as u8);
        }
        d.pitch_fraction = get32(b, at + 24);
        if get32(b, at + 28) > 0 && len >= 60 {
            d.loop_points = Some((get32(b, at + 44), get32(b, at + 48)));
        }
        return Ok(d);
    }
    Ok(c)
}

fn scan_chunks(b: &[u8]) -> (r: Result<Chunks, WavError>)
    ensures
        r == chunks_of(b@),
        r matches Ok(c) ==> (c.data matches Some((at, n)) ==> at + n <= b@.len()),
{
    let n: usize = b.len();
    if n < 4 {
        return Err(WavError::Truncated);
    }
    if !same_tag(b, 0, RIFF) {
        return Err(WavError::NotRiff);
    }
    if n < 12 {
        return Err(WavError::Truncated);
    }
    if !same_tag(b, 8, WAVE) {
        return Err(WavError::NotWave);
    }
    let mut c = Chunks {
        sample_rate: 0,
        channels: 0,
        bits: 0,
        tag: 0,
        data: None,
        loop_points: None,
        root_key: None,
        pitch_fraction: 0,
    };
    let mut pos: usize = 12;
    while n - pos >= 4
        invariant
            n == b@.len(),
            pos <= n,
            scan(b@, pos as int, c) == chunks_of(b@),
            c.data matches Some((at, k)) ==> at + k <= b@.len(),
        decreases n - pos,
    {
        if n - pos < 8 {
            return Err(WavError::Truncated);
        }
        let size: u32 = get32(b, pos + 4);
        if size as u64 > n as u64 {
            return Err(WavError::ChunkTooLong);
        }
        match take_chunk(b, pos, size as usize, c) {
            Err(e) => {
                return Err(e);
            },
            Ok(d) => {
                c = d;
            },
        }
        let rest: usize = n - pos - 8;
        let odd: usize = (size % 2) as usize;
        if size as usize > rest || rest - (size as usize) < odd {
            // The next chunk would start past the end.
            assert(scan(b@, pos + 8 + padded(size as int), c) == Ok::<Chunks, WavError>(c));
            return Ok(c);
        }
        pos = pos + 8 + size as usize + odd;
    }
    Ok(c)
}

/// Read a whole file held in memory.
pub fn read(b: &[u8]) -> (r: Result<WavData, WavError>)
    ensures
        match contents(b@) {
            Ok(f) => r matches Ok(d) && d@ == f,
            Err(e) => r matches Err(x) && x == e,
        },
{
    let total: usize = b.len();
    let c = match scan_chunks(b) {
        Err(e) => {
            return Err(e);
        },
        Ok(c) => c,
    };
    match c.data {
        None => Err(WavError::NoData),
        Some((at, n)) => {
            if c.channels == 0 {
                return Err(WavError::NoFormat);
            }
            let data = vstd::slice::slice_subrange(b, at, at + n);
            match decode_samples(data, c.tag, c.bits) {
                Err(e) => Err(e),
                Ok(s) => Ok(
                    WavData {
                        sample_rate: c.sample_rate,
                        channels: c.channels,
                        interleaved: s,
                        loop_points: c.loop_points,
                        root_key: c.root_key,
                        pitch_fraction: c.pitch_fraction,
                    },
                ),
            }
        },
    }
}

/// Frames in an interleaved run of `n` samples.
pub open spec fn frame_count(n: int, channels: u16) -> int {
    if channels == 0 {
        0
    } else {
        n / channels as int
    }
}

impl Samples {
    pub open spec fn count(&self) -> int {
        match self {
            Samples::Int(v, _) => v@.len() as int,
            Samples::Single(v) => v@.len() as int,
            Samples::Double(v) => v@.len() as int,
        }
    }

    /// Number of samples, all channels together.
    pub fn len(&self) -> (r: usize)
        ensures
            r == self.count(),
    {
        match self {
            Samples::Int(v, _) => v.len(),
            Samples::Single(v) => v.len(),
            Samples::Double(v) => v.len(),
        }
    }
}

impl WavData {
    /// Whole frames in the file.
    pub fn frames(&self) -> (r: usize)
        ensures
            r == frame_count(self.interleaved.count(), self.channels),
    {
        if self.channels == 0 {
            0
        } else {
            self.interleaved.len() / self.channels as usize
        }
    }
}

/// Samples a channel has in an interleaved run of `n`.
pub open spec fn channel_len(n: int, channels: int, ch: int) -> int {
    if n <= ch {
        0
    } else {
        (n - ch + channels - 1) / channels
    }
}

/// One channel of an interleaved run: every `channels`-th sample from `ch` on. A
/// channel past the last is the last.
pub fn take_channel<T: Copy>(v: &Vec<T>, channels: u16, ch: usize) -> (r: Vec<T>)
    ensures
        ({
            let n: int = if channels == 0 {
                1
            } else {
                channels as int
            };
            let c: int = if ch < n {
                ch as int
            } else {
                n - 1
            };
            &&& r@.len() == channel_len(v@.len() as int, n, c)
            &&& forall|i: int| 0 <= i < r@.len() ==> #[trigger] r@[i] == v@[c + i * n]
        }),
{
    let n: usize = if channels == 0 {
        1
    } else {
        channels as usize
    };
    let c: usize = if ch < n {
        ch
    } else {
        n - 1
    };
    let len: usize = v.len();
    let mut out: Vec<T> = Vec::new();
    let mut at: usize = c;
    assert(0 * n == 0);
    while at < len
        invariant
            1 <= n <= 65535,
            n == (if channels == 0 {
                1
            } else {
                channels as int
            }),
            c == (if ch < n {
                ch as int
            } else {
                n - 1
            }),
            c < n,
            len == v@.len(),
            at == c + out@.len() * n,
            forall|i: int| 0 <= i < out@.len() ==> #[trigger] out@[i] == v@[c + i * n],
            out@.len() > 0 ==> at - n < len && c < len,
        decreases len + n - at,
    {
        let ghost m = out@.len() as int;
        out.push(v[at]);
        assert((m + 1) * n == m * n + n) by (nonlinear_arith);
        assert(m * n >= 0) by (nonlinear_arith)
            requires
                m >= 0,
                n >= 1,
        ;
        assert forall|i: int| 0 <= i < out@.len() implies #[trigger] out@[i] == v@[c + i * n] by {
            if i < m {
                assert(out@[i] == v@[c + i * n]);
            }
        }
        if len - at <= n {
            // The next index would be past the end.
            proof {
                lemma_channel_len(len as int, n as int, c as int, out@.len() as int);
            }
            return out;
        }
        at = at + n;
    }
    proof {
        if out@.len() > 0 {
            lemma_channel_len(len as int, n as int, c as int, out@.len() as int);
        }
    }
    out
}

proof fn lemma_channel_len(len: int, n: int, c: int, m: int)
    requires
        1 <= n,
        0 <= c < n,
        m >= 1,
        c + m * n - n < len,
        c + m * n >= len,
        c < len,
    ensures
        channel_len(len, n, c) == m,
{
    let x = len - c + n - 1;
    assert(x == m * n + (x - m * n));
    assert(0 <= x - m * n < n);
    vstd::arithmetic::div_mod::lemma_fundamental_div_mod_converse(x, n, m, x - m * n);
}

} // verus!
