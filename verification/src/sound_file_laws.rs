//! What stands where in a WAVE file, and what its samples are worth.

use crate::bytes::{bytes16, bytes32, le16, le32, le64};
use crate::text::lower_all;
use crate::wav::{
    block_align, channel_len, chunks_of, contents, decoded, float_bytes, frame_count, header_bytes,
    no_chunks, patch_of, pcm_bytes, scan, size_field, with_chunk, Chunks, SampleFormat, SampleSeq,
    WavError,
};
use vstd::prelude::*;

verus! {

/// Numbers stand with their low byte first, in files and in what is uploaded.
pub proof fn law_little_end_first(b: Seq<u8>, i: int, x: u16, y: u32)
    requires
        0 <= i,
        i + 8 <= b.len(),
    ensures
        le16(b, i) == b[i] + 256 * b[i + 1],
        le32(b, i) == b[i] + 256 * b[i + 1] + 65536 * b[i + 2] + 16777216 * b[i + 3],
        le64(b, i) == le32(b, i) + 4294967296 * le32(b, i + 4),
        bytes16(x).len() == 2,
        bytes16(x)[0] + 256 * bytes16(x)[1] == x,
        bytes32(y).len() == 4,
        bytes32(y)[0] + 256 * bytes32(y)[1] + 65536 * bytes32(y)[2] + 16777216 * bytes32(y)[3] == y,
{
}

/// The header of a file: forty-four bytes, with the format, the channels, the
/// rate, the bytes of a second, the bytes of a frame and the bits of a sample in
/// their places, between the two sizes.
pub proof fn law_the_header_of_a_file(
    rate: u32,
    channels: u16,
    format: SampleFormat,
    riff_size: u32,
    data_size: u32,
)
    requires
        rate * channels * 4 <= u32::MAX,
        channels <= 1000,
    ensures
        ({
            let h = header_bytes(rate, channels, format, riff_size, data_size);
            let bytes: int = if format == SampleFormat::Pcm16 { 2 } else { 4 };
            &&& h.len() == 44
            &&& h[0] == 0x52 && h[1] == 0x49 && h[2] == 0x46 && h[3] == 0x46
            &&& le32(h, 4) == riff_size
            &&& h[8] == 0x57 && h[9] == 0x41 && h[10] == 0x56 && h[11] == 0x45
            &&& h[12] == 0x66 && h[13] == 0x6d && h[14] == 0x74 && h[15] == 0x20
            &&& le32(h, 16) == 16
            &&& le16(h, 20) == (if format == SampleFormat::Pcm16 { 1u16 } else { 3u16 })
            &&& le16(h, 22) == channels
            &&& le32(h, 24) == rate
            &&& le32(h, 28) == rate * (channels * bytes)
            &&& le16(h, 32) == channels * bytes
            &&& le16(h, 34) == bytes * 8
            &&& h[36] == 0x64 && h[37] == 0x61 && h[38] == 0x74 && h[39] == 0x61
            &&& le32(h, 40) == data_size
        }),
{
    let size = format.size();
    let align = block_align(channels, format);
    assert(size == 2 || size == 4);
    let per = rate * align;
    assert(align == channels * size);
    assert(0 <= align <= 4000);
    assert(0 <= per <= rate * channels * 4) by (nonlinear_arith)
        requires
            per == rate * align,
            align == channels * size,
            size == 2 || size == 4,
            0 <= rate,
            0 <= channels,
    ;
    let h = header_bytes(rate, channels, format, riff_size, data_size);
    let a = bytes32(riff_size);
    let b = bytes32(16);
    let c = bytes16(format.format_tag());
    let d = bytes16(channels);
    let e = bytes32(rate);
    let f = bytes32(per as u32);
    let g = bytes16(align as u16);
    let k = bytes16(format.width());
    let z = bytes32(data_size);
    assert(h.subrange(4, 8) =~= a);
    assert(h.subrange(16, 20) =~= b);
    assert(h.subrange(20, 22) =~= c);
    assert(h.subrange(22, 24) =~= d);
    assert(h.subrange(24, 28) =~= e);
    assert(h.subrange(28, 32) =~= f);
    assert(h.subrange(32, 34) =~= g);
    assert(h.subrange(34, 36) =~= k);
    assert(h.subrange(40, 44) =~= z);
    lemma_at32(h, 4, riff_size);
    lemma_at32(h, 16, 16);
    lemma_at16(h, 20, format.format_tag());
    lemma_at16(h, 22, channels);
    lemma_at32(h, 24, rate);
    lemma_at32(h, 28, per as u32);
    lemma_at16(h, 32, align as u16);
    lemma_at16(h, 34, format.width());
    lemma_at32(h, 40, data_size);
}

proof fn lemma_at16(h: Seq<u8>, i: int, x: u16)
    requires
        0 <= i,
        i + 2 <= h.len(),
        h.subrange(i, i + 2) == bytes16(x),
    ensures
        le16(h, i) == x,
{
    assert(h.subrange(i, i + 2)[0] == h[i]);
    assert(h.subrange(i, i + 2)[1] == h[i + 1]);
}

proof fn lemma_at32(h: Seq<u8>, i: int, x: u32)
    requires
        0 <= i,
        i + 4 <= h.len(),
        h.subrange(i, i + 4) == bytes32(x),
    ensures
        le32(h, i) == x,
{
    assert(h.subrange(i, i + 4)[0] == h[i]);
    assert(h.subrange(i, i + 4)[1] == h[i + 1]);
    assert(h.subrange(i, i + 4)[2] == h[i + 2]);
    assert(h.subrange(i, i + 4)[3] == h[i + 3]);
}

/// A size past what its field can hold stays at the largest.
pub proof fn law_size_fields_saturate(n: int)
    requires
        0 <= n,
    ensures
        n <= u32::MAX ==> size_field(n) == n,
        n > u32::MAX ==> size_field(n) == u32::MAX,
{
}

/// A finished file says how long its data is and, with the rest of the header, how
/// long it is itself; past what the fields can hold both stay at the largest, and
/// that is said too.
pub proof fn law_sizes_of_a_finished_file(n: int)
    requires
        0 <= n,
    ensures
        n + 36 <= u32::MAX ==> patch_of(n).data_size == n && patch_of(n).riff_size
            == patch_of(n).data_size + 36 && !patch_of(n).saturated,
        n + 36 > u32::MAX ==> patch_of(n).riff_size == u32::MAX && patch_of(n).saturated,
        n > u32::MAX ==> patch_of(n).data_size == u32::MAX,
        n <= u32::MAX ==> patch_of(n).data_size == n,
{
}

/// The words that name the formats, in any letter case, and what each format is.
pub proof fn law_format_words(word: Seq<char>)
    ensures
        ({
            let w = lower_all(word);
            let r = SampleFormat::named(word);
            &&& r == Some(SampleFormat::Pcm16) <==> w == "pcm16"@ || w == "16"@ || w == "s16"@ || w
                == "int16"@
            &&& r == Some(SampleFormat::Float32) <==> w == "float32"@ || w == "f32"@ || w == "32"@
                || w == "float"@
        }),
        SampleFormat::Pcm16.width() == 16 && SampleFormat::Pcm16.size() == 2
            && SampleFormat::Pcm16.format_tag() == 1,
        SampleFormat::Float32.width() == 32 && SampleFormat::Float32.size() == 4
            && SampleFormat::Float32.format_tag() == 3,
{
    reveal_strlit("pcm16");
    reveal_strlit("16");
    reveal_strlit("s16");
    reveal_strlit("int16");
    reveal_strlit("float32");
    reveal_strlit("f32");
    reveal_strlit("32");
    reveal_strlit("float");
    assert("pcm16"@[0] == 'p' && "16"@[0] == '1' && "s16"@[0] == 's' && "int16"@[0] == 'i');
    assert("float32"@[0] == 'f' && "f32"@[0] == 'f' && "32"@[0] == '3' && "float"@[0] == 'f');
}

/// What is written is each sample in turn, its low byte first: a floating-point
/// sample is its own bits, an integer one its two's complement.
pub proof fn law_samples_in_bytes(bits: Seq<u32>, vals: Seq<i16>, i: int)
    requires
        0 <= i,
    ensures
        float_bytes(bits).len() == 4 * bits.len(),
        pcm_bytes(vals).len() == 2 * vals.len(),
        i < bits.len() ==> float_bytes(bits)[4 * i] + 256 * float_bytes(bits)[4 * i + 1] + 65536
            * float_bytes(bits)[4 * i + 2] + 16777216 * float_bytes(bits)[4 * i + 3] == bits[i],
        i < vals.len() && vals[i] >= 0 ==> pcm_bytes(vals)[2 * i] + 256 * pcm_bytes(vals)[2 * i + 1]
            == vals[i],
        i < vals.len() && vals[i] < 0 ==> pcm_bytes(vals)[2 * i] + 256 * pcm_bytes(vals)[2 * i + 1]
            == vals[i] + 65536,
{
    if i < bits.len() {
        assert((4 * i) / 4 == i && (4 * i + 1) / 4 == i && (4 * i + 2) / 4 == i && (4 * i + 3) / 4
            == i);
        assert((4 * i) % 4 == 0 && (4 * i + 1) % 4 == 1 && (4 * i + 2) % 4 == 2 && (4 * i + 3) % 4
            == 3);
    }
    if i < vals.len() {
        assert((2 * i) / 2 == i && (2 * i + 1) / 2 == i);
        assert((2 * i) % 2 == 0 && (2 * i + 1) % 2 == 1);
    }
}

/// Integer samples of any width: eight bits are offset by half their range, wider
/// ones are two's complement, and the full scale is half the range.
pub proof fn law_integer_samples(b: Seq<u8>, i: int)
    requires
        0 <= i,
    ensures
        decoded(b, 1, 8) matches Some(SampleSeq::Int(s, full)) && full == 128 && s.len() == b.len()
            && (i < s.len() ==> s[i] + 128 == b[i]),
        decoded(b, 1, 16) matches Some(SampleSeq::Int(s, full)) && full == 32768 && s.len()
            == b.len() / 2 && (i < s.len() ==> {
            let x = b[2 * i] + 256 * b[2 * i + 1];
            &&& b[2 * i + 1] < 128 ==> s[i] == x
            &&& b[2 * i + 1] >= 128 ==> s[i] == x - 65536
        }),
        decoded(b, 1, 24) matches Some(SampleSeq::Int(s, full)) && full == 8388608 && s.len()
            == b.len() / 3 && (i < s.len() ==> {
            let x = b[3 * i] + 256 * b[3 * i + 1] + 65536 * b[3 * i + 2];
            &&& b[3 * i + 2] < 128 ==> s[i] == x
            &&& b[3 * i + 2] >= 128 ==> s[i] == x - 16777216
        }),
        decoded(b, 1, 32) matches Some(SampleSeq::Int(s, full)) && full == 2147483648 && s.len()
            == b.len() / 4 && (i < s.len() ==> {
            let x = b[4 * i] + 256 * b[4 * i + 1] + 65536 * b[4 * i + 2] + 16777216 * b[4 * i + 3];
            &&& b[4 * i + 3] < 128 ==> s[i] == x
            &&& b[4 * i + 3] >= 128 ==> s[i] == x - 4294967296
        }),
{
    assert(i * 2 == 2 * i && i * 3 == 3 * i && i * 4 == 4 * i);
}

/// Floating-point samples are their own bits, in single or double precision, and
/// no other encoding is read.
pub proof fn law_floating_samples(b: Seq<u8>, tag: u16, bits: u16, i: int)
    requires
        0 <= i,
    ensures
        decoded(b, 3, 32) matches Some(SampleSeq::Single(s)) && s.len() == b.len() / 4 && (i
            < s.len() ==> s[i] == le32(b, 4 * i)),
        decoded(b, 3, 64) matches Some(SampleSeq::Double(s)) && s.len() == b.len() / 8 && (i
            < s.len() ==> s[i] == le64(b, 8 * i)),
        decoded(b, tag, bits) is Some <==> (tag == 1 && (bits == 8 || bits == 16 || bits == 24
            || bits == 32)) || (tag == 3 && (bits == 32 || bits == 64)),
{
    assert(i * 8 == 8 * i && i * 4 == 4 * i);
}

/// A chunk spells `w`, `x`, `y`, `z` at a place.
pub open spec fn spelled_at(b: Seq<u8>, i: int, w: u8, x: u8, y: u8, z: u8) -> bool {
    b[i] == w && b[i + 1] == x && b[i + 2] == y && b[i + 3] == z
}

/// The format chunk: encoding, channels, rate and bits, each from its own place,
/// and the real encoding of an extensible format from further on. It leaves what
/// other chunks said.
pub proof fn law_the_format_chunk(b: Seq<u8>, pos: int, size: int, c: Chunks)
    requires
        0 <= pos,
        0 <= size,
        pos + 8 <= b.len(),
        spelled_at(b, pos, 0x66, 0x6d, 0x74, 0x20),
    ensures
        pos + 24 > b.len() ==> with_chunk(b, pos, size, c) == Err::<Chunks, WavError>(
            WavError::Truncated,
        ),
        pos + 34 <= b.len() ==> (with_chunk(b, pos, size, c) matches Ok(n) && {
            &&& n.channels == le16(b, pos + 10)
            &&& n.sample_rate == le32(b, pos + 12)
            &&& n.bits == le16(b, pos + 22)
            &&& le16(b, pos + 8) != 0xfffe || size < 40 ==> n.tag == le16(b, pos + 8)
            &&& le16(b, pos + 8) == 0xfffe && size >= 40 ==> n.tag == le16(b, pos + 32)
            &&& n.data == c.data && n.loop_points == c.loop_points && n.root_key == c.root_key
            &&& n.pitch_fraction == c.pitch_fraction
        }),
{
}

/// The data chunk is where the samples are, and says nothing else.
pub proof fn law_the_data_chunk(b: Seq<u8>, pos: int, size: int, c: Chunks)
    requires
        0 <= pos,
        0 <= size,
        pos + 8 <= b.len() <= usize::MAX,
        spelled_at(b, pos, 0x64, 0x61, 0x74, 0x61),
    ensures
        pos + 8 + size > b.len() ==> with_chunk(b, pos, size, c) == Err::<Chunks, WavError>(
            WavError::Truncated,
        ),
        pos + 8 + size <= b.len() ==> with_chunk(b, pos, size, c) == Ok::<Chunks, WavError>(
            (Chunks { data: Some(((pos + 8) as usize, size as usize)), ..c }),
        ),
{
}

/// The sampler chunk: the root key where it is a key, the fraction of its pitch,
/// and the first loop's two ends, where it has a loop. One too short to hold them
/// is passed over.
pub proof fn law_the_sampler_chunk(b: Seq<u8>, pos: int, size: int, c: Chunks)
    requires
        0 <= pos,
        0 <= size,
        pos + 8 + size + size % 2 <= b.len(),
        spelled_at(b, pos, 0x73, 0x6d, 0x70, 0x6c),
    ensures
        size < 35 ==> with_chunk(b, pos, size, c) == Ok::<Chunks, WavError>(c),
        size >= 36 ==> (with_chunk(b, pos, size, c) matches Ok(n) && {
            &&& le32(b, pos + 28) <= 127 ==> n.root_key == Some(le32(b, pos + 28) as u8)
            &&& le32(b, pos + 28) > 127 ==> n.root_key == c.root_key
            &&& n.pitch_fraction == le32(b, pos + 32)
            &&& size >= 60 && le32(b, pos + 36) >= 1 ==> n.loop_points == Some(
                (le32(b, pos + 52), le32(b, pos + 56)),
            )
            &&& le32(b, pos + 36) == 0 ==> n.loop_points == c.loop_points
            &&& n.sample_rate == c.sample_rate && n.channels == c.channels && n.bits == c.bits
            &&& n.tag == c.tag && n.data == c.data
        }),
{
}

/// Any other chunk is passed over, and the next chunk starts behind this one, on
/// an even place.
pub proof fn law_other_chunks_are_passed_over(b: Seq<u8>, pos: int, size: int, c: Chunks)
    requires
        0 <= pos,
        0 <= size,
        pos + 8 <= b.len(),
        !spelled_at(b, pos, 0x66, 0x6d, 0x74, 0x20),
        !spelled_at(b, pos, 0x64, 0x61, 0x74, 0x61),
        !spelled_at(b, pos, 0x73, 0x6d, 0x70, 0x6c),
    ensures
        with_chunk(b, pos, size, c) == Ok::<Chunks, WavError>(c),
        le32(b, pos + 4) == size && size <= b.len() ==> scan(b, pos, c) == scan(
            b,
            pos + 8 + (if size % 2 == 0 { size } else { size + 1 }),
            c,
        ),
        le32(b, pos + 4) > b.len() ==> scan(b, pos, c) == Err::<Chunks, WavError>(
            WavError::ChunkTooLong,
        ),
{
}

/// A file is refused for what it lacks, in the order it is read.
pub proof fn law_what_a_file_is_refused_for(b: Seq<u8>)
    ensures
        b.len() < 4 ==> chunks_of(b) == Err::<Chunks, WavError>(WavError::Truncated),
        b.len() >= 4 && !spelled_at(b, 0, 0x52, 0x49, 0x46, 0x46) ==> chunks_of(b) == Err::<
            Chunks,
            WavError,
        >(WavError::NotRiff),
        b.len() >= 12 && spelled_at(b, 0, 0x52, 0x49, 0x46, 0x46) && !spelled_at(
            b,
            8,
            0x57,
            0x41,
            0x56,
            0x45,
        ) ==> chunks_of(b) == Err::<Chunks, WavError>(WavError::NotWave),
        b.len() >= 12 && spelled_at(b, 0, 0x52, 0x49, 0x46, 0x46) && spelled_at(
            b,
            8,
            0x57,
            0x41,
            0x56,
            0x45,
        ) ==> chunks_of(b) == scan(b, 12, no_chunks()),
        chunks_of(b) is Err ==> contents(b) is Err && contents(b)->Err_0 == chunks_of(b)->Err_0,
        chunks_of(b) matches Ok(c) ==> {
            let f = contents(b)->Ok_0;
            &&& c.data is None ==> contents(b) is Err && contents(b)->Err_0 == WavError::NoData
            &&& c.data is Some && c.channels == 0 ==> contents(b) is Err && contents(b)->Err_0
                == WavError::NoFormat
            &&& contents(b) is Ok ==> f.sample_rate == c.sample_rate && f.channels == c.channels
                && f.loop_points == c.loop_points && f.root_key == c.root_key && f.pitch_fraction
                == c.pitch_fraction
        },
{
}

/// A run of samples is whole frames of one sample per channel, and its channels
/// share it out between them.
pub proof fn law_channels_share_the_samples(n: int, channels: u16, ch: int)
    requires
        0 <= n,
        channels > 0,
        0 <= ch < channels,
    ensures
        frame_count(n, channels) * channels <= n < (frame_count(n, channels) + 1) * channels,
        frame_count(n, 0) == 0,
        frame_count(n, channels) <= channel_len(n, channels as int, ch) <= frame_count(n, channels)
            + 1,
        channel_len(n, channels as int, ch) > 0 ==> ch + (channel_len(n, channels as int, ch) - 1)
            * channels < n,
        ch + channel_len(n, channels as int, ch) * channels >= n,
{
    let k = channels as int;
    vstd::arithmetic::div_mod::lemma_fundamental_div_mod(n, k);
    vstd::arithmetic::div_mod::lemma_mod_bound(n, k);
    let q = n / k;
    assert(q * k == k * q && (q + 1) * k == k * q + k) by (nonlinear_arith);
    assert(q >= 0) by (nonlinear_arith)
        requires
            n == k * q + n % k,
            0 <= n % k < k,
            n >= 0,
            k > 0,
    ;
    if n > ch {
        let m = n - ch + k - 1;
        let l = m / k;
        vstd::arithmetic::div_mod::lemma_fundamental_div_mod(m, k);
        vstd::arithmetic::div_mod::lemma_mod_bound(m, k);
        assert((l - 1) * k == k * l - k && l * k == k * l) by (nonlinear_arith);
        assert(q <= l <= q + 1) by (nonlinear_arith)
            requires
                n == k * q + n % k,
                0 <= n % k < k,
                m == k * l + m % k,
                0 <= m % k < k,
                m == n - ch + k - 1,
                0 <= ch < k,
        ;
    } else {
        assert(q == 0) by (nonlinear_arith)
            requires
                n == k * q + n % k,
                0 <= n % k < k,
                n <= ch < k,
                q >= 0,
        ;
        assert(0 * k == 0) by (nonlinear_arith);
    }
}

} // verus!
