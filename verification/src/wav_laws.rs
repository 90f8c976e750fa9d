//! What a read gives back of a write.

use crate::bytes::{bytes16, bytes32, le16, le32, lemma_bytes16, lemma_bytes32};
use crate::wav::{
    block_align, chunks_of, contents, decoded, float_bytes, header_bytes, no_chunks, padded,
    pcm_bytes, scan, signed, size_field, tag_is, with_chunk, word16, Chunks, SampleFormat,
    SampleSeq, WavError, WavFile, DATA, FMT, RIFF, WAVE,
};
use vstd::prelude::*;

verus! {

/// A finished file: the header with its sizes patched in, then the data.
#[verifier::opaque]
pub open spec fn file_bytes(
    sample_rate: u32,
    channels: u16,
    format: SampleFormat,
    data: Seq<u8>,
) -> Seq<u8> {
    header_bytes(
        sample_rate,
        channels,
        format,
        size_field(36 + data.len() as int),
        size_field(data.len() as int),
    ) + data
}

proof fn lemma_header_fields(
    sample_rate: u32,
    channels: u16,
    format: SampleFormat,
    riff_size: u32,
    data_size: u32,
    data: Seq<u8>,
)
    ensures
        ({
            let h = header_bytes(sample_rate, channels, format, riff_size, data_size);
            let f = h + data;
            &&& h.len() == 44
            &&& f.len() == 44 + data.len()
            &&& tag_is(f, 0, RIFF)
            &&& tag_is(f, 8, WAVE)
            &&& tag_is(f, 12, FMT)
            &&& le32(f, 16) == 16
            &&& le16(f, 20) == format.format_tag()
            &&& le16(f, 22) == channels
            &&& le32(f, 24) == sample_rate
            &&& le16(f, 34) == format.width()
            &&& tag_is(f, 36, DATA)
            &&& le32(f, 40) == data_size
            &&& f.subrange(44, 44 + data.len() as int) == data
        }),
{
    let p0 = RIFF@ + bytes32(riff_size);
    let p1 = p0 + WAVE@;
    let p2 = p1 + FMT@;
    let p3 = p2 + bytes32(16);
    let p4 = p3 + bytes16(format.format_tag());
    let p5 = p4 + bytes16(channels);
    let p6 = p5 + bytes32(sample_rate);
    let p7 = p6 + bytes32((sample_rate * block_align(channels, format)) as u32);
    let p8 = p7 + bytes16((block_align(channels, format) % 0x1_0000) as u16);
    let p9 = p8 + bytes16(format.width());
    let p10 = p9 + DATA@;
    let h = p10 + bytes32(data_size);
    assert(h == header_bytes(sample_rate, channels, format, riff_size, data_size));
    let f = h + data;
    assert(p0.len() == 8 && p1.len() == 12 && p2.len() == 16 && p3.len() == 20 && p4.len() == 22);
    assert(p5.len() == 24 && p6.len() == 28 && p7.len() == 32 && p8.len() == 34 && p9.len() == 36);
    assert(p10.len() == 40 && h.len() == 44);
    // Every part of the header is a prefix of the file.
    assert forall|i: int| 0 <= i < 44 implies f[i] == h[i] by {}
    assert forall|i: int| 0 <= i < 40 implies h[i] == p10[i] by {}
    assert forall|i: int| 0 <= i < 36 implies p10[i] == p9[i] by {}
    assert forall|i: int| 0 <= i < 34 implies p9[i] == p8[i] by {}
    assert forall|i: int| 0 <= i < 32 implies p8[i] == p7[i] by {}
    assert forall|i: int| 0 <= i < 28 implies p7[i] == p6[i] by {}
    assert forall|i: int| 0 <= i < 24 implies p6[i] == p5[i] by {}
    assert forall|i: int| 0 <= i < 22 implies p5[i] == p4[i] by {}
    assert forall|i: int| 0 <= i < 20 implies p4[i] == p3[i] by {}
    assert forall|i: int| 0 <= i < 16 implies p3[i] == p2[i] by {}
    assert forall|i: int| 0 <= i < 12 implies p2[i] == p1[i] by {}
    assert forall|i: int| 0 <= i < 8 implies p1[i] == p0[i] by {}
    assert(tag_is(f, 0, RIFF)) by {
        assert(p0[0] == RIFF@[0] && p0[1] == RIFF@[1] && p0[2] == RIFF@[2] && p0[3] == RIFF@[3]);
    }
    assert(tag_is(f, 8, WAVE)) by {
        assert(p1[8] == WAVE@[0] && p1[9] == WAVE@[1] && p1[10] == WAVE@[2] && p1[11] == WAVE@[3]);
    }
    assert(tag_is(f, 12, FMT)) by {
        assert(p2[12] == FMT@[0] && p2[13] == FMT@[1] && p2[14] == FMT@[2] && p2[15] == FMT@[3]);
    }
    assert(tag_is(f, 36, DATA)) by {
        assert(p10[36] == DATA@[0] && p10[37] == DATA@[1] && p10[38] == DATA@[2] && p10[39]
            == DATA@[3]);
    }
    assert(f.subrange(16, 20) =~= bytes32(16));
    lemma_bytes32(f, 16, 16);
    assert(f.subrange(20, 22) =~= bytes16(format.format_tag()));
    lemma_bytes16(f, 20, format.format_tag());
    assert(f.subrange(22, 24) =~= bytes16(channels));
    lemma_bytes16(f, 22, channels);
    assert(f.subrange(24, 28) =~= bytes32(sample_rate));
    lemma_bytes32(f, 24, sample_rate);
    assert(f.subrange(34, 36) =~= bytes16(format.width()));
    lemma_bytes16(f, 34, format.width());
    assert(f.subrange(40, 44) =~= bytes32(data_size));
    lemma_bytes32(f, 40, data_size);
    assert(f.subrange(44, 44 + data.len() as int) =~= data);
}

/// A finished file reads back as one run of data in its own format.
proof fn lemma_file_chunks(
    sample_rate: u32,
    channels: u16,
    format: SampleFormat,
    data: Seq<u8>,
)
    requires
        36 + data.len() <= u32::MAX,
        data.len() % 2 == 0,
    ensures
        chunks_of(file_bytes(sample_rate, channels, format, data)) == Ok::<Chunks, WavError>(
            Chunks {
                sample_rate,
                channels,
                bits: format.width(),
                tag: format.format_tag(),
                data: Some((44usize, data.len() as usize)),
                ..no_chunks()
            },
        ),
        file_bytes(sample_rate, channels, format, data).len() == 44 + data.len(),
        file_bytes(sample_rate, channels, format, data).subrange(44, 44 + data.len() as int)
            == data,
{
    reveal(file_bytes);
    let n = data.len() as int;
    let f = file_bytes(sample_rate, channels, format, data);
    lemma_header_fields(
        sample_rate,
        channels,
        format,
        size_field(36 + n),
        size_field(n),
        data,
    );
    let c1 = Chunks {
        sample_rate,
        channels,
        bits: format.width(),
        tag: format.format_tag(),
        ..no_chunks()
    };
    let c2 = Chunks { data: Some((44usize, n as usize)), ..c1 };
    assert(with_chunk(f, 12, 16, no_chunks()) == Ok::<Chunks, WavError>(c1));
    assert(!tag_is(f, 36, FMT)) by {
        assert(f[36] == DATA[0]);
        assert(DATA[0] == 100 && FMT[0] == 102);
    }
    assert(with_chunk(f, 36, n, c1) == Ok::<Chunks, WavError>(c2));
    assert(scan(f, 44 + n, c2) == Ok::<Chunks, WavError>(c2));
    assert(padded(n) == n);
    assert(scan(f, 36, c1) == scan(f, 36 + 8 + padded(n), c2));
    assert(padded(16) == 16);
    assert(scan(f, 12, no_chunks()) == scan(f, 12 + 8 + padded(16), c1));
}

proof fn lemma_floats_decode(bits: Seq<u32>)
    ensures
        decoded(float_bytes(bits), 3, 32) == Some(SampleSeq::Single(bits)),
{
    let b = float_bytes(bits);
    let s = Seq::new((b.len() as int / 4) as nat, |i: int| le32(b, i * 4));
    assert(b.len() as int / 4 == bits.len());
    assert forall|i: int| 0 <= i < bits.len() implies s[i] == bits[i] by {
        assert(b.subrange(i * 4, i * 4 + 4) =~= bytes32(bits[i]));
        lemma_bytes32(b, i * 4, bits[i]);
    }
    assert(s =~= bits);
}

proof fn lemma_pcm_decodes(vals: Seq<i16>)
    ensures
        decoded(pcm_bytes(vals), 1, 16) == Some(
            SampleSeq::Int(vals.map_values(|v: i16| v as i32), 32768),
        ),
{
    let b = pcm_bytes(vals);
    let s = Seq::new(
        (b.len() as int / 2) as nat,
        |i: int| signed(le16(b, i * 2) as int, 0x1_0000),
    );
    let t = vals.map_values(|v: i16| v as i32);
    assert(b.len() as int / 2 == vals.len());
    assert forall|i: int| 0 <= i < vals.len() implies s[i] == t[i] by {
        assert(b.subrange(i * 2, i * 2 + 2) =~= bytes16(word16(vals[i])));
        lemma_bytes16(b, i * 2, word16(vals[i]));
    }
    assert(s =~= t);
}

/// A finished file holds what its data decodes to.
proof fn lemma_file_contents(
    sample_rate: u32,
    channels: u16,
    format: SampleFormat,
    data: Seq<u8>,
    s: SampleSeq,
)
    requires
        channels > 0,
        36 + data.len() <= u32::MAX,
        data.len() % 2 == 0,
        decoded(data, format.format_tag(), format.width()) == Some(s),
    ensures
        contents(file_bytes(sample_rate, channels, format, data)) == Ok::<WavFile, WavError>(
            WavFile {
                sample_rate,
                channels,
                interleaved: s,
                loop_points: None,
                root_key: None,
                pitch_fraction: 0,
            },
        ),
{
    lemma_file_chunks(sample_rate, channels, format, data);
}

/// A floating-point file reads back exactly: same rate, same channels, same
/// samples bit for bit.
pub proof fn law_float_file_reads_back(sample_rate: u32, channels: u16, bits: Seq<u32>)
    requires
        channels > 0,
        36 + bits.len() * 4 <= u32::MAX,
    ensures
        contents(
            file_bytes(sample_rate, channels, SampleFormat::Float32, float_bytes(bits)),
        ) == Ok::<WavFile, WavError>(
            WavFile {
                sample_rate,
                channels,
                interleaved: SampleSeq::Single(bits),
                loop_points: None,
                root_key: None,
                pitch_fraction: 0,
            },
        ),
{
    lemma_floats_decode(bits);
    lemma_file_contents(
        sample_rate,
        channels,
        SampleFormat::Float32,
        float_bytes(bits),
        SampleSeq::Single(bits),
    );
}

/// A 16-bit file reads back exactly.
pub proof fn law_pcm_file_reads_back(sample_rate: u32, channels: u16, vals: Seq<i16>)
    requires
        channels > 0,
        36 + vals.len() * 2 <= u32::MAX,
    ensures
        contents(
            file_bytes(sample_rate, channels, SampleFormat::Pcm16, pcm_bytes(vals)),
        ) == Ok::<WavFile, WavError>(
            WavFile {
                sample_rate,
                channels,
                interleaved: SampleSeq::Int(vals.map_values(|v: i16| v as i32), 32768),
                loop_points: None,
                root_key: None,
                pitch_fraction: 0,
            },
        ),
{
    lemma_pcm_decodes(vals);
    lemma_file_contents(
        sample_rate,
        channels,
        SampleFormat::Pcm16,
        pcm_bytes(vals),
        SampleSeq::Int(vals.map_values(|v: i16| v as i32), 32768),
    );
}

/// Patching the size fields touches nothing else: the header written at the
/// start and the finished one differ in bytes 4 to 7 and 40 to 43 alone.
pub proof fn law_patching_touches_the_sizes_alone(
    sample_rate: u32,
    channels: u16,
    format: SampleFormat,
    riff_size: u32,
    data_size: u32,
    i: int,
)
    requires
        0 <= i < 44,
        !(4 <= i < 8),
        !(40 <= i < 44),
    ensures
        header_bytes(sample_rate, channels, format, riff_size, data_size)[i] == header_bytes(
            sample_rate,
            channels,
            format,
            0,
            0,
        )[i],
{
    let rest = WAVE@ + FMT@ + bytes32(16) + bytes16(format.format_tag()) + bytes16(channels)
        + bytes32(sample_rate) + bytes32((sample_rate * block_align(channels, format)) as u32)
        + bytes16((block_align(channels, format) % 0x1_0000) as u16) + bytes16(format.width())
        + DATA@;
    assert(header_bytes(sample_rate, channels, format, riff_size, data_size) =~= RIFF@ + bytes32(
        riff_size,
    ) + rest + bytes32(data_size));
    assert(header_bytes(sample_rate, channels, format, 0, 0) =~= RIFF@ + bytes32(0) + rest
        + bytes32(0));
}

} // verus!
