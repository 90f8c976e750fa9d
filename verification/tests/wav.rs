use kestrel::wav::{
    decode_samples, read, take_channel, SampleFormat, Samples, WavData, WavError, WavWriter,
};

fn file(format: SampleFormat, channels: u16, body: impl Fn(&mut WavWriter) -> Vec<u8>) -> Vec<u8> {
    let (mut w, mut out) = WavWriter::create(48000, channels, format);
    let data = body(&mut w);
    out.extend_from_slice(&data);
    let p = w.finish().unwrap();
    assert!(!p.saturated);
    out[4..8].copy_from_slice(&p.riff_size.to_le_bytes());
    out[40..44].copy_from_slice(&p.data_size.to_le_bytes());
    out
}

fn fails(b: &[u8]) -> WavError {
    match read(b) {
        Ok(_) => panic!("accepted"),
        Err(e) => e,
    }
}

fn ok(b: &[u8]) -> WavData {
    match read(b) {
        Ok(w) => w,
        Err(e) => panic!("{e:?}"),
    }
}

#[test]
fn formats() {
    assert_eq!(SampleFormat::parse("S16"), Some(SampleFormat::Pcm16));
    assert_eq!(SampleFormat::parse("float"), Some(SampleFormat::Float32));
    assert_eq!(SampleFormat::parse("24"), None);
    let p = SampleFormat::Pcm16;
    assert_eq!((p.bits(), p.tag(), p.bytes()), (16, 1, 2));
    let f = SampleFormat::Float32;
    assert_eq!((f.bits(), f.tag(), f.bytes()), (32, 3, 4));
}

#[test]
fn the_header_is_plain() {
    let (_, h) = WavWriter::create(44100, 2, SampleFormat::Pcm16);
    assert_eq!(h.len(), 44);
    assert_eq!(&h[0..4], b"RIFF");
    assert_eq!(&h[8..16], b"WAVEfmt ");
    assert_eq!(&h[16..24], &[16, 0, 0, 0, 1, 0, 2, 0]);
    assert_eq!(&h[24..28], &44100u32.to_le_bytes());
    assert_eq!(&h[28..32], &176400u32.to_le_bytes());
    assert_eq!(&h[32..36], &[4, 0, 16, 0]);
    assert_eq!(&h[36..40], b"data");
}

#[test]
fn floats_read_back() {
    let bits: Vec<u32> = [0.5f32, -1.0, 0.25, 1e-9].iter().map(|v| v.to_bits()).collect();
    let b = file(SampleFormat::Float32, 2, |w| {
        let mut d = w.encode_floats(&bits[..2].to_vec());
        d.extend(w.encode_floats(&bits[2..].to_vec()));
        assert_eq!(w.frames_written(), 2);
        d
    });
    let w = ok(&b);
    assert_eq!((w.sample_rate, w.channels, w.frames()), (48000, 2, 2));
    match &w.interleaved {
        Samples::Single(v) => {
            assert_eq!(*v, bits);
            assert_eq!(take_channel(v, 2, 1), vec![bits[1], bits[3]]);
            assert_eq!(take_channel(v, 2, 9), vec![bits[1], bits[3]]);
        }
        _ => panic!("single precision"),
    }
}

#[test]
fn pcm_reads_back() {
    let vals = vec![0i16, -1, 32767, -32768];
    let b = file(SampleFormat::Pcm16, 1, |w| w.encode_pcm(&vals));
    let w = ok(&b);
    assert_eq!(w.frames(), 4);
    match &w.interleaved {
        Samples::Int(v, scale) => {
            assert_eq!(*v, vals.iter().map(|x| *x as i32).collect::<Vec<i32>>());
            assert_eq!(*scale, 32768);
        }
        _ => panic!("whole numbers"),
    }
    assert_eq!((w.loop_points, w.root_key, w.pitch_fraction), (None, None, 0));
}

#[test]
fn every_encoding_is_decoded() {
    match decode_samples(&[0, 128, 255], 1, 8) {
        Ok(Samples::Int(v, s)) => assert_eq!((v, s), (vec![-128, 0, 127], 128)),
        _ => panic!("8 bit"),
    }
    match decode_samples(&[1, 0, 0, 0xff, 0xff, 0xff, 9], 1, 24) {
        Ok(Samples::Int(v, s)) => assert_eq!((v, s), (vec![1, -1], 8_388_608)),
        _ => panic!("24 bit"),
    }
    match decode_samples(&[0, 0, 0, 0x80], 1, 32) {
        Ok(Samples::Int(v, s)) => assert_eq!((v, s), (vec![i32::MIN], 0x8000_0000)),
        _ => panic!("32 bit"),
    }
    match decode_samples(&1.5f64.to_le_bytes(), 3, 64) {
        Ok(Samples::Double(v)) => assert_eq!(v, vec![1.5f64.to_bits()]),
        _ => panic!("double"),
    }
    assert!(matches!(decode_samples(&[], 1, 12), Err(WavError::Unsupported)));
    assert!(matches!(decode_samples(&[], 2, 16), Err(WavError::Unsupported)));
}

#[test]
fn the_sampler_chunk_is_read() {
    let mut b = file(SampleFormat::Pcm16, 1, |w| w.encode_pcm(&vec![1, 2]));
    b.extend_from_slice(b"smpl");
    b.extend_from_slice(&60u32.to_le_bytes());
    let mut c = vec![0u8; 60];
    c[20..24].copy_from_slice(&61u32.to_le_bytes());
    c[24..28].copy_from_slice(&0x8000_0000u32.to_le_bytes());
    c[28..32].copy_from_slice(&1u32.to_le_bytes());
    c[44..48].copy_from_slice(&3u32.to_le_bytes());
    c[48..52].copy_from_slice(&9u32.to_le_bytes());
    b.extend_from_slice(&c);
    let w = ok(&b);
    assert_eq!(w.loop_points, Some((3, 9)));
    assert_eq!(w.root_key, Some(61));
    assert_eq!(w.pitch_fraction, 0x8000_0000);
}

#[test]
fn the_extensible_tag_is_followed() {
    let mut b = Vec::new();
    b.extend_from_slice(b"RIFF\0\0\0\0WAVEfmt ");
    b.extend_from_slice(&40u32.to_le_bytes());
    b.extend_from_slice(&0xfffeu16.to_le_bytes());
    b.extend_from_slice(&1u16.to_le_bytes());
    b.extend_from_slice(&8000u32.to_le_bytes());
    b.extend_from_slice(&[0; 6]);
    b.extend_from_slice(&32u16.to_le_bytes());
    b.extend_from_slice(&[0; 8]);
    b.extend_from_slice(&3u16.to_le_bytes());
    b.extend_from_slice(&[0; 14]);
    b.extend_from_slice(b"junk");
    b.extend_from_slice(&1u32.to_le_bytes());
    b.extend_from_slice(&[7, 0]);
    b.extend_from_slice(b"data");
    b.extend_from_slice(&4u32.to_le_bytes());
    b.extend_from_slice(&2.5f32.to_le_bytes());
    let w = ok(&b);
    match w.interleaved {
        Samples::Single(v) => assert_eq!(v, vec![2.5f32.to_bits()]),
        _ => panic!("single precision"),
    }
}

#[test]
fn bad_files_are_told_apart() {
    let good = file(SampleFormat::Pcm16, 1, |w| w.encode_pcm(&vec![1, 2]));
    assert_eq!(fails(&[]), WavError::Truncated);
    assert_eq!(fails(b"RIFX\0\0\0\0WAVE"), WavError::NotRiff);
    assert_eq!(fails(b"RIFF\0\0\0\0WAVX"), WavError::NotWave);
    assert_eq!(fails(b"RIFF\0\0\0\0WAVE"), WavError::NoData);
    assert_eq!(fails(&good[..good.len() - 1]), WavError::Truncated);
    let mut long = good.clone();
    long[40..44].copy_from_slice(&1_000_000u32.to_le_bytes());
    assert_eq!(fails(&long), WavError::ChunkTooLong);
    let mut odd = good.clone();
    odd[20] = 9;
    assert_eq!(fails(&odd), WavError::Unsupported);
    let mut bare = good[..12].to_vec();
    bare.extend_from_slice(&good[36..]);
    assert_eq!(fails(&bare), WavError::NoFormat);
}

#[test]
fn sizes_saturate_and_finishing_is_once() {
    let (mut w, _) = WavWriter::create(48000, 2, SampleFormat::Float32);
    w.data_bytes = 5_000_000_000;
    let p = w.finish().unwrap();
    assert_eq!((p.riff_size, p.data_size, p.saturated), (u32::MAX, u32::MAX, true));
    assert_eq!(w.finish(), None);
}
