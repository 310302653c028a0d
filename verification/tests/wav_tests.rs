use mic_capture::errors::MicError;
use mic_capture::wav::{decode_wav, encode_wav};
use std::io::Cursor;

/// The container for one zero sample at 8000 Hz, byte for byte.
#[test]
fn encode_exact_bytes() {
    let bytes = encode_wav(8000, &vec![0i16]).unwrap();
    let expected: Vec<u8> = vec![
        0x52, 0x49, 0x46, 0x46, // "RIFF"
        38, 0, 0, 0, // riff chunk size: 36 + 2
        0x57, 0x41, 0x56, 0x45, // "WAVE"
        0x66, 0x6d, 0x74, 0x20, // "fmt "
        16, 0, 0, 0, // fmt chunk length
        1, 0, // linear PCM
        1, 0, // mono
        0x40, 0x1f, 0, 0, // 8000 Hz
        0x80, 0x3e, 0, 0, // byte rate 16000
        2, 0, // block align
        16, 0, // bits per sample
        0x64, 0x61, 0x74, 0x61, // "data"
        2, 0, 0, 0, // data size
        0, 0, // the sample
    ];
    assert_eq!(bytes, expected);
}

/// Negative samples are stored in two's complement, little-endian.
#[test]
fn encode_negative_sample() {
    let bytes = encode_wav(8000, &vec![-2i16]).unwrap();
    assert_eq!(&bytes[44..], &[0xfe, 0xff]);
}

/// Decoding an encoded container recovers the rate and every sample exactly.
#[test]
fn round_trip_exact() {
    let samples: Vec<i16> = vec![0, 1, -1, 1000, -1000, 32767, -32768, 12345, -12345];
    let bytes = encode_wav(44100, &samples).unwrap();
    let (rate, decoded) = decode_wav(&bytes).unwrap();
    assert_eq!(rate, 44100);
    assert_eq!(decoded, samples);
}

/// An independent reader parses the container the same way: same channel
/// count, sample rate, bit depth and samples.
#[test]
fn container_is_readable_by_hound() {
    let samples: Vec<i16> = vec![0, 1000, -1000, 32767, -32768];
    let bytes = encode_wav(22050, &samples).unwrap();
    let mut reader = hound::WavReader::new(Cursor::new(bytes)).unwrap();
    let spec = reader.spec();
    assert_eq!(spec.channels, 1);
    assert_eq!(spec.sample_rate, 22050);
    assert_eq!(spec.bits_per_sample, 16);
    let decoded: Vec<i16> = reader.samples::<i16>().map(|s| s.unwrap()).collect();
    assert_eq!(decoded, samples);
}

/// A container written by an independent writer decodes with `decode_wav`.
#[test]
fn hound_container_is_decodable() {
    let spec = hound::WavSpec {
        channels: 1,
        sample_rate: 16000,
        bits_per_sample: 16,
        sample_format: hound::SampleFormat::Int,
    };
    let mut cursor = Cursor::new(Vec::new());
    let mut writer = hound::WavWriter::new(&mut cursor, spec).unwrap();
    for s in [5i16, -5, 300] {
        writer.write_sample(s).unwrap();
    }
    writer.finalize().unwrap();
    let (rate, decoded) = decode_wav(&cursor.into_inner()).unwrap();
    assert_eq!(rate, 16000);
    assert_eq!(decoded, vec![5, -5, 300]);
}

/// Floating-point audio survives the 16-bit quantization within one step:
/// clamping and scaling to 16 bits, encoding, and decoding recovers each
/// sample within 1/32767 of full scale.
#[test]
fn quantization_round_trip() {
    let input: Vec<f32> = vec![0.0, 0.25, -0.25, 0.999, -0.999, 1.5, -1.5, 0.0123];
    let quantized: Vec<i16> =
        input.iter().map(|&x| (x.clamp(-1.0, 1.0) * 32767.0) as i16).collect();
    let bytes = encode_wav(48000, &quantized).unwrap();
    let (_, decoded) = decode_wav(&bytes).unwrap();
    assert_eq!(decoded.len(), input.len());
    for (d, x) in decoded.iter().zip(input.iter()) {
        let back = *d as f32 / 32767.0;
        assert!((back - x.clamp(-1.0, 1.0)).abs() <= 1.0 / 32767.0);
    }
}

/// An empty segment is rejected as `EmptyInput`.
#[test]
fn empty_input_is_rejected() {
    assert_eq!(encode_wav(16000, &Vec::new()), Err(MicError::EmptyInput));
}

/// A corrupted container does not decode.
#[test]
fn corrupt_container_is_rejected() {
    let mut bytes = encode_wav(8000, &vec![1i16, 2, 3]).unwrap();
    bytes[0] = 0x53; // not "RIFF" any more
    assert!(decode_wav(&bytes).is_none());
    assert!(decode_wav(&vec![0u8; 10]).is_none());
}
