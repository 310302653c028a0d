use base64::Engine;
use mic_capture::encode::samples_to_wav_b64;
use mic_capture::errors::MicError;
use mic_capture::wav::encode_wav;

/// The clip is the standard padded base64 of the container bytes — checked
/// against an independent encoding of independently assembled bytes, so a
/// transport step that handed its input through unchanged would fail.
#[test]
fn clip_is_base64_of_container() {
    let samples: Vec<i16> = vec![0, 700, -700, 15000];
    let clip = samples_to_wav_b64(8000, &samples).unwrap();
    let container = encode_wav(8000, &samples).unwrap();
    let expected = base64::engine::general_purpose::STANDARD.encode(&container);
    assert_eq!(clip, expected);
    assert_ne!(clip.as_bytes(), container.as_slice());
}

/// A one-sample clip, spelled out: 46 container bytes become 64 characters.
#[test]
fn clip_length_is_padded_base64() {
    let clip = samples_to_wav_b64(8000, &vec![0i16]).unwrap();
    assert_eq!(clip.len(), 4 * ((46 + 2) / 3));
    assert!(clip.chars().all(|c| c.is_ascii_alphanumeric() || c == '+' || c == '/' || c == '='));
}

/// An empty segment is rejected as `EmptyInput`, as the encoder contract says.
#[test]
fn empty_segment_is_rejected() {
    assert!(matches!(samples_to_wav_b64(16000, &Vec::new()), Err(MicError::EmptyInput)));
}
