use mic_capture::vad::VadState;

fn frames(value: i16, count: usize, hop: usize) -> Vec<i16> {
    vec![value; count * hop]
}

/// Feeding 50 frames of silence, then 20 frames above the threshold, then 45
/// frames of silence yields exactly one segment: the 10-frame lead-in window,
/// the 20 speech frames, and the 150 ms retained tail.
#[test]
fn scenario_one_utterance() {
    let mut vad = VadState::new(16000);
    let mut segments = Vec::new();
    segments.extend(vad.feed(&frames(0, 50, 1024)));
    // RMS of a constant frame is its amplitude: 656 of 32767 is about 2%,
    // above the 1.5% threshold of 491.
    segments.extend(vad.feed(&frames(656, 20, 1024)));
    segments.extend(vad.feed(&frames(0, 45, 1024)));
    assert_eq!(segments.len(), 1);
    // keep = 16000 * 15 / 100 = 2400 samples of the closing silence
    assert_eq!(segments[0].len(), 10 * 1024 + 20 * 1024 + 2400);
    // the lead-in window is the retained silence
    assert!(segments[0][..10240].iter().all(|&s| s == 0));
    // then the speech
    assert!(segments[0][10240..10240 + 20480].iter().all(|&s| s == 656));
    // then the retained tail of the closing silence
    assert!(segments[0][10240 + 20480..].iter().all(|&s| s == 0));
}

/// A silent input never emits a segment, over many feed calls.
#[test]
fn silence_never_emits() {
    let mut vad = VadState::new(16000);
    for _ in 0..20 {
        let segments = vad.feed(&frames(0, 7, 1024));
        assert!(segments.is_empty());
    }
}

/// A below-threshold gap shorter than the close length does not split an
/// utterance: speech, a 39-frame gap, and more speech come out as one segment.
#[test]
fn short_gap_keeps_one_utterance() {
    let mut vad = VadState::new(16000);
    let mut segments = Vec::new();
    segments.extend(vad.feed(&frames(656, 10, 1024)));
    segments.extend(vad.feed(&frames(0, 39, 1024)));
    segments.extend(vad.feed(&frames(656, 10, 1024)));
    assert!(segments.is_empty());
    // now close it: exactly one segment holding both runs and the gap
    segments.extend(vad.feed(&frames(0, 40, 1024)));
    assert_eq!(segments.len(), 1);
    // empty lead-in + 10 speech + 39 gap + 10 speech + 2400 tail samples
    assert_eq!(segments[0].len(), (10 + 39 + 10) * 1024 + 2400);
}

/// Exactly `silence_chunks_needed` silence frames close an utterance; one
/// frame fewer does not.
#[test]
fn close_needs_exact_silence_run() {
    let mut vad = VadState::new(16000);
    assert!(vad.feed(&frames(656, 6, 1024)).is_empty());
    assert!(vad.feed(&frames(0, 39, 1024)).is_empty());
    // the 40th silence frame closes and emits
    let segments = vad.feed(&frames(0, 1, 1024));
    assert_eq!(segments.len(), 1);
}

/// An utterance with fewer speech frames than the minimum is discarded at
/// the close, even though the silence close itself is valid.
#[test]
fn short_utterance_is_discarded() {
    let mut vad = VadState::new(16000);
    assert!(vad.feed(&frames(656, 4, 1024)).is_empty());
    let segments = vad.feed(&frames(0, 40, 1024));
    assert!(segments.is_empty());
    // and the engine is idle again: new speech starts a fresh utterance
    assert!(vad.feed(&frames(656, 6, 1024)).is_empty());
    let segments = vad.feed(&frames(0, 40, 1024));
    assert_eq!(segments.len(), 1);
}

/// An emitted segment begins with the lead-in audio that preceded the first
/// above-threshold frame, up to the window length.
#[test]
fn segment_begins_with_lead_in() {
    let mut vad = VadState::new(16000);
    // a recognizable non-zero (but below-threshold) lead-in: amplitude 3
    assert!(vad.feed(&frames(3, 12, 1024)).is_empty());
    assert!(vad.feed(&frames(656, 6, 1024)).is_empty());
    let segments = vad.feed(&frames(0, 40, 1024));
    assert_eq!(segments.len(), 1);
    // the window holds only the most recent 10 frames of the 12
    assert!(segments[0][..10240].iter().all(|&s| s == 3));
    assert_eq!(segments[0][10240], 656);
}

/// A continuous above-threshold run longer than the duration cap is
/// force-split into segments, each within one frame of the cap.
#[test]
fn long_run_is_force_split() {
    // with an 80 Hz rate the cap is 2400 samples; one frame is 1024, so a
    // segment is emitted every third speech frame (3 * 1024 > 2400)
    let mut vad = VadState::with_tuning(80, 1024, 491, 1310, 40, 5, 0);
    let segments = vad.feed(&frames(656, 7, 1024));
    assert_eq!(segments.len(), 2);
    assert_eq!(segments[0].len(), 3 * 1024);
    assert_eq!(segments[1].len(), 3 * 1024);
    assert!(segments[0].len() <= 2400 + 1024);
}

/// Partial frames are carried across feed calls: samples arrive in chunks
/// that do not line up with the analysis frame size.
#[test]
fn carry_buffer_spans_chunks() {
    let mut vad = VadState::new(16000);
    let mut segments = Vec::new();
    // 6 speech frames delivered in 500-sample chunks
    let speech = frames(656, 6, 1024);
    for chunk in speech.chunks(500) {
        segments.extend(vad.feed(&chunk.to_vec()));
    }
    let silence = frames(0, 41, 1024);
    for chunk in silence.chunks(700) {
        segments.extend(vad.feed(&chunk.to_vec()));
    }
    assert_eq!(segments.len(), 1);
}

/// Encoded feeding produces one base64 clip per completed segment.
#[test]
fn feed_encoded_emits_clips() {
    let mut vad = VadState::new(16000);
    assert!(vad.feed_encoded(&frames(656, 6, 1024)).is_empty());
    let clips = vad.feed_encoded(&frames(0, 40, 1024));
    assert_eq!(clips.len(), 1);
    assert!(!clips[0].is_empty());
    // base64 of the container: 4 characters per started 3-byte group
    let samples = 6 * 1024 + 40 * 1024 - (40 * 1024 - 2400);
    let bytes = 44 + 2 * samples;
    assert_eq!(clips[0].len(), 4 * ((bytes + 2) / 3));
}

/// An empty chunk is accepted and does nothing.
#[test]
fn empty_chunk_is_no_op() {
    let mut vad = VadState::new(16000);
    assert!(vad.feed(&Vec::new()).is_empty());
    assert_eq!(vad.sample_rate(), 16000);
}
