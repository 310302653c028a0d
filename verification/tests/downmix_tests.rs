use mic_capture::downmix::downmix;

/// Stereo frames are averaged into one mono sample each.
#[test]
fn stereo_is_averaged() {
    let data: Vec<i16> = vec![100, 200, -100, -300, 0, 5];
    assert_eq!(downmix(&data, 2), vec![150, -200, 2]);
}

/// Averages round toward zero, for negative frames too.
#[test]
fn average_rounds_toward_zero() {
    assert_eq!(downmix(&vec![1, 2], 2), vec![1]);
    assert_eq!(downmix(&vec![-1, -2], 2), vec![-1]);
    assert_eq!(downmix(&vec![-1, 2], 2), vec![0]);
}

/// Mono input passes through unchanged.
#[test]
fn mono_passes_through() {
    let data: Vec<i16> = vec![7, -7, 32767, -32768];
    assert_eq!(downmix(&data, 1), data);
}

/// A trailing partial frame is dropped.
#[test]
fn partial_frame_is_dropped() {
    let data: Vec<i16> = vec![10, 20, 30];
    assert_eq!(downmix(&data, 2), vec![15]);
}

/// Full-scale frames stay in range.
#[test]
fn full_scale_stays_in_range() {
    assert_eq!(downmix(&vec![-32768, -32768], 2), vec![-32768]);
    assert_eq!(downmix(&vec![32767, 32767], 2), vec![32767]);
}
