use stt_pncc::framing::{frame_count, frame_signal};

#[test]
fn frame_count_one_second_at_16k() {
    // 400-sample frames every 160 samples over 16000 samples.
    assert_eq!(frame_count(16000, 400, 160), Some(99));
}

#[test]
fn frame_count_short_signal_gives_one_frame() {
    assert_eq!(frame_count(100, 400, 160), Some(1));
}

#[test]
fn frame_count_exact_zero_gives_no_frame() {
    assert_eq!(frame_count(240, 400, 160), Some(0));
}

#[test]
fn frame_count_zero_hop_is_unbounded() {
    assert_eq!(frame_count(500, 400, 0), None);
    assert_eq!(frame_count(100, 400, 0), Some(1));
    assert_eq!(frame_count(400, 400, 0), Some(0));
}

#[test]
fn frame_count_too_many_frames() {
    let len = (u32::MAX as usize) * 2;
    assert_eq!(frame_count(len, 0, 1), None);
    assert_eq!(frame_count(u32::MAX as usize, 1, 1), Some(u32::MAX));
}

#[test]
fn frame_count_exact_division() {
    // (10 - 4 + 2) / 2 = 4 frames
    assert_eq!(frame_count(10, 4, 2), Some(4));
    // (11 - 4 + 2) / 2 = 4.5 -> 5 frames
    assert_eq!(frame_count(11, 4, 2), Some(5));
}

#[test]
fn frame_signal_overlapping_frames() {
    let signal: Vec<f64> = vec![1.0, 2.0, 3.0, 4.0, 5.0];
    let frames = frame_signal(&signal, 3, 2, 3, 0.0);
    assert_eq!(frames.len(), 3);
    assert_eq!(frames[0], vec![1.0, 2.0, 3.0]);
    assert_eq!(frames[1], vec![3.0, 4.0, 5.0]);
    assert_eq!(frames[2], vec![5.0, 0.0, 0.0]);
}

#[test]
fn frame_signal_frame_past_the_end() {
    let signal: Vec<f64> = vec![1.0, 2.0];
    let frames = frame_signal(&signal, 4, 1, 1, 0.0);
    assert_eq!(frames, vec![vec![1.0, 2.0, 0.0, 0.0]]);
}

#[test]
fn frame_signal_no_frames_and_empty_frames() {
    let signal: Vec<f64> = vec![1.0, 2.0];
    assert!(frame_signal(&signal, 4, 1, 0, 0.0).is_empty());
    let frames = frame_signal(&signal, 0, 1, 2, 0.0);
    assert_eq!(frames, vec![Vec::<f64>::new(), Vec::new()]);
}

#[test]
fn frames_cover_every_sample() {
    let signal: Vec<u32> = (0..1000).collect();
    let n = frame_count(signal.len(), 400, 160).unwrap() as usize;
    let frames = frame_signal(&signal, 400, 160, n, u32::MAX);
    for i in 0..signal.len() as u32 {
        assert!(frames.iter().any(|f| f.contains(&i)), "sample {i} missing");
    }
}
