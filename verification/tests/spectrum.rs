use stt_pncc::spectrum::{bin_count, take_columns, zero_pad_rows};
use stt_pncc::window::WindowType;
use stt_pncc::PNCC_NUM_CEPS;

#[test]
fn bin_counts() {
    assert_eq!(bin_count(1024), 513);
    assert_eq!(bin_count(7), 4);
    assert_eq!(bin_count(0), 1);
}

#[test]
fn zero_pad_frames() {
    let frames: Vec<Vec<f64>> = vec![vec![1.0, 2.0], vec![3.0, 4.0]];
    let padded = zero_pad_rows(&frames, 2, 4, 0.0);
    assert_eq!(padded, vec![vec![1.0, 2.0, 0.0, 0.0], vec![3.0, 4.0, 0.0, 0.0]]);
    assert_eq!(zero_pad_rows(&frames, 2, 2, 0.0), frames);
}

#[test]
fn take_leading_columns() {
    let m: Vec<Vec<f64>> = vec![vec![1.0, 2.0, 3.0], vec![4.0, 5.0, 6.0]];
    assert_eq!(take_columns(&m, 3, 2), vec![vec![1.0, 2.0], vec![4.0, 5.0]]);
    assert_eq!(take_columns(&m, 3, 0), vec![Vec::<f64>::new(), Vec::new()]);
    assert_eq!(take_columns(&m, 3, 3), m);
}

#[test]
fn default_cepstra_and_windows() {
    assert_eq!(PNCC_NUM_CEPS, 13);
    assert_ne!(WindowType::Hamming, WindowType::Hann);
    assert_eq!(WindowType::Blackman, WindowType::Blackman);
    assert_ne!(WindowType::Zero, WindowType::Blackman);
}

#[test]
fn zero_pad_no_frames() {
    let frames: Vec<Vec<f64>> = vec![];
    assert!(zero_pad_rows(&frames, 8, 4, 0.0).is_empty());
}
