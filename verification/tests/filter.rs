use stt_pncc::filter::filter_taps;

#[test]
fn filter_tap_counts() {
    // two feed-forward, one feedback coefficient
    assert_eq!(filter_taps(0, 2, 1), (1, 0));
    assert_eq!(filter_taps(1, 2, 1), (2, 1));
    assert_eq!(filter_taps(5, 2, 1), (2, 1));
    assert_eq!(filter_taps(3, 10, 10), (4, 3));
}

#[test]
fn fir_moving_average_through_taps() {
    // y[i] = 0.5 x[i] + 0.5 x[i-1]
    let b = [0.5f64, 0.5];
    let x = [1.0f64, 2.0, 3.0, 4.0];
    let y: Vec<f64> = (0..x.len())
        .map(|i| {
            let (nb, _) = filter_taps(i, b.len(), 0);
            (0..nb).map(|j| b[j] * x[i - j]).sum()
        })
        .collect();
    assert_eq!(y, vec![0.5, 1.5, 2.5, 3.5]);
}
