use stt_pncc::medium_time::{pad_rows, smoothing_window, window_length};

#[test]
fn pad_rows_both_sides() {
    let x: Vec<Vec<f64>> = vec![vec![1.0, 2.0], vec![3.0, 4.0]];
    let padded = pad_rows(&x, 2, 1, 0.0);
    assert_eq!(
        padded,
        vec![vec![0.0, 0.0], vec![1.0, 2.0], vec![3.0, 4.0], vec![0.0, 0.0]]
    );
    assert_eq!(pad_rows(&x, 2, 0, 0.0), x);
}

#[test]
fn medium_time_window_average() {
    // average of rows i-m ..= i+m with zeros outside, m = 1
    let x: Vec<Vec<f64>> = vec![vec![3.0], vec![6.0], vec![9.0]];
    let m = 1;
    let padded = pad_rows(&x, 1, m, 0.0);
    let len = window_length(m);
    assert_eq!(len, 3);
    let avg: Vec<f64> = (0..x.len())
        .map(|i| (0..len).map(|k| padded[i + k][0]).sum::<f64>() / len as f64)
        .collect();
    assert_eq!(avg, vec![3.0, 6.0, 5.0]);
}

#[test]
fn smoothing_windows() {
    // channels max(l - n, 0) ..= min(l + n, n_filts - 1), and their number
    assert_eq!(smoothing_window(0, 4, 40), (0, 5, 5));
    assert_eq!(smoothing_window(10, 4, 40), (6, 15, 9));
    assert_eq!(smoothing_window(38, 4, 40), (34, 40, 6));
    assert_eq!(smoothing_window(39, 4, 40), (35, 40, 5));
    assert_eq!(smoothing_window(3, 0, 40), (3, 4, 1));
    // channel past the filters and out of reach: empty range
    assert_eq!(smoothing_window(45, 4, 40), (41, 40, 0));
}

#[test]
fn smoothing_of_equal_ratios_is_one() {
    // every ratio equal to 1: the average is 1 for every channel
    let n_filts = 40;
    for n in 0..6usize {
        for l in 0..n_filts {
            let (lo, hi, count) = smoothing_window(l, n, n_filts);
            let sum: f64 = (lo..hi).map(|_| 1.0).sum();
            assert_eq!(sum / count as f64, 1.0, "channel {l}, n {n}");
        }
    }
}
