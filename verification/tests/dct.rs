use stt_pncc::dct::{
    cos_phase_table, forward_passes, inverse_passes, transpose, Axis, Norm,
};

#[test]
fn transpose_rectangular() {
    let m: Vec<Vec<f64>> = vec![vec![1.0, 2.0, 3.0], vec![4.0, 5.0, 6.0]];
    let t = transpose(&m, 3);
    assert_eq!(t, vec![vec![1.0, 4.0], vec![2.0, 5.0], vec![3.0, 6.0]]);
    assert_eq!(transpose(&t, 2), m);
}

#[test]
fn transpose_empty_rows() {
    let m: Vec<Vec<f64>> = vec![];
    let t = transpose(&m, 4);
    assert_eq!(t, vec![Vec::<f64>::new(); 4]);
}

#[test]
fn cos_phase_table_entries() {
    let t = cos_phase_table(3);
    // row k, column j holds (2j + 1) * k
    assert_eq!(t, vec![0, 0, 0, 1, 3, 5, 2, 6, 10]);
    assert!(cos_phase_table(0).is_empty());
}

#[test]
fn cos_phase_table_matches_cosines() {
    let n = 4usize;
    let t = cos_phase_table(n);
    for k in 0..n {
        for j in 0..n {
            let direct = ((2 * j + 1) as f64 * k as f64 * std::f64::consts::PI / (2.0 * n as f64)).cos();
            let from_table = (t[k * n + j] as f64 * std::f64::consts::PI / (2.0 * n as f64)).cos();
            assert_eq!(direct, from_table);
        }
    }
}

#[test]
fn pass_orders() {
    assert_eq!(forward_passes(Axis::Rows), vec![Axis::Rows]);
    assert_eq!(forward_passes(Axis::Columns), vec![Axis::Columns]);
    assert_eq!(forward_passes(Axis::Both), vec![Axis::Rows, Axis::Columns]);
    assert_eq!(inverse_passes(Axis::Both), vec![Axis::Columns, Axis::Rows]);
    for axis in [Axis::Rows, Axis::Columns, Axis::Both] {
        let mut f = forward_passes(axis);
        f.reverse();
        assert_eq!(f, inverse_passes(axis));
    }
}

#[test]
fn norm_and_axis_compare() {
    assert_eq!(Norm::Ortho, Norm::Ortho);
    assert_ne!(Norm::Ortho, Norm::Backward);
    assert_ne!(Axis::Rows, Axis::Both);
}
