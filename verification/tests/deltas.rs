use stt_pncc::deltas::{delta_norm, neighbour_frames};

#[test]
fn delta_norm_small_values() {
    assert_eq!(delta_norm(0), 0);
    assert_eq!(delta_norm(1), 2);
    assert_eq!(delta_norm(2), 10);
    assert_eq!(delta_norm(3), 28);
}

#[test]
fn delta_norm_matches_closed_form() {
    for h in 0..200u128 {
        assert_eq!(delta_norm(h as usize), h * (h + 1) * (2 * h + 1) / 3);
    }
}

#[test]
fn delta_norm_large_half_width() {
    let h: u128 = 1 << 20;
    assert_eq!(delta_norm(h as usize), h * (h + 1) * (2 * h + 1) / 3);
}

#[test]
fn neighbour_frames_interior_and_edges() {
    assert_eq!(neighbour_frames(10, 5, 2), (3, 7));
    assert_eq!(neighbour_frames(10, 1, 2), (0, 3));
    assert_eq!(neighbour_frames(10, 9, 2), (7, 9));
    assert_eq!(neighbour_frames(1, 0, 3), (0, 0));
}

#[test]
fn ramp_delta_is_one_in_the_interior() {
    // ceps[f] = f, win = 5 -> h = 2
    let n = 20usize;
    let h = 5 / 2;
    let norm = delta_norm(h) as i64;
    for f in h..n - h {
        let mut num: i64 = 0;
        for k in 1..=h {
            let (prev, next) = neighbour_frames(n, f, k);
            num += k as i64 * (next as i64 - prev as i64);
        }
        assert_eq!(num, norm, "frame {f}");
    }
}

#[test]
fn ramp_delta_is_smaller_at_the_edges() {
    let n = 20usize;
    let h = 2;
    let norm = delta_norm(h) as i64;
    let mut num: i64 = 0;
    for k in 1..=h {
        let (prev, next) = neighbour_frames(n, 0, k);
        num += k as i64 * (next as i64 - prev as i64);
    }
    assert_eq!(num, 5);
    assert!(num < norm);
}
