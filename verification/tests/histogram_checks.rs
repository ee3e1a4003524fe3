use hlanalysis::analysis::orient_dist::oh_bond_orient::accumulate_angle_bins_along_normal;
use hlanalysis::utils::histogram::generate_bins::{
    generate_angle_bins_along_normal, generate_angle_pair_bins_along_normal,
    generate_angle_pair_bins_for_normal_range, generate_dipole_angle_bins_along_normal,
    generate_oh_angle_bins_along_normal,
};
use hlanalysis::utils::histogram::histogram_1d::histogram_1d;
use hlanalysis::utils::order_key::{find_bin, le, lt, OrderKey};

/// The order key of a float: NaN has none; otherwise an integer that
/// orders as the float does (with -0.0 taken as 0.0).
fn key(x: f64) -> OrderKey {
    if x.is_nan() {
        None
    } else {
        let b = (x + 0.0).to_bits() as i64;
        Some(if b >= 0 { b } else { -(b & i64::MAX) })
    }
}

fn keys(xs: &[f64]) -> Vec<OrderKey> {
    xs.iter().map(|x| key(*x)).collect()
}

#[test]
fn keys_order_as_floats() {
    let xs = [-1e300, -2.5, -1.0, -0.0, 0.0, 1e-300, 0.5, 1.0, 7.25, f64::INFINITY];
    for a in xs.iter() {
        for b in xs.iter() {
            assert_eq!(le(key(*a), key(*b)), a <= b);
            assert_eq!(lt(key(*a), key(*b)), a < b);
        }
        assert!(!le(key(f64::NAN), key(*a)));
        assert!(!lt(key(*a), key(f64::NAN)));
    }
}

#[test]
fn histogram_counts_right_open_bins() {
    let data = keys(&[0.0, 0.5, 1.0, 1.5, 2.0, 2.0, -1.0, 3.0, f64::NAN]);
    let bins = keys(&[0.0, 1.0, 2.0, 3.0]);
    let (counts, edges) = histogram_1d(data, bins.clone());
    assert_eq!(counts, vec![2, 2, 2]);
    assert_eq!(edges, bins);
}

#[test]
fn histogram_counts_first_bin_only() {
    // Unsorted edges: a value is counted in the first bin that holds it.
    let data = keys(&[1.5]);
    let bins = keys(&[0.0, 2.0, 1.0, 3.0]);
    let (counts, _) = histogram_1d(data, bins);
    assert_eq!(counts, vec![1, 0, 0]);
}

#[test]
fn histogram_is_additive_over_frames() {
    let bins = keys(&[0.0, 1.0, 2.0]);
    let a = keys(&[0.1, 1.2, 1.9]);
    let b = keys(&[0.7, 0.8, 5.0]);
    let mut ab = a.clone();
    ab.extend(b.iter().cloned());
    let (ca, _) = histogram_1d(a, bins.clone());
    let (cb, _) = histogram_1d(b, bins.clone());
    let (cab, _) = histogram_1d(ab, bins);
    for k in 0..2 {
        assert_eq!(cab[k], ca[k] + cb[k]);
    }
}

#[test]
fn find_bin_edges() {
    let bins = keys(&[0.0, 1.0, 2.0]);
    assert_eq!(find_bin(key(0.0), &bins), Some(0));
    assert_eq!(find_bin(key(1.0), &bins), Some(1));
    assert_eq!(find_bin(key(2.0), &bins), None);
    assert_eq!(find_bin(key(f64::NAN), &bins), None);
    assert_eq!(find_bin(key(0.5), &Vec::new()), None);
}

#[test]
fn angles_are_grouped_by_height() {
    let z = Some(keys(&[0.5, 9.0, 1.5, 2.5]));
    let bins = keys(&[0.0, 1.0, 2.0]);
    let angles: Vec<(i32, i32, f64)> = vec![(0, 1, 10.0), (2, 3, 20.0), (3, 1, 30.0), (0, 2, 40.0)];
    let g = generate_angle_bins_along_normal(&z, &angles, &bins, 2);
    assert_eq!(g, vec![vec![10.0, 40.0], vec![20.0]]);
    let g2 = generate_oh_angle_bins_along_normal(&z, &angles, &bins, 2);
    assert_eq!(g2, g);
    let none = generate_angle_bins_along_normal(&None, &angles, &bins, 2);
    assert_eq!(none, vec![Vec::<f64>::new(), Vec::new()]);
    let water: Vec<(i32, i32, i32, f64)> = vec![(2, 0, 1, 5.0), (0, 1, 2, 6.0)];
    assert_eq!(generate_dipole_angle_bins_along_normal(&z, &water, &bins, 2), vec![vec![6.0], vec![5.0]]);
    let pairs: Vec<(i32, i32, i32, f64, f64)> = vec![(2, 0, 1, 5.0, 50.0)];
    assert_eq!(generate_angle_pair_bins_along_normal(&z, &pairs, &bins), vec![vec![], vec![(5.0, 50.0)]]);
}

#[test]
fn angle_pairs_counted_in_ranges() {
    let z = Some(keys(&[0.5, 5.0, 1.5]));
    let ranges = vec![[key(0.0), key(1.0)], [key(1.0), key(2.0)]];
    let bins_dipole = keys(&[0.0, 90.0, 180.0]);
    let bins_hh = keys(&[0.0, 90.0, 180.0]);
    let angles = vec![
        (0, 0, 0, key(10.0), key(100.0)),
        (2, 0, 0, key(10.0), key(100.0)),
        (1, 0, 0, key(10.0), key(100.0)),
        (0, 0, 0, key(170.0), key(20.0)),
    ];
    let r = generate_angle_pair_bins_for_normal_range(&z, &angles, &ranges, &bins_dipole, &bins_hh);
    // rows by HH bin, columns by dipole bin
    assert_eq!(r, vec![vec![0, 1], vec![2, 0]]);
    let none = generate_angle_pair_bins_for_normal_range(&None, &angles, &ranges, &bins_dipole, &bins_hh);
    assert_eq!(none, vec![vec![0, 0], vec![0, 0]]);
}

#[test]
fn frame_histograms_accumulate() {
    let bins = keys(&[0.0, 90.0, 180.0]);
    let frames = vec![
        vec![keys(&[10.0, 100.0]), keys(&[170.0])],
        vec![keys(&[20.0]), keys(&[]), ],
        vec![keys(&[95.0, 200.0])],
    ];
    let r = accumulate_angle_bins_along_normal(frames, 2, bins, 2);
    assert_eq!(r, vec![vec![2, 2], vec![0, 1]]);
}

#[test]
fn accumulating_equals_one_histogram_of_all_frames() {
    let bins = keys(&[0.0, 60.0, 120.0, 180.0]);
    let frames = vec![
        vec![keys(&[10.0, 70.0]), keys(&[130.0])],
        vec![keys(&[50.0, 170.0, 190.0])],
        vec![keys(&[]), keys(&[61.0, f64::NAN])],
    ];
    let acc = accumulate_angle_bins_along_normal(frames.clone(), 2, bins.clone(), 3);
    for i in 0..2 {
        let mut all = Vec::new();
        for f in frames.iter() {
            if i < f.len() {
                all.extend(f[i].iter().cloned());
            }
        }
        let (c, _) = histogram_1d(all, bins.clone());
        assert_eq!(acc[i], c);
    }
}

#[test]
fn accumulating_ignores_frame_order() {
    let bins = keys(&[0.0, 60.0, 120.0, 180.0]);
    let frames = vec![
        vec![keys(&[10.0, 70.0]), keys(&[130.0])],
        vec![keys(&[50.0, 170.0, 190.0])],
        vec![keys(&[]), keys(&[61.0, 62.0])],
    ];
    let reordered = vec![frames[2].clone(), frames[0].clone(), frames[1].clone()];
    let a = accumulate_angle_bins_along_normal(frames, 2, bins.clone(), 3);
    let b = accumulate_angle_bins_along_normal(reordered, 2, bins, 3);
    assert_eq!(a, b);
    assert_eq!(a, vec![vec![2, 1, 1], vec![0, 2, 1]]);
}
