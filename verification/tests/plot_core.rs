use dataplot::key::{is_key_eq, is_key_le, is_key_lt, key_bits, key_is_nan, order_key, ZERO_KEY};
use dataplot::runs::{max_duplicates, stack_levels};
use dataplot::sort::sort_keys;
use dataplot::summary::{
    lower_quartile_position, median_position, upper_quartile_position, PointSummery, Quantile,
};
use dataplot::widgets::{DotPlotState, InputGrid, InputMsg, PlotMsg};

fn k(x: f64) -> u64 {
    order_key(x.to_bits())
}

fn back(key: u64) -> f64 {
    f64::from_bits(key_bits(key))
}

fn keys(xs: &[f64]) -> Vec<u64> {
    xs.iter().map(|x| k(*x)).collect()
}

#[test]
fn keys_follow_number_order() {
    let xs = [
        f64::NEG_INFINITY,
        -1.0e300,
        -2.5,
        -1.0,
        -1.0e-300,
        0.0,
        1.0e-300,
        0.55,
        1.0,
        2.2,
        16.0,
        1.0e300,
        f64::INFINITY,
    ];
    for i in 0..xs.len() {
        for j in 0..xs.len() {
            assert_eq!(k(xs[i]) < k(xs[j]), xs[i] < xs[j]);
            assert_eq!(k(xs[i]) == k(xs[j]), xs[i] == xs[j]);
            assert_eq!(is_key_lt(k(xs[i]), k(xs[j])), xs[i] < xs[j]);
            assert_eq!(is_key_le(k(xs[i]), k(xs[j])), xs[i] <= xs[j]);
            assert_eq!(is_key_eq(k(xs[i]), k(xs[j])), xs[i] == xs[j]);
        }
    }
}

#[test]
fn zeros_compare_equal() {
    assert_eq!(k(0.0), ZERO_KEY);
    assert_ne!(k(-0.0), ZERO_KEY);
    assert!(is_key_eq(k(-0.0), k(0.0)));
    assert!(!is_key_lt(k(-0.0), k(0.0)) && !is_key_lt(k(0.0), k(-0.0)));
    assert!(is_key_lt(k(-1.0e-300), k(-0.0)) && is_key_lt(k(0.0), k(1.0e-300)));
    assert_eq!(back(ZERO_KEY).to_bits(), 0);
}

#[test]
fn nan_compares_with_nothing() {
    let nan = k(f64::NAN);
    let neg_nan = k(-f64::NAN);
    assert!(key_is_nan(nan) && key_is_nan(neg_nan));
    assert!(!key_is_nan(k(f64::INFINITY)) && !key_is_nan(k(f64::NEG_INFINITY)));
    for x in [nan, neg_nan, k(1.0), k(f64::INFINITY), k(f64::NEG_INFINITY)] {
        assert!(!is_key_eq(nan, x) && !is_key_lt(nan, x) && !is_key_le(x, nan));
        assert!(!is_key_lt(x, neg_nan) && !is_key_le(neg_nan, x));
    }
}

#[test]
fn keys_round_trip() {
    for x in [-3.75, -1.0, 0.0, 0.55, 6.5, 12.0, f64::MAX, f64::MIN_POSITIVE] {
        assert_eq!(back(k(x)).to_bits(), x.to_bits());
    }
    assert_eq!(back(k(-0.0)).to_bits(), (-0.0f64).to_bits());
    assert!(back(k(f64::NAN)).is_nan());
}

#[test]
fn max_duplicates_of_sample_values() {
    let vals = keys(&[1.0, 1.0, 2.0, 2.0, 2.0, 3.0, 3.0, 3.0, 3.0, 4.0, 4.0, 4.0, 5.0, 5.0, 6.0]);
    assert_eq!(max_duplicates(&vals), 4);
}

#[test]
fn max_duplicates_edges() {
    assert_eq!(max_duplicates(&vec![]), 0);
    assert_eq!(max_duplicates(&keys(&[7.0])), 1);
    assert_eq!(max_duplicates(&keys(&[1.0, 2.0, 3.0])), 1);
    assert_eq!(max_duplicates(&keys(&[5.0, 5.0, 5.0, 5.0])), 4);
    assert_eq!(max_duplicates(&keys(&[1.0, 2.0, 2.0, 1.0, 1.0, 1.0])), 3);
}

#[test]
fn max_duplicates_compares_as_numbers() {
    assert_eq!(max_duplicates(&keys(&[f64::NAN, f64::NAN])), 1);
    assert_eq!(max_duplicates(&keys(&[f64::NAN])), 1);
    assert_eq!(max_duplicates(&keys(&[-0.0, 0.0, -0.0, 1.0])), 3);
    assert_eq!(stack_levels(&keys(&[f64::NAN, f64::NAN, 0.0, -0.0])), vec![0, 0, 0, 1]);
}

#[test]
fn stack_levels_count_equal_neighbours() {
    assert_eq!(stack_levels(&keys(&[1.0, 1.0, 2.0, 2.0, 2.0, 3.0])), vec![0, 1, 0, 1, 2, 0]);
    assert_eq!(stack_levels(&vec![]), Vec::<usize>::new());
    assert_eq!(stack_levels(&keys(&[4.0, 3.0, 4.0])), vec![0, 0, 0]);
}

#[test]
fn tallest_stack_matches_longest_run() {
    let vals = keys(&[1.0, 1.0, 2.0, 2.0, 2.0, 3.0, 3.0, 3.0, 3.0, 4.0, 4.0, 4.0, 5.0, 5.0, 6.0]);
    let levels = stack_levels(&vals);
    let tallest = levels.iter().copied().max().unwrap();
    assert_eq!(tallest + 1, max_duplicates(&vals) as usize);
}

#[test]
fn sort_keys_orders_numbers() {
    let vals = keys(&[3.0, -1.0, 2.5, 0.0, -7.25, 2.5]);
    let sorted = sort_keys(&vals);
    let back_vals: Vec<f64> = sorted.iter().map(|x| back(*x)).collect();
    assert_eq!(back_vals, vec![-7.25, -1.0, 0.0, 2.5, 2.5, 3.0]);
    assert_eq!(sort_keys(&vec![]), Vec::<u64>::new());
}

#[test]
fn sort_keeps_equal_zeros_in_order() {
    let sorted = sort_keys(&keys(&[0.0, -1.0, -0.0, 2.0, 0.0]));
    let bits: Vec<u64> = sorted.iter().map(|x| key_bits(*x)).collect();
    let expected: Vec<u64> = [-1.0f64, 0.0, -0.0, 0.0, 2.0].iter().map(|x| x.to_bits()).collect();
    assert_eq!(bits, expected);
    let sorted = sort_keys(&keys(&[-0.0, 0.0]));
    assert_eq!(back(sorted[0]).to_bits(), (-0.0f64).to_bits());
    assert_eq!(sort_keys(&keys(&[f64::NAN])).len(), 1);
}

#[test]
fn summary_keeps_negative_zero() {
    let s = PointSummery::create(keys(&[3.0, -0.0, 5.0]));
    assert_eq!(back(s.min).to_bits(), (-0.0f64).to_bits());
    let s = PointSummery::create(keys(&[f64::NAN]));
    assert!(back(s.min).is_nan() && back(s.max).is_nan());
    assert!(s.outliers(k(0.0), k(1.0)).is_empty());
    let (lo, hi) = s.range_excluding_outliers(k(0.0), k(1.0));
    assert!(back(lo).is_nan() && back(hi).is_nan());
}

#[test]
fn median_positions() {
    assert_eq!(median_position(0), Quantile::Mean);
    assert_eq!(median_position(2), Quantile::Mean);
    assert_eq!(median_position(3), Quantile::At(1));
    assert_eq!(median_position(4), Quantile::Between(1, 2));
    assert_eq!(median_position(15), Quantile::At(7));
}

#[test]
fn quartile_positions() {
    assert_eq!(lower_quartile_position(2), Quantile::Min);
    assert_eq!(upper_quartile_position(2), Quantile::Max);
    assert_eq!(lower_quartile_position(5), Quantile::At(1));
    assert_eq!(upper_quartile_position(5), Quantile::At(3));
    assert_eq!(lower_quartile_position(6), Quantile::Between(1, 2));
    assert_eq!(upper_quartile_position(6), Quantile::Between(3, 4));
    assert_eq!(lower_quartile_position(15), Quantile::Between(3, 4));
    assert_eq!(upper_quartile_position(15), Quantile::Between(10, 11));
}

#[test]
fn quartile_positions_mirror() {
    for n in 3..200usize {
        let bounds = |q: Quantile| match q {
            Quantile::At(i) => (i, i),
            Quantile::Between(i, j) => (i, j),
            _ => panic!("not positional"),
        };
        let (l_lo, l_hi) = bounds(lower_quartile_position(n));
        let (m_lo, m_hi) = bounds(median_position(n));
        let (u_lo, u_hi) = bounds(upper_quartile_position(n));
        assert_eq!(m_lo + m_hi, n - 1);
        assert_eq!(l_lo + u_hi, n - 1);
        assert_eq!(l_hi + u_lo, n - 1);
        assert!(l_lo <= m_lo && m_lo <= u_lo && u_hi < n);
    }
}

#[test]
fn create_summary_of_sample_values() {
    let vals = keys(&[6.0, 1.0, 2.0, 5.0, 2.0, 3.0, 3.0, 4.0, 1.0, 3.0, 4.0, 4.0, 5.0, 3.0, 2.0]);
    let s = PointSummery::create(vals);
    assert_eq!(back(s.min), 1.0);
    assert_eq!(back(s.max), 6.0);
    assert_eq!(s.median, Quantile::At(7));
    assert_eq!(s.q1, Quantile::Between(3, 4));
    assert_eq!(s.q3, Quantile::Between(10, 11));
    assert_eq!(s.quantile_keys(s.median), Some((k(3.0), k(3.0))));
    assert_eq!(s.quantile_keys(s.q1), Some((k(2.0), k(2.0))));
    assert_eq!(s.quantile_keys(s.q3), Some((k(4.0), k(4.0))));
    assert_eq!(s.values.len(), 15);
}

#[test]
fn create_summary_of_nothing() {
    let s = PointSummery::create(vec![]);
    assert_eq!(s.min, ZERO_KEY);
    assert_eq!(s.max, ZERO_KEY);
    assert_eq!(s.median, Quantile::Mean);
    assert_eq!(s.q1, Quantile::Min);
    assert_eq!(s.q3, Quantile::Max);
    assert_eq!(s.quantile_keys(s.median), None);
    assert_eq!(s.quantile_keys(s.q1), Some((ZERO_KEY, ZERO_KEY)));
}

#[test]
fn create_summary_of_two() {
    let s = PointSummery::create(keys(&[4.0, -2.0]));
    assert_eq!(s.quantile_keys(s.q1), Some((k(-2.0), k(-2.0))));
    assert_eq!(s.quantile_keys(s.q3), Some((k(4.0), k(4.0))));
    assert_eq!(s.quantile_keys(s.median), None);
}

#[test]
fn outliers_on_both_sides() {
    let s = PointSummery::create(keys(&[-50.0, -40.0, 1.0, 2.0, 3.0, 4.0, 90.0, 100.0]));
    let lower = k(0.0);
    let upper = k(10.0);
    let out: Vec<f64> = s.outliers(lower, upper).iter().map(|x| back(*x)).collect();
    assert_eq!(out, vec![-50.0, -40.0, 100.0, 90.0]);
    let (lo, hi) = s.range_excluding_outliers(lower, upper);
    assert_eq!((back(lo), back(hi)), (1.0, 4.0));
}

#[test]
fn no_outliers_inside_fences() {
    let s = PointSummery::create(keys(&[1.0, 2.0, 3.0]));
    assert!(s.outliers(k(0.0), k(5.0)).is_empty());
    assert_eq!(s.range_excluding_outliers(k(0.0), k(5.0)), (k(1.0), k(3.0)));
}

#[test]
fn values_on_a_fence_are_not_outliers() {
    let s = PointSummery::create(keys(&[1.0, 2.0, 3.0]));
    assert!(s.outliers(k(1.0), k(3.0)).is_empty());
    assert_eq!(s.range_excluding_outliers(k(1.0), k(3.0)), (k(1.0), k(3.0)));
}

#[test]
fn fences_that_compare_with_nothing() {
    let s = PointSummery::create(keys(&[1.0, 2.0, 3.0]));
    let nan = k(f64::NAN);
    assert!(s.outliers(nan, nan).is_empty());
    assert_eq!(s.range_excluding_outliers(nan, nan), (k(1.0), k(3.0)));
    let out = s.outliers(nan, k(2.5));
    assert_eq!(out, vec![k(3.0)]);
}

#[test]
fn range_when_every_value_is_an_outlier() {
    let s = PointSummery::create(keys(&[1.0, 9.0]));
    // lower fence 5 and upper fence 6: 1 is below, 9 above
    assert_eq!(s.outliers(k(5.0), k(6.0)), vec![k(1.0), k(9.0)]);
    assert_eq!(s.range_excluding_outliers(k(5.0), k(6.0)), (k(9.0), k(1.0)));
    // fences past every value: the ends themselves
    assert_eq!(s.range_excluding_outliers(k(20.0), k(-20.0)), (k(1.0), k(9.0)));
}

#[test]
fn dot_plot_state() {
    let points = keys(&[1.0, 1.0, 2.0, 2.0, 2.0, 3.0]);
    let mut st = DotPlotState::create(&points);
    assert_eq!(st.most_num_vals, 3);
    assert_eq!(st.range, (k(1.0), k(3.0)));
    assert_eq!(st.canvas_height(11, 200), 200);
    assert_eq!(st.canvas_height(100, 200), 330);
    assert!(st.update(PlotMsg::Update));
    assert!(!st.update(PlotMsg::Hover(4)));
    assert!(!st.update(PlotMsg::Idle));
    assert_eq!(st.most_num_vals, 3);
    let empty = DotPlotState::create(&vec![]);
    assert_eq!(empty.most_num_vals, 0);
    assert_eq!(empty.range, (ZERO_KEY, ZERO_KEY));
}

#[test]
fn input_grid() {
    let mut g = InputGrid::create();
    assert_eq!((g.width, g.height), (2, 2));
    assert!(g.content.is_empty() && g.xlabels.is_empty() && g.ylabels.is_empty());
    assert!(!g.update(InputMsg::Input(String::from("3.5"), 0)));
    assert!(g.update(InputMsg::Enter));
    assert!(!g.update(InputMsg::Idle));
    assert!(g.content.is_empty());
}
