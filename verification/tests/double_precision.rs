use linreg::{
    compute_cost, descend, design_matrix, gradient_descent, gradient_descent_with, power, predict,
    sum, Matrix, RegressionError, Scalar, StoppingPolicy,
};

/// Double-precision numbers as the engine's number type.
#[derive(Clone, Copy, Debug, PartialEq)]
struct Real(f64);

impl Scalar for Real {
    fn spec_zero() -> Self {
        Real(0.0)
    }

    fn spec_one() -> Self {
        Real(1.0)
    }

    fn spec_from_count(n: usize) -> Self {
        Real(n as f64)
    }

    fn spec_add(self, rhs: Self) -> Self {
        Real(self.0 + rhs.0)
    }

    fn spec_sub(self, rhs: Self) -> Self {
        Real(self.0 - rhs.0)
    }

    fn spec_mul(self, rhs: Self) -> Self {
        Real(self.0 * rhs.0)
    }

    fn spec_div(self, rhs: Self) -> Self {
        Real(self.0 / rhs.0)
    }

    fn spec_lt(self, rhs: Self) -> bool {
        self.0 < rhs.0
    }

    fn zero() -> Self {
        Real(0.0)
    }

    fn one() -> Self {
        Real(1.0)
    }

    fn from_count(n: usize) -> Self {
        Real(n as f64)
    }

    fn add(self, rhs: Self) -> Self {
        Real(self.0 + rhs.0)
    }

    fn sub(self, rhs: Self) -> Self {
        Real(self.0 - rhs.0)
    }

    fn mul(self, rhs: Self) -> Self {
        Real(self.0 * rhs.0)
    }

    fn div(self, rhs: Self) -> Self {
        Real(self.0 / rhs.0)
    }

    fn lt(self, rhs: Self) -> bool {
        self.0 < rhs.0
    }
}

fn reals(values: &[f64]) -> Vec<Real> {
    values.iter().map(|v| Real(*v)).collect()
}

fn plain(values: &[Real]) -> Vec<f64> {
    values.iter().map(|v| v.0).collect()
}

fn close(a: f64, b: f64, tolerance: f64) -> bool {
    (a - b).abs() <= tolerance
}

/// Three points on the line `y = 2 x`, with the bias column in front.
fn three_points() -> (Matrix<Real>, Vec<Real>) {
    let x = Matrix::from_row_major(3, 2, reals(&[1.0, 1.0, 1.0, 2.0, 1.0, 3.0])).unwrap();
    (x, reals(&[2.0, 4.0, 6.0]))
}

/// City populations in units of 10,000 and profits in units of $10,000.
fn population_profit() -> Vec<(f64, f64)> {
    vec![
        (6.1101, 17.592), (5.5277, 9.1302), (8.5186, 13.662), (7.0032, 11.854),
        (5.8598, 6.8233), (8.3829, 11.886), (7.4764, 4.3483), (8.5781, 12.0),
        (6.4862, 6.5987), (5.0546, 3.8166), (5.7107, 3.2522), (14.164, 15.505),
        (5.734, 3.1551), (8.4084, 7.2258), (5.6407, 0.71618), (5.3794, 3.5129),
        (6.3654, 5.3048), (5.1301, 0.56077), (6.4296, 3.6518), (7.0708, 5.3893),
        (6.1891, 3.1386), (20.27, 21.767), (5.4901, 4.263), (6.3261, 5.1875),
        (5.5649, 3.0825), (18.945, 22.638), (12.828, 13.501), (10.957, 7.0467),
        (13.176, 14.692), (22.203, 24.147), (5.2524, -1.22), (6.5894, 5.9966),
        (9.2482, 12.134), (5.8918, 1.8495), (8.2111, 6.5426), (7.9334, 4.5623),
        (8.0959, 4.1164), (5.6063, 3.3928), (12.836, 10.117), (6.3534, 5.4974),
        (5.4069, 0.55657), (6.8825, 3.9115), (11.708, 5.3854), (5.7737, 2.4406),
        (7.8247, 6.7318), (7.0931, 1.0463), (5.0702, 5.1337), (5.8014, 1.844),
        (11.7, 8.0043), (5.5416, 1.0179), (7.5402, 6.7504), (5.3077, 1.8396),
        (7.4239, 4.2885), (7.6031, 4.9981), (6.3328, 1.4233), (6.3589, -1.4211),
        (6.2742, 2.4756), (5.6397, 4.6042), (9.3102, 3.9624), (9.4536, 5.4141),
        (8.8254, 5.1694), (5.1793, -0.74279), (21.279, 17.929), (14.908, 12.054),
        (18.959, 17.054), (7.2182, 4.8852), (8.2951, 5.7442), (10.236, 7.7754),
        (5.4994, 1.0173), (20.341, 20.992), (10.136, 6.6799), (7.3345, 4.0259),
        (6.0062, 1.2784), (7.2259, 3.3411), (5.0269, -2.6807), (6.5479, 0.29678),
        (7.5386, 3.8845), (5.0365, 5.7014), (10.274, 6.7526), (5.1077, 2.0576),
        (5.7292, 0.47953), (5.1884, 0.20421), (6.3557, 0.67861), (9.7687, 7.5435),
        (6.5159, 5.3436), (8.5172, 4.2415), (9.1802, 6.7981), (6.002, 0.92695),
        (5.5204, 0.152), (5.0594, 2.8214), (5.7077, 1.8451), (7.6366, 4.2959),
        (5.8707, 7.2029), (5.3054, 1.9869), (8.2934, 0.14454), (13.394, 9.0551),
        (5.4369, 0.61705),
    ]
}

fn population_profit_examples() -> (Matrix<Real>, Vec<Real>) {
    let records: Vec<Vec<Real>> = population_profit()
        .iter()
        .map(|(population, profit)| vec![Real(*population), Real(*profit)])
        .collect();
    let table = Matrix::from_records(&records).unwrap();
    design_matrix(&table).unwrap()
}

#[test]
fn cost_of_zero_parameters_on_three_points() {
    let (x, y) = three_points();
    let j = compute_cost(&x, &y, &reals(&[0.0, 0.0])).unwrap();
    assert!(close(j.0, (4.0 + 16.0 + 36.0) / 6.0, 1e-12));
    assert!(close(j.0, 9.3333333333, 1e-9));
}

#[test]
fn cost_is_zero_where_the_model_fits_every_label() {
    let (x, y) = three_points();
    let theta = reals(&[0.0, 2.0]);
    assert_eq!(x.multiply(&theta), Ok(y.clone()));
    assert_eq!(compute_cost(&x, &y, &theta), Ok(Real(0.0)));
    let off = compute_cost(&x, &y, &reals(&[0.0, 2.5])).unwrap();
    assert!(off.0 > 0.0);
}

#[test]
fn cost_is_never_below_zero() {
    let (x, y) = three_points();
    for theta in [[0.0, 0.0], [-7.5, 3.0], [1e200, -1e200], [f64::INFINITY, 1.0], [f64::NAN, 0.0]] {
        let j = compute_cost(&x, &y, &reals(&theta)).unwrap();
        assert!(!(j.0 < 0.0));
    }
    let none = Matrix::from_row_major(0, 2, Vec::new()).unwrap();
    let j = compute_cost(&none, &Vec::new(), &reals(&[1.0, 2.0])).unwrap();
    assert!(!(j.0 < 0.0));
}

#[test]
fn cost_uses_half_the_mean_of_the_squares() {
    let x = Matrix::from_row_major(2, 1, reals(&[1.0, 1.0])).unwrap();
    let y = reals(&[3.0, 5.0]);
    // residuals -3 and -5: (9 + 25) / (2 * 2)
    assert_eq!(compute_cost(&x, &y, &reals(&[0.0])), Ok(Real(8.5)));
}

#[test]
fn cost_on_the_population_and_profit_data() {
    let (x, y) = population_profit_examples();
    assert_eq!(x.nrows(), 97);
    assert_eq!(x.ncols(), 2);
    let at_zero = compute_cost(&x, &y, &reals(&[0.0, 0.0])).unwrap();
    assert!(close(at_zero.0, 32.07, 0.005));
    assert!(close(at_zero.0, 32.072733877455654, 1e-9));
    let other = compute_cost(&x, &y, &reals(&[-1.0, 2.0])).unwrap();
    assert!(close(other.0, 54.24, 0.005));
    assert!(close(other.0, 54.24245508201238, 1e-9));
}

#[test]
fn descent_on_the_population_and_profit_data() {
    let (x, y) = population_profit_examples();
    let theta = gradient_descent(&x, &y, &reals(&[0.0, 0.0]), Real(0.01), 1500).unwrap();
    assert_eq!(theta.len(), 2);
    assert!(close(theta[0].0, -3.6303, 1e-4));
    assert!(close(theta[1].0, 1.1664, 1e-4));
    assert!(close(theta[0].0, -3.63029143940436, 1e-9));
    assert!(close(theta[1].0, 1.166362350335582, 1e-9));
}

#[test]
fn predictions_from_the_learned_parameters() {
    let (x, y) = population_profit_examples();
    let theta = gradient_descent(&x, &y, &reals(&[0.0, 0.0]), Real(0.01), 1500).unwrap();
    let small = predict(&theta, &reals(&[3.5])).unwrap();
    let large = predict(&theta, &reals(&[7.0])).unwrap();
    assert!(close(small.0 * 10000.0, 4519.767868, 1e-5));
    assert!(close(large.0 * 10000.0, 45342.450129, 1e-5));
}

#[test]
fn predictions_from_the_rounded_parameters() {
    let theta = reals(&[-3.6303, 1.1664]);
    let small = predict(&theta, &reals(&[3.5])).unwrap();
    let large = predict(&theta, &reals(&[7.0])).unwrap();
    assert!(close(small.0, -3.6303 + 1.1664 * 3.5, 1e-12));
    assert!(close(large.0, -3.6303 + 1.1664 * 7.0, 1e-12));
    assert!(close(small.0 * 10000.0, 4519.77, 3.0));
    assert!(close(large.0 * 10000.0, 45342.45, 3.0));
}

#[test]
fn predict_is_the_dot_product_with_the_bias_in_front() {
    let theta = reals(&[0.5, 2.0, -1.0]);
    assert_eq!(predict(&theta, &reals(&[3.0, 4.0])), Ok(Real(0.5 + 6.0 - 4.0)));
    assert_eq!(predict(&reals(&[7.0]), &Vec::new()), Ok(Real(7.0)));
}

#[test]
fn predict_refuses_a_wrong_number_of_features() {
    let theta = reals(&[0.5, 2.0]);
    assert_eq!(predict(&theta, &reals(&[1.0, 2.0])), Err(RegressionError::DimensionMismatch));
    assert_eq!(predict(&theta, &Vec::new()), Err(RegressionError::DimensionMismatch));
    assert_eq!(predict(&Vec::new(), &Vec::<Real>::new()), Err(RegressionError::DimensionMismatch));
}

#[test]
fn one_update_reads_the_parameters_as_they_were() {
    let (x, y) = three_points();
    // residuals at zero: -2, -4, -6; gradient: (-12 / 3, -28 / 3)
    let theta = descend(&x, &y, &reals(&[0.0, 0.0]), Real(0.1), 1).unwrap();
    assert_eq!(plain(&theta), vec![0.4, 0.9333333333333332]);
    let checked = gradient_descent(&x, &y, &reals(&[0.0, 0.0]), Real(0.1), 1);
    assert_eq!(checked, Ok(theta));
}

#[test]
fn updates_are_applied_one_after_another() {
    let (x, y) = three_points();
    let start = reals(&[0.25, -0.5]);
    let mut theta = start.clone();
    for k in 0..6u32 {
        assert_eq!(descend(&x, &y, &start, Real(0.05), k).unwrap(), theta);
        theta = descend(&x, &y, &theta, Real(0.05), 1).unwrap();
    }
}

#[test]
fn zero_iterations_return_the_starting_parameters() {
    let (x, y) = three_points();
    let start = reals(&[1.5, -2.5]);
    assert_eq!(gradient_descent(&x, &y, &start, Real(0.01), 0), Ok(start.clone()));
    assert_eq!(descend(&x, &y, &start, Real(0.01), 0).unwrap(), start);
}

#[test]
fn a_rate_of_zero_returns_the_starting_parameters() {
    let (x, y) = three_points();
    let start = reals(&[1.5, -2.5]);
    for k in [0u32, 1, 2, 10, 1500] {
        assert_eq!(descend(&x, &y, &start, Real(0.0), k).unwrap(), start);
    }
    let (x, y) = population_profit_examples();
    assert_eq!(descend(&x, &y, &start, Real(0.0), 25).unwrap(), start);
}

#[test]
fn descent_leaves_the_starting_parameters_alone() {
    let (x, y) = three_points();
    let start = reals(&[1.5, -2.5]);
    let learned = gradient_descent(&x, &y, &start, Real(0.1), 20).unwrap();
    assert_eq!(start, reals(&[1.5, -2.5]));
    assert!(learned != start);
}

#[test]
fn descent_is_repeatable() {
    let (x, y) = population_profit_examples();
    let start = reals(&[0.0, 0.0]);
    for k in [1, 2, 50, 300] {
        let first = gradient_descent(&x, &y, &start, Real(0.01), k).unwrap();
        let second = gradient_descent(&x, &y, &start, Real(0.01), k).unwrap();
        let a: Vec<u64> = first.iter().map(|v| v.0.to_bits()).collect();
        let b: Vec<u64> = second.iter().map(|v| v.0.to_bits()).collect();
        assert_eq!(a, b);
    }
}

#[test]
fn cost_does_not_rise_along_the_descent() {
    let (x, y) = population_profit_examples();
    let mut theta = reals(&[0.0, 0.0]);
    let mut before = compute_cost(&x, &y, &theta).unwrap().0;
    for _ in 0..1500 {
        theta = descend(&x, &y, &theta, Real(0.01), 1).unwrap();
        let after = compute_cost(&x, &y, &theta).unwrap().0;
        assert!(after <= before);
        before = after;
    }
    assert!(close(before, 4.483388256587725, 1e-9));
}

#[test]
fn descent_converges_on_a_noiseless_line() {
    let (x, y) = three_points();
    let theta = gradient_descent(&x, &y, &reals(&[0.0, 0.0]), Real(0.1), 5000).unwrap();
    assert!(close(theta[0].0, 0.0, 1e-6));
    assert!(close(theta[1].0, 2.0, 1e-6));
}

#[test]
fn cost_refuses_shapes_that_do_not_fit() {
    let (x, y) = three_points();
    let mismatch = Err(RegressionError::DimensionMismatch);
    assert_eq!(compute_cost(&x, &y, &reals(&[0.0])), mismatch);
    assert_eq!(compute_cost(&x, &y, &reals(&[0.0, 0.0, 0.0])), mismatch);
    assert_eq!(compute_cost(&x, &reals(&[2.0, 4.0]), &reals(&[0.0, 0.0])), mismatch);
    assert_eq!(compute_cost(&x, &reals(&[2.0, 4.0, 6.0, 8.0]), &reals(&[0.0, 0.0])), mismatch);
}

#[test]
fn descent_refuses_shapes_that_do_not_fit() {
    let (x, y) = three_points();
    let mismatch = Err(RegressionError::DimensionMismatch);
    assert_eq!(gradient_descent(&x, &y, &reals(&[0.0]), Real(0.01), 10), mismatch);
    assert_eq!(gradient_descent(&x, &y, &reals(&[0.0; 3]), Real(0.01), 10), mismatch);
    assert_eq!(gradient_descent(&x, &reals(&[2.0]), &reals(&[0.0, 0.0]), Real(0.01), 10), mismatch);
}

#[test]
fn descent_refuses_a_rate_that_is_not_above_zero() {
    let (x, y) = three_points();
    let start = reals(&[0.0, 0.0]);
    let invalid = Err(RegressionError::InvalidHyperparameter);
    assert_eq!(gradient_descent(&x, &y, &start, Real(0.0), 10), invalid);
    assert_eq!(gradient_descent(&x, &y, &start, Real(-0.0), 10), invalid);
    assert_eq!(gradient_descent(&x, &y, &start, Real(-0.01), 10), invalid);
    assert_eq!(gradient_descent(&x, &y, &start, Real(f64::NAN), 10), invalid);
    assert!(gradient_descent(&x, &y, &start, Real(f64::MIN_POSITIVE), 10).is_ok());
}

#[test]
fn descent_refuses_a_negative_count() {
    let (x, y) = three_points();
    let start = reals(&[0.0, 0.0]);
    let invalid = Err(RegressionError::InvalidHyperparameter);
    assert_eq!(gradient_descent(&x, &y, &start, Real(0.01), -1), invalid);
    assert_eq!(gradient_descent(&x, &y, &start, Real(0.01), i32::MIN), invalid);
}

#[test]
fn shapes_are_checked_before_the_hyperparameters() {
    let (x, y) = three_points();
    let r = gradient_descent(&x, &y, &reals(&[0.0]), Real(-1.0), -5);
    assert_eq!(r, Err(RegressionError::DimensionMismatch));
}

#[test]
fn power_raises_each_entry_on_its_own() {
    let v = reals(&[-2.0, 0.0, 0.5, 3.0]);
    assert_eq!(plain(&power(v.clone(), 2)), vec![4.0, 0.0, 0.25, 9.0]);
    assert_eq!(plain(&power(v.clone(), 3)), vec![-8.0, 0.0, 0.125, 27.0]);
    assert_eq!(plain(&power(v.clone(), 1)), vec![-2.0, 0.0, 0.5, 3.0]);
    assert_eq!(plain(&power(v.clone(), 0)), vec![1.0, 1.0, 1.0, 1.0]);
    assert_eq!(plain(&power(v.clone(), -1)), vec![-0.5, f64::INFINITY, 2.0, 1.0 / 3.0]);
    assert_eq!(plain(&power(v, -2)), vec![0.25, f64::INFINITY, 4.0, 1.0 / 9.0]);
    assert_eq!(power(Vec::<Real>::new(), 2), Vec::new());
}

#[test]
fn sum_adds_from_the_first_entry_to_the_last() {
    assert_eq!(sum(&reals(&[1.5, 2.25, -0.75])), Real(3.0));
    assert_eq!(sum(&Vec::<Real>::new()), Real(0.0));
    // the small entry is lost when it meets the large one first
    assert_eq!(sum(&reals(&[1e16, 1.0, -1e16])), Real(0.0));
    assert_eq!(sum(&reals(&[1e16, -1e16, 1.0])), Real(1.0));
}

#[test]
fn the_loop_alone_refuses_shapes_that_do_not_fit() {
    let (x, y) = three_points();
    let mismatch = Err(RegressionError::DimensionMismatch);
    assert_eq!(descend(&x, &y, &reals(&[0.0]), Real(0.01), 10), mismatch);
    assert_eq!(descend(&x, &reals(&[2.0, 4.0]), &reals(&[0.0, 0.0]), Real(0.01), 10), mismatch);
    assert_eq!(descend(&x, &y, &reals(&[0.0]), Real(0.01), 0), mismatch);
}

#[test]
fn rounding_can_raise_the_cost_by_a_hair() {
    // near the minimum the true gain of an update is smaller than the
    // rounding of the cost, so the computed cost need not keep falling
    let (x, y) = population_profit_examples();
    let mut theta = reals(&[0.0, 0.0]);
    let mut before = compute_cost(&x, &y, &theta).unwrap().0;
    let mut rise = None;
    for k in 0..20000 {
        theta = descend(&x, &y, &theta, Real(0.01), 1).unwrap();
        let after = compute_cost(&x, &y, &theta).unwrap().0;
        if after > before {
            rise = Some((k, after - before));
            break;
        }
        before = after;
    }
    let (k, by) = rise.unwrap();
    assert!(k >= 1500);
    assert!(by < 1e-12);
}

#[test]
fn errors_describe_themselves() {
    assert!(RegressionError::DimensionMismatch.message().starts_with("dimension mismatch"));
    assert!(RegressionError::InvalidHyperparameter.message().starts_with("invalid hyperparameter"));
    assert!(RegressionError::DimensionMismatch != RegressionError::InvalidHyperparameter);
}

fn policy(max_iterations: i32, min_cost_drop: Option<f64>) -> StoppingPolicy<Real> {
    StoppingPolicy { max_iterations, min_cost_drop: min_cost_drop.map(Real) }
}

#[test]
fn without_a_threshold_every_update_is_run() {
    let (x, y) = three_points();
    let start = reals(&[0.0, 0.0]);
    for max in [0, 1, 7, 50] {
        let fit = gradient_descent_with(&x, &y, &start, Real(0.1), &policy(max, None)).ok().unwrap();
        assert_eq!(fit.updates, max as u32);
        assert_eq!(Ok(fit.theta), gradient_descent(&x, &y, &start, Real(0.1), max));
    }
}

#[test]
fn descent_ends_at_the_first_small_drop() {
    let (x, y) = three_points();
    let start = reals(&[0.0, 0.0]);
    for (threshold, updates) in [(1e-3, 8u32), (1e-6, 284), (5.0, 2), (100.0, 1)] {
        let stop = policy(1000, Some(threshold));
        let fit = gradient_descent_with(&x, &y, &start, Real(0.1), &stop).ok().unwrap();
        assert_eq!(fit.updates, updates);
        assert_eq!(Ok(fit.theta), descend(&x, &y, &start, Real(0.1), updates));
        // the drop of every update but the last is not below the threshold
        let mut theta = start.clone();
        let mut before = compute_cost(&x, &y, &theta).unwrap().0;
        for k in 1..=updates {
            theta = descend(&x, &y, &theta, Real(0.1), 1).unwrap();
            let after = compute_cost(&x, &y, &theta).unwrap().0;
            assert_eq!(before - after < threshold, k == updates);
            before = after;
        }
    }
}

#[test]
fn descent_ends_at_the_last_update_where_no_drop_is_small() {
    let (x, y) = three_points();
    let start = reals(&[0.0, 0.0]);
    let fit = gradient_descent_with(&x, &y, &start, Real(0.1), &policy(5, Some(1e-3)));
    let fit = fit.ok().unwrap();
    assert_eq!(fit.updates, 5);
    assert_eq!(Ok(fit.theta), descend(&x, &y, &start, Real(0.1), 5));
    let never = policy(40, Some(f64::NAN));
    let fit = gradient_descent_with(&x, &y, &start, Real(0.1), &never).ok().unwrap();
    assert_eq!(fit.updates, 40);
    let fit = gradient_descent_with(&x, &y, &start, Real(0.1), &policy(0, Some(100.0)));
    let fit = fit.ok().unwrap();
    assert_eq!((fit.updates, fit.theta), (0, start.clone()));
}

#[test]
fn a_policy_is_checked_like_a_count() {
    let (x, y) = three_points();
    let start = reals(&[0.0, 0.0]);
    let invalid = Some(RegressionError::InvalidHyperparameter);
    let mismatch = Some(RegressionError::DimensionMismatch);
    let run = |theta: &Vec<Real>, alpha: f64, max: i32| {
        gradient_descent_with(&x, &y, theta, Real(alpha), &policy(max, Some(0.5))).err()
    };
    assert_eq!(run(&start, 0.1, -1), invalid);
    assert_eq!(run(&start, 0.0, 10), invalid);
    assert_eq!(run(&start, -0.1, 10), invalid);
    assert_eq!(run(&reals(&[0.0]), 0.1, 10), mismatch);
    assert_eq!(run(&reals(&[0.0]), -0.1, -1), mismatch);
    assert_eq!(run(&start, 0.1, 10), None);
}
