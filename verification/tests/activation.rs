use neuron::activation::derivative;
use neuron::activation::relu;
use neuron::activation::sigmoid;
use neuron::activation::softmax;
use neuron::activation::tanh;
use neuron::error::MathError;
use neuron::vector::Vector;

fn close(a: f64, b: f64, epsilon: f64) -> bool {
    (a - b).abs() <= epsilon
}

#[test]
fn test_relu() {
    assert_eq!(relu(-1.0), 0.0);
    assert_eq!(relu(0.0), 0.0);
    assert_eq!(relu(1.0), 1.0);
    assert_eq!(relu(2.0), 2.0);
}

#[test]
fn test_sigmoid() {
    assert!(close(sigmoid(0.0, &f64::exp), 0.5, 1e-10));
    assert!(close(sigmoid(-10.0, &f64::exp), 4.5397868702434395e-5, 1e-10));
    assert!(close(sigmoid(10.0, &f64::exp), 0.9999546021312976, 1e-10));
}

#[test]
fn test_tanh() {
    assert!(close(tanh(-10.0, &f64::exp), -0.9999999958776926, 1e-10));
    assert_eq!(tanh(0.0, &f64::exp), 0.0);
    assert!(close(tanh(10.0, &f64::exp), 0.9999999958776926, 1e-10));
}

#[test]
fn test_softmax() {
    let input = Vector::new(vec![1.0, 2.0, 3.0, 4.0, 1.0, 2.0, 3.0]);
    let result = softmax(&input, &f64::exp).unwrap();
    let sum: f64 = result.elements().iter().sum();
    assert!(close(sum, 1.0, 1e-10));
    assert!(result.elements()[3] > result.elements()[0]);
}

#[test]
fn relu_works_on_single_precision_too() {
    assert_eq!(relu(-3.5f32), 0.0f32);
    assert_eq!(relu(3.5f32), 3.5f32);
}

#[test]
fn sigmoid_of_zero_is_exactly_a_half() {
    assert_eq!(sigmoid(0.0, &f64::exp), 0.5);
}

#[test]
fn sigmoid_stays_strictly_between_zero_and_one() {
    for x in [-700.0, -50.0, -10.0, -1.0, -1e-9, 0.0, 1e-9, 1.0, 10.0, 30.0] {
        let y = sigmoid(x, &f64::exp);
        assert!(y > 0.0, "sigmoid({x}) = {y}");
        assert!(y < 1.0, "sigmoid({x}) = {y}");
    }
}

#[test]
fn sigmoid_is_finite_far_from_zero() {
    let low = sigmoid(-1000.0, &f64::exp);
    let high = sigmoid(1000.0, &f64::exp);
    assert_eq!(low, 0.0);
    assert_eq!(high, 1.0);
    assert!(!sigmoid(-1e308, &f64::exp).is_nan());
    assert!(!sigmoid(1e308, &f64::exp).is_nan());
}

#[test]
fn sigmoid_never_decreases() {
    let points = [-30.0, -10.0, -2.0, -0.5, 0.0, 0.5, 2.0, 10.0, 30.0];
    for pair in points.windows(2) {
        assert!(sigmoid(pair[0], &f64::exp) < sigmoid(pair[1], &f64::exp));
    }
}

#[test]
fn sigmoid_takes_the_exponential_of_a_nonpositive_argument_only() {
    let guarded = |x: f64| {
        assert!(x <= 0.0);
        x.exp()
    };
    for x in [-800.0, -3.0, -0.0, 0.0, 3.0, 800.0] {
        let y = sigmoid(x, &guarded);
        assert!((0.0..=1.0).contains(&y));
    }
}

#[test]
fn sigmoid_is_the_logistic_function_on_both_sides_of_zero() {
    for x in [-20.0f64, -3.0, -0.25, 0.0, 0.25, 3.0, 20.0] {
        assert!(close(sigmoid(x, &f64::exp), 1.0 / (1.0 + (-x).exp()), 1e-15));
    }
}

#[test]
fn sigmoid_uses_the_exponential_it_is_given() {
    let doubling = |x: f64| 2.0f64.powf(x);
    assert_eq!(sigmoid(1.0, &doubling), 1.0 / 1.5);
    assert_eq!(sigmoid(-1.0, &doubling), 0.5 / 1.5);
}

#[test]
fn derivative_is_the_output_times_its_complement() {
    assert_eq!(derivative(0.5), 0.25);
    assert_eq!(derivative(0.0), 0.0);
    assert_eq!(derivative(1.0), 0.0);
    assert_eq!(derivative(0.25), 0.1875);
}

#[test]
fn tanh_is_cut_off_beyond_ten() {
    let never = |_: f64| -> f64 { panic!("the exponential is not needed beyond ten") };
    assert_eq!(tanh(10.5, &never), 1.0);
    assert_eq!(tanh(1e300, &never), 1.0);
    assert_eq!(tanh(-10.5, &never), -1.0);
    assert_eq!(tanh(-1e300, &never), -1.0);
}

#[test]
fn tanh_stays_between_minus_one_and_one() {
    for x in [-100.0, -10.0, -9.99, -1.0, 0.0, 0.3, 1.0, 9.99, 10.0, 100.0] {
        let y = tanh(x, &f64::exp);
        assert!((-1.0..=1.0).contains(&y), "tanh({x}) = {y}");
    }
}

#[test]
fn tanh_is_odd() {
    for x in [0.0, 0.1, 0.5, 1.0, 2.5, 7.0, 10.0, 12.0] {
        assert_eq!(tanh(-x, &f64::exp), -tanh(x, &f64::exp));
    }
}

#[test]
fn tanh_matches_the_standard_function() {
    for x in [-3.0f64, -0.7, 0.2, 1.0, 4.0] {
        assert!(close(tanh(x, &f64::exp), x.tanh(), 1e-12));
    }
}

#[test]
fn softmax_of_two_equal_elements_is_a_half_each() {
    let result = softmax(&Vector::new(vec![3.0, 3.0]), &f64::exp).unwrap();
    assert_eq!(*result.elements(), vec![0.5, 0.5]);
}

#[test]
fn softmax_of_one_element_is_one() {
    let result = softmax(&Vector::new(vec![-7.25]), &f64::exp).unwrap();
    assert_eq!(*result.elements(), vec![1.0]);
}

#[test]
fn softmax_gives_the_largest_input_the_largest_share() {
    let input = vec![0.3, -1.0, 2.5, 2.4, 0.0];
    let result = softmax(&Vector::new(input), &f64::exp).unwrap();
    let shares = result.elements();
    for share in shares.iter() {
        assert!(*share >= 0.0);
        assert!(*share <= shares[2]);
    }
}

#[test]
fn softmax_sums_to_one() {
    for input in [vec![0.0], vec![-5.0, 5.0], vec![1.0, 2.0, 3.0], vec![0.1; 10]] {
        let result = softmax(&Vector::new(input), &f64::exp).unwrap();
        let sum: f64 = result.elements().iter().sum();
        assert!(close(sum, 1.0, 1e-10));
    }
}

#[test]
fn softmax_does_not_overflow_on_large_inputs() {
    let result = softmax(&Vector::new(vec![1000.0, 1001.0, 999.0]), &f64::exp).unwrap();
    let sum: f64 = result.elements().iter().sum();
    assert!(close(sum, 1.0, 1e-10));
    assert!(result.elements()[1] > result.elements()[0]);
    assert!(result.elements()[0] > result.elements()[2]);
}

#[test]
fn softmax_takes_the_exponential_of_each_element_less_the_largest() {
    let seen = std::cell::RefCell::new(Vec::new());
    let recording = |x: f64| {
        seen.borrow_mut().push(x);
        x.exp()
    };
    softmax(&Vector::new(vec![1.0, 4.0, 2.0]), &recording).unwrap();
    assert_eq!(*seen.borrow(), vec![-3.0, 0.0, -2.0]);
}

#[test]
fn softmax_takes_the_exponential_of_no_positive_number() {
    let guarded = |x: f64| {
        assert!(x <= 0.0);
        x.exp()
    };
    for input in [vec![700.0, 800.0, 900.0], vec![-3.0, -1.0], vec![0.5], vec![2.0, 2.0, 1.0]] {
        let result = softmax(&Vector::new(input), &guarded).unwrap();
        for share in result.elements() {
            assert!((0.0..=1.0).contains(share));
        }
    }
}

#[test]
fn softmax_keeps_the_order_of_its_elements() {
    let input = vec![0.3, -1.0, 2.5, 2.4, 0.0];
    let result = softmax(&Vector::new(input.clone()), &f64::exp).unwrap();
    let shares = result.elements();
    for i in 0..input.len() {
        for j in 0..input.len() {
            if input[i] <= input[j] {
                assert!(shares[i] <= shares[j]);
            }
        }
    }
}

#[test]
fn softmax_refuses_the_empty_vector() {
    let empty: Vector<f64> = Vector::new(Vec::new());
    assert_eq!(softmax(&empty, &f64::exp).unwrap_err(), MathError::EmptyInput);
}
