use neuron::curve::peak;
use neuron::error::MathError;

#[test]
fn the_peak_is_the_largest_value() {
    assert_eq!(peak(&[0.25, 0.75, 0.5]).unwrap(), 0.75);
    assert_eq!(peak(&[3.0]).unwrap(), 3.0);
    assert_eq!(peak(&[-2.0, -1.0, -3.0]).unwrap(), -1.0);
    assert_eq!(peak(&[0.9, 0.5, 0.1]).unwrap(), 0.9);
    assert_eq!(peak(&[0.1, 0.5, 0.9]).unwrap(), 0.9);
}

#[test]
fn the_peak_agrees_with_the_iterator_of_the_standard_library() {
    let values = [0.3, 0.8, 0.1, 0.8, 0.2, 0.05];
    let expected = *values.iter().max_by(|a, b| a.partial_cmp(b).unwrap()).unwrap();
    assert_eq!(peak(&values).unwrap(), expected);
}

#[test]
fn of_several_largest_values_the_peak_is_the_last() {
    let values = [(1, 'a'), (1, 'b')];
    let by_number: Vec<Keyed> = values.iter().map(|v| Keyed(v.0, v.1)).collect();
    assert_eq!(peak(&by_number).unwrap().1, 'b');
    assert!(peak(&[-0.0f64, 0.0]).unwrap().is_sign_positive());
    assert!(peak(&[0.0f64, -0.0]).unwrap().is_sign_negative());
}

#[test]
fn there_is_no_peak_of_no_values() {
    let none: [f64; 0] = [];
    assert_eq!(peak(&none).unwrap_err(), MathError::EmptyInput);
}

#[test]
fn there_is_no_peak_of_values_without_an_order() {
    assert_eq!(peak(&[1.0, f64::NAN, 2.0]).unwrap_err(), MathError::Incomparable);
    assert_eq!(peak(&[f64::NAN, 1.0]).unwrap_err(), MathError::Incomparable);
    assert_eq!(peak(&[1.0, 2.0, f64::NAN]).unwrap_err(), MathError::Incomparable);
    assert!(peak(&[f64::NAN]).unwrap().is_nan());
}

#[test]
fn the_peak_may_be_infinite() {
    assert_eq!(peak(&[1.0, f64::INFINITY, 2.0]).unwrap(), f64::INFINITY);
    assert_eq!(peak(&[f64::NEG_INFINITY]).unwrap(), f64::NEG_INFINITY);
}

#[derive(Clone, Copy, Debug)]
struct Keyed(i32, char);

impl PartialEq for Keyed {
    fn eq(&self, other: &Keyed) -> bool {
        self.0 == other.0
    }
}

impl PartialOrd for Keyed {
    fn partial_cmp(&self, other: &Keyed) -> Option<std::cmp::Ordering> {
        self.0.partial_cmp(&other.0)
    }
}
