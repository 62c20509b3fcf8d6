use feedforward::nn_functions::{
    apply_linear, apply_linear_derivative, apply_mean_squared_error,
    apply_mean_squared_error_derivative, apply_relu, apply_relu_derivative, apply_sigmoid,
    apply_sigmoid_derivative, apply_tanh, apply_tanh_derivative,
};
use feedforward::{Activation, ActivationFunction, CostFunction, MeanSquaredError, Scalar};

#[derive(Clone, Copy, Debug, PartialEq)]
struct Real(f64);

impl Scalar for Real {
    fn from_count(n: usize) -> Self {
        Real(n as f64)
    }

    fn plus(self, rhs: Self) -> Self {
        Real(self.0 + rhs.0)
    }

    fn minus(self, rhs: Self) -> Self {
        Real(self.0 - rhs.0)
    }

    fn times(self, rhs: Self) -> Self {
        Real(self.0 * rhs.0)
    }

    fn over(self, rhs: Self) -> Self {
        Real(self.0 / rhs.0)
    }

    fn negated(self) -> Self {
        Real(-self.0)
    }

    fn exp(self) -> Self {
        Real(std::f64::consts::E.powf(self.0))
    }

    fn tanh(self) -> Self {
        Real(self.0.tanh())
    }

    fn below(self, rhs: Self) -> bool {
        self.0 < rhs.0
    }

    fn at_most(self, rhs: Self) -> bool {
        self.0 <= rhs.0
    }
}

fn close(a: f64, b: f64) -> bool {
    (a - b).abs() < 1e-12
}

#[test]
fn sigmoid_of_zero_is_one_half() {
    assert!(close(Activation::Sigmoid.apply(Real(0.0)).0, 0.5));
    assert!(close(apply_sigmoid(Real(0.0)).0, 0.5));
}

#[test]
fn sigmoid_of_one() {
    let expected = 1.0 / (1.0 + std::f64::consts::E.powf(-1.0));
    assert_eq!(apply_sigmoid(Real(1.0)), Real(expected));
}

#[test]
fn sigmoid_is_kept_below_one() {
    assert_eq!(Activation::Sigmoid.apply(Real(1000.0)), Real(0.99999));
    assert_eq!(Activation::Sigmoid.apply(Real(20.0)), Real(0.99999));
    assert!(Activation::Sigmoid.apply(Real(50.0)).0 <= 0.99999);
}

#[test]
fn sigmoid_is_kept_above_zero() {
    assert_eq!(Activation::Sigmoid.apply(Real(-1000.0)), Real(0.00001));
    assert_eq!(Activation::Sigmoid.apply(Real(-20.0)), Real(0.00001));
    assert!(Activation::Sigmoid.apply(Real(-50.0)).0 >= 0.00001);
}

#[test]
fn sigmoid_between_the_bounds_is_not_clamped() {
    let value = Activation::Sigmoid.apply(Real(2.0)).0;
    assert!(value > 0.00001 && value < 0.99999);
    assert!(close(value, 0.8807970779778823));
}

#[test]
fn sigmoid_derivative_is_output_times_one_minus_output() {
    assert_eq!(Activation::Sigmoid.apply_derivative(Real(7.0), Real(0.25)), Real(0.1875));
    assert_eq!(apply_sigmoid_derivative(Real(-3.0), Real(0.5)), Real(0.25));
}

#[test]
fn sigmoid_derivative_never_vanishes_on_sigmoid_outputs() {
    let low = Activation::Sigmoid.apply(Real(-1000.0));
    let high = Activation::Sigmoid.apply(Real(1000.0));
    assert!(Activation::Sigmoid.apply_derivative(Real(-1000.0), low).0 > 0.0);
    assert!(Activation::Sigmoid.apply_derivative(Real(1000.0), high).0 > 0.0);
}

#[test]
fn linear_is_the_identity() {
    for x in [-3.5, 0.0, 1.0, 1e300] {
        assert_eq!(Activation::Linear.apply(Real(x)), Real(x));
        assert_eq!(apply_linear(Real(x)), Real(x));
    }
}

#[test]
fn linear_derivative_is_one() {
    for x in [-3.5, 0.0, 1.0, 1e300] {
        assert_eq!(Activation::Linear.apply_derivative(Real(x), Real(x)), Real(1.0));
        assert_eq!(apply_linear_derivative(Real(x), Real(-x)), Real(1.0));
    }
}

#[test]
fn relu_cuts_off_below_zero() {
    assert_eq!(Activation::Relu.apply(Real(-3.0)), Real(0.0));
    assert_eq!(Activation::Relu.apply(Real(3.0)), Real(3.0));
    assert_eq!(apply_relu(Real(0.0)), Real(0.0));
}

#[test]
fn relu_derivative_is_a_step() {
    assert_eq!(Activation::Relu.apply_derivative(Real(-3.0), Real(0.0)), Real(0.0));
    assert_eq!(Activation::Relu.apply_derivative(Real(3.0), Real(3.0)), Real(1.0));
    assert_eq!(apply_relu_derivative(Real(0.0), Real(0.0)), Real(1.0));
}

#[test]
fn tanh_of_zero_is_zero() {
    assert_eq!(Activation::Tanh.apply(Real(0.0)), Real(0.0));
    assert_eq!(apply_tanh(Real(0.5)), Real(0.5f64.tanh()));
}

#[test]
fn tanh_derivative_is_one_minus_output_squared() {
    assert_eq!(Activation::Tanh.apply_derivative(Real(9.0), Real(0.5)), Real(0.75));
    assert_eq!(apply_tanh_derivative(Real(0.0), Real(0.0)), Real(1.0));
    assert_eq!(apply_tanh_derivative(Real(0.0), Real(-2.0)), Real(-3.0));
}

#[test]
fn mean_squared_error_is_half_the_squared_difference() {
    assert_eq!(MeanSquaredError.apply(Real(2.0), Real(3.0)), Real(0.5));
    assert_eq!(apply_mean_squared_error(Real(5.0), Real(1.0)), Real(8.0));
    assert_eq!(apply_mean_squared_error(Real(1.5), Real(1.5)), Real(0.0));
}

#[test]
fn mean_squared_error_derivative_is_expected_minus_output() {
    assert_eq!(MeanSquaredError.apply_derivative(Real(2.0), Real(3.0)), Real(1.0));
    assert_eq!(apply_mean_squared_error_derivative(Real(5.0), Real(1.0)), Real(-4.0));
}
