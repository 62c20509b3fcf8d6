use feedforward::{Activation, ActivationFunction, NetworkError, NeuralNetwork, Scalar};
use std::cell::RefCell;

#[derive(Clone, Copy, Debug, PartialEq)]
struct Real(f64);

impl Scalar for Real {
    fn from_count(n: usize) -> Self {
        Real(n as f64)
    }

    fn plus(self, rhs: Self) -> Self {
        Real(self.0 + rhs.0)
    }

    fn minus(self, rhs: Self) -> Self {
        Real(self.0 - rhs.0)
    }

    fn times(self, rhs: Self) -> Self {
        Real(self.0 * rhs.0)
    }

    fn over(self, rhs: Self) -> Self {
        Real(self.0 / rhs.0)
    }

    fn negated(self) -> Self {
        Real(-self.0)
    }

    fn exp(self) -> Self {
        Real(std::f64::consts::E.powf(self.0))
    }

    fn tanh(self) -> Self {
        Real(self.0.tanh())
    }

    fn below(self, rhs: Self) -> bool {
        self.0 < rhs.0
    }

    fn at_most(self, rhs: Self) -> bool {
        self.0 <= rhs.0
    }
}

fn reals(values: &[f64]) -> Vec<Real> {
    values.iter().map(|v| Real(*v)).collect()
}

fn matrix(rows: &[&[f64]]) -> Vec<Vec<Real>> {
    rows.iter().map(|row| reals(row)).collect()
}

fn no_draw(_low: Real, _high: Real) -> Real {
    panic!("the input layer draws no weights")
}

/// A network 2 -> 2 -> 1 with linear layers and weights that are exact in
/// binary.
fn small_network() -> NeuralNetwork<Real, Activation> {
    let mut network = NeuralNetwork::new();
    network.add_layer(2, Activation::Linear, no_draw);
    assert_eq!(
        network.add_layer_with_weights(
            2,
            Activation::Linear,
            matrix(&[&[0.5, -0.5], &[0.25, 0.75]])
        ),
        Ok(())
    );
    assert_eq!(
        network.add_layer_with_weights(1, Activation::Linear, matrix(&[&[2.0], &[3.0]])),
        Ok(())
    );
    network
}

fn predict(network: &mut NeuralNetwork<Real, Activation>, features: &[f64]) -> Vec<Real> {
    assert_eq!(network.propagate(reals(features)), Ok(()));
    network.get_outputs()
}

#[test]
fn new_network_has_no_layers() {
    let network: NeuralNetwork<Real, Activation> = NeuralNetwork::new();
    assert_eq!(network.layer_sizes(), Vec::<usize>::new());
}

#[test]
fn layers_keep_the_order_in_which_they_were_added() {
    let mut network: NeuralNetwork<Real, Activation> = NeuralNetwork::new();
    network.add_layer(4, Activation::Sigmoid, no_draw);
    network.add_layer(20, Activation::Sigmoid, |_low, _high| Real(0.0));
    network.add_layer(1, Activation::Linear, |_low, _high| Real(0.0));
    assert_eq!(network.layer_sizes(), vec![4, 20, 1]);
}

#[test]
fn a_new_layer_holds_zeros() {
    let mut network: NeuralNetwork<Real, Activation> = NeuralNetwork::new();
    network.add_layer(3, Activation::Sigmoid, no_draw);
    assert_eq!(network.get_outputs(), reals(&[0.0, 0.0, 0.0]));
    network.add_layer(2, Activation::Sigmoid, |_low, _high| Real(0.25));
    assert_eq!(network.get_outputs(), reals(&[0.0, 0.0]));
}

#[test]
fn weights_are_drawn_between_minus_and_plus_one_over_the_fan_in() {
    let asked: RefCell<Vec<(f64, f64)>> = RefCell::new(Vec::new());
    let mut network: NeuralNetwork<Real, Activation> = NeuralNetwork::new();
    network.add_layer(4, Activation::Linear, |low: Real, high: Real| {
        asked.borrow_mut().push((low.0, high.0));
        Real(0.0)
    });
    assert!(asked.borrow().is_empty());
    network.add_layer(3, Activation::Linear, |low: Real, high: Real| {
        asked.borrow_mut().push((low.0, high.0));
        Real(0.0)
    });
    assert_eq!(asked.borrow().len(), 12);
    assert!(asked.borrow().iter().all(|bounds| *bounds == (-0.25, 0.25)));
    asked.borrow_mut().clear();
    network.add_layer(1, Activation::Linear, |low: Real, high: Real| {
        asked.borrow_mut().push((low.0, high.0));
        Real(0.0)
    });
    assert_eq!(asked.borrow().len(), 3);
    assert!(asked
        .borrow()
        .iter()
        .all(|bounds| *bounds == (-1.0 / 3.0, 1.0 / 3.0)));
}

#[test]
fn drawn_weights_fill_the_matrix_neuron_by_neuron() {
    let next = RefCell::new(0.0);
    let mut network: NeuralNetwork<Real, Activation> = NeuralNetwork::new();
    network.add_layer(2, Activation::Linear, no_draw);
    network.add_layer(3, Activation::Linear, |_low, _high| {
        *next.borrow_mut() += 1.0;
        Real(*next.borrow())
    });
    // Drawn in the order w[0][0], w[1][0], w[0][1], w[1][1], w[0][2], w[1][2].
    assert_eq!(predict(&mut network, &[1.0, 0.0]), reals(&[1.0, 3.0, 5.0]));
    assert_eq!(predict(&mut network, &[0.0, 1.0]), reals(&[2.0, 4.0, 6.0]));
}

#[test]
fn forward_pass_multiplies_and_activates_layer_by_layer() {
    let mut network = small_network();
    // Hidden layer: [1 * 0.5 + 2 * 0.25, 1 * -0.5 + 2 * 0.75] = [1, 1].
    // Output layer: 1 * 2 + 1 * 3 = 5.
    assert_eq!(predict(&mut network, &[1.0, 2.0]), reals(&[5.0]));
    assert_eq!(predict(&mut network, &[4.0, 0.0]), reals(&[-2.0]));
}

#[test]
fn forward_pass_applies_the_activation_of_each_layer() {
    let mut network: NeuralNetwork<Real, Activation> = NeuralNetwork::new();
    network.add_layer(2, Activation::Sigmoid, no_draw);
    network
        .add_layer_with_weights(2, Activation::Relu, matrix(&[&[1.0, -1.0], &[1.0, -1.0]]))
        .unwrap();
    network
        .add_layer_with_weights(1, Activation::Tanh, matrix(&[&[0.5], &[7.0]]))
        .unwrap();
    // The input layer hands the features on without applying its function.
    // Hidden layer: relu([3, -3]) = [3, 0]; output: tanh(1.5).
    assert_eq!(predict(&mut network, &[1.0, 2.0]), reals(&[1.5f64.tanh()]));
}

#[test]
fn prediction_has_the_length_of_the_output_layer() {
    let mut network: NeuralNetwork<Real, Activation> = NeuralNetwork::new();
    network.add_layer(3, Activation::Sigmoid, no_draw);
    network.add_layer(5, Activation::Sigmoid, |low, _high| low);
    network.add_layer(4, Activation::Tanh, |_low, high| high);
    assert_eq!(predict(&mut network, &[0.1, 0.2, 0.3]).len(), 4);
    let mut network = small_network();
    assert_eq!(predict(&mut network, &[0.1, 0.2]).len(), 1);
}

#[test]
fn repeated_predictions_are_bit_identical() {
    let mut network: NeuralNetwork<Real, Activation> = NeuralNetwork::new();
    network.add_layer(2, Activation::Sigmoid, no_draw);
    network
        .add_layer_with_weights(
            3,
            Activation::Sigmoid,
            matrix(&[&[0.1, -0.7, 0.3], &[0.9, 0.2, -0.4]]),
        )
        .unwrap();
    network
        .add_layer_with_weights(
            2,
            Activation::Tanh,
            matrix(&[&[0.3, 0.1], &[-0.6, 0.8], &[0.5, -0.2]]),
        )
        .unwrap();
    let first = predict(&mut network, &[0.3, -1.7]);
    let other = predict(&mut network, &[5.0, 6.0]);
    let second = predict(&mut network, &[0.3, -1.7]);
    let third = predict(&mut network, &[0.3, -1.7]);
    assert_ne!(first, other);
    assert_eq!(first[0].0.to_bits(), second[0].0.to_bits());
    assert_eq!(first[1].0.to_bits(), second[1].0.to_bits());
    assert_eq!(second, third);
}

#[test]
fn propagate_needs_two_layers() {
    let mut network: NeuralNetwork<Real, Activation> = NeuralNetwork::new();
    assert_eq!(network.propagate(reals(&[])), Err(NetworkError::ConfigurationError));
    network.add_layer(2, Activation::Linear, no_draw);
    assert_eq!(
        network.propagate(reals(&[1.0, 2.0])),
        Err(NetworkError::ConfigurationError)
    );
    assert_eq!(network.get_outputs(), reals(&[0.0, 0.0]));
}

#[test]
fn propagate_refuses_features_of_the_wrong_length() {
    let mut network = small_network();
    assert_eq!(predict(&mut network, &[1.0, 2.0]), reals(&[5.0]));
    assert_eq!(
        network.propagate(reals(&[1.0])),
        Err(NetworkError::ShapeMismatchError)
    );
    assert_eq!(
        network.propagate(reals(&[1.0, 2.0, 3.0])),
        Err(NetworkError::ShapeMismatchError)
    );
    // A refused call leaves the last prediction in place.
    assert_eq!(network.get_outputs(), reals(&[5.0]));
}

#[test]
fn rows_need_two_layers() {
    let mut network: NeuralNetwork<Real, Activation> = NeuralNetwork::new();
    assert_eq!(
        network.add_training_row(reals(&[]), reals(&[])),
        Err(NetworkError::ConfigurationError)
    );
    network.add_layer(2, Activation::Linear, no_draw);
    assert_eq!(
        network.add_training_row(reals(&[1.0, 2.0]), reals(&[1.0, 2.0])),
        Err(NetworkError::ConfigurationError)
    );
    assert_eq!(
        network.add_testing_row(reals(&[1.0, 2.0]), reals(&[1.0, 2.0])),
        Err(NetworkError::ConfigurationError)
    );
}

#[test]
fn rows_of_the_wrong_length_are_refused() {
    let mut network = small_network();
    assert_eq!(
        network.add_training_row(reals(&[1.0]), reals(&[1.0])),
        Err(NetworkError::ShapeMismatchError)
    );
    assert_eq!(
        network.add_training_row(reals(&[1.0, 2.0]), reals(&[1.0, 2.0])),
        Err(NetworkError::ShapeMismatchError)
    );
    assert_eq!(
        network.add_testing_row(reals(&[1.0, 2.0, 3.0]), reals(&[1.0])),
        Err(NetworkError::ShapeMismatchError)
    );
    assert_eq!(
        network.add_testing_row(reals(&[1.0, 2.0]), reals(&[])),
        Err(NetworkError::ShapeMismatchError)
    );
    assert_eq!(network.add_training_row(reals(&[1.0, 2.0]), reals(&[1.0])), Ok(()));
    assert_eq!(network.add_testing_row(reals(&[1.0, 2.0]), reals(&[1.0])), Ok(()));
}

#[test]
fn explicit_weights_need_a_layer_before_them() {
    let mut network: NeuralNetwork<Real, Activation> = NeuralNetwork::new();
    assert_eq!(
        network.add_layer_with_weights(1, Activation::Linear, matrix(&[&[0.0]])),
        Err(NetworkError::ConfigurationError)
    );
    assert_eq!(network.layer_sizes(), Vec::<usize>::new());
}

#[test]
fn explicit_weights_of_the_wrong_shape_are_refused() {
    let mut network: NeuralNetwork<Real, Activation> = NeuralNetwork::new();
    network.add_layer(2, Activation::Linear, no_draw);
    assert_eq!(
        network.add_layer_with_weights(2, Activation::Linear, matrix(&[&[1.0, 2.0]])),
        Err(NetworkError::ShapeMismatchError)
    );
    assert_eq!(
        network.add_layer_with_weights(2, Activation::Linear, matrix(&[&[1.0, 2.0], &[3.0]])),
        Err(NetworkError::ShapeMismatchError)
    );
    assert_eq!(
        network.add_layer_with_weights(
            2,
            Activation::Linear,
            matrix(&[&[1.0, 2.0], &[3.0, 4.0], &[5.0, 6.0]])
        ),
        Err(NetworkError::ShapeMismatchError)
    );
    assert_eq!(network.layer_sizes(), vec![2]);
    assert_eq!(
        network.add_layer_with_weights(2, Activation::Linear, matrix(&[&[1.0, 2.0], &[3.0, 4.0]])),
        Ok(())
    );
    assert_eq!(network.layer_sizes(), vec![2, 2]);
}

/// An activation function of the caller's own: the square, with derivative
/// twice the input.
struct Square;

impl ActivationFunction<Real> for Square {
    fn apply(&self, x: Real) -> Real {
        Real(x.0 * x.0)
    }

    fn apply_derivative(&self, x: Real, _function_output: Real) -> Real {
        Real(2.0 * x.0)
    }
}

#[test]
fn the_caller_can_supply_an_activation_function() {
    let mut network: NeuralNetwork<Real, Square> = NeuralNetwork::new();
    network.add_layer(1, Square, no_draw);
    network
        .add_layer_with_weights(1, Square, matrix(&[&[3.0]]))
        .unwrap();
    assert_eq!(network.propagate(reals(&[2.0])), Ok(()));
    assert_eq!(network.get_outputs(), reals(&[36.0]));
}
