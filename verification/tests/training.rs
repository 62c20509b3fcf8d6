use feedforward::{
    Activation, CostFunction, MeanSquaredError, NetworkError, NeuralNetwork, Scalar,
};

#[derive(Clone, Copy, Debug, PartialEq)]
struct Real(f64);

impl Scalar for Real {
    fn from_count(n: usize) -> Self {
        Real(n as f64)
    }

    fn plus(self, rhs: Self) -> Self {
        Real(self.0 + rhs.0)
    }

    fn minus(self, rhs: Self) -> Self {
        Real(self.0 - rhs.0)
    }

    fn times(self, rhs: Self) -> Self {
        Real(self.0 * rhs.0)
    }

    fn over(self, rhs: Self) -> Self {
        Real(self.0 / rhs.0)
    }

    fn negated(self) -> Self {
        Real(-self.0)
    }

    fn exp(self) -> Self {
        Real(std::f64::consts::E.powf(self.0))
    }

    fn tanh(self) -> Self {
        Real(self.0.tanh())
    }

    fn below(self, rhs: Self) -> bool {
        self.0 < rhs.0
    }

    fn at_most(self, rhs: Self) -> bool {
        self.0 <= rhs.0
    }
}

fn reals(values: &[f64]) -> Vec<Real> {
    values.iter().map(|v| Real(*v)).collect()
}

fn matrix(rows: &[&[f64]]) -> Vec<Vec<Real>> {
    rows.iter().map(|row| reals(row)).collect()
}

fn no_draw(_low: Real, _high: Real) -> Real {
    panic!("the input layer draws no weights")
}

fn predict(network: &mut NeuralNetwork<Real, Activation>, features: &[f64]) -> Vec<Real> {
    assert_eq!(network.propagate(reals(features)), Ok(()));
    network.get_outputs()
}

/// A network 2 -> 1 with a linear output and weights 0.5 and 0.25.
fn single_layer_network() -> NeuralNetwork<Real, Activation> {
    let mut network = NeuralNetwork::new();
    network.add_layer(2, Activation::Linear, no_draw);
    network
        .add_layer_with_weights(1, Activation::Linear, matrix(&[&[0.5], &[0.25]]))
        .unwrap();
    network
}

/// A network 1 -> 1 -> 1 with linear layers and weights 2 and 3.
fn chain_network() -> NeuralNetwork<Real, Activation> {
    let mut network = NeuralNetwork::new();
    network.add_layer(1, Activation::Linear, no_draw);
    network
        .add_layer_with_weights(1, Activation::Linear, matrix(&[&[2.0]]))
        .unwrap();
    network
        .add_layer_with_weights(1, Activation::Linear, matrix(&[&[3.0]]))
        .unwrap();
    network
}

/// A network 2 -> 2 -> 1 with a sigmoid hidden layer, a linear output and
/// fixed weights, holding the four rows of exclusive or in both datasets.
fn xor_network() -> NeuralNetwork<Real, Activation> {
    let mut network = NeuralNetwork::new();
    network.add_layer(2, Activation::Sigmoid, no_draw);
    network
        .add_layer_with_weights(
            2,
            Activation::Sigmoid,
            matrix(&[&[0.35, -0.45], &[-0.25, 0.4]]),
        )
        .unwrap();
    network
        .add_layer_with_weights(1, Activation::Linear, matrix(&[&[0.3], &[-0.2]]))
        .unwrap();
    for (inputs, output) in [
        ([0.0, 0.0], 0.0),
        ([0.0, 1.0], 1.0),
        ([1.0, 0.0], 1.0),
        ([1.0, 1.0], 0.0),
    ] {
        network.add_training_row(reals(&inputs), reals(&[output])).unwrap();
        network.add_testing_row(reals(&inputs), reals(&[output])).unwrap();
    }
    network
}

#[test]
fn one_step_moves_each_weight_by_rate_times_error_times_input() {
    let mut network = single_layer_network();
    network.add_training_row(reals(&[1.0, 2.0]), reals(&[2.0])).unwrap();
    // Prediction 0.5 + 0.5 = 1, error term (2 - 1) * 1 = 1.
    // New weights 0.5 + 0.5 * 1 * 1 = 1 and 0.25 + 0.5 * 1 * 2 = 1.25.
    let costs = network.train(1, Real(0.5), MeanSquaredError);
    assert_eq!(costs, reals(&[0.0]));
    assert_eq!(predict(&mut network, &[1.0, 0.0]), reals(&[1.0]));
    assert_eq!(predict(&mut network, &[0.0, 1.0]), reals(&[1.25]));
}

#[test]
fn weights_move_in_the_direction_of_the_gradient() {
    // Target above the prediction: weights of positive inputs grow, weights
    // of negative inputs shrink, weights of zero inputs stay.
    let mut network: NeuralNetwork<Real, Activation> = NeuralNetwork::new();
    network.add_layer(3, Activation::Linear, no_draw);
    network
        .add_layer_with_weights(1, Activation::Linear, matrix(&[&[0.5], &[0.25], &[-0.75]]))
        .unwrap();
    network
        .add_training_row(reals(&[1.0, -2.0, 0.0]), reals(&[3.0]))
        .unwrap();
    assert_eq!(predict(&mut network, &[1.0, -2.0, 0.0]), reals(&[0.0]));
    network.train(1, Real(0.01), MeanSquaredError);
    assert!(predict(&mut network, &[1.0, 0.0, 0.0])[0].0 > 0.5);
    assert!(predict(&mut network, &[0.0, 1.0, 0.0])[0].0 < 0.25);
    assert_eq!(predict(&mut network, &[0.0, 0.0, 1.0]), reals(&[-0.75]));

    // Target below the prediction: the other way round.
    let mut network: NeuralNetwork<Real, Activation> = NeuralNetwork::new();
    network.add_layer(3, Activation::Linear, no_draw);
    network
        .add_layer_with_weights(1, Activation::Linear, matrix(&[&[0.5], &[0.25], &[-0.75]]))
        .unwrap();
    network
        .add_training_row(reals(&[1.0, -2.0, 0.0]), reals(&[-3.0]))
        .unwrap();
    network.train(1, Real(0.01), MeanSquaredError);
    assert!(predict(&mut network, &[1.0, 0.0, 0.0])[0].0 < 0.5);
    assert!(predict(&mut network, &[0.0, 1.0, 0.0])[0].0 > 0.25);
    assert_eq!(predict(&mut network, &[0.0, 0.0, 1.0]), reals(&[-0.75]));
}

#[test]
fn hidden_errors_use_the_weights_as_they_were_before_the_update() {
    let mut network = chain_network();
    network.add_training_row(reals(&[1.0]), reals(&[10.0])).unwrap();
    // Forward: hidden 2, output 6. Output error term 10 - 6 = 4.
    // Hidden error term 3 * 4 = 12, from the old output weight 3.
    // New weights: 3 + 0.5 * 4 * 2 = 7 and 2 + 0.5 * 12 * 1 = 8.
    network.train(1, Real(0.5), MeanSquaredError);
    assert_eq!(predict(&mut network, &[1.0]), reals(&[56.0]));
}

#[test]
fn rows_are_trained_on_in_the_order_in_which_they_were_added() {
    let mut network = single_layer_network();
    network.add_training_row(reals(&[1.0, 0.0]), reals(&[1.5])).unwrap();
    network.add_training_row(reals(&[1.0, 0.0]), reals(&[0.0])).unwrap();
    // First row: prediction 0.5, error 1, weight 0.5 + 0.5 * 1 * 1 = 1.
    // Second row: prediction 1, error -1, weight 1 + 0.5 * -1 * 1 = 0.5.
    network.train(1, Real(0.5), MeanSquaredError);
    assert_eq!(predict(&mut network, &[1.0, 0.0]), reals(&[0.5]));

    let mut network = single_layer_network();
    network.add_training_row(reals(&[1.0, 0.0]), reals(&[0.0])).unwrap();
    network.add_training_row(reals(&[1.0, 0.0]), reals(&[1.5])).unwrap();
    // First row: prediction 0.5, error -0.5, weight 0.25.
    // Second row: prediction 0.25, error 1.25, weight 0.25 + 0.625 = 0.875.
    network.train(1, Real(0.5), MeanSquaredError);
    assert_eq!(predict(&mut network, &[1.0, 0.0]), reals(&[0.875]));
}

#[test]
fn aggregate_cost_adds_up_every_prediction_of_every_testing_row() {
    let mut network = single_layer_network();
    // Predictions 0.5 + 0.5 = 1 and 2 + 0 = 2.
    network.add_testing_row(reals(&[1.0, 2.0]), reals(&[3.0])).unwrap();
    network.add_testing_row(reals(&[4.0, 0.0]), reals(&[1.0])).unwrap();
    // 0.5 * (3 - 1)^2 + 0.5 * (1 - 2)^2 = 2 + 0.5.
    assert_eq!(network.get_error(&MeanSquaredError), Real(2.5));
    assert_eq!(network.get_error(&MeanSquaredError), Real(2.5));
}

#[test]
fn aggregate_cost_covers_every_output_neuron() {
    let mut network: NeuralNetwork<Real, Activation> = NeuralNetwork::new();
    network.add_layer(1, Activation::Linear, no_draw);
    network
        .add_layer_with_weights(2, Activation::Linear, matrix(&[&[1.0, 2.0]]))
        .unwrap();
    network.add_testing_row(reals(&[1.0]), reals(&[3.0, 5.0])).unwrap();
    // 0.5 * (3 - 1)^2 + 0.5 * (5 - 2)^2 = 2 + 4.5.
    assert_eq!(network.get_error(&MeanSquaredError), Real(6.5));
}

#[test]
fn evaluating_the_cost_leaves_the_last_row_in_the_output_layer() {
    let mut network = single_layer_network();
    network.add_testing_row(reals(&[1.0, 2.0]), reals(&[3.0])).unwrap();
    network.add_testing_row(reals(&[4.0, 0.0]), reals(&[1.0])).unwrap();
    network.get_error(&MeanSquaredError);
    assert_eq!(network.get_outputs(), reals(&[2.0]));
}

#[test]
fn training_reports_the_cost_after_each_epoch() {
    let mut network = single_layer_network();
    network.add_training_row(reals(&[1.0, 2.0]), reals(&[2.0])).unwrap();
    network.add_testing_row(reals(&[1.0, 0.0]), reals(&[0.0])).unwrap();
    // Epoch 1: weights 1 and 1.25 (see above), prediction 1, cost 0.5.
    // Epoch 2: prediction 3.5, error -1.5, weights 1 - 0.75 = 0.25 and
    // 1.25 - 1.5 = -0.25; prediction 0.25, cost 0.5 * 0.0625.
    let costs = network.train(2, Real(0.5), MeanSquaredError);
    assert_eq!(costs, reals(&[0.5, 0.03125]));
    assert_eq!(predict(&mut network, &[0.0, 1.0]), reals(&[-0.25]));
}

#[test]
fn no_epochs_no_updates_and_no_costs() {
    let mut network = single_layer_network();
    network.add_training_row(reals(&[1.0, 2.0]), reals(&[2.0])).unwrap();
    network.add_testing_row(reals(&[1.0, 0.0]), reals(&[0.0])).unwrap();
    assert_eq!(predict(&mut network, &[1.0, 1.0]), reals(&[0.75]));
    let costs = network.train(0, Real(0.5), MeanSquaredError);
    assert_eq!(costs, reals(&[]));
    assert_eq!(network.get_outputs(), reals(&[0.75]));
    assert_eq!(predict(&mut network, &[1.0, 0.0]), reals(&[0.5]));
    assert_eq!(predict(&mut network, &[0.0, 1.0]), reals(&[0.25]));
}

#[test]
fn without_training_rows_the_weights_stay() {
    let mut network = single_layer_network();
    network.add_testing_row(reals(&[1.0, 2.0]), reals(&[3.0])).unwrap();
    let costs = network.train(3, Real(0.5), MeanSquaredError);
    assert_eq!(costs, reals(&[2.0, 2.0, 2.0]));
    assert_eq!(predict(&mut network, &[1.0, 0.0]), reals(&[0.5]));
    assert_eq!(predict(&mut network, &[0.0, 1.0]), reals(&[0.25]));
}

#[test]
fn without_testing_rows_the_cost_is_zero() {
    let mut network = single_layer_network();
    assert_eq!(network.get_error(&MeanSquaredError), Real(0.0));
    network.add_training_row(reals(&[1.0, 2.0]), reals(&[2.0])).unwrap();
    assert_eq!(network.train(3, Real(0.1), MeanSquaredError), reals(&[0.0, 0.0, 0.0]));
}

#[test]
fn training_a_network_without_layers_does_nothing() {
    let mut network: NeuralNetwork<Real, Activation> = NeuralNetwork::new();
    assert_eq!(network.train(2, Real(0.1), MeanSquaredError), reals(&[0.0, 0.0]));
    assert_eq!(network.get_error(&MeanSquaredError), Real(0.0));
    assert_eq!(network.layer_sizes(), Vec::<usize>::new());
}

#[test]
fn a_refused_row_leaves_the_datasets_as_they_were() {
    let mut network = single_layer_network();
    network.add_training_row(reals(&[1.0, 2.0]), reals(&[2.0])).unwrap();
    network.add_testing_row(reals(&[1.0, 0.0]), reals(&[0.0])).unwrap();
    let mut twin = single_layer_network();
    twin.add_training_row(reals(&[1.0, 2.0]), reals(&[2.0])).unwrap();
    twin.add_testing_row(reals(&[1.0, 0.0]), reals(&[0.0])).unwrap();

    assert_eq!(
        network.add_training_row(reals(&[9.0]), reals(&[9.0])),
        Err(NetworkError::ShapeMismatchError)
    );
    assert_eq!(
        network.add_training_row(reals(&[9.0, 9.0]), reals(&[9.0, 9.0])),
        Err(NetworkError::ShapeMismatchError)
    );
    assert_eq!(
        network.add_testing_row(reals(&[9.0, 9.0, 9.0]), reals(&[9.0])),
        Err(NetworkError::ShapeMismatchError)
    );
    assert_eq!(
        network.add_testing_row(reals(&[9.0, 9.0]), reals(&[])),
        Err(NetworkError::ShapeMismatchError)
    );

    assert_eq!(network.get_error(&MeanSquaredError), twin.get_error(&MeanSquaredError));
    assert_eq!(
        network.train(2, Real(0.5), MeanSquaredError),
        twin.train(2, Real(0.5), MeanSquaredError)
    );
    assert_eq!(
        predict(&mut network, &[1.0, 1.0]),
        predict(&mut twin, &[1.0, 1.0])
    );
}

#[test]
fn training_with_the_same_weights_and_rows_gives_the_same_network() {
    let mut first = xor_network();
    let mut second = xor_network();
    let first_costs = first.train(50, Real(0.05), MeanSquaredError);
    second.propagate(reals(&[0.7, 0.1])).unwrap();
    let second_costs = second.train(50, Real(0.05), MeanSquaredError);
    assert_eq!(first_costs, second_costs);
    let a = predict(&mut first, &[1.0, 0.0]);
    let b = predict(&mut second, &[1.0, 0.0]);
    assert_eq!(a[0].0.to_bits(), b[0].0.to_bits());
}

#[test]
fn training_does_not_raise_the_cost_of_a_learnable_dataset() {
    // The rows follow output = 2 * first + 3 * second.
    let mut network = single_layer_network();
    for (inputs, output) in [
        ([1.0, 0.0], 2.0),
        ([0.0, 1.0], 3.0),
        ([1.0, 1.0], 5.0),
        ([0.5, 0.25], 1.75),
    ] {
        network.add_training_row(reals(&inputs), reals(&[output])).unwrap();
        network.add_testing_row(reals(&inputs), reals(&[output])).unwrap();
    }
    let before = network.get_error(&MeanSquaredError);
    let costs = network.train(500, Real(0.01), MeanSquaredError);
    assert_eq!(costs.len(), 500);
    assert!(costs[499].0 <= before.0);
    assert!(costs[499].0 < 0.01);
    let learned = predict(&mut network, &[2.0, 2.0])[0].0;
    assert!((learned - 10.0).abs() < 0.5);
}

#[test]
fn exclusive_or_cost_decreases_from_the_first_epoch_to_the_last() {
    let mut network = xor_network();
    let costs = network.train(2000, Real(0.01), MeanSquaredError);
    assert_eq!(costs.len(), 2000);
    assert!(costs[1999].0 < costs[0].0);
}

/// A cost function of the caller's own: the absolute difference.
struct AbsoluteError;

impl CostFunction<Real> for AbsoluteError {
    fn apply(&self, output: Real, expected: Real) -> Real {
        Real((expected.0 - output.0).abs())
    }

    fn apply_derivative(&self, output: Real, expected: Real) -> Real {
        Real((expected.0 - output.0).signum())
    }
}

#[test]
fn the_caller_can_supply_a_cost_function() {
    let mut network = single_layer_network();
    network.add_training_row(reals(&[1.0, 2.0]), reals(&[4.0])).unwrap();
    network.add_testing_row(reals(&[1.0, 2.0]), reals(&[4.0])).unwrap();
    assert_eq!(network.get_error(&AbsoluteError), Real(3.0));
    // Error term 1; weights 0.5 + 0.5 * 1 * 1 = 1 and 0.25 + 0.5 * 1 * 2 = 1.25.
    let costs = network.train(1, Real(0.5), AbsoluteError);
    assert_eq!(costs, reals(&[0.5]));
}
