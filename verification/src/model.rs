//! The mathematics of the network, over sequences.
//!
//! A layer stack is modelled as a sequence of [`LayerModel`]s. The functions
//! here say which stacks and rows fit each other, and what a forward pass, a
//! backward pass, a training sweep and a cost evaluation compute where each
//! operation on numbers has one result.
use crate::error::NetworkError;
use crate::nn_functions::{ActivationFunction, CostFunction};
use crate::scalar::{one, zero, Scalar};
use vstd::prelude::*;

verus! {

/// One layer: its inbound weights, indexed `[previous neuron][neuron]`, and
/// the values left in it by the last forward and backward pass.
pub struct LayerModel<T, A> {
    pub size: nat,
    pub weights_in: Seq<Seq<T>>,
    pub inputs: Seq<T>,
    pub outputs: Seq<T>,
    pub errors: Seq<T>,
    pub activation_function: A,
}

/// One example: what goes in and what should come out.
pub struct RowModel<T> {
    pub inputs: Seq<T>,
    pub outputs: Seq<T>,
}

/// A network: its layers, input layer first, and its two datasets.
pub struct NetworkModel<T, A> {
    pub layers: Seq<LayerModel<T, A>>,
    pub training_dataset: Seq<RowModel<T>>,
    pub testing_dataset: Seq<RowModel<T>>,
}

/// A matrix stored row by row, as a sequence of sequences.
pub open spec fn matrix_view<T>(m: Vec<Vec<T>>) -> Seq<Seq<T>> {
    Seq::new(m.len() as nat, |i: int| m[i]@)
}

/// `m` has `rows` rows of `columns` entries each.
pub open spec fn is_matrix<T>(m: Seq<Seq<T>>, rows: nat, columns: nat) -> bool {
    &&& m.len() == rows
    &&& forall|i: int| 0 <= i < rows ==> (#[trigger] m[i]).len() == columns
}

/// The number of previous neurons that feed layer `l`. The input layer has
/// none; its weight matrix is an unused placeholder of one entry.
pub open spec fn fan_in<T, A>(layers: Seq<LayerModel<T, A>>, l: int) -> nat {
    if l <= 0 {
        1
    } else {
        layers[l - 1].size
    }
}

/// The number of columns of the weight matrix of layer `l`.
pub open spec fn fan_out<T, A>(layers: Seq<LayerModel<T, A>>, l: int) -> nat {
    if l <= 0 {
        1
    } else {
        layers[l].size
    }
}

/// The layer has at least one neuron, and its vectors have one entry for
/// each.
pub open spec fn vectors_fit<T, A>(layer: LayerModel<T, A>) -> bool {
    &&& layer.size > 0
    &&& layer.inputs.len() == layer.size
    &&& layer.outputs.len() == layer.size
    &&& layer.errors.len() == layer.size
}

/// The weight matrix of layer `l` has one row for each neuron of the layer
/// before it and one column for each neuron of its own.
pub open spec fn weights_fit<T, A>(layers: Seq<LayerModel<T, A>>, l: int) -> bool {
    is_matrix(layers[l].weights_in, fan_in(layers, l), fan_out(layers, l))
}

/// Every layer has vectors of its own size and a weight matrix that fits
/// between it and the layer before it.
pub open spec fn well_formed<T, A>(layers: Seq<LayerModel<T, A>>) -> bool {
    &&& forall|l: int| 0 <= l < layers.len() ==> vectors_fit(#[trigger] layers[l])
    &&& forall|l: int| 0 <= l < layers.len() ==> #[trigger] weights_fit(layers, l)
}

/// A row fits a stack when its inputs fill the first layer and its outputs
/// match the last.
pub open spec fn row_fits<T, A>(layers: Seq<LayerModel<T, A>>, row: RowModel<T>) -> bool {
    &&& layers.len() >= 2
    &&& row.inputs.len() == layers[0].size
    &&& row.outputs.len() == layers.last().size
}

/// The layers are well formed and every stored row fits them.
pub open spec fn consistent<T, A>(network: NetworkModel<T, A>) -> bool {
    &&& well_formed(network.layers)
    &&& forall|k: int|
        0 <= k < network.training_dataset.len() ==> row_fits(
            network.layers,
            #[trigger] network.training_dataset[k],
        )
    &&& forall|k: int|
        0 <= k < network.testing_dataset.len() ==> row_fits(
            network.layers,
            #[trigger] network.testing_dataset[k],
        )
}

/// A vector of `n` zeros.
pub open spec fn zero_vector<T: Scalar>(n: nat) -> Seq<T> {
    Seq::new(n, |i: int| zero::<T>())
}

/// What sending `n` features into a stack of these layers comes to: the
/// stack must have an input and an output layer, and the features must fill
/// the input layer.
pub open spec fn features_verdict<T, A>(layers: Seq<LayerModel<T, A>>, n: nat) -> Result<
    (),
    NetworkError,
> {
    if layers.len() < 2 {
        Err(NetworkError::ConfigurationError)
    } else if n != layers[0].size {
        Err(NetworkError::ShapeMismatchError)
    } else {
        Ok(())
    }
}

/// What adding a row to the datasets of a stack of these layers comes to:
/// its inputs are held against the stack as features are, and then its
/// outputs against the output layer.
pub open spec fn row_verdict<T, A>(layers: Seq<LayerModel<T, A>>, row: RowModel<T>) -> Result<
    (),
    NetworkError,
> {
    if features_verdict(layers, row.inputs.len()) is Err {
        features_verdict(layers, row.inputs.len())
    } else if row.outputs.len() != layers.last().size {
        Err(NetworkError::ShapeMismatchError)
    } else {
        Ok(())
    }
}

/// What adding a layer with these weights to a stack of these layers comes
/// to.
pub open spec fn weights_verdict<T, A>(
    layers: Seq<LayerModel<T, A>>,
    weights_in: Seq<Seq<T>>,
    size: usize,
) -> Result<(), NetworkError> {
    if layers.len() == 0 {
        Err(NetworkError::ConfigurationError)
    } else if !is_matrix(weights_in, layers.last().size, size as nat) {
        Err(NetworkError::ShapeMismatchError)
    } else {
        Ok(())
    }
}

/// The lower end of the interval from which the initial weights of a layer
/// fed by `fan_in` neurons are drawn: minus one over `fan_in`.
pub open spec fn initial_weight_low<T: Scalar>(fan_in: nat) -> T {
    one::<T>().opposite().quotient(T::counted(fan_in as usize))
}

/// The upper end of that interval: one over `fan_in`.
pub open spec fn initial_weight_high<T: Scalar>(fan_in: nat) -> T {
    one::<T>().quotient(T::counted(fan_in as usize))
}

/// Every entry of `weights` is a number that `draw` can return when it is
/// asked for an initial weight of a layer fed by `fan_in` neurons.
pub open spec fn drawn_from<T: Scalar, F: Fn(T, T) -> T>(
    draw: F,
    fan_in: nat,
    weights: Seq<Seq<T>>,
) -> bool {
    forall|i: int, j: int|
        0 <= i < weights.len() && 0 <= j < weights[i].len() ==> call_ensures(
            draw,
            (initial_weight_low::<T>(fan_in), initial_weight_high::<T>(fan_in)),
            #[trigger] weights[i][j],
        )
}

/// A layer as it is when it is added: weights as given, everything else
/// zero.
pub open spec fn fresh_layer<T: Scalar, A>(
    size: usize,
    activation_function: A,
    weights_in: Seq<Seq<T>>,
) -> LayerModel<T, A> {
    LayerModel {
        size: size as nat,
        weights_in,
        inputs: zero_vector(size as nat),
        outputs: zero_vector(size as nat),
        errors: zero_vector(size as nat),
        activation_function,
    }
}

/// Two stacks with the same number of layers, and in each layer the same
/// number of neurons and the same activation function.
pub open spec fn same_architecture<T, A>(
    a: Seq<LayerModel<T, A>>,
    b: Seq<LayerModel<T, A>>,
) -> bool {
    &&& a.len() == b.len()
    &&& forall|l: int|
        0 <= l < a.len() ==> {
            &&& (#[trigger] a[l]).size == (#[trigger] b[l]).size
            &&& a[l].activation_function == b[l].activation_function
        }
}

/// Two stacks that differ at most in what the last forward pass left in
/// them: architecture, weights and error terms are the same.
pub open spec fn same_but_activity<T, A>(
    a: Seq<LayerModel<T, A>>,
    b: Seq<LayerModel<T, A>>,
) -> bool {
    &&& a.len() == b.len()
    &&& forall|l: int|
        0 <= l < a.len() ==> {
            &&& (#[trigger] a[l]).size == (#[trigger] b[l]).size
            &&& a[l].weights_in == b[l].weights_in
            &&& a[l].errors == b[l].errors
            &&& a[l].activation_function == b[l].activation_function
        }
}

/// Two stacks with the same architecture and weights; what the last passes
/// left in them may differ.
pub open spec fn same_weights<T, A>(a: Seq<LayerModel<T, A>>, b: Seq<LayerModel<T, A>>) -> bool {
    &&& a.len() == b.len()
    &&& forall|l: int|
        0 <= l < a.len() ==> {
            &&& (#[trigger] a[l]).size == (#[trigger] b[l]).size
            &&& a[l].weights_in == b[l].weights_in
            &&& a[l].activation_function == b[l].activation_function
        }
}

/// The first `n` terms of entry `j` of the product of the row vector `v` and
/// the matrix `m`, summed from the first term on, starting at zero.
pub open spec fn dot_column<T: Scalar>(v: Seq<T>, m: Seq<Seq<T>>, j: int, n: nat) -> T
    decreases n,
{
    if n == 0 {
        zero()
    } else {
        dot_column(v, m, j, (n - 1) as nat).sum(v[n - 1].product(m[n - 1][j]))
    }
}

/// The product of the row vector `v` and the matrix `m` of `columns` columns.
pub open spec fn vector_matrix<T: Scalar>(v: Seq<T>, m: Seq<Seq<T>>, columns: nat) -> Seq<T> {
    Seq::new(columns, |j: int| dot_column(v, m, j, v.len()))
}

/// The activation function `f` applied to each entry of `v`.
pub open spec fn activated<T: Scalar, A: ActivationFunction<T>>(f: A, v: Seq<T>) -> Seq<T> {
    Seq::new(v.len(), |n: int| f.value(v[n]))
}

/// What leaves layer `l` when `features` enter the stack. The input layer
/// hands the features on as they are.
pub open spec fn post_activation<T: Scalar, A: ActivationFunction<T>>(
    layers: Seq<LayerModel<T, A>>,
    features: Seq<T>,
    l: int,
) -> Seq<T>
    decreases l,
{
    if l <= 0 {
        features
    } else {
        activated(
            layers[l].activation_function,
            vector_matrix(
                post_activation(layers, features, l - 1),
                layers[l].weights_in,
                layers[l].size,
            ),
        )
    }
}

/// What enters the neurons of layer `l` when `features` enter the stack.
pub open spec fn pre_activation<T: Scalar, A: ActivationFunction<T>>(
    layers: Seq<LayerModel<T, A>>,
    features: Seq<T>,
    l: int,
) -> Seq<T> {
    if l <= 0 {
        features
    } else {
        vector_matrix(
            post_activation(layers, features, l - 1),
            layers[l].weights_in,
            layers[l].size,
        )
    }
}

/// The stack after a forward pass of `features`: weights and error terms as
/// before, each layer holding what entered and what left it.
pub open spec fn fed_forward<T: Scalar, A: ActivationFunction<T>>(
    layers: Seq<LayerModel<T, A>>,
    features: Seq<T>,
) -> Seq<LayerModel<T, A>> {
    Seq::new(
        layers.len(),
        |l: int|
            LayerModel {
                inputs: pre_activation(layers, features, l),
                outputs: post_activation(layers, features, l),
                ..layers[l]
            },
    )
}

/// What the network predicts for `features`: what leaves its last layer.
pub open spec fn predicted<T: Scalar, A: ActivationFunction<T>>(
    layers: Seq<LayerModel<T, A>>,
    features: Seq<T>,
) -> Seq<T> {
    post_activation(layers, features, layers.len() - 1)
}

/// The error terms of the output layer: for each neuron the derivative of
/// the cost times the derivative of the activation.
pub open spec fn output_errors<T: Scalar, A: ActivationFunction<T>, C: CostFunction<T>>(
    layer: LayerModel<T, A>,
    cost_function: C,
    targets: Seq<T>,
) -> Seq<T> {
    Seq::new(
        layer.size,
        |n: int|
            cost_function.slope(layer.outputs[n], targets[n]).product(
                layer.activation_function.slope(layer.inputs[n], layer.outputs[n]),
            ),
    )
}

/// The first `n` terms of the error that flows back into one neuron: each
/// outbound weight times the error term of the neuron it leads to, summed
/// from the first term on, starting at zero.
pub open spec fn weighted_errors_sum<T: Scalar>(weights_out: Seq<T>, errors: Seq<T>, n: nat) -> T
    decreases n,
{
    if n == 0 {
        zero()
    } else {
        weighted_errors_sum(weights_out, errors, (n - 1) as nat).sum(
            weights_out[n - 1].product(errors[n - 1]),
        )
    }
}

/// The error terms of a hidden layer, from the weights and error terms of
/// the layer after it.
pub open spec fn hidden_errors<T: Scalar, A: ActivationFunction<T>>(
    layer: LayerModel<T, A>,
    next_weights: Seq<Seq<T>>,
    next_errors: Seq<T>,
) -> Seq<T> {
    Seq::new(
        layer.size,
        |n: int|
            weighted_errors_sum(next_weights[n], next_errors, next_errors.len()).product(
                layer.activation_function.slope(layer.inputs[n], layer.outputs[n]),
            ),
    )
}

/// The error terms of layer `l`, for `l` from the second layer to the last.
pub open spec fn error_terms<T: Scalar, A: ActivationFunction<T>, C: CostFunction<T>>(
    layers: Seq<LayerModel<T, A>>,
    cost_function: C,
    targets: Seq<T>,
    l: int,
) -> Seq<T>
    decreases layers.len() - l,
{
    if l >= layers.len() - 1 {
        output_errors(layers.last(), cost_function, targets)
    } else {
        hidden_errors(
            layers[l],
            layers[l + 1].weights_in,
            error_terms(layers, cost_function, targets, l + 1),
        )
    }
}

/// One weight after its update: the learning rate times the error term of
/// the neuron it leads to, times what left the neuron it comes from, added
/// to the weight.
pub open spec fn updated_weight<T: Scalar>(
    weight: T,
    learning_rate: T,
    error: T,
    previous_output: T,
) -> T {
    weight.sum(learning_rate.product(error).product(previous_output))
}

/// A weight matrix after the update of all its entries.
pub open spec fn updated_weights<T: Scalar>(
    weights: Seq<Seq<T>>,
    learning_rate: T,
    errors: Seq<T>,
    previous_outputs: Seq<T>,
) -> Seq<Seq<T>> {
    Seq::new(
        weights.len(),
        |i: int|
            Seq::new(
                weights[i].len(),
                |j: int|
                    updated_weight(weights[i][j], learning_rate, errors[j], previous_outputs[i]),
            ),
    )
}

/// The stack after a backward pass towards `targets`. Every error term is
/// computed from the weights as they were; then every weight is updated.
/// The input layer stays as it is.
pub open spec fn propagated_back<T: Scalar, A: ActivationFunction<T>, C: CostFunction<T>>(
    layers: Seq<LayerModel<T, A>>,
    learning_rate: T,
    cost_function: C,
    targets: Seq<T>,
) -> Seq<LayerModel<T, A>> {
    Seq::new(
        layers.len(),
        |l: int|
            if l == 0 {
                layers[0]
            } else {
                LayerModel {
                    errors: error_terms(layers, cost_function, targets, l),
                    weights_in: updated_weights(
                        layers[l].weights_in,
                        learning_rate,
                        error_terms(layers, cost_function, targets, l),
                        layers[l - 1].outputs,
                    ),
                    ..layers[l]
                }
            },
    )
}

/// The stack after one training step: a forward pass of the row's inputs,
/// then a backward pass towards its outputs.
pub open spec fn trained_on_row<T: Scalar, A: ActivationFunction<T>, C: CostFunction<T>>(
    layers: Seq<LayerModel<T, A>>,
    row: RowModel<T>,
    learning_rate: T,
    cost_function: C,
) -> Seq<LayerModel<T, A>> {
    propagated_back(fed_forward(layers, row.inputs), learning_rate, cost_function, row.outputs)
}

/// The stack after training on the first `n` rows, one after the other.
pub open spec fn trained_on_rows<T: Scalar, A: ActivationFunction<T>, C: CostFunction<T>>(
    layers: Seq<LayerModel<T, A>>,
    rows: Seq<RowModel<T>>,
    learning_rate: T,
    cost_function: C,
    n: nat,
) -> Seq<LayerModel<T, A>>
    decreases n,
{
    if n == 0 {
        layers
    } else {
        trained_on_row(
            trained_on_rows(layers, rows, learning_rate, cost_function, (n - 1) as nat),
            rows[n - 1],
            learning_rate,
            cost_function,
        )
    }
}

/// `total` plus the cost of the first `n` predictions of one row, added one
/// by one.
pub open spec fn accumulated_cost<T: Scalar, C: CostFunction<T>>(
    total: T,
    cost_function: C,
    output: Seq<T>,
    expected: Seq<T>,
    n: nat,
) -> T
    decreases n,
{
    if n == 0 {
        total
    } else {
        accumulated_cost(total, cost_function, output, expected, (n - 1) as nat).sum(
            cost_function.value(output[n - 1], expected[n - 1]),
        )
    }
}

/// The cost of the network's predictions over the first `n` rows: one sum
/// that starts at zero and runs through the rows in order, and in each row
/// through the output neurons in order.
pub open spec fn aggregate_cost<T: Scalar, A: ActivationFunction<T>, C: CostFunction<T>>(
    layers: Seq<LayerModel<T, A>>,
    rows: Seq<RowModel<T>>,
    cost_function: C,
    n: nat,
) -> T
    decreases n,
{
    if n == 0 {
        zero()
    } else {
        accumulated_cost(
            aggregate_cost(layers, rows, cost_function, (n - 1) as nat),
            cost_function,
            predicted(layers, rows[n - 1].inputs),
            rows[n - 1].outputs,
            layers.last().size,
        )
    }
}

/// The stack after its cost over `rows` was evaluated: as a forward pass of
/// the last row leaves it, or untouched where there are no rows.
pub open spec fn evaluated<T: Scalar, A: ActivationFunction<T>>(
    layers: Seq<LayerModel<T, A>>,
    rows: Seq<RowModel<T>>,
) -> Seq<LayerModel<T, A>> {
    if rows.len() == 0 {
        layers
    } else {
        fed_forward(layers, rows.last().inputs)
    }
}

/// The stack after one epoch: trained on every training row in order, then
/// evaluated on the testing rows.
pub open spec fn after_epoch<T: Scalar, A: ActivationFunction<T>, C: CostFunction<T>>(
    network: NetworkModel<T, A>,
    learning_rate: T,
    cost_function: C,
) -> NetworkModel<T, A> {
    NetworkModel {
        layers: evaluated(
            trained_on_rows(
                network.layers,
                network.training_dataset,
                learning_rate,
                cost_function,
                network.training_dataset.len(),
            ),
            network.testing_dataset,
        ),
        ..network
    }
}

/// The network after `epochs` epochs.
pub open spec fn after_epochs<T: Scalar, A: ActivationFunction<T>, C: CostFunction<T>>(
    network: NetworkModel<T, A>,
    learning_rate: T,
    cost_function: C,
    epochs: nat,
) -> NetworkModel<T, A>
    decreases epochs,
{
    if epochs == 0 {
        network
    } else {
        after_epoch(
            after_epochs(network, learning_rate, cost_function, (epochs - 1) as nat),
            learning_rate,
            cost_function,
        )
    }
}

/// The cost over the testing rows that a network reports once it has
/// trained for `epochs` epochs, for `epochs` of at least one.
pub open spec fn epoch_cost<T: Scalar, A: ActivationFunction<T>, C: CostFunction<T>>(
    network: NetworkModel<T, A>,
    learning_rate: T,
    cost_function: C,
    epochs: nat,
) -> T {
    aggregate_cost(
        after_epochs(network, learning_rate, cost_function, epochs).layers,
        network.testing_dataset,
        cost_function,
        network.testing_dataset.len(),
    )
}

} // verus!
