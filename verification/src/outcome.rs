//! What a pass can make of a stack, over any numbers.
//!
//! The functions of [`crate::model`] say what a pass computes where each
//! operation has one result. The relations here do without that: they say
//! which operations a result came from, in which order, whatever each one
//! returned. `dot_column_gives(v, m, j, n, r)`, for one, says that `r` was
//! reached by starting at a zero and adding the first `n` products one by
//! one.
use crate::model::{same_architecture, same_but_activity, LayerModel, NetworkModel, RowModel};
use crate::nn_functions::{
    activation_derivative_gives, activation_gives, cost_derivative_gives, cost_gives, ratio_gives,
    ActivationFunction, CostFunction,
};
use crate::scalar::{from_count_gives, negated_gives, over_gives, plus_gives, times_gives, Scalar};
use vstd::prelude::*;

verus! {

/// Every entry of `v` was made as a zero.
pub open spec fn zeros_give<T: Scalar>(v: Seq<T>) -> bool {
    forall|i: int| 0 <= i < v.len() ==> from_count_gives(0, #[trigger] v[i])
}

/// `layer` is a layer as it is when it is added: of this size, with this
/// activation function and these weights, and all else made as zeros.
pub open spec fn fresh_layer_gives<T: Scalar, A>(
    size: usize,
    activation_function: A,
    weights_in: Seq<Seq<T>>,
    layer: LayerModel<T, A>,
) -> bool {
    &&& layer.size == size
    &&& layer.activation_function == activation_function
    &&& layer.weights_in == weights_in
    &&& layer.inputs.len() == size
    &&& layer.outputs.len() == size
    &&& layer.errors.len() == size
    &&& zeros_give(layer.inputs)
    &&& zeros_give(layer.outputs)
    &&& zeros_give(layer.errors)
}

/// `weights` is the placeholder that stands for the inbound weights of an
/// input layer: one entry, made as a zero.
pub open spec fn placeholder_gives<T: Scalar>(weights: Seq<Seq<T>>) -> bool {
    &&& weights.len() == 1
    &&& weights[0].len() == 1
    &&& from_count_gives(0, weights[0][0])
}

/// `low` and `high` were made as the bounds for the initial weights of a
/// layer fed by `fan_in` neurons: minus one over `fan_in`, and one over
/// `fan_in`.
pub open spec fn initial_bounds_give<T: Scalar>(fan_in: nat, low: T, high: T) -> bool {
    &&& exists|unit: T, negative: T, count: T|
        from_count_gives(1, unit) && negated_gives(unit, negative)
            && from_count_gives(fan_in as usize, count) && over_gives(negative, count, low)
    &&& ratio_gives(1, fan_in as usize, high)
}

/// Every entry of `weights` was drawn by `draw`, which was asked for a
/// number between the bounds for a layer fed by `fan_in` neurons.
pub open spec fn drawn_gives<T: Scalar, F: Fn(T, T) -> T>(
    draw: F,
    fan_in: nat,
    weights: Seq<Seq<T>>,
) -> bool {
    exists|low: T, high: T| #[trigger]
        initial_bounds_give(fan_in, low, high) && forall|i: int, j: int|
            0 <= i < weights.len() && 0 <= j < weights[i].len() ==> call_ensures(
                draw,
                (low, high),
                #[trigger] weights[i][j],
            )
}

/// `r` was made as entry `j` of the product of `v` and `m`, cut off after
/// `n` terms: from a zero, by adding `v[i] * m[i][j]` for each `i` from the
/// first on.
pub open spec fn dot_column_gives<T: Scalar>(
    v: Seq<T>,
    m: Seq<Seq<T>>,
    j: int,
    n: nat,
    r: T,
) -> bool
    decreases n,
{
    if n == 0 {
        from_count_gives(0, r)
    } else {
        exists|sum: T, term: T|
            dot_column_gives(v, m, j, (n - 1) as nat, sum)
                && times_gives(v[n - 1], m[n - 1][j], term) && plus_gives(sum, term, r)
    }
}

/// `product` was made as the product of the row vector `v` and the matrix
/// `m` of `columns` columns.
pub open spec fn vector_matrix_gives<T: Scalar>(
    v: Seq<T>,
    m: Seq<Seq<T>>,
    columns: nat,
    product: Seq<T>,
) -> bool {
    &&& product.len() == columns
    &&& forall|j: int|
        0 <= j < columns ==> dot_column_gives(v, m, j, v.len(), #[trigger] product[j])
}

/// `values` was made by applying `f` to each entry of `v`.
pub open spec fn activated_gives<T: Scalar, A: ActivationFunction<T>>(
    f: A,
    v: Seq<T>,
    values: Seq<T>,
) -> bool {
    &&& values.len() == v.len()
    &&& forall|n: int| 0 <= n < v.len() ==> activation_gives(f, v[n], #[trigger] values[n])
}

/// What entered layer `l` was made as the product of what left the layer
/// before it and its weights, and what left it by applying its activation
/// function to what entered it.
pub open spec fn layer_fed_gives<T: Scalar, A: ActivationFunction<T>>(
    layers: Seq<LayerModel<T, A>>,
    l: int,
) -> bool {
    &&& vector_matrix_gives(
        layers[l - 1].outputs,
        layers[l].weights_in,
        layers[l].size,
        layers[l].inputs,
    )
    &&& activated_gives(layers[l].activation_function, layers[l].inputs, layers[l].outputs)
}

/// `after` is what a forward pass of `features` can make of `before`:
/// architecture, weights and error terms are kept, the input layer holds
/// the features, and every later layer was fed from the layer before it.
pub open spec fn fed_forward_gives<T: Scalar, A: ActivationFunction<T>>(
    before: Seq<LayerModel<T, A>>,
    features: Seq<T>,
    after: Seq<LayerModel<T, A>>,
) -> bool {
    &&& same_but_activity(before, after)
    &&& after.len() >= 1 ==> after[0].inputs == features && after[0].outputs == features
    &&& forall|l: int| 1 <= l < after.len() ==> #[trigger] layer_fed_gives(after, l)
}

/// `r` was made as the error term of neuron `n` of the output layer: the
/// derivative of the cost times the derivative of the activation.
pub open spec fn output_error_gives<T: Scalar, A: ActivationFunction<T>, C: CostFunction<T>>(
    layer: LayerModel<T, A>,
    cost_function: C,
    target: T,
    n: int,
    r: T,
) -> bool {
    exists|cost_slope: T, slope: T|
        cost_derivative_gives(cost_function, layer.outputs[n], target, cost_slope)
            && activation_derivative_gives(
            layer.activation_function,
            layer.inputs[n],
            layer.outputs[n],
            slope,
        ) && times_gives(cost_slope, slope, r)
}

/// `errors` were made as the error terms of the output layer.
pub open spec fn output_errors_give<T: Scalar, A: ActivationFunction<T>, C: CostFunction<T>>(
    layer: LayerModel<T, A>,
    cost_function: C,
    targets: Seq<T>,
    errors: Seq<T>,
) -> bool {
    &&& errors.len() == layer.size
    &&& forall|n: int|
        0 <= n < layer.size ==> output_error_gives(
            layer,
            cost_function,
            targets[n],
            n,
            #[trigger] errors[n],
        )
}

/// `r` was made as the error that flows back into one neuron, cut off after
/// `n` terms: from a zero, by adding each outbound weight times the error
/// term of the neuron it leads to, from the first on.
pub open spec fn weighted_errors_sum_gives<T: Scalar>(
    weights_out: Seq<T>,
    errors: Seq<T>,
    n: nat,
    r: T,
) -> bool
    decreases n,
{
    if n == 0 {
        from_count_gives(0, r)
    } else {
        exists|sum: T, term: T|
            weighted_errors_sum_gives(weights_out, errors, (n - 1) as nat, sum)
                && times_gives(weights_out[n - 1], errors[n - 1], term)
                && plus_gives(sum, term, r)
    }
}

/// `r` was made as the error term of neuron `n` of a hidden layer: the
/// error that flows back into it times the derivative of its activation.
pub open spec fn hidden_error_gives<T: Scalar, A: ActivationFunction<T>>(
    layer: LayerModel<T, A>,
    weights_out: Seq<T>,
    next_errors: Seq<T>,
    n: int,
    r: T,
) -> bool {
    exists|flowing_back: T, slope: T|
        weighted_errors_sum_gives(weights_out, next_errors, next_errors.len(), flowing_back)
            && activation_derivative_gives(
            layer.activation_function,
            layer.inputs[n],
            layer.outputs[n],
            slope,
        ) && times_gives(flowing_back, slope, r)
}

/// `errors` were made as the error terms of a hidden layer, from the
/// weights and error terms of the layer after it.
pub open spec fn hidden_errors_give<T: Scalar, A: ActivationFunction<T>>(
    layer: LayerModel<T, A>,
    next_weights: Seq<Seq<T>>,
    next_errors: Seq<T>,
    errors: Seq<T>,
) -> bool {
    &&& errors.len() == layer.size
    &&& forall|n: int|
        0 <= n < layer.size ==> hidden_error_gives(
            layer,
            next_weights[n],
            next_errors,
            n,
            #[trigger] errors[n],
        )
}

/// `r` was made as a weight after its update: the learning rate times the
/// error term, times what left the neuron the weight comes from, added to
/// the weight.
pub open spec fn updated_weight_gives<T: Scalar>(
    weight: T,
    learning_rate: T,
    error: T,
    previous_output: T,
    r: T,
) -> bool {
    exists|step: T, change: T|
        times_gives(learning_rate, error, step) && times_gives(step, previous_output, change)
            && plus_gives(weight, change, r)
}

/// `updated` was made as the weight matrix `weights` after the update of
/// all its entries.
pub open spec fn updated_weights_give<T: Scalar>(
    weights: Seq<Seq<T>>,
    learning_rate: T,
    errors: Seq<T>,
    previous_outputs: Seq<T>,
    updated: Seq<Seq<T>>,
) -> bool {
    &&& updated.len() == weights.len()
    &&& forall|i: int|
        0 <= i < weights.len() ==> (#[trigger] updated[i]).len() == weights[i].len()
    &&& forall|i: int, j: int|
        0 <= i < weights.len() && 0 <= j < weights[i].len() ==> updated_weight_gives(
            weights[i][j],
            learning_rate,
            errors[j],
            previous_outputs[i],
            #[trigger] updated[i][j],
        )
}

/// The error terms of layer `l` of `after` were made from `before`: those of
/// the output layer from the cost, those of a hidden layer from the weights
/// that `before` has in the layer after it and the error terms that `after`
/// has there.
pub open spec fn errors_set_gives<T: Scalar, A: ActivationFunction<T>, C: CostFunction<T>>(
    before: Seq<LayerModel<T, A>>,
    cost_function: C,
    targets: Seq<T>,
    after: Seq<LayerModel<T, A>>,
    l: int,
) -> bool {
    if l >= before.len() - 1 {
        output_errors_give(before.last(), cost_function, targets, after.last().errors)
    } else {
        hidden_errors_give(
            before[l],
            before[l + 1].weights_in,
            after[l + 1].errors,
            after[l].errors,
        )
    }
}

/// The weights of layer `l` of `after` were made by updating those of
/// `before` with the error terms that `after` has in that layer.
pub open spec fn weights_updated_gives<T: Scalar, A>(
    before: Seq<LayerModel<T, A>>,
    learning_rate: T,
    after: Seq<LayerModel<T, A>>,
    l: int,
) -> bool {
    updated_weights_give(
        before[l].weights_in,
        learning_rate,
        after[l].errors,
        before[l - 1].outputs,
        after[l].weights_in,
    )
}

/// `after` is what a backward pass towards `targets` can make of `before`:
/// the input layer and what the forward pass left are kept, every error
/// term was made from the weights as they were, and every weight was
/// updated with the new error terms.
pub open spec fn propagated_back_gives<T: Scalar, A: ActivationFunction<T>, C: CostFunction<T>>(
    before: Seq<LayerModel<T, A>>,
    learning_rate: T,
    cost_function: C,
    targets: Seq<T>,
    after: Seq<LayerModel<T, A>>,
) -> bool {
    &&& same_architecture(before, after)
    &&& before.len() >= 1 ==> after[0] == before[0]
    &&& forall|l: int|
        0 <= l < before.len() ==> (#[trigger] after[l]).inputs == before[l].inputs
            && after[l].outputs == before[l].outputs
    &&& forall|l: int|
        1 <= l < before.len() ==> #[trigger] errors_set_gives(
            before,
            cost_function,
            targets,
            after,
            l,
        )
    &&& forall|l: int|
        1 <= l < before.len() ==> #[trigger] weights_updated_gives(
            before,
            learning_rate,
            after,
            l,
        )
}

/// `after` is what one training step on `row` can make of `before`: a
/// forward pass of its inputs, then a backward pass towards its outputs.
pub open spec fn trained_on_row_gives<T: Scalar, A: ActivationFunction<T>, C: CostFunction<T>>(
    before: Seq<LayerModel<T, A>>,
    row: RowModel<T>,
    learning_rate: T,
    cost_function: C,
    after: Seq<LayerModel<T, A>>,
) -> bool {
    exists|fed: Seq<LayerModel<T, A>>|
        fed_forward_gives(before, row.inputs, fed) && propagated_back_gives(
            fed,
            learning_rate,
            cost_function,
            row.outputs,
            after,
        )
}

/// `after` is what training on the first `n` rows, one after the other, can
/// make of `before`.
pub open spec fn trained_on_rows_gives<T: Scalar, A: ActivationFunction<T>, C: CostFunction<T>>(
    before: Seq<LayerModel<T, A>>,
    rows: Seq<RowModel<T>>,
    learning_rate: T,
    cost_function: C,
    n: nat,
    after: Seq<LayerModel<T, A>>,
) -> bool
    decreases n,
{
    if n == 0 {
        after == before
    } else {
        exists|earlier: Seq<LayerModel<T, A>>|
            trained_on_rows_gives(
                before,
                rows,
                learning_rate,
                cost_function,
                (n - 1) as nat,
                earlier,
            ) && #[trigger] trained_on_row_gives(
                earlier,
                rows[n - 1],
                learning_rate,
                cost_function,
                after,
            )
    }
}

/// `r` was made from `total` by adding the cost of the first `n`
/// predictions of one row, one by one.
pub open spec fn accumulated_cost_gives<T: Scalar, C: CostFunction<T>>(
    total: T,
    cost_function: C,
    output: Seq<T>,
    expected: Seq<T>,
    n: nat,
    r: T,
) -> bool
    decreases n,
{
    if n == 0 {
        r == total
    } else {
        exists|sum: T, cost: T|
            accumulated_cost_gives(total, cost_function, output, expected, (n - 1) as nat, sum)
                && cost_gives(cost_function, output[n - 1], expected[n - 1], cost)
                && plus_gives(sum, cost, r)
    }
}

/// `predicted` is what a forward pass of `features` can leave in the last
/// layer.
pub open spec fn predicted_gives<T: Scalar, A: ActivationFunction<T>>(
    layers: Seq<LayerModel<T, A>>,
    features: Seq<T>,
    predicted: Seq<T>,
) -> bool {
    exists|fed: Seq<LayerModel<T, A>>| #[trigger]
        fed_forward_gives(layers, features, fed) && predicted == fed.last().outputs
}

/// `after` and `total` are what evaluating the cost over the first `n` rows
/// can make of `before`: the total started as a zero; each row in turn was
/// sent forward through the stack as the row before it had left it, and the
/// cost of each of its predictions was added to the total.
pub open spec fn evaluated_gives<T: Scalar, A: ActivationFunction<T>, C: CostFunction<T>>(
    before: Seq<LayerModel<T, A>>,
    rows: Seq<RowModel<T>>,
    cost_function: C,
    n: nat,
    after: Seq<LayerModel<T, A>>,
    total: T,
) -> bool
    decreases n,
{
    if n == 0 {
        after == before && from_count_gives(0, total)
    } else {
        exists|earlier: Seq<LayerModel<T, A>>, earlier_total: T|
            evaluated_gives(before, rows, cost_function, (n - 1) as nat, earlier, earlier_total)
                && #[trigger] fed_forward_gives(earlier, rows[n - 1].inputs, after)
                && #[trigger] accumulated_cost_gives(
                earlier_total,
                cost_function,
                after.last().outputs,
                rows[n - 1].outputs,
                before.last().size,
                total,
            )
    }
}

/// `after` is what `epochs` epochs can make of `network`, and `costs` are
/// the costs they report: in each epoch the stack is trained on every
/// training row, then its cost over the testing rows is evaluated.
pub open spec fn after_epochs_gives<T: Scalar, A: ActivationFunction<T>, C: CostFunction<T>>(
    network: NetworkModel<T, A>,
    learning_rate: T,
    cost_function: C,
    epochs: nat,
    after: NetworkModel<T, A>,
    costs: Seq<T>,
) -> bool
    decreases epochs,
{
    &&& costs.len() == epochs
    &&& after.training_dataset == network.training_dataset
    &&& after.testing_dataset == network.testing_dataset
    &&& if epochs == 0 {
        after.layers == network.layers
    } else {
        exists|earlier: NetworkModel<T, A>, trained: Seq<LayerModel<T, A>>|
            after_epochs_gives(
                network,
                learning_rate,
                cost_function,
                (epochs - 1) as nat,
                earlier,
                costs.drop_last(),
            ) && #[trigger] trained_on_rows_gives(
                earlier.layers,
                network.training_dataset,
                learning_rate,
                cost_function,
                network.training_dataset.len(),
                trained,
            ) && evaluated_gives(
                trained,
                network.testing_dataset,
                cost_function,
                network.testing_dataset.len(),
                after.layers,
                costs.last(),
            )
    }
}

} // verus!
