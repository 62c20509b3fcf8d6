//! Where every operation has one result, every pass has one outcome: what
//! the relations of [`crate::outcome`] admit is what the functions of
//! [`crate::model`] name.
use crate::laws::{
    lemma_after_epochs_consistent, lemma_aggregate_cost_same_weights, lemma_fed_forward_forgets,
    lemma_fed_forward_holds_prediction, lemma_fed_forward_same_weights,
    lemma_predicted_same_weights, lemma_trained_on_rows_well_formed,
};
use crate::model::{
    accumulated_cost, activated, after_epochs, aggregate_cost, consistent, dot_column, drawn_from,
    epoch_cost, error_terms, evaluated, fed_forward, fresh_layer, hidden_errors, output_errors,
    post_activation, pre_activation, predicted, propagated_back, row_fits, same_weights,
    trained_on_row, trained_on_rows, updated_weights, vector_matrix, weighted_errors_sum,
    zero_vector, LayerModel, NetworkModel, RowModel,
};
use crate::nn_functions::{
    activation_derivative_gives, cost_gives, deterministic_activation, deterministic_cost,
    deterministic_training, ActivationFunction, CostFunction,
};
use crate::outcome::{
    accumulated_cost_gives, activated_gives, after_epochs_gives, dot_column_gives, drawn_gives,
    errors_set_gives, evaluated_gives, fed_forward_gives, fresh_layer_gives, hidden_errors_give,
    layer_fed_gives, output_errors_give, predicted_gives, propagated_back_gives,
    trained_on_row_gives, trained_on_rows_gives, updated_weight_gives, updated_weights_give,
    vector_matrix_gives, weighted_errors_sum_gives, weights_updated_gives, zeros_give,
};
use crate::scalar::{deterministic, plus_gives, times_gives, Scalar};
use vstd::prelude::*;

verus! {

/// Vectors made as zeros are zero vectors.
pub proof fn lemma_zeros_give_value<T: Scalar>(v: Seq<T>)
    requires
        deterministic::<T>(),
        zeros_give(v),
    ensures
        v == zero_vector::<T>(v.len()),
{
    assert(v =~= zero_vector::<T>(v.len()));
}

/// A layer has one way to be new.
pub proof fn lemma_fresh_layer_gives_value<T: Scalar, A>(
    size: usize,
    activation_function: A,
    weights_in: Seq<Seq<T>>,
    layer: LayerModel<T, A>,
)
    requires
        deterministic::<T>(),
        fresh_layer_gives(size, activation_function, weights_in, layer),
    ensures
        layer == fresh_layer(size, activation_function, weights_in),
{
    lemma_zeros_give_value(layer.inputs);
    lemma_zeros_give_value(layer.outputs);
    lemma_zeros_give_value(layer.errors);
}

/// Weights that were drawn were drawn between the bounds that the model
/// names.
pub proof fn lemma_drawn_gives_value<T: Scalar, F: Fn(T, T) -> T>(
    draw: F,
    fan_in: nat,
    weights: Seq<Seq<T>>,
)
    requires
        deterministic::<T>(),
        drawn_gives(draw, fan_in, weights),
    ensures
        drawn_from(draw, fan_in, weights),
{
}

/// A sum of products has one outcome.
pub proof fn lemma_dot_column_gives_value<T: Scalar>(
    v: Seq<T>,
    m: Seq<Seq<T>>,
    j: int,
    n: nat,
    r: T,
)
    requires
        deterministic::<T>(),
        dot_column_gives(v, m, j, n, r),
    ensures
        r == dot_column(v, m, j, n),
    decreases n,
{
    if n > 0 {
        let (sum, term) = choose|sum: T, term: T|
            dot_column_gives(v, m, j, (n - 1) as nat, sum)
                && times_gives(v[n - 1], m[n - 1][j], term) && plus_gives(sum, term, r);
        lemma_dot_column_gives_value(v, m, j, (n - 1) as nat, sum);
    }
}

/// The product of a vector and a matrix has one outcome.
pub proof fn lemma_vector_matrix_gives_value<T: Scalar>(
    v: Seq<T>,
    m: Seq<Seq<T>>,
    columns: nat,
    product: Seq<T>,
)
    requires
        deterministic::<T>(),
        vector_matrix_gives(v, m, columns, product),
    ensures
        product == vector_matrix(v, m, columns),
{
    assert forall|j: int| 0 <= j < columns implies product[j] == dot_column(v, m, j, v.len()) by {
        lemma_dot_column_gives_value(v, m, j, v.len(), product[j]);
    }
    assert(product =~= vector_matrix(v, m, columns));
}

/// Applying an activation function to a vector has one outcome.
pub proof fn lemma_activated_gives_value<T: Scalar, A: ActivationFunction<T>>(
    f: A,
    v: Seq<T>,
    values: Seq<T>,
)
    requires
        deterministic_activation::<T, A>(),
        activated_gives(f, v, values),
    ensures
        values == activated(f, v),
{
    assert(values =~= activated(f, v));
}

/// What enters and what leaves layer `l` in a forward pass has one outcome.
pub proof fn lemma_layer_fed_gives_value<T: Scalar, A: ActivationFunction<T>>(
    before: Seq<LayerModel<T, A>>,
    features: Seq<T>,
    after: Seq<LayerModel<T, A>>,
    l: int,
)
    requires
        deterministic::<T>(),
        deterministic_activation::<T, A>(),
        fed_forward_gives(before, features, after),
        0 <= l < before.len(),
    ensures
        after[l].inputs == pre_activation(before, features, l),
        after[l].outputs == post_activation(before, features, l),
    decreases l,
{
    if l > 0 {
        lemma_layer_fed_gives_value(before, features, after, l - 1);
        assert(layer_fed_gives(after, l));
        assert(before[l].size == after[l].size);
        lemma_vector_matrix_gives_value(
            after[l - 1].outputs,
            after[l].weights_in,
            after[l].size,
            after[l].inputs,
        );
        lemma_activated_gives_value(
            after[l].activation_function,
            after[l].inputs,
            after[l].outputs,
        );
    }
}

/// A forward pass has one outcome.
pub proof fn lemma_fed_forward_gives_value<T: Scalar, A: ActivationFunction<T>>(
    before: Seq<LayerModel<T, A>>,
    features: Seq<T>,
    after: Seq<LayerModel<T, A>>,
)
    requires
        deterministic::<T>(),
        deterministic_activation::<T, A>(),
        fed_forward_gives(before, features, after),
    ensures
        after == fed_forward(before, features),
{
    let wanted = fed_forward(before, features);
    assert forall|l: int| 0 <= l < before.len() implies after[l] == wanted[l] by {
        lemma_layer_fed_gives_value(before, features, after, l);
        assert(before[l].size == after[l].size);
    }
    assert(after =~= wanted);
}

/// A prediction has one outcome.
pub proof fn lemma_predicted_gives_value<T: Scalar, A: ActivationFunction<T>>(
    layers: Seq<LayerModel<T, A>>,
    features: Seq<T>,
    outputs: Seq<T>,
)
    requires
        deterministic::<T>(),
        deterministic_activation::<T, A>(),
        layers.len() >= 1,
        predicted_gives(layers, features, outputs),
    ensures
        outputs == predicted(layers, features),
{
    let fed = choose|fed: Seq<LayerModel<T, A>>| #[trigger]
        fed_forward_gives(layers, features, fed) && outputs == fed.last().outputs;
    lemma_fed_forward_gives_value(layers, features, fed);
    lemma_fed_forward_holds_prediction(layers, features);
}

/// Determinism of prediction: whatever earlier passes have left in them,
/// two stacks with the same weights and activation functions can predict
/// only one thing for the same features, and both the same.
pub proof fn lemma_prediction_deterministic<T: Scalar, A: ActivationFunction<T>>(
    a: Seq<LayerModel<T, A>>,
    b: Seq<LayerModel<T, A>>,
    features: Seq<T>,
    first: Seq<T>,
    second: Seq<T>,
)
    requires
        deterministic::<T>(),
        deterministic_activation::<T, A>(),
        a.len() >= 1,
        same_weights(a, b),
        predicted_gives(a, features, first),
        predicted_gives(b, features, second),
    ensures
        first == second,
{
    lemma_predicted_gives_value(a, features, first);
    lemma_predicted_gives_value(b, features, second);
    lemma_predicted_same_weights(a, b, features);
}

/// The error that flows back into a neuron has one outcome.
pub proof fn lemma_weighted_errors_sum_gives_value<T: Scalar>(
    weights_out: Seq<T>,
    errors: Seq<T>,
    n: nat,
    r: T,
)
    requires
        deterministic::<T>(),
        weighted_errors_sum_gives(weights_out, errors, n, r),
    ensures
        r == weighted_errors_sum(weights_out, errors, n),
    decreases n,
{
    if n > 0 {
        let (sum, term) = choose|sum: T, term: T|
            weighted_errors_sum_gives(weights_out, errors, (n - 1) as nat, sum)
                && times_gives(weights_out[n - 1], errors[n - 1], term)
                && plus_gives(sum, term, r);
        lemma_weighted_errors_sum_gives_value(weights_out, errors, (n - 1) as nat, sum);
    }
}

/// The error terms of the output layer have one outcome.
pub proof fn lemma_output_errors_give_value<
    T: Scalar,
    A: ActivationFunction<T>,
    C: CostFunction<T>,
>(layer: LayerModel<T, A>, cost_function: C, targets: Seq<T>, errors: Seq<T>)
    requires
        deterministic_training::<T, A, C>(),
        output_errors_give(layer, cost_function, targets, errors),
    ensures
        errors == output_errors(layer, cost_function, targets),
{
    assert(errors =~= output_errors(layer, cost_function, targets));
}

/// The error terms of a hidden layer have one outcome.
pub proof fn lemma_hidden_errors_give_value<T: Scalar, A: ActivationFunction<T>>(
    layer: LayerModel<T, A>,
    next_weights: Seq<Seq<T>>,
    next_errors: Seq<T>,
    errors: Seq<T>,
)
    requires
        deterministic::<T>(),
        deterministic_activation::<T, A>(),
        hidden_errors_give(layer, next_weights, next_errors, errors),
    ensures
        errors == hidden_errors(layer, next_weights, next_errors),
{
    let wanted = hidden_errors(layer, next_weights, next_errors);
    assert forall|n: int| 0 <= n < layer.size implies errors[n] == wanted[n] by {
        let (flowing_back, slope) = choose|flowing_back: T, slope: T|
            weighted_errors_sum_gives(next_weights[n], next_errors, next_errors.len(), flowing_back)
                && activation_derivative_gives(
                layer.activation_function,
                layer.inputs[n],
                layer.outputs[n],
                slope,
            ) && times_gives(flowing_back, slope, errors[n]);
        lemma_weighted_errors_sum_gives_value(
            next_weights[n],
            next_errors,
            next_errors.len(),
            flowing_back,
        );
    }
    assert(errors =~= wanted);
}

/// The update of a weight matrix has one outcome.
pub proof fn lemma_updated_weights_give_value<T: Scalar>(
    weights: Seq<Seq<T>>,
    learning_rate: T,
    errors: Seq<T>,
    previous_outputs: Seq<T>,
    updated: Seq<Seq<T>>,
)
    requires
        deterministic::<T>(),
        updated_weights_give(weights, learning_rate, errors, previous_outputs, updated),
    ensures
        updated == updated_weights(weights, learning_rate, errors, previous_outputs),
{
    let wanted = updated_weights(weights, learning_rate, errors, previous_outputs);
    assert forall|i: int| 0 <= i < weights.len() implies updated[i] == wanted[i] by {
        assert forall|j: int| 0 <= j < weights[i].len() implies updated[i][j] == wanted[i][j] by {
            assert(updated_weight_gives(
                weights[i][j],
                learning_rate,
                errors[j],
                previous_outputs[i],
                updated[i][j],
            ));
        }
        assert(updated[i] =~= wanted[i]);
    }
    assert(updated =~= wanted);
}

/// The error terms of layer `l` after a backward pass have one outcome.
pub proof fn lemma_errors_set_gives_value<
    T: Scalar,
    A: ActivationFunction<T>,
    C: CostFunction<T>,
>(
    before: Seq<LayerModel<T, A>>,
    learning_rate: T,
    cost_function: C,
    targets: Seq<T>,
    after: Seq<LayerModel<T, A>>,
    l: int,
)
    requires
        deterministic_training::<T, A, C>(),
        propagated_back_gives(before, learning_rate, cost_function, targets, after),
        1 <= l < before.len(),
    ensures
        after[l].errors == error_terms(before, cost_function, targets, l),
    decreases before.len() - l,
{
    assert(errors_set_gives(before, cost_function, targets, after, l));
    if l >= before.len() - 1 {
        lemma_output_errors_give_value(
            before.last(),
            cost_function,
            targets,
            after.last().errors,
        );
    } else {
        lemma_errors_set_gives_value(
            before,
            learning_rate,
            cost_function,
            targets,
            after,
            l + 1,
        );
        lemma_hidden_errors_give_value(
            before[l],
            before[l + 1].weights_in,
            after[l + 1].errors,
            after[l].errors,
        );
    }
}

/// A backward pass has one outcome.
pub proof fn lemma_propagated_back_gives_value<
    T: Scalar,
    A: ActivationFunction<T>,
    C: CostFunction<T>,
>(
    before: Seq<LayerModel<T, A>>,
    learning_rate: T,
    cost_function: C,
    targets: Seq<T>,
    after: Seq<LayerModel<T, A>>,
)
    requires
        deterministic_training::<T, A, C>(),
        propagated_back_gives(before, learning_rate, cost_function, targets, after),
    ensures
        after == propagated_back(before, learning_rate, cost_function, targets),
{
    let wanted = propagated_back(before, learning_rate, cost_function, targets);
    assert forall|l: int| 0 <= l < before.len() implies after[l] == wanted[l] by {
        assert(after[l].size == before[l].size);
        assert(after[l].inputs == before[l].inputs);
        if l > 0 {
            lemma_errors_set_gives_value(
                before,
                learning_rate,
                cost_function,
                targets,
                after,
                l,
            );
            assert(weights_updated_gives(before, learning_rate, after, l));
            lemma_updated_weights_give_value(
                before[l].weights_in,
                learning_rate,
                after[l].errors,
                before[l - 1].outputs,
                after[l].weights_in,
            );
        }
    }
    assert(after =~= wanted);
}

/// A training step has one outcome.
pub proof fn lemma_trained_on_row_gives_value<
    T: Scalar,
    A: ActivationFunction<T>,
    C: CostFunction<T>,
>(
    before: Seq<LayerModel<T, A>>,
    row: RowModel<T>,
    learning_rate: T,
    cost_function: C,
    after: Seq<LayerModel<T, A>>,
)
    requires
        deterministic_training::<T, A, C>(),
        trained_on_row_gives(before, row, learning_rate, cost_function, after),
    ensures
        after == trained_on_row(before, row, learning_rate, cost_function),
{
    let fed = choose|fed: Seq<LayerModel<T, A>>|
        fed_forward_gives(before, row.inputs, fed) && propagated_back_gives(
            fed,
            learning_rate,
            cost_function,
            row.outputs,
            after,
        );
    lemma_fed_forward_gives_value(before, row.inputs, fed);
    lemma_propagated_back_gives_value(fed, learning_rate, cost_function, row.outputs, after);
}

/// A training sweep has one outcome.
pub proof fn lemma_trained_on_rows_gives_value<
    T: Scalar,
    A: ActivationFunction<T>,
    C: CostFunction<T>,
>(
    before: Seq<LayerModel<T, A>>,
    rows: Seq<RowModel<T>>,
    learning_rate: T,
    cost_function: C,
    n: nat,
    after: Seq<LayerModel<T, A>>,
)
    requires
        deterministic_training::<T, A, C>(),
        trained_on_rows_gives(before, rows, learning_rate, cost_function, n, after),
    ensures
        after == trained_on_rows(before, rows, learning_rate, cost_function, n),
    decreases n,
{
    if n > 0 {
        let earlier = choose|earlier: Seq<LayerModel<T, A>>|
            trained_on_rows_gives(
                before,
                rows,
                learning_rate,
                cost_function,
                (n - 1) as nat,
                earlier,
            ) && #[trigger] trained_on_row_gives(
                earlier,
                rows[n - 1],
                learning_rate,
                cost_function,
                after,
            );
        lemma_trained_on_rows_gives_value(
            before,
            rows,
            learning_rate,
            cost_function,
            (n - 1) as nat,
            earlier,
        );
        lemma_trained_on_row_gives_value(earlier, rows[n - 1], learning_rate, cost_function, after);
    }
}

/// Adding up the costs of one row has one outcome.
pub proof fn lemma_accumulated_cost_gives_value<T: Scalar, C: CostFunction<T>>(
    total: T,
    cost_function: C,
    output: Seq<T>,
    expected: Seq<T>,
    n: nat,
    r: T,
)
    requires
        deterministic::<T>(),
        deterministic_cost::<T, C>(),
        accumulated_cost_gives(total, cost_function, output, expected, n, r),
    ensures
        r == accumulated_cost(total, cost_function, output, expected, n),
    decreases n,
{
    if n > 0 {
        let (sum, cost) = choose|sum: T, cost: T|
            accumulated_cost_gives(total, cost_function, output, expected, (n - 1) as nat, sum)
                && cost_gives(
                cost_function,
                output[n - 1],
                expected[n - 1],
                cost,
            ) && plus_gives(sum, cost, r);
        lemma_accumulated_cost_gives_value(
            total,
            cost_function,
            output,
            expected,
            (n - 1) as nat,
            sum,
        );
    }
}

/// Evaluating the cost over the first `n` rows has one outcome: the cost
/// that the model names, and the stack as a forward pass of the last of the
/// rows leaves it.
pub proof fn lemma_evaluated_gives_value<
    T: Scalar,
    A: ActivationFunction<T>,
    C: CostFunction<T>,
>(
    before: Seq<LayerModel<T, A>>,
    rows: Seq<RowModel<T>>,
    cost_function: C,
    n: nat,
    after: Seq<LayerModel<T, A>>,
    total: T,
)
    requires
        deterministic_training::<T, A, C>(),
        n > 0 ==> before.len() >= 1,
        evaluated_gives(before, rows, cost_function, n, after, total),
    ensures
        total == aggregate_cost(before, rows, cost_function, n),
        n == 0 ==> after == before,
        n > 0 ==> after == fed_forward(before, rows[n - 1].inputs),
        n == rows.len() ==> after == evaluated(before, rows),
    decreases n,
{
    if n > 0 {
        let (earlier, earlier_total) = choose|earlier: Seq<LayerModel<T, A>>, earlier_total: T|
            evaluated_gives(before, rows, cost_function, (n - 1) as nat, earlier, earlier_total)
                && #[trigger] fed_forward_gives(earlier, rows[n - 1].inputs, after)
                && #[trigger] accumulated_cost_gives(
                earlier_total,
                cost_function,
                after.last().outputs,
                rows[n - 1].outputs,
                before.last().size,
                total,
            );
        lemma_evaluated_gives_value(
            before,
            rows,
            cost_function,
            (n - 1) as nat,
            earlier,
            earlier_total,
        );
        lemma_fed_forward_gives_value(earlier, rows[n - 1].inputs, after);
        if n > 1 {
            lemma_fed_forward_forgets(before, rows[n - 2].inputs, rows[n - 1].inputs);
        }
        lemma_fed_forward_holds_prediction(before, rows[n - 1].inputs);
        lemma_accumulated_cost_gives_value(
            earlier_total,
            cost_function,
            after.last().outputs,
            rows[n - 1].outputs,
            before.last().size,
            total,
        );
        if n == rows.len() {
            assert(rows.last() == rows[n - 1]);
        }
    }
}

/// Training has one outcome: the network it leaves and the costs it
/// reports are those that the model names.
pub proof fn lemma_after_epochs_gives_value<
    T: Scalar,
    A: ActivationFunction<T>,
    C: CostFunction<T>,
>(
    network: NetworkModel<T, A>,
    learning_rate: T,
    cost_function: C,
    epochs: nat,
    after: NetworkModel<T, A>,
    costs: Seq<T>,
)
    requires
        deterministic_training::<T, A, C>(),
        consistent(network),
        after_epochs_gives(network, learning_rate, cost_function, epochs, after, costs),
    ensures
        after == after_epochs(network, learning_rate, cost_function, epochs),
        forall|e: int|
            0 <= e < epochs ==> #[trigger] costs[e] == epoch_cost(
                network,
                learning_rate,
                cost_function,
                (e + 1) as nat,
            ),
    decreases epochs,
{
    if epochs > 0 {
        let (earlier, trained) = choose|
            earlier: NetworkModel<T, A>,
            trained: Seq<LayerModel<T, A>>,
        |
            after_epochs_gives(
                network,
                learning_rate,
                cost_function,
                (epochs - 1) as nat,
                earlier,
                costs.drop_last(),
            ) && #[trigger] trained_on_rows_gives(
                earlier.layers,
                network.training_dataset,
                learning_rate,
                cost_function,
                network.training_dataset.len(),
                trained,
            ) && evaluated_gives(
                trained,
                network.testing_dataset,
                cost_function,
                network.testing_dataset.len(),
                after.layers,
                costs.last(),
            );
        lemma_after_epochs_gives_value(
            network,
            learning_rate,
            cost_function,
            (epochs - 1) as nat,
            earlier,
            costs.drop_last(),
        );
        lemma_after_epochs_consistent(network, learning_rate, cost_function, (epochs - 1) as nat);
        lemma_trained_on_rows_gives_value(
            earlier.layers,
            network.training_dataset,
            learning_rate,
            cost_function,
            network.training_dataset.len(),
            trained,
        );
        let next = after_epochs(network, learning_rate, cost_function, epochs);
        if network.testing_dataset.len() > 0 {
            lemma_trained_on_rows_well_formed(
                earlier.layers,
                network.training_dataset,
                learning_rate,
                cost_function,
                network.training_dataset.len(),
            );
            assert(row_fits(earlier.layers, network.testing_dataset[0]));
        }
        lemma_evaluated_gives_value(
            trained,
            network.testing_dataset,
            cost_function,
            network.testing_dataset.len(),
            after.layers,
            costs.last(),
        );
        assert(after.layers == next.layers);
        assert(after == next);
        if network.testing_dataset.len() > 0 {
            lemma_fed_forward_same_weights(trained, network.testing_dataset.last().inputs);
            lemma_aggregate_cost_same_weights(
                trained,
                next.layers,
                network.testing_dataset,
                cost_function,
                network.testing_dataset.len(),
            );
        }
        assert(costs.last() == epoch_cost(network, learning_rate, cost_function, epochs));
        assert forall|e: int| 0 <= e < epochs implies #[trigger] costs[e] == epoch_cost(
            network,
            learning_rate,
            cost_function,
            (e + 1) as nat,
        ) by {
            if e < epochs - 1 {
                assert(costs[e] == costs.drop_last()[e]);
            } else {
                assert(costs[e] == costs.last());
            }
        }
    }
}

} // verus!
