//! What holds of the mathematics of the network, proved once for all
//! networks.
use crate::error::NetworkError;
use crate::model::{
    after_epoch, after_epochs, aggregate_cost, consistent, epoch_cost, error_terms, evaluated,
    fed_forward, post_activation, pre_activation, predicted, propagated_back, row_fits, row_verdict,
    same_architecture, same_but_activity, same_weights, trained_on_row, trained_on_rows,
    vectors_fit, weights_fit, well_formed, LayerModel, NetworkModel, RowModel,
};
use crate::nn_functions::{ActivationFunction, CostFunction};
use crate::outcome::{fed_forward_gives, layer_fed_gives};
use crate::scalar::{zero, Scalar};
use vstd::prelude::*;

verus! {

/// Having the same architecture carries over from stack to stack.
pub proof fn lemma_same_architecture_transitive<T, A>(
    a: Seq<LayerModel<T, A>>,
    b: Seq<LayerModel<T, A>>,
    c: Seq<LayerModel<T, A>>,
)
    requires
        same_architecture(a, b),
        same_architecture(b, c),
    ensures
        same_architecture(a, c),
{
    assert forall|l: int| 0 <= l < a.len() implies {
        &&& (#[trigger] a[l]).size == (#[trigger] c[l]).size
        &&& a[l].activation_function == c[l].activation_function
    } by {
        assert(a[l].size == b[l].size);
        assert(b[l].size == c[l].size);
    }
}

/// Differing in activity only carries over from stack to stack.
pub proof fn lemma_same_but_activity_transitive<T, A>(
    a: Seq<LayerModel<T, A>>,
    b: Seq<LayerModel<T, A>>,
    c: Seq<LayerModel<T, A>>,
)
    requires
        same_but_activity(a, b),
        same_but_activity(b, c),
    ensures
        same_but_activity(a, c),
{
    assert forall|l: int| 0 <= l < a.len() implies {
        &&& (#[trigger] a[l]).size == (#[trigger] c[l]).size
        &&& a[l].weights_in == c[l].weights_in
        &&& a[l].errors == c[l].errors
        &&& a[l].activation_function == c[l].activation_function
    } by {
        assert(a[l].size == b[l].size);
        assert(b[l].size == c[l].size);
    }
}

/// A row is accepted exactly when it fits the layers. A stack of fewer than
/// two layers accepts none and calls that a configuration error; every
/// other refusal is a shape mismatch.
pub proof fn lemma_row_verdict<T, A>(layers: Seq<LayerModel<T, A>>, row: RowModel<T>)
    ensures
        row_verdict(layers, row) is Ok <==> row_fits(layers, row),
        layers.len() < 2 <==> row_verdict(layers, row) == Err::<(), NetworkError>(
            NetworkError::ConfigurationError,
        ),
        layers.len() >= 2 && !row_fits(layers, row) <==> row_verdict(layers, row) == Err::<
            (),
            NetworkError,
        >(NetworkError::ShapeMismatchError),
{
}

/// What leaves a layer depends on the weights and the activation functions
/// alone: two stacks that agree on them send the same values through every
/// layer, whatever earlier passes have left in either.
pub proof fn lemma_post_activation_same_weights<T: Scalar, A: ActivationFunction<T>>(
    a: Seq<LayerModel<T, A>>,
    b: Seq<LayerModel<T, A>>,
    features: Seq<T>,
    l: int,
)
    requires
        same_weights(a, b),
        l < a.len(),
    ensures
        post_activation(a, features, l) == post_activation(b, features, l),
        pre_activation(a, features, l) == pre_activation(b, features, l),
    decreases l,
{
    if l > 0 {
        lemma_post_activation_same_weights(a, b, features, l - 1);
        assert(a[l].size == b[l].size);
    }
}

/// Determinism of prediction: two networks with the same weights and
/// activation functions predict the same outputs for the same features.
pub proof fn lemma_predicted_same_weights<T: Scalar, A: ActivationFunction<T>>(
    a: Seq<LayerModel<T, A>>,
    b: Seq<LayerModel<T, A>>,
    features: Seq<T>,
)
    requires
        same_weights(a, b),
    ensures
        predicted(a, features) == predicted(b, features),
{
    lemma_post_activation_same_weights(a, b, features, a.len() - 1);
}

/// A forward pass changes neither the architecture nor the weights nor the
/// error terms.
pub proof fn lemma_fed_forward_same_weights<T: Scalar, A: ActivationFunction<T>>(
    layers: Seq<LayerModel<T, A>>,
    features: Seq<T>,
)
    ensures
        same_but_activity(layers, fed_forward(layers, features)),
        same_weights(layers, fed_forward(layers, features)),
        same_weights(fed_forward(layers, features), layers),
        same_architecture(layers, fed_forward(layers, features)),
{
}

/// After a forward pass the last layer holds the prediction.
pub proof fn lemma_fed_forward_holds_prediction<T: Scalar, A: ActivationFunction<T>>(
    layers: Seq<LayerModel<T, A>>,
    features: Seq<T>,
)
    requires
        layers.len() >= 1,
    ensures
        fed_forward(layers, features).last().outputs == predicted(layers, features),
{
}

/// Every layer hands on one value for each of its neurons: in a well-formed
/// stack that is fed as many features as its first layer has neurons, what
/// leaves layer `l` has the length of layer `l`.
pub proof fn lemma_post_activation_length<T: Scalar, A: ActivationFunction<T>>(
    layers: Seq<LayerModel<T, A>>,
    features: Seq<T>,
    l: int,
)
    requires
        0 <= l < layers.len(),
        features.len() == layers[0].size,
    ensures
        post_activation(layers, features, l).len() == layers[l].size,
        pre_activation(layers, features, l).len() == layers[l].size,
{
}

/// A prediction has one value for each neuron of the output layer.
pub proof fn lemma_predicted_length<T: Scalar, A: ActivationFunction<T>>(
    layers: Seq<LayerModel<T, A>>,
    features: Seq<T>,
)
    requires
        layers.len() >= 1,
        features.len() == layers[0].size,
    ensures
        predicted(layers, features).len() == layers.last().size,
{
    lemma_post_activation_length(layers, features, layers.len() - 1);
}

/// A forward pass leaves a well-formed stack well formed.
pub proof fn lemma_fed_forward_well_formed<T: Scalar, A: ActivationFunction<T>>(
    layers: Seq<LayerModel<T, A>>,
    features: Seq<T>,
)
    requires
        well_formed(layers),
        layers.len() >= 1,
        features.len() == layers[0].size,
    ensures
        well_formed(fed_forward(layers, features)),
{
    let after = fed_forward(layers, features);
    assert forall|l: int| 0 <= l < after.len() implies vectors_fit(#[trigger] after[l]) by {
        assert(vectors_fit(layers[l]));
        lemma_post_activation_length(layers, features, l);
    }
    assert forall|l: int| 0 <= l < after.len() implies #[trigger] weights_fit(after, l) by {
        assert(weights_fit(layers, l));
    }
}

/// A forward pass wipes out what the pass before it left behind: feeding
/// `second` after `first` leaves the stack as feeding `second` alone does.
pub proof fn lemma_fed_forward_forgets<T: Scalar, A: ActivationFunction<T>>(
    layers: Seq<LayerModel<T, A>>,
    first: Seq<T>,
    second: Seq<T>,
)
    ensures
        fed_forward(fed_forward(layers, first), second) == fed_forward(layers, second),
{
    let once = fed_forward(layers, first);
    let twice = fed_forward(once, second);
    let direct = fed_forward(layers, second);
    assert forall|l: int| 0 <= l < layers.len() implies twice[l] == direct[l] by {
        lemma_post_activation_same_weights(once, layers, second, l);
    }
    assert(twice =~= direct);
}

/// What a forward pass can make of a stack depends on the weights and the
/// activation functions alone, and on the error terms that it keeps: it can
/// make as much of every stack that differs in its activity only.
pub proof fn lemma_fed_forward_gives_same_weights<T: Scalar, A: ActivationFunction<T>>(
    a: Seq<LayerModel<T, A>>,
    b: Seq<LayerModel<T, A>>,
    features: Seq<T>,
    after: Seq<LayerModel<T, A>>,
)
    requires
        same_but_activity(b, a),
        fed_forward_gives(a, features, after),
    ensures
        fed_forward_gives(b, features, after),
{
    lemma_same_but_activity_transitive(b, a, after);
}

/// Whatever the numbers, a forward pass of as many features as the first
/// layer has neurons leaves a well-formed stack well formed: every layer
/// then holds one value for each of its neurons, and the prediction has the
/// length of the output layer.
pub proof fn lemma_fed_forward_gives_well_formed<T: Scalar, A: ActivationFunction<T>>(
    before: Seq<LayerModel<T, A>>,
    features: Seq<T>,
    after: Seq<LayerModel<T, A>>,
)
    requires
        well_formed(before),
        before.len() >= 1,
        features.len() == before[0].size,
        fed_forward_gives(before, features, after),
    ensures
        well_formed(after),
        after.last().outputs.len() == before.last().size,
{
    assert forall|l: int| 0 <= l < after.len() implies vectors_fit(#[trigger] after[l]) by {
        assert(vectors_fit(before[l]));
        assert(before[l].size == after[l].size);
        if l > 0 {
            assert(layer_fed_gives(after, l));
        }
    }
    assert forall|l: int| 0 <= l < after.len() implies #[trigger] weights_fit(after, l) by {
        assert(weights_fit(before, l));
        assert(before[l].size == after[l].size);
        if l > 0 {
            assert(before[l - 1].size == after[l - 1].size);
        }
    }
    assert(vectors_fit(after[after.len() - 1]));
    assert(before[before.len() - 1].size == after[before.len() - 1].size);
}

/// Prediction is repeatable: predicting the same features again gives the
/// same outputs and leaves the stack as it is, and a prediction does not
/// depend on what was predicted before it.
pub proof fn lemma_prediction_repeatable<T: Scalar, A: ActivationFunction<T>>(
    layers: Seq<LayerModel<T, A>>,
    features: Seq<T>,
    other: Seq<T>,
)
    ensures
        fed_forward(fed_forward(layers, features), features) == fed_forward(layers, features),
        predicted(fed_forward(layers, features), features) == predicted(layers, features),
        predicted(fed_forward(layers, other), features) == predicted(layers, features),
{
    lemma_fed_forward_forgets(layers, features, features);
    lemma_predicted_same_weights(fed_forward(layers, features), layers, features);
    lemma_predicted_same_weights(fed_forward(layers, other), layers, features);
}

/// A backward pass changes neither the architecture nor what the forward
/// pass left in the layers, and it leaves the input layer as it is.
pub proof fn lemma_propagated_back_keeps_activity<
    T: Scalar,
    A: ActivationFunction<T>,
    C: CostFunction<T>,
>(layers: Seq<LayerModel<T, A>>, learning_rate: T, cost_function: C, targets: Seq<T>)
    ensures
        same_architecture(layers, propagated_back(layers, learning_rate, cost_function, targets)),
        layers.len() >= 1 ==> propagated_back(layers, learning_rate, cost_function, targets)[0]
            == layers[0],
        forall|l: int|
            0 <= l < layers.len() ==> {
                &&& (#[trigger] propagated_back(
                    layers,
                    learning_rate,
                    cost_function,
                    targets,
                )[l]).inputs == layers[l].inputs
                &&& propagated_back(layers, learning_rate, cost_function, targets)[l].outputs
                    == layers[l].outputs
            },
{
}

/// The error terms of a layer have one entry for each of its neurons.
pub proof fn lemma_error_terms_length<T: Scalar, A: ActivationFunction<T>, C: CostFunction<T>>(
    layers: Seq<LayerModel<T, A>>,
    cost_function: C,
    targets: Seq<T>,
    l: int,
)
    requires
        0 <= l < layers.len(),
    ensures
        error_terms(layers, cost_function, targets, l).len() == layers[l].size,
{
}

/// A backward pass leaves a well-formed stack well formed.
pub proof fn lemma_propagated_back_well_formed<
    T: Scalar,
    A: ActivationFunction<T>,
    C: CostFunction<T>,
>(layers: Seq<LayerModel<T, A>>, learning_rate: T, cost_function: C, targets: Seq<T>)
    requires
        well_formed(layers),
    ensures
        well_formed(propagated_back(layers, learning_rate, cost_function, targets)),
{
    let after = propagated_back(layers, learning_rate, cost_function, targets);
    assert forall|l: int| 0 <= l < after.len() implies vectors_fit(#[trigger] after[l]) by {
        assert(vectors_fit(layers[l]));
        lemma_error_terms_length(layers, cost_function, targets, l);
    }
    assert forall|l: int| 0 <= l < after.len() implies #[trigger] weights_fit(after, l) by {
        assert(weights_fit(layers, l));
        if l > 0 {
            assert(after[l - 1].size == layers[l - 1].size);
            assert forall|i: int| 0 <= i < layers[l - 1].size implies (
            #[trigger] after[l].weights_in[i]).len() == layers[l].size by {
                assert(layers[l].weights_in[i].len() == layers[l].size);
            }
        }
    }
}

/// The shape invariant of training: a well-formed stack that is trained on
/// rows that fit it stays well formed and keeps its architecture.
pub proof fn lemma_trained_on_rows_well_formed<
    T: Scalar,
    A: ActivationFunction<T>,
    C: CostFunction<T>,
>(
    layers: Seq<LayerModel<T, A>>,
    rows: Seq<RowModel<T>>,
    learning_rate: T,
    cost_function: C,
    n: nat,
)
    requires
        well_formed(layers),
        n <= rows.len(),
        forall|k: int| 0 <= k < rows.len() ==> row_fits(layers, #[trigger] rows[k]),
    ensures
        well_formed(trained_on_rows(layers, rows, learning_rate, cost_function, n)),
        same_architecture(layers, trained_on_rows(layers, rows, learning_rate, cost_function, n)),
    decreases n,
{
    if n > 0 {
        let earlier = trained_on_rows(layers, rows, learning_rate, cost_function, (n - 1) as nat);
        lemma_trained_on_rows_well_formed(
            layers,
            rows,
            learning_rate,
            cost_function,
            (n - 1) as nat,
        );
        let row = rows[n - 1];
        assert(row_fits(layers, row));
        assert(earlier[0].size == layers[0].size);
        let fed = fed_forward(earlier, row.inputs);
        lemma_fed_forward_well_formed(earlier, row.inputs);
        lemma_fed_forward_same_weights(earlier, row.inputs);
        lemma_propagated_back_well_formed(fed, learning_rate, cost_function, row.outputs);
        lemma_propagated_back_keeps_activity(fed, learning_rate, cost_function, row.outputs);
        let trained = trained_on_row(earlier, row, learning_rate, cost_function);
        lemma_same_architecture_transitive(layers, earlier, fed);
        lemma_same_architecture_transitive(layers, fed, trained);
    }
}

/// The invariant of the network: training leaves both datasets as they
/// are, keeps the architecture, and leaves a consistent network
/// consistent.
pub proof fn lemma_after_epochs_consistent<T: Scalar, A: ActivationFunction<T>, C: CostFunction<T>>(
    network: NetworkModel<T, A>,
    learning_rate: T,
    cost_function: C,
    epochs: nat,
)
    requires
        consistent(network),
    ensures
        consistent(after_epochs(network, learning_rate, cost_function, epochs)),
        same_architecture(
            network.layers,
            after_epochs(network, learning_rate, cost_function, epochs).layers,
        ),
        after_epochs(network, learning_rate, cost_function, epochs).training_dataset
            == network.training_dataset,
        after_epochs(network, learning_rate, cost_function, epochs).testing_dataset
            == network.testing_dataset,
    decreases epochs,
{
    if epochs > 0 {
        let earlier = after_epochs(network, learning_rate, cost_function, (epochs - 1) as nat);
        lemma_after_epochs_consistent(network, learning_rate, cost_function, (epochs - 1) as nat);
        let rows = network.training_dataset;
        let trained = trained_on_rows(
            earlier.layers,
            rows,
            learning_rate,
            cost_function,
            rows.len(),
        );
        lemma_trained_on_rows_well_formed(
            earlier.layers,
            rows,
            learning_rate,
            cost_function,
            rows.len(),
        );
        let after = evaluated(trained, network.testing_dataset);
        lemma_same_architecture_transitive(network.layers, earlier.layers, trained);
        if network.testing_dataset.len() > 0 {
            let last = network.testing_dataset.last();
            assert(row_fits(earlier.layers, last));
            assert(trained[0].size == earlier.layers[0].size);
            lemma_fed_forward_well_formed(trained, last.inputs);
            lemma_fed_forward_same_weights(trained, last.inputs);
            lemma_same_architecture_transitive(network.layers, trained, after);
        }
        lemma_rows_fit_same_architecture(network.layers, after, network.training_dataset);
        lemma_rows_fit_same_architecture(network.layers, after, network.testing_dataset);
    }
}

/// Training leaves both datasets as they are.
pub proof fn lemma_after_epochs_keeps_datasets<
    T: Scalar,
    A: ActivationFunction<T>,
    C: CostFunction<T>,
>(
    network: NetworkModel<T, A>,
    learning_rate: T,
    cost_function: C,
    epochs: nat,
)
    ensures
        after_epochs(network, learning_rate, cost_function, epochs).training_dataset
            == network.training_dataset,
        after_epochs(network, learning_rate, cost_function, epochs).testing_dataset
            == network.testing_dataset,
    decreases epochs,
{
    if epochs > 0 {
        lemma_after_epochs_keeps_datasets(
            network,
            learning_rate,
            cost_function,
            (epochs - 1) as nat,
        );
    }
}

/// Rows that fit a stack fit every stack of the same architecture.
pub proof fn lemma_rows_fit_same_architecture<T, A>(
    before: Seq<LayerModel<T, A>>,
    after: Seq<LayerModel<T, A>>,
    rows: Seq<RowModel<T>>,
)
    requires
        same_architecture(before, after),
        forall|k: int| 0 <= k < rows.len() ==> row_fits(before, #[trigger] rows[k]),
    ensures
        forall|k: int| 0 <= k < rows.len() ==> row_fits(after, #[trigger] rows[k]),
{
    assert forall|k: int| 0 <= k < rows.len() implies row_fits(after, #[trigger] rows[k]) by {
        assert(row_fits(before, rows[k]));
        assert(before[0].size == after[0].size);
        assert(before[before.len() - 1].size == after[before.len() - 1].size);
    }
}

/// The cost of a network's predictions depends on its weights and
/// activation functions alone.
pub proof fn lemma_aggregate_cost_same_weights<
    T: Scalar,
    A: ActivationFunction<T>,
    C: CostFunction<T>,
>(
    a: Seq<LayerModel<T, A>>,
    b: Seq<LayerModel<T, A>>,
    rows: Seq<RowModel<T>>,
    cost_function: C,
    n: nat,
)
    requires
        same_weights(a, b),
        a.len() >= 1,
    ensures
        aggregate_cost(a, rows, cost_function, n) == aggregate_cost(b, rows, cost_function, n),
    decreases n,
{
    if n > 0 {
        lemma_aggregate_cost_same_weights(a, b, rows, cost_function, (n - 1) as nat);
        lemma_predicted_same_weights(a, b, rows[n - 1].inputs);
        assert(a.last().size == b.last().size);
    }
}

/// No epochs, no change.
pub proof fn lemma_no_epochs<T: Scalar, A: ActivationFunction<T>, C: CostFunction<T>>(
    network: NetworkModel<T, A>,
    learning_rate: T,
    cost_function: C,
)
    ensures
        after_epochs(network, learning_rate, cost_function, 0) == network,
{
}

/// Without training rows no weight is ever updated, however many epochs
/// pass.
pub proof fn lemma_no_training_rows<T: Scalar, A: ActivationFunction<T>, C: CostFunction<T>>(
    network: NetworkModel<T, A>,
    learning_rate: T,
    cost_function: C,
    epochs: nat,
)
    requires
        network.training_dataset.len() == 0,
    ensures
        same_but_activity(
            network.layers,
            after_epochs(network, learning_rate, cost_function, epochs).layers,
        ),
    decreases epochs,
{
    if epochs > 0 {
        let earlier = after_epochs(network, learning_rate, cost_function, (epochs - 1) as nat);
        lemma_no_training_rows(network, learning_rate, cost_function, (epochs - 1) as nat);
        lemma_after_epochs_keeps_datasets(
            network,
            learning_rate,
            cost_function,
            (epochs - 1) as nat,
        );
        let after = after_epoch(earlier, learning_rate, cost_function);
        if network.testing_dataset.len() > 0 {
            lemma_fed_forward_same_weights(earlier.layers, network.testing_dataset.last().inputs);
        }
        lemma_same_but_activity_transitive(network.layers, earlier.layers, after.layers);
    }
}

/// Without testing rows every epoch reports a cost of zero.
pub proof fn lemma_no_testing_rows<T: Scalar, A: ActivationFunction<T>, C: CostFunction<T>>(
    network: NetworkModel<T, A>,
    learning_rate: T,
    cost_function: C,
    epochs: nat,
)
    requires
        network.testing_dataset.len() == 0,
    ensures
        epoch_cost(network, learning_rate, cost_function, epochs) == zero::<T>(),
{
}

} // verus!
