//! The network: a layer stack with a training and a testing dataset.
use crate::dataset::{add_row, check_input_ready, lemma_rows_still_fit, rows_fit, rows_view, Row};
use crate::error::NetworkError;
use crate::laws::{lemma_same_architecture_transitive, lemma_same_but_activity_transitive};
use crate::layer::{
    drawn_weights, duplicate, forward_propagation, has_shape, placeholder, push_layer, stack_view,
    Layer,
};
use crate::model::{
    after_epochs, aggregate_cost, consistent, drawn_from, epoch_cost, evaluated, features_verdict,
    fed_forward, fresh_layer, matrix_view, row_fits, row_verdict, same_architecture,
    same_but_activity, vectors_fit, weights_verdict, well_formed, NetworkModel, RowModel,
};
use crate::nn_functions::{
    deterministic_activation, deterministic_training, ActivationFunction, CostFunction,
};
use crate::outcome::{
    after_epochs_gives, drawn_gives, evaluated_gives, fed_forward_gives, fresh_layer_gives,
    placeholder_gives, trained_on_rows_gives,
};
use crate::determinism::{
    lemma_after_epochs_gives_value, lemma_drawn_gives_value, lemma_evaluated_gives_value,
    lemma_fed_forward_gives_value, lemma_fresh_layer_gives_value,
};
use crate::scalar::{deterministic, zero, Scalar};
use crate::training::{
    get_error, lemma_architecture_kept, lemma_only_activity_differs, train_on_rows,
};
use vstd::prelude::*;

verus! {

/// A feed-forward network over numbers of type `T`, whose layers apply
/// activation functions of type `A`.
///
/// The layers always fit each other, and every stored row fits the layers.
/// An operation works on the network's parts and puts them back when it is
/// done: should an operation of the number type or a function of the
/// caller's panic in between, the network is left without layers and rows.
pub struct NeuralNetwork<T, A> {
    layers: Vec<Layer<T, A>>,
    training_dataset: Vec<Row<T>>,
    testing_dataset: Vec<Row<T>>,
}

impl<T, A> View for NeuralNetwork<T, A> {
    type V = NetworkModel<T, A>;

    closed spec fn view(&self) -> NetworkModel<T, A> {
        NetworkModel {
            layers: stack_view(self.layers@),
            training_dataset: rows_view(self.training_dataset@),
            testing_dataset: rows_view(self.testing_dataset@),
        }
    }
}

impl<T, A> NeuralNetwork<T, A> {
    /// The layers are well formed and every stored row fits them.
    #[verifier::type_invariant]
    spec fn shapes_agree(&self) -> bool {
        consistent(self@)
    }

    /// What consistency says of the fields.
    proof fn lemma_consistent_fields(&self)
        requires
            consistent(self@),
        ensures
            well_formed(stack_view(self.layers@)),
            rows_fit(self.layers@, self.training_dataset@),
            rows_fit(self.layers@, self.testing_dataset@),
    {
        assert(self@.layers == stack_view(self.layers@));
        assert forall|k: int| 0 <= k < self.training_dataset@.len() implies row_fits(
            stack_view(self.layers@),
            (#[trigger] self.training_dataset@[k]).model(),
        ) by {
            assert(self@.training_dataset[k] == self.training_dataset@[k].model());
        }
        assert forall|k: int| 0 <= k < self.testing_dataset@.len() implies row_fits(
            stack_view(self.layers@),
            (#[trigger] self.testing_dataset@[k]).model(),
        ) by {
            assert(self@.testing_dataset[k] == self.testing_dataset@[k].model());
        }
    }

    /// Fields that agree make a consistent network.
    proof fn lemma_fields_consistent(&self)
        requires
            well_formed(stack_view(self.layers@)),
            rows_fit(self.layers@, self.training_dataset@),
            rows_fit(self.layers@, self.testing_dataset@),
        ensures
            consistent(self@),
    {
        assert(self@.layers == stack_view(self.layers@));
        assert forall|k: int| 0 <= k < self@.training_dataset.len() implies row_fits(
            self@.layers,
            #[trigger] self@.training_dataset[k],
        ) by {
            assert(self@.training_dataset[k] == self.training_dataset@[k].model());
        }
        assert forall|k: int| 0 <= k < self@.testing_dataset.len() implies row_fits(
            self@.layers,
            #[trigger] self@.testing_dataset[k],
        ) by {
            assert(self@.testing_dataset[k] == self.testing_dataset@[k].model());
        }
    }
}

impl<T: Scalar, A: ActivationFunction<T>> NeuralNetwork<T, A> {
    /// A network without layers or rows.
    pub fn new() -> (network: Self)
        ensures
            consistent(network@),
            network@.layers.len() == 0,
            network@.training_dataset.len() == 0,
            network@.testing_dataset.len() == 0,
    {
        Self { layers: Vec::new(), training_dataset: Vec::new(), testing_dataset: Vec::new() }
    }

    /// Hands out the network and leaves an empty one in its place.
    fn take(&mut self) -> (taken: Self)
        ensures
            taken == *old(self),
            consistent(taken@),
    {
        proof {
            use_type_invariant(&*self);
        }
        let mut taken = Self::new();
        core::mem::swap(self, &mut taken);
        taken
    }

    /// Appends a layer of `size` neurons. The first layer added is the input
    /// layer: it has no inbound weights, only a placeholder of one zero.
    /// Every later layer gets one weight for each pair of a neuron of the
    /// layer before it and a neuron of its own, and each weight is drawn on
    /// its own by `draw`, which is asked for a number between minus one over
    /// the size of the layer before and one over that size. Layers are added
    /// before any row.
    pub fn add_layer<F: Fn(T, T) -> T>(&mut self, size: usize, activation_function: A, draw: F)
        requires
            size > 0,
            old(self)@.training_dataset.len() == 0,
            old(self)@.testing_dataset.len() == 0,
            forall|low: T, high: T| call_requires(draw, (low, high)),
        ensures
            consistent(final(self)@),
            final(self)@.training_dataset == old(self)@.training_dataset,
            final(self)@.testing_dataset == old(self)@.testing_dataset,
            final(self)@.layers.len() == old(self)@.layers.len() + 1,
            final(self)@.layers.drop_last() == old(self)@.layers,
            fresh_layer_gives(
                size,
                activation_function,
                final(self)@.layers.last().weights_in,
                final(self)@.layers.last(),
            ),
            old(self)@.layers.len() == 0 ==> placeholder_gives(
                final(self)@.layers.last().weights_in,
            ),
            old(self)@.layers.len() > 0 ==> drawn_gives(
                draw,
                old(self)@.layers.last().size,
                final(self)@.layers.last().weights_in,
            ),
            deterministic::<T>() ==> final(self)@.layers.last() == fresh_layer(
                size,
                activation_function,
                final(self)@.layers.last().weights_in,
            ),
            deterministic::<T>() && old(self)@.layers.len() == 0
                ==> final(self)@.layers.last().weights_in == seq![seq![zero::<T>()]],
            deterministic::<T>() && old(self)@.layers.len() > 0 ==> drawn_from(
                draw,
                old(self)@.layers.last().size,
                final(self)@.layers.last().weights_in,
            ),
    {
        let taken = self.take();
        proof {
            taken.lemma_consistent_fields();
        }
        let NeuralNetwork { mut layers, training_dataset, testing_dataset } = taken;
        let ghost start = layers@;
        proof {
            if start.len() > 0 {
                assert(stack_view(start).last() == start[start.len() - 1].model());
            }
        }
        let weights_in = if layers.len() == 0 {
            placeholder()
        } else {
            drawn_weights(layers[layers.len() - 1].size, size, &draw)
        };
        let ghost weights = weights_in;
        push_layer(&mut layers, size, activation_function, weights_in);
        let rebuilt = NeuralNetwork { layers, training_dataset, testing_dataset };
        proof {
            rebuilt.lemma_fields_consistent();
            let appended = rebuilt@.layers.last();
            assert(appended.weights_in == matrix_view(weights));
            if deterministic::<T>() {
                lemma_fresh_layer_gives_value(
                    size,
                    activation_function,
                    appended.weights_in,
                    appended,
                );
                if start.len() == 0 {
                    assert(appended.weights_in[0] =~= seq![zero::<T>()]);
                    assert(appended.weights_in =~= seq![seq![zero::<T>()]]);
                } else {
                    lemma_drawn_gives_value(
                        draw,
                        stack_view(start).last().size,
                        appended.weights_in,
                    );
                }
            }
        }
        *self = rebuilt;
    }

    /// Appends a layer of `size` neurons with the inbound weights given:
    /// `weights_in[i][j]` leads from neuron `i` of the layer before to neuron
    /// `j` of the new layer. A network without layers refuses, since an
    /// input layer has no inbound weights; so does one whose last layer does
    /// not have one neuron for each row of `weights_in`, or where a row does
    /// not have `size` entries. A refusal changes nothing. Layers are added
    /// before any row.
    pub fn add_layer_with_weights(
        &mut self,
        size: usize,
        activation_function: A,
        weights_in: Vec<Vec<T>>,
    ) -> (added: Result<(), NetworkError>)
        requires
            size > 0,
            old(self)@.training_dataset.len() == 0,
            old(self)@.testing_dataset.len() == 0,
        ensures
            consistent(final(self)@),
            added == weights_verdict(old(self)@.layers, matrix_view(weights_in), size),
            added is Err ==> final(self)@ == old(self)@,
            final(self)@.training_dataset == old(self)@.training_dataset,
            final(self)@.testing_dataset == old(self)@.testing_dataset,
            added is Ok ==> {
                &&& final(self)@.layers.len() == old(self)@.layers.len() + 1
                &&& final(self)@.layers.drop_last() == old(self)@.layers
                &&& fresh_layer_gives(
                    size,
                    activation_function,
                    matrix_view(weights_in),
                    final(self)@.layers.last(),
                )
            },
            added is Ok && deterministic::<T>() ==> final(self)@.layers == old(self)@.layers.push(
                fresh_layer(size, activation_function, matrix_view(weights_in)),
            ),
    {
        let taken = self.take();
        proof {
            taken.lemma_consistent_fields();
        }
        let NeuralNetwork { mut layers, training_dataset, testing_dataset } = taken;
        let ghost start = layers@;
        proof {
            if start.len() > 0 {
                assert(stack_view(start).last() == start[start.len() - 1].model());
            }
        }
        let added = if layers.len() == 0 {
            Err(NetworkError::ConfigurationError)
        } else if !has_shape(&weights_in, layers[layers.len() - 1].size, size) {
            Err(NetworkError::ShapeMismatchError)
        } else {
            push_layer(&mut layers, size, activation_function, weights_in);
            Ok(())
        };
        let rebuilt = NeuralNetwork { layers, training_dataset, testing_dataset };
        proof {
            rebuilt.lemma_fields_consistent();
            if added is Ok && deterministic::<T>() {
                lemma_fresh_layer_gives_value(
                    size,
                    activation_function,
                    matrix_view(weights_in),
                    rebuilt@.layers.last(),
                );
                assert(rebuilt@.layers =~= old(self)@.layers.push(
                    fresh_layer(size, activation_function, matrix_view(weights_in)),
                ));
            }
        }
        *self = rebuilt;
        added
    }

    /// Appends a row to the training dataset. A network with fewer than two
    /// layers refuses every row; a row whose inputs do not fill the first
    /// layer, or whose outputs do not match the last, is refused too. A
    /// refused row leaves the network as it was.
    pub fn add_training_row(&mut self, inputs: Vec<T>, outputs: Vec<T>) -> (added: Result<
        (),
        NetworkError,
    >)
        ensures
            consistent(final(self)@),
            added == row_verdict(
                old(self)@.layers,
                (RowModel { inputs: inputs@, outputs: outputs@ }),
            ),
            added is Ok ==> final(self)@ == (NetworkModel {
                training_dataset: old(self)@.training_dataset.push(
                    RowModel { inputs: inputs@, outputs: outputs@ },
                ),
                ..old(self)@
            }),
            added is Err ==> final(self)@ == old(self)@,
    {
        let taken = self.take();
        proof {
            taken.lemma_consistent_fields();
        }
        let NeuralNetwork { layers, mut training_dataset, testing_dataset } = taken;
        let ghost row = RowModel { inputs: inputs@, outputs: outputs@ };
        let ghost rows = training_dataset@;
        let added = add_row(inputs, outputs, &layers, &mut training_dataset);
        let rebuilt = NeuralNetwork { layers, training_dataset, testing_dataset };
        proof {
            rebuilt.lemma_fields_consistent();
            if added is Ok {
                assert(rows_view(rebuilt.training_dataset@) =~= rows_view(rows).push(row));
            }
        }
        *self = rebuilt;
        added
    }

    /// Appends a row to the testing dataset, under the conditions of
    /// `add_training_row`.
    pub fn add_testing_row(&mut self, inputs: Vec<T>, outputs: Vec<T>) -> (added: Result<
        (),
        NetworkError,
    >)
        ensures
            consistent(final(self)@),
            added == row_verdict(
                old(self)@.layers,
                (RowModel { inputs: inputs@, outputs: outputs@ }),
            ),
            added is Ok ==> final(self)@ == (NetworkModel {
                testing_dataset: old(self)@.testing_dataset.push(
                    RowModel { inputs: inputs@, outputs: outputs@ },
                ),
                ..old(self)@
            }),
            added is Err ==> final(self)@ == old(self)@,
    {
        let taken = self.take();
        proof {
            taken.lemma_consistent_fields();
        }
        let NeuralNetwork { layers, training_dataset, mut testing_dataset } = taken;
        let ghost row = RowModel { inputs: inputs@, outputs: outputs@ };
        let ghost rows = testing_dataset@;
        let added = add_row(inputs, outputs, &layers, &mut testing_dataset);
        let rebuilt = NeuralNetwork { layers, training_dataset, testing_dataset };
        proof {
            rebuilt.lemma_fields_consistent();
            if added is Ok {
                assert(rows_view(rebuilt.testing_dataset@) =~= rows_view(rows).push(row));
            }
        }
        *self = rebuilt;
        added
    }

    /// Sends `inputs` through the network; the prediction is then read with
    /// `get_outputs`. The network must have an input and an output layer,
    /// and `inputs` must fill the input layer; otherwise the call is refused
    /// and changes nothing. The weights never change.
    pub fn propagate(&mut self, inputs: Vec<T>) -> (sent: Result<(), NetworkError>)
        ensures
            consistent(final(self)@),
            sent == features_verdict(old(self)@.layers, inputs@.len()),
            sent is Err ==> final(self)@ == old(self)@,
            final(self)@.training_dataset == old(self)@.training_dataset,
            final(self)@.testing_dataset == old(self)@.testing_dataset,
            sent is Ok ==> fed_forward_gives(old(self)@.layers, inputs@, final(self)@.layers),
            sent is Ok ==> final(self)@.layers.last().outputs.len()
                == final(self)@.layers.last().size,
            sent is Ok && deterministic::<T>() && deterministic_activation::<T, A>()
                ==> final(self)@.layers == fed_forward(old(self)@.layers, inputs@),
    {
        let taken = self.take();
        proof {
            taken.lemma_consistent_fields();
        }
        let NeuralNetwork { mut layers, training_dataset, testing_dataset } = taken;
        let ghost start = layers@;
        let sent = check_input_ready(&layers, &inputs);
        if sent.is_ok() {
            forward_propagation(&inputs, &mut layers);
            proof {
                let after = stack_view(layers@);
                assert(after[0] == layers[0].model());
                lemma_only_activity_differs(start, layers@);
                lemma_rows_still_fit(start, layers@, training_dataset@);
                lemma_rows_still_fit(start, layers@, testing_dataset@);
                assert(vectors_fit(after[after.len() - 1]));
            }
        }
        let rebuilt = NeuralNetwork { layers, training_dataset, testing_dataset };
        proof {
            rebuilt.lemma_fields_consistent();
            if sent is Ok && deterministic::<T>() && deterministic_activation::<T, A>() {
                lemma_fed_forward_gives_value(stack_view(start), inputs@, rebuilt@.layers);
            }
        }
        *self = rebuilt;
        sent
    }

    /// What left the output layer in the last forward pass. The network must
    /// have at least one layer.
    pub fn get_outputs(&self) -> (outputs: Vec<T>)
        requires
            self@.layers.len() >= 1,
        ensures
            outputs@ == self@.layers.last().outputs,
    {
        assert(stack_view(self.layers@).last() == self.layers[self.layers.len() - 1].model());
        duplicate(&self.layers[self.layers.len() - 1].outputs)
    }

    /// The number of neurons of each layer, input layer first.
    pub fn layer_sizes(&self) -> (sizes: Vec<usize>)
        ensures
            sizes.len() == self@.layers.len(),
            forall|l: int| 0 <= l < sizes.len() ==> sizes[l] == self@.layers[l].size,
    {
        let mut sizes: Vec<usize> = Vec::new();
        let mut l: usize = 0;
        while l < self.layers.len()
            invariant
                l <= self.layers.len(),
                sizes.len() == l,
                forall|k: int| 0 <= k < l ==> sizes[k] == self.layers[k].size,
            decreases self.layers.len() - l,
        {
            sizes.push(self.layers[l].size);
            l += 1;
        }
        assert forall|k: int| 0 <= k < sizes.len() implies sizes[k] == self@.layers[k].size by {
            assert(stack_view(self.layers@)[k] == self.layers[k].model());
        }
        sizes
    }

    /// The cost of the network's predictions over the testing dataset: the
    /// cost of every prediction of every row, added up in order. Without
    /// testing rows the cost is zero. The weights do not change.
    pub fn get_error<C: CostFunction<T>>(&mut self, cost_function: &C) -> (error: T)
        ensures
            consistent(final(self)@),
            final(self)@.training_dataset == old(self)@.training_dataset,
            final(self)@.testing_dataset == old(self)@.testing_dataset,
            same_but_activity(old(self)@.layers, final(self)@.layers),
            evaluated_gives(
                old(self)@.layers,
                old(self)@.testing_dataset,
                *cost_function,
                old(self)@.testing_dataset.len(),
                final(self)@.layers,
                error,
            ),
            deterministic_training::<T, A, C>() ==> error == aggregate_cost(
                old(self)@.layers,
                old(self)@.testing_dataset,
                *cost_function,
                old(self)@.testing_dataset.len(),
            ),
            deterministic_training::<T, A, C>() ==> final(self)@.layers == evaluated(
                old(self)@.layers,
                old(self)@.testing_dataset,
            ),
    {
        let taken = self.take();
        proof {
            taken.lemma_consistent_fields();
        }
        let NeuralNetwork { mut layers, training_dataset, testing_dataset } = taken;
        let ghost start = layers@;
        let error = get_error(&testing_dataset, cost_function, &mut layers);
        let rebuilt = NeuralNetwork { layers, training_dataset, testing_dataset };
        proof {
            lemma_only_activity_differs(start, rebuilt.layers@);
            lemma_rows_still_fit(start, rebuilt.layers@, rebuilt.training_dataset@);
            lemma_rows_still_fit(start, rebuilt.layers@, rebuilt.testing_dataset@);
            rebuilt.lemma_fields_consistent();
            if deterministic_training::<T, A, C>() {
                let rows = rows_view(rebuilt.testing_dataset@);
                if rows.len() > 0 {
                    assert(row_fits(stack_view(start), rows[0]));
                    assert(rows.last() == rows[rows.len() - 1]);
                }
                lemma_evaluated_gives_value(
                    stack_view(start),
                    rows,
                    *cost_function,
                    rows.len(),
                    rebuilt@.layers,
                    error,
                );
            }
        }
        *self = rebuilt;
        error
    }

    /// Trains for `no_epochs` epochs and returns the cost over the testing
    /// dataset after each of them. In an epoch the network is trained on
    /// every training row, in the order in which the rows were added: the
    /// row is sent forward, its error is sent backward, and the weights are
    /// updated before the next row. The cost is then evaluated with the new
    /// weights and has no effect on them.
    pub fn train<C: CostFunction<T>>(
        &mut self,
        no_epochs: u32,
        learning_rate: T,
        cost_function: C,
    ) -> (costs: Vec<T>)
        ensures
            consistent(final(self)@),
            costs.len() == no_epochs,
            final(self)@.training_dataset == old(self)@.training_dataset,
            final(self)@.testing_dataset == old(self)@.testing_dataset,
            same_architecture(old(self)@.layers, final(self)@.layers),
            no_epochs == 0 ==> final(self)@ == old(self)@,
            old(self)@.training_dataset.len() == 0 ==> same_but_activity(
                old(self)@.layers,
                final(self)@.layers,
            ),
            after_epochs_gives(
                old(self)@,
                learning_rate,
                cost_function,
                no_epochs as nat,
                final(self)@,
                costs@,
            ),
            deterministic_training::<T, A, C>() ==> final(self)@ == after_epochs(
                old(self)@,
                learning_rate,
                cost_function,
                no_epochs as nat,
            ),
            deterministic_training::<T, A, C>() ==> forall|e: int|
                0 <= e < no_epochs ==> #[trigger] costs[e] == epoch_cost(
                    old(self)@,
                    learning_rate,
                    cost_function,
                    (e + 1) as nat,
                ),
    {
        let taken = self.take();
        proof {
            taken.lemma_consistent_fields();
        }
        let NeuralNetwork { mut layers, training_dataset, testing_dataset } = taken;
        let ghost start = layers@;
        let ghost network = old(self)@;
        let mut costs: Vec<T> = Vec::new();
        let mut epoch: u32 = 0;
        assert(same_architecture(stack_view(start), stack_view(start)));
        while epoch < no_epochs
            invariant
                epoch <= no_epochs,
                costs.len() == epoch,
                network == (NetworkModel {
                    layers: stack_view(start),
                    training_dataset: rows_view(training_dataset@),
                    testing_dataset: rows_view(testing_dataset@),
                }),
                well_formed(stack_view(layers@)),
                rows_fit(layers@, training_dataset@),
                rows_fit(layers@, testing_dataset@),
                same_architecture(stack_view(start), stack_view(layers@)),
                epoch == 0 ==> layers@ == start,
                training_dataset.len() == 0 ==> same_but_activity(
                    stack_view(start),
                    stack_view(layers@),
                ),
                after_epochs_gives(
                    network,
                    learning_rate,
                    cost_function,
                    epoch as nat,
                    (NetworkModel { layers: stack_view(layers@), ..network }),
                    costs@,
                ),
            decreases no_epochs - epoch,
        {
            let ghost here = layers@;
            let ghost reported = costs@;
            train_on_rows(&training_dataset, learning_rate, &cost_function, &mut layers);
            let ghost trained = layers@;
            proof {
                lemma_rows_still_fit(here, trained, training_dataset@);
                lemma_rows_still_fit(here, trained, testing_dataset@);
            }
            let error = get_error(&testing_dataset, &cost_function, &mut layers);
            costs.push(error);
            proof {
                let before = stack_view(here);
                let between = stack_view(trained);
                let after = stack_view(layers@);
                lemma_architecture_kept(here, trained);
                lemma_only_activity_differs(trained, layers@);
                lemma_rows_still_fit(trained, layers@, training_dataset@);
                lemma_rows_still_fit(trained, layers@, testing_dataset@);
                lemma_same_architecture_transitive(stack_view(start), before, between);
                lemma_same_architecture_transitive(stack_view(start), between, after);
                if training_dataset.len() == 0 {
                    assert(between == before);
                    lemma_same_but_activity_transitive(stack_view(start), between, after);
                }
                let n = (epoch + 1) as nat;
                let earlier = NetworkModel { layers: before, ..network };
                assert(costs@.drop_last() =~= reported);
                assert(costs@.last() == error);
                assert(after_epochs_gives(
                    network,
                    learning_rate,
                    cost_function,
                    (n - 1) as nat,
                    earlier,
                    costs@.drop_last(),
                ));
                assert(trained_on_rows_gives(
                    earlier.layers,
                    network.training_dataset,
                    learning_rate,
                    cost_function,
                    network.training_dataset.len(),
                    between,
                ));
                assert(evaluated_gives(
                    between,
                    network.testing_dataset,
                    cost_function,
                    network.testing_dataset.len(),
                    after,
                    costs@.last(),
                ));
                assert(after_epochs_gives(
                    network,
                    learning_rate,
                    cost_function,
                    n,
                    (NetworkModel { layers: after, ..network }),
                    costs@,
                ));
            }
            epoch += 1;
        }
        let rebuilt = NeuralNetwork { layers, training_dataset, testing_dataset };
        proof {
            rebuilt.lemma_fields_consistent();
            assert(rebuilt@ == (NetworkModel { layers: rebuilt@.layers, ..network }));
            if deterministic_training::<T, A, C>() {
                lemma_after_epochs_gives_value(
                    network,
                    learning_rate,
                    cost_function,
                    no_epochs as nat,
                    rebuilt@,
                    costs@,
                );
            }
        }
        *self = rebuilt;
        costs
    }
}

} // verus!
