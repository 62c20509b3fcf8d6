//! The backward pass: error terms from the output layer back to the second
//! layer, then the update of every weight.
use crate::layer::{lemma_same_shape_well_formed, stack_view, Layer};
use crate::model::{is_matrix, matrix_view, vectors_fit, weights_fit, well_formed, LayerModel};
use crate::nn_functions::{ActivationFunction, CostFunction};
use crate::outcome::{
    errors_set_gives, hidden_error_gives, hidden_errors_give, output_error_gives,
    output_errors_give, propagated_back_gives, updated_weight_gives, updated_weights_give,
    weighted_errors_sum_gives, weights_updated_gives,
};
use crate::scalar::Scalar;
use vstd::prelude::*;

verus! {

/// `now` is `before` but for the error terms of layer `l`.
pub(crate) open spec fn only_errors_differ<T, A>(
    before: Seq<Layer<T, A>>,
    now: Seq<Layer<T, A>>,
    l: int,
) -> bool {
    &&& now.len() == before.len()
    &&& forall|k: int| 0 <= k < before.len() && k != l ==> #[trigger] now[k] == before[k]
    &&& now[l].size == before[l].size
    &&& now[l].weights_in == before[l].weights_in
    &&& now[l].inputs == before[l].inputs
    &&& now[l].outputs == before[l].outputs
    &&& now[l].activation_function == before[l].activation_function
    &&& now[l].errors.len() == before[l].errors.len()
}

/// `now` is `before` but for the weights of layer `l`, whose matrix has kept
/// its shape.
pub(crate) open spec fn only_weights_differ<T, A>(
    before: Seq<Layer<T, A>>,
    now: Seq<Layer<T, A>>,
    l: int,
) -> bool {
    &&& now.len() == before.len()
    &&& forall|k: int| 0 <= k < before.len() && k != l ==> #[trigger] now[k] == before[k]
    &&& now[l].size == before[l].size
    &&& now[l].errors == before[l].errors
    &&& now[l].inputs == before[l].inputs
    &&& now[l].outputs == before[l].outputs
    &&& now[l].activation_function == before[l].activation_function
    &&& now[l].weights_in.len() == before[l].weights_in.len()
    &&& forall|i: int|
        0 <= i < before[l].weights_in.len() ==> (#[trigger] now[l].weights_in[i]).len()
            == before[l].weights_in[i].len()
}

/// The error that flows back into one neuron through its outbound weights.
pub(crate) fn weighted_sum<T: Scalar>(weights_out: &Vec<T>, errors: &Vec<T>) -> (total: T)
    requires
        weights_out.len() == errors.len(),
    ensures
        weighted_errors_sum_gives(weights_out@, errors@, errors.len() as nat, total),
{
    let mut total = T::from_count(0);
    let mut neighbor_index: usize = 0;
    while neighbor_index < errors.len()
        invariant
            neighbor_index <= errors.len(),
            weights_out.len() == errors.len(),
            weighted_errors_sum_gives(weights_out@, errors@, neighbor_index as nat, total),
        decreases errors.len() - neighbor_index,
    {
        let ghost sum = total;
        let term = weights_out[neighbor_index].times(errors[neighbor_index]);
        total = total.plus(term);
        assert(weighted_errors_sum_gives(weights_out@, errors@, neighbor_index as nat, sum));
        neighbor_index += 1;
    }
    total
}

/// Sets the error terms of the output layer.
pub(crate) fn set_output_errors<T: Scalar, A: ActivationFunction<T>, C: CostFunction<T>>(
    cost_function: &C,
    targets: &Vec<T>,
    layers: &mut Vec<Layer<T, A>>,
)
    requires
        old(layers).len() >= 1,
        well_formed(stack_view(old(layers)@)),
        targets.len() == old(layers)[old(layers).len() - 1].size,
    ensures
        well_formed(stack_view(final(layers)@)),
        only_errors_differ(old(layers)@, final(layers)@, old(layers).len() - 1),
        output_errors_give(
            old(layers)[old(layers).len() - 1].model(),
            *cost_function,
            targets@,
            final(layers)[old(layers).len() - 1].errors@,
        ),
{
    let ghost start = layers@;
    let last = layers.len() - 1;
    assert(stack_view(start)[last as int] == start[last as int].model());
    assert(vectors_fit(stack_view(start)[last as int]));
    let mut n: usize = 0;
    while n < layers[last].size
        invariant
            last == start.len() - 1,
            n <= start[last as int].size,
            start[last as int].size == start[last as int].errors.len(),
            start[last as int].size == start[last as int].inputs.len(),
            start[last as int].size == start[last as int].outputs.len(),
            start[last as int].size == targets.len(),
            only_errors_differ(start, layers@, last as int),
            forall|i: int|
                0 <= i < n ==> output_error_gives(
                    start[last as int].model(),
                    *cost_function,
                    targets[i],
                    i,
                    #[trigger] layers[last as int].errors[i],
                ),
        decreases start[last as int].size - n,
    {
        let output = layers[last].outputs[n];
        let cost_slope = cost_function.apply_derivative(output, targets[n]);
        let slope = layers[last].activation_function.apply_derivative(
            layers[last].inputs[n],
            output,
        );
        let term = cost_slope.times(slope);
        assert(output_error_gives(
            start[last as int].model(),
            *cost_function,
            targets[n as int],
            n as int,
            term,
        ));
        layers[last].errors[n] = term;
        n += 1;
    }
    proof {
        lemma_same_shape_well_formed(start, layers@);
    }
}

/// Sets the error terms of the hidden layer `l` from those of layer `l + 1`.
pub(crate) fn set_hidden_errors<T: Scalar, A: ActivationFunction<T>>(
    layers: &mut Vec<Layer<T, A>>,
    l: usize,
)
    requires
        1 <= l,
        l + 1 < old(layers).len(),
        well_formed(stack_view(old(layers)@)),
    ensures
        well_formed(stack_view(final(layers)@)),
        only_errors_differ(old(layers)@, final(layers)@, l as int),
        hidden_errors_give(
            old(layers)[l as int].model(),
            matrix_view(old(layers)[l + 1].weights_in),
            old(layers)[l + 1].errors@,
            final(layers)[l as int].errors@,
        ),
{
    let ghost start = layers@;
    assert(stack_view(start)[l as int] == start[l as int].model());
    assert(stack_view(start)[l + 1] == start[l + 1].model());
    assert(vectors_fit(stack_view(start)[l as int]));
    assert(vectors_fit(stack_view(start)[l + 1]));
    assert(weights_fit(stack_view(start), l + 1));
    let ghost next_weights = matrix_view(start[l + 1].weights_in);
    assert(is_matrix(next_weights, start[l as int].size as nat, start[l + 1].size as nat));
    let mut n: usize = 0;
    while n < layers[l].size
        invariant
            1 <= l,
            l + 1 < start.len(),
            n <= start[l as int].size,
            start[l as int].size == start[l as int].errors.len(),
            start[l as int].size == start[l as int].inputs.len(),
            start[l as int].size == start[l as int].outputs.len(),
            start[l + 1].size == start[l + 1].errors.len(),
            next_weights == matrix_view(start[l + 1].weights_in),
            is_matrix(next_weights, start[l as int].size as nat, start[l + 1].size as nat),
            only_errors_differ(start, layers@, l as int),
            forall|i: int|
                0 <= i < n ==> hidden_error_gives(
                    start[l as int].model(),
                    next_weights[i],
                    start[l + 1].errors@,
                    i,
                    #[trigger] layers[l as int].errors[i],
                ),
        decreases start[l as int].size - n,
    {
        assert(layers.len() == start.len());
        assert(layers[l + 1] == start[l + 1]);
        assert(next_weights[n as int] == start[l + 1].weights_in[n as int]@);
        let flowing_back = weighted_sum(&layers[l + 1].weights_in[n], &layers[l + 1].errors);
        let slope = layers[l].activation_function.apply_derivative(
            layers[l].inputs[n],
            layers[l].outputs[n],
        );
        let term = flowing_back.times(slope);
        assert(hidden_error_gives(
            start[l as int].model(),
            next_weights[n as int],
            start[l + 1].errors@,
            n as int,
            term,
        ));
        layers[l].errors[n] = term;
        n += 1;
    }
    proof {
        lemma_same_shape_well_formed(start, layers@);
    }
}

/// Updates every inbound weight of layer `l`, in place.
pub(crate) fn update_weights<T: Scalar, A: ActivationFunction<T>>(
    learning_rate: T,
    layers: &mut Vec<Layer<T, A>>,
    l: usize,
)
    requires
        1 <= l < old(layers).len(),
        well_formed(stack_view(old(layers)@)),
    ensures
        well_formed(stack_view(final(layers)@)),
        only_weights_differ(old(layers)@, final(layers)@, l as int),
        updated_weights_give(
            matrix_view(old(layers)[l as int].weights_in),
            learning_rate,
            old(layers)[l as int].errors@,
            old(layers)[l - 1].outputs@,
            matrix_view(final(layers)[l as int].weights_in),
        ),
{
    let ghost start = layers@;
    assert(stack_view(start)[l as int] == start[l as int].model());
    assert(stack_view(start)[l - 1] == start[l - 1].model());
    assert(vectors_fit(stack_view(start)[l as int]));
    assert(vectors_fit(stack_view(start)[l - 1]));
    assert(weights_fit(stack_view(start), l as int));
    let ghost old_weights = matrix_view(start[l as int].weights_in);
    let ghost errors = start[l as int].errors@;
    let ghost previous_outputs = start[l - 1].outputs@;
    let ghost rows = start[l - 1].size as nat;
    let ghost columns = start[l as int].size as nat;
    assert(is_matrix(old_weights, rows, columns));
    let mut prev_node_index: usize = 0;
    while prev_node_index < layers[l - 1].size
        invariant
            1 <= l < start.len(),
            prev_node_index <= rows,
            rows == start[l - 1].size,
            columns == start[l as int].size,
            old_weights == matrix_view(start[l as int].weights_in),
            is_matrix(old_weights, rows, columns),
            errors == start[l as int].errors@,
            errors.len() == columns,
            previous_outputs == start[l - 1].outputs@,
            previous_outputs.len() == rows,
            only_weights_differ(start, layers@, l as int),
            forall|i: int|
                prev_node_index <= i < rows ==> (#[trigger] layers[l as int].weights_in[i])
                    == start[l as int].weights_in[i],
            forall|i: int, j: int|
                0 <= i < prev_node_index && 0 <= j < columns ==> updated_weight_gives(
                    old_weights[i][j],
                    learning_rate,
                    errors[j],
                    previous_outputs[i],
                    #[trigger] layers[l as int].weights_in[i][j],
                ),
        decreases rows - prev_node_index,
    {
        assert(old_weights[prev_node_index as int].len() == columns);
        let mut current_node_index: usize = 0;
        while current_node_index < layers[l].size
            invariant
                1 <= l < start.len(),
                prev_node_index < rows,
                current_node_index <= columns,
                rows == start[l - 1].size,
                columns == start[l as int].size,
                old_weights == matrix_view(start[l as int].weights_in),
                is_matrix(old_weights, rows, columns),
                errors == start[l as int].errors@,
                errors.len() == columns,
                previous_outputs == start[l - 1].outputs@,
                previous_outputs.len() == rows,
                only_weights_differ(start, layers@, l as int),
                forall|i: int|
                    prev_node_index < i < rows ==> (#[trigger] layers[l as int].weights_in[i])
                        == start[l as int].weights_in[i],
                forall|j: int|
                    current_node_index <= j < columns ==> (
                    #[trigger] layers[l as int].weights_in[prev_node_index as int][j])
                        == old_weights[prev_node_index as int][j],
                forall|i: int, j: int|
                    0 <= i < prev_node_index && 0 <= j < columns ==> updated_weight_gives(
                        old_weights[i][j],
                        learning_rate,
                        errors[j],
                        previous_outputs[i],
                        #[trigger] layers[l as int].weights_in[i][j],
                    ),
                forall|j: int|
                    0 <= j < current_node_index ==> updated_weight_gives(
                        old_weights[prev_node_index as int][j],
                        learning_rate,
                        errors[j],
                        previous_outputs[prev_node_index as int],
                        #[trigger] layers[l as int].weights_in[prev_node_index as int][j],
                    ),
            decreases columns - current_node_index,
        {
            assert(layers[l - 1] == start[l - 1]);
            assert(old_weights[prev_node_index as int]
                == start[l as int].weights_in[prev_node_index as int]@);
            assert(layers[l as int].weights_in[prev_node_index as int].len() == columns);
            let step = learning_rate.times(layers[l].errors[current_node_index]);
            let change = step.times(layers[l - 1].outputs[prev_node_index]);
            let weight = layers[l].weights_in[prev_node_index][current_node_index];
            let updated = weight.plus(change);
            assert(updated_weight_gives(
                old_weights[prev_node_index as int][current_node_index as int],
                learning_rate,
                errors[current_node_index as int],
                previous_outputs[prev_node_index as int],
                updated,
            ));
            layers[l].weights_in[prev_node_index][current_node_index] = updated;
            current_node_index += 1;
        }
        prev_node_index += 1;
    }
    proof {
        lemma_same_shape_well_formed(start, layers@);
        let updated = matrix_view(layers[l as int].weights_in);
        assert forall|i: int| 0 <= i < old_weights.len() implies (#[trigger] updated[i]).len()
            == old_weights[i].len() by {
            assert(layers[l as int].weights_in[i].len() == start[l as int].weights_in[i].len());
        }
        assert forall|i: int, j: int|
            0 <= i < old_weights.len() && 0 <= j < old_weights[i].len()
            implies updated_weight_gives(
            old_weights[i][j],
            learning_rate,
            errors[j],
            previous_outputs[i],
            #[trigger] updated[i][j],
        ) by {
            assert(old_weights[i].len() == columns);
            assert(updated[i][j] == layers[l as int].weights_in[i][j]);
        }
    }
}

/// Error terms that were made from `before` stay so made while the layer
/// and the layer after it keep their error terms.
proof fn lemma_errors_set_kept<T: Scalar, A: ActivationFunction<T>, C: CostFunction<T>>(
    before: Seq<LayerModel<T, A>>,
    cost_function: C,
    targets: Seq<T>,
    earlier: Seq<LayerModel<T, A>>,
    later: Seq<LayerModel<T, A>>,
    l: int,
)
    requires
        errors_set_gives(before, cost_function, targets, earlier, l),
        earlier.len() == before.len(),
        later.len() == before.len(),
        1 <= l < before.len(),
        later[l].errors == earlier[l].errors,
        l + 1 < before.len() ==> later[l + 1].errors == earlier[l + 1].errors,
    ensures
        errors_set_gives(before, cost_function, targets, later, l),
{
}

/// Weights that were made by an update stay so made while the layer keeps
/// its error terms and weights.
proof fn lemma_weights_updated_kept<T: Scalar, A>(
    before: Seq<LayerModel<T, A>>,
    learning_rate: T,
    earlier: Seq<LayerModel<T, A>>,
    later: Seq<LayerModel<T, A>>,
    l: int,
)
    requires
        weights_updated_gives(before, learning_rate, earlier, l),
        later[l].errors == earlier[l].errors,
        later[l].weights_in == earlier[l].weights_in,
    ensures
        weights_updated_gives(before, learning_rate, later, l),
{
}

/// One backward pass towards `targets`, over what the last forward pass
/// left in the layers. The error terms of all layers are set first, from the
/// output layer back to the second layer; only then are the weights updated,
/// so that every error term is computed from the weights as they were.
pub(crate) fn backward_propagation<T: Scalar, A: ActivationFunction<T>, C: CostFunction<T>>(
    learning_rate: T,
    cost_function: &C,
    targets: &Vec<T>,
    layers: &mut Vec<Layer<T, A>>,
)
    requires
        old(layers).len() >= 2,
        well_formed(stack_view(old(layers)@)),
        targets.len() == old(layers)[old(layers).len() - 1].size,
    ensures
        final(layers).len() == old(layers).len(),
        well_formed(stack_view(final(layers)@)),
        final(layers)[0] == old(layers)[0],
        forall|l: int|
            0 <= l < old(layers).len() ==> {
                &&& (#[trigger] final(layers)[l]).size == old(layers)[l].size
                &&& final(layers)[l].inputs == old(layers)[l].inputs
                &&& final(layers)[l].outputs == old(layers)[l].outputs
                &&& final(layers)[l].activation_function == old(layers)[l].activation_function
            },
        propagated_back_gives(
            stack_view(old(layers)@),
            learning_rate,
            *cost_function,
            targets@,
            stack_view(final(layers)@),
        ),
{
    let ghost start = layers@;
    let ghost before = stack_view(start);
    let last = layers.len() - 1;
    assert(before[last as int] == start[last as int].model());
    set_output_errors(cost_function, targets, layers);
    assert(stack_view(layers@)[last as int] == layers[last as int].model());
    let mut l: usize = last;
    while l > 1
        invariant
            1 <= l <= last,
            last == start.len() - 1,
            layers.len() == start.len(),
            before == stack_view(start),
            well_formed(stack_view(layers@)),
            forall|k: int| 0 <= k < l ==> #[trigger] layers[k] == start[k],
            forall|k: int|
                l <= k <= last ==> #[trigger] errors_set_gives(
                    before,
                    *cost_function,
                    targets@,
                    stack_view(layers@),
                    k,
                ),
            forall|k: int|
                0 <= k <= last ==> {
                    &&& (#[trigger] layers[k]).size == start[k].size
                    &&& layers[k].weights_in == start[k].weights_in
                    &&& layers[k].inputs == start[k].inputs
                    &&& layers[k].outputs == start[k].outputs
                    &&& layers[k].activation_function == start[k].activation_function
                },
        decreases l,
    {
        l -= 1;
        let ghost here = layers@;
        set_hidden_errors(layers, l);
        proof {
            assert(before[l as int] == start[l as int].model());
            assert(before[l + 1] == start[l + 1].model());
            assert(here[l as int] == start[l as int]);
            assert(here[l + 1].weights_in == start[l + 1].weights_in);
            let earlier = stack_view(here);
            let now = stack_view(layers@);
            assert(now[l as int] == layers[l as int].model());
            assert(now[l + 1] == layers[l + 1].model());
            assert(layers[l + 1] == here[l + 1]);
            assert forall|k: int| l <= k <= last implies #[trigger] errors_set_gives(
                before,
                *cost_function,
                targets@,
                now,
                k,
            ) by {
                if k > l {
                    assert(layers[k] == here[k]);
                    assert(now[k] == layers[k].model());
                    assert(earlier[k] == here[k].model());
                    if k < last {
                        assert(layers[k + 1] == here[k + 1]);
                        assert(now[k + 1] == layers[k + 1].model());
                        assert(earlier[k + 1] == here[k + 1].model());
                    }
                    lemma_errors_set_kept(before, *cost_function, targets@, earlier, now, k);
                }
            }
            assert forall|k: int| 0 <= k <= last implies {
                &&& (#[trigger] layers[k]).size == start[k].size
                &&& layers[k].weights_in == start[k].weights_in
                &&& layers[k].inputs == start[k].inputs
                &&& layers[k].outputs == start[k].outputs
                &&& layers[k].activation_function == start[k].activation_function
            } by {
                if k != l {
                    assert(layers[k] == here[k]);
                }
            }
        }
    }
    let ghost with_errors = layers@;
    let mut l: usize = 1;
    while l < layers.len()
        invariant
            1 <= l <= layers.len(),
            last == start.len() - 1,
            layers.len() == start.len(),
            with_errors.len() == start.len(),
            before == stack_view(start),
            well_formed(stack_view(layers@)),
            layers[0] == start[0],
            forall|k: int|
                1 <= k <= last ==> #[trigger] errors_set_gives(
                    before,
                    *cost_function,
                    targets@,
                    stack_view(layers@),
                    k,
                ),
            forall|k: int|
                1 <= k < l ==> #[trigger] weights_updated_gives(
                    before,
                    learning_rate,
                    stack_view(layers@),
                    k,
                ),
            forall|k: int|
                0 <= k <= last ==> {
                    &&& (#[trigger] with_errors[k]).size == start[k].size
                    &&& with_errors[k].weights_in == start[k].weights_in
                    &&& with_errors[k].inputs == start[k].inputs
                    &&& with_errors[k].outputs == start[k].outputs
                    &&& with_errors[k].activation_function == start[k].activation_function
                },
            forall|k: int|
                0 <= k <= last ==> {
                    &&& (#[trigger] layers[k]).size == with_errors[k].size
                    &&& layers[k].errors == with_errors[k].errors
                    &&& layers[k].inputs == with_errors[k].inputs
                    &&& layers[k].outputs == with_errors[k].outputs
                    &&& layers[k].activation_function == with_errors[k].activation_function
                },
            forall|k: int| l <= k <= last ==> #[trigger] layers[k] == with_errors[k],
        decreases layers.len() - l,
    {
        let ghost here = layers@;
        update_weights(learning_rate, layers, l);
        proof {
            assert(before[l as int] == start[l as int].model());
            assert(before[l - 1] == start[l - 1].model());
            assert(here[l as int] == with_errors[l as int]);
            assert(here[l - 1].outputs == with_errors[l - 1].outputs);
            let earlier = stack_view(here);
            let now = stack_view(layers@);
            assert forall|k: int| 1 <= k <= last implies #[trigger] errors_set_gives(
                before,
                *cost_function,
                targets@,
                now,
                k,
            ) by {
                assert(now[k] == layers[k].model());
                assert(earlier[k] == here[k].model());
                assert(layers[k].errors == here[k].errors) by {
                    if k != l {
                        assert(layers[k] == here[k]);
                    }
                }
                if k < last {
                    assert(now[k + 1] == layers[k + 1].model());
                    assert(earlier[k + 1] == here[k + 1].model());
                    assert(layers[k + 1].errors == here[k + 1].errors) by {
                        if k + 1 != l {
                            assert(layers[k + 1] == here[k + 1]);
                        }
                    }
                }
                lemma_errors_set_kept(before, *cost_function, targets@, earlier, now, k);
            }
            assert forall|k: int| 1 <= k < l + 1 implies #[trigger] weights_updated_gives(
                before,
                learning_rate,
                now,
                k,
            ) by {
                assert(now[k] == layers[k].model());
                if k < l {
                    assert(layers[k] == here[k]);
                    assert(earlier[k] == here[k].model());
                    lemma_weights_updated_kept(before, learning_rate, earlier, now, k);
                } else {
                    assert(here[l as int].errors == layers[l as int].errors);
                    assert(start[l as int].weights_in == here[l as int].weights_in);
                    assert(start[l - 1].outputs == here[l - 1].outputs);
                }
            }
            assert forall|k: int| 0 <= k <= last implies {
                &&& (#[trigger] layers[k]).size == with_errors[k].size
                &&& layers[k].errors == with_errors[k].errors
                &&& layers[k].inputs == with_errors[k].inputs
                &&& layers[k].outputs == with_errors[k].outputs
                &&& layers[k].activation_function == with_errors[k].activation_function
            } by {
                if k != l {
                    assert(layers[k] == here[k]);
                }
            }
            assert forall|k: int| l + 1 <= k <= last implies #[trigger] layers[k]
                == with_errors[k] by {
                assert(layers[k] == here[k]);
            }
        }
        l += 1;
    }
    proof {
        let after = stack_view(layers@);
        assert(after[0] == layers[0].model());
        assert(before[0] == start[0].model());
        assert forall|k: int| 0 <= k < before.len() implies {
            &&& (#[trigger] before[k]).size == (#[trigger] after[k]).size
            &&& before[k].activation_function == after[k].activation_function
        } by {
            assert(after[k] == layers[k].model());
            assert(before[k] == start[k].model());
            assert(layers[k].size == with_errors[k].size);
        }
        assert forall|k: int| 0 <= k < before.len() implies (#[trigger] after[k]).inputs
            == before[k].inputs && after[k].outputs == before[k].outputs by {
            assert(after[k] == layers[k].model());
            assert(before[k] == start[k].model());
            assert(layers[k].size == with_errors[k].size);
        }
    }
}

} // verus!
