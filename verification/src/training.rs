//! Cost evaluation and the training sweep over a layer stack.
use crate::backward::backward_propagation;
use crate::dataset::{architecture_kept, rows_fit, rows_view, Row};
use crate::layer::{forward_propagation, stack_view, Layer};
use crate::model::{row_fits, same_architecture, same_but_activity, vectors_fit, well_formed};
use crate::nn_functions::{ActivationFunction, CostFunction};
use crate::outcome::{
    accumulated_cost_gives, evaluated_gives, fed_forward_gives, trained_on_row_gives,
    trained_on_rows_gives,
};
use crate::scalar::Scalar;
use vstd::prelude::*;

verus! {

/// `now` has the architecture, weights and error terms of `before`.
pub(crate) open spec fn only_activity_differs<T, A>(
    before: Seq<Layer<T, A>>,
    now: Seq<Layer<T, A>>,
) -> bool {
    &&& now.len() == before.len()
    &&& forall|l: int|
        0 <= l < before.len() ==> {
            &&& (#[trigger] now[l]).size == before[l].size
            &&& now[l].weights_in == before[l].weights_in
            &&& now[l].errors == before[l].errors
            &&& now[l].activation_function == before[l].activation_function
        }
}

/// Adds to `total` the cost of each prediction of one row.
pub(crate) fn add_row_cost<T: Scalar, C: CostFunction<T>>(
    total: T,
    cost_function: &C,
    output: &Vec<T>,
    expected: &Vec<T>,
) -> (error: T)
    requires
        output.len() == expected.len(),
    ensures
        accumulated_cost_gives(
            total,
            *cost_function,
            output@,
            expected@,
            output.len() as nat,
            error,
        ),
{
    let mut error = total;
    let mut i: usize = 0;
    while i < output.len()
        invariant
            i <= output.len(),
            output.len() == expected.len(),
            accumulated_cost_gives(total, *cost_function, output@, expected@, i as nat, error),
        decreases output.len() - i,
    {
        let ghost sum = error;
        let cost = cost_function.apply(output[i], expected[i]);
        error = error.plus(cost);
        assert(accumulated_cost_gives(total, *cost_function, output@, expected@, i as nat, sum));
        i += 1;
    }
    error
}

/// The cost of the stack's predictions over a dataset: each row is sent
/// forward, and the cost of each of its predictions is added to one sum.
pub(crate) fn get_error<T: Scalar, A: ActivationFunction<T>, C: CostFunction<T>>(
    testing_dataset: &Vec<Row<T>>,
    cost_function: &C,
    layers: &mut Vec<Layer<T, A>>,
) -> (error: T)
    requires
        well_formed(stack_view(old(layers)@)),
        rows_fit(old(layers)@, testing_dataset@),
    ensures
        well_formed(stack_view(final(layers)@)),
        only_activity_differs(old(layers)@, final(layers)@),
        evaluated_gives(
            stack_view(old(layers)@),
            rows_view(testing_dataset@),
            *cost_function,
            testing_dataset.len() as nat,
            stack_view(final(layers)@),
            error,
        ),
{
    let ghost start = layers@;
    let ghost before = stack_view(start);
    let ghost rows = rows_view(testing_dataset@);
    let mut error = T::from_count(0);
    let mut r: usize = 0;
    while r < testing_dataset.len()
        invariant
            r <= testing_dataset.len(),
            before == stack_view(start),
            rows == rows_view(testing_dataset@),
            well_formed(before),
            well_formed(stack_view(layers@)),
            rows_fit(start, testing_dataset@),
            only_activity_differs(start, layers@),
            evaluated_gives(before, rows, *cost_function, r as nat, stack_view(layers@), error),
        decreases testing_dataset.len() - r,
    {
        let ghost features = testing_dataset[r as int].inputs@;
        let ghost here = layers@;
        let ghost earlier = error;
        proof {
            assert(row_fits(before, testing_dataset[r as int].model()));
            assert(rows[r as int] == testing_dataset[r as int].model());
            assert(before[0] == start[0].model());
            assert(before.last() == start[start.len() - 1].model());
            assert(layers[0].size == start[0].size);
        }
        forward_propagation(&testing_dataset[r].inputs, layers);
        let last = layers.len() - 1;
        proof {
            assert(layers[last as int].size == start[last as int].size);
            assert(stack_view(layers@)[last as int] == layers[last as int].model());
            assert(vectors_fit(stack_view(layers@)[last as int]));
        }
        error = add_row_cost(
            error,
            cost_function,
            &layers[last].outputs,
            &testing_dataset[r].outputs,
        );
        proof {
            let n = (r + 1) as nat;
            assert(layers[last as int].outputs.len() == before.last().size);
            assert(evaluated_gives(
                before,
                rows,
                *cost_function,
                (n - 1) as nat,
                stack_view(here),
                earlier,
            ));
            assert(fed_forward_gives(stack_view(here), rows[n - 1].inputs, stack_view(layers@)));
            assert(accumulated_cost_gives(
                earlier,
                *cost_function,
                stack_view(layers@).last().outputs,
                rows[n - 1].outputs,
                before.last().size,
                error,
            ));
            assert(evaluated_gives(before, rows, *cost_function, n, stack_view(layers@), error));
        }
        r += 1;
    }
    error
}

/// One sweep over the training rows, in order: each row is sent forward,
/// then the error of its prediction is sent backward and every weight is
/// updated, before the next row is looked at.
pub(crate) fn train_on_rows<T: Scalar, A: ActivationFunction<T>, C: CostFunction<T>>(
    training_dataset: &Vec<Row<T>>,
    learning_rate: T,
    cost_function: &C,
    layers: &mut Vec<Layer<T, A>>,
)
    requires
        well_formed(stack_view(old(layers)@)),
        rows_fit(old(layers)@, training_dataset@),
    ensures
        well_formed(stack_view(final(layers)@)),
        architecture_kept(old(layers)@, final(layers)@),
        training_dataset.len() == 0 ==> final(layers)@ == old(layers)@,
        trained_on_rows_gives(
            stack_view(old(layers)@),
            rows_view(training_dataset@),
            learning_rate,
            *cost_function,
            training_dataset.len() as nat,
            stack_view(final(layers)@),
        ),
{
    let ghost start = layers@;
    let ghost before = stack_view(start);
    let ghost rows = rows_view(training_dataset@);
    let mut r: usize = 0;
    while r < training_dataset.len()
        invariant
            r <= training_dataset.len(),
            before == stack_view(start),
            rows == rows_view(training_dataset@),
            well_formed(before),
            well_formed(stack_view(layers@)),
            rows_fit(start, training_dataset@),
            architecture_kept(start, layers@),
            r == 0 ==> layers@ == start,
            trained_on_rows_gives(
                before,
                rows,
                learning_rate,
                *cost_function,
                r as nat,
                stack_view(layers@),
            ),
        decreases training_dataset.len() - r,
    {
        let ghost here = layers@;
        proof {
            assert(row_fits(before, training_dataset[r as int].model()));
            assert(rows[r as int] == training_dataset[r as int].model());
            assert(before[0] == start[0].model());
            assert(before.last() == start[start.len() - 1].model());
            assert(layers[0].size == start[0].size);
            assert(layers[layers.len() - 1].size == start[layers.len() - 1].size);
        }
        forward_propagation(&training_dataset[r].inputs, layers);
        let ghost fed = layers@;
        backward_propagation(learning_rate, cost_function, &training_dataset[r].outputs, layers);
        proof {
            assert forall|l: int| 0 <= l < start.len() implies {
                &&& (#[trigger] layers[l]).size == start[l].size
                &&& layers[l].activation_function == start[l].activation_function
            } by {
                assert(fed[l].size == here[l].size);
                assert(layers[l].size == fed[l].size);
            }
            let n = (r + 1) as nat;
            assert(trained_on_row_gives(
                stack_view(here),
                rows[n - 1],
                learning_rate,
                *cost_function,
                stack_view(layers@),
            )) by {
                assert(fed_forward_gives(stack_view(here), rows[n - 1].inputs, stack_view(fed)));
            }
            assert(trained_on_rows_gives(
                before,
                rows,
                learning_rate,
                *cost_function,
                (n - 1) as nat,
                stack_view(here),
            ));
            assert(trained_on_rows_gives(
                before,
                rows,
                learning_rate,
                *cost_function,
                n,
                stack_view(layers@),
            ));
        }
        r += 1;
    }
}

/// Stacks that differ in their activity only have models that do.
pub(crate) proof fn lemma_only_activity_differs<T, A>(
    before: Seq<Layer<T, A>>,
    now: Seq<Layer<T, A>>,
)
    requires
        only_activity_differs(before, now),
    ensures
        same_but_activity(stack_view(before), stack_view(now)),
        same_architecture(stack_view(before), stack_view(now)),
        architecture_kept(before, now),
{
    let b = stack_view(before);
    let n = stack_view(now);
    assert forall|l: int| 0 <= l < b.len() implies {
        &&& (#[trigger] b[l]).size == (#[trigger] n[l]).size
        &&& b[l].weights_in == n[l].weights_in
        &&& b[l].errors == n[l].errors
        &&& b[l].activation_function == n[l].activation_function
    } by {
        assert(b[l] == before[l].model());
        assert(n[l] == now[l].model());
        assert(now[l].size == before[l].size);
    }
}

/// Stacks of the same architecture have models of the same architecture.
pub(crate) proof fn lemma_architecture_kept<T, A>(before: Seq<Layer<T, A>>, now: Seq<Layer<T, A>>)
    requires
        architecture_kept(before, now),
    ensures
        same_architecture(stack_view(before), stack_view(now)),
{
    let b = stack_view(before);
    let n = stack_view(now);
    assert forall|l: int| 0 <= l < b.len() implies {
        &&& (#[trigger] b[l]).size == (#[trigger] n[l]).size
        &&& b[l].activation_function == n[l].activation_function
    } by {
        assert(b[l] == before[l].model());
        assert(n[l] == now[l].model());
        assert(now[l].size == before[l].size);
    }
}

} // verus!
