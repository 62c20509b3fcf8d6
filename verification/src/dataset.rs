//! Datasets: rows of inputs and expected outputs, admitted only where they
//! fit the layers.
use crate::error::NetworkError;
use crate::layer::{stack_view, Layer};
use crate::model::{features_verdict, row_fits, row_verdict, RowModel};
use vstd::prelude::*;

verus! {

/// One example of a dataset.
pub(crate) struct Row<T> {
    pub(crate) inputs: Vec<T>,
    pub(crate) outputs: Vec<T>,
}

impl<T> Row<T> {
    /// The row as the mathematics sees it.
    pub(crate) open spec fn model(&self) -> RowModel<T> {
        RowModel { inputs: self.inputs@, outputs: self.outputs@ }
    }
}

/// The models of the rows of a dataset.
pub(crate) open spec fn rows_view<T>(rows: Seq<Row<T>>) -> Seq<RowModel<T>> {
    Seq::new(rows.len(), |k: int| rows[k].model())
}

/// Every row of `rows` fits the stack `layers`.
pub(crate) open spec fn rows_fit<T, A>(layers: Seq<Layer<T, A>>, rows: Seq<Row<T>>) -> bool {
    forall|k: int|
        0 <= k < rows.len() ==> row_fits(stack_view(layers), (#[trigger] rows[k]).model())
}

/// `now` has as many layers as `before`, each of the same size and with the
/// same activation function.
pub(crate) open spec fn architecture_kept<T, A>(
    before: Seq<Layer<T, A>>,
    now: Seq<Layer<T, A>>,
) -> bool {
    &&& now.len() == before.len()
    &&& forall|l: int|
        0 <= l < before.len() ==> {
            &&& (#[trigger] now[l]).size == before[l].size
            &&& now[l].activation_function == before[l].activation_function
        }
}

/// Whether the stack can take these inputs: it needs an input and an output
/// layer, and the inputs must fill the input layer.
pub(crate) fn check_input_ready<T, A>(layers: &Vec<Layer<T, A>>, inputs: &Vec<T>) -> (ready: Result<
    (),
    NetworkError,
>)
    ensures
        ready == features_verdict(stack_view(layers@), inputs@.len()),
{
    if layers.len() < 2 {
        return Err(NetworkError::ConfigurationError);
    }
    assert(stack_view(layers@)[0] == layers[0].model());
    if inputs.len() != layers[0].size {
        return Err(NetworkError::ShapeMismatchError);
    }
    Ok(())
}

/// Appends a row to `dataset` if it fits the layers, and refuses it
/// otherwise.
pub(crate) fn add_row<T, A>(
    inputs: Vec<T>,
    outputs: Vec<T>,
    layers: &Vec<Layer<T, A>>,
    dataset: &mut Vec<Row<T>>,
) -> (added: Result<(), NetworkError>)
    ensures
        added == row_verdict(
            stack_view(layers@),
            (RowModel { inputs: inputs@, outputs: outputs@ }),
        ),
        added is Ok ==> final(dataset)@ == old(dataset)@.push(Row { inputs, outputs }),
        added is Err ==> final(dataset)@ == old(dataset)@,
{
    let ready = check_input_ready(layers, &inputs);
    if ready.is_err() {
        return ready;
    }
    assert(stack_view(layers@).last() == layers[layers.len() - 1].model());
    if outputs.len() != layers[layers.len() - 1].size {
        return Err(NetworkError::ShapeMismatchError);
    }
    dataset.push(Row { inputs, outputs });
    Ok(())
}

/// Rows that fit a stack fit every stack of the same architecture.
pub(crate) proof fn lemma_rows_still_fit<T, A>(
    before: Seq<Layer<T, A>>,
    now: Seq<Layer<T, A>>,
    rows: Seq<Row<T>>,
)
    requires
        architecture_kept(before, now),
        rows_fit(before, rows),
    ensures
        rows_fit(now, rows),
{
    let b = stack_view(before);
    let n = stack_view(now);
    assert forall|k: int| 0 <= k < rows.len() implies row_fits(n, (#[trigger] rows[k]).model()) by {
        assert(row_fits(b, rows[k].model()));
        assert(b[0] == before[0].model());
        assert(n[0] == now[0].model());
        assert(now[0].size == before[0].size);
        assert(b[b.len() - 1] == before[b.len() - 1].model());
        assert(n[b.len() - 1] == now[b.len() - 1].model());
        assert(now[b.len() - 1].size == before[b.len() - 1].size);
    }
}

} // verus!
