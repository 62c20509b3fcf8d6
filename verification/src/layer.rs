//! The layer stack in memory and the forward pass through it.
use crate::model::{
    fan_in, fan_out, is_matrix, matrix_view, vectors_fit, weights_fit, well_formed, LayerModel,
};
use crate::nn_functions::{activation_gives, make_ratio, ActivationFunction};
use crate::outcome::{
    activated_gives, dot_column_gives, drawn_gives, fed_forward_gives, fresh_layer_gives,
    initial_bounds_give, layer_fed_gives, placeholder_gives, vector_matrix_gives, zeros_give,
};
use crate::scalar::{from_count_gives, zero, Scalar};
use vstd::prelude::*;

verus! {

/// A bank of neurons that share one activation function.
pub(crate) struct Layer<T, A> {
    pub(crate) size: usize,
    pub(crate) weights_in: Vec<Vec<T>>,
    pub(crate) inputs: Vec<T>,
    pub(crate) outputs: Vec<T>,
    pub(crate) errors: Vec<T>,
    pub(crate) activation_function: A,
}

impl<T, A> Layer<T, A> {
    /// The layer as the mathematics sees it.
    pub(crate) open spec fn model(&self) -> LayerModel<T, A> {
        LayerModel {
            size: self.size as nat,
            weights_in: matrix_view(self.weights_in),
            inputs: self.inputs@,
            outputs: self.outputs@,
            errors: self.errors@,
            activation_function: self.activation_function,
        }
    }
}

/// The models of the layers of a stack.
pub(crate) open spec fn stack_view<T, A>(layers: Seq<Layer<T, A>>) -> Seq<LayerModel<T, A>> {
    Seq::new(layers.len(), |l: int| layers[l].model())
}

/// Every vector and every weight matrix of `now` has the length it has in
/// `before`.
pub(crate) open spec fn same_shape<T, A>(before: Seq<Layer<T, A>>, now: Seq<Layer<T, A>>) -> bool {
    &&& now.len() == before.len()
    &&& forall|k: int|
        0 <= k < before.len() ==> {
            &&& (#[trigger] now[k]).size == before[k].size
            &&& now[k].inputs.len() == before[k].inputs.len()
            &&& now[k].outputs.len() == before[k].outputs.len()
            &&& now[k].errors.len() == before[k].errors.len()
            &&& now[k].weights_in.len() == before[k].weights_in.len()
            &&& forall|i: int|
                0 <= i < before[k].weights_in.len() ==> (#[trigger] now[k].weights_in[i]).len()
                    == before[k].weights_in[i].len()
        }
}

/// A stack that keeps its shape stays well formed.
pub(crate) proof fn lemma_same_shape_well_formed<T, A>(
    before: Seq<Layer<T, A>>,
    now: Seq<Layer<T, A>>,
)
    requires
        well_formed(stack_view(before)),
        same_shape(before, now),
    ensures
        well_formed(stack_view(now)),
{
    let b = stack_view(before);
    let a = stack_view(now);
    assert forall|k: int| 0 <= k < a.len() implies vectors_fit(#[trigger] a[k]) by {
        assert(vectors_fit(b[k]));
        assert(b[k] == before[k].model());
        assert(a[k] == now[k].model());
        assert(now[k].size == before[k].size);
    }
    assert forall|k: int| 0 <= k < a.len() implies #[trigger] weights_fit(a, k) by {
        assert(weights_fit(b, k));
        assert(b[k] == before[k].model());
        assert(a[k] == now[k].model());
        assert(now[k].size == before[k].size);
        if k > 0 {
            assert(b[k - 1] == before[k - 1].model());
            assert(a[k - 1] == now[k - 1].model());
            assert(now[k - 1].size == before[k - 1].size);
        }
        assert forall|i: int| 0 <= i < fan_in(a, k) implies (#[trigger] a[k].weights_in[i]).len()
            == fan_out(a, k) by {
            assert(b[k].weights_in[i].len() == fan_out(b, k));
            assert(now[k].weights_in[i].len() == before[k].weights_in[i].len());
        }
    }
}

/// A vector of `n` zeros.
pub(crate) fn zeros<T: Scalar>(n: usize) -> (v: Vec<T>)
    ensures
        v.len() == n,
        zeros_give(v@),
{
    let nothing = T::from_count(0);
    let mut v: Vec<T> = Vec::new();
    let mut i: usize = 0;
    while i < n
        invariant
            i <= n,
            v.len() == i,
            from_count_gives(0, nothing),
            forall|k: int| 0 <= k < i ==> v[k] == nothing,
        decreases n - i,
    {
        v.push(nothing);
        i += 1;
    }
    v
}

/// A copy of `v`.
pub(crate) fn duplicate<T: Copy>(v: &Vec<T>) -> (copy: Vec<T>)
    ensures
        copy@ == v@,
{
    let mut copy: Vec<T> = Vec::new();
    let mut i: usize = 0;
    while i < v.len()
        invariant
            i <= v.len(),
            copy.len() == i,
            forall|k: int| 0 <= k < i ==> copy[k] == v[k],
        decreases v.len() - i,
    {
        copy.push(v[i]);
        i += 1;
    }
    assert(copy@ =~= v@);
    copy
}

/// Entry `j` of the product of the row vector `v` and the matrix `m`.
pub(crate) fn dot<T: Scalar>(v: &Vec<T>, m: &Vec<Vec<T>>, j: usize) -> (entry: T)
    requires
        m.len() == v.len(),
        forall|i: int| 0 <= i < m.len() ==> j < (#[trigger] m[i]).len(),
    ensures
        dot_column_gives(v@, matrix_view(*m), j as int, v.len() as nat, entry),
{
    let mut entry = T::from_count(0);
    let mut i: usize = 0;
    while i < v.len()
        invariant
            i <= v.len(),
            m.len() == v.len(),
            forall|i: int| 0 <= i < m.len() ==> j < (#[trigger] m[i]).len(),
            dot_column_gives(v@, matrix_view(*m), j as int, i as nat, entry),
        decreases v.len() - i,
    {
        let ghost sum = entry;
        let term = v[i].times(m[i][j]);
        entry = entry.plus(term);
        assert(dot_column_gives(v@, matrix_view(*m), j as int, i as nat, sum));
        assert(matrix_view(*m)[i as int][j as int] == m[i as int][j as int]);
        i += 1;
    }
    entry
}

/// The product of the row vector `v` and the matrix `m`.
pub(crate) fn vector_times_matrix<T: Scalar>(
    v: &Vec<T>,
    m: &Vec<Vec<T>>,
    columns: usize,
) -> (product: Vec<T>)
    requires
        is_matrix(matrix_view(*m), v.len() as nat, columns as nat),
    ensures
        vector_matrix_gives(v@, matrix_view(*m), columns as nat, product@),
{
    let mut product: Vec<T> = Vec::new();
    let mut j: usize = 0;
    while j < columns
        invariant
            j <= columns,
            product.len() == j,
            is_matrix(matrix_view(*m), v.len() as nat, columns as nat),
            forall|k: int|
                0 <= k < j ==> dot_column_gives(
                    v@,
                    matrix_view(*m),
                    k,
                    v.len() as nat,
                    #[trigger] product[k],
                ),
        decreases columns - j,
    {
        assert forall|i: int| 0 <= i < m.len() implies j < (#[trigger] m[i]).len() by {
            assert(matrix_view(*m)[i].len() == columns);
        }
        product.push(dot(v, m, j));
        j += 1;
    }
    product
}

/// The activation function `f` applied to each entry of `v`.
pub(crate) fn activate<T: Scalar, A: ActivationFunction<T>>(f: &A, v: &Vec<T>) -> (values: Vec<T>)
    ensures
        activated_gives(*f, v@, values@),
{
    let mut values: Vec<T> = Vec::new();
    let mut n: usize = 0;
    while n < v.len()
        invariant
            n <= v.len(),
            values.len() == n,
            forall|k: int| 0 <= k < n ==> activation_gives(*f, v[k], #[trigger] values[k]),
        decreases v.len() - n,
    {
        values.push(f.apply(v[n]));
        n += 1;
    }
    values
}

/// Sends `features` through the stack: the input layer takes them as they
/// are, and each later layer takes what left the layer before it, times its
/// weights, through its activation function.
pub(crate) fn forward_propagation<T: Scalar, A: ActivationFunction<T>>(
    features: &Vec<T>,
    layers: &mut Vec<Layer<T, A>>,
)
    requires
        old(layers).len() >= 1,
        well_formed(stack_view(old(layers)@)),
        features.len() == old(layers)[0].size,
    ensures
        final(layers).len() == old(layers).len(),
        well_formed(stack_view(final(layers)@)),
        forall|l: int|
            0 <= l < old(layers).len() ==> {
                &&& (#[trigger] final(layers)[l]).size == old(layers)[l].size
                &&& final(layers)[l].weights_in == old(layers)[l].weights_in
                &&& final(layers)[l].errors == old(layers)[l].errors
                &&& final(layers)[l].activation_function == old(layers)[l].activation_function
            },
        fed_forward_gives(stack_view(old(layers)@), features@, stack_view(final(layers)@)),
{
    let ghost before = stack_view(layers@);
    let ghost start = layers@;
    layers[0].inputs = duplicate(features);
    layers[0].outputs = duplicate(features);
    assert forall|k: int| 0 <= k < layers.len() implies {
        &&& (#[trigger] layers[k]).inputs.len() == start[k].size
        &&& layers[k].outputs.len() == start[k].size
    } by {
        assert(vectors_fit(before[k]));
        assert(before[k] == start[k].model());
    }
    let mut l: usize = 1;
    while l < layers.len()
        invariant
            1 <= l <= layers.len(),
            layers.len() == start.len(),
            before == stack_view(start),
            well_formed(before),
            features.len() == before[0].size,
            layers[0].inputs@ == features@,
            layers[0].outputs@ == features@,
            forall|k: int|
                0 <= k < layers.len() ==> {
                    &&& (#[trigger] layers[k]).size == start[k].size
                    &&& layers[k].weights_in == start[k].weights_in
                    &&& layers[k].errors == start[k].errors
                    &&& layers[k].activation_function == start[k].activation_function
                    &&& layers[k].inputs.len() == start[k].size
                    &&& layers[k].outputs.len() == start[k].size
                },
            forall|k: int| 1 <= k < l ==> #[trigger] layer_fed_gives(stack_view(layers@), k),
        decreases layers.len() - l,
    {
        let ghost here = layers@;
        assert(before[l as int] == start[l as int].model());
        assert(before[l - 1] == start[l - 1].model());
        assert(weights_fit(before, l as int));
        assert(is_matrix(before[l as int].weights_in, before[l - 1].size, before[l as int].size));
        let pre = vector_times_matrix(
            &layers[l - 1].outputs,
            &layers[l].weights_in,
            layers[l].size,
        );
        let post = activate(&layers[l].activation_function, &pre);
        layers[l].inputs = pre;
        layers[l].outputs = post;
        proof {
            let now = stack_view(layers@);
            assert forall|k: int| 1 <= k < l + 1 implies #[trigger] layer_fed_gives(now, k) by {
                assert(now[k] == layers[k].model());
                assert(now[k - 1] == layers[k - 1].model());
                if k < l {
                    assert(layer_fed_gives(stack_view(here), k));
                    assert(stack_view(here)[k] == here[k].model());
                    assert(stack_view(here)[k - 1] == here[k - 1].model());
                    assert(layers[k] == here[k]);
                    assert(layers[k - 1] == here[k - 1]);
                }
            }
        }
        l += 1;
    }
    proof {
        let after = stack_view(layers@);
        assert forall|k: int| 0 <= k < start.len() implies {
            &&& (#[trigger] layers[k]).inputs.len() == start[k].inputs.len()
            &&& layers[k].outputs.len() == start[k].outputs.len()
        } by {
            assert(vectors_fit(before[k]));
            assert(before[k] == start[k].model());
        }
        lemma_same_shape_well_formed(start, layers@);
        assert(after[0] == layers[0].model());
        assert forall|k: int| 0 <= k < before.len() implies {
            &&& (#[trigger] before[k]).size == (#[trigger] after[k]).size
            &&& before[k].weights_in == after[k].weights_in
            &&& before[k].errors == after[k].errors
            &&& before[k].activation_function == after[k].activation_function
        } by {
            assert(before[k] == start[k].model());
            assert(after[k] == layers[k].model());
            assert(layers[k].size == start[k].size);
        }
    }
}

/// The placeholder for the inbound weights of an input layer: a matrix of
/// one zero.
pub(crate) fn placeholder<T: Scalar>() -> (m: Vec<Vec<T>>)
    ensures
        is_matrix(matrix_view(m), 1, 1),
        placeholder_gives(matrix_view(m)),
{
    let mut m: Vec<Vec<T>> = Vec::new();
    m.push(zeros(1));
    assert(matrix_view(m)[0] == m[0]@);
    m
}

/// A matrix of `rows` rows of `columns` entries, all of them `value`.
pub(crate) fn filled<T: Copy>(rows: usize, columns: usize, value: T) -> (m: Vec<Vec<T>>)
    ensures
        m.len() == rows,
        forall|k: int| 0 <= k < rows ==> (#[trigger] m[k]).len() == columns,
{
    let mut m: Vec<Vec<T>> = Vec::new();
    let mut i: usize = 0;
    while i < rows
        invariant
            i <= rows,
            m.len() == i,
            forall|k: int| 0 <= k < i ==> (#[trigger] m[k]).len() == columns,
        decreases rows - i,
    {
        let mut row: Vec<T> = Vec::new();
        let mut j: usize = 0;
        while j < columns
            invariant
                j <= columns,
                row.len() == j,
            decreases columns - j,
        {
            row.push(value);
            j += 1;
        }
        m.push(row);
        i += 1;
    }
    m
}

/// A `fan_in` by `size` matrix of weights, each drawn on its own between
/// minus one over `fan_in` and one over `fan_in`. The weights are drawn
/// neuron by neuron, and for each neuron in the order of the neurons that
/// feed it.
pub(crate) fn drawn_weights<T: Scalar, F: Fn(T, T) -> T>(
    fan_in: usize,
    size: usize,
    draw: &F,
) -> (weights: Vec<Vec<T>>)
    requires
        forall|low: T, high: T| call_requires(*draw, (low, high)),
    ensures
        is_matrix(matrix_view(weights), fan_in as nat, size as nat),
        drawn_gives(*draw, fan_in as nat, matrix_view(weights)),
{
    let low = T::from_count(1).negated().over(T::from_count(fan_in));
    let high: T = make_ratio(1, fan_in);
    assert(initial_bounds_give(fan_in as nat, low, high));
    let mut weights = filled(fan_in, size, T::from_count(0));
    let mut node_index: usize = 0;
    while node_index < size
        invariant
            node_index <= size,
            weights.len() == fan_in,
            forall|k: int| 0 <= k < fan_in ==> (#[trigger] weights[k]).len() == size,
            forall|low: T, high: T| call_requires(*draw, (low, high)),
            forall|i: int, j: int|
                0 <= i < fan_in && 0 <= j < node_index ==> call_ensures(
                    *draw,
                    (low, high),
                    #[trigger] weights[i][j],
                ),
        decreases size - node_index,
    {
        let mut prev_node_index: usize = 0;
        while prev_node_index < fan_in
            invariant
                node_index < size,
                prev_node_index <= fan_in,
                weights.len() == fan_in,
                forall|k: int| 0 <= k < fan_in ==> (#[trigger] weights[k]).len() == size,
                forall|low: T, high: T| call_requires(*draw, (low, high)),
                forall|i: int, j: int|
                    0 <= i < fan_in && 0 <= j < node_index ==> call_ensures(
                        *draw,
                        (low, high),
                        #[trigger] weights[i][j],
                    ),
                forall|i: int|
                    0 <= i < prev_node_index ==> call_ensures(
                        *draw,
                        (low, high),
                        #[trigger] weights[i][node_index as int],
                    ),
            decreases fan_in - prev_node_index,
        {
            let weight = draw(low, high);
            weights[prev_node_index][node_index] = weight;
            prev_node_index += 1;
        }
        node_index += 1;
    }
    proof {
        let drawn = matrix_view(weights);
        assert forall|k: int| 0 <= k < fan_in implies (#[trigger] drawn[k]).len() == size by {
            assert(weights[k].len() == size);
        }
        assert forall|i: int, j: int|
            0 <= i < drawn.len() && 0 <= j < drawn[i].len() implies call_ensures(
            *draw,
            (low, high),
            #[trigger] drawn[i][j],
        ) by {
            assert(drawn[i][j] == weights[i][j]);
        }
    }
    weights
}

/// Whether `m` has `rows` rows of `columns` entries each.
pub(crate) fn has_shape<T>(m: &Vec<Vec<T>>, rows: usize, columns: usize) -> (fits: bool)
    ensures
        fits == is_matrix(matrix_view(*m), rows as nat, columns as nat),
{
    if m.len() != rows {
        return false;
    }
    let mut i: usize = 0;
    while i < rows
        invariant
            i <= rows,
            m.len() == rows,
            forall|k: int| 0 <= k < i ==> (#[trigger] matrix_view(*m)[k]).len() == columns,
        decreases rows - i,
    {
        if m[i].len() != columns {
            assert(matrix_view(*m)[i as int].len() != columns);
            return false;
        }
        assert(matrix_view(*m)[i as int].len() == columns);
        i += 1;
    }
    true
}

/// Appends a layer of `size` neurons whose vectors are all zero.
pub(crate) fn push_layer<T: Scalar, A>(
    layers: &mut Vec<Layer<T, A>>,
    size: usize,
    activation_function: A,
    weights_in: Vec<Vec<T>>,
)
    requires
        size > 0,
        well_formed(stack_view(old(layers)@)),
        old(layers).len() == 0 ==> is_matrix(matrix_view(weights_in), 1, 1),
        old(layers).len() > 0 ==> is_matrix(
            matrix_view(weights_in),
            old(layers)[old(layers).len() - 1].size as nat,
            size as nat,
        ),
    ensures
        well_formed(stack_view(final(layers)@)),
        final(layers).len() == old(layers).len() + 1,
        stack_view(final(layers)@).drop_last() == stack_view(old(layers)@),
        stack_view(final(layers)@).last().size == size,
        stack_view(final(layers)@).last().weights_in == matrix_view(weights_in),
        stack_view(final(layers)@).last().activation_function == activation_function,
        fresh_layer_gives(
            size,
            activation_function,
            matrix_view(weights_in),
            stack_view(final(layers)@).last(),
        ),
{
    let ghost before = stack_view(layers@);
    let ghost start = layers@;
    let outputs = zeros(size);
    let errors = zeros(size);
    let inputs = zeros(size);
    let layer = Layer { size, weights_in, inputs, outputs, errors, activation_function };
    layers.push(layer);
    proof {
        let after = stack_view(layers@);
        let last = start.len() as int;
        assert(after[last] == layers[last].model());
        assert forall|k: int| 0 <= k < last implies after[k] == before[k] by {
            assert(after[k] == layers[k].model());
            assert(before[k] == start[k].model());
        }
        assert(after.drop_last() =~= before);
        assert forall|k: int| 0 <= k < after.len() implies vectors_fit(#[trigger] after[k]) by {
            if k < last {
                assert(vectors_fit(before[k]));
            }
        }
        assert forall|k: int| 0 <= k < after.len() implies #[trigger] weights_fit(after, k) by {
            if k < last {
                assert(weights_fit(before, k));
                if k > 0 {
                    assert(after[k - 1] == before[k - 1]);
                }
            } else if last > 0 {
                assert(after[last - 1] == before[last - 1]);
                assert(before[last - 1] == start[last - 1].model());
            }
        }
    }
}

} // verus!
