//! Activation and cost functions: pairs of a value and its derivative.
//!
//! Each function below comes with two statements. The relation whose name
//! ends in `_gives` holds of every number type: it names the operations that
//! were applied, in their order. The spec function of the same name says
//! what the result is where the operations are deterministic.
use crate::scalar::{
    at_most_gives, below_gives, deterministic, exp_gives, from_count_gives, minus_gives,
    negated_gives, one, over_gives, plus_gives, tanh_gives, times_gives, zero, Scalar,
};
use vstd::prelude::*;

verus! {

/// A function applied to each neuron of a layer, with its derivative.
pub trait ActivationFunction<T: Scalar>: Sized {
    /// The activation of a neuron whose weighted input is `x`.
    fn apply(&self, x: T) -> T;

    /// The derivative at a neuron whose weighted input is `x` and whose
    /// activation is `function_output`.
    fn apply_derivative(&self, x: T, function_output: T) -> T;

    /// What `apply` returns.
    open spec fn value(&self, x: T) -> T {
        choose|r: T| call_ensures(Self::apply, (self, x), r)
    }

    /// What `apply_derivative` returns.
    open spec fn slope(&self, x: T, function_output: T) -> T {
        choose|r: T| call_ensures(Self::apply_derivative, (self, x, function_output), r)
    }
}

/// A measure of how far one predicted number is from the expected one, with
/// its derivative.
pub trait CostFunction<T: Scalar>: Sized {
    /// The cost of predicting `output` where `expected` was wanted.
    fn apply(&self, output: T, expected: T) -> T;

    /// The derivative of the cost; its sign is that of `expected - output`.
    fn apply_derivative(&self, output: T, expected: T) -> T;

    /// What `apply` returns.
    open spec fn value(&self, output: T, expected: T) -> T {
        choose|r: T| call_ensures(Self::apply, (self, output, expected), r)
    }

    /// What `apply_derivative` returns.
    open spec fn slope(&self, output: T, expected: T) -> T {
        choose|r: T| call_ensures(Self::apply_derivative, (self, output, expected), r)
    }
}

/// `f.apply(x)` can return `r`.
#[verifier::inline]
pub open spec fn activation_gives<T: Scalar, A: ActivationFunction<T>>(f: A, x: T, r: T) -> bool {
    call_ensures(A::apply, (&f, x), r)
}

/// `f.apply_derivative(x, function_output)` can return `r`.
#[verifier::inline]
pub open spec fn activation_derivative_gives<T: Scalar, A: ActivationFunction<T>>(
    f: A,
    x: T,
    function_output: T,
    r: T,
) -> bool {
    call_ensures(A::apply_derivative, (&f, x, function_output), r)
}

/// `c.apply(output, expected)` can return `r`.
#[verifier::inline]
pub open spec fn cost_gives<T: Scalar, C: CostFunction<T>>(
    c: C,
    output: T,
    expected: T,
    r: T,
) -> bool {
    call_ensures(C::apply, (&c, output, expected), r)
}

/// `c.apply_derivative(output, expected)` can return `r`.
#[verifier::inline]
pub open spec fn cost_derivative_gives<T: Scalar, C: CostFunction<T>>(
    c: C,
    output: T,
    expected: T,
    r: T,
) -> bool {
    call_ensures(C::apply_derivative, (&c, output, expected), r)
}

/// Both operations of every activation function of type `A` are functions of
/// their arguments.
pub open spec fn deterministic_activation<T: Scalar, A: ActivationFunction<T>>() -> bool {
    &&& forall|f: A, x: T, r: T| activation_gives(f, x, r) ==> r == f.value(x)
    &&& forall|f: A, x: T, y: T, r: T|
        activation_derivative_gives(f, x, y, r) ==> r == f.slope(x, y)
}

/// Both operations of every cost function of type `C` are functions of their
/// arguments.
pub open spec fn deterministic_cost<T: Scalar, C: CostFunction<T>>() -> bool {
    &&& forall|c: C, o: T, e: T, r: T| cost_gives(c, o, e, r) ==> r == c.value(o, e)
    &&& forall|c: C, o: T, e: T, r: T| cost_derivative_gives(c, o, e, r) ==> r == c.slope(o, e)
}

/// All that training relies on: the numbers, the activation functions and
/// the cost function are deterministic.
pub open spec fn deterministic_training<
    T: Scalar,
    A: ActivationFunction<T>,
    C: CostFunction<T>,
>() -> bool {
    &&& deterministic::<T>()
    &&& deterministic_activation::<T, A>()
    &&& deterministic_cost::<T, C>()
}

/// The number `numerator / denominator`.
pub open spec fn ratio<T: Scalar>(numerator: usize, denominator: usize) -> T {
    T::counted(numerator).quotient(T::counted(denominator))
}

/// `r` was made by dividing the number `numerator` by the number
/// `denominator`.
pub open spec fn ratio_gives<T: Scalar>(numerator: usize, denominator: usize, r: T) -> bool {
    exists|n: T, d: T|
        from_count_gives(numerator, n) && from_count_gives(denominator, d)
            && over_gives(n, d, r)
}

/// The smallest value the sigmoid returns: 0.00001.
pub open spec fn sigmoid_floor<T: Scalar>() -> T {
    ratio(1, 100000)
}

/// The largest value the sigmoid returns: 0.99999.
pub open spec fn sigmoid_ceiling<T: Scalar>() -> T {
    ratio(99999, 100000)
}

/// `1 / (1 + e^-x)`, before it is kept inside the open interval (0, 1).
pub open spec fn logistic<T: Scalar>(x: T) -> T {
    one::<T>().quotient(one::<T>().sum(x.opposite().exponential()))
}

/// `r` was made as `1 / (1 + e^-x)`.
pub open spec fn logistic_gives<T: Scalar>(x: T, r: T) -> bool {
    exists|unit: T, negative: T, power: T, denominator: T|
        from_count_gives(1, unit) && negated_gives(x, negative) && exp_gives(negative, power)
            && plus_gives(unit, power, denominator) && over_gives(unit, denominator, r)
}

/// The logistic function, kept between the floor and the ceiling so that its
/// derivative never vanishes.
pub open spec fn sigmoid<T: Scalar>(x: T) -> T {
    let res = logistic(x);
    if res.is_at_most(sigmoid_floor()) {
        sigmoid_floor()
    } else if sigmoid_ceiling::<T>().is_at_most(res) {
        sigmoid_ceiling()
    } else {
        res
    }
}

/// `r` was made by holding `res` against the floor and, where it was found
/// above the floor, against the ceiling: it is the bound that `res` was
/// found beyond, and `res` where it was found between the two.
pub open spec fn clamped_gives<T: Scalar>(res: T, floor: T, ceiling: T, r: T) -> bool {
    ||| at_most_gives(res, floor, true) && r == floor
    ||| at_most_gives(res, floor, false) && at_most_gives(ceiling, res, true) && r == ceiling
    ||| at_most_gives(res, floor, false) && at_most_gives(ceiling, res, false) && r == res
}

/// `r` was made as the sigmoid of `x`: the logistic function of `x`, kept
/// between 0.00001 and 0.99999.
pub open spec fn sigmoid_gives<T: Scalar>(x: T, r: T) -> bool {
    exists|res: T, floor: T, ceiling: T|
        logistic_gives(x, res) && ratio_gives(1, 100000, floor)
            && ratio_gives(99999, 100000, ceiling) && clamped_gives(res, floor, ceiling, r)
}

/// `o * (1 - o)` for an activation `o`.
pub open spec fn sigmoid_derivative<T: Scalar>(function_output: T) -> T {
    function_output.product(one::<T>().difference(function_output))
}

/// `r` was made as `o * (1 - o)`.
pub open spec fn sigmoid_derivative_gives<T: Scalar>(function_output: T, r: T) -> bool {
    exists|unit: T, rest: T|
        from_count_gives(1, unit) && minus_gives(unit, function_output, rest)
            && times_gives(function_output, rest, r)
}

/// `1 - o * o` for an activation `o`.
pub open spec fn tanh_derivative<T: Scalar>(function_output: T) -> T {
    one::<T>().difference(function_output.product(function_output))
}

/// `r` was made as `1 - o * o`.
pub open spec fn tanh_derivative_gives<T: Scalar>(function_output: T, r: T) -> bool {
    exists|unit: T, square: T|
        from_count_gives(1, unit) && times_gives(function_output, function_output, square)
            && minus_gives(unit, square, r)
}

/// Zero below zero, the identity elsewhere.
pub open spec fn relu<T: Scalar>(x: T) -> T {
    if x.is_below(zero()) {
        zero()
    } else {
        x
    }
}

/// `r` was made by holding `x` against zero: it is that zero where `x` was
/// found below it, and `x` elsewhere.
pub open spec fn relu_gives<T: Scalar>(x: T, r: T) -> bool {
    exists|nothing: T, negative: bool|
        from_count_gives(0, nothing) && below_gives(x, nothing, negative)
            && r == if negative { nothing } else { x }
}

/// Zero below zero, one elsewhere.
pub open spec fn relu_derivative<T: Scalar>(x: T) -> T {
    if x.is_below(zero()) {
        zero()
    } else {
        one()
    }
}

/// `r` was made by holding `x` against zero: it is a zero where `x` was
/// found below it, and a one elsewhere.
pub open spec fn relu_derivative_gives<T: Scalar>(x: T, r: T) -> bool {
    exists|nothing: T, negative: bool|
        from_count_gives(0, nothing) && below_gives(x, nothing, negative)
            && if negative { from_count_gives(0, r) } else { from_count_gives(1, r) }
}

/// Half the squared difference.
pub open spec fn mean_squared_error<T: Scalar>(output: T, expected: T) -> T {
    ratio::<T>(1, 2).product(expected.difference(output)).product(expected.difference(output))
}

/// `r` was made as `0.5 * (expected - output) * (expected - output)`, from
/// left to right.
pub open spec fn mean_squared_error_gives<T: Scalar>(output: T, expected: T, r: T) -> bool {
    exists|half: T, first: T, scaled: T, second: T|
        ratio_gives(1, 2, half) && minus_gives(expected, output, first)
            && times_gives(half, first, scaled) && minus_gives(expected, output, second)
            && times_gives(scaled, second, r)
}

/// The number `numerator / denominator`.
pub(crate) fn make_ratio<T: Scalar>(numerator: usize, denominator: usize) -> (res: T)
    ensures
        ratio_gives(numerator, denominator, res),
        deterministic::<T>() ==> res == ratio::<T>(numerator, denominator),
{
    T::from_count(numerator).over(T::from_count(denominator))
}

/// `1 / (1 + e^-x)`.
fn apply_logistic<T: Scalar>(x: T) -> (res: T)
    ensures
        logistic_gives(x, res),
        deterministic::<T>() ==> res == logistic(x),
{
    let unit = T::from_count(1);
    unit.over(unit.plus(x.negated().exp()))
}

/// The sigmoid of `x`: the logistic function, kept between 0.00001 and
/// 0.99999.
pub fn apply_sigmoid<T: Scalar>(x: T) -> (res: T)
    ensures
        sigmoid_gives(x, res),
        deterministic::<T>() ==> res == sigmoid(x),
{
    let logistic = apply_logistic(x);
    let floor: T = make_ratio(1, 100000);
    let ceiling: T = make_ratio(99999, 100000);
    let res = if logistic.at_most(floor) {
        floor
    } else if ceiling.at_most(logistic) {
        ceiling
    } else {
        logistic
    };
    assert(clamped_gives(logistic, floor, ceiling, res));
    res
}

/// The derivative of the sigmoid where its value is `function_output`.
pub fn apply_sigmoid_derivative<T: Scalar>(_x: T, function_output: T) -> (res: T)
    ensures
        sigmoid_derivative_gives(function_output, res),
        deterministic::<T>() ==> res == sigmoid_derivative(function_output),
{
    function_output.times(T::from_count(1).minus(function_output))
}

/// The identity.
pub fn apply_linear<T: Scalar>(x: T) -> (res: T)
    ensures
        res == x,
{
    x
}

/// The derivative of the identity: one.
pub fn apply_linear_derivative<T: Scalar>(_x: T, _function_output: T) -> (res: T)
    ensures
        from_count_gives(1, res),
        deterministic::<T>() ==> res == one::<T>(),
{
    T::from_count(1)
}

/// The hyperbolic tangent of `x`.
pub fn apply_tanh<T: Scalar>(x: T) -> (res: T)
    ensures
        tanh_gives(x, res),
        deterministic::<T>() ==> res == x.hyperbolic_tangent(),
{
    x.tanh()
}

/// The derivative of the hyperbolic tangent where its value is
/// `function_output`.
pub fn apply_tanh_derivative<T: Scalar>(_x: T, function_output: T) -> (res: T)
    ensures
        tanh_derivative_gives(function_output, res),
        deterministic::<T>() ==> res == tanh_derivative(function_output),
{
    T::from_count(1).minus(function_output.times(function_output))
}

/// Zero where `x` is below zero, `x` elsewhere.
pub fn apply_relu<T: Scalar>(x: T) -> (res: T)
    ensures
        relu_gives(x, res),
        deterministic::<T>() ==> res == relu(x),
{
    let nothing = T::from_count(0);
    if x.below(nothing) {
        nothing
    } else {
        x
    }
}

/// Zero where `x` is below zero, one elsewhere.
pub fn apply_relu_derivative<T: Scalar>(x: T, _function_output: T) -> (res: T)
    ensures
        relu_derivative_gives(x, res),
        deterministic::<T>() ==> res == relu_derivative(x),
{
    if x.below(T::from_count(0)) {
        T::from_count(0)
    } else {
        T::from_count(1)
    }
}

/// Half the squared difference between `expected` and `output`.
pub fn apply_mean_squared_error<T: Scalar>(output: T, expected: T) -> (res: T)
    ensures
        mean_squared_error_gives(output, expected, res),
        deterministic::<T>() ==> res == mean_squared_error(output, expected),
{
    make_ratio::<T>(1, 2).times(expected.minus(output)).times(expected.minus(output))
}

/// The derivative of the mean squared error: `expected - output`.
pub fn apply_mean_squared_error_derivative<T: Scalar>(output: T, expected: T) -> (res: T)
    ensures
        minus_gives(expected, output, res),
        deterministic::<T>() ==> res == expected.difference(output),
{
    expected.minus(output)
}

/// The activation functions that come with the library.
#[derive(Clone, Copy, Debug, PartialEq, Eq)]
pub enum Activation {
    /// The logistic function, kept between 0.00001 and 0.99999.
    Sigmoid,
    /// The identity.
    Linear,
    /// Zero below zero, the identity elsewhere.
    Relu,
    /// The hyperbolic tangent.
    Tanh,
}

impl Activation {
    /// `r` was made as the value of this function at `x`.
    pub open spec fn value_gives<T: Scalar>(self, x: T, r: T) -> bool {
        match self {
            Activation::Sigmoid => sigmoid_gives(x, r),
            Activation::Linear => r == x,
            Activation::Relu => relu_gives(x, r),
            Activation::Tanh => tanh_gives(x, r),
        }
    }

    /// `r` was made as the derivative of this function where the input is
    /// `x` and the value `function_output`.
    pub open spec fn slope_gives<T: Scalar>(self, x: T, function_output: T, r: T) -> bool {
        match self {
            Activation::Sigmoid => sigmoid_derivative_gives(function_output, r),
            Activation::Linear => from_count_gives(1, r),
            Activation::Relu => relu_derivative_gives(x, r),
            Activation::Tanh => tanh_derivative_gives(function_output, r),
        }
    }
}

impl<T: Scalar> ActivationFunction<T> for Activation {
    open spec fn value(&self, x: T) -> T {
        match self {
            Activation::Sigmoid => sigmoid(x),
            Activation::Linear => x,
            Activation::Relu => relu(x),
            Activation::Tanh => x.hyperbolic_tangent(),
        }
    }

    open spec fn slope(&self, x: T, function_output: T) -> T {
        match self {
            Activation::Sigmoid => sigmoid_derivative(function_output),
            Activation::Linear => one(),
            Activation::Relu => relu_derivative(x),
            Activation::Tanh => tanh_derivative(function_output),
        }
    }

    fn apply(&self, x: T) -> (res: T)
        ensures
            self.value_gives(x, res),
            deterministic::<T>() ==> res == self.value(x),
    {
        match self {
            Activation::Sigmoid => apply_sigmoid(x),
            Activation::Linear => apply_linear(x),
            Activation::Relu => apply_relu(x),
            Activation::Tanh => apply_tanh(x),
        }
    }

    fn apply_derivative(&self, x: T, function_output: T) -> (res: T)
        ensures
            self.slope_gives(x, function_output, res),
            deterministic::<T>() ==> res == self.slope(x, function_output),
    {
        match self {
            Activation::Sigmoid => apply_sigmoid_derivative(x, function_output),
            Activation::Linear => apply_linear_derivative(x, function_output),
            Activation::Relu => apply_relu_derivative(x, function_output),
            Activation::Tanh => apply_tanh_derivative(x, function_output),
        }
    }
}

/// Half the squared difference between prediction and expectation.
#[derive(Clone, Copy, Debug, PartialEq, Eq)]
pub struct MeanSquaredError;

impl<T: Scalar> CostFunction<T> for MeanSquaredError {
    open spec fn value(&self, output: T, expected: T) -> T {
        mean_squared_error(output, expected)
    }

    open spec fn slope(&self, output: T, expected: T) -> T {
        expected.difference(output)
    }

    fn apply(&self, output: T, expected: T) -> (res: T)
        ensures
            mean_squared_error_gives(output, expected, res),
            deterministic::<T>() ==> res == self.value(output, expected),
    {
        apply_mean_squared_error(output, expected)
    }

    fn apply_derivative(&self, output: T, expected: T) -> (res: T)
        ensures
            minus_gives(expected, output, res),
            deterministic::<T>() ==> res == self.slope(output, expected),
    {
        apply_mean_squared_error_derivative(output, expected)
    }
}

/// Over deterministic numbers each built-in function has one result: what
/// it gives is its value.
pub proof fn lemma_functions_give_value<T: Scalar>(x: T, function_output: T, expected: T, r: T)
    requires
        deterministic::<T>(),
    ensures
        sigmoid_gives(x, r) ==> r == sigmoid(x),
        sigmoid_derivative_gives(function_output, r) ==> r == sigmoid_derivative(function_output),
        relu_gives(x, r) ==> r == relu(x),
        relu_derivative_gives(x, r) ==> r == relu_derivative(x),
        tanh_derivative_gives(function_output, r) ==> r == tanh_derivative(function_output),
        mean_squared_error_gives(x, expected, r) ==> r == mean_squared_error(x, expected),
{
}

/// The sigmoid never leaves the interval between its floor and its ceiling,
/// where `is_at_most` orders the floor, the ceiling and the value of the
/// logistic function as an order does: each is at most itself, the floor is
/// at most the ceiling, and of two of them one is at most the other.
pub proof fn lemma_sigmoid_within_bounds<T: Scalar>(x: T)
    requires
        sigmoid_floor::<T>().is_at_most(sigmoid_floor()),
        sigmoid_ceiling::<T>().is_at_most(sigmoid_ceiling()),
        sigmoid_floor::<T>().is_at_most(sigmoid_ceiling()),
        logistic(x).is_at_most(sigmoid_floor()) || sigmoid_floor::<T>().is_at_most(logistic(x)),
        logistic(x).is_at_most(sigmoid_ceiling()) || sigmoid_ceiling::<T>().is_at_most(
            logistic(x),
        ),
    ensures
        sigmoid_floor::<T>().is_at_most(sigmoid(x)),
        sigmoid(x).is_at_most(sigmoid_ceiling()),
{
}

/// Over deterministic numbers the built-in activation functions are
/// deterministic.
pub proof fn lemma_activation_deterministic<T: Scalar>()
    requires
        deterministic::<T>(),
    ensures
        deterministic_activation::<T, Activation>(),
{
}

/// Over deterministic numbers the mean squared error is deterministic.
pub proof fn lemma_mean_squared_error_deterministic<T: Scalar>()
    requires
        deterministic::<T>(),
    ensures
        deterministic_cost::<T, MeanSquaredError>(),
{
}

} // verus!
