//! The numbers a network computes with.
//!
//! The network is generic over its number type. A number type supplies the
//! handful of operations below; the network supplies the order in which they
//! are applied. Of every number type the contracts say which operation was
//! applied to which operands: `plus_gives(a, b, r)` says that `r` is what
//! `a.plus(b)` returned, or could have. Each operation also has a spec
//! function of the same meaning, and [`deterministic`] says that the
//! operation always returns what its spec function names; of such number
//! types the contracts say what the result is.
use vstd::prelude::*;

verus! {

/// A number type: the arithmetic, the two transcendental functions and the
/// two comparisons that a network needs.
pub trait Scalar: Copy {
    /// The number `n`.
    fn from_count(n: usize) -> Self;

    /// `self + rhs`.
    fn plus(self, rhs: Self) -> Self;

    /// `self - rhs`.
    fn minus(self, rhs: Self) -> Self;

    /// `self * rhs`.
    fn times(self, rhs: Self) -> Self;

    /// `self / rhs`.
    fn over(self, rhs: Self) -> Self;

    /// `-self`.
    fn negated(self) -> Self;

    /// Euler's number raised to the power `self`.
    fn exp(self) -> Self;

    /// The hyperbolic tangent of `self`.
    fn tanh(self) -> Self;

    /// `self < rhs`.
    fn below(self, rhs: Self) -> bool;

    /// `self <= rhs`.
    fn at_most(self, rhs: Self) -> bool;

    /// What `from_count` returns. An implementation that states its own
    /// arithmetic overrides this and the other spec functions; by default
    /// each one stands for whatever the operation returns.
    open spec fn counted(n: usize) -> Self {
        choose|r: Self| call_ensures(Self::from_count, (n,), r)
    }

    /// What `plus` returns.
    open spec fn sum(self, rhs: Self) -> Self {
        choose|r: Self| call_ensures(Self::plus, (self, rhs), r)
    }

    /// What `minus` returns.
    open spec fn difference(self, rhs: Self) -> Self {
        choose|r: Self| call_ensures(Self::minus, (self, rhs), r)
    }

    /// What `times` returns.
    open spec fn product(self, rhs: Self) -> Self {
        choose|r: Self| call_ensures(Self::times, (self, rhs), r)
    }

    /// What `over` returns.
    open spec fn quotient(self, rhs: Self) -> Self {
        choose|r: Self| call_ensures(Self::over, (self, rhs), r)
    }

    /// What `negated` returns.
    open spec fn opposite(self) -> Self {
        choose|r: Self| call_ensures(Self::negated, (self,), r)
    }

    /// What `exp` returns.
    open spec fn exponential(self) -> Self {
        choose|r: Self| call_ensures(Self::exp, (self,), r)
    }

    /// What `tanh` returns.
    open spec fn hyperbolic_tangent(self) -> Self {
        choose|r: Self| call_ensures(Self::tanh, (self,), r)
    }

    /// What `below` returns.
    open spec fn is_below(self, rhs: Self) -> bool {
        choose|r: bool| call_ensures(Self::below, (self, rhs), r)
    }

    /// What `at_most` returns.
    open spec fn is_at_most(self, rhs: Self) -> bool {
        choose|r: bool| call_ensures(Self::at_most, (self, rhs), r)
    }
}

/// `from_count(n)` can return `r`.
#[verifier::inline]
pub open spec fn from_count_gives<T: Scalar>(n: usize, r: T) -> bool {
    call_ensures(T::from_count, (n,), r)
}

/// `a.plus(b)` can return `r`.
#[verifier::inline]
pub open spec fn plus_gives<T: Scalar>(a: T, b: T, r: T) -> bool {
    call_ensures(T::plus, (a, b), r)
}

/// `a.minus(b)` can return `r`.
#[verifier::inline]
pub open spec fn minus_gives<T: Scalar>(a: T, b: T, r: T) -> bool {
    call_ensures(T::minus, (a, b), r)
}

/// `a.times(b)` can return `r`.
#[verifier::inline]
pub open spec fn times_gives<T: Scalar>(a: T, b: T, r: T) -> bool {
    call_ensures(T::times, (a, b), r)
}

/// `a.over(b)` can return `r`.
#[verifier::inline]
pub open spec fn over_gives<T: Scalar>(a: T, b: T, r: T) -> bool {
    call_ensures(T::over, (a, b), r)
}

/// `a.negated()` can return `r`.
#[verifier::inline]
pub open spec fn negated_gives<T: Scalar>(a: T, r: T) -> bool {
    call_ensures(T::negated, (a,), r)
}

/// `a.exp()` can return `r`.
#[verifier::inline]
pub open spec fn exp_gives<T: Scalar>(a: T, r: T) -> bool {
    call_ensures(T::exp, (a,), r)
}

/// `a.tanh()` can return `r`.
#[verifier::inline]
pub open spec fn tanh_gives<T: Scalar>(a: T, r: T) -> bool {
    call_ensures(T::tanh, (a,), r)
}

/// `a.below(b)` can return `r`.
#[verifier::inline]
pub open spec fn below_gives<T: Scalar>(a: T, b: T, r: bool) -> bool {
    call_ensures(T::below, (a, b), r)
}

/// `a.at_most(b)` can return `r`.
#[verifier::inline]
pub open spec fn at_most_gives<T: Scalar>(a: T, b: T, r: bool) -> bool {
    call_ensures(T::at_most, (a, b), r)
}

/// Every operation of `T` is a function of its operands: whatever it returns
/// is the value of its spec function.
pub open spec fn deterministic<T: Scalar>() -> bool {
    &&& forall|n: usize, r: T| from_count_gives(n, r) ==> r == T::counted(n)
    &&& forall|a: T, b: T, r: T| plus_gives(a, b, r) ==> r == a.sum(b)
    &&& forall|a: T, b: T, r: T| minus_gives(a, b, r) ==> r == a.difference(b)
    &&& forall|a: T, b: T, r: T| times_gives(a, b, r) ==> r == a.product(b)
    &&& forall|a: T, b: T, r: T| over_gives(a, b, r) ==> r == a.quotient(b)
    &&& forall|a: T, r: T| negated_gives(a, r) ==> r == a.opposite()
    &&& forall|a: T, r: T| exp_gives(a, r) ==> r == a.exponential()
    &&& forall|a: T, r: T| tanh_gives(a, r) ==> r == a.hyperbolic_tangent()
    &&& forall|a: T, b: T, r: bool| below_gives(a, b, r) ==> r == a.is_below(b)
    &&& forall|a: T, b: T, r: bool| at_most_gives(a, b, r) ==> r == a.is_at_most(b)
}

/// The number zero.
pub open spec fn zero<T: Scalar>() -> T {
    T::counted(0)
}

/// The number one.
pub open spec fn one<T: Scalar>() -> T {
    T::counted(1)
}

} // verus!
