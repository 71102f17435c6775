use vstd::prelude::*;

verus! {

/// The numbers that payloads, costs and probabilities are made of.
///
/// Every operation comes twice: as a mathematical name (a spec function)
/// and as a method that computes exactly that name. Nothing is asked of the
/// names themselves, so an arithmetic that rounds fits as well as an exact
/// one; what an exact one adds is the subject of [`Lawful`].
///
/// The names default to an unspecified value. An implementation that
/// leaves a default in place states nothing about what its method computes.
pub trait Scalar: Copy {
    /// The number `n / 100`.
    open spec fn hundredths(n: int) -> Self {
        arbitrary()
    }

    /// `self + rhs`.
    open spec fn plus(self, rhs: Self) -> Self {
        arbitrary()
    }

    /// `self - rhs`.
    open spec fn minus(self, rhs: Self) -> Self {
        arbitrary()
    }

    /// `self * rhs`.
    open spec fn times(self, rhs: Self) -> Self {
        arbitrary()
    }

    /// `|self|`.
    open spec fn magnitude(self) -> Self {
        arbitrary()
    }

    /// `self` rounded to `precision` decimal places.
    open spec fn rounded(self, precision: int) -> Self {
        arbitrary()
    }

    /// `self > rhs`.
    open spec fn exceeds(self, rhs: Self) -> bool {
        arbitrary()
    }

    /// The number in print, with three decimal places.
    open spec fn text(self) -> Seq<char> {
        arbitrary()
    }

    /// Computes `hundredths(n)`.
    fn from_hundredths(n: i32) -> (r: Self)
        ensures
            r == Self::hundredths(n as int),
    ;

    /// Computes `plus`.
    fn sum(&self, rhs: &Self) -> (r: Self)
        ensures
            r == self.plus(*rhs),
    ;

    /// Computes `minus`.
    fn difference(&self, rhs: &Self) -> (r: Self)
        ensures
            r == self.minus(*rhs),
    ;

    /// Computes `times`.
    fn product(&self, rhs: &Self) -> (r: Self)
        ensures
            r == self.times(*rhs),
    ;

    /// Computes `magnitude`.
    fn abs(&self) -> (r: Self)
        ensures
            r == self.magnitude(),
    ;

    /// Computes `rounded`.
    fn round_to(&self, precision: i32) -> (r: Self)
        ensures
            r == self.rounded(precision as int),
    ;

    /// Computes `exceeds`.
    fn greater_than(&self, rhs: &Self) -> (r: bool)
        ensures
            r == self.exceeds(*rhs),
    ;

    /// Computes `text`.
    fn to_text(&self) -> (r: String)
        ensures
            r@ == self.text(),
    ;
}

/// Zero.
pub open spec fn zero<N: Scalar>() -> N {
    N::hundredths(0)
}

/// One.
pub open spec fn one<N: Scalar>() -> N {
    N::hundredths(100)
}

/// `|a - b|`.
pub open spec fn gap<N: Scalar>(a: N, b: N) -> N {
    a.minus(b).magnitude()
}

/// `a >= 0`.
pub open spec fn non_negative<N: Scalar>(a: N) -> bool {
    !zero::<N>().exceeds(a)
}

/// What an exact arithmetic adds to [`Scalar`]: `exceeds` orders the
/// numbers, a gap is zero between equal numbers only, and non-negative
/// numbers add up to zero only when each of them is zero.
pub trait Lawful: Scalar {
    /// No number exceeds itself, and of two numbers at most one exceeds
    /// the other.
    proof fn order_is_strict(a: Self, b: Self)
        ensures
            !a.exceeds(a),
            a.exceeds(b) ==> !b.exceeds(a),
    ;

    /// "Does not exceed" is transitive.
    proof fn order_chains(a: Self, b: Self, c: Self)
        requires
            !a.exceeds(b),
            !b.exceeds(c),
        ensures
            !a.exceeds(c),
    ;

    /// The gap between two numbers is zero exactly when they are equal.
    proof fn gap_is_zero_between_equals_only(a: Self, b: Self)
        ensures
            gap(a, b) == zero::<Self>() <==> a == b,
    ;

    /// A magnitude is never negative.
    proof fn magnitude_is_non_negative(a: Self)
        ensures
            non_negative(a.magnitude()),
    ;

    /// Non-negative numbers have a non-negative sum, which is zero exactly
    /// when both are.
    proof fn sum_of_non_negatives(a: Self, b: Self)
        requires
            non_negative(a),
            non_negative(b),
        ensures
            non_negative(a.plus(b)),
            a.plus(b) == zero::<Self>() <==> (a == zero::<Self>() && b == zero::<Self>()),
    ;
}

} // verus!
