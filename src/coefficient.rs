use vstd::prelude::*;

verus! {

/// The numeric domain that polynomial coefficients live in.
///
/// Each operation is described by a spec function of the same name with a
/// `_spec` suffix; contracts of the engine speak of coefficients through
/// those, so they hold whatever the domain is. A domain that does not define
/// a spec function leaves its value unspecified.
pub trait Coefficient: Copy + Sized {
    closed spec fn zero_spec() -> Self {
        arbitrary()
    }

    closed spec fn one_spec() -> Self {
        arbitrary()
    }

    closed spec fn plus_spec(self, other: Self) -> Self {
        arbitrary()
    }

    closed spec fn minus_spec(self, other: Self) -> Self {
        arbitrary()
    }

    closed spec fn times_spec(self, other: Self) -> Self {
        arbitrary()
    }

    closed spec fn divided_by_spec(self, other: Self) -> Self {
        arbitrary()
    }

    closed spec fn negated_spec(self) -> Self {
        arbitrary()
    }

    closed spec fn magnitude_spec(self) -> Self {
        arbitrary()
    }

    closed spec fn is_zero_spec(self) -> bool {
        arbitrary()
    }

    closed spec fn is_positive_spec(self) -> bool {
        arbitrary()
    }

    closed spec fn is_one_spec(self) -> bool {
        arbitrary()
    }

    closed spec fn is_minus_one_spec(self) -> bool {
        arbitrary()
    }

    closed spec fn less_than_spec(self, other: Self) -> bool {
        arbitrary()
    }

    closed spec fn text_spec(self) -> Seq<char> {
        arbitrary()
    }

    fn zero() -> (r: Self)
        ensures
            r == Self::zero_spec(),
    ;

    fn one() -> (r: Self)
        ensures
            r == Self::one_spec(),
    ;

    fn plus(&self, other: &Self) -> (r: Self)
        ensures
            r == self.plus_spec(*other),
    ;

    fn minus(&self, other: &Self) -> (r: Self)
        ensures
            r == self.minus_spec(*other),
    ;

    fn times(&self, other: &Self) -> (r: Self)
        ensures
            r == self.times_spec(*other),
    ;

    fn divided_by(&self, other: &Self) -> (r: Self)
        ensures
            r == self.divided_by_spec(*other),
    ;

    fn negated(&self) -> (r: Self)
        ensures
            r == self.negated_spec(),
    ;

    fn magnitude(&self) -> (r: Self)
        ensures
            r == self.magnitude_spec(),
    ;

    fn is_zero(&self) -> (r: bool)
        ensures
            r == self.is_zero_spec(),
    ;

    fn is_positive(&self) -> (r: bool)
        ensures
            r == self.is_positive_spec(),
    ;

    fn is_one(&self) -> (r: bool)
        ensures
            r == self.is_one_spec(),
    ;

    fn is_minus_one(&self) -> (r: bool)
        ensures
            r == self.is_minus_one_spec(),
    ;

    /// Strict "less than"; used only to break ties between terms of equal exponent.
    fn less_than(&self, other: &Self) -> (r: bool)
        ensures
            r == self.less_than_spec(*other),
    ;

    /// Natural decimal text of the value, sign included.
    fn text(&self) -> (r: String)
        ensures
            r@ == self.text_spec(),
    ;
}

} // verus!
