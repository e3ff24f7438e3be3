use vstd::prelude::*;
use crate::coefficient::Coefficient;
use crate::variable::Variable;

verus! {

/// One summand of a polynomial: a bare constant or a power term.
#[allow(non_camel_case_types)]
#[derive(Clone, Copy, Debug, PartialEq, Eq)]
pub enum Operand<C> {
    CONSTANT(C),
    VARIABLE(Variable<C>),
}

/// The rank that places constants after every power term.
pub open spec fn constant_rank() -> int {
    i32::MIN as int - 1
}

/// The exponent classification of an operand, as a number: its exponent for a
/// power term, and a value below every exponent for a constant. A canonical
/// expression lists operands by strictly decreasing rank.
pub open spec fn class_rank<C>(o: Operand<C>) -> int {
    match o {
        Operand::CONSTANT(_) => constant_rank(),
        Operand::VARIABLE(v) => v.exp as int,
    }
}

/// The rank of a product of two operands: exponents add, constants are neutral.
pub open spec fn product_rank<C>(a: Operand<C>, b: Operand<C>) -> int {
    match (a, b) {
        (Operand::CONSTANT(_), Operand::CONSTANT(_)) => constant_rank(),
        (Operand::CONSTANT(_), Operand::VARIABLE(v)) => v.exp as int,
        (Operand::VARIABLE(v), Operand::CONSTANT(_)) => v.exp as int,
        (Operand::VARIABLE(v), Operand::VARIABLE(w)) => v.exp + w.exp,
    }
}

/// Whether the exponents of a product of the two operands fit in `i32`.
pub open spec fn product_fits<C>(a: Operand<C>, b: Operand<C>) -> bool {
    match (a, b) {
        (Operand::VARIABLE(v), Operand::VARIABLE(w)) => i32::MIN <= v.exp + w.exp <= i32::MAX,
        _ => true,
    }
}

/// The product of two operands: constants multiply, a constant scales a
/// power term, power terms multiply coefficients and add exponents.
pub open spec fn product_spec<C: Coefficient>(a: Operand<C>, b: Operand<C>) -> Operand<C> {
    match (a, b) {
        (Operand::CONSTANT(c), Operand::CONSTANT(d)) => Operand::CONSTANT(c.times_spec(d)),
        (Operand::CONSTANT(c), Operand::VARIABLE(w)) => Operand::VARIABLE(
            Variable { mult: c.times_spec(w.mult), exp: w.exp },
        ),
        (Operand::VARIABLE(v), Operand::CONSTANT(d)) => Operand::VARIABLE(
            Variable { mult: v.mult.times_spec(d), exp: v.exp },
        ),
        (Operand::VARIABLE(v), Operand::VARIABLE(w)) => Operand::VARIABLE(
            Variable { mult: v.mult.times_spec(w.mult), exp: (v.exp + w.exp) as i32 },
        ),
    }
}

/// The canonical ordering: `a` goes strictly before `b`. Higher exponent
/// first, constants last, among power terms of one exponent the smaller
/// coefficient first; a constant never goes before anything.
pub open spec fn precedes_spec<C: Coefficient>(a: Operand<C>, b: Operand<C>) -> bool {
    match (a, b) {
        (Operand::CONSTANT(_), _) => false,
        (Operand::VARIABLE(_), Operand::CONSTANT(_)) => true,
        (Operand::VARIABLE(v), Operand::VARIABLE(w)) => if v.exp != w.exp {
            v.exp > w.exp
        } else {
            v.mult.less_than_spec(w.mult)
        },
    }
}

impl<C: Coefficient> Operand<C> {
    pub fn rank(&self) -> (r: i64)
        ensures
            r == class_rank(*self),
    {
        match self {
            Operand::CONSTANT(_) => i32::MIN as i64 - 1,
            Operand::VARIABLE(v) => v.exp as i64,
        }
    }

    /// The canonical ordering: higher exponent first, constants last, and among
    /// power terms of one exponent the smaller coefficient first. Constants are
    /// never ordered among themselves.
    pub fn precedes(&self, other: &Self) -> (r: bool)
        ensures
            r == precedes_spec(*self, *other),
            class_rank(*self) > class_rank(*other) ==> r,
            class_rank(*self) < class_rank(*other) ==> !r,
    {
        match (self, other) {
            (Operand::CONSTANT(_), _) => false,
            (Operand::VARIABLE(_), Operand::CONSTANT(_)) => true,
            (Operand::VARIABLE(a), Operand::VARIABLE(b)) => {
                if a.exp != b.exp {
                    a.exp > b.exp
                } else {
                    a.mult.less_than(&b.mult)
                }
            },
        }
    }

    /// The product of two operands; a constant scales a power term.
    pub fn mul(&self, rhs: &Self) -> (r: Self)
        requires
            product_fits(*self, *rhs),
        ensures
            r == product_spec(*self, *rhs),
            class_rank(r) == product_rank(*self, *rhs),
    {
        match (self, rhs) {
            (Operand::CONSTANT(a), Operand::CONSTANT(b)) => Operand::CONSTANT(a.times(b)),
            (Operand::CONSTANT(a), Operand::VARIABLE(w)) => Operand::VARIABLE(
                Variable::scaled_by(a, w),
            ),
            (Operand::VARIABLE(v), Operand::CONSTANT(b)) => Operand::VARIABLE(v.scale(b)),
            (Operand::VARIABLE(v), Operand::VARIABLE(w)) => Operand::VARIABLE(v.mul(w)),
        }
    }
}

} // verus!
