use vstd::prelude::*;
use crate::coefficient::Coefficient;
use crate::render::{push_integer, signed_decimal};
use vstd::string::StringExecFns;

verus! {

/// The one symbol that every polynomial of this library is written in.
pub const VARIABLE_NAME: char = 'x';

/// The text after a term's coefficient: the symbol, then `^` and the exponent
/// unless the exponent is one.
pub open spec fn power_text(exp: int) -> Seq<char> {
    if exp == 1 {
        seq![VARIABLE_NAME]
    } else {
        seq![VARIABLE_NAME, '^'] + signed_decimal(exp)
    }
}

/// The term with the magnitude of the coefficient.
pub open spec fn abs_spec<C: Coefficient>(v: Variable<C>) -> Variable<C> {
    Variable { mult: v.mult.magnitude_spec(), exp: v.exp }
}

/// The coefficient as written before the symbol: nothing for one, a bare `-`
/// for minus one, the coefficient's text otherwise.
pub open spec fn coefficient_text<C: Coefficient>(c: C) -> Seq<char> {
    if c.is_minus_one_spec() {
        seq!['-']
    } else if c.is_one_spec() {
        Seq::empty()
    } else {
        c.text_spec()
    }
}

/// The text of a term: its coefficient, the symbol, and the exponent unless
/// it is one.
pub open spec fn term_text<C: Coefficient>(v: Variable<C>) -> Seq<char> {
    coefficient_text(v.mult) + power_text(v.exp as int)
}

/// The term `mult * x^exp`.
#[derive(Clone, Copy, Debug, PartialEq, Eq)]
pub struct Variable<C> {
    pub mult: C,
    pub exp: i32,
}

impl<C: Coefficient> Variable<C> {
    pub fn new(mult: C, exp: i32) -> (r: Self)
        ensures
            r.mult == mult,
            r.exp == exp,
    {
        Variable { mult, exp }
    }

    /// The term with the magnitude of this coefficient; used for display.
    pub fn abs(&self) -> (r: Self)
        ensures
            r == abs_spec(*self),
    {
        Variable { mult: self.mult.magnitude(), exp: self.exp }
    }

    pub fn neg(&self) -> (r: Self)
        ensures
            r.exp == self.exp,
            r.mult == self.mult.negated_spec(),
    {
        Variable { mult: self.mult.negated(), exp: self.exp }
    }

    /// `(a x^m)(b x^n) = ab x^(m+n)`.
    pub fn mul(&self, rhs: &Self) -> (r: Self)
        requires
            i32::MIN <= self.exp + rhs.exp <= i32::MAX,
        ensures
            r.exp == self.exp + rhs.exp,
            r.mult == self.mult.times_spec(rhs.mult),
    {
        Variable { mult: self.mult.times(&rhs.mult), exp: self.exp + rhs.exp }
    }

    /// The term with its coefficient multiplied by `k`, on the right.
    pub fn scale(&self, k: &C) -> (r: Self)
        ensures
            r.exp == self.exp,
            r.mult == self.mult.times_spec(*k),
    {
        Variable { mult: self.mult.times(k), exp: self.exp }
    }

    /// The term with its coefficient multiplied by `k`, on the left.
    pub fn scaled_by(k: &C, v: &Self) -> (r: Self)
        ensures
            r.exp == v.exp,
            r.mult == k.times_spec(v.mult),
    {
        Variable { mult: k.times(&v.mult), exp: v.exp }
    }

    /// `x^e` written with its coefficient: nothing for one, a bare `-` for
    /// minus one, the coefficient's text otherwise.
    pub fn to_string(&self) -> (r: String)
        ensures
            r@ == term_text(*self),
    {
        let mut s = String::new();
        if self.mult.is_minus_one() {
            proof {
                reveal_strlit("-");
            }
            s.append("-");
        } else if !self.mult.is_one() {
            let t = self.mult.text();
            s.append(t.as_str());
        }
        let ghost head = s@;
        proof {
            reveal_strlit("x");
        }
        s.append("x");
        if self.exp != 1 {
            proof {
                reveal_strlit("^");
            }
            s.append("^");
            push_integer(&mut s, self.exp);
        }
        assert(head =~= coefficient_text(self.mult));
        assert(s@ =~= term_text(*self));
        s
    }
}

} // verus!
