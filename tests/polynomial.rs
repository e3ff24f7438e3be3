use float_cmp::{ApproxEq, F32Margin};
use polyalg::coefficient::Coefficient;
use polyalg::expression::{expression_to_string, multiply_expressions, simplify_expression};
use polyalg::fit_error::FitError;
use polyalg::interpolation::interpolate_lagrange;
use polyalg::operand::Operand;
use polyalg::regression::regress_least_squares;
use polyalg::variable::{Variable, VARIABLE_NAME};

/// Single-precision coefficients.
#[derive(Clone, Copy, Debug, PartialEq)]
struct F(f32);

impl Coefficient for F {
    fn zero() -> Self {
        F(0.0)
    }
    fn one() -> Self {
        F(1.0)
    }
    fn plus(&self, other: &Self) -> Self {
        F(self.0 + other.0)
    }
    fn minus(&self, other: &Self) -> Self {
        F(self.0 - other.0)
    }
    fn times(&self, other: &Self) -> Self {
        F(self.0 * other.0)
    }
    fn divided_by(&self, other: &Self) -> Self {
        F(self.0 / other.0)
    }
    fn negated(&self) -> Self {
        F(-self.0)
    }
    fn magnitude(&self) -> Self {
        F(self.0.abs())
    }
    fn is_zero(&self) -> bool {
        self.0 == 0.0
    }
    fn is_positive(&self) -> bool {
        self.0 > 0.0
    }
    fn is_one(&self) -> bool {
        self.0 == 1.0
    }
    fn is_minus_one(&self) -> bool {
        self.0 == -1.0
    }
    fn less_than(&self, other: &Self) -> bool {
        self.0 < other.0
    }
    fn text(&self) -> String {
        self.0.to_string()
    }
}

fn var(mult: f32, exp: i32) -> Operand<F> {
    Operand::VARIABLE(Variable::new(F(mult), exp))
}

fn cst(c: f32) -> Operand<F> {
    Operand::CONSTANT(F(c))
}

/// Each operand as (exponent, coefficient), with `None` for a constant.
fn shape(e: &[Operand<F>]) -> Vec<(Option<i32>, f32)> {
    e.iter()
        .map(|o| match o {
            Operand::CONSTANT(c) => (None, c.0),
            Operand::VARIABLE(v) => (Some(v.exp), v.mult.0),
        })
        .collect()
}

fn close(a: f32, b: f32) -> bool {
    a.approx_eq(b, F32Margin::zero().ulps(5))
}

#[test]
fn simplify_empty_stays_empty() {
    let mut e: Vec<Operand<F>> = Vec::new();
    simplify_expression(&mut e);
    assert!(e.is_empty());
}

#[test]
fn simplify_sorts_and_merges() {
    let mut e = vec![cst(4.0), var(2.0, 1), var(1.0, 3), cst(-1.0), var(3.0, 1), var(-2.0, 3)];
    simplify_expression(&mut e);
    assert_eq!(shape(&e), vec![(Some(3), -1.0), (Some(1), 5.0), (None, 3.0)]);
}

#[test]
fn simplify_is_idempotent() {
    let mut e = vec![var(1.5, 2), cst(2.0), var(-1.0, 0), var(0.5, 2), cst(-2.0), var(7.0, -1)];
    simplify_expression(&mut e);
    let once = shape(&e);
    simplify_expression(&mut e);
    assert_eq!(shape(&e), once);
    assert_eq!(once, vec![(Some(2), 2.0), (Some(0), -1.0), (Some(-1), 7.0)]);
}

#[test]
fn simplify_gives_canonical_order() {
    let mut e = vec![cst(1.0), var(1.0, -2), var(1.0, 5), cst(1.0), var(2.0, 0), var(3.0, 5)];
    simplify_expression(&mut e);
    assert_eq!(shape(&e), vec![(Some(5), 4.0), (Some(0), 2.0), (Some(-2), 1.0), (None, 2.0)]);
}

#[test]
fn simplify_drops_trailing_zero_constant() {
    let mut e = vec![var(1.0, 1), cst(0.0)];
    simplify_expression(&mut e);
    assert_eq!(shape(&e), vec![(Some(1), 1.0)]);
}

#[test]
fn simplify_cancelling_constants_give_empty() {
    let mut e = vec![cst(3.0), cst(-3.0)];
    simplify_expression(&mut e);
    assert!(e.is_empty());
}

#[test]
fn simplify_keeps_zero_power_term() {
    let mut e = vec![var(2.0, 1), var(-2.0, 1)];
    simplify_expression(&mut e);
    assert_eq!(shape(&e), vec![(Some(1), 0.0)]);
}

#[test]
fn simplify_adds_ties_in_ascending_order() {
    let mut e = vec![var(3.0, 2), var(1.0, 2), var(2.0, 2)];
    simplify_expression(&mut e);
    assert_eq!(shape(&e), vec![(Some(2), 6.0)]);
}

#[test]
fn multiply_both_empty() {
    let e: Vec<Operand<F>> = Vec::new();
    assert!(multiply_expressions(&e, &e).is_empty());
}

#[test]
fn multiply_with_empty_copies_other() {
    let empty: Vec<Operand<F>> = Vec::new();
    let e = vec![cst(5.0), var(2.0, 1)];
    assert_eq!(shape(&multiply_expressions(&empty, &e)), shape(&e));
    assert_eq!(shape(&multiply_expressions(&e, &empty)), shape(&e));
}

#[test]
fn multiply_commutes() {
    let a = vec![var(2.0, 2), cst(1.0), var(-3.0, 1)];
    let b = vec![var(1.0, 1), cst(4.0)];
    let ab = multiply_expressions(&a, &b);
    let ba = multiply_expressions(&b, &a);
    assert_eq!(shape(&ab), shape(&ba));
    assert_eq!(shape(&ab), vec![(Some(3), 2.0), (Some(2), 5.0), (Some(1), -11.0), (None, 4.0)]);
}

#[test]
fn multiply_distributes() {
    let a = vec![var(1.0, 1), cst(-2.0)];
    let b = vec![var(1.0, 1), cst(-3.0)];
    let p = multiply_expressions(&a, &b);
    assert_eq!(shape(&p), vec![(Some(2), 1.0), (Some(1), -5.0), (None, 6.0)]);
}

#[test]
fn multiply_constants_only() {
    let a = vec![cst(2.0)];
    let b = vec![cst(3.0), cst(-1.0)];
    assert_eq!(shape(&multiply_expressions(&a, &b)), vec![(None, 4.0)]);
}

#[test]
fn to_string_empty() {
    let e: Vec<Operand<F>> = Vec::new();
    assert_eq!(expression_to_string(&e), "");
}

#[test]
fn to_string_line() {
    let e = vec![var(1.0, 1), cst(-2.0)];
    assert_eq!(expression_to_string(&e), "x - 2 ");
}

#[test]
fn to_string_mixed_terms() {
    let e = vec![var(-1.0, 3), var(2.5, 2), var(-1.0, 1), cst(0.0), var(4.0, -2), cst(7.0)];
    assert_eq!(expression_to_string(&e), "-x^3 + 2.5x^2 - x + 4x^-2 + 7 ");
}

#[test]
fn to_string_leading_constant() {
    let e = vec![cst(-3.5), var(-2.0, 12)];
    assert_eq!(expression_to_string(&e), "-3.5 - 2x^12 ");
}

#[test]
fn term_rendering() {
    assert_eq!(VARIABLE_NAME, 'x');
    assert_eq!(Variable::new(F(1.0), 1).to_string(), "x");
    assert_eq!(Variable::new(F(-1.0), 2).to_string(), "-x^2");
    assert_eq!(Variable::new(F(3.0), 0).to_string(), "3x^0");
    assert_eq!(Variable::new(F(0.5), -10).to_string(), "0.5x^-10");
    assert_eq!(Variable::new(F(2.0), i32::MIN).to_string(), "2x^-2147483648");
}

#[test]
fn term_arithmetic() {
    let a = Variable::new(F(2.0), 3);
    let b = Variable::new(F(-4.0), -1);
    let p = a.mul(&b);
    assert_eq!((p.mult.0, p.exp), (-8.0, 2));
    let n = b.neg();
    assert_eq!((n.mult.0, n.exp), (4.0, -1));
    let m = b.abs();
    assert_eq!((m.mult.0, m.exp), (4.0, -1));
    let s = a.scale(&F(0.5));
    assert_eq!((s.mult.0, s.exp), (1.0, 3));
    let t = Variable::scaled_by(&F(3.0), &a);
    assert_eq!((t.mult.0, t.exp), (6.0, 3));
}

#[test]
fn operand_products() {
    let p = cst(2.0).mul(&cst(3.0));
    assert_eq!(shape(&[p]), vec![(None, 6.0)]);
    let q = cst(2.0).mul(&var(3.0, 2));
    assert_eq!(shape(&[q]), vec![(Some(2), 6.0)]);
    let r = var(3.0, 2).mul(&cst(-1.0));
    assert_eq!(shape(&[r]), vec![(Some(2), -3.0)]);
    let s = var(3.0, 2).mul(&var(0.5, -5));
    assert_eq!(shape(&[s]), vec![(Some(-3), 1.5)]);
}

#[test]
fn operand_ordering() {
    assert!(var(1.0, 2).precedes(&var(5.0, 1)));
    assert!(!var(5.0, 1).precedes(&var(1.0, 2)));
    assert!(var(1.0, -7).precedes(&cst(1.0)));
    assert!(!cst(1.0).precedes(&var(1.0, -7)));
    assert!(var(-1.0, 2).precedes(&var(1.0, 2)));
    assert!(!var(1.0, 2).precedes(&var(1.0, 2)));
    assert!(!cst(0.0).precedes(&cst(1.0)));
    assert_eq!(cst(9.0).rank(), i32::MIN as i64 - 1);
    assert_eq!(var(9.0, 4).rank(), 4);
}

#[test]
fn lagrange_cubic() {
    let x = [F(1.0), F(2.0), F(3.0), F(4.0)];
    let y = [F(3.0), F(1.0), F(-1.0), F(2.0)];
    let poly = interpolate_lagrange(&x, &y).unwrap();
    assert_eq!(poly.len(), 3);
    let terms: Vec<(i32, f32)> = poly
        .iter()
        .map(|o| match o {
            Operand::VARIABLE(v) => (v.exp, v.mult.0),
            Operand::CONSTANT(_) => panic!("expected power terms only"),
        })
        .collect();
    assert_eq!(terms.len(), 3);
    assert_eq!(terms[0].0, 3);
    assert!(close(terms[0].1, 5.0 / 6.0));
    assert_eq!(terms[1].0, 2);
    assert!(close(terms[1].1, -5.0));
    assert_eq!(terms[2].0, 1);
    assert!(close(terms[2].1, 43.0 / 6.0));
}

#[test]
fn lagrange_line_through_two_points() {
    let poly = interpolate_lagrange(&[F(0.0), F(2.0)], &[F(1.0), F(5.0)]).unwrap();
    assert_eq!(shape(&poly), vec![(Some(1), 2.0), (None, 1.0)]);
}

#[test]
fn lagrange_single_point_is_constant() {
    let poly = interpolate_lagrange(&[F(4.0)], &[F(7.0)]).unwrap();
    assert_eq!(shape(&poly), vec![(None, 7.0)]);
}

#[test]
fn lagrange_no_points() {
    let poly = interpolate_lagrange::<F>(&[], &[]).unwrap();
    assert!(poly.is_empty());
}

#[test]
fn lagrange_length_mismatch() {
    assert_eq!(interpolate_lagrange(&[F(1.0), F(2.0)], &[F(1.0)]).unwrap_err(), FitError::InvalidInput);
}

#[test]
fn lagrange_repeated_abscissa() {
    let r = interpolate_lagrange(&[F(1.0), F(1.0)], &[F(1.0), F(2.0)]);
    assert_eq!(r.unwrap_err(), FitError::DegenerateInput);
}

#[test]
fn regression_line() {
    let x = [F(1.0), F(2.0), F(4.0), F(5.0)];
    let y = [F(3.0), F(4.0), F(6.0), F(7.0)];
    let q = regress_least_squares(&x, &y).unwrap();
    assert_eq!(q.len(), 2);
    match &q[0] {
        Operand::VARIABLE(v) => {
            assert!(close(v.mult.0, 1.0));
            assert_eq!(v.exp, 1);
        }
        Operand::CONSTANT(_) => panic!("expected a power term first"),
    }
    match &q[1] {
        Operand::CONSTANT(c) => assert!(close(c.0, 2.0)),
        Operand::VARIABLE(_) => panic!("expected a constant last"),
    }
    assert_eq!(expression_to_string(&q), "x + 2 ");
}

#[test]
fn regression_slope_exact() {
    let q = regress_least_squares(&[F(0.0), F(1.0), F(2.0)], &[F(1.0), F(3.0), F(5.0)]).unwrap();
    assert_eq!(shape(&q), vec![(Some(1), 2.0), (None, 1.0)]);
}

#[test]
fn regression_length_mismatch() {
    assert_eq!(regress_least_squares(&[F(1.0), F(2.0)], &[F(1.0)]).unwrap_err(), FitError::InvalidInput);
}

#[test]
fn regression_no_spread() {
    let r = regress_least_squares(&[F(2.0), F(2.0), F(2.0)], &[F(1.0), F(2.0), F(3.0)]);
    assert_eq!(r.unwrap_err(), FitError::DegenerateInput);
}

#[test]
fn operand_equality() {
    assert_eq!(var(2.0, 3), var(2.0, 3));
    assert_ne!(var(2.0, 3), var(2.0, 2));
    assert_ne!(var(2.0, 0), cst(2.0));
    assert_eq!(cst(-1.5), cst(-1.5));
    assert_eq!(Variable::new(F(1.0), 1), Variable::new(F(1.0), 1));
}

#[test]
fn simplify_keeps_single_nonzero_constant() {
    let mut e = vec![cst(3.0), var(2.0, 0)];
    simplify_expression(&mut e);
    assert_eq!(e, vec![var(2.0, 0), cst(3.0)]);
}

#[test]
fn lagrange_repeated_abscissa_with_overflowing_denominators() {
    let x = [F(-2e19), F(2e19), F(0.0), F(0.0)];
    let y = [F(1.0), F(2.0), F(3.0), F(4.0)];
    assert_eq!(interpolate_lagrange(&x, &y).unwrap_err(), FitError::DegenerateInput);
}
