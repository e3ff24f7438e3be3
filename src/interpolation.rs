use vstd::prelude::*;
use crate::coefficient::Coefficient;
use crate::expression::{
    has_rank, is_canonical, is_product_rank, multiply_expressions, product_of, products_fit,
    simplified, simplify_expression,
};
use crate::fit_error::FitError;
use crate::operand::{Operand, class_rank, constant_rank, product_rank};
use crate::variable::Variable;

verus! {

/// Every operand of `s` is a constant or a power term with exponent in `lo..=hi`.
pub open spec fn ranks_within<C>(s: Seq<Operand<C>>, lo: int, hi: int) -> bool {
    forall|p: int|
        0 <= p < s.len() ==> #[trigger] class_rank(s[p]) == constant_rank() || lo <= class_rank(
            s[p],
        ) <= hi
}

proof fn lemma_within_from_ranks<C>(r: Seq<Operand<C>>, s: Seq<Operand<C>>, lo: int, hi: int)
    requires
        ranks_within(s, lo, hi),
        forall|k: int| #[trigger] has_rank(r, k) ==> has_rank(s, k),
    ensures
        ranks_within(r, lo, hi),
{
    assert forall|p: int| 0 <= p < r.len() implies #[trigger] class_rank(r[p]) == constant_rank()
        || lo <= class_rank(r[p]) <= hi by {
        assert(has_rank(r, class_rank(r[p])));
        let q = choose|q: int| 0 <= q < s.len() && #[trigger] class_rank(s[q]) == class_rank(r[p]);
    }
}

proof fn lemma_product_within<C>(
    a: Seq<Operand<C>>,
    b: Seq<Operand<C>>,
    r: Seq<Operand<C>>,
    ha: int,
    hb: int,
)
    requires
        ranks_within(a, 1, ha),
        ranks_within(b, 1, hb),
        0 <= ha,
        0 <= hb,
        forall|k: int| #[trigger] has_rank(r, k) ==> is_product_rank(a, b, k),
    ensures
        ranks_within(r, 1, ha + hb),
{
    assert forall|p: int| 0 <= p < r.len() implies #[trigger] class_rank(r[p]) == constant_rank()
        || 1 <= class_rank(r[p]) <= ha + hb by {
        assert(has_rank(r, class_rank(r[p])));
        let (i, j) = choose|i: int, j: int|
            0 <= i < a.len() && 0 <= j < b.len() && #[trigger] product_rank(a[i], b[j])
                == class_rank(r[p]);
        assert(class_rank(a[i]) == constant_rank() || 1 <= class_rank(a[i]) <= ha);
        assert(class_rank(b[j]) == constant_rank() || 1 <= class_rank(b[j]) <= hb);
    }
}

proof fn lemma_fit_within<C>(a: Seq<Operand<C>>, b: Seq<Operand<C>>, ha: int, hb: int)
    requires
        ranks_within(a, 1, ha),
        ranks_within(b, 1, hb),
        0 <= ha,
        0 <= hb,
        ha + hb <= i32::MAX,
    ensures
        products_fit(a, b),
{
    assert forall|i: int, j: int| 0 <= i < a.len() && 0 <= j < b.len() implies #[trigger] crate::operand::product_fits(
        a[i],
        b[j],
    ) by {
        assert(class_rank(a[i]) == constant_rank() || 1 <= class_rank(a[i]) <= ha);
        assert(class_rank(b[j]) == constant_rank() || 1 <= class_rank(b[j]) <= hb);
    }
}

/// The factor `x - c`, as `[1 x^1, -c]`.
pub open spec fn linear_factor<C: Coefficient>(c: C) -> Seq<Operand<C>> {
    seq![Operand::VARIABLE(Variable { mult: C::one_spec(), exp: 1 }), Operand::CONSTANT(c.negated_spec())]
}

/// `prod_{j < m, j != i} (x - x_j)`, multiplied left to right from the empty
/// expression.
pub open spec fn basis_numerator<C: Coefficient>(x: Seq<C>, i: int, m: nat) -> Seq<Operand<C>>
    decreases m,
{
    if m == 0 {
        Seq::empty()
    } else {
        let prev = basis_numerator(x, i, (m - 1) as nat);
        if m - 1 == i {
            prev
        } else {
            product_of(prev, linear_factor(x[m - 1]))
        }
    }
}

/// `prod_{j < m, j != i} (x_i - x_j)`, multiplied left to right from one.
pub open spec fn basis_denominator<C: Coefficient>(x: Seq<C>, i: int, m: nat) -> C
    decreases m,
{
    if m == 0 {
        C::one_spec()
    } else {
        let prev = basis_denominator(x, i, (m - 1) as nat);
        if m - 1 == i {
            prev
        } else {
            prev.times_spec(x[i].minus_spec(x[m - 1]))
        }
    }
}

/// The `i`-th basis polynomial scaled by `y_i` over its denominator.
pub open spec fn scaled_basis<C: Coefficient>(x: Seq<C>, y: Seq<C>, i: int) -> Seq<Operand<C>> {
    product_of(
        seq![Operand::CONSTANT(y[i].divided_by_spec(basis_denominator(x, i, x.len())))],
        basis_numerator(x, i, x.len()),
    )
}

/// The scaled basis polynomials for `i < m`, one after the other.
pub open spec fn lagrange_terms<C: Coefficient>(x: Seq<C>, y: Seq<C>, m: nat) -> Seq<Operand<C>>
    decreases m,
{
    if m == 0 {
        Seq::empty()
    } else {
        lagrange_terms(x, y, (m - 1) as nat) + scaled_basis(x, y, m - 1)
    }
}

/// Two distinct points have x coordinates whose difference is zero.
pub open spec fn has_repeated_abscissa<C: Coefficient>(x: Seq<C>) -> bool {
    exists|i: int, j: int|
        0 <= i < x.len() && 0 <= j < x.len() && i != j && (#[trigger] x[i].minus_spec(
            #[trigger] x[j],
        )).is_zero_spec()
}

/// Whether two distinct points have x coordinates whose difference is zero.
fn repeated_abscissa<C: Coefficient>(x: &[C]) -> (r: bool)
    ensures
        r == has_repeated_abscissa(x@),
{
    let n = x.len();
    let mut i: usize = 0;
    while i < n
        invariant
            n == x@.len(),
            i <= n,
            forall|a: int, b: int|
                0 <= a < i && 0 <= b < n && a != b ==> !(#[trigger] x@[a].minus_spec(
                    #[trigger] x@[b],
                )).is_zero_spec(),
        decreases n - i,
    {
        let mut j: usize = 0;
        while j < n
            invariant
                n == x@.len(),
                i < n,
                j <= n,
                forall|a: int, b: int|
                    ((0 <= a < i && 0 <= b < n) || (a == i && 0 <= b < j)) && a != b ==> !(
                    #[trigger] x@[a].minus_spec(#[trigger] x@[b])).is_zero_spec(),
            decreases n - j,
        {
            if i != j && x[i].minus(&x[j]).is_zero() {
                return true;
            }
            j = j + 1;
        }
        i = i + 1;
    }
    false
}

/// Some basis denominator is zero: two points share an x coordinate.
pub open spec fn has_zero_denominator<C: Coefficient>(x: Seq<C>) -> bool {
    exists|i: int| 0 <= i < x.len() && #[trigger] basis_denominator(x, i, x.len()).is_zero_spec()
}

/// The Lagrange interpolation polynomial through the points `(x[i], y[i])`,
/// simplified: the sum over `i` of `y[i] / prod_{j != i} (x[i] - x[j])` times
/// `prod_{j != i} (x - x[j])`. Its degree is below the number of points.
/// Fails with `InvalidInput` when the coordinate lists differ in length, and
/// with `DegenerateInput` when two points share an x coordinate or a basis
/// denominator comes out zero.
pub fn interpolate_lagrange<C: Coefficient>(x: &[C], y: &[C]) -> (r: Result<
    Vec<Operand<C>>,
    FitError,
>)
    requires
        x@.len() <= i32::MAX,
    ensures
        x@.len() != y@.len() <==> r == Err::<Vec<Operand<C>>, FitError>(FitError::InvalidInput),
        x@.len() == y@.len() ==> (r == Err::<Vec<Operand<C>>, FitError>(FitError::DegenerateInput)
            <==> (has_repeated_abscissa(x@) || has_zero_denominator(x@))),
        x@.len() == 0 && y@.len() == 0 ==> (r matches Ok(p) && p.len() == 0),
        r matches Ok(p) ==> p@ == simplified(lagrange_terms(x@, y@, x@.len())),
        r matches Ok(p) ==> is_canonical(p@) && ranks_within(p@, 1, x@.len() - 1),
{
    if x.len() != y.len() {
        return Err(FitError::InvalidInput);
    }
    if repeated_abscissa(x) {
        return Err(FitError::DegenerateInput);
    }
    let n = x.len();
    let mut w: Vec<Operand<C>> = Vec::new();
    let mut i: usize = 0;
    while i < n
        invariant
            n == x@.len(),
            n == y@.len(),
            n <= i32::MAX,
            i <= n,
            i == 0 ==> w.len() == 0,
            w@ == lagrange_terms(x@, y@, i as nat),
            forall|q: int| 0 <= q < i ==> !(#[trigger] basis_denominator(x@, q, n as nat)).is_zero_spec(),
            ranks_within(w@, 1, n - 1),
        decreases n - i,
    {
        let mut nominator: Vec<Operand<C>> = Vec::new();
        let mut denominator = C::one();
        let mut j: usize = 0;
        let ghost mut degree: int = 0;
        while j < n
            invariant
                n == x@.len(),
                n == y@.len(),
                n <= i32::MAX,
                i < n,
                j <= n,
                0 <= degree <= j,
                degree <= n - 1,
                j <= i ==> degree == j,
                j > i ==> degree == j - 1,
                nominator@ == basis_numerator(x@, i as int, j as nat),
                denominator == basis_denominator(x@, i as int, j as nat),
                ranks_within(nominator@, 1, degree),
            decreases n - j,
        {
            if i != j {
                let factor = vec![
                    Operand::VARIABLE(Variable::new(C::one(), 1)),
                    Operand::CONSTANT(x[j].negated()),
                ];
                assert(factor@ =~= linear_factor(x@[j as int]));
                assert(ranks_within(factor@, 1, 1));
                proof {
                    lemma_fit_within(nominator@, factor@, degree, 1);
                }
                let next = multiply_expressions(&nominator, &factor);
                proof {
                    if nominator@.len() == 0 {
                    } else {
                        lemma_product_within(nominator@, factor@, next@, degree, 1);
                    }
                    degree = degree + 1;
                }
                nominator = next;
                denominator = denominator.times(&x[i].minus(&x[j]));
            }
            j = j + 1;
        }
        if denominator.is_zero() {
            return Err(FitError::DegenerateInput);
        }
        let scale = vec![Operand::CONSTANT(y[i].divided_by(&denominator))];
        assert(scale@ =~= seq![Operand::CONSTANT(y@[i as int].divided_by_spec(basis_denominator(x@, i as int, n as nat)))]);
        assert(ranks_within(scale@, 1, 0));
        proof {
            lemma_fit_within(scale@, nominator@, 0, degree);
        }
        let scaled = multiply_expressions(&scale, &nominator);
        proof {
            if nominator@.len() > 0 {
                lemma_product_within(scale@, nominator@, scaled@, 0, degree);
            }
        }
        let ghost w_before = w@;
        let mut k: usize = 0;
        while k < scaled.len()
            invariant
                k <= scaled.len(),
                w@ == w_before + scaled@.subrange(0, k as int),
                ranks_within(w@, 1, n - 1),
                ranks_within(scaled@, 1, n - 1),
            decreases scaled.len() - k,
        {
            w.push(scaled[k]);
            k = k + 1;
            assert(w@ =~= w_before + scaled@.subrange(0, k as int));
        }
        assert(scaled@.subrange(0, scaled.len() as int) =~= scaled@);
        i = i + 1;
    }
    let ghost before = w@;
    simplify_expression(&mut w);
    proof {
        lemma_within_from_ranks(w@, before, 1, n - 1);
    }
    Ok(w)
}

} // verus!
