use vstd::prelude::*;
use crate::coefficient::Coefficient;
use crate::expression::is_canonical;
use crate::fit_error::FitError;
use crate::operand::Operand;
use crate::variable::Variable;

verus! {

/// `c` raised to the power `k`: one, multiplied by `c` `k` times.
pub open spec fn power_spec<C: Coefficient>(c: C, k: nat) -> C
    decreases k,
{
    if k == 0 {
        C::one_spec()
    } else {
        power_spec(c, (k - 1) as nat).times_spec(c)
    }
}

/// `sum_{i < n} x_i^k`, added left to right from zero.
pub open spec fn power_sum<C: Coefficient>(x: Seq<C>, k: nat, n: nat) -> C
    decreases n,
{
    if n == 0 {
        C::zero_spec()
    } else {
        power_sum(x, k, (n - 1) as nat).plus_spec(power_spec(x[n - 1], k))
    }
}

/// `sum_{i < n} x_i^k y_i`, added left to right from zero.
pub open spec fn moment_sum<C: Coefficient>(x: Seq<C>, y: Seq<C>, k: nat, n: nat) -> C
    decreases n,
{
    if n == 0 {
        C::zero_spec()
    } else {
        moment_sum(x, y, k, (n - 1) as nat).plus_spec(power_spec(x[n - 1], k).times_spec(y[n - 1]))
    }
}

/// `S_k` over all points.
pub open spec fn s_sum<C: Coefficient>(x: Seq<C>, k: nat) -> C {
    power_sum(x, k, x.len())
}

/// `T_k` over all points.
pub open spec fn t_sum<C: Coefficient>(x: Seq<C>, y: Seq<C>, k: nat) -> C {
    moment_sum(x, y, k, y.len())
}

/// The determinant of the normal equations, `W = S0 S2 - S1 S1`.
pub open spec fn normal_determinant<C: Coefficient>(x: Seq<C>) -> C {
    s_sum(x, 0).times_spec(s_sum(x, 2)).minus_spec(s_sum(x, 1).times_spec(s_sum(x, 1)))
}

/// `W a1 = S0 T1 - S1 T0`.
pub open spec fn slope_numerator<C: Coefficient>(x: Seq<C>, y: Seq<C>) -> C {
    s_sum(x, 0).times_spec(t_sum(x, y, 1)).minus_spec(s_sum(x, 1).times_spec(t_sum(x, y, 0)))
}

/// `W a0 = T0 S2 - T1 S1`.
pub open spec fn intercept_numerator<C: Coefficient>(x: Seq<C>, y: Seq<C>) -> C {
    t_sum(x, y, 0).times_spec(s_sum(x, 2)).minus_spec(t_sum(x, y, 1).times_spec(s_sum(x, 1)))
}

/// `c` raised to the power `k`, by repeated multiplication starting from one.
fn power<C: Coefficient>(c: &C, k: u32) -> (r: C)
    ensures
        r == power_spec(*c, k as nat),
{
    let mut r = C::one();
    let mut i: u32 = 0;
    while i < k
        invariant
            i <= k,
            r == power_spec(*c, i as nat),
        decreases k - i,
    {
        r = r.times(c);
        i = i + 1;
    }
    r
}

/// The power sums `S_k = sum_i x_i^k` for `k` in `0..=2m`.
fn calc_s<C: Coefficient>(x: &[C], m: u32) -> (s: Vec<C>)
    requires
        2 * m + 1 <= u32::MAX,
    ensures
        s.len() == 2 * m + 1,
        forall|k: int| 0 <= k < s.len() ==> #[trigger] s[k] == power_sum(x@, k as nat, x@.len()),
{
    let mut s: Vec<C> = Vec::new();
    let mut k: u32 = 0;
    while k < 2 * m + 1
        invariant
            2 * m + 1 <= u32::MAX,
            k <= 2 * m + 1,
            s.len() == k,
            forall|q: int| 0 <= q < s.len() ==> #[trigger] s[q] == power_sum(x@, q as nat, x@.len()),
        decreases 2 * m + 1 - k,
    {
        let mut sum = C::zero();
        let mut i: usize = 0;
        while i < x.len()
            invariant
                i <= x@.len(),
                sum == power_sum(x@, k as nat, i as nat),
            decreases x@.len() - i,
        {
            sum = sum.plus(&power(&x[i], k));
            i = i + 1;
        }
        s.push(sum);
        k = k + 1;
    }
    s
}

/// The moment sums `T_k = sum_i x_i^k y_i` for `k` in `0..=m`.
fn calc_t<C: Coefficient>(x: &[C], y: &[C], m: u32) -> (t: Vec<C>)
    requires
        y@.len() <= x@.len(),
        m < u32::MAX,
    ensures
        t.len() == m + 1,
        forall|k: int| 0 <= k < t.len() ==> #[trigger] t[k] == moment_sum(x@, y@, k as nat, y@.len()),
{
    let mut t: Vec<C> = Vec::new();
    let mut k: u32 = 0;
    while k < m + 1
        invariant
            y@.len() <= x@.len(),
            m < u32::MAX,
            k <= m + 1,
            t.len() == k,
            forall|q: int| 0 <= q < t.len() ==> #[trigger] t[q] == moment_sum(x@, y@, q as nat, y@.len()),
        decreases m + 1 - k,
    {
        let mut sum = C::zero();
        let mut j: usize = 0;
        while j < y.len()
            invariant
                y@.len() <= x@.len(),
                j <= y@.len(),
                sum == moment_sum(x@, y@, k as nat, j as nat),
            decreases y@.len() - j,
        {
            sum = sum.plus(&power(&x[j], k).times(&y[j]));
            j = j + 1;
        }
        t.push(sum);
        k = k + 1;
    }
    t
}

/// The least-squares line through the points `(x[i], y[i])`, as
/// `[a x, b]`, from the normal equations solved by Cramer's rule:
/// `W = S0 S2 - S1^2`, `a = (S0 T1 - S1 T0) / W`, `b = (T0 S2 - T1 S1) / W`.
pub fn regress_least_squares<C: Coefficient>(x: &[C], y: &[C]) -> (r: Result<
    Vec<Operand<C>>,
    FitError,
>)
    ensures
        x@.len() != y@.len() <==> r == Err::<Vec<Operand<C>>, FitError>(FitError::InvalidInput),
        x@.len() == y@.len() ==> (r == Err::<Vec<Operand<C>>, FitError>(FitError::DegenerateInput)
            <==> normal_determinant(x@).is_zero_spec()),
        r matches Ok(q) ==> {
            &&& q@ == seq![
                Operand::VARIABLE(
                    Variable {
                        mult: slope_numerator(x@, y@).divided_by_spec(normal_determinant(x@)),
                        exp: 1,
                    },
                ),
                Operand::CONSTANT(
                    intercept_numerator(x@, y@).divided_by_spec(normal_determinant(x@)),
                ),
            ]
            &&& is_canonical(q@)
        },
{
    if x.len() != y.len() {
        return Err(FitError::InvalidInput);
    }
    let s = calc_s(x, 1);
    let t = calc_t(x, y, 1);
    let w = s[0].times(&s[2]).minus(&s[1].times(&s[1]));
    if w.is_zero() {
        return Err(FitError::DegenerateInput);
    }
    let wa0 = t[0].times(&s[2]).minus(&t[1].times(&s[1]));
    let wa1 = s[0].times(&t[1]).minus(&s[1].times(&t[0]));
    let mut q: Vec<Operand<C>> = Vec::new();
    q.push(Operand::VARIABLE(Variable::new(wa1.divided_by(&w), 1)));
    q.push(Operand::CONSTANT(wa0.divided_by(&w)));
    assert(q@ =~= seq![
        Operand::VARIABLE(
            Variable {
                mult: slope_numerator(x@, y@).divided_by_spec(normal_determinant(x@)),
                exp: 1,
            },
        ),
        Operand::CONSTANT(intercept_numerator(x@, y@).divided_by_spec(normal_determinant(x@))),
    ]);
    Ok(q)
}

} // verus!
