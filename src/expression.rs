use vstd::prelude::*;
use crate::coefficient::Coefficient;
use crate::operand::{Operand, class_rank, constant_rank, product_rank, product_fits, precedes_spec, product_spec};
use crate::variable::{Variable, abs_spec, term_text};
use vstd::string::StringExecFns;

verus! {

/// Operands listed by strictly decreasing rank: at most one operand per
/// exponent, at most one constant, the constant last.
pub open spec fn is_canonical<C>(s: Seq<Operand<C>>) -> bool {
    forall|i: int, j: int|
        0 <= i < j < s.len() ==> #[trigger] class_rank(s[i]) > #[trigger] class_rank(s[j])
}

/// Operands listed by non-increasing rank.
pub open spec fn is_ranked<C>(s: Seq<Operand<C>>) -> bool {
    forall|i: int, j: int|
        0 <= i < j < s.len() ==> #[trigger] class_rank(s[i]) >= #[trigger] class_rank(s[j])
}

/// Some operand of `s` has rank `k`.
pub open spec fn has_rank<C>(s: Seq<Operand<C>>, k: int) -> bool {
    exists|i: int| 0 <= i < s.len() && #[trigger] class_rank(s[i]) == k
}

/// Two operands of `s` have rank `k`.
pub open spec fn shares_rank<C>(s: Seq<Operand<C>>, k: int) -> bool {
    exists|p: int, q: int|
        #![trigger class_rank(s[p]), class_rank(s[q])]
        0 <= p < q < s.len() && class_rank(s[p]) == k && class_rank(s[q]) == k
}

/// Every operand of `after` is an operand of `before`, unless its rank is
/// shared by two operands of `before`.
pub open spec fn kept_or_merged<C>(before: Seq<Operand<C>>, after: Seq<Operand<C>>) -> bool {
    forall|i: int|
        0 <= i < after.len() ==> before.contains(#[trigger] after[i]) || shares_rank(
            before,
            class_rank(after[i]),
        )
}

/// Where insertion sort puts `e` into `s`: before the first operand from
/// position `p` on that `e` precedes, or at the end.
pub open spec fn insert_position<C: Coefficient>(s: Seq<Operand<C>>, e: Operand<C>, p: int) -> int
    decreases s.len() - p,
{
    if p >= s.len() {
        s.len() as int
    } else if precedes_spec(e, s[p]) {
        p
    } else {
        insert_position(s, e, p + 1)
    }
}

/// The operands of `s` in canonical order, by stable insertion sort.
pub open spec fn sorted_spec<C: Coefficient>(s: Seq<Operand<C>>) -> Seq<Operand<C>>
    decreases s.len(),
{
    if s.len() == 0 {
        s
    } else {
        let t = sorted_spec(s.drop_last());
        t.insert(insert_position(t, s.last(), 0), s.last())
    }
}

/// The sum of two operands of one rank: coefficients, or constants, added.
pub open spec fn add_like_spec<C: Coefficient>(a: Operand<C>, b: Operand<C>) -> Operand<C> {
    match (a, b) {
        (Operand::VARIABLE(l), Operand::VARIABLE(m)) => Operand::VARIABLE(
            Variable { mult: l.mult.plus_spec(m.mult), exp: l.exp },
        ),
        (Operand::CONSTANT(l), Operand::CONSTANT(m)) => Operand::CONSTANT(l.plus_spec(m)),
        _ => a,
    }
}

/// `s` with each run of operands of equal rank folded, left to right, into
/// one operand.
pub open spec fn merged_spec<C: Coefficient>(s: Seq<Operand<C>>) -> Seq<Operand<C>>
    decreases s.len(),
{
    if s.len() == 0 {
        s
    } else {
        let m = merged_spec(s.drop_last());
        let e = s.last();
        if m.len() > 0 && class_rank(m.last()) == class_rank(e) {
            m.update(m.len() - 1, add_like_spec(m.last(), e))
        } else {
            m.push(e)
        }
    }
}

/// `s` ends in a constant that is zero.
pub open spec fn ends_in_zero_constant<C: Coefficient>(s: Seq<Operand<C>>) -> bool {
    s.len() > 0 && (s.last() matches Operand::CONSTANT(c) && c.is_zero_spec())
}

/// `s` without its final constant when that constant is zero.
pub open spec fn drop_zero_constant<C: Coefficient>(s: Seq<Operand<C>>) -> Seq<Operand<C>> {
    if ends_in_zero_constant(s) {
        s.drop_last()
    } else {
        s
    }
}

/// The canonical form of `s`: sorted, runs of equal rank added up, a final
/// zero constant dropped.
pub open spec fn simplified<C: Coefficient>(s: Seq<Operand<C>>) -> Seq<Operand<C>> {
    drop_zero_constant(merged_spec(sorted_spec(s)))
}

/// Stable insertion sort into the canonical ordering.
fn sort_operands<C: Coefficient>(v: &Vec<Operand<C>>) -> (r: Vec<Operand<C>>)
    ensures
        r.len() == v.len(),
        r@ == sorted_spec(v@),
        is_ranked(r@),
        forall|k: int| has_rank(r@, k) <==> has_rank(v@, k),
        is_canonical(v@) ==> r@ == v@,
        forall|j: int| 0 <= j < r.len() ==> v@.contains(#[trigger] r@[j]),
        forall|k: int| #[trigger] shares_rank(r@, k) ==> shares_rank(v@, k),
{
    let mut sorted: Vec<Operand<C>> = Vec::new();
    let ghost mut perm: Seq<int> = Seq::empty();
    let mut i: usize = 0;
    while i < v.len()
        invariant
            i <= v.len(),
            sorted.len() == i,
            sorted@ == sorted_spec(v@.subrange(0, i as int)),
            is_ranked(sorted@),
            forall|k: int| has_rank(sorted@, k) <==> has_rank(v@.subrange(0, i as int), k),
            is_canonical(v@) ==> sorted@ == v@.subrange(0, i as int),
            perm.len() == sorted.len(),
            forall|j: int| 0 <= j < perm.len() ==> 0 <= #[trigger] perm[j] < i && sorted@[j] == v@[perm[j]],
            forall|a: int, b: int| 0 <= a < b < perm.len() ==> #[trigger] perm[a] != #[trigger] perm[b],
        decreases v.len() - i,
    {
        let e = v[i];
        let mut p: usize = 0;
        while p < sorted.len() && !e.precedes(&sorted[p])
            invariant
                p <= sorted.len(),
                forall|q: int| 0 <= q < p ==> class_rank(e) <= #[trigger] class_rank(sorted@[q]),
                insert_position(sorted@, e, p as int) == insert_position(sorted@, e, 0),
            decreases sorted.len() - p,
        {
            p = p + 1;
        }
        let ghost old_sorted = sorted@;
        let ghost prefix = v@.subrange(0, i as int);
        let ghost next = v@.subrange(0, i + 1);
        assert(forall|k: int| has_rank(old_sorted, k) <==> has_rank(prefix, k));
        assert(insert_position(old_sorted, e, p as int) == p);
        assert(next.drop_last() =~= prefix);
        assert(next.last() == e);
        sorted.insert(p, e);
        proof {
            old_sorted.insert_ensures(p as int, e);
            assert(next == prefix.push(e));
            assert forall|a: int, b: int|
                0 <= a < b < sorted@.len() implies #[trigger] class_rank(sorted@[a])
                >= #[trigger] class_rank(sorted@[b]) by {
                if b < p {
                } else if a < p && b == p {
                } else if a < p {
                    assert(sorted@[b] == old_sorted[b - 1]);
                } else if a == p {
                    assert(sorted@[b] == old_sorted[b - 1]);
                    assert(class_rank(e) >= class_rank(old_sorted[p as int]));
                } else {
                    assert(sorted@[a] == old_sorted[a - 1]);
                    assert(sorted@[b] == old_sorted[b - 1]);
                }
            }
            assert forall|k: int| has_rank(sorted@, k) <==> has_rank(next, k) by {
                if has_rank(sorted@, k) {
                    let j = choose|j: int| 0 <= j < sorted@.len() && #[trigger] class_rank(sorted@[j]) == k;
                    if j == p {
                        assert(next[i as int] == e);
                    } else if j < p {
                        assert(has_rank(old_sorted, k));
                        let w = choose|w: int| 0 <= w < prefix.len() && #[trigger] class_rank(prefix[w]) == k;
                        assert(next[w] == prefix[w]);
                    } else {
                        assert(sorted@[j] == old_sorted[j - 1]);
                        assert(has_rank(old_sorted, k));
                        let w = choose|w: int| 0 <= w < prefix.len() && #[trigger] class_rank(prefix[w]) == k;
                        assert(next[w] == prefix[w]);
                    }
                }
                if has_rank(next, k) {
                    let w = choose|w: int| 0 <= w < next.len() && #[trigger] class_rank(next[w]) == k;
                    if w == i {
                        assert(sorted@[p as int] == e);
                    } else {
                        assert(prefix[w] == next[w]);
                        assert(has_rank(prefix, k));
                        let j = choose|j: int| 0 <= j < old_sorted.len() && #[trigger] class_rank(old_sorted[j]) == k;
                        if j < p {
                            assert(sorted@[j] == old_sorted[j]);
                        } else {
                            assert(sorted@[j + 1] == old_sorted[j]);
                        }
                    }
                }
            }
            let old_perm = perm;
            perm = perm.insert(p as int, i as int);
            old_perm.insert_ensures(p as int, i as int);
            assert forall|j: int| 0 <= j < perm.len() implies 0 <= #[trigger] perm[j] < i + 1
                && sorted@[j] == v@[perm[j]] by {
                if j > p {
                    assert(perm[j] == old_perm[j - 1]);
                    assert(sorted@[j] == old_sorted[j - 1]);
                }
            }
            assert forall|a: int, b: int| 0 <= a < b < perm.len() implies #[trigger] perm[a]
                != #[trigger] perm[b] by {
                if a > p {
                    assert(perm[a] == old_perm[a - 1]);
                }
                if b > p {
                    assert(perm[b] == old_perm[b - 1]);
                }
                if a != p && b != p {
                    if a < p && b > p {
                        assert(old_perm[a] != old_perm[b - 1]);
                    }
                }
            }
            if is_canonical(v@) {
                if p < old_sorted.len() {
                    assert(old_sorted[p as int] == v@[p as int]);
                    assert(class_rank(v@[p as int]) > class_rank(v@[i as int]));
                }
                assert(p == old_sorted.len());
                assert(sorted@ == next);
            }
        }
        i = i + 1;
    }
    proof {
        assert(v@.subrange(0, v.len() as int) == v@);
        assert forall|j: int| 0 <= j < sorted.len() implies v@.contains(#[trigger] sorted@[j]) by {
            assert(v@[perm[j]] == sorted@[j]);
        }
        assert forall|k: int| #[trigger] shares_rank(sorted@, k) implies shares_rank(v@, k) by {
            let (a, b) = choose|a: int, b: int|
                #![trigger class_rank(sorted@[a]), class_rank(sorted@[b])]
                0 <= a < b < sorted@.len() && class_rank(sorted@[a]) == k && class_rank(sorted@[b]) == k;
            assert(perm[a] != perm[b]);
            if perm[a] < perm[b] {
                assert(class_rank(v@[perm[a]]) == k && class_rank(v@[perm[b]]) == k);
            } else {
                assert(class_rank(v@[perm[b]]) == k && class_rank(v@[perm[a]]) == k);
            }
        }
    }
    sorted
}

/// The sum of two operands of one rank.
fn add_like<C: Coefficient>(a: &Operand<C>, b: &Operand<C>) -> (r: Operand<C>)
    requires
        class_rank(*a) == class_rank(*b),
    ensures
        r == add_like_spec(*a, *b),
        class_rank(r) == class_rank(*a),
{
    match (a, b) {
        (Operand::VARIABLE(l), Operand::VARIABLE(m)) => Operand::VARIABLE(
            Variable::new(l.mult.plus(&m.mult), l.exp),
        ),
        (Operand::CONSTANT(l), Operand::CONSTANT(m)) => Operand::CONSTANT(l.plus(m)),
        (Operand::CONSTANT(l), _) => Operand::CONSTANT(*l),
        (Operand::VARIABLE(l), _) => Operand::VARIABLE(*l),
    }
}

/// One left-to-right pass that folds each run of equal rank into one operand.
fn merge_runs<C: Coefficient>(s: &Vec<Operand<C>>) -> (r: Vec<Operand<C>>)
    requires
        is_ranked(s@),
    ensures
        r@ == merged_spec(s@),
        is_canonical(r@),
        r.len() <= s.len(),
        s.len() > 0 ==> r.len() > 0,
        forall|k: int| has_rank(r@, k) <==> has_rank(s@, k),
        is_canonical(s@) ==> r@ == s@,
        kept_or_merged(s@, r@),
{
    let mut out: Vec<Operand<C>> = Vec::new();
    let mut i: usize = 0;
    while i < s.len()
        invariant
            i <= s.len(),
            is_ranked(s@),
            out.len() <= i,
            out@ == merged_spec(s@.subrange(0, i as int)),
            is_canonical(out@),
            i == 0 ==> out.len() == 0,
            i > 0 ==> out.len() > 0 && class_rank(out@.last()) == class_rank(s@[i - 1]),
            forall|k: int| has_rank(out@, k) <==> has_rank(s@.subrange(0, i as int), k),
            is_canonical(s@) ==> out@ == s@.subrange(0, i as int),
            kept_or_merged(s@, out@),
        decreases s.len() - i,
    {
        let e = s[i];
        let ghost old_out = out@;
        let ghost prefix = s@.subrange(0, i as int);
        let ghost next = s@.subrange(0, i + 1);
        assert(forall|k: int| has_rank(old_out, k) <==> has_rank(prefix, k));
        assert(next == prefix.push(e));
        assert(next.drop_last() =~= prefix);
        let n = out.len();
        if n > 0 && out[n - 1].rank() == e.rank() {
            let merged = add_like(&out[n - 1], &e);
            out.set(n - 1, merged);
            proof {
                assert forall|j: int| 0 <= j < out@.len() implies s@.contains(#[trigger] out@[j])
                    || shares_rank(s@, class_rank(out@[j])) by {
                    if j == n - 1 {
                        let k = class_rank(out@[j]);
                        assert(class_rank(s@[i - 1]) == k && class_rank(s@[i as int]) == k);
                    } else {
                        assert(out@[j] == old_out[j]);
                    }
                }
                assert forall|j: int| 0 <= j < out@.len() implies #[trigger] class_rank(out@[j])
                    == class_rank(old_out[j]) by {
                    if j < n - 1 {
                        assert(out@[j] == old_out[j]);
                    }
                }
                if is_canonical(s@) {
                    assert(class_rank(s@[i - 1]) > class_rank(s@[i as int]));
                }
                assert forall|a: int, b: int|
                    0 <= a < b < out@.len() implies #[trigger] class_rank(out@[a])
                    > #[trigger] class_rank(out@[b]) by {
                    if b == n - 1 {
                        assert(class_rank(old_out[b]) == class_rank(out@[b]));
                    }
                }
                assert forall|k: int| has_rank(out@, k) <==> has_rank(next, k) by {
                    if has_rank(out@, k) {
                        let j = choose|j: int| 0 <= j < out@.len() && #[trigger] class_rank(out@[j]) == k;
                        assert(class_rank(old_out[j]) == k);
                        assert(has_rank(old_out, k));
                        let w = choose|w: int| 0 <= w < prefix.len() && #[trigger] class_rank(prefix[w]) == k;
                        assert(next[w] == prefix[w]);
                        assert(class_rank(next[w]) == k);
                    }
                    if has_rank(next, k) {
                        let w = choose|w: int| 0 <= w < next.len() && #[trigger] class_rank(next[w]) == k;
                        if w == i {
                            assert(class_rank(out@[n - 1]) == k);
                        } else {
                            assert(prefix[w] == next[w]);
                            assert(class_rank(prefix[w]) == k);
                            assert(has_rank(prefix, k));
                            let j = choose|j: int| 0 <= j < old_out.len() && #[trigger] class_rank(old_out[j]) == k;
                            assert(class_rank(out@[j]) == k);
                        }
                    }
                }
            }
        } else {
            out.push(e);
            proof {
                assert forall|j: int| 0 <= j < out@.len() implies s@.contains(#[trigger] out@[j])
                    || shares_rank(s@, class_rank(out@[j])) by {
                    if j == n {
                        assert(s@[i as int] == out@[j]);
                    } else {
                        assert(out@[j] == old_out[j]);
                    }
                }
                if i > 0 {
                    assert(class_rank(s@[i - 1]) >= class_rank(e));
                }
                assert forall|a: int, b: int|
                    0 <= a < b < out@.len() implies #[trigger] class_rank(out@[a])
                    > #[trigger] class_rank(out@[b]) by {
                    if b == n {
                        assert(class_rank(old_out[a]) >= class_rank(old_out.last()));
                    }
                }
                assert forall|k: int| has_rank(out@, k) <==> has_rank(next, k) by {
                    if has_rank(out@, k) {
                        let j = choose|j: int| 0 <= j < out@.len() && #[trigger] class_rank(out@[j]) == k;
                        if j == n {
                            assert(next[i as int] == e);
                        } else {
                            assert(old_out[j] == out@[j]);
                            assert(class_rank(old_out[j]) == k);
                            assert(has_rank(old_out, k));
                            let w = choose|w: int| 0 <= w < prefix.len() && #[trigger] class_rank(prefix[w]) == k;
                            assert(next[w] == prefix[w]);
                            assert(class_rank(next[w]) == k);
                        }
                    }
                    if has_rank(next, k) {
                        let w = choose|w: int| 0 <= w < next.len() && #[trigger] class_rank(next[w]) == k;
                        if w == i {
                            assert(out@[n as int] == e);
                        } else {
                            assert(prefix[w] == next[w]);
                            assert(class_rank(prefix[w]) == k);
                            assert(has_rank(prefix, k));
                            let j = choose|j: int| 0 <= j < old_out.len() && #[trigger] class_rank(old_out[j]) == k;
                            assert(out@[j] == old_out[j]);
                            assert(class_rank(out@[j]) == k);
                        }
                    }
                }
            }
        }
        i = i + 1;
    }
    proof {
        assert(s@.subrange(0, s.len() as int) == s@);
    }
    out
}

/// What simplification guarantees of its result `after`: it is canonical, no
/// longer than `before`, has an operand of every exponent that `before` has
/// and of no other, has a constant only if `before` has one, takes each
/// operand whose exponent no other operand shares unchanged from `before`, and, when
/// `before` was canonical already, is `before` itself or `before` without its
/// final constant.
pub open spec fn simplifies_to<C: Coefficient>(before: Seq<Operand<C>>, after: Seq<Operand<C>>) -> bool {
    &&& after == simplified(before)
    &&& is_canonical(after)
    &&& after.len() <= before.len()
    &&& forall|k: int| #[trigger] has_rank(after, k) ==> has_rank(before, k)
    &&& forall|k: int| k != constant_rank() && #[trigger] has_rank(before, k) ==> has_rank(after, k)
    &&& kept_or_merged(before, after)
    &&& !ends_in_zero_constant(after)
    &&& is_canonical(before) ==> after == drop_zero_constant(before)
}

/// Rewrites `expr` into canonical form: operands sorted by decreasing
/// exponent with constants last, operands of one exponent (and all constants)
/// added together in ascending coefficient order, and a final constant that
/// is zero dropped.
pub fn simplify_expression<C: Coefficient>(expr: &mut Vec<Operand<C>>)
    ensures
        simplifies_to(old(expr)@, final(expr)@),
{
    if expr.len() == 0 {
        assert(simplified(expr@) =~= expr@);
        return;
    }
    let sorted = sort_operands(expr);
    let mut merged = merge_runs(&sorted);
    let n = merged.len();
    let drop_last = match &merged[n - 1] {
        Operand::CONSTANT(c) => c.is_zero(),
        Operand::VARIABLE(_) => false,
    };
    if drop_last {
        let ghost before = merged@;
        merged.pop();
        proof {
            assert(merged@ == before.drop_last());
            if merged@.len() > 0 {
                assert(class_rank(before[n - 2]) > class_rank(before[n - 1]));
            }
            assert forall|k: int| #[trigger] has_rank(merged@, k) implies has_rank(before, k) by {
                let j = choose|j: int| 0 <= j < merged@.len() && #[trigger] class_rank(merged@[j]) == k;
                assert(before[j] == merged@[j]);
            }
            assert forall|k: int| k != constant_rank() && #[trigger] has_rank(before, k) implies has_rank(merged@, k) by {
                let j = choose|j: int| 0 <= j < before.len() && #[trigger] class_rank(before[j]) == k;
                assert(j != n - 1);
                assert(merged@[j] == before[j]);
            }
            assert forall|j: int| 0 <= j < merged@.len() implies sorted@.contains(#[trigger] merged@[j])
                || shares_rank(sorted@, class_rank(merged@[j])) by {
                assert(merged@[j] == before[j]);
            }
        }
    }
    proof {
        assert forall|j: int| 0 <= j < merged@.len() implies old(expr)@.contains(#[trigger] merged@[j])
            || shares_rank(old(expr)@, class_rank(merged@[j])) by {
            if sorted@.contains(merged@[j]) {
                let q = choose|q: int| 0 <= q < sorted@.len() && sorted@[q] == merged@[j];
                assert(old(expr)@.contains(sorted@[q]));
            } else {
                assert(shares_rank(sorted@, class_rank(merged@[j])));
            }
        }
    }
    *expr = merged;
}

/// Appending an operand keeps every rank present and adds exactly its own.
proof fn lemma_push_ranks<C>(s: Seq<Operand<C>>, e: Operand<C>)
    ensures
        forall|k: int| #[trigger] has_rank(s.push(e), k) <==> (has_rank(s, k) || k == class_rank(e)),
{
    assert forall|k: int| #[trigger] has_rank(s.push(e), k) <==> (has_rank(s, k) || k
        == class_rank(e)) by {
        if has_rank(s, k) {
            let j = choose|j: int| 0 <= j < s.len() && #[trigger] class_rank(s[j]) == k;
            assert(s.push(e)[j] == s[j]);
        }
        if k == class_rank(e) {
            assert(s.push(e)[s.len() as int] == e);
        }
        if has_rank(s.push(e), k) {
            let j = choose|j: int| 0 <= j < s.push(e).len() && #[trigger] class_rank(s.push(e)[j]) == k;
            if j < s.len() {
                assert(s.push(e)[j] == s[j]);
            }
        }
    }
}

/// An element-by-element copy.
fn copy_operands<C: Coefficient>(v: &Vec<Operand<C>>) -> (r: Vec<Operand<C>>)
    ensures
        r@ == v@,
{
    let mut r: Vec<Operand<C>> = Vec::new();
    let mut i: usize = 0;
    while i < v.len()
        invariant
            i <= v.len(),
            r@ == v@.subrange(0, i as int),
        decreases v.len() - i,
    {
        r.push(v[i]);
        i = i + 1;
        assert(r@ == v@.subrange(0, i as int));
    }
    assert(v@.subrange(0, v.len() as int) == v@);
    r
}

/// Every pairwise product of operands of `a` and `b` has exponents within `i32`.
pub open spec fn products_fit<C>(a: Seq<Operand<C>>, b: Seq<Operand<C>>) -> bool {
    forall|i: int, j: int|
        0 <= i < a.len() && 0 <= j < b.len() ==> #[trigger] product_fits(a[i], b[j])
}

/// `k` is the rank of the product of some operand of `a` with some operand of `b`.
pub open spec fn is_product_rank<C>(a: Seq<Operand<C>>, b: Seq<Operand<C>>, k: int) -> bool {
    exists|i: int, j: int|
        0 <= i < a.len() && 0 <= j < b.len() && #[trigger] product_rank(a[i], b[j]) == k
}

/// The products of `x` with each operand of `b`, in order.
pub open spec fn row_products<C: Coefficient>(x: Operand<C>, b: Seq<Operand<C>>) -> Seq<Operand<C>> {
    Seq::new(b.len(), |j: int| product_spec(x, b[j]))
}

/// Every product of an operand of `a` with an operand of `b`, row by row.
pub open spec fn all_products<C: Coefficient>(a: Seq<Operand<C>>, b: Seq<Operand<C>>) -> Seq<
    Operand<C>,
>
    decreases a.len(),
{
    if a.len() == 0 {
        Seq::empty()
    } else {
        all_products(a.drop_last(), b) + row_products(a.last(), b)
    }
}

/// The product as multiplication defines it: an empty factor leaves the
/// other one as it is; otherwise all pairwise products, simplified.
pub open spec fn product_of<C: Coefficient>(a: Seq<Operand<C>>, b: Seq<Operand<C>>) -> Seq<Operand<C>> {
    if a.len() == 0 {
        b
    } else if b.len() == 0 {
        a
    } else {
        simplified(all_products(a, b))
    }
}

/// What multiplication guarantees of the product `r` of `a` and `b`. An empty
/// factor leaves the other factor as it is. Otherwise `r` is the
/// simplification of all pairwise products; so it is canonical, has
/// at most one operand per pair of operands, has only exponents of pairwise
/// products, and has every such exponent.
pub open spec fn multiplies_to<C: Coefficient>(a: Seq<Operand<C>>, b: Seq<Operand<C>>, r: Seq<Operand<C>>) -> bool {
    &&& r == product_of(a, b)
    &&& a.len() == 0 ==> r == b
    &&& a.len() > 0 && b.len() == 0 ==> r == a
    &&& a.len() > 0 && b.len() > 0 ==> {
        &&& r == simplified(all_products(a, b))
        &&& is_canonical(r)
        &&& r.len() <= a.len() * b.len()
        &&& forall|k: int| #[trigger] has_rank(r, k) ==> is_product_rank(a, b, k)
        &&& forall|k: int| k != constant_rank() && #[trigger] is_product_rank(a, b, k) ==> has_rank(r, k)
    }
}

/// The product of two sums, by full distribution and one final
/// simplification. An empty operand stands for an absent factor: the product
/// with it is a copy of the other operand.
pub fn multiply_expressions<C: Coefficient>(expr1: &Vec<Operand<C>>, expr2: &Vec<Operand<C>>) -> (r:
    Vec<Operand<C>>)
    requires
        products_fit(expr1@, expr2@),
    ensures
        multiplies_to(expr1@, expr2@, r@),
{
    let mut product: Vec<Operand<C>> = Vec::new();
    if expr1.len() == 0 && expr2.len() == 0 {
        assert(product@ =~= expr2@);
        return product;
    } else if expr1.len() == 0 {
        return copy_operands(expr2);
    } else if expr2.len() == 0 {
        return copy_operands(expr1);
    }
    let ghost a = expr1@;
    let ghost b = expr2@;
    let mut i: usize = 0;
    while i < expr1.len()
        invariant
            a == expr1@,
            b == expr2@,
            products_fit(a, b),
            i <= a.len(),
            product.len() == i * b.len(),
            product@ == all_products(a.subrange(0, i as int), b),
            forall|k: int| #[trigger] has_rank(product@, k) ==> is_product_rank(a, b, k),
            forall|p: int, q: int|
                0 <= p < i && 0 <= q < b.len() ==> has_rank(
                    product@,
                    #[trigger] product_rank(a[p], b[q]),
                ),
        decreases a.len() - i,
    {
        let mut j: usize = 0;
        while j < expr2.len()
            invariant
                a == expr1@,
                b == expr2@,
                products_fit(a, b),
                i < a.len(),
                j <= b.len(),
                product.len() == i * b.len() + j,
                product@ == all_products(a.subrange(0, i as int), b) + row_products(
                    a[i as int],
                    b.subrange(0, j as int),
                ),
                forall|k: int| #[trigger] has_rank(product@, k) ==> is_product_rank(a, b, k),
                forall|p: int, q: int|
                    (0 <= p < i && 0 <= q < b.len()) || (p == i && 0 <= q < j) ==> has_rank(
                        product@,
                        #[trigger] product_rank(a[p], b[q]),
                    ),
            decreases b.len() - j,
        {
            assert(product_fits(a[i as int], b[j as int]));
            let term = expr1[i].mul(&expr2[j]);
            let ghost before = product@;
            product.push(term);
            proof {
                assert(row_products(a[i as int], b.subrange(0, j + 1)) =~= row_products(
                    a[i as int],
                    b.subrange(0, j as int),
                ).push(term));
                lemma_push_ranks(before, term);
                assert(product@ == before.push(term));
                assert forall|k: int| #[trigger] has_rank(product@, k) implies is_product_rank(a, b, k) by {
                    if k == class_rank(term) {
                        assert(product_rank(a[i as int], b[j as int]) == k);
                    }
                }
            }
            j = j + 1;
        }
        proof {
            assert((i + 1) * b.len() == i * b.len() + b.len()) by (nonlinear_arith);
            assert(a.subrange(0, i + 1).drop_last() =~= a.subrange(0, i as int));
            assert(b.subrange(0, b.len() as int) =~= b);
        }
        i = i + 1;
    }
    assert(a.subrange(0, a.len() as int) =~= a);
    simplify_expression(&mut product);
    proof {
        assert forall|k: int|
            k != constant_rank() && #[trigger] is_product_rank(a, b, k) implies has_rank(product@, k) by {
            let (p, q) = choose|p: int, q: int|
                0 <= p < a.len() && 0 <= q < b.len() && #[trigger] product_rank(a[p], b[q]) == k;
        }
    }
    product
}

/// `+ ` before a positive coefficient, `- ` before any other.
pub open spec fn sign_text<C: Coefficient>(c: C) -> Seq<char> {
    if c.is_positive_spec() {
        seq!['+', ' ']
    } else {
        seq!['-', ' ']
    }
}

/// The text of operand `o` at position `index` of an expression. At the
/// head it is written with its own sign; after it, as its sign, a space and
/// its magnitude, where a constant that is zero is left out. Every operand
/// written is followed by a space.
pub open spec fn operand_text<C: Coefficient>(o: Operand<C>, index: int) -> Seq<char> {
    match o {
        Operand::CONSTANT(c) => if index == 0 {
            c.text_spec().push(' ')
        } else if c.is_zero_spec() {
            Seq::empty()
        } else {
            sign_text(c) + c.magnitude_spec().text_spec().push(' ')
        },
        Operand::VARIABLE(v) => if index == 0 {
            term_text(v).push(' ')
        } else {
            sign_text(v.mult) + term_text(abs_spec(v)).push(' ')
        },
    }
}

/// The text of an expression: its operands' texts one after the other.
pub open spec fn rendering<C: Coefficient>(expr: Seq<Operand<C>>) -> Seq<char>
    decreases expr.len(),
{
    if expr.len() == 0 {
        Seq::empty()
    } else {
        rendering(expr.drop_last()) + operand_text(expr.last(), expr.len() - 1)
    }
}

/// Appends the sign of `c` and a space.
fn push_sign<C: Coefficient>(s: &mut String, c: &C)
    ensures
        final(s)@ == old(s)@ + sign_text(*c),
{
    proof {
        reveal_strlit("+ ");
        reveal_strlit("- ");
    }
    if c.is_positive() {
        s.append("+ ");
    } else {
        s.append("- ");
    }
}

/// Appends a space.
fn push_space(s: &mut String)
    ensures
        final(s)@ == old(s)@.push(' '),
{
    proof {
        reveal_strlit(" ");
    }
    s.append(" ");
    assert(final(s)@ =~= old(s)@.push(' '));
}

/// Human-readable text of an expression: the first operand with its own sign,
/// each further one as its sign, a space and its magnitude, every operand
/// followed by a space. A further constant that is zero is left out, and the
/// empty expression gives the empty string.
pub fn expression_to_string<C: Coefficient>(expr: &Vec<Operand<C>>) -> (r: String)
    ensures
        r@ == rendering(expr@),
{
    let mut s = String::new();
    let mut i: usize = 0;
    while i < expr.len()
        invariant
            i <= expr.len(),
            s@ == rendering(expr@.subrange(0, i as int)),
        decreases expr.len() - i,
    {
        let ghost start = s@;
        if i == 0 {
            match &expr[0] {
                Operand::CONSTANT(c) => {
                    let t = c.text();
                    s.append(t.as_str());
                },
                Operand::VARIABLE(v) => {
                    let t = v.to_string();
                    s.append(t.as_str());
                },
            }
            push_space(&mut s);
        } else {
            match &expr[i] {
                Operand::CONSTANT(c) => {
                    if !c.is_zero() {
                        push_sign(&mut s, c);
                        let t = c.magnitude().text();
                        s.append(t.as_str());
                        push_space(&mut s);
                    }
                },
                Operand::VARIABLE(v) => {
                    push_sign(&mut s, &v.mult);
                    let t = v.abs().to_string();
                    s.append(t.as_str());
                    push_space(&mut s);
                },
            }
        }
        proof {
            let next = expr@.subrange(0, i + 1);
            assert(next.drop_last() =~= expr@.subrange(0, i as int));
            assert(next.last() == expr@[i as int]);
            assert(s@ =~= start + operand_text(expr@[i as int], i as int));
        }
        i = i + 1;
    }
    assert(expr@.subrange(0, expr.len() as int) =~= expr@);
    s
}

/// Simplifying twice gives what simplifying once gives: when `once` is what
/// simplification made of `e`, simplifying `once` leaves it unchanged.
pub proof fn law_simplify_settles<C: Coefficient>(
    e: Seq<Operand<C>>,
    once: Seq<Operand<C>>,
    twice: Seq<Operand<C>>,
)
    requires
        simplifies_to(e, once),
        simplifies_to(once, twice),
    ensures
        twice == once,
        simplified(simplified(e)) == simplified(e),
{
}

/// Multiplication commutes in its exponent structure: `a * b` and `b * a`
/// (canonical when neither factor is empty) hold power terms of exactly the same exponents.
pub proof fn law_multiply_commutes_in_exponents<C: Coefficient>(
    a: Seq<Operand<C>>,
    b: Seq<Operand<C>>,
    ab: Seq<Operand<C>>,
    ba: Seq<Operand<C>>,
)
    requires
        multiplies_to(a, b, ab),
        multiplies_to(b, a, ba),
    ensures
        a.len() > 0 && b.len() > 0 ==> is_canonical(ab) && is_canonical(ba),
        forall|k: int| k != constant_rank() ==> (has_rank(ab, k) <==> has_rank(ba, k)),
{
    assert forall|k: int| #[trigger] is_product_rank(a, b, k) <==> is_product_rank(b, a, k) by {
        if is_product_rank(a, b, k) {
            let (i, j) = choose|i: int, j: int|
                0 <= i < a.len() && 0 <= j < b.len() && #[trigger] product_rank(a[i], b[j]) == k;
            assert(product_rank(b[j], a[i]) == k);
        }
        if is_product_rank(b, a, k) {
            let (i, j) = choose|i: int, j: int|
                0 <= i < b.len() && 0 <= j < a.len() && #[trigger] product_rank(b[i], a[j]) == k;
            assert(product_rank(a[j], b[i]) == k);
        }
    }
    if a.len() == 0 || b.len() == 0 {
        assert(ab == ba);
    } else {
        assert forall|k: int| k != constant_rank() implies (has_rank(ab, k) <==> has_rank(ba, k)) by {
            if has_rank(ab, k) {
                assert(is_product_rank(a, b, k));
                assert(is_product_rank(b, a, k));
            }
            if has_rank(ba, k) {
                assert(is_product_rank(b, a, k));
                assert(is_product_rank(a, b, k));
            }
        }
    }
}

} // verus!
