use crate::error::MatrixError;
use vstd::prelude::*;

verus! {

/// A thin ownership wrapper around a sequence of numeric elements.
/// It represents either a row slice or a materialized column slice of a
/// matrix and has no identity beyond its contents.
pub struct Vector {
    data: Vec<i64>,
}

impl View for Vector {
    type V = Seq<i64>;

    closed spec fn view(&self) -> Seq<i64> {
        self.data@
    }
}

impl Vector {
    pub fn new(data: Vec<i64>) -> (r: Vector)
        ensures
            r@ == data@,
    {
        Vector { data }
    }

    pub fn len(&self) -> (r: usize)
        ensures
            r == self@.len(),
    {
        self.data.len()
    }

    /// The elements of the vector.
    pub fn data(&self) -> (r: &Vec<i64>)
        ensures
            r@ == self@,
    {
        &self.data
    }
}

/// The sum of the element-wise products of the first `n` elements of
/// `a` and `b`.
pub open spec fn dot_prefix(a: Seq<i64>, b: Seq<i64>, n: int) -> int
    decreases n,
{
    if n <= 0 {
        0
    } else {
        dot_prefix(a, b, n - 1) + a[n - 1] * b[n - 1]
    }
}

/// The dot product of two equal-length vectors: the sum of all pairwise
/// products.
pub open spec fn spec_dot(a: Seq<i64>, b: Seq<i64>) -> int {
    dot_prefix(a, b, a.len() as int)
}

/// Every pairwise product and every partial sum of the dot product of
/// `a` and `b` stays within `i64`, so the accumulation below neither
/// overflows nor underflows.
pub open spec fn dot_fits(a: Seq<i64>, b: Seq<i64>) -> bool {
    &&& forall|k: int|
        0 <= k < a.len() ==> i64::MIN <= (#[trigger] a[k]) * b[k] <= i64::MAX
    &&& forall|n: int|
        0 <= n <= a.len() ==> i64::MIN <= #[trigger] dot_prefix(a, b, n) <= i64::MAX
}

/// A partial dot product of vectors bounded by `bound` is itself
/// bounded by `n` times `bound` squared.
proof fn lemma_dot_prefix_bound(a: Seq<i64>, b: Seq<i64>, bound: int, n: int)
    requires
        a.len() == b.len(),
        0 <= bound,
        0 <= n <= a.len(),
        forall|k: int| 0 <= k < a.len() ==> -bound <= #[trigger] a[k] <= bound,
        forall|k: int| 0 <= k < b.len() ==> -bound <= #[trigger] b[k] <= bound,
    ensures
        -(n * bound * bound) <= dot_prefix(a, b, n) <= n * bound * bound,
    decreases n,
{
    if n > 0 {
        lemma_dot_prefix_bound(a, b, bound, n - 1);
        assert(-(bound * bound) <= a[n - 1] * b[n - 1] <= bound * bound) by (nonlinear_arith)
            requires
                -bound <= a[n - 1] <= bound,
                -bound <= b[n - 1] <= bound,
                0 <= bound,
        ;
        assert((n - 1) * bound * bound + bound * bound == n * bound * bound) by (nonlinear_arith);
    }
}

/// Bounded elements keep a dot product inside `i64`: when every
/// element of both vectors is at most `bound` in magnitude and the
/// worst-case sum `len * bound * bound` fits, no pairwise product or
/// partial sum can leave the range. This discharges the precondition
/// of `dot_product` without unfolding the sum.
pub proof fn lemma_bounded_dot_fits(a: Seq<i64>, b: Seq<i64>, bound: int)
    requires
        a.len() == b.len(),
        0 <= bound,
        forall|k: int| 0 <= k < a.len() ==> -bound <= #[trigger] a[k] <= bound,
        forall|k: int| 0 <= k < b.len() ==> -bound <= #[trigger] b[k] <= bound,
        a.len() * bound * bound <= i64::MAX,
    ensures
        dot_fits(a, b),
{
    assert forall|k: int| 0 <= k < a.len() implies i64::MIN <= (#[trigger] a[k]) * b[k]
        <= i64::MAX by {
        assert(bound * bound <= a.len() * bound * bound) by (nonlinear_arith)
            requires
                0 <= bound,
                1 <= a.len(),
        ;
        assert(-(bound * bound) <= a[k] * b[k] <= bound * bound) by (nonlinear_arith)
            requires
                -bound <= a[k] <= bound,
                -bound <= b[k] <= bound,
                0 <= bound,
        ;
    }
    assert forall|n: int| 0 <= n <= a.len() implies i64::MIN <= #[trigger] dot_prefix(a, b, n)
        <= i64::MAX by {
        lemma_dot_prefix_bound(a, b, bound, n);
        assert(n * bound * bound <= a.len() * bound * bound) by (nonlinear_arith)
            requires
                0 <= bound,
                n <= a.len(),
        ;
    }
}

/// Computes the sum of the element-wise products of two equal-length
/// vectors; fails with `DimensionMismatch` if the lengths differ.
///
/// Overflow policy: the caller guarantees (through the precondition)
/// that every pairwise product and every partial sum fits in `i64`;
/// inputs outside that range are excluded rather than wrapped.
pub fn dot_product(a: Vector, b: Vector) -> (r: Result<i64, MatrixError>)
    requires
        a@.len() == b@.len() ==> dot_fits(a@, b@),
    ensures
        match r {
            Ok(v) => a@.len() == b@.len() && v == spec_dot(a@, b@),
            Err(e) => a@.len() != b@.len() && e == MatrixError::DimensionMismatch,
        },
{
    if a.len() != b.len() {
        return Err(MatrixError::DimensionMismatch);
    }
    let mut result: i64 = 0;
    let mut i: usize = 0;
    while i < a.len()
        invariant
            a@.len() == b@.len(),
            dot_fits(a@, b@),
            i <= a@.len(),
            result == dot_prefix(a@, b@, i as int),
        decreases a@.len() - i,
    {
        proof {
            assert(i64::MIN <= a@[i as int] * b@[i as int] <= i64::MAX);
            assert(dot_prefix(a@, b@, i + 1) == dot_prefix(a@, b@, i as int)
                + a@[i as int] * b@[i as int]);
            assert(i64::MIN <= dot_prefix(a@, b@, i + 1) <= i64::MAX);
        }
        result = result + a.data[i] * b.data[i];
        i = i + 1;
    }
    Ok(result)
}

} // verus!
