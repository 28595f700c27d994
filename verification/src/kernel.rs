//! The dense kernel: a square matrix times a vector.
//!
//! The matrix is stored row by row in one flat sequence. The kernel does not
//! fix the scalar type nor its arithmetic: the caller hands in the zero, the
//! multiplication and the addition, and the contracts speak of the two
//! operations through their own contracts. Each component of the result is
//! accumulated from the zero, one product after the other, from the first
//! column to the last, so that one input always gives one result.

use crate::error::{result_view, EngiMathError, ShapeFault};
use vstd::prelude::*;

verus! {

/// Row `i` of a square matrix of dimension `dim`.
pub open spec fn row<T>(matrix: Seq<T>, dim: int, i: int) -> Seq<T> {
    matrix.subrange(i * dim, (i + 1) * dim)
}

/// Whether `acc` may come out when the first `n` products of `xs` and `ys`,
/// taken element by element, are added to `zero` from left to right.
pub open spec fn is_partial_dot<T, M: Fn(T, T) -> T, A: Fn(T, T) -> T>(
    times: M,
    plus: A,
    zero: T,
    xs: Seq<T>,
    ys: Seq<T>,
    n: int,
    acc: T,
) -> bool
    decreases n,
{
    if n <= 0 {
        acc == zero
    } else {
        exists|before: T, product: T|
            {
                &&& is_partial_dot(times, plus, zero, xs, ys, n - 1, before)
                &&& times.ensures((xs[n - 1], ys[n - 1]), product)
                &&& #[trigger] plus.ensures((before, product), acc)
            }
    }
}

/// Whether `out` may come out as the sum of the products of `xs` and `ys`.
pub open spec fn is_dot<T, M: Fn(T, T) -> T, A: Fn(T, T) -> T>(
    times: M,
    plus: A,
    zero: T,
    xs: Seq<T>,
    ys: Seq<T>,
    out: T,
) -> bool {
    xs.len() == ys.len() && is_partial_dot(times, plus, zero, xs, ys, xs.len() as int, out)
}

/// Whether `out` may come out as the product of the square `matrix` with
/// `vector`: component `i` is the sum over `j` of `matrix[i * dim + j]`
/// times `vector[j]`, where `dim` is the length of the vector.
pub open spec fn is_product<T, M: Fn(T, T) -> T, A: Fn(T, T) -> T>(
    times: M,
    plus: A,
    zero: T,
    matrix: Seq<T>,
    vector: Seq<T>,
    out: Seq<T>,
) -> bool {
    let dim = vector.len() as int;
    &&& matrix.len() == dim * dim
    &&& out.len() == dim
    &&& forall|i: int|
        0 <= i < dim ==> is_dot(times, plus, zero, row(matrix, dim, i), vector, #[trigger] out[i])
}

/// Whether `formula` says what `f` returns: `f(a, b)` is `formula(a, b)`.
pub open spec fn computes<T, F: Fn(T, T) -> T>(f: F, formula: spec_fn(T, T) -> T) -> bool {
    forall|a: T, b: T, r: T| #[trigger] f.ensures((a, b), r) ==> r == formula(a, b)
}

/// The first `n` products of `xs` and `ys`, taken element by element, added
/// to `zero` from left to right.
pub open spec fn partial_dot<T>(
    times: spec_fn(T, T) -> T,
    plus: spec_fn(T, T) -> T,
    zero: T,
    xs: Seq<T>,
    ys: Seq<T>,
    n: int,
) -> T
    decreases n,
{
    if n <= 0 {
        zero
    } else {
        plus(partial_dot(times, plus, zero, xs, ys, n - 1), times(xs[n - 1], ys[n - 1]))
    }
}

/// The sum of the products of `xs` and `ys`.
pub open spec fn dot<T>(
    times: spec_fn(T, T) -> T,
    plus: spec_fn(T, T) -> T,
    zero: T,
    xs: Seq<T>,
    ys: Seq<T>,
) -> T {
    partial_dot(times, plus, zero, xs, ys, xs.len() as int)
}

/// The product of the square `matrix` with `vector`: component `i` is the
/// sum over `j` of `matrix[i * dim + j]` times `vector[j]`, where `dim` is
/// the length of the vector.
pub open spec fn product<T>(
    times: spec_fn(T, T) -> T,
    plus: spec_fn(T, T) -> T,
    zero: T,
    matrix: Seq<T>,
    vector: Seq<T>,
) -> Seq<T> {
    Seq::new(
        vector.len(),
        |i: int| dot(times, plus, zero, row(matrix, vector.len() as int, i), vector),
    )
}

/// What is wrong with the lengths of the operands for dimension `dim`, if
/// anything. The matrix is looked at first.
pub open spec fn shape_fault(matrix_len: usize, vector_len: usize, dim: usize) -> Option<
    ShapeFault,
> {
    if matrix_len != dim * dim {
        Some(ShapeFault::MatrixLength { dim, actual: matrix_len })
    } else if vector_len != dim {
        Some(ShapeFault::VectorLength { dim, actual: vector_len })
    } else {
        None
    }
}

/// What the kernel gives for dimension `dim`, where `times` and `plus` say
/// what the operations compute: the fault of the lengths, or else the
/// product.
pub open spec fn product_or_fault<T>(
    times: spec_fn(T, T) -> T,
    plus: spec_fn(T, T) -> T,
    zero: T,
    matrix: Seq<T>,
    vector: Seq<T>,
    dim: usize,
) -> Result<Seq<T>, EngiMathError> {
    match shape_fault(matrix.len() as usize, vector.len() as usize, dim) {
        Some(fault) => Err(EngiMathError::CalculationFailed(fault)),
        None => Ok(product(times, plus, zero, matrix, vector)),
    }
}

/// Entry `j` of row `i` lies inside the matrix.
pub proof fn lemma_entry_in_bounds(dim: int, i: int, j: int)
    requires
        0 <= i < dim,
        0 <= j < dim,
    ensures
        0 <= i * dim,
        (i + 1) * dim == i * dim + dim,
        i * dim + j < (i + 1) * dim,
        (i + 1) * dim <= dim * dim,
{
    assert(0 <= i * dim) by (nonlinear_arith)
        requires
            0 <= i,
            0 <= dim,
    ;
    assert((i + 1) * dim == i * dim + dim) by (nonlinear_arith);
    assert((i + 1) * dim <= dim * dim) by (nonlinear_arith)
        requires
            0 <= i + 1 <= dim,
    ;
}

/// Whether `f` returns one result for one pair of arguments.
pub open spec fn is_deterministic<T, F: Fn(T, T) -> T>(f: F) -> bool {
    forall|a: T, b: T, r1: T, r2: T|
        #[trigger] f.ensures((a, b), r1) && #[trigger] f.ensures((a, b), r2) ==> r1 == r2
}

/// Whether `unit` is a left unit of `f` at `x`: `f(unit, x)` is `x`.
pub open spec fn is_left_unit_at<T, F: Fn(T, T) -> T>(f: F, unit: T, x: T) -> bool {
    forall|r: T| #[trigger] f.ensures((unit, x), r) ==> r == x
}

/// Whether adding the product of `a` and `b` to `sum` leaves `sum` as it is.
pub open spec fn product_is_absorbed<T, M: Fn(T, T) -> T, A: Fn(T, T) -> T>(
    times: M,
    plus: A,
    a: T,
    b: T,
    sum: T,
) -> bool {
    forall|product: T, r: T|
        times.ensures((a, b), product) && #[trigger] plus.ensures((sum, product), r) ==> r == sum
}

/// Whether `matrix` is the identity of dimension `dim`: `one` on the
/// diagonal and `zero` elsewhere.
pub open spec fn is_identity<T>(matrix: Seq<T>, dim: int, zero: T, one: T) -> bool {
    &&& matrix.len() == dim * dim
    &&& forall|i: int, j: int|
        0 <= i < dim && 0 <= j < dim ==> #[trigger] row(matrix, dim, i)[j] == (if i == j {
            one
        } else {
            zero
        })
}

/// With operations that return one result for one pair of arguments, a sum
/// of products has one value.
pub proof fn lemma_partial_dot_is_unique<T, M: Fn(T, T) -> T, A: Fn(T, T) -> T>(
    times: M,
    plus: A,
    zero: T,
    xs: Seq<T>,
    ys: Seq<T>,
    n: int,
    acc1: T,
    acc2: T,
)
    requires
        is_deterministic(times),
        is_deterministic(plus),
        is_partial_dot(times, plus, zero, xs, ys, n, acc1),
        is_partial_dot(times, plus, zero, xs, ys, n, acc2),
    ensures
        acc1 == acc2,
    decreases n,
{
    if n > 0 {
        let (before1, product1) = choose|before: T, product: T|
            {
                &&& is_partial_dot(times, plus, zero, xs, ys, n - 1, before)
                &&& times.ensures((xs[n - 1], ys[n - 1]), product)
                &&& #[trigger] plus.ensures((before, product), acc1)
            };
        let (before2, product2) = choose|before: T, product: T|
            {
                &&& is_partial_dot(times, plus, zero, xs, ys, n - 1, before)
                &&& times.ensures((xs[n - 1], ys[n - 1]), product)
                &&& #[trigger] plus.ensures((before, product), acc2)
            };
        lemma_partial_dot_is_unique(times, plus, zero, xs, ys, n - 1, before1, before2);
    }
}

/// The kernel is deterministic: with operations that return one result for
/// one pair of arguments, a matrix and a vector have one product.
pub proof fn lemma_product_is_unique<T, M: Fn(T, T) -> T, A: Fn(T, T) -> T>(
    times: M,
    plus: A,
    zero: T,
    matrix: Seq<T>,
    vector: Seq<T>,
    out1: Seq<T>,
    out2: Seq<T>,
)
    requires
        is_deterministic(times),
        is_deterministic(plus),
        is_product(times, plus, zero, matrix, vector, out1),
        is_product(times, plus, zero, matrix, vector, out2),
    ensures
        out1 == out2,
{
    let dim = vector.len() as int;
    assert forall|i: int| 0 <= i < dim implies out1[i] == out2[i] by {
        lemma_partial_dot_is_unique(
            times,
            plus,
            zero,
            row(matrix, dim, i),
            vector,
            dim,
            out1[i],
            out2[i],
        );
    }
}

/// With operations that compute `times` and `plus`, a sum of products is
/// the one that the two formulas give.
pub proof fn lemma_partial_dot_is_determined<T, M: Fn(T, T) -> T, A: Fn(T, T) -> T>(
    times_op: M,
    plus_op: A,
    times: spec_fn(T, T) -> T,
    plus: spec_fn(T, T) -> T,
    zero: T,
    xs: Seq<T>,
    ys: Seq<T>,
    n: int,
    acc: T,
)
    requires
        computes(times_op, times),
        computes(plus_op, plus),
        is_partial_dot(times_op, plus_op, zero, xs, ys, n, acc),
    ensures
        acc == partial_dot(times, plus, zero, xs, ys, n),
    decreases n,
{
    if n > 0 {
        let (before, product) = choose|before: T, product: T|
            {
                &&& is_partial_dot(times_op, plus_op, zero, xs, ys, n - 1, before)
                &&& times_op.ensures((xs[n - 1], ys[n - 1]), product)
                &&& #[trigger] plus_op.ensures((before, product), acc)
            };
        lemma_partial_dot_is_determined(
            times_op,
            plus_op,
            times,
            plus,
            zero,
            xs,
            ys,
            n - 1,
            before,
        );
    }
}

/// With operations that compute `times` and `plus`, what the kernel returns
/// is the product that the two formulas give.
pub proof fn lemma_product_is_determined<T, M: Fn(T, T) -> T, A: Fn(T, T) -> T>(
    times_op: M,
    plus_op: A,
    times: spec_fn(T, T) -> T,
    plus: spec_fn(T, T) -> T,
    zero: T,
    matrix: Seq<T>,
    vector: Seq<T>,
    out: Seq<T>,
)
    requires
        computes(times_op, times),
        computes(plus_op, plus),
        is_product(times_op, plus_op, zero, matrix, vector, out),
    ensures
        out == product(times, plus, zero, matrix, vector),
{
    let dim = vector.len() as int;
    let formula = product(times, plus, zero, matrix, vector);
    assert forall|i: int| 0 <= i < dim implies out[i] == formula[i] by {
        lemma_partial_dot_is_determined(
            times_op,
            plus_op,
            times,
            plus,
            zero,
            row(matrix, dim, i),
            vector,
            dim,
            out[i],
        );
    }
}

/// A sum of products along row `i` of the identity: `zero` up to the
/// diagonal, `vector[i]` from the diagonal on.
proof fn lemma_identity_row<T, M: Fn(T, T) -> T, A: Fn(T, T) -> T>(
    times: M,
    plus: A,
    zero: T,
    one: T,
    xs: Seq<T>,
    vector: Seq<T>,
    i: int,
    n: int,
    acc: T,
)
    requires
        0 <= i < vector.len(),
        0 <= n <= vector.len(),
        xs.len() == vector.len(),
        forall|j: int| 0 <= j < xs.len() ==> xs[j] == (if i == j {
            one
        } else {
            zero
        }),
        is_left_unit_at(times, one, vector[i]),
        is_left_unit_at(plus, zero, vector[i]),
        forall|j: int|
            0 <= j < vector.len() && j != i ==> {
                &&& product_is_absorbed(times, plus, zero, #[trigger] vector[j], zero)
                &&& product_is_absorbed(times, plus, zero, vector[j], vector[i])
            },
        is_partial_dot(times, plus, zero, xs, vector, n, acc),
    ensures
        acc == (if n <= i {
            zero
        } else {
            vector[i]
        }),
    decreases n,
{
    if n > 0 {
        let (before, product) = choose|before: T, product: T|
            {
                &&& is_partial_dot(times, plus, zero, xs, vector, n - 1, before)
                &&& times.ensures((xs[n - 1], vector[n - 1]), product)
                &&& #[trigger] plus.ensures((before, product), acc)
            };
        lemma_identity_row(times, plus, zero, one, xs, vector, i, n - 1, before);
        if n - 1 == i {
            // on the diagonal: `one` times the component, added to `zero`
            assert(product == vector[i]);
        } else {
            // off the diagonal: a product with `zero`, which is absorbed
            assert(product_is_absorbed(times, plus, zero, vector[n - 1], before));
        }
    }
}

/// The identity matrix times a vector is that vector, for every vector on
/// whose components the operations behave as in a ring: `one` times a
/// component is that component, `zero` plus a component is that component,
/// and adding `zero` times a component to `zero` or to another component
/// changes nothing. Where the scalar has values on which they do not (a
/// product with `zero` that is not absorbed, a `zero` with a sign), the law
/// holds of the vectors without such values.
pub proof fn lemma_identity_product<T, M: Fn(T, T) -> T, A: Fn(T, T) -> T>(
    times: M,
    plus: A,
    zero: T,
    one: T,
    matrix: Seq<T>,
    vector: Seq<T>,
    out: Seq<T>,
)
    requires
        is_identity(matrix, vector.len() as int, zero, one),
        is_product(times, plus, zero, matrix, vector, out),
        forall|i: int|
            0 <= i < vector.len() ==> {
                &&& is_left_unit_at(times, one, #[trigger] vector[i])
                &&& is_left_unit_at(plus, zero, vector[i])
            },
        forall|i: int, j: int|
            0 <= i < vector.len() && 0 <= j < vector.len() && i != j ==> {
                &&& product_is_absorbed(times, plus, zero, #[trigger] vector[j], zero)
                &&& product_is_absorbed(times, plus, zero, vector[j], #[trigger] vector[i])
            },
    ensures
        out == vector,
{
    let dim = vector.len() as int;
    assert forall|i: int| 0 <= i < dim implies out[i] == vector[i] by {
        let xs = row(matrix, dim, i);
        lemma_entry_in_bounds(dim, i, 0);
        lemma_identity_row(times, plus, zero, one, xs, vector, i, dim, out[i]);
    }
}

/// A sum of products with a vector of zeros stays `zero`.
proof fn lemma_zero_row<T, M: Fn(T, T) -> T, A: Fn(T, T) -> T>(
    times: M,
    plus: A,
    zero: T,
    xs: Seq<T>,
    vector: Seq<T>,
    n: int,
    acc: T,
)
    requires
        0 <= n <= vector.len(),
        xs.len() == vector.len(),
        forall|j: int| 0 <= j < vector.len() ==> vector[j] == zero,
        forall|j: int|
            0 <= j < xs.len() ==> product_is_absorbed(times, plus, #[trigger] xs[j], zero, zero),
        is_partial_dot(times, plus, zero, xs, vector, n, acc),
    ensures
        acc == zero,
    decreases n,
{
    if n > 0 {
        let (before, product) = choose|before: T, product: T|
            {
                &&& is_partial_dot(times, plus, zero, xs, vector, n - 1, before)
                &&& times.ensures((xs[n - 1], vector[n - 1]), product)
                &&& #[trigger] plus.ensures((before, product), acc)
            };
        lemma_zero_row(times, plus, zero, xs, vector, n - 1, before);
    }
}

/// A matrix times the zero vector is the zero vector, for every matrix of
/// whose entries the product with `zero`, added to `zero`, gives `zero`.
/// Where the scalar has values whose product with `zero` is not absorbed,
/// the law holds of the matrices without such values.
pub proof fn lemma_zero_vector_product<T, M: Fn(T, T) -> T, A: Fn(T, T) -> T>(
    times: M,
    plus: A,
    zero: T,
    matrix: Seq<T>,
    vector: Seq<T>,
    out: Seq<T>,
)
    requires
        forall|j: int| 0 <= j < vector.len() ==> vector[j] == zero,
        is_product(times, plus, zero, matrix, vector, out),
        forall|k: int|
            0 <= k < matrix.len() ==> product_is_absorbed(
                times,
                plus,
                #[trigger] matrix[k],
                zero,
                zero,
            ),
    ensures
        out == vector,
{
    let dim = vector.len() as int;
    assert forall|i: int| 0 <= i < dim implies out[i] == vector[i] by {
        let xs = row(matrix, dim, i);
        lemma_entry_in_bounds(dim, i, 0);
        lemma_zero_row(times, plus, zero, xs, vector, dim, out[i]);
    }
}

/// Checks the lengths of the operands against the dimension.
pub fn check_shape(matrix_len: usize, vector_len: usize, dim: usize) -> (r: Option<ShapeFault>)
    ensures
        r == shape_fault(matrix_len, vector_len, dim),
{
    let square_fits = match dim.checked_mul(dim) {
        Some(square) => matrix_len == square,
        None => false,
    };
    if !square_fits {
        Some(ShapeFault::MatrixLength { dim, actual: matrix_len })
    } else if vector_len != dim {
        Some(ShapeFault::VectorLength { dim, actual: vector_len })
    } else {
        None
    }
}

/// The sum of the products of row `i` of `matrix` with `vector`.
fn dot_row<T: Copy, M: Fn(T, T) -> T, A: Fn(T, T) -> T>(
    matrix: &[T],
    vector: &[T],
    i: usize,
    zero: T,
    times: &M,
    plus: &A,
) -> (acc: T)
    requires
        i < vector@.len(),
        matrix@.len() == vector@.len() * vector@.len(),
        forall|a: T, b: T| times.requires((a, b)),
        forall|a: T, b: T| plus.requires((a, b)),
    ensures
        is_dot(*times, *plus, zero, row(matrix@, vector@.len() as int, i as int), vector@, acc),
{
    let dim = vector.len();
    let ghost xs = row(matrix@, dim as int, i as int);
    proof {
        lemma_entry_in_bounds(dim as int, i as int, 0);
        assert(matrix@.len() == matrix.len());
    }
    let base: usize = i * dim;
    let mut acc: T = zero;
    let mut j: usize = 0;
    while j < dim
        invariant
            j <= dim,
            dim == vector@.len(),
            i < dim,
            base == i * dim,
            matrix@.len() == dim * dim,
            matrix@.len() <= usize::MAX,
            xs == row(matrix@, dim as int, i as int),
            forall|a: T, b: T| times.requires((a, b)),
            forall|a: T, b: T| plus.requires((a, b)),
            is_partial_dot(*times, *plus, zero, xs, vector@, j as int, acc),
        decreases dim - j,
    {
        proof {
            lemma_entry_in_bounds(dim as int, i as int, j as int);
        }
        let product = times(matrix[base + j], vector[j]);
        acc = plus(acc, product);
        j += 1;
    }
    acc
}

/// Multiplies the square `matrix` of dimension `dim`, stored row by row,
/// with `vector`. Fails with `CalculationFailed` when the matrix does not
/// hold `dim * dim` elements or the vector does not hold `dim`. The operands
/// are left as they are; the result is a new vector of `dim` components.
pub fn calculate_matrix_vector_product<T: Copy, M: Fn(T, T) -> T, A: Fn(T, T) -> T>(
    matrix: &[T],
    vector: &[T],
    dim: usize,
    zero: T,
    times: M,
    plus: A,
) -> (r: Result<Vec<T>, EngiMathError>)
    requires
        shape_fault(matrix.len(), vector.len(), dim) is None ==> forall|a: T, b: T|
            times.requires((a, b)),
        shape_fault(matrix.len(), vector.len(), dim) is None ==> forall|a: T, b: T|
            plus.requires((a, b)),
    ensures
        match r {
            Ok(out) => {
                &&& shape_fault(matrix.len(), vector.len(), dim) is None
                &&& out@.len() == dim
                &&& is_product(times, plus, zero, matrix@, vector@, out@)
            },
            Err(e) => {
                &&& shape_fault(matrix.len(), vector.len(), dim) is Some
                &&& e == EngiMathError::CalculationFailed(
                    shape_fault(matrix.len(), vector.len(), dim)->0,
                )
            },
        },
        forall|f: spec_fn(T, T) -> T, g: spec_fn(T, T) -> T|
            #![trigger computes(times, f), computes(plus, g)]
            computes(times, f) && computes(plus, g) ==> result_view(r) == product_or_fault(
                f,
                g,
                zero,
                matrix@,
                vector@,
                dim,
            ),
{
    if let Some(fault) = check_shape(matrix.len(), vector.len(), dim) {
        return Err(EngiMathError::CalculationFailed(fault));
    }
    let mut out: Vec<T> = Vec::new();
    let mut i: usize = 0;
    while i < dim
        invariant
            i <= dim,
            dim == vector@.len(),
            matrix@.len() == dim * dim,
            out@.len() == i,
            forall|a: T, b: T| times.requires((a, b)),
            forall|a: T, b: T| plus.requires((a, b)),
            forall|k: int|
                0 <= k < i ==> is_dot(
                    times,
                    plus,
                    zero,
                    row(matrix@, dim as int, k),
                    vector@,
                    #[trigger] out@[k],
                ),
        decreases dim - i,
    {
        let component = dot_row(matrix, vector, i, zero, &times, &plus);
        out.push(component);
        i += 1;
    }
    assert forall|f: spec_fn(T, T) -> T, g: spec_fn(T, T) -> T|
        #![trigger computes(times, f), computes(plus, g)]
        computes(times, f) && computes(plus, g) implies out@ == product(
        f,
        g,
        zero,
        matrix@,
        vector@,
    ) by {
        lemma_product_is_determined(times, plus, f, g, zero, matrix@, vector@, out@);
    }
    Ok(out)
}

} // verus!
