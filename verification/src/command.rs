//! The matrix-product command: from a dimension and two lines of text to the
//! product, or to the reason why there is none.

use crate::error::{result_view, EngiMathError, InputFault};
use crate::kernel::{
    calculate_matrix_vector_product, computes, is_product, lemma_product_is_determined, product,
};
use crate::numeral::is_numeral;
use crate::parser::{
    all_numbers, is_no_number_at, is_parse_result, lemma_count_mismatch_is_reported,
    lemma_invalid_number_is_reported, lemma_parse_result_is_determined,
    lemma_parse_result_of_borrowed, lemma_valid_text_is_accepted, parse_input_vector,
    parsed_text, reads_as,
};
use crate::text::tokens;
use vstd::prelude::*;

verus! {

/// What the command yields: the vector as it was read, and its product with
/// the matrix.
#[derive(Debug, PartialEq)]
pub struct MatrixProduct<T> {
    /// The dimension of the square matrix.
    pub dim: usize,
    /// The vector, as read from its text.
    pub input: Vec<T>,
    /// The matrix times the vector.
    pub output: Vec<T>,
}

/// What a `MatrixProduct` holds, as mathematical values.
pub struct MatrixProductView<T> {
    /// The dimension of the square matrix.
    pub dim: usize,
    /// The vector, as read from its text.
    pub input: Seq<T>,
    /// The matrix times the vector.
    pub output: Seq<T>,
}

impl<T> View for MatrixProduct<T> {
    type V = MatrixProductView<T>;

    open spec fn view(&self) -> MatrixProductView<T> {
        MatrixProductView { dim: self.dim, input: self.input@, output: self.output@ }
    }
}

/// An outcome of the command with what its `Ok` holds taken as mathematical
/// values.
pub open spec fn outcome_view<T>(r: Result<MatrixProduct<T>, EngiMathError>) -> Result<
    MatrixProductView<T>,
    EngiMathError,
> {
    match r {
        Ok(found) => Ok(found@),
        Err(e) => Err(e),
    }
}

/// What is wrong with a dimension, if anything: it must be greater than
/// zero, and its square must be a count that a text can hold.
pub open spec fn dimension_fault(dim: usize) -> Option<InputFault> {
    if dim == 0 {
        Some(InputFault::ZeroDimension)
    } else if dim * dim > usize::MAX {
        Some(InputFault::DimensionTooLarge)
    } else {
        None
    }
}

/// Whether `r` may come of reading the vector and multiplying the matrix
/// `m` with it: the failure to read the vector, or else the product.
pub open spec fn is_product_with_read<
    T,
    P: Fn(&str) -> Option<T>,
    M: Fn(T, T) -> T,
    A: Fn(T, T) -> T,
>(
    dim: usize,
    m: Seq<T>,
    vector: Seq<char>,
    parse: P,
    zero: T,
    times: M,
    plus: A,
    r: Result<MatrixProduct<T>, EngiMathError>,
) -> bool {
    exists|read_vector: Result<Seq<T>, EngiMathError>|
        #[trigger] is_parse_result(parse, vector, dim, read_vector) && match read_vector {
            Err(e) => r == Err::<MatrixProduct<T>, EngiMathError>(e),
            Ok(v) => {
                &&& r is Ok
                &&& r->Ok_0.dim == dim
                &&& r->Ok_0.input@ == v
                &&& r->Ok_0.output@.len() == dim
                &&& is_product(times, plus, zero, m, v, r->Ok_0.output@)
            },
        }
}

/// Whether `r` may be the outcome of the command. The dimension is judged
/// first, before either text is looked at; then the matrix is read, then the
/// vector, and only when both hold the right count of numbers is anything
/// computed.
pub open spec fn is_matrix_product<
    T,
    P: Fn(&str) -> Option<T>,
    M: Fn(T, T) -> T,
    A: Fn(T, T) -> T,
>(
    dim: usize,
    matrix: Seq<char>,
    vector: Seq<char>,
    parse: P,
    zero: T,
    times: M,
    plus: A,
    r: Result<MatrixProduct<T>, EngiMathError>,
) -> bool {
    match dimension_fault(dim) {
        Some(fault) => r == Err::<MatrixProduct<T>, EngiMathError>(
            EngiMathError::InvalidInput(fault),
        ),
        None => exists|read_matrix: Result<Seq<T>, EngiMathError>|
            #[trigger] is_parse_result(parse, matrix, (dim * dim) as usize, read_matrix)
                && match read_matrix {
                Err(e) => r == Err::<MatrixProduct<T>, EngiMathError>(e),
                Ok(m) => is_product_with_read(dim, m, vector, parse, zero, times, plus, r),
            },
    }
}

/// What the command gives, where `read` says what each element reads as and
/// `times` and `plus` say what the operations compute: the reason of the
/// first failure, or else the vector that was read and its product with the
/// matrix.
pub open spec fn matrix_product_of<T>(
    dim: usize,
    matrix: Seq<char>,
    vector: Seq<char>,
    read: spec_fn(Seq<char>) -> Option<T>,
    zero: T,
    times: spec_fn(T, T) -> T,
    plus: spec_fn(T, T) -> T,
) -> Result<MatrixProductView<T>, EngiMathError> {
    match dimension_fault(dim) {
        Some(fault) => Err(EngiMathError::InvalidInput(fault)),
        None => match parsed_text(read, matrix, (dim * dim) as usize) {
            Err(e) => Err(e),
            Ok(m) => match parsed_text(read, vector, dim) {
                Err(e) => Err(e),
                Ok(v) => Ok(
                    (MatrixProductView {
                        dim,
                        input: v,
                        output: product(times, plus, zero, m, v),
                    }),
                ),
            },
        },
    }
}

/// What was read of the matrix in an outcome of the command, for a
/// dimension without fault.
proof fn lemma_matrix_was_read<
    T,
    P: Fn(&str) -> Option<T>,
    M: Fn(T, T) -> T,
    A: Fn(T, T) -> T,
>(
    dim: usize,
    matrix: Seq<char>,
    vector: Seq<char>,
    parse: P,
    zero: T,
    times: M,
    plus: A,
    r: Result<MatrixProduct<T>, EngiMathError>,
) -> (read_matrix: Result<Seq<T>, EngiMathError>)
    requires
        dimension_fault(dim) is None,
        is_matrix_product(dim, matrix, vector, parse, zero, times, plus, r),
    ensures
        is_parse_result(parse, matrix, (dim * dim) as usize, read_matrix),
        match read_matrix {
            Err(e) => r == Err::<MatrixProduct<T>, EngiMathError>(e),
            Ok(m) => is_product_with_read(dim, m, vector, parse, zero, times, plus, r),
        },
{
    choose|read_matrix: Result<Seq<T>, EngiMathError>|
        #[trigger] is_parse_result(parse, matrix, (dim * dim) as usize, read_matrix)
            && match read_matrix {
            Err(e) => r == Err::<MatrixProduct<T>, EngiMathError>(e),
            Ok(m) => is_product_with_read(dim, m, vector, parse, zero, times, plus, r),
        }
}

/// What was read of the vector in an outcome of the command, once the
/// matrix `m` was read.
proof fn lemma_vector_was_read<T, P: Fn(&str) -> Option<T>, M: Fn(T, T) -> T, A: Fn(T, T) -> T>(
    dim: usize,
    m: Seq<T>,
    vector: Seq<char>,
    parse: P,
    zero: T,
    times: M,
    plus: A,
    r: Result<MatrixProduct<T>, EngiMathError>,
) -> (read_vector: Result<Seq<T>, EngiMathError>)
    requires
        is_product_with_read(dim, m, vector, parse, zero, times, plus, r),
    ensures
        is_parse_result(parse, vector, dim, read_vector),
        match read_vector {
            Err(e) => r == Err::<MatrixProduct<T>, EngiMathError>(e),
            Ok(v) => {
                &&& r is Ok
                &&& r->Ok_0.dim == dim
                &&& r->Ok_0.input@ == v
                &&& r->Ok_0.output@.len() == dim
                &&& is_product(times, plus, zero, m, v, r->Ok_0.output@)
            },
        },
{
    choose|read_vector: Result<Seq<T>, EngiMathError>|
        #[trigger] is_parse_result(parse, vector, dim, read_vector) && match read_vector {
            Err(e) => r == Err::<MatrixProduct<T>, EngiMathError>(e),
            Ok(v) => {
                &&& r is Ok
                &&& r->Ok_0.dim == dim
                &&& r->Ok_0.input@ == v
                &&& r->Ok_0.output@.len() == dim
                &&& is_product(times, plus, zero, m, v, r->Ok_0.output@)
            },
        }
}

/// With a function that reads each element as `read` says, and operations
/// that compute `times` and `plus`, the outcome of the command is the one
/// that the three formulas give.
pub proof fn lemma_matrix_product_is_determined<
    T,
    P: Fn(&str) -> Option<T>,
    M: Fn(T, T) -> T,
    A: Fn(T, T) -> T,
>(
    dim: usize,
    matrix: Seq<char>,
    vector: Seq<char>,
    parse: P,
    zero: T,
    times_op: M,
    plus_op: A,
    read: spec_fn(Seq<char>) -> Option<T>,
    times: spec_fn(T, T) -> T,
    plus: spec_fn(T, T) -> T,
    r: Result<MatrixProduct<T>, EngiMathError>,
)
    requires
        reads_as(parse, read),
        computes(times_op, times),
        computes(plus_op, plus),
        is_matrix_product(dim, matrix, vector, parse, zero, times_op, plus_op, r),
    ensures
        outcome_view(r) == matrix_product_of(dim, matrix, vector, read, zero, times, plus),
{
    if dimension_fault(dim) is None {
        let read_matrix = lemma_matrix_was_read(
            dim,
            matrix,
            vector,
            parse,
            zero,
            times_op,
            plus_op,
            r,
        );
        lemma_parse_result_is_determined(parse, read, matrix, (dim * dim) as usize, read_matrix);
        if read_matrix is Ok {
            let read_vector = lemma_vector_was_read(
                dim,
                read_matrix->Ok_0,
                vector,
                parse,
                zero,
                times_op,
                plus_op,
                r,
            );
            lemma_parse_result_is_determined(parse, read, vector, dim, read_vector);
            if read_vector is Ok {
                lemma_product_is_determined(
                    times_op,
                    plus_op,
                    times,
                    plus,
                    zero,
                    read_matrix->Ok_0,
                    read_vector->Ok_0,
                    r->Ok_0.output@,
                );
            }
        }
    }
}

/// For a dimension greater than zero, a matrix text of `dim * dim` numbers
/// and a vector text of `dim` numbers, the command succeeds and its output
/// has `dim` components. The square of the dimension has to be a count that
/// fits the machine.
pub proof fn lemma_valid_input_gives_dim_components<
    T,
    P: Fn(&str) -> Option<T>,
    M: Fn(T, T) -> T,
    A: Fn(T, T) -> T,
>(
    dim: usize,
    matrix: Seq<char>,
    vector: Seq<char>,
    parse: P,
    zero: T,
    times: M,
    plus: A,
    r: Result<MatrixProduct<T>, EngiMathError>,
)
    requires
        dim > 0,
        dim * dim <= usize::MAX,
        tokens(matrix).len() == dim * dim,
        tokens(vector).len() == dim,
        all_numbers(parse, matrix),
        all_numbers(parse, vector),
        is_matrix_product(dim, matrix, vector, parse, zero, times, plus, r),
    ensures
        r is Ok,
        r->Ok_0.output@.len() == dim,
{
    let read_matrix = lemma_matrix_was_read(dim, matrix, vector, parse, zero, times, plus, r);
    lemma_valid_text_is_accepted(parse, matrix, (dim * dim) as usize, read_matrix);
    let read_vector = lemma_vector_was_read(
        dim,
        read_matrix->Ok_0,
        vector,
        parse,
        zero,
        times,
        plus,
        r,
    );
    lemma_valid_text_is_accepted(parse, vector, dim, read_vector);
}

/// A matrix text of numbers, but fewer or more of them than the square of
/// the dimension, fails with `InvalidInput`, and the report carries the
/// count that was called for and the count that was found.
pub proof fn lemma_wrong_matrix_count_is_reported<
    T,
    P: Fn(&str) -> Option<T>,
    M: Fn(T, T) -> T,
    A: Fn(T, T) -> T,
>(
    dim: usize,
    matrix: Seq<char>,
    vector: Seq<char>,
    parse: P,
    zero: T,
    times: M,
    plus: A,
    r: Result<MatrixProduct<T>, EngiMathError>,
)
    requires
        dimension_fault(dim) is None,
        all_numbers(parse, matrix),
        tokens(matrix).len() != dim * dim,
        tokens(matrix).len() <= usize::MAX,
        is_matrix_product(dim, matrix, vector, parse, zero, times, plus, r),
    ensures
        r == Err::<MatrixProduct<T>, EngiMathError>(
            EngiMathError::InvalidInput(
                InputFault::CountMismatch {
                    expected: (dim * dim) as usize,
                    actual: tokens(matrix).len() as usize,
                },
            ),
        ),
{
    let read_matrix = lemma_matrix_was_read(dim, matrix, vector, parse, zero, times, plus, r);
    lemma_count_mismatch_is_reported(parse, matrix, (dim * dim) as usize, read_matrix);
}

/// A matrix text with an element that is no number fails with
/// `InvalidInput`.
pub proof fn lemma_non_numeric_matrix_is_refused<
    T,
    P: Fn(&str) -> Option<T>,
    M: Fn(T, T) -> T,
    A: Fn(T, T) -> T,
>(
    dim: usize,
    matrix: Seq<char>,
    vector: Seq<char>,
    parse: P,
    zero: T,
    times: M,
    plus: A,
    r: Result<MatrixProduct<T>, EngiMathError>,
    i: int,
)
    requires
        dimension_fault(dim) is None,
        0 <= i < tokens(matrix).len(),
        is_no_number_at(parse, matrix, i),
        is_matrix_product(dim, matrix, vector, parse, zero, times, plus, r),
    ensures
        r == Err::<MatrixProduct<T>, EngiMathError>(
            EngiMathError::InvalidInput(InputFault::InvalidNumber),
        ),
{
    let read_matrix = lemma_matrix_was_read(dim, matrix, vector, parse, zero, times, plus, r);
    lemma_invalid_number_is_reported(parse, matrix, (dim * dim) as usize, read_matrix, i);
}

/// A vector text with an element that is no number fails with
/// `InvalidInput`, when the matrix text is in order.
pub proof fn lemma_non_numeric_vector_is_refused<
    T,
    P: Fn(&str) -> Option<T>,
    M: Fn(T, T) -> T,
    A: Fn(T, T) -> T,
>(
    dim: usize,
    matrix: Seq<char>,
    vector: Seq<char>,
    parse: P,
    zero: T,
    times: M,
    plus: A,
    r: Result<MatrixProduct<T>, EngiMathError>,
    i: int,
)
    requires
        dimension_fault(dim) is None,
        all_numbers(parse, matrix),
        tokens(matrix).len() == dim * dim,
        0 <= i < tokens(vector).len(),
        is_no_number_at(parse, vector, i),
        is_matrix_product(dim, matrix, vector, parse, zero, times, plus, r),
    ensures
        r == Err::<MatrixProduct<T>, EngiMathError>(
            EngiMathError::InvalidInput(InputFault::InvalidNumber),
        ),
{
    let read_matrix = lemma_matrix_was_read(dim, matrix, vector, parse, zero, times, plus, r);
    lemma_valid_text_is_accepted(parse, matrix, (dim * dim) as usize, read_matrix);
    let read_vector = lemma_vector_was_read(
        dim,
        read_matrix->Ok_0,
        vector,
        parse,
        zero,
        times,
        plus,
        r,
    );
    lemma_invalid_number_is_reported(parse, vector, dim, read_vector, i);
}

/// The command never fails in the kernel: what it hands to the kernel has
/// the right lengths, so every failure of the command is an `InvalidInput`.
pub proof fn lemma_command_fails_on_invalid_input_only<
    T,
    P: Fn(&str) -> Option<T>,
    M: Fn(T, T) -> T,
    A: Fn(T, T) -> T,
>(
    dim: usize,
    matrix: Seq<char>,
    vector: Seq<char>,
    parse: P,
    zero: T,
    times: M,
    plus: A,
    r: Result<MatrixProduct<T>, EngiMathError>,
)
    requires
        is_matrix_product(dim, matrix, vector, parse, zero, times, plus, r),
    ensures
        r is Err ==> r->Err_0 is InvalidInput,
{
    if dimension_fault(dim) is None {
        let read_matrix = lemma_matrix_was_read(dim, matrix, vector, parse, zero, times, plus, r);
        if read_matrix is Ok {
            let read_vector = lemma_vector_was_read(
                dim,
                read_matrix->Ok_0,
                vector,
                parse,
                zero,
                times,
                plus,
                r,
            );
        }
    }
}

/// Judges a dimension and gives the count of elements that its matrix
/// holds.
pub fn check_dimension(dim: usize) -> (r: Result<usize, EngiMathError>)
    ensures
        match r {
            Ok(square) => dimension_fault(dim) is None && square == dim * dim,
            Err(e) => dimension_fault(dim) is Some && e == EngiMathError::InvalidInput(
                dimension_fault(dim)->0,
            ),
        },
{
    if dim == 0 {
        return Err(EngiMathError::InvalidInput(InputFault::ZeroDimension));
    }
    match dim.checked_mul(dim) {
        Some(square) => Ok(square),
        None => Err(EngiMathError::InvalidInput(InputFault::DimensionTooLarge)),
    }
}

/// Reads a square matrix of dimension `dim` and a vector from their texts
/// and multiplies them. A dimension of zero fails with `InvalidInput` before
/// either text is read.
pub fn matrix_product<T: Copy, P: Fn(&str) -> Option<T>, M: Fn(T, T) -> T, A: Fn(T, T) -> T>(
    dim: usize,
    matrix: &str,
    vector: &str,
    parse: P,
    zero: T,
    times: M,
    plus: A,
) -> (r: Result<MatrixProduct<T>, EngiMathError>)
    requires
        dimension_fault(dim) is None ==> forall|t: &str| is_numeral(t@) ==> parse.requires((t,)),
        dimension_fault(dim) is None ==> forall|a: T, b: T| times.requires((a, b)),
        dimension_fault(dim) is None ==> forall|a: T, b: T| plus.requires((a, b)),
    ensures
        is_matrix_product(dim, matrix@, vector@, parse, zero, times, plus, r),
        forall|
            read: spec_fn(Seq<char>) -> Option<T>,
            f: spec_fn(T, T) -> T,
            g: spec_fn(T, T) -> T,
        |
            #![trigger reads_as(parse, read), computes(times, f), computes(plus, g)]
            reads_as(parse, read) && computes(times, f) && computes(plus, g) ==> outcome_view(r)
                == matrix_product_of(dim, matrix@, vector@, read, zero, f, g),
        dim == 0 ==> r == Err::<MatrixProduct<T>, EngiMathError>(
            EngiMathError::InvalidInput(InputFault::ZeroDimension),
        ),
        r is Ok ==> r->Ok_0.output@.len() == dim,
        r is Err ==> r->Err_0 is InvalidInput,
{
    let r = match check_dimension(dim) {
        Err(e) => Err(e),
        Ok(square) => {
            let read_matrix = parse_input_vector(matrix, square, &parse);
            proof {
                lemma_parse_result_of_borrowed(parse, matrix@, square, result_view(read_matrix));
            }
            match read_matrix {
                Err(e) => Err(e),
                Ok(matrix_flat) => {
                    let read_vector = parse_input_vector(vector, dim, &parse);
                    proof {
                        lemma_parse_result_of_borrowed(
                            parse,
                            vector@,
                            dim,
                            result_view(read_vector),
                        );
                    }
                    match read_vector {
                        Err(e) => Err(e),
                        Ok(vector_in) => {
                            let product = calculate_matrix_vector_product(
                                matrix_flat.as_slice(),
                                vector_in.as_slice(),
                                dim,
                                zero,
                                times,
                                plus,
                            );
                            match product {
                                Ok(output) => Ok(MatrixProduct { dim, input: vector_in, output }),
                                Err(e) => Err(e),
                            }
                        },
                    }
                },
            }
        },
    };
    assert forall|
        read: spec_fn(Seq<char>) -> Option<T>,
        f: spec_fn(T, T) -> T,
        g: spec_fn(T, T) -> T,
    |
        #![trigger reads_as(parse, read), computes(times, f), computes(plus, g)]
        reads_as(parse, read) && computes(times, f) && computes(plus, g) implies outcome_view(r)
        == matrix_product_of(dim, matrix@, vector@, read, zero, f, g) by {
        lemma_matrix_product_is_determined(
            dim,
            matrix@,
            vector@,
            parse,
            zero,
            times,
            plus,
            read,
            f,
            g,
            r,
        );
    }
    r
}

} // verus!
