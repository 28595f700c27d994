use engi_math::{EngiMathError, InputFault, ShapeFault};

#[test]
fn message_of_an_invalid_number() {
    let e = EngiMathError::InvalidInput(InputFault::InvalidNumber);
    assert_eq!(
        e.reason(),
        "All elements must be valid floating-point numbers and separated by commas."
    );
    assert_eq!(
        e.message(),
        "Invalid input format: \
         All elements must be valid floating-point numbers and separated by commas."
    );
}

#[test]
fn message_of_a_count_mismatch_carries_both_counts() {
    let e = EngiMathError::InvalidInput(InputFault::CountMismatch { expected: 4, actual: 3 });
    assert_eq!(e.reason(), "Expected 4 elements in the input string, but found 3.");
    assert_eq!(
        e.message(),
        "Invalid input format: Expected 4 elements in the input string, but found 3."
    );
    let e = EngiMathError::InvalidInput(InputFault::CountMismatch { expected: 100, actual: 12345 });
    assert_eq!(e.reason(), "Expected 100 elements in the input string, but found 12345.");
}

#[test]
fn message_of_a_zero_dimension() {
    let e = EngiMathError::InvalidInput(InputFault::ZeroDimension);
    assert_eq!(e.reason(), "dimension must be greater than zero");
    assert_eq!(e.message(), "Invalid input format: dimension must be greater than zero");
}

#[test]
fn message_of_a_dimension_too_large() {
    let e = EngiMathError::InvalidInput(InputFault::DimensionTooLarge);
    assert_eq!(e.reason(), "dimension is too large");
    assert_eq!(e.message(), "Invalid input format: dimension is too large");
}

#[test]
fn message_of_a_matrix_of_the_wrong_length() {
    let e = EngiMathError::CalculationFailed(ShapeFault::MatrixLength { dim: 2, actual: 3 });
    assert_eq!(e.reason(), "matrix has 3 elements, but dimension 2 needs its square");
    assert_eq!(
        e.message(),
        "Calculation error: matrix has 3 elements, but dimension 2 needs its square"
    );
}

#[test]
fn message_of_a_vector_of_the_wrong_length() {
    let e = EngiMathError::CalculationFailed(ShapeFault::VectorLength { dim: 2, actual: 10 });
    assert_eq!(e.reason(), "vector has 10 elements, but dimension 2 needs as many");
    assert_eq!(
        e.message(),
        "Calculation error: vector has 10 elements, but dimension 2 needs as many"
    );
}

#[test]
fn reasons_of_the_faults_themselves() {
    assert_eq!(InputFault::ZeroDimension.reason(), "dimension must be greater than zero");
    assert_eq!(
        InputFault::CountMismatch { expected: 1, actual: 0 }.reason(),
        "Expected 1 elements in the input string, but found 0."
    );
    assert_eq!(
        ShapeFault::MatrixLength { dim: 3, actual: 8 }.reason(),
        "matrix has 8 elements, but dimension 3 needs its square"
    );
}

#[test]
fn errors_compare_by_kind_and_reason() {
    let a = EngiMathError::InvalidInput(InputFault::CountMismatch { expected: 4, actual: 3 });
    let b = EngiMathError::InvalidInput(InputFault::CountMismatch { expected: 4, actual: 5 });
    assert_eq!(a, a);
    assert_ne!(a, b);
    assert_ne!(a, EngiMathError::InvalidInput(InputFault::InvalidNumber));
}
