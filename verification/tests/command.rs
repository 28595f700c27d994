use engi_math::{
    check_dimension, matrix_product, render_report, render_vector, EngiMathError, InputFault,
    MatrixProduct,
};

fn solve(dim: usize, matrix: &str, vector: &str) -> Result<MatrixProduct<f64>, EngiMathError> {
    matrix_product(
        dim,
        matrix,
        vector,
        |token: &str| token.parse::<f64>().ok(),
        0.0,
        |a, b| a * b,
        |a, b| a + b,
    )
}

fn four_decimals(numbers: &[f64]) -> Vec<String> {
    numbers.iter().map(|x| format!("{:.4}", x)).collect()
}

#[test]
fn matrix_product_of_dimension_two() {
    let product = solve(2, "2,0,0,3", "4,5").unwrap();
    assert_eq!(product.dim, 2);
    assert_eq!(product.input, vec![4.0, 5.0]);
    assert_eq!(product.output, vec![8.0, 15.0]);
    assert_eq!(render_vector(&four_decimals(&product.output)), "[8.0000, 15.0000]");
}

#[test]
fn matrix_product_of_dimension_one() {
    let product = solve(1, "5", "3").unwrap();
    assert_eq!(product, MatrixProduct { dim: 1, input: vec![3.0], output: vec![15.0] });
    assert_eq!(render_vector(&four_decimals(&product.output)), "[15.0000]");
}

#[test]
fn matrix_product_trims_white_space() {
    let product = solve(2, " 1 , 2 ,\t3 , 4 ", " 0.5 ,\n-1 ").unwrap();
    assert_eq!(product.output, vec![-1.5, -2.5]);
}

#[test]
fn matrix_product_has_as_many_components_as_the_dimension() {
    let mut dim = 1;
    while dim <= 8 {
        let matrix = vec!["1"; dim * dim].join(",");
        let vector = vec!["2"; dim].join(",");
        let product = solve(dim, &matrix, &vector).unwrap();
        assert_eq!(product.output.len(), dim);
        assert_eq!(product.input.len(), dim);
        dim += 1;
    }
}

#[test]
fn matrix_product_with_the_identity_is_the_vector() {
    let product = solve(3, "1,0,0,0,1,0,0,0,1", "4.25,-5,6e7").unwrap();
    assert_eq!(product.output, vec![4.25, -5.0, 6e7]);
    assert_eq!(product.output, product.input);
}

#[test]
fn matrix_product_with_the_zero_vector_is_the_zero_vector() {
    let product = solve(2, "1.5,-2,3e9,4", "0,0").unwrap();
    assert_eq!(product.output, vec![0.0, 0.0]);
}

#[test]
fn matrix_product_refuses_dimension_zero() {
    assert_eq!(solve(0, "", ""), Err(EngiMathError::InvalidInput(InputFault::ZeroDimension)));
}

#[test]
fn matrix_product_refuses_dimension_zero_before_it_reads_the_texts() {
    assert_eq!(
        solve(0, "a,b,c,d", "x"),
        Err(EngiMathError::InvalidInput(InputFault::ZeroDimension))
    );
    assert_eq!(
        solve(0, "1,2,3,4", "1,2"),
        Err(EngiMathError::InvalidInput(InputFault::ZeroDimension))
    );
}

#[test]
fn matrix_product_refuses_dimension_zero_without_reading_an_element() {
    let outcome = matrix_product(
        0,
        "1,2",
        "3",
        |_token: &str| -> Option<f64> { panic!("an element was read") },
        0.0,
        |a, b| a * b,
        |a, b| a + b,
    );
    assert_eq!(outcome, Err(EngiMathError::InvalidInput(InputFault::ZeroDimension)));
}

#[test]
fn matrix_product_refuses_a_dimension_whose_square_is_out_of_range() {
    assert_eq!(
        solve(usize::MAX, "1", "1"),
        Err(EngiMathError::InvalidInput(InputFault::DimensionTooLarge))
    );
}

#[test]
fn matrix_product_with_too_few_matrix_elements() {
    assert_eq!(
        solve(2, "1,2,3", "4,5"),
        Err(EngiMathError::InvalidInput(InputFault::CountMismatch { expected: 4, actual: 3 }))
    );
}

#[test]
fn matrix_product_with_too_many_matrix_elements() {
    assert_eq!(
        solve(2, "1,2,3,4,5", "4,5"),
        Err(EngiMathError::InvalidInput(InputFault::CountMismatch { expected: 4, actual: 5 }))
    );
}

#[test]
fn matrix_product_with_a_wrong_count_of_vector_elements() {
    assert_eq!(
        solve(2, "1,2,3,4", "4"),
        Err(EngiMathError::InvalidInput(InputFault::CountMismatch { expected: 2, actual: 1 }))
    );
    assert_eq!(
        solve(2, "1,2,3,4", "4,5,6"),
        Err(EngiMathError::InvalidInput(InputFault::CountMismatch { expected: 2, actual: 3 }))
    );
}

#[test]
fn matrix_product_with_a_non_numeric_matrix() {
    assert_eq!(
        solve(2, "a,b,c,d", "4,5"),
        Err(EngiMathError::InvalidInput(InputFault::InvalidNumber))
    );
}

#[test]
fn matrix_product_with_a_non_numeric_vector() {
    assert_eq!(
        solve(2, "1,2,3,4", "a,b"),
        Err(EngiMathError::InvalidInput(InputFault::InvalidNumber))
    );
}

#[test]
fn matrix_product_reports_the_matrix_before_the_vector() {
    assert_eq!(
        solve(2, "1,2,3", "a,b"),
        Err(EngiMathError::InvalidInput(InputFault::CountMismatch { expected: 4, actual: 3 }))
    );
}

#[test]
fn matrix_product_computes_nothing_on_invalid_input() {
    let outcome = matrix_product(
        2,
        "1,2,3,4",
        "5",
        |token: &str| token.parse::<f64>().ok(),
        0.0,
        |_a, _b| -> f64 { panic!("a product was computed") },
        |_a, _b| -> f64 { panic!("a sum was computed") },
    );
    assert_eq!(
        outcome,
        Err(EngiMathError::InvalidInput(InputFault::CountMismatch { expected: 2, actual: 1 }))
    );
}

#[test]
fn check_dimension_gives_the_square() {
    assert_eq!(check_dimension(1), Ok(1));
    assert_eq!(check_dimension(2), Ok(4));
    assert_eq!(check_dimension(12), Ok(144));
}

#[test]
fn check_dimension_refuses_zero() {
    assert_eq!(check_dimension(0), Err(EngiMathError::InvalidInput(InputFault::ZeroDimension)));
}

#[test]
fn check_dimension_refuses_a_square_out_of_range() {
    assert_eq!(
        check_dimension(usize::MAX),
        Err(EngiMathError::InvalidInput(InputFault::DimensionTooLarge))
    );
    assert_eq!(
        check_dimension(1 << (usize::BITS / 2)),
        Err(EngiMathError::InvalidInput(InputFault::DimensionTooLarge))
    );
    let largest = (1usize << (usize::BITS / 2)) - 1;
    assert_eq!(check_dimension(largest), Ok(largest * largest));
}

#[test]
fn render_report_of_dimension_two() {
    let product = solve(2, "2,0,0,3", "4,5").unwrap();
    let report = render_report(
        product.dim,
        &four_decimals(&product.input),
        &four_decimals(&product.output),
    );
    assert_eq!(
        report,
        "\n--- Matrix-Vector Product Result ---\n\
         Dimension: 2x2\n\
         Input Vector: [4.0000, 5.0000]\n\
         Output Vector: [8.0000, 15.0000]\n\
         ------------------------------------\n\n"
    );
}

#[test]
fn matrix_product_with_an_empty_element() {
    assert_eq!(
        solve(2, "1,2,,4", "4,5"),
        Err(EngiMathError::InvalidInput(InputFault::InvalidNumber))
    );
    assert_eq!(solve(1, "", "1"), Err(EngiMathError::InvalidInput(InputFault::InvalidNumber)));
}

#[test]
fn matrix_product_with_a_malformed_exponent() {
    assert_eq!(
        solve(1, "1e", "1"),
        Err(EngiMathError::InvalidInput(InputFault::InvalidNumber))
    );
}

#[test]
fn matrix_product_lets_infinity_and_nan_through() {
    let product = solve(2, "inf,0,0,1", "1,NaN").unwrap();
    assert!(product.output[0].is_nan());
    assert!(product.output[1].is_nan());
    let product = solve(1, "-Infinity", "2").unwrap();
    assert_eq!(product.output, vec![f64::NEG_INFINITY]);
}

#[test]
fn matrix_product_never_fails_in_the_kernel() {
    let texts = ["", "1", "1,2", "1,2,3", "1,2,3,4", "a", "1,,2", "1,2,3,4,5"];
    let mut dim = 0;
    while dim <= 3 {
        for matrix in texts {
            for vector in texts {
                if let Err(e) = solve(dim, matrix, vector) {
                    assert!(matches!(e, EngiMathError::InvalidInput(_)));
                }
            }
        }
        dim += 1;
    }
}
