use engi_math::{collect_numbers, parse_input_vector, EngiMathError, InputFault};

fn read_float(token: &str) -> Option<f64> {
    token.parse::<f64>().ok()
}

fn invalid_number() -> EngiMathError {
    EngiMathError::InvalidInput(InputFault::InvalidNumber)
}

fn count_mismatch(expected: usize, actual: usize) -> EngiMathError {
    EngiMathError::InvalidInput(InputFault::CountMismatch { expected, actual })
}

#[test]
fn collect_numbers_gathers_what_was_read() {
    let parsed = vec![Some(1.5), Some(-2.0), Some(0.0)];
    assert_eq!(collect_numbers(&parsed, 3), Ok(vec![1.5, -2.0, 0.0]));
}

#[test]
fn collect_numbers_of_nothing_when_nothing_is_expected() {
    let parsed: Vec<Option<i32>> = Vec::new();
    assert_eq!(collect_numbers(&parsed, 0), Ok(Vec::new()));
}

#[test]
fn collect_numbers_reports_an_invalid_number() {
    let parsed = vec![Some(1), None, Some(3)];
    assert_eq!(collect_numbers(&parsed, 3), Err(invalid_number()));
}

#[test]
fn collect_numbers_reports_an_invalid_number_before_a_wrong_count() {
    let parsed = vec![Some(1), Some(2), None];
    assert_eq!(collect_numbers(&parsed, 2), Err(invalid_number()));
    assert_eq!(collect_numbers(&parsed, 7), Err(invalid_number()));
}

#[test]
fn collect_numbers_reports_both_counts() {
    let parsed = vec![Some(1), Some(2), Some(3)];
    assert_eq!(collect_numbers(&parsed, 4), Err(count_mismatch(4, 3)));
    assert_eq!(collect_numbers(&parsed, 2), Err(count_mismatch(2, 3)));
    assert_eq!(collect_numbers(&parsed, 0), Err(count_mismatch(0, 3)));
}

#[test]
fn parse_input_vector_reads_a_flattened_matrix() {
    assert_eq!(parse_input_vector("2,0,0,3", 4, read_float), Ok(vec![2.0, 0.0, 0.0, 3.0]));
}

#[test]
fn parse_input_vector_reads_a_vector() {
    assert_eq!(parse_input_vector("4,5", 2, read_float), Ok(vec![4.0, 5.0]));
}

#[test]
fn parse_input_vector_trims_white_space() {
    assert_eq!(
        parse_input_vector(" 1.5 ,\t-2e3 , +0.25\n", 3, read_float),
        Ok(vec![1.5, -2000.0, 0.25])
    );
}

#[test]
fn parse_input_vector_with_too_few_elements() {
    assert_eq!(parse_input_vector("1,2,3", 4, read_float), Err(count_mismatch(4, 3)));
}

#[test]
fn parse_input_vector_with_too_many_elements() {
    assert_eq!(parse_input_vector("1,2,3,4,5", 4, read_float), Err(count_mismatch(4, 5)));
}

#[test]
fn parse_input_vector_with_non_numeric_elements() {
    assert_eq!(parse_input_vector("a,b,c,d", 4, read_float), Err(invalid_number()));
}

#[test]
fn parse_input_vector_with_one_non_numeric_element() {
    assert_eq!(parse_input_vector("1,2,x,4", 4, read_float), Err(invalid_number()));
}

#[test]
fn parse_input_vector_with_an_empty_element() {
    assert_eq!(parse_input_vector("1,,3", 3, read_float), Err(invalid_number()));
    assert_eq!(parse_input_vector("1,2,", 3, read_float), Err(invalid_number()));
    assert_eq!(parse_input_vector("", 1, read_float), Err(invalid_number()));
    assert_eq!(parse_input_vector("", 0, read_float), Err(invalid_number()));
}

#[test]
fn parse_input_vector_with_a_malformed_exponent() {
    assert_eq!(parse_input_vector("1e,2", 2, read_float), Err(invalid_number()));
    assert_eq!(parse_input_vector("1e+,2", 2, read_float), Err(invalid_number()));
}

#[test]
fn parse_input_vector_with_white_space_inside_a_number() {
    assert_eq!(parse_input_vector("1 2,3", 2, read_float), Err(invalid_number()));
}

#[test]
fn parse_input_vector_reports_an_invalid_number_before_a_wrong_count() {
    assert_eq!(parse_input_vector("1,b,3", 2, read_float), Err(invalid_number()));
}

#[test]
fn parse_input_vector_lets_infinity_and_nan_through() {
    let numbers = parse_input_vector("inf,-infinity,NaN", 3, read_float).unwrap();
    assert_eq!(numbers[0], f64::INFINITY);
    assert_eq!(numbers[1], f64::NEG_INFINITY);
    assert!(numbers[2].is_nan());
}

#[test]
fn parse_input_vector_works_for_other_scalars() {
    let read_integer = |token: &str| token.parse::<i64>().ok();
    assert_eq!(parse_input_vector("7, -8 ,9", 3, read_integer), Ok(vec![7, -8, 9]));
    assert_eq!(parse_input_vector("7,8.5", 2, read_integer), Err(invalid_number()));
}

#[test]
fn parse_input_vector_reads_numerals_only() {
    let read_numeral = |token: &str| Some(token.parse::<f64>().expect("only numerals are read"));
    assert_eq!(parse_input_vector("1,abc,3", 3, read_numeral), Err(invalid_number()));
    assert_eq!(parse_input_vector("1,,3", 3, read_numeral), Err(invalid_number()));
    assert_eq!(parse_input_vector("1e,2", 2, read_numeral), Err(invalid_number()));
    assert_eq!(parse_input_vector("1, 2.5e1 ,-.5", 3, read_numeral), Ok(vec![1.0, 25.0, -0.5]));
}

#[test]
fn parse_input_vector_refuses_what_is_no_numeral_whatever_the_reader() {
    let read_anything = |_token: &str| Some(0.0);
    assert_eq!(parse_input_vector("a,b,c,d", 4, read_anything), Err(invalid_number()));
    assert_eq!(parse_input_vector("1,2,", 3, read_anything), Err(invalid_number()));
    assert_eq!(parse_input_vector("1,2,3", 3, read_anything), Ok(vec![0.0, 0.0, 0.0]));
}

#[test]
fn parse_input_vector_refuses_a_numeral_that_the_reader_refuses() {
    let read_small = |token: &str| token.parse::<u8>().ok();
    assert_eq!(parse_input_vector("1,2,300", 3, read_small), Err(invalid_number()));
    assert_eq!(parse_input_vector("1,2,255", 3, read_small), Ok(vec![1, 2, 255]));
}
