//! Matrix-vector products of square matrices given as delimited text.
//!
//! A square matrix arrives flattened row by row, as numbers separated by
//! commas, and a vector in the same way. The library cuts both texts into
//! their elements, checks that each is written as a numeral, checks their
//! counts against the dimension, and multiplies. What value a numeral has,
//! and how two values are multiplied and added, is for the caller to say:
//! the library is generic in the scalar and takes the three operations as
//! functions.

pub mod command;
pub mod error;
pub mod kernel;
pub mod numeral;
pub mod parser;
pub mod report;
pub mod text;

pub use crate::command::{check_dimension, matrix_product, MatrixProduct};
pub use crate::error::{EngiMathError, InputFault, ShapeFault};
pub use crate::kernel::calculate_matrix_vector_product;
pub use crate::numeral::is_numeral_text;
pub use crate::parser::{collect_numbers, parse_input_vector};
pub use crate::report::{render_report, render_vector};
pub use crate::text::split_tokens;
