//! What can go wrong, and how it is reported.

use crate::text::{decimal, decimal_string};
use vstd::prelude::*;

verus! {

/// Why an input was refused before any computation.
#[derive(Debug, Clone, Copy, PartialEq, Eq, Structural)]
pub enum InputFault {
    /// An element is not a number.
    InvalidNumber,
    /// The text holds `actual` elements where `expected` were called for.
    CountMismatch { expected: usize, actual: usize },
    /// The dimension is zero.
    ZeroDimension,
    /// The square of the dimension is more than any text can hold elements.
    DimensionTooLarge,
}

/// Why the kernel refused its operands.
#[derive(Debug, Clone, Copy, PartialEq, Eq, Structural)]
pub enum ShapeFault {
    /// The matrix holds `actual` elements, not the square of `dim`.
    MatrixLength { dim: usize, actual: usize },
    /// The vector holds `actual` elements, not `dim`.
    VectorLength { dim: usize, actual: usize },
}

/// The two kinds of failure. Both end the computation: nothing is retried
/// and no partial result is given.
#[derive(Debug, Clone, Copy, PartialEq, Eq, Structural)]
pub enum EngiMathError {
    /// The input is malformed: found before any computation runs.
    InvalidInput(InputFault),
    /// The kernel was handed operands whose lengths do not fit its dimension.
    CalculationFailed(ShapeFault),
}

/// A result with the numbers of its `Ok` taken as a sequence.
pub open spec fn result_view<T>(r: Result<Vec<T>, EngiMathError>) -> Result<
    Seq<T>,
    EngiMathError,
> {
    match r {
        Ok(numbers) => Ok(numbers@),
        Err(e) => Err(e),
    }
}

impl InputFault {
    /// The reason, in words.
    pub open spec fn describe(self) -> Seq<char> {
        match self {
            InputFault::InvalidNumber => {
                "All elements must be valid floating-point numbers and separated by commas."@
            },
            InputFault::CountMismatch { expected, actual } => {
                "Expected "@ + decimal(expected as nat)
                    + " elements in the input string, but found "@ + decimal(actual as nat) + "."@
            },
            InputFault::ZeroDimension => "dimension must be greater than zero"@,
            InputFault::DimensionTooLarge => "dimension is too large"@,
        }
    }

    /// The reason, in words.
    pub fn reason(&self) -> (r: String)
        ensures
            r@ == self.describe(),
    {
        match self {
            InputFault::InvalidNumber => {
                String::from_str(
                    "All elements must be valid floating-point numbers and separated by commas.",
                )
            },
            InputFault::CountMismatch { expected, actual } => {
                let mut out = String::from_str("Expected ");
                out.append(decimal_string(*expected).as_str());
                out.append(" elements in the input string, but found ");
                out.append(decimal_string(*actual).as_str());
                out.append(".");
                out
            },
            InputFault::ZeroDimension => String::from_str("dimension must be greater than zero"),
            InputFault::DimensionTooLarge => String::from_str("dimension is too large"),
        }
    }
}

impl ShapeFault {
    /// The reason, in words.
    pub open spec fn describe(self) -> Seq<char> {
        match self {
            ShapeFault::MatrixLength { dim, actual } => {
                "matrix has "@ + decimal(actual as nat) + " elements, but dimension "@ + decimal(
                    dim as nat,
                ) + " needs its square"@
            },
            ShapeFault::VectorLength { dim, actual } => {
                "vector has "@ + decimal(actual as nat) + " elements, but dimension "@ + decimal(
                    dim as nat,
                ) + " needs as many"@
            },
        }
    }

    /// The reason, in words.
    pub fn reason(&self) -> (r: String)
        ensures
            r@ == self.describe(),
    {
        match self {
            ShapeFault::MatrixLength { dim, actual } => {
                let mut out = String::from_str("matrix has ");
                out.append(decimal_string(*actual).as_str());
                out.append(" elements, but dimension ");
                out.append(decimal_string(*dim).as_str());
                out.append(" needs its square");
                out
            },
            ShapeFault::VectorLength { dim, actual } => {
                let mut out = String::from_str("vector has ");
                out.append(decimal_string(*actual).as_str());
                out.append(" elements, but dimension ");
                out.append(decimal_string(*dim).as_str());
                out.append(" needs as many");
                out
            },
        }
    }
}

impl EngiMathError {
    /// The reason without the heading of its kind.
    pub open spec fn describe_reason(self) -> Seq<char> {
        match self {
            EngiMathError::InvalidInput(fault) => fault.describe(),
            EngiMathError::CalculationFailed(fault) => fault.describe(),
        }
    }

    /// The whole message: the heading of the kind, then the reason.
    pub open spec fn describe(self) -> Seq<char> {
        match self {
            EngiMathError::InvalidInput(fault) => "Invalid input format: "@ + fault.describe(),
            EngiMathError::CalculationFailed(fault) => "Calculation error: "@ + fault.describe(),
        }
    }

    /// The reason without the heading of its kind.
    pub fn reason(&self) -> (r: String)
        ensures
            r@ == self.describe_reason(),
    {
        match self {
            EngiMathError::InvalidInput(fault) => fault.reason(),
            EngiMathError::CalculationFailed(fault) => fault.reason(),
        }
    }

    /// The whole message: the heading of the kind, then the reason.
    pub fn message(&self) -> (r: String)
        ensures
            r@ == self.describe(),
    {
        match self {
            EngiMathError::InvalidInput(fault) => {
                let mut out = String::from_str("Invalid input format: ");
                out.append(fault.reason().as_str());
                out
            },
            EngiMathError::CalculationFailed(fault) => {
                let mut out = String::from_str("Calculation error: ");
                out.append(fault.reason().as_str());
                out
            },
        }
    }
}

} // verus!
