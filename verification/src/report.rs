//! The text that the command prints.
//!
//! One policy holds for both vectors of the report: the caller writes each
//! component as it wants it shown, and every vector is laid out in the same
//! way, its components separated by a comma and a space, inside square
//! brackets.

use crate::text::{decimal, decimal_string, joined, texts};
use vstd::prelude::*;

verus! {

/// A vector, laid out from its components as they are to be shown.
pub open spec fn vector_text(components: Seq<Seq<char>>) -> Seq<char> {
    "["@ + joined(components, ", "@) + "]"@
}

/// The report of one matrix-vector product.
pub open spec fn report_text(dim: usize, input: Seq<Seq<char>>, output: Seq<Seq<char>>) -> Seq<
    char,
> {
    "\n--- Matrix-Vector Product Result ---\nDimension: "@ + decimal(dim as nat) + "x"@ + decimal(
        dim as nat,
    ) + "\nInput Vector: "@ + vector_text(input) + "\nOutput Vector: "@ + vector_text(output)
        + "\n------------------------------------\n\n"@
}

/// Lays out a vector from its components as they are to be shown.
pub fn render_vector(components: &[String]) -> (r: String)
    ensures
        r@ == vector_text(texts(components@)),
{
    let ghost parts = texts(components@);
    let mut out = String::from_str("[");
    let mut i: usize = 0;
    while i < components.len()
        invariant
            i <= components.len(),
            parts == texts(components@),
            out@ == "["@ + joined(parts.take(i as int), ", "@),
        decreases components.len() - i,
    {
        if i > 0 {
            out.append(", ");
        }
        out.append(components[i].as_str());
        assert(parts.take(i + 1).drop_last() =~= parts.take(i as int));
        i += 1;
    }
    assert(parts.take(i as int) =~= parts);
    out.append("]");
    out
}

/// Writes the report of one matrix-vector product of dimension `dim`, from
/// the components of the vector that was read and of the product.
pub fn render_report(dim: usize, input: &[String], output: &[String]) -> (r: String)
    ensures
        r@ == report_text(dim, texts(input@), texts(output@)),
{
    let size = decimal_string(dim);
    let mut out = String::from_str("\n--- Matrix-Vector Product Result ---\nDimension: ");
    out.append(size.as_str());
    out.append("x");
    out.append(size.as_str());
    out.append("\nInput Vector: ");
    out.append(render_vector(input).as_str());
    out.append("\nOutput Vector: ");
    out.append(render_vector(output).as_str());
    out.append("\n------------------------------------\n\n");
    out
}

} // verus!
