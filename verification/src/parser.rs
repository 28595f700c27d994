//! From delimited text to a sequence of numbers.
//!
//! Which elements are numbers is fixed: those that are written as numerals.
//! What value a numeral has is not: the caller hands in the function that
//! reads one, and the contracts below speak of that function through its own
//! contract. An element that is a numeral reads as `Some(x)` or as `None`
//! when that is a possible outcome of the function on the element's text; an
//! element that is no numeral reads as `None`, and the function is not
//! called on it.

use crate::error::{result_view, EngiMathError, InputFault};
use crate::numeral::{is_numeral, is_numeral_text};
use crate::text::{split_tokens, texts, tokens};
use vstd::prelude::*;

verus! {

/// Whether `outcome` is what `parse` may return on text that reads `token`.
pub open spec fn parses<T, P: Fn(&str) -> Option<T>>(
    parse: P,
    token: Seq<char>,
    outcome: Option<T>,
) -> bool {
    exists|t: &str| t@ == token && #[trigger] parse.ensures((t,), outcome)
}

/// Whether `outcome` is what an element that reads `token` may be read as:
/// an outcome of `parse` for a numeral, and `None` for any other text.
pub open spec fn reads_element<T, P: Fn(&str) -> Option<T>>(
    parse: P,
    token: Seq<char>,
    outcome: Option<T>,
) -> bool {
    if is_numeral(token) {
        parses(parse, token, outcome)
    } else {
        outcome is None
    }
}

/// Whether `parsed` holds, element by element, what the elements of `s` may
/// be read as.
pub open spec fn is_parse_of<T, P: Fn(&str) -> Option<T>>(
    parse: P,
    s: Seq<char>,
    parsed: Seq<Option<T>>,
) -> bool {
    &&& parsed.len() == tokens(s).len()
    &&& forall|i: int|
        0 <= i < parsed.len() ==> reads_element(parse, tokens(s)[i], #[trigger] parsed[i])
}

/// What the outcomes of reading each element amount to when `expected_len`
/// numbers are called for. An element that is no number is reported before
/// a wrong count is.
pub open spec fn collected<T>(parsed: Seq<Option<T>>, expected_len: usize) -> Result<
    Seq<T>,
    EngiMathError,
> {
    if exists|i: int| 0 <= i < parsed.len() && (#[trigger] parsed[i]) is None {
        Err(EngiMathError::InvalidInput(InputFault::InvalidNumber))
    } else if parsed.len() != expected_len {
        Err(
            EngiMathError::InvalidInput(
                InputFault::CountMismatch { expected: expected_len, actual: parsed.len() as usize },
            ),
        )
    } else {
        Ok(parsed.map_values(|outcome: Option<T>| outcome->0))
    }
}

/// Whether `r` may come of reading `s` as `expected_len` numbers with
/// `parse`: every element is read, and `r` is what the outcomes amount to.
pub open spec fn is_parse_result<T, P: Fn(&str) -> Option<T>>(
    parse: P,
    s: Seq<char>,
    expected_len: usize,
    r: Result<Seq<T>, EngiMathError>,
) -> bool {
    exists|parsed: Seq<Option<T>>|
        #[trigger] is_parse_of(parse, s, parsed) && r == collected(parsed, expected_len)
}

/// Whether `read` says what `parse` returns on numerals: on a numeral that
/// reads `t`, `parse` returns `read(t)`.
pub open spec fn reads_as<T, P: Fn(&str) -> Option<T>>(
    parse: P,
    read: spec_fn(Seq<char>) -> Option<T>,
) -> bool {
    forall|t: &str, outcome: Option<T>|
        is_numeral(t@) && #[trigger] parse.ensures((t,), outcome) ==> outcome == read(t@)
}

/// What an element that reads `token` is read as, where `read` says what a
/// numeral reads as.
pub open spec fn read_element<T>(read: spec_fn(Seq<char>) -> Option<T>, token: Seq<char>) -> Option<
    T,
> {
    if is_numeral(token) {
        read(token)
    } else {
        None
    }
}

/// What reading `s` as `expected_len` numbers gives, where `read` says what
/// a numeral reads as.
pub open spec fn parsed_text<T>(
    read: spec_fn(Seq<char>) -> Option<T>,
    s: Seq<char>,
    expected_len: usize,
) -> Result<Seq<T>, EngiMathError> {
    collected(tokens(s).map_values(|token: Seq<char>| read_element(read, token)), expected_len)
}

/// Whether element `i` of `s` is a number: a numeral that `parse` can only
/// read as a value.
pub open spec fn is_number_at<T, P: Fn(&str) -> Option<T>>(parse: P, s: Seq<char>, i: int) -> bool {
    &&& is_numeral(tokens(s)[i])
    &&& forall|outcome: Option<T>| #[trigger]
        parses(parse, tokens(s)[i], outcome) ==> outcome is Some
}

/// Whether element `i` of `s` is no number: no numeral, or one that `parse`
/// can only refuse.
pub open spec fn is_no_number_at<T, P: Fn(&str) -> Option<T>>(
    parse: P,
    s: Seq<char>,
    i: int,
) -> bool {
    is_numeral(tokens(s)[i]) ==> forall|outcome: Option<T>| #[trigger]
        parses(parse, tokens(s)[i], outcome) ==> outcome is None
}

/// Whether every element of `s` is a number.
pub open spec fn all_numbers<T, P: Fn(&str) -> Option<T>>(parse: P, s: Seq<char>) -> bool {
    forall|i: int| 0 <= i < tokens(s).len() ==> #[trigger] is_number_at(parse, s, i)
}

/// A text with an element that is no number fails with `InvalidInput`,
/// whatever its count of elements: an empty element, one with content that
/// is not numeric, one with a malformed exponent, or any other that is no
/// numeral or that `parse` refuses.
pub proof fn lemma_invalid_number_is_reported<T, P: Fn(&str) -> Option<T>>(
    parse: P,
    s: Seq<char>,
    expected_len: usize,
    r: Result<Seq<T>, EngiMathError>,
    i: int,
)
    requires
        is_parse_result(parse, s, expected_len, r),
        0 <= i < tokens(s).len(),
        is_no_number_at(parse, s, i),
    ensures
        r == Err::<Seq<T>, EngiMathError>(EngiMathError::InvalidInput(InputFault::InvalidNumber)),
{
    let parsed = choose|parsed: Seq<Option<T>>|
        #[trigger] is_parse_of(parse, s, parsed) && r == collected(parsed, expected_len);
    assert(reads_element(parse, tokens(s)[i], parsed[i]));
}

/// A text of numbers, but fewer or more of them than called for, fails with
/// `InvalidInput`, and the report carries both counts.
pub proof fn lemma_count_mismatch_is_reported<T, P: Fn(&str) -> Option<T>>(
    parse: P,
    s: Seq<char>,
    expected_len: usize,
    r: Result<Seq<T>, EngiMathError>,
)
    requires
        is_parse_result(parse, s, expected_len, r),
        all_numbers(parse, s),
        tokens(s).len() != expected_len,
        tokens(s).len() <= usize::MAX,
    ensures
        r == Err::<Seq<T>, EngiMathError>(
            EngiMathError::InvalidInput(
                InputFault::CountMismatch {
                    expected: expected_len,
                    actual: tokens(s).len() as usize,
                },
            ),
        ),
{
    let parsed = choose|parsed: Seq<Option<T>>|
        #[trigger] is_parse_of(parse, s, parsed) && r == collected(parsed, expected_len);
    assert forall|i: int| 0 <= i < parsed.len() implies (#[trigger] parsed[i]) is Some by {
        assert(is_number_at(parse, s, i));
    }
}

/// A text of as many numbers as called for is accepted, and yields one
/// number for each element, in order.
pub proof fn lemma_valid_text_is_accepted<T, P: Fn(&str) -> Option<T>>(
    parse: P,
    s: Seq<char>,
    expected_len: usize,
    r: Result<Seq<T>, EngiMathError>,
)
    requires
        is_parse_result(parse, s, expected_len, r),
        all_numbers(parse, s),
        tokens(s).len() == expected_len,
    ensures
        r is Ok,
        r->Ok_0.len() == expected_len,
        forall|i: int|
            0 <= i < expected_len ==> parses(parse, tokens(s)[i], Some(#[trigger] r->Ok_0[i])),
{
    let parsed = choose|parsed: Seq<Option<T>>|
        #[trigger] is_parse_of(parse, s, parsed) && r == collected(parsed, expected_len);
    assert forall|i: int| 0 <= i < parsed.len() implies (#[trigger] parsed[i]) is Some by {
        assert(is_number_at(parse, s, i));
    }
}

/// With a function that reads each element as `read` says, what comes of
/// reading a text is what `read` gives.
pub proof fn lemma_parse_result_is_determined<T, P: Fn(&str) -> Option<T>>(
    parse: P,
    read: spec_fn(Seq<char>) -> Option<T>,
    s: Seq<char>,
    expected_len: usize,
    r: Result<Seq<T>, EngiMathError>,
)
    requires
        reads_as(parse, read),
        is_parse_result(parse, s, expected_len, r),
    ensures
        r == parsed_text(read, s, expected_len),
{
    let parsed = choose|parsed: Seq<Option<T>>|
        #[trigger] is_parse_of(parse, s, parsed) && r == collected(parsed, expected_len);
    assert(parsed =~= tokens(s).map_values(|token: Seq<char>| read_element(read, token)));
}

/// Lending the function changes nothing: what may come of reading with a
/// borrowed `parse` may come of reading with `parse` itself.
pub proof fn lemma_parse_result_of_borrowed<T, P: Fn(&str) -> Option<T>>(
    parse: P,
    s: Seq<char>,
    expected_len: usize,
    r: Result<Seq<T>, EngiMathError>,
)
    requires
        is_parse_result(&parse, s, expected_len, r),
    ensures
        is_parse_result(parse, s, expected_len, r),
{
    let parsed = choose|parsed: Seq<Option<T>>|
        #[trigger] is_parse_of(&parse, s, parsed) && r == collected(parsed, expected_len);
    assert(is_parse_of(parse, s, parsed));
}

/// Gathers the numbers read from the elements of an input, of which
/// `expected_len` are called for.
pub fn collect_numbers<T: Copy>(parsed: &[Option<T>], expected_len: usize) -> (r: Result<
    Vec<T>,
    EngiMathError,
>)
    ensures
        result_view(r) == collected(parsed@, expected_len),
{
    let mut numbers: Vec<T> = Vec::new();
    let mut i: usize = 0;
    while i < parsed.len()
        invariant
            i <= parsed.len(),
            numbers@.len() == i,
            forall|j: int| 0 <= j < i ==> parsed@[j] == Some(#[trigger] numbers@[j]),
        decreases parsed.len() - i,
    {
        match parsed[i] {
            Some(x) => {
                numbers.push(x);
            },
            None => {
                return Err(EngiMathError::InvalidInput(InputFault::InvalidNumber));
            },
        }
        i += 1;
    }
    assert forall|j: int| 0 <= j < parsed@.len() implies (#[trigger] parsed@[j]) is Some by {
        assert(parsed@[j] == Some(numbers@[j]));
    }
    if numbers.len() != expected_len {
        return Err(
            EngiMathError::InvalidInput(
                InputFault::CountMismatch { expected: expected_len, actual: numbers.len() },
            ),
        );
    }
    assert(numbers@ =~= parsed@.map_values(|outcome: Option<T>| outcome->0));
    Ok(numbers)
}

/// Reads `s` as `expected_len` numbers separated by commas. Each element is
/// trimmed and, if it is a numeral, read with `parse`. Fails with
/// `InvalidInput` when an element is no number, and otherwise when the count
/// of elements is not `expected_len`.
pub fn parse_input_vector<T: Copy, P: Fn(&str) -> Option<T>>(
    s: &str,
    expected_len: usize,
    parse: P,
) -> (r: Result<Vec<T>, EngiMathError>)
    requires
        forall|t: &str| is_numeral(t@) ==> parse.requires((t,)),
    ensures
        is_parse_result(parse, s@, expected_len, result_view(r)),
        forall|read: spec_fn(Seq<char>) -> Option<T>| #[trigger]
            reads_as(parse, read) ==> result_view(r) == parsed_text(read, s@, expected_len),
        tokens(s@).len() <= usize::MAX,
{
    let elements = split_tokens(s);
    let mut parsed: Vec<Option<T>> = Vec::new();
    let mut i: usize = 0;
    while i < elements.len()
        invariant
            i <= elements.len(),
            parsed@.len() == i,
            texts(elements@) == tokens(s@),
            forall|t: &str| is_numeral(t@) ==> parse.requires((t,)),
            forall|k: int|
                0 <= k < i ==> reads_element(parse, tokens(s@)[k], #[trigger] parsed@[k]),
        decreases elements.len() - i,
    {
        let element = elements[i].as_str();
        let outcome = if is_numeral_text(element) {
            parse(element)
        } else {
            None
        };
        parsed.push(outcome);
        i += 1;
    }
    let r = collect_numbers(parsed.as_slice(), expected_len);
    assert(is_parse_of(parse, s@, parsed@));
    assert forall|read: spec_fn(Seq<char>) -> Option<T>| #[trigger]
        reads_as(parse, read) implies result_view(r) == parsed_text(read, s@, expected_len) by {
        lemma_parse_result_is_determined(parse, read, s@, expected_len, result_view(r));
    }
    r
}

} // verus!
