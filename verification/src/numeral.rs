//! Which texts are numbers.
//!
//! An element is a number when it is written as a decimal numeral: an
//! optional sign, then digits with an optional point among them and an
//! optional exponent, or one of the words `inf`, `infinity` and `nan` in
//! either case. In the notation of grammars:
//!
//! ```text
//! Numeral  ::= Sign? ( Word | Number )
//! Word     ::= 'inf' | 'infinity' | 'nan'      (in either case)
//! Number   ::= Digit* Fraction? Exponent?      (with a digit before the exponent)
//! Fraction ::= '.' Digit*
//! Exponent ::= ( 'e' | 'E' ) Sign? Digit+
//! Sign     ::= '+' | '-'
//! Digit    ::= '0' ... '9'
//! ```
//!
//! What value a numeral has is not said here: the caller's function reads it.

use crate::text::{chars_of, is_whitespace};
use vstd::prelude::*;

verus! {

/// Whether `c` is one of the ten digits.
pub open spec fn is_digit(c: char) -> bool {
    '0' <= c <= '9'
}

/// Whether `c` is a sign.
pub open spec fn is_sign(c: char) -> bool {
    c == '+' || c == '-'
}

/// Whether `c` is the small letter `letter` or its capital.
pub open spec fn is_letter(c: char, letter: char) -> bool {
    c == letter || c as u32 + 32 == letter as u32
}

/// Whether `s` holds digits only.
pub open spec fn all_digits(s: Seq<char>) -> bool {
    forall|i: int| 0 <= i < s.len() ==> is_digit(#[trigger] s[i])
}

/// Whether `s` reads as `word`, a word of small letters, in either case.
pub open spec fn reads_word(s: Seq<char>, word: Seq<char>) -> bool {
    &&& s.len() == word.len()
    &&& forall|i: int| 0 <= i < s.len() ==> is_letter(#[trigger] s[i], word[i])
}

/// Whether `s` is one of the words that stand for a value that is no finite
/// number.
pub open spec fn is_word(s: Seq<char>) -> bool {
    ||| reads_word(s, seq!['i', 'n', 'f'])
    ||| reads_word(s, seq!['i', 'n', 'f', 'i', 'n', 'i', 't', 'y'])
    ||| reads_word(s, seq!['n', 'a', 'n'])
}

/// Whether `s` is a fraction: a point, then digits, of which there may be
/// none.
pub open spec fn is_fraction(s: Seq<char>) -> bool {
    &&& s.len() >= 1
    &&& s[0] == '.'
    &&& all_digits(s.skip(1))
}

/// Whether `s` is an exponent: the letter `e`, an optional sign, then at
/// least one digit.
pub open spec fn is_exponent(s: Seq<char>) -> bool {
    &&& s.len() >= 2
    &&& is_letter(s[0], 'e')
    &&& {
        let digits = if is_sign(s[1]) {
            s.skip(2)
        } else {
            s.skip(1)
        };
        digits.len() > 0 && all_digits(digits)
    }
}

/// Whether `s` is cut at `i` and `j` into the parts of a number: digits up
/// to `i`, a fraction or nothing up to `j`, an exponent or nothing from `j`
/// on, with a digit before the point or after it.
pub open spec fn is_number_cut_at(s: Seq<char>, i: int, j: int) -> bool {
    &&& 0 <= i <= j <= s.len()
    &&& all_digits(s.take(i))
    &&& i == j || is_fraction(s.subrange(i, j))
    &&& j == s.len() || is_exponent(s.skip(j))
    &&& i > 0 || j - i > 1
}

/// Whether `s` is a number without sign: digits, with an optional fraction
/// and an optional exponent.
pub open spec fn is_number(s: Seq<char>) -> bool {
    exists|i: int, j: int| is_number_cut_at(s, i, j)
}

/// `s` without the sign that it may start with.
pub open spec fn unsigned(s: Seq<char>) -> Seq<char> {
    if s.len() > 0 && is_sign(s[0]) {
        s.skip(1)
    } else {
        s
    }
}

/// Whether `s` is a numeral: an optional sign, then a word or a number.
pub open spec fn is_numeral(s: Seq<char>) -> bool {
    is_word(unsigned(s)) || is_number(unsigned(s))
}

/// Whether `c` can stand in a numeral at all: a digit, a sign, the point,
/// or one of the letters of `inf`, `infinity`, `nan` and of the exponent, in
/// either case.
pub open spec fn is_numeral_char(c: char) -> bool {
    ||| is_digit(c)
    ||| is_sign(c)
    ||| c == '.'
    ||| is_letter(c, 'e')
    ||| is_letter(c, 'i')
    ||| is_letter(c, 'n')
    ||| is_letter(c, 'f')
    ||| is_letter(c, 't')
    ||| is_letter(c, 'y')
    ||| is_letter(c, 'a')
}

/// The empty text is no numeral.
pub proof fn lemma_empty_is_no_numeral()
    ensures
        !is_numeral(Seq::<char>::empty()),
{
}

/// Digits alone, if there is one at least, are a numeral.
pub proof fn lemma_digits_are_a_numeral(s: Seq<char>)
    requires
        s.len() > 0,
        all_digits(s),
    ensures
        is_numeral(s),
{
    assert(s.take(s.len() as int) =~= s);
    assert(is_number_cut_at(s, s.len() as int, s.len() as int));
}

/// A numeral that is no word holds a digit.
pub proof fn lemma_number_holds_a_digit(s: Seq<char>)
    requires
        is_numeral(s),
        !is_word(unsigned(s)),
    ensures
        exists|k: int| 0 <= k < s.len() && is_digit(#[trigger] s[k]),
{
    let body = unsigned(s);
    let shift = s.len() - body.len();
    let (i, j) = choose|i: int, j: int| is_number_cut_at(body, i, j);
    if i > 0 {
        assert(body.take(i)[0] == s[shift]);
    } else {
        let digits = body.subrange(i, j).skip(1);
        assert(digits[0] == s[shift + i + 1]);
    }
}

/// Content that is not numeric makes a text no numeral: every character of
/// a numeral is a digit, a sign, the point, or a letter of the three words
/// or of the exponent.
pub proof fn lemma_numeral_characters(s: Seq<char>, k: int)
    requires
        is_numeral(s),
        0 <= k < s.len(),
    ensures
        is_numeral_char(s[k]),
{
    let body = unsigned(s);
    let shift = s.len() - body.len();
    if k >= shift {
        let p = k - shift;
        if is_word(body) {
            let inf = seq!['i', 'n', 'f'];
            let infinity = seq!['i', 'n', 'f', 'i', 'n', 'i', 't', 'y'];
            let nan = seq!['n', 'a', 'n'];
            if reads_word(body, inf) {
                assert(is_letter(body[p], inf[p]));
            } else if reads_word(body, infinity) {
                assert(is_letter(body[p], infinity[p]));
            } else {
                assert(is_letter(body[p], nan[p]));
            }
        } else {
            let (i, j) = choose|i: int, j: int| is_number_cut_at(body, i, j);
            if p < i {
                assert(body.take(i)[p] == body[p]);
            } else if p < j {
                let fraction = body.subrange(i, j);
                if p > i {
                    assert(fraction.skip(1)[p - i - 1] == body[p]);
                }
            } else {
                let exponent = body.skip(j);
                if p - j >= 1 {
                    if is_sign(exponent[1]) {
                        if p - j >= 2 {
                            assert(exponent.skip(2)[p - j - 2] == body[p]);
                        }
                    } else {
                        assert(exponent.skip(1)[p - j - 1] == body[p]);
                    }
                }
            }
        }
    }
}

/// A numeral holds no white space.
pub proof fn lemma_numeral_holds_no_whitespace(s: Seq<char>, k: int)
    requires
        is_numeral(s),
        0 <= k < s.len(),
    ensures
        !is_whitespace(s[k]),
{
    lemma_numeral_characters(s, k);
}

/// Whether `c` is one of the ten digits.
fn is_digit_char(c: char) -> (r: bool)
    ensures
        r == is_digit(c),
{
    '0' <= c && c <= '9'
}

/// Whether `c` is a sign.
fn is_sign_char(c: char) -> (r: bool)
    ensures
        r == is_sign(c),
{
    c == '+' || c == '-'
}

/// Whether `c` is the small letter `letter` or its capital.
fn is_letter_char(c: char, letter: char) -> (r: bool)
    ensures
        r == is_letter(c, letter),
{
    c == letter || c as u32 + 32 == letter as u32
}

/// Whether `chars` from `start` on reads as `word` in either case.
fn reads_word_from(chars: &[char], start: usize, word: &[char]) -> (r: bool)
    requires
        start <= chars.len(),
    ensures
        r == reads_word(chars@.skip(start as int), word@),
{
    if chars.len() - start != word.len() {
        return false;
    }
    let mut k: usize = 0;
    while k < word.len()
        invariant
            k <= word.len(),
            start <= chars.len(),
            chars.len() - start == word.len(),
            forall|i: int|
                0 <= i < k ==> is_letter(#[trigger] chars@.skip(start as int)[i], word@[i]),
        decreases word.len() - k,
    {
        if !is_letter_char(chars[start + k], word[k]) {
            assert(!is_letter(chars@.skip(start as int)[k as int], word@[k as int]));
            return false;
        }
        k += 1;
    }
    true
}

/// Where the run of digits that starts at `from` ends.
fn digits_end(chars: &[char], from: usize) -> (end: usize)
    requires
        from <= chars.len(),
    ensures
        from <= end <= chars.len(),
        all_digits(chars@.subrange(from as int, end as int)),
        end < chars.len() ==> !is_digit(chars@[end as int]),
{
    let mut end: usize = from;
    while end < chars.len() && is_digit_char(chars[end])
        invariant
            from <= end <= chars.len(),
            all_digits(chars@.subrange(from as int, end as int)),
        decreases chars.len() - end,
    {
        assert(chars@.subrange(from as int, end + 1) =~= chars@.subrange(
            from as int,
            end as int,
        ).push(chars@[end as int]));
        end += 1;
    }
    end
}

/// A number is cut in one way only: the digits before the point are the
/// longest run of digits at the start, and the digits of the fraction the
/// longest run after the point.
pub proof fn lemma_number_cut_is_unique(s: Seq<char>, i: int, j: int, a: int, b: int)
    requires
        0 <= i <= j <= s.len(),
        all_digits(s.take(i)),
        i < s.len() ==> !is_digit(s[i]),
        i < s.len() && s[i] == '.' ==> all_digits(s.subrange(i + 1, j)),
        i < s.len() && s[i] == '.' ==> i < j && (j < s.len() ==> !is_digit(s[j])),
        !(i < s.len() && s[i] == '.') ==> j == i,
        is_number_cut_at(s, a, b),
    ensures
        a == i,
        b == j,
{
    if a < i {
        // a digit stands at `a`, where the cut has a point, an exponent or
        // the end
        assert(s.take(i)[a] == s[a]);
    }
    if i < a {
        // no digit stands at `i`, among the digits of the cut
        assert(s.take(a)[i] == s[i]);
    }
    if a < b {
        if b < j {
            // a digit stands at `b`, where the cut has an exponent
            assert(s.subrange(i + 1, j)[b - i - 1] == s[b]);
        }
        if j < b {
            // no digit stands at `j`, among the digits of the fraction
            assert(s.subrange(a, b).skip(1)[j - a - 1] == s[j]);
        }
    }
}

/// Whether `chars` from `from` on is an exponent.
fn is_exponent_from(chars: &[char], from: usize) -> (r: bool)
    requires
        from <= chars.len(),
    ensures
        r == is_exponent(chars@.skip(from as int)),
{
    let n = chars.len();
    if n - from < 2 || !is_letter_char(chars[from], 'e') {
        return false;
    }
    let digits_from: usize = if is_sign_char(chars[from + 1]) {
        from + 2
    } else {
        from + 1
    };
    let end = digits_end(chars, digits_from);
    proof {
        let digits = chars@.skip(digits_from as int);
        assert(digits =~= chars@.skip(from as int).skip(digits_from - from));
        if end < n {
            assert(digits[end - digits_from] == chars@[end as int]);
        }
    }
    end == n && end > digits_from
}

/// Whether `chars` from `start` on is a number without sign.
fn is_number_from(chars: &[char], start: usize) -> (r: bool)
    requires
        start <= chars.len(),
    ensures
        r == is_number(chars@.skip(start as int)),
{
    let n = chars.len();
    let i = digits_end(chars, start);
    let j = if i < n && chars[i] == '.' {
        digits_end(chars, i + 1)
    } else {
        i
    };
    let has_digit = i > start || j - i > 1;
    let ends_well = j == n || is_exponent_from(chars, j);
    proof {
        let s = chars@.skip(start as int);
        assert(s.subrange(i - start, j - start) =~= chars@.subrange(i as int, j as int));
        assert(s.skip(j - start) =~= chars@.skip(j as int));
        if i < j {
            assert(chars@.subrange(i as int, j as int).skip(1) =~= chars@.subrange(
                i + 1,
                j as int,
            ));
            assert(s.subrange(i + 1 - start, j - start) =~= chars@.subrange(i + 1, j as int));
        }
        if has_digit && ends_well {
            assert(is_number_cut_at(s, i - start, j - start));
        } else {
            assert forall|a: int, b: int| !is_number_cut_at(s, a, b) by {
                if is_number_cut_at(s, a, b) {
                    lemma_number_cut_is_unique(s, i - start, j - start, a, b);
                }
            }
        }
    }
    has_digit && ends_well
}

/// Whether `s` is a numeral: an optional sign, then a word or a number.
pub fn is_numeral_text(s: &str) -> (r: bool)
    ensures
        r == is_numeral(s@),
{
    let chars = chars_of(s);
    let start: usize = if chars.len() > 0 && is_sign_char(chars[0]) {
        1
    } else {
        0
    };
    let inf: [char; 3] = ['i', 'n', 'f'];
    let infinity: [char; 8] = ['i', 'n', 'f', 'i', 'n', 'i', 't', 'y'];
    let nan: [char; 3] = ['n', 'a', 'n'];
    proof {
        assert(chars@.skip(start as int) =~= unsigned(s@));
    }
    reads_word_from(chars.as_slice(), start, inf.as_slice()) || reads_word_from(
        chars.as_slice(),
        start,
        infinity.as_slice(),
    ) || reads_word_from(chars.as_slice(), start, nan.as_slice()) || is_number_from(
        chars.as_slice(),
        start,
    )
}

} // verus!
