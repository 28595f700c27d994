//! Splitting delimited text into trimmed tokens.
//!
//! A flattened matrix or vector arrives as one line of text whose elements
//! are separated by commas and may be surrounded by white space. This module
//! cuts such a line into its elements. Text is modelled as a sequence of
//! characters, the view of a `str`.

use vstd::prelude::*;

verus! {

/// Whether `c` has the Unicode property `White_Space`.
pub open spec fn is_whitespace(c: char) -> bool {
    let n = c as u32;
    ||| 0x0009 <= n <= 0x000D
    ||| n == 0x0020
    ||| n == 0x0085
    ||| n == 0x00A0
    ||| n == 0x1680
    ||| 0x2000 <= n <= 0x200A
    ||| n == 0x2028
    ||| n == 0x2029
    ||| n == 0x202F
    ||| n == 0x205F
    ||| n == 0x3000
}

/// Whether `c` is the delimiter between two elements.
pub open spec fn is_delimiter(c: char) -> bool {
    c == ','
}

/// `s` without its leading white space.
pub open spec fn trim_start(s: Seq<char>) -> Seq<char>
    decreases s.len(),
{
    if s.len() > 0 && is_whitespace(s.first()) {
        trim_start(s.drop_first())
    } else {
        s
    }
}

/// `s` without its trailing white space.
pub open spec fn trim_end(s: Seq<char>) -> Seq<char>
    decreases s.len(),
{
    if s.len() > 0 && is_whitespace(s.last()) {
        trim_end(s.drop_last())
    } else {
        s
    }
}

/// `s` without its leading and trailing white space.
pub open spec fn trim(s: Seq<char>) -> Seq<char> {
    trim_end(trim_start(s))
}

/// The position of the first delimiter in `s`, or the length of `s` if it
/// holds none.
pub open spec fn first_delimiter(s: Seq<char>) -> int
    decreases s.len(),
{
    if s.len() == 0 || is_delimiter(s.first()) {
        0
    } else {
        1 + first_delimiter(s.drop_first())
    }
}

/// The pieces of `s` between its delimiters, in order. Text without a
/// delimiter is one piece, so there is always one piece more than there are
/// delimiters, and the empty text is one empty piece.
pub open spec fn split(s: Seq<char>) -> Seq<Seq<char>>
    decreases s.len(),
{
    let i = first_delimiter(s);
    if 0 <= i < s.len() {
        seq![s.take(i)] + split(s.skip(i + 1))
    } else {
        seq![s]
    }
}

/// How many delimiters `s` holds.
pub open spec fn delimiter_count(s: Seq<char>) -> nat
    decreases s.len(),
{
    if s.len() == 0 {
        0
    } else if is_delimiter(s.first()) {
        1 + delimiter_count(s.drop_first())
    } else {
        delimiter_count(s.drop_first())
    }
}

/// The elements of `s`: its pieces, each one trimmed.
pub open spec fn tokens(s: Seq<char>) -> Seq<Seq<char>> {
    split(s).map_values(|piece: Seq<char>| trim(piece))
}

/// The `parts` written one after the other with `separator` between each
/// two.
pub open spec fn joined(parts: Seq<Seq<char>>, separator: Seq<char>) -> Seq<char>
    decreases parts.len(),
{
    if parts.len() == 0 {
        Seq::empty()
    } else if parts.len() == 1 {
        parts[0]
    } else {
        joined(parts.drop_last(), separator) + separator + parts.last()
    }
}

/// The texts that `strings` hold.
pub open spec fn texts(strings: Seq<String>) -> Seq<Seq<char>> {
    strings.map_values(|s: String| s@)
}

/// The character that writes the digit `d`.
pub open spec fn digit(d: nat) -> char {
    if d == 0 {
        '0'
    } else if d == 1 {
        '1'
    } else if d == 2 {
        '2'
    } else if d == 3 {
        '3'
    } else if d == 4 {
        '4'
    } else if d == 5 {
        '5'
    } else if d == 6 {
        '6'
    } else if d == 7 {
        '7'
    } else if d == 8 {
        '8'
    } else {
        '9'
    }
}

/// `n` written in base ten, without leading zeros.
pub open spec fn decimal(n: nat) -> Seq<char>
    decreases n,
{
    if n < 10 {
        seq![digit(n)]
    } else {
        decimal(n / 10).push(digit(n % 10))
    }
}

/// The digit that `c` writes, or zero if it writes none.
pub open spec fn digit_value(c: char) -> nat {
    if '0' <= c <= '9' {
        (c as u32 - '0' as u32) as nat
    } else {
        0
    }
}

/// The number that the digits of `s` write in base ten.
pub open spec fn decimal_value(s: Seq<char>) -> nat
    decreases s.len(),
{
    if s.len() == 0 {
        0
    } else {
        10 * decimal_value(s.drop_last()) + digit_value(s.last())
    }
}

/// What `decimal` writes reads back as the number: its digits, and nothing
/// else, in the order of their weight.
pub proof fn lemma_decimal_reads_back(n: nat)
    ensures
        decimal(n).len() > 0,
        forall|i: int| 0 <= i < decimal(n).len() ==> '0' <= #[trigger] decimal(n)[i] <= '9',
        decimal_value(decimal(n)) == n,
    decreases n,
{
    if n < 10 {
        assert(decimal(n).drop_last() =~= Seq::<char>::empty());
        assert(decimal_value(decimal(n).drop_last()) == 0);
    } else {
        lemma_decimal_reads_back(n / 10);
        assert(decimal(n).drop_last() =~= decimal(n / 10));
    }
}

/// Leading white space ends at `a`: trimming the start skips exactly `a`
/// characters.
pub proof fn lemma_trim_start(s: Seq<char>, a: int)
    requires
        0 <= a <= s.len(),
        forall|j: int| 0 <= j < a ==> is_whitespace(s[j]),
        a < s.len() ==> !is_whitespace(s[a]),
    ensures
        trim_start(s) == s.skip(a),
    decreases a,
{
    if a > 0 {
        let rest = s.drop_first();
        lemma_trim_start(rest, a - 1);
    }
}

/// Trailing white space starts at `b`: trimming the end keeps exactly `b`
/// characters.
pub proof fn lemma_trim_end(s: Seq<char>, b: int)
    requires
        0 <= b <= s.len(),
        forall|j: int| b <= j < s.len() ==> is_whitespace(s[j]),
        0 < b ==> !is_whitespace(s[b - 1]),
    ensures
        trim_end(s) == s.take(b),
    decreases s.len() - b,
{
    if b < s.len() {
        let rest = s.drop_last();
        lemma_trim_end(rest, b);
    }
}

/// What trimming the start skips: `a` characters of white space, up to the
/// first character that is none.
pub proof fn lemma_trim_start_bound(s: Seq<char>) -> (a: int)
    ensures
        0 <= a <= s.len(),
        trim_start(s) == s.skip(a),
        forall|j: int| 0 <= j < a ==> is_whitespace(#[trigger] s[j]),
        a < s.len() ==> !is_whitespace(s[a]),
    decreases s.len(),
{
    if s.len() > 0 && is_whitespace(s.first()) {
        let rest = s.drop_first();
        let a = lemma_trim_start_bound(rest);
        assert forall|j: int| 0 <= j < a + 1 implies is_whitespace(#[trigger] s[j]) by {
            if j > 0 {
                assert(s[j] == rest[j - 1]);
            }
        }
        a + 1
    } else {
        0
    }
}

/// What trimming the end keeps: `b` characters, down to the last one that
/// is no white space.
pub proof fn lemma_trim_end_bound(s: Seq<char>) -> (b: int)
    ensures
        0 <= b <= s.len(),
        trim_end(s) == s.take(b),
        forall|j: int| b <= j < s.len() ==> is_whitespace(#[trigger] s[j]),
        0 < b ==> !is_whitespace(s[b - 1]),
    decreases s.len(),
{
    if s.len() > 0 && is_whitespace(s.last()) {
        let rest = s.drop_last();
        let b = lemma_trim_end_bound(rest);
        assert forall|j: int| b <= j < s.len() implies is_whitespace(#[trigger] s[j]) by {
            if j < s.len() - 1 {
                assert(s[j] == rest[j]);
            }
        }
        b
    } else {
        s.len() as int
    }
}

/// What trimming keeps: the characters from `r.0` up to `r.1`. White space
/// alone lies before and after, and what is kept neither starts nor ends
/// with white space.
pub proof fn lemma_trim_bounds(s: Seq<char>) -> (r: (int, int))
    ensures
        0 <= r.0 <= r.1 <= s.len(),
        trim(s) == s.subrange(r.0, r.1),
        forall|j: int| 0 <= j < r.0 ==> is_whitespace(#[trigger] s[j]),
        forall|j: int| r.1 <= j < s.len() ==> is_whitespace(#[trigger] s[j]),
        r.0 < r.1 ==> !is_whitespace(s[r.0]) && !is_whitespace(s[r.1 - 1]),
{
    let a = lemma_trim_start_bound(s);
    let head = s.skip(a);
    let b = lemma_trim_end_bound(head);
    assert forall|j: int| a + b <= j < s.len() implies is_whitespace(#[trigger] s[j]) by {
        assert(s[j] == head[j - a]);
    }
    (a, a + b)
}

/// `first_delimiter` finds position `k` when no delimiter stands before `k`
/// and `k` is either a delimiter or the end of the text.
pub proof fn lemma_first_delimiter(s: Seq<char>, k: int)
    requires
        0 <= k <= s.len(),
        forall|j: int| 0 <= j < k ==> !is_delimiter(s[j]),
        k < s.len() ==> is_delimiter(s[k]),
    ensures
        first_delimiter(s) == k,
    decreases k,
{
    if k > 0 {
        let rest = s.drop_first();
        lemma_first_delimiter(rest, k - 1);
    }
}

/// Where `first_delimiter` points inside the text, a delimiter stands, and
/// none stands before it.
pub proof fn lemma_first_delimiter_is_delimiter(s: Seq<char>)
    ensures
        0 <= first_delimiter(s) <= s.len(),
        first_delimiter(s) < s.len() ==> is_delimiter(s[first_delimiter(s)]),
        forall|j: int| 0 <= j < first_delimiter(s) ==> !is_delimiter(#[trigger] s[j]),
    decreases s.len(),
{
    if s.len() > 0 && !is_delimiter(s.first()) {
        let rest = s.drop_first();
        lemma_first_delimiter_is_delimiter(rest);
        assert forall|j: int| 0 <= j < first_delimiter(s) implies !is_delimiter(
            #[trigger] s[j],
        ) by {
            if j > 0 {
                assert(s[j] == rest[j - 1]);
            }
        }
    }
}

/// No piece holds a delimiter.
pub proof fn lemma_pieces_hold_no_delimiter(s: Seq<char>, i: int, j: int)
    requires
        0 <= i < split(s).len(),
        0 <= j < split(s)[i].len(),
    ensures
        !is_delimiter(split(s)[i][j]),
    decreases s.len(),
{
    let k = first_delimiter(s);
    lemma_first_delimiter_is_delimiter(s);
    if 0 <= k < s.len() {
        if i > 0 {
            let rest = s.skip(k + 1);
            lemma_pieces_hold_no_delimiter(rest, i - 1, j);
        }
    }
}

/// Characters before the first delimiter do not count.
proof fn lemma_delimiter_count_skips(s: Seq<char>, k: int)
    requires
        0 <= k <= s.len(),
        forall|j: int| 0 <= j < k ==> !is_delimiter(#[trigger] s[j]),
    ensures
        delimiter_count(s) == delimiter_count(s.skip(k)),
    decreases k,
{
    if k > 0 {
        let rest = s.drop_first();
        lemma_delimiter_count_skips(rest, k - 1);
        assert(rest.skip(k - 1) =~= s.skip(k));
    } else {
        assert(s.skip(0) =~= s);
    }
}

/// There is one piece more than there are delimiters, and as many elements
/// as pieces.
pub proof fn lemma_piece_count(s: Seq<char>)
    ensures
        split(s).len() == delimiter_count(s) + 1,
        tokens(s).len() == delimiter_count(s) + 1,
    decreases s.len(),
{
    let i = first_delimiter(s);
    lemma_first_delimiter_is_delimiter(s);
    lemma_delimiter_count_skips(s, i);
    if 0 <= i < s.len() {
        lemma_piece_count(s.skip(i + 1));
        assert(s.skip(i).drop_first() =~= s.skip(i + 1));
    }
}

/// Joining with a part in front: the part, the separator, then the rest
/// joined.
proof fn lemma_joined_prepend(head: Seq<char>, rest: Seq<Seq<char>>, separator: Seq<char>)
    requires
        rest.len() > 0,
    ensures
        joined(seq![head] + rest, separator) == head + separator + joined(rest, separator),
    decreases rest.len(),
{
    let all = seq![head] + rest;
    if rest.len() == 1 {
        assert(all.drop_last() =~= seq![head]);
        assert(joined(seq![head], separator) == head);
    } else {
        assert(all.drop_last() =~= seq![head] + rest.drop_last());
        lemma_joined_prepend(head, rest.drop_last(), separator);
    }
}

/// Splitting loses nothing: the pieces of `s`, joined with the delimiter,
/// are `s` again.
pub proof fn lemma_split_joins_back(s: Seq<char>)
    ensures
        split(s).len() > 0,
        joined(split(s), seq![',']) == s,
    decreases s.len(),
{
    let i = first_delimiter(s);
    if 0 <= i < s.len() {
        let rest = s.skip(i + 1);
        lemma_split_joins_back(rest);
        lemma_joined_prepend(s.take(i), split(rest), seq![',']);
        lemma_first_delimiter_is_delimiter(s);
    }
}

/// Whether `c` has the Unicode property `White_Space`.
#[verifier::when_used_as_spec(is_whitespace)]
pub fn is_whitespace_char(c: char) -> (r: bool)
    ensures
        r == is_whitespace(c),
{
    let n: u32 = c as u32;
    (0x0009 <= n && n <= 0x000D) || n == 0x0020 || n == 0x0085 || n == 0x00A0 || n == 0x1680 || (
    0x2000 <= n && n <= 0x200A) || n == 0x2028 || n == 0x2029 || n == 0x202F || n == 0x205F || n
        == 0x3000
}

/// The characters of `s`, in order.
pub fn chars_of(s: &str) -> (r: Vec<char>)
    ensures
        r@ == s@,
{
    let mut out: Vec<char> = Vec::new();
    for c in it: s.chars()
        invariant
            it.seq() == s@,
            out@ =~= s@.take(it.index() as int),
    {
        out.push(c);
    }
    out
}

/// Builds a `String` from characters with `String::from_iter`, std's
/// `FromIterator<&char>` for `String`. The contract claims that the string
/// holds exactly the given characters, in the given order.
#[verifier::external_body]
pub(crate) fn string_from_chars(chars: &[char]) -> (r: String)
    ensures
        r@ == chars@,
{
    String::from_iter(chars)
}

/// The bounds of what trimming leaves of `chars[start..end]`.
fn trimmed_bounds(chars: &Vec<char>, start: usize, end: usize) -> (r: (usize, usize))
    requires
        start <= end <= chars.len(),
    ensures
        start <= r.0 <= r.1 <= end,
        chars@.subrange(r.0 as int, r.1 as int) == trim(chars@.subrange(start as int, end as int)),
{
    let ghost piece = chars@.subrange(start as int, end as int);
    let mut a: usize = start;
    while a < end && is_whitespace_char(chars[a])
        invariant
            start <= a <= end <= chars.len(),
            piece == chars@.subrange(start as int, end as int),
            forall|j: int| 0 <= j < a - start ==> is_whitespace(piece[j]),
        decreases end - a,
    {
        a += 1;
    }
    let ghost head = piece.skip(a - start);
    proof {
        lemma_trim_start(piece, a - start);
    }
    let mut b: usize = end;
    while b > a && is_whitespace_char(chars[b - 1])
        invariant
            a <= b <= end <= chars.len(),
            head == chars@.subrange(a as int, end as int),
            forall|j: int| b - a <= j < head.len() ==> is_whitespace(head[j]),
        decreases b - a,
    {
        b -= 1;
    }
    proof {
        lemma_trim_end(head, b - a);
    }
    (a, b)
}

/// Cuts `s` at its commas and trims each piece.
pub fn split_tokens(s: &str) -> (r: Vec<String>)
    ensures
        texts(r@) == tokens(s@),
{
    let chars = chars_of(s);
    let n = chars.len();
    let mut out: Vec<String> = Vec::new();
    let ghost mut done: Seq<Seq<char>> = Seq::empty();
    let mut start: usize = 0;
    let mut p: usize = 0;
    proof {
        assert(chars@.skip(0) =~= chars@);
    }
    while p < n
        invariant
            n == chars.len(),
            chars@ == s@,
            start <= p <= n,
            forall|j: int| start <= j < p ==> !is_delimiter(chars@[j]),
            split(chars@) == done + split(chars@.skip(start as int)),
            out@.len() == done.len(),
            forall|i: int| 0 <= i < out@.len() ==> (#[trigger] out@[i])@ == trim(done[i]),
        decreases n - p,
    {
        if chars[p] == ',' {
            let (a, b) = trimmed_bounds(&chars, start, p);
            let token = string_from_chars(vstd::slice::slice_subrange(chars.as_slice(), a, b));
            proof {
                let rest = chars@.skip(start as int);
                lemma_first_delimiter(rest, p - start);
                assert(rest.take(p - start) =~= chars@.subrange(start as int, p as int));
                assert(rest.skip(p - start + 1) =~= chars@.skip(p + 1));
                let piece = chars@.subrange(start as int, p as int);
                done = done.push(piece);
            }
            out.push(token);
            start = p + 1;
        }
        p += 1;
    }
    let (a, b) = trimmed_bounds(&chars, start, n);
    let token = string_from_chars(vstd::slice::slice_subrange(chars.as_slice(), a, b));
    proof {
        let rest = chars@.skip(start as int);
        lemma_first_delimiter(rest, n - start);
        done = done.push(rest);
    }
    out.push(token);
    out
}

/// The character that writes the digit `d`.
fn digit_char(d: usize) -> (r: char)
    requires
        d < 10,
    ensures
        r == digit(d as nat),
{
    if d == 0 {
        '0'
    } else if d == 1 {
        '1'
    } else if d == 2 {
        '2'
    } else if d == 3 {
        '3'
    } else if d == 4 {
        '4'
    } else if d == 5 {
        '5'
    } else if d == 6 {
        '6'
    } else if d == 7 {
        '7'
    } else if d == 8 {
        '8'
    } else {
        '9'
    }
}

/// Writes `n` in base ten, without leading zeros.
pub fn decimal_string(n: usize) -> (r: String)
    ensures
        r@ == decimal(n as nat),
{
    let mut digits: Vec<char> = Vec::new();
    let mut rest: usize = n;
    while rest >= 10
        invariant
            decimal(n as nat) == decimal(rest as nat) + digits@,
        decreases rest,
    {
        let low = digit_char(rest % 10);
        assert(decimal(rest as nat) == decimal((rest / 10) as nat).push(low));
        digits.insert(0, low);
        rest = rest / 10;
    }
    let low = digit_char(rest);
    digits.insert(0, low);
    string_from_chars(digits.as_slice())
}

} // verus!
