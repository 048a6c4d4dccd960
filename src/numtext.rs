use vstd::prelude::*;

verus! {

/// The error of `i64::from_str_radix`, carried through opaque.
#[verifier::external_type_specification]
#[verifier::external_body]
pub struct ExParseIntError(std::num::ParseIntError);

/// The value of a character read as a digit: `0-9`, then `a-z` and `A-Z`
/// from ten on; 36 for any other character, a digit in no radix.
pub open spec fn digit_value(c: char) -> int {
    if '0' <= c && c <= '9' {
        c as int - '0' as int
    } else if 'a' <= c && c <= 'z' {
        c as int - 'a' as int + 10
    } else if 'A' <= c && c <= 'Z' {
        c as int - 'A' as int + 10
    } else {
        36
    }
}

/// Every character of `s` is a digit below `radix`.
pub open spec fn all_digits(s: Seq<char>, radix: int) -> bool {
    forall|i: int| 0 <= i < s.len() ==> #[trigger] digit_value(s[i]) < radix
}

/// The value of a digit string, most significant digit first.
pub open spec fn digits_value(s: Seq<char>, radix: int) -> int
    decreases s.len(),
{
    if s.len() == 0 {
        0
    } else {
        digits_value(s.drop_last(), radix) * radix + digit_value(s.last())
    }
}

pub open spec fn is_sign(c: char) -> bool {
    c == '+' || c == '-'
}

pub open spec fn is_decimal(c: char) -> bool {
    '0' <= c && c <= '9'
}

/// What an integer text denotes: an optional sign, then one or more digits
/// of the radix, and nothing else.
pub open spec fn radix_text_value(s: Seq<char>, radix: int) -> Option<int> {
    let body = if s.len() > 0 && is_sign(s[0]) { s.drop_first() } else { s };
    if body.len() > 0 && all_digits(body, radix) {
        if s[0] == '-' {
            Some(-digits_value(body, radix))
        } else {
            Some(digits_value(body, radix))
        }
    } else {
        None
    }
}

pub open spec fn fits_i64(v: int) -> bool {
    i64::MIN <= v <= i64::MAX
}

/// Relies on `i64::from_str_radix`: it accepts exactly an optional sign
/// followed by one or more digits of the radix, and fails when the value
/// does not fit in an `i64`; it panics on a radix outside `2..=36`.
#[verifier::external_body]
fn i64_from_radix(text: &[char], radix: u32) -> (r: Result<i64, std::num::ParseIntError>)
    requires
        2 <= radix <= 36,
    ensures
        r is Ok <==> (radix_text_value(text@, radix as int) is Some && fits_i64(
            radix_text_value(text@, radix as int)->0,
        )),
        r is Ok ==> r->Ok_0 as int == radix_text_value(text@, radix as int)->0,
{
    i64::from_str_radix(&text.iter().collect::<String>(), radix)
}

/// The first index at or after `i` that does not hold a decimal digit.
pub open spec fn decimal_run_end(s: Seq<char>, i: int) -> int
    decreases s.len() - i,
{
    if 0 <= i < s.len() && is_decimal(s[i]) {
        decimal_run_end(s, i + 1)
    } else {
        i
    }
}

/// Where the number at the start of `s` ends: past an optional sign and the
/// decimal digits that follow it.
pub open spec fn number_end(s: Seq<char>) -> int {
    decimal_run_end(s, if s.len() > 0 && is_sign(s[0]) { 1 } else { 0 })
}

pub proof fn lemma_run_end_bounds(s: Seq<char>, i: int)
    requires
        0 <= i <= s.len(),
    ensures
        i <= decimal_run_end(s, i) <= s.len(),
        forall|k: int| i <= k < decimal_run_end(s, i) ==> is_decimal(#[trigger] s[k]),
    decreases s.len() - i,
{
    if i < s.len() && is_decimal(s[i]) {
        lemma_run_end_bounds(s, i + 1);
    }
}

/// A run of digits read from index `j` on ends where the same run ends when
/// read from the start of the suffix that begins at `j`, shifted by `j`.
pub proof fn lemma_run_end_suffix(s: Seq<char>, j: int, k: int)
    requires
        0 <= j <= s.len(),
        0 <= k <= s.len() - j,
    ensures
        decimal_run_end(s.subrange(j, s.len() as int), k) + j == decimal_run_end(s, j + k),
    decreases s.len() - j - k,
{
    if k < s.len() - j {
        lemma_run_end_suffix(s, j, k + 1);
    }
}

/// Digit strings have non-negative values.
pub proof fn lemma_digits_value_nonneg(s: Seq<char>, radix: int)
    requires
        radix >= 0,
    ensures
        digits_value(s, radix) >= 0,
    decreases s.len(),
{
    if s.len() > 0 {
        lemma_digits_value_nonneg(s.drop_last(), radix);
        assert(digits_value(s.drop_last(), radix) * radix >= 0) by (nonlinear_arith)
            requires
                digits_value(s.drop_last(), radix) >= 0,
                radix >= 0,
        ;
    }
}

/// Reads the signed number at the start of `string`: an optional sign and
/// the decimal digits after it, taken as a number in `base`.
///
/// On success `idx` is left on the last character read; on failure (a sign
/// with no digit after it, a digit too large for `base`, or a value that
/// does not fit in an `i64`) it is set to zero.
pub fn str_to_i64(string: &[char], idx: &mut usize, base: u32) -> (r: Result<
    i64,
    std::num::ParseIntError,
>)
    requires
        string@.len() > 0,
        2 <= base <= 36,
        is_sign(string@[0]) || is_decimal(string@[0]),
    ensures
        r is Ok <==> (radix_text_value(string@.subrange(0, number_end(string@)), base as int) is Some
            && fits_i64(radix_text_value(string@.subrange(0, number_end(string@)), base as int)->0)),
        r is Ok ==> r->Ok_0 as int == radix_text_value(
            string@.subrange(0, number_end(string@)),
            base as int,
        )->0,
        r is Ok ==> *final(idx) as int == number_end(string@) - 1,
        r is Err ==> *final(idx) == 0,
{
    let start: usize = if string[0] == '-' || string[0] == '+' {
        1
    } else {
        0
    };
    let mut end: usize = start;
    proof {
        lemma_run_end_bounds(string@, start as int);
    }
    while end < string.len() && '0' <= string[end] && string[end] <= '9'
        invariant
            start <= end <= string@.len(),
            decimal_run_end(string@, end as int) == decimal_run_end(string@, start as int),
        decreases string@.len() - end,
    {
        end = end + 1;
    }
    assert(end as int == number_end(string@));
    let result = i64_from_radix(&string[0..end], base);
    match result {
        Ok(v) => {
            *idx = end - 1;
            Ok(v)
        },
        Err(e) => {
            *idx = 0;
            Err(e)
        },
    }
}

} // verus!
