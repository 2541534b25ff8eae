//! Text helpers: decimal parsing and formatting of integers, case-insensitive
//! keyword matching, substring search, and small string builders.
//!
//! Parsing and formatting of decimal integers are delegated to the standard
//! library behind trusted declarations whose contracts state the grammar
//! exactly; everything else here is verified code.

use vstd::prelude::*;

use vstd::string::StringExecFns;
use vstd::string::StrSliceExecFns;

verus! {

/// Whether `c` is an ASCII decimal digit.
pub open spec fn spec_is_digit(c: char) -> bool {
    '0' <= c && c <= '9'
}

/// The numeric value of an ASCII decimal digit.
pub open spec fn spec_digit_val(c: char) -> int {
    c as int - '0' as int
}

/// Whether every character of `s` is an ASCII decimal digit.
pub open spec fn spec_all_digits(s: Seq<char>) -> bool {
    forall|i: int| 0 <= i < s.len() ==> spec_is_digit(#[trigger] s[i])
}

/// The number denoted by a sequence of decimal digits, most significant
/// first.
pub open spec fn spec_digits_to_nat(s: Seq<char>) -> int
    decreases s.len(),
{
    if s.len() == 0 {
        0
    } else {
        spec_digits_to_nat(s.drop_last()) * 10 + spec_digit_val(s.last())
    }
}

/// The result of parsing a signed 64-bit integer from text, with the
/// standard library's grammar: an optional `+` or `-` sign followed by one
/// or more ASCII digits, and the value within the type's range.
pub open spec fn spec_parse_i64(s: Seq<char>) -> Option<i64> {
    if s.len() == 0 {
        Option::None
    } else {
        let signed = s[0] == '+' || s[0] == '-';
        let body = if signed {
            s.drop_first()
        } else {
            s
        };
        if body.len() == 0 || !spec_all_digits(body) {
            Option::None
        } else {
            let magnitude = spec_digits_to_nat(body);
            if s[0] == '-' {
                if -magnitude >= i64::MIN as int {
                    Option::Some((-magnitude) as i64)
                } else {
                    Option::None
                }
            } else {
                if magnitude <= i64::MAX as int {
                    Option::Some(magnitude as i64)
                } else {
                    Option::None
                }
            }
        }
    }
}

/// Relies on `str::parse::<i64>`: it accepts an optional sign followed by
/// one or more ASCII digits, rejects anything else, and rejects values
/// outside the `i64` range.
#[verifier::external_body]
pub fn parse_i64(s: &str) -> (r: Option<i64>)
    ensures
        r == spec_parse_i64(s@),
{
    s.parse::<i64>().ok()
}

/// The character for a decimal digit value.
pub open spec fn spec_digit_char(d: int) -> char {
    if d == 0 {
        '0'
    } else if d == 1 {
        '1'
    } else if d == 2 {
        '2'
    } else if d == 3 {
        '3'
    } else if d == 4 {
        '4'
    } else if d == 5 {
        '5'
    } else if d == 6 {
        '6'
    } else if d == 7 {
        '7'
    } else if d == 8 {
        '8'
    } else {
        '9'
    }
}

/// The decimal digits of a non-negative number, most significant first.
pub open spec fn spec_nat_digits(n: int) -> Seq<char>
    decreases n,
{
    if n < 0 {
        Seq::empty()
    } else if n < 10 {
        seq![spec_digit_char(n)]
    } else {
        spec_nat_digits(n / 10).push(spec_digit_char(n % 10))
    }
}

/// The decimal text of a signed number: a `-` for negative values, then the
/// digits of the magnitude.
pub open spec fn spec_int_string(i: int) -> Seq<char> {
    if i < 0 {
        seq!['-'].add(spec_nat_digits(-i))
    } else {
        spec_nat_digits(i)
    }
}

/// Relies on `i64`'s `Display` implementation: it prints the sign for
/// negative values followed by the decimal digits of the magnitude, without
/// padding or separators.
#[verifier::external_body]
pub fn i64_to_string(i: i64) -> (r: String)
    ensures
        r@ == spec_int_string(i as int),
{
    i.to_string()
}

/// Relies on `u64`'s `Display` implementation: it prints the decimal digits
/// of the value, without padding or separators.
#[verifier::external_body]
pub fn u64_to_string(n: u64) -> (r: String)
    ensures
        r@ == spec_nat_digits(n as int),
{
    n.to_string()
}

/// Whether `s` equals `keyword` up to ASCII case folding of `s`; `keyword`
/// is expected in lower case.
pub open spec fn spec_eq_ignore_ascii_case(s: Seq<char>, keyword: Seq<char>) -> bool {
    s.len() == keyword.len() && (forall|i: int|
        0 <= i < s.len() ==> spec_char_folds_to(#[trigger] s[i], keyword[i]))
}

/// Whether `c` is `k` or the ASCII upper-case form of `k`.
pub open spec fn spec_char_folds_to(c: char, k: char) -> bool {
    c == k || ('A' <= c && c <= 'Z' && c as int + 32 == k as int)
}

/// Case-insensitive comparison against a lower-case keyword; agrees with
/// [`spec_eq_ignore_ascii_case`].
pub fn eq_ignore_ascii_case(s: &str, keyword: &str) -> (r: bool)
    ensures
        r == spec_eq_ignore_ascii_case(s@, keyword@),
{
    let sn = s.unicode_len();
    let kn = keyword.unicode_len();
    if sn != kn {
        return false;
    }
    let mut i: usize = 0;
    while i < sn
        invariant
            i <= sn,
            sn == s@.len(),
            kn == keyword@.len(),
            sn == kn,
            forall|j: int| 0 <= j < i ==> spec_char_folds_to(#[trigger] s@[j], keyword@[j]),
        decreases sn - i,
    {
        let c = s.get_char(i);
        let k = keyword.get_char(i);
        let folds = c == k || ('A' <= c && c <= 'Z' && (c as u32) + 32 == (k as u32));
        if !folds {
            return false;
        }
        i = i + 1;
    }
    true
}

/// Whether `sub` occurs contiguously inside `s`.
pub open spec fn spec_contains_seq(s: Seq<char>, sub: Seq<char>) -> bool {
    exists|i: int|
        0 <= i && i + sub.len() <= s.len() && #[trigger] s.subrange(i, i + sub.len() as int) == sub
}

/// Relies on `str::contains` with a `&str` pattern: it reports whether the
/// pattern occurs as a contiguous substring (the empty pattern always
/// occurs).
#[verifier::external_body]
pub fn str_contains(s: &str, sub: &str) -> (r: bool)
    ensures
        r == spec_contains_seq(s@, sub@),
{
    s.contains(sub)
}

/// Concatenation of two string slices.
pub fn concat2(a: &str, b: &str) -> (r: String)
    ensures
        r@ == a@ + b@,
{
    let mut r = a.to_owned();
    r.append(b);
    r
}

/// Concatenation of three string slices.
pub fn concat3(a: &str, b: &str, c: &str) -> (r: String)
    ensures
        r@ == a@ + b@ + c@,
{
    let mut r = a.to_owned();
    r.append(b);
    r.append(c);
    r
}

} // verus!
