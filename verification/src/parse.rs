//! Parsing and normalization of one fraction string: splitting it at the
//! decimal point and trimming redundant trailing zero digits from the
//! fractional part.

use vstd::prelude::*;
use vstd::string::StrSliceExecFns;

use crate::model::all_digits;
use crate::model::first_dot;
use crate::model::frac_of;
use crate::model::is_digit_char;
use crate::model::is_fraction_form;
use crate::model::lemma_first_dot_bounds;
use crate::model::lemma_first_dot_is;
use crate::model::lemma_trailing_zeroes_is;
use crate::model::lemma_trailing_zeroes_props;
use crate::model::normalized;
use crate::model::sign_len;
use crate::model::trailing_zeroes;
use crate::model::well_formed;
use crate::model::whole_of;

verus! {

/// Index of the first `'.'` in `s`, or the character length of `s` if there
/// is none.
pub(crate) fn dot_position(s: &str) -> (r: usize)
    ensures
        r == first_dot(s@),
{
    let len: usize = s.unicode_len();
    let mut i: usize = 0;
    while i < len
        invariant
            0 <= i <= len,
            len == s@.len(),
            forall|j: int| 0 <= j < i ==> s@[j] != '.',
        decreases len - i,
    {
        if s.get_char(i) == '.' {
            proof {
                lemma_first_dot_is(s@, i as int);
            }
            return i;
        }
        i += 1;
    }
    proof {
        lemma_first_dot_is(s@, len as int);
    }
    len
}

/// Get the whole part from a formatted fraction number string: everything
/// before the first decimal point, the sign included.
/// * `123` => `123`
/// * `123.13` => `123`
/// * `0.1234` => `0`
/// * `-10.1234` => `-10`
pub fn get_whole_part<'a>(string: &'a str) -> (r: &'a str)
    ensures
        r@ == whole_of(string@),
{
    let d = dot_position(string);
    proof {
        lemma_first_dot_bounds(string@);
    }
    string.substring_char(0, d)
}

/// Get the fractional part from a formatted fraction number string: the
/// characters between the first decimal point and the next one or the end of
/// the string; `None` if there is no decimal point.
/// * `123` => `None`
/// * `123.13` => `Some("13")`
/// * `0.1234` => `Some("1234")`
/// * `-10.1234` => `Some("1234")`
pub fn get_fractional_part<'a>(string: &'a str) -> (r: Option<&'a str>)
    ensures
        match r {
            None => frac_of(string@) is None,
            Some(f) => frac_of(string@) is Some && f@ == frac_of(string@)->Some_0,
        },
{
    let len: usize = string.unicode_len();
    let d = dot_position(string);
    proof {
        lemma_first_dot_bounds(string@);
    }
    if d == len {
        None
    } else {
        let rest = string.substring_char(d + 1, len);
        proof {
            assert(rest@ =~= string@.skip(d + 1));
        }
        Some(get_whole_part(rest))
    }
}

/// Counts the unnecessary trailing `'0'` characters of a raw fractional part
/// given without its `'.'`. In `"123000"` (fractional part of `"0.123000"`)
/// there are three unnecessary zeroes; in `"0000"` there are four.
pub fn fraction_part_count_zeroes(fraction_part: &str) -> (r: usize)
    ensures
        r == trailing_zeroes(fraction_part@),
{
    let len: usize = fraction_part.unicode_len();
    let mut z: usize = 0;
    while z < len
        invariant
            0 <= z <= len,
            len == fraction_part@.len(),
            forall|j: int| len - z <= j < len ==> fraction_part@[j] == '0',
        decreases len - z,
    {
        if fraction_part.get_char(len - 1 - z) != '0' {
            proof {
                lemma_trailing_zeroes_is(fraction_part@, z as int);
            }
            return z;
        }
        z += 1;
    }
    proof {
        lemma_trailing_zeroes_is(fraction_part@, len as int);
    }
    z
}

/// Normalizes the fractional part of one whole fraction number string: drops
/// its unnecessary trailing zero digits, and drops the decimal point too when
/// nothing else remains of the fractional part.
/// * `123` => `123`
/// * `123.13` => `123.13`
/// * `0.1234000` => `0.1234`
/// * `-10.000000` => `-10`
pub fn normalize_fraction_part<'a>(string: &'a str) -> (r: &'a str)
    ensures
        r@ == normalized(string@),
{
    let whole_part = get_whole_part(string);
    match get_fractional_part(string) {
        None => whole_part,
        Some(fraction_part) => {
            let zeroes = fraction_part_count_zeroes(fraction_part);
            let flen: usize = fraction_part.unicode_len();
            if flen == zeroes {
                whole_part
            } else {
                let len: usize = string.unicode_len();
                proof {
                    lemma_trailing_zeroes_props(fraction_part@);
                    lemma_first_dot_bounds(string@);
                    lemma_first_dot_bounds(string@.skip(first_dot(string@) + 1));
                    assert(string@.take(len - zeroes) =~= string@.subrange(
                        0,
                        len - zeroes,
                    ));
                }
                string.substring_char(0, len - zeroes)
            }
        },
    }
}

/// Decides whether one input string is accepted by the aligner: a string
/// without a decimal point is taken verbatim as an opaque token (so special
/// tokens such as `"NaN"` pass through), a string with one must match
/// `-? digit+ . digit+`.
pub fn is_well_formed(string: &str) -> (r: bool)
    ensures
        r == well_formed(string@),
{
    let len: usize = string.unicode_len();
    if len == 0 {
        return false;
    }
    let d = dot_position(string);
    proof {
        lemma_first_dot_bounds(string@);
    }
    if d == len {
        return true;
    }
    let b: usize = if string.get_char(0) == '-' {
        1
    } else {
        0
    };
    assert(b == sign_len(string@));
    if d <= b {
        return false;
    }
    if d + 1 >= len {
        return false;
    }
    let mut i: usize = b;
    while i < d
        invariant
            b <= i <= d,
            d < len,
            len == string@.len(),
            d == first_dot(string@),
            b == sign_len(string@),
            forall|j: int| b <= j < i ==> is_digit_char(string@[j]),
        decreases d - i,
    {
        if !is_ascii_digit(string.get_char(i)) {
            proof {
                assert(string@.subrange(b as int, d as int)[i - b] == string@[i as int]);
            }
            return false;
        }
        i += 1;
    }
    assert(all_digits(string@.subrange(b as int, d as int))) by {
        assert forall|j: int| 0 <= j < d - b implies is_digit_char(
            #[trigger] string@.subrange(b as int, d as int)[j],
        ) by {
            assert(string@.subrange(b as int, d as int)[j] == string@[b + j]);
        }
    }
    let mut k: usize = d + 1;
    while k < len
        invariant
            d + 1 <= k <= len,
            d < len,
            len == string@.len(),
            d == first_dot(string@),
            forall|j: int| d + 1 <= j < k ==> is_digit_char(string@[j]),
        decreases len - k,
    {
        if !is_ascii_digit(string.get_char(k)) {
            proof {
                assert(string@.subrange(d + 1, len as int)[k - (d + 1)] == string@[k as int]);
            }
            return false;
        }
        k += 1;
    }
    assert(all_digits(string@.subrange(d + 1, len as int))) by {
        assert forall|j: int| 0 <= j < len - (d + 1) implies is_digit_char(
            #[trigger] string@.subrange(d + 1, len as int)[j],
        ) by {
            assert(string@.subrange(d + 1, len as int)[j] == string@[d + 1 + j]);
        }
    }
    assert(is_fraction_form(string@));
    true
}

/// Decides whether a character is a decimal digit.
fn is_ascii_digit(c: char) -> (r: bool)
    ensures
        r == is_digit_char(c),
{
    '0' <= c && c <= '9'
}

} // verus!
