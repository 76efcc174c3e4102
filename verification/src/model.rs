//! The mathematical model of fraction strings: what counts as a well-formed
//! entry, how an entry splits into whole and fractional part, how trailing
//! zeroes are trimmed, and what the aligned output rows are.

use vstd::prelude::*;

verus! {

/// A decimal digit character.
pub open spec fn is_digit_char(c: char) -> bool {
    '0' <= c && c <= '9'
}

/// Every character of `s` is a decimal digit.
pub open spec fn all_digits(s: Seq<char>) -> bool {
    forall|i: int| 0 <= i < s.len() ==> is_digit_char(s[i])
}

/// Index of the first `'.'` in `s`, or `s.len()` if there is none.
pub open spec fn first_dot(s: Seq<char>) -> int
    decreases s.len(),
{
    if s.len() == 0 {
        0
    } else if s[0] == '.' {
        0
    } else {
        1 + first_dot(s.skip(1))
    }
}

pub proof fn lemma_first_dot_bounds(s: Seq<char>)
    ensures
        0 <= first_dot(s) <= s.len(),
        first_dot(s) < s.len() ==> s[first_dot(s)] == '.',
        forall|j: int| 0 <= j < first_dot(s) ==> s[j] != '.',
    decreases s.len(),
{
    if s.len() == 0 {
    } else if s[0] == '.' {
    } else {
        lemma_first_dot_bounds(s.skip(1));
        assert forall|j: int| 0 <= j < first_dot(s) implies s[j] != '.' by {
            if j > 0 {
                assert(s.skip(1)[j - 1] != '.');
            }
        }
    }
}

/// The first `'.'` of `s` sits exactly at `i` when no earlier character is a
/// `'.'` and either `i` is the length of `s` or the character at `i` is `'.'`.
pub proof fn lemma_first_dot_is(s: Seq<char>, i: int)
    requires
        0 <= i <= s.len(),
        forall|j: int| 0 <= j < i ==> s[j] != '.',
        i < s.len() ==> s[i] == '.',
        i == s.len() ==> forall|j: int| 0 <= j < s.len() ==> s[j] != '.',
    ensures
        first_dot(s) == i,
    decreases i,
{
    if i == 0 {
        if s.len() > 0 && s[0] != '.' {
            lemma_first_dot_bounds(s);
            if first_dot(s) < s.len() {
                assert(s[first_dot(s)] == '.');
            }
        }
    } else {
        assert(s[0] != '.');
        lemma_first_dot_is(s.skip(1), i - 1);
    }
}

/// The whole part of an entry: everything before the first `'.'` (the sign,
/// when present, included), or the whole string if there is no `'.'`.
pub open spec fn whole_of(s: Seq<char>) -> Seq<char> {
    s.subrange(0, first_dot(s))
}

/// The raw fractional part of an entry: the characters between the first `'.'`
/// and the next `'.'` or the end of the string; absent if there is no `'.'`.
pub open spec fn frac_of(s: Seq<char>) -> Option<Seq<char>> {
    if first_dot(s) == s.len() {
        None
    } else {
        Some(whole_of(s.skip(first_dot(s) + 1)))
    }
}

/// Length of the maximal run of `'0'` characters at the end of `s`.
pub open spec fn trailing_zeroes(s: Seq<char>) -> int
    decreases s.len(),
{
    if s.len() == 0 {
        0
    } else if s[s.len() - 1] == '0' {
        1 + trailing_zeroes(s.drop_last())
    } else {
        0
    }
}

pub proof fn lemma_trailing_zeroes_props(s: Seq<char>)
    ensures
        0 <= trailing_zeroes(s) <= s.len(),
        forall|j: int| s.len() - trailing_zeroes(s) <= j < s.len() ==> s[j] == '0',
        trailing_zeroes(s) < s.len() ==> s[s.len() - trailing_zeroes(s) - 1] != '0',
    decreases s.len(),
{
    if s.len() == 0 {
    } else if s[s.len() - 1] == '0' {
        lemma_trailing_zeroes_props(s.drop_last());
        assert forall|j: int| s.len() - trailing_zeroes(s) <= j < s.len() implies s[j] == '0' by {
            if j < s.len() - 1 {
                assert(s.drop_last()[j] == '0');
            }
        }
    }
}

/// The trailing run of `'0'` has length `z` when the last `z` characters are
/// `'0'` and the character before them, if any, is not.
pub proof fn lemma_trailing_zeroes_is(s: Seq<char>, z: int)
    requires
        0 <= z <= s.len(),
        forall|j: int| s.len() - z <= j < s.len() ==> s[j] == '0',
        z < s.len() ==> s[s.len() - z - 1] != '0',
    ensures
        trailing_zeroes(s) == z,
    decreases z,
{
    if z == 0 {
        if s.len() > 0 {
            assert(s[s.len() - 1] != '0');
        }
    } else {
        assert(s[s.len() - 1] == '0');
        lemma_trailing_zeroes_is(s.drop_last(), z - 1);
    }
}

/// One entry with its fractional part normalized: trailing `'0'` digits are
/// removed, and a fractional part that becomes empty is dropped together with
/// the decimal point. An entry without a `'.'` is reduced to its whole part,
/// which is the entry itself.
pub open spec fn normalized(s: Seq<char>) -> Seq<char> {
    match frac_of(s) {
        None => whole_of(s),
        Some(f) => {
            let z = trailing_zeroes(f);
            if f.len() == z {
                whole_of(s)
            } else {
                s.take(s.len() - z)
            }
        },
    }
}

/// Length of the optional leading `'-'` sign: `1` or `0`.
pub open spec fn sign_len(s: Seq<char>) -> int {
    if s.len() > 0 && s[0] == '-' {
        1
    } else {
        0
    }
}

/// `s` matches `-? digit+ . digit+`: an optional sign, a non-empty whole
/// digit run, one decimal point, and a non-empty fractional digit run.
pub open spec fn is_fraction_form(s: Seq<char>) -> bool {
    let b = sign_len(s);
    let d = first_dot(s);
    &&& b < d
    &&& d < s.len()
    &&& all_digits(s.subrange(b, d))
    &&& d + 1 < s.len()
    &&& all_digits(s.subrange(d + 1, s.len() as int))
}

/// An accepted input string: either it carries no decimal point at all, and is
/// then taken verbatim as an opaque whole-part-only token (this is what lets
/// special tokens such as `"NaN"` or `"inf"` flow through the alignment), or
/// it carries one and must then match `-? digit+ . digit+`.
pub open spec fn well_formed(s: Seq<char>) -> bool {
    s.len() > 0 && (first_dot(s) == s.len() || is_fraction_form(s))
}

/// The views of a list of string slices.
pub open spec fn views_of(ss: Seq<&str>) -> Seq<Seq<char>> {
    ss.map_values(|s: &str| s@)
}

/// Every entry of `vs` is well-formed.
pub open spec fn all_well_formed(vs: Seq<Seq<char>>) -> bool {
    forall|i: int| 0 <= i < vs.len() ==> well_formed(vs[i])
}

/// Width of the sign-plus-whole-part column of one normalized entry.
pub open spec fn whole_width(s: Seq<char>) -> int {
    first_dot(normalized(s))
}

/// Maximum sign-plus-whole-part width over the first `n` entries.
pub open spec fn max_whole_width(vs: Seq<Seq<char>>, n: int) -> int
    decreases n,
{
    if n <= 0 {
        0
    } else {
        let m = max_whole_width(vs, n - 1);
        let x = whole_width(vs[n - 1]);
        if x > m {
            x
        } else {
            m
        }
    }
}

/// A run of `n` space characters.
pub open spec fn space_run(n: int) -> Seq<char>
    decreases n,
{
    if n <= 0 {
        Seq::empty()
    } else {
        space_run(n - 1).push(' ')
    }
}

pub proof fn lemma_space_run_props(n: int)
    ensures
        space_run(n).len() == if n <= 0 { 0int } else { n },
        forall|j: int| 0 <= j < space_run(n).len() ==> space_run(n)[j] == ' ',
    decreases n,
{
    if n > 0 {
        lemma_space_run_props(n - 1);
    }
}

/// One normalized entry, left-padded with spaces so that its sign-plus-whole
/// part occupies exactly the column width `w`.
pub open spec fn left_padded(s: Seq<char>, w: int) -> Seq<char> {
    space_run(w - whole_width(s)) + normalized(s)
}

/// Maximum left-padded row length over the first `n` entries, at column
/// width `w`.
pub open spec fn max_row_len(vs: Seq<Seq<char>>, w: int, n: int) -> int
    decreases n,
{
    if n <= 0 {
        0
    } else {
        let m = max_row_len(vs, w, n - 1);
        let x = left_padded(vs[n - 1], w).len() as int;
        if x > m {
            x
        } else {
            m
        }
    }
}

/// Row `i` of the aligned output: the left-padded normalized entry and, when
/// `pad_to_equal_length` is set, trailing spaces up to the common total width.
pub open spec fn aligned_row(vs: Seq<Seq<char>>, i: int, pad_to_equal_length: bool) -> Seq<char> {
    let w = max_whole_width(vs, vs.len() as int);
    let lp = left_padded(vs[i], w);
    if pad_to_equal_length {
        lp + space_run(max_row_len(vs, w, vs.len() as int) - lp.len())
    } else {
        lp
    }
}

/// Width of the whole-part digit run of one normalized entry, the sign
/// excluded.
pub open spec fn digit_width(s: Seq<char>) -> int {
    whole_width(s) - sign_len(normalized(s))
}

/// Maximum whole-part digit width over the first `n` entries.
pub open spec fn max_digit_width(vs: Seq<Seq<char>>, n: int) -> int
    decreases n,
{
    if n <= 0 {
        0
    } else {
        let m = max_digit_width(vs, n - 1);
        let x = digit_width(vs[n - 1]);
        if x > m {
            x
        } else {
            m
        }
    }
}

/// Some entry whose whole part has the maximum digit count carries a sign.
pub open spec fn sign_at_max_digit_width(vs: Seq<Seq<char>>) -> bool {
    exists|i: int|
        0 <= i < vs.len() && digit_width(vs[i]) == max_digit_width(vs, vs.len() as int)
            && sign_len(normalized(vs[i])) == 1
}

pub proof fn lemma_max_whole_width_bound(vs: Seq<Seq<char>>, n: int, i: int)
    requires
        0 <= i < n,
    ensures
        whole_width(vs[i]) <= max_whole_width(vs, n),
    decreases n,
{
    if i < n - 1 {
        lemma_max_whole_width_bound(vs, n - 1, i);
    }
}

pub proof fn lemma_max_row_len_bound(vs: Seq<Seq<char>>, w: int, n: int, i: int)
    requires
        0 <= i < n,
    ensures
        left_padded(vs[i], w).len() <= max_row_len(vs, w, n),
    decreases n,
{
    if i < n - 1 {
        lemma_max_row_len_bound(vs, w, n - 1, i);
    }
}

pub proof fn lemma_max_digit_width_bound(vs: Seq<Seq<char>>, n: int, i: int)
    requires
        0 <= i < n,
    ensures
        digit_width(vs[i]) <= max_digit_width(vs, n),
    decreases n,
{
    if i < n - 1 {
        lemma_max_digit_width_bound(vs, n - 1, i);
    }
}

/// The sign of a normalized entry occupies zero or one character, and its
/// digit width is never negative.
pub proof fn lemma_widths_shape(s: Seq<char>)
    ensures
        0 <= sign_len(normalized(s)) <= 1,
        0 <= digit_width(s),
        whole_width(s) == digit_width(s) + sign_len(normalized(s)),
{
    let nm = normalized(s);
    lemma_first_dot_bounds(nm);
    if nm.len() > 0 && nm[0] == '-' {
        if first_dot(nm) == 0 {
            assert(nm[0] == '.');
        }
    }
}

/// A non-empty prefix attains its maximum sign-plus-whole-part width.
pub proof fn lemma_max_whole_width_attained(vs: Seq<Seq<char>>, n: int)
    requires
        0 < n,
    ensures
        exists|i: int| 0 <= i < n && #[trigger] whole_width(vs[i]) == max_whole_width(vs, n),
    decreases n,
{
    if n == 1 {
        lemma_widths_shape(vs[0]);
        assert(max_whole_width(vs, 0) == 0);
        assert(whole_width(vs[0]) == max_whole_width(vs, 1));
    } else {
        lemma_max_whole_width_attained(vs, n - 1);
        if whole_width(vs[n - 1]) > max_whole_width(vs, n - 1) {
            assert(whole_width(vs[n - 1]) == max_whole_width(vs, n));
        } else {
            let i = choose|i: int|
                0 <= i < n - 1 && #[trigger] whole_width(vs[i]) == max_whole_width(vs, n - 1);
            assert(whole_width(vs[i]) == max_whole_width(vs, n));
        }
    }
}

/// A non-empty prefix attains its maximum whole-part digit width.
pub proof fn lemma_max_digit_width_attained(vs: Seq<Seq<char>>, n: int)
    requires
        0 < n,
    ensures
        exists|i: int| 0 <= i < n && #[trigger] digit_width(vs[i]) == max_digit_width(vs, n),
    decreases n,
{
    if n == 1 {
        lemma_widths_shape(vs[0]);
        assert(max_digit_width(vs, 0) == 0);
        assert(digit_width(vs[0]) == max_digit_width(vs, 1));
    } else {
        lemma_max_digit_width_attained(vs, n - 1);
        if digit_width(vs[n - 1]) > max_digit_width(vs, n - 1) {
            assert(digit_width(vs[n - 1]) == max_digit_width(vs, n));
        } else {
            let i = choose|i: int|
                0 <= i < n - 1 && #[trigger] digit_width(vs[i]) == max_digit_width(vs, n - 1);
            assert(digit_width(vs[i]) == max_digit_width(vs, n));
        }
    }
}

} // verus!
