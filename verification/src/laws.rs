//! Laws of the normalization and alignment model: trimming is idempotent,
//! padded rows share one length, the decimal points share one column, and
//! the whole-part column reserves one extra character exactly when a sign
//! appears at maximum digit width.

use vstd::prelude::*;

use crate::model::aligned_row;
use crate::model::digit_width;
use crate::model::first_dot;
use crate::model::frac_of;
use crate::model::is_digit_char;
use crate::model::left_padded;
use crate::model::lemma_first_dot_bounds;
use crate::model::lemma_first_dot_is;
use crate::model::lemma_max_digit_width_attained;
use crate::model::lemma_max_digit_width_bound;
use crate::model::lemma_max_row_len_bound;
use crate::model::lemma_max_whole_width_attained;
use crate::model::lemma_max_whole_width_bound;
use crate::model::lemma_space_run_props;
use crate::model::lemma_trailing_zeroes_props;
use crate::model::lemma_widths_shape;
use crate::model::max_digit_width;
use crate::model::max_row_len;
use crate::model::max_whole_width;
use crate::model::normalized;
use crate::model::sign_at_max_digit_width;
use crate::model::sign_len;
use crate::model::trailing_zeroes;
use crate::model::well_formed;
use crate::model::whole_of;
use crate::model::whole_width;

verus! {

/// Trimming the trailing zeroes of a digit run is idempotent: what remains
/// after one trim carries no trailing zero at all.
pub proof fn lemma_trim_trailing_zeroes_idempotent(f: Seq<char>)
    ensures
        trailing_zeroes(f.take(f.len() - trailing_zeroes(f))) == 0,
{
    lemma_trailing_zeroes_props(f);
    let z = trailing_zeroes(f);
    let t = f.take(f.len() - z);
    if t.len() > 0 {
        assert(t[t.len() - 1] == f[f.len() - z - 1]);
        assert(t[t.len() - 1] != '0');
    }
}

/// Normalizing an already-normalized entry is a no-op: one pass removes
/// every unnecessary trailing zero, so a second pass changes nothing.
pub proof fn lemma_normalize_idempotent(s: Seq<char>)
    requires
        well_formed(s),
    ensures
        normalized(normalized(s)) == normalized(s),
{
    lemma_first_dot_bounds(s);
    let d = first_dot(s);
    if d == s.len() {
        // no decimal point: the entry is its own whole part
        assert(normalized(s) =~= s);
    } else {
        let rest = s.skip(d + 1);
        assert(rest =~= s.subrange(d + 1, s.len() as int));
        assert(forall|j: int| 0 <= j < rest.len() ==> is_digit_char(#[trigger] rest[j]));
        assert(forall|j: int| 0 <= j < rest.len() ==> rest[j] != '.') by {
            assert(!is_digit_char('.'));
        }
        lemma_first_dot_is(rest, rest.len() as int);
        let f = frac_of(s)->Some_0;
        assert(f =~= rest);
        let z = trailing_zeroes(f);
        lemma_trailing_zeroes_props(f);
        if f.len() == z {
            // the fractional part is all zeroes: it is dropped entirely
            let t = whole_of(s);
            assert(t =~= s.take(d));
            assert(forall|j: int| 0 <= j < t.len() ==> t[j] != '.');
            lemma_first_dot_is(t, t.len() as int);
            assert(normalized(t) =~= t);
        } else {
            // some fractional digits stay; the trimmed tail has no zeroes left
            let t = s.take(s.len() - z);
            assert(t.len() == s.len() - z);
            assert(d + 1 < t.len());
            assert(forall|j: int| 0 <= j < d ==> t[j] != '.');
            assert(t[d] == '.');
            lemma_first_dot_is(t, d);
            let rest2 = t.skip(d + 1);
            assert(rest2 =~= f.take(f.len() - z));
            assert(forall|j: int| 0 <= j < rest2.len() ==> rest2[j] != '.') by {
                assert(forall|j: int| 0 <= j < rest2.len() ==> is_digit_char(#[trigger] rest2[j]));
                assert(!is_digit_char('.'));
            }
            lemma_first_dot_is(rest2, rest2.len() as int);
            let f2 = frac_of(t)->Some_0;
            assert(f2 =~= rest2);
            lemma_trim_trailing_zeroes_idempotent(f);
            assert(trailing_zeroes(f2) == 0);
            assert(f2.len() != 0);
            assert(normalized(t) =~= t);
        }
    }
}

/// Width invariant: with padding-to-equal-length enabled, every aligned row
/// has the same length, the maximum left-padded row length.
pub proof fn lemma_width_invariant(vs: Seq<Seq<char>>, i: int)
    requires
        0 <= i < vs.len(),
    ensures
        aligned_row(vs, i, true).len() == max_row_len(
            vs,
            max_whole_width(vs, vs.len() as int),
            vs.len() as int,
        ),
{
    let n = vs.len() as int;
    let w = max_whole_width(vs, n);
    let t = max_row_len(vs, w, n);
    let lp = left_padded(vs[i], w);
    lemma_max_row_len_bound(vs, w, n, i);
    lemma_space_run_props(t - lp.len());
}

/// Column alignment invariant: in every aligned row the sign-plus-whole part
/// ends at the shared column `w`, so the decimal point, when present, is the
/// first dot of the row and stands exactly at column `w`; a row without a
/// decimal point has none at all.
pub proof fn lemma_column_alignment(vs: Seq<Seq<char>>, i: int, pad_to_equal_length: bool)
    requires
        0 <= i < vs.len(),
    ensures
        ({
            let w = max_whole_width(vs, vs.len() as int);
            let nm = normalized(vs[i]);
            let row = aligned_row(vs, i, pad_to_equal_length);
            &&& w <= row.len()
            &&& row.subrange(w - first_dot(nm), w) == nm.take(first_dot(nm))
            &&& first_dot(row) == (if first_dot(nm) < nm.len() {
                w
            } else {
                row.len() as int
            })
        }),
{
    let n = vs.len() as int;
    let w = max_whole_width(vs, n);
    let nm = normalized(vs[i]);
    let d = first_dot(nm);
    let lp = left_padded(vs[i], w);
    let row = aligned_row(vs, i, pad_to_equal_length);
    lemma_max_whole_width_bound(vs, n, i);
    lemma_first_dot_bounds(nm);
    lemma_space_run_props(w - d);
    assert(lp.len() == (w - d) + nm.len());
    if pad_to_equal_length {
        lemma_max_row_len_bound(vs, w, n, i);
        lemma_space_run_props(max_row_len(vs, w, n) - lp.len());
    }
    assert(forall|j: int| 0 <= j < lp.len() ==> row[j] == lp[j]);
    assert(forall|j: int| lp.len() <= j < row.len() ==> row[j] == ' ');
    assert(forall|j: int| 0 <= j < w - d ==> row[j] == ' ');
    assert(forall|j: int| w - d <= j < lp.len() ==> row[j] == nm[j - (w - d)]);
    assert(row.subrange(w - d, w) =~= nm.take(d));
    assert(forall|j: int| 0 <= j < w ==> row[j] != '.') by {
        assert(forall|j: int| 0 <= j < d ==> nm[j] != '.');
        assert(' ' != '.');
    }
    if d < nm.len() {
        assert(row[w] == nm[d]);
        assert(row[w] == '.');
        lemma_first_dot_is(row, w);
    } else {
        assert(forall|j: int| 0 <= j < row.len() ==> row[j] != '.');
        lemma_first_dot_is(row, row.len() as int);
    }
}

/// Sign-width invariant: the reserved sign-plus-whole-part column width is
/// one greater than the maximum whole-part digit count exactly when some
/// entry at that maximum digit count carries a sign, and equal to it
/// otherwise.
pub proof fn lemma_sign_width_invariant(vs: Seq<Seq<char>>)
    requires
        vs.len() > 0,
    ensures
        max_whole_width(vs, vs.len() as int) == max_digit_width(vs, vs.len() as int) + (
        if sign_at_max_digit_width(vs) {
            1int
        } else {
            0int
        }),
{
    let n = vs.len() as int;
    let w = max_whole_width(vs, n);
    let maxd = max_digit_width(vs, n);
    lemma_max_whole_width_attained(vs, n);
    lemma_max_digit_width_attained(vs, n);
    let j = choose|j: int| 0 <= j < n && #[trigger] whole_width(vs[j]) == w;
    let k = choose|k: int| 0 <= k < n && #[trigger] digit_width(vs[k]) == maxd;
    lemma_widths_shape(vs[j]);
    lemma_widths_shape(vs[k]);
    lemma_max_digit_width_bound(vs, n, j);
    lemma_max_whole_width_bound(vs, n, k);
    if sign_at_max_digit_width(vs) {
        let m = choose|m: int|
            0 <= m < n && #[trigger] digit_width(vs[m]) == maxd && sign_len(normalized(vs[m]))
                == 1;
        lemma_widths_shape(vs[m]);
        lemma_max_whole_width_bound(vs, n, m);
        // w >= whole_width(vs[m]) == maxd + 1, and every entry stays within it
        assert(w == maxd + 1);
    } else {
        // no signed entry at maximum digit width: the widest entry either is
        // unsigned at maxd, or signed with strictly fewer digits
        if whole_width(vs[j]) == maxd + 1 {
            if sign_len(normalized(vs[j])) == 1 {
                assert(digit_width(vs[j]) == maxd);
                assert(sign_at_max_digit_width(vs));
            }
            assert(false);
        }
        assert(w == maxd);
    }
}

} // verus!
