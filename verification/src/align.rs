//! The aligner: renders a list of fraction strings as a column-aligned list.

use vstd::prelude::*;
use vstd::string::StrSliceExecFns;
use vstd::string::StringExecFns;

use crate::model::aligned_row;
use crate::model::all_well_formed;
use crate::model::left_padded;
use crate::model::lemma_max_row_len_bound;
use crate::model::lemma_max_whole_width_bound;
use crate::model::max_row_len;
use crate::model::max_whole_width;
use crate::model::normalized;
use crate::model::space_run;
use crate::model::views_of;
use crate::model::well_formed;
use crate::model::whole_width;
use crate::parse::dot_position;
use crate::parse::is_well_formed;
use crate::parse::normalize_fraction_part;

verus! {

/// Why a list of fraction strings was rejected.
#[derive(Clone, Copy, Debug, PartialEq, Eq, Structural)]
pub enum FmtAlignError {
    /// An input string neither is an opaque token (no decimal point) nor
    /// matches the numeric grammar `-? digit+ . digit+`.
    MalformedInput,
    /// The input list holds no entry, so no column widths are defined.
    EmptyInputList,
}

/// The precision of decimal places used when floating-point values are
/// rendered to fixed-precision decimal strings before alignment.
#[derive(Clone, Copy, Debug)]
pub enum FormatPrecision {
    /// Format with exactly `n` decimal places.
    Exact(u8),
    /// Format with a maximum of `n` decimal places. It might happen that not
    /// a single decimal place is required.
    Max(u8),
}

impl FormatPrecision {
    /// The number of decimal places that the precision policy carries.
    pub fn val(self) -> (r: usize)
        ensures
            r == match self {
                FormatPrecision::Exact(v) => v as usize,
                FormatPrecision::Max(v) => v as usize,
            },
    {
        match self {
            Self::Exact(v) => v as usize,
            Self::Max(v) => v as usize,
        }
    }
}

/// Appends `n` space characters to `s`.
fn push_spaces(s: &mut String, n: usize)
    ensures
        final(s)@ == old(s)@ + space_run(n as int),
{
    let mut i: usize = 0;
    while i < n
        invariant
            i <= n,
            s@ == old(s)@ + space_run(i as int),
        decreases n - i,
    {
        s.append(" ");
        proof {
            reveal_strlit(" ");
            assert(s@ =~= old(s)@ + space_run(i + 1));
        }
        i += 1;
    }
}

/// Aligns a list of formatted fraction number strings, with the
/// right-padding behavior chosen by the caller. Valid entries are for
/// example `1`, `3.14` and `-42`; a string without a decimal point that is
/// not of that shape, such as `NaN`, is taken verbatim as an opaque token.
///
/// Every entry first has its fractional part normalized (trailing zero
/// digits removed, an emptied fractional part dropped), then is left-padded
/// with spaces so that the sign-plus-whole-part columns of all entries share
/// one width: the decimal points line up. With `pad_to_equal_length` set,
/// every entry is also right-padded with spaces to the common total width,
/// so the output is a rectangular block of equal-length lines.
///
/// Rejects an empty list with [`FmtAlignError::EmptyInputList`] and a
/// malformed entry (one with a decimal point that does not match
/// `-? digit+ . digit+`) with [`FmtAlignError::MalformedInput`]; no partial
/// output is produced.
pub fn fmt_align_fraction_strings_opts(strings: &[&str], pad_to_equal_length: bool) -> (r: Result<
    Vec<String>,
    FmtAlignError,
>)
    ensures
        r is Ok <==> (strings@.len() > 0 && all_well_formed(views_of(strings@))),
        strings@.len() == 0 ==> r == Result::<Vec<String>, FmtAlignError>::Err(
            FmtAlignError::EmptyInputList,
        ),
        strings@.len() > 0 && !all_well_formed(views_of(strings@)) ==> r == Result::<
            Vec<String>,
            FmtAlignError,
        >::Err(FmtAlignError::MalformedInput),
        r is Ok ==> r->Ok_0@.len() == strings@.len(),
        r is Ok ==> forall|i: int|
            0 <= i < strings@.len() ==> r->Ok_0@[i]@ == aligned_row(
                views_of(strings@),
                i,
                pad_to_equal_length,
            ),
{
    let ghost vs = views_of(strings@);
    let n: usize = strings.len();
    if n == 0 {
        return Err(FmtAlignError::EmptyInputList);
    }
    let mut i: usize = 0;
    while i < n
        invariant
            i <= n,
            n == strings@.len(),
            vs == views_of(strings@),
            forall|j: int| 0 <= j < i ==> well_formed(vs[j]),
        decreases n - i,
    {
        if !is_well_formed(strings[i]) {
            proof {
                assert(!well_formed(vs[i as int]));
            }
            return Err(FmtAlignError::MalformedInput);
        }
        i += 1;
    }
    // normalize all fractional parts
    let mut norms: Vec<String> = Vec::new();
    let mut i: usize = 0;
    while i < n
        invariant
            i <= n,
            n == strings@.len(),
            vs == views_of(strings@),
            vs.len() == n,
            norms@.len() == i,
            forall|j: int| 0 <= j < i ==> norms@[j]@ == normalized(vs[j]),
        decreases n - i,
    {
        norms.push(String::from_str(normalize_fraction_part(strings[i])));
        i += 1;
    }
    // the shared width of the sign-plus-whole-part column
    let mut w: usize = 0;
    let mut i: usize = 0;
    while i < n
        invariant
            i <= n,
            n == strings@.len(),
            vs.len() == n,
            norms@.len() == n,
            forall|j: int| 0 <= j < n ==> norms@[j]@ == normalized(vs[j]),
            w == max_whole_width(vs, i as int),
        decreases n - i,
    {
        let d = dot_position(norms[i].as_str());
        proof {
            assert(d == whole_width(vs[i as int]));
        }
        if d > w {
            w = d;
        }
        i += 1;
    }
    // left-pad so that the decimal points line up
    let mut rows: Vec<String> = Vec::new();
    let mut i: usize = 0;
    while i < n
        invariant
            i <= n,
            n == strings@.len(),
            vs.len() == n,
            norms@.len() == n,
            forall|j: int| 0 <= j < n ==> norms@[j]@ == normalized(vs[j]),
            w == max_whole_width(vs, n as int),
            rows@.len() == i,
            forall|j: int| 0 <= j < i ==> rows@[j]@ == left_padded(vs[j], w as int),
        decreases n - i,
    {
        let d = dot_position(norms[i].as_str());
        proof {
            assert(d == whole_width(vs[i as int]));
            lemma_max_whole_width_bound(vs, n as int, i as int);
        }
        let mut row = String::new();
        push_spaces(&mut row, w - d);
        row.append(norms[i].as_str());
        rows.push(row);
        i += 1;
    }
    if !pad_to_equal_length {
        proof {
            assert forall|j: int| 0 <= j < n implies rows@[j]@ == aligned_row(
                vs,
                j,
                false,
            ) by {
                assert(vs.len() == n);
            }
        }
        return Ok(rows);
    }
    // right-pad so that all lines share one total length
    let mut t: usize = 0;
    let mut i: usize = 0;
    while i < n
        invariant
            i <= n,
            n == strings@.len(),
            vs.len() == n,
            rows@.len() == n,
            forall|j: int| 0 <= j < n ==> rows@[j]@ == left_padded(vs[j], w as int),
            t == max_row_len(vs, w as int, i as int),
        decreases n - i,
    {
        let l = rows[i].as_str().unicode_len();
        if l > t {
            t = l;
        }
        i += 1;
    }
    let mut out: Vec<String> = Vec::new();
    let mut i: usize = 0;
    while i < n
        invariant
            i <= n,
            n == strings@.len(),
            vs.len() == n,
            rows@.len() == n,
            forall|j: int| 0 <= j < n ==> rows@[j]@ == left_padded(vs[j], w as int),
            w == max_whole_width(vs, n as int),
            t == max_row_len(vs, w as int, n as int),
            out@.len() == i,
            forall|j: int| 0 <= j < i ==> out@[j]@ == aligned_row(vs, j, true),
        decreases n - i,
    {
        let mut row = rows[i].clone();
        let l = row.as_str().unicode_len();
        proof {
            lemma_max_row_len_bound(vs, w as int, n as int, i as int);
        }
        push_spaces(&mut row, t - l);
        proof {
            assert(vs.len() == n);
            assert(row@ == aligned_row(vs, i as int, true));
        }
        out.push(row);
        i += 1;
    }
    Ok(out)
}

/// Aligns a list of formatted fraction number strings so that they can be
/// printed line by line with all sign, whole-part, decimal-point and
/// fractional-digit columns lined up. Right-padding to one common total
/// length is enabled; see [`fmt_align_fraction_strings_opts`] to choose.
///
/// This takes the precision from the longest fractional part (without
/// unnecessary zeroes) to align all strings.
///
/// ## Example input
/// ```text
/// "-42"
/// "0.3214"
/// "1000"
/// "-1000.2"
/// "2.00000"
/// ```
/// ## Example output
/// ```text
/// "  -42     "
/// "    0.3214"
/// " 1000     "
/// "-1000.2   "
/// "    2     "
/// ```
pub fn fmt_align_fraction_strings(strings: &[&str]) -> (r: Result<Vec<String>, FmtAlignError>)
    ensures
        r is Ok <==> (strings@.len() > 0 && all_well_formed(views_of(strings@))),
        strings@.len() == 0 ==> r == Result::<Vec<String>, FmtAlignError>::Err(
            FmtAlignError::EmptyInputList,
        ),
        strings@.len() > 0 && !all_well_formed(views_of(strings@)) ==> r == Result::<
            Vec<String>,
            FmtAlignError,
        >::Err(FmtAlignError::MalformedInput),
        r is Ok ==> r->Ok_0@.len() == strings@.len(),
        r is Ok ==> forall|i: int|
            0 <= i < strings@.len() ==> r->Ok_0@[i]@ == aligned_row(views_of(strings@), i, true),
{
    fmt_align_fraction_strings_opts(strings, true)
}

} // verus!
