//! Formats a list of decimal fraction numbers, given as strings, so that they
//! are correctly aligned when printed line by line. Redundant trailing zero
//! digits are removed from the fractional part, so `"7.000000"` is rendered as
//! `"7"`.
//!
//! Each input string is parsed into an optional sign, a whole part and an
//! optional fractional part. After trimming, every entry is left-padded with
//! spaces so that the sign-plus-whole-part columns of all entries share one
//! width, which makes the decimal points line up; optionally every entry is
//! also right-padded so that all output strings share one total length.
//!
//! ## Example input
//! ```text
//! "-42"
//! "0.3214"
//! "1000"
//! "-1000.2"
//! "2.00000"
//! ```
//! ## Example output
//! ```text
//! "  -42     "
//! "    0.3214"
//! " 1000     "
//! "-1000.2   "
//! "    2     "
//! ```

pub mod align;
pub mod laws;
pub mod model;
pub mod parse;

pub use align::FmtAlignError;
pub use align::FormatPrecision;
pub use align::fmt_align_fraction_strings;
pub use align::fmt_align_fraction_strings_opts;
pub use parse::fraction_part_count_zeroes;
pub use parse::get_fractional_part;
pub use parse::get_whole_part;
pub use parse::is_well_formed;
pub use parse::normalize_fraction_part;
