use fraction_list_fmt_align::FmtAlignError;
use fraction_list_fmt_align::FormatPrecision;
use fraction_list_fmt_align::fmt_align_fraction_strings;
use fraction_list_fmt_align::fmt_align_fraction_strings_opts;

#[test]
fn test_fmt_align_fraction_strings() {
    let res =
        fmt_align_fraction_strings(&vec!["-42", "0.3214", "1000", "-1000.2"].into_boxed_slice())
            .unwrap();
    assert_eq!("  -42     ", res[0]);
    assert_eq!("    0.3214", res[1]);
    assert_eq!(" 1000     ", res[2]);
    assert_eq!("-1000.2   ", res[3]);

    // the same values as floating-point numbers, rendered with a maximum of
    // four decimal places before alignment
    let a = format!("{:.4}", -42.0_f64);
    let b = format!("{:.4}", 0.3214_f64);
    let c = format!("{:.4}", 1000.0_f64);
    let d = format!("{:.4}", -1000.2_f64);
    let res =
        fmt_align_fraction_strings(&[a.as_str(), b.as_str(), c.as_str(), d.as_str()]).unwrap();
    assert_eq!("  -42     ", res[0]);
    assert_eq!("    0.3214", res[1]);
    assert_eq!(" 1000     ", res[2]);
    assert_eq!("-1000.2   ", res[3]);
}

#[test]
fn test_fmt_unnecessary_zeroes_are_removed() {
    let res = fmt_align_fraction_strings(&vec!["1.000000000"].into_boxed_slice()).unwrap();
    assert_eq!("1", res[0]);

    let a = format!("{:.4}", 1.0_f32);
    let b = format!("{:.4}", 1.0_f64);
    let res = fmt_align_fraction_strings(&[a.as_str(), b.as_str()]).unwrap();
    assert_eq!("1", res[0]);
    assert_eq!("1", res[1]);
}

// tests that we get "NaN" and not a panic or an error
#[test]
fn test_fmt_nan() {
    let a = format!("{:.20}", f32::NAN);
    let b = format!("{:.20}", f64::NAN);
    let res = fmt_align_fraction_strings(&[a.as_str(), b.as_str()]).unwrap();

    assert_eq!("NaN", res[0]);
    assert_eq!("NaN", res[1]);
}

#[test]
fn test_same_length_and_order() {
    let input = ["-42", "0.3214", "1000", "-1000.2", "2.00000"];
    let res = fmt_align_fraction_strings(&input).unwrap();
    assert_eq!(input.len(), res.len());
    assert_eq!("  -42     ", res[0]);
    assert_eq!("    0.3214", res[1]);
    assert_eq!(" 1000     ", res[2]);
    assert_eq!("-1000.2   ", res[3]);
    assert_eq!("    2     ", res[4]);
}

#[test]
fn test_equal_output_lengths() {
    let res = fmt_align_fraction_strings(&["-42", "0.3214", "1000", "-1000.2", "2.00000"])
        .unwrap();
    for s in &res {
        assert_eq!(10, s.len());
    }
}

#[test]
fn test_decimal_points_share_one_column() {
    let res = fmt_align_fraction_strings(&["-42", "0.3214", "1000", "-1000.2", "2.00000"])
        .unwrap();
    // the reserved sign-plus-whole-part column width is five, so every
    // decimal point stands at index five, and every entry without one has
    // its last whole-part digit at index four followed by spaces only
    for s in &res {
        match s.find('.') {
            Some(pos) => assert_eq!(5, pos),
            None => {
                assert!(s.as_bytes()[4] != b' ');
                assert!(s[5..].chars().all(|c| c == ' '));
            }
        }
    }
}

#[test]
fn test_sign_reserves_one_extra_column() {
    // a signed entry at maximum whole-part digit width: four digits plus the
    // sign give a reserved width of five
    let res = fmt_align_fraction_strings_opts(&["-1000.2", "42"], false).unwrap();
    assert_eq!("-1000.2", res[0]);
    assert_eq!("   42", res[1]);

    // the sign sits below maximum digit width: no extra column is reserved
    let res = fmt_align_fraction_strings_opts(&["1000", "-42"], false).unwrap();
    assert_eq!("1000", res[0]);
    assert_eq!(" -42", res[1]);
}

#[test]
fn test_single_plain_entry() {
    let res = fmt_align_fraction_strings(&["123"]).unwrap();
    assert_eq!(1, res.len());
    assert_eq!("123", res[0]);
}

#[test]
fn test_malformed_input_is_rejected() {
    let res = fmt_align_fraction_strings(&["12.3.4"]);
    assert_eq!(Err(FmtAlignError::MalformedInput), res);
    let res = fmt_align_fraction_strings(&["1.5", "12."]);
    assert_eq!(Err(FmtAlignError::MalformedInput), res);
}

#[test]
fn test_empty_input_is_rejected() {
    let res = fmt_align_fraction_strings(&[]);
    assert_eq!(Err(FmtAlignError::EmptyInputList), res);
}

#[test]
fn test_without_right_padding() {
    let res = fmt_align_fraction_strings_opts(&["-42", "0.3214"], false).unwrap();
    assert_eq!("-42", res[0]);
    assert_eq!("  0.3214", res[1]);

    let res = fmt_align_fraction_strings_opts(&["-42", "0.3214"], true).unwrap();
    assert_eq!("-42     ", res[0]);
    assert_eq!("  0.3214", res[1]);
}

#[test]
fn test_opaque_tokens_align_by_width() {
    let res = fmt_align_fraction_strings(&["NaN", "-1000.2"]).unwrap();
    assert_eq!("  NaN  ", res[0]);
    assert_eq!("-1000.2", res[1]);
}

#[test]
fn test_format_precision_val() {
    assert_eq!(3, FormatPrecision::Exact(3).val());
    assert_eq!(4, FormatPrecision::Max(4).val());
    assert_eq!(0, FormatPrecision::Exact(0).val());
    assert_eq!(255, FormatPrecision::Max(255).val());
}
