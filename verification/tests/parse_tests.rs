use fraction_list_fmt_align::fraction_part_count_zeroes;
use fraction_list_fmt_align::get_fractional_part;
use fraction_list_fmt_align::get_whole_part;
use fraction_list_fmt_align::is_well_formed;
use fraction_list_fmt_align::normalize_fraction_part;

#[test]
fn test_fraction_part_count_zeroes() {
    assert_eq!(3, fraction_part_count_zeroes("123000"));
    assert_eq!(0, fraction_part_count_zeroes("123"));
    assert_eq!(1, fraction_part_count_zeroes("0"));
    assert_eq!(11, fraction_part_count_zeroes("00000012800000000000"));
}

#[test]
fn test_get_whole_part() {
    assert_eq!("123", get_whole_part("123"));
    assert_eq!("123", get_whole_part("123.13"));
    assert_eq!("0", get_whole_part("0.1234"));
    assert_eq!("-10", get_whole_part("-10.1234"));
    assert_eq!("NaN", get_whole_part("NaN"));
}

#[test]
fn test_get_fractional_part() {
    assert_eq!(None, get_fractional_part("123"));
    assert_eq!(Some("13"), get_fractional_part("123.13"));
    assert_eq!(Some("1234"), get_fractional_part("0.1234"));
    assert_eq!(Some("1234"), get_fractional_part("-10.1234"));
    assert_eq!(Some(""), get_fractional_part("12."));
}

#[test]
fn test_normalize_fraction_part() {
    assert_eq!("123", normalize_fraction_part("123"));
    assert_eq!("123.13", normalize_fraction_part("123.13"));
    assert_eq!("0.1234", normalize_fraction_part("0.1234000"));
    assert_eq!("-10", normalize_fraction_part("-10.000000"));
    assert_eq!("0", normalize_fraction_part("0.000"));
    assert_eq!("-10.12", normalize_fraction_part("-10.1200"));
}

#[test]
fn test_normalize_is_idempotent() {
    let once = normalize_fraction_part("0.1234000");
    assert_eq!(once, normalize_fraction_part(once));
    let once = normalize_fraction_part("-10.000000");
    assert_eq!(once, normalize_fraction_part(once));
    let once = normalize_fraction_part("1.000000000");
    assert_eq!(once, normalize_fraction_part(once));
    let once = normalize_fraction_part("42");
    assert_eq!(once, normalize_fraction_part(once));
}

#[test]
fn test_is_well_formed() {
    assert!(is_well_formed("1"));
    assert!(is_well_formed("3.14"));
    assert!(is_well_formed("-42"));
    assert!(is_well_formed("-1000.2"));
    assert!(is_well_formed("NaN"));
    assert!(is_well_formed("inf"));
    assert!(is_well_formed("-inf"));
    assert!(!is_well_formed(""));
    assert!(!is_well_formed("12.3.4"));
    assert!(!is_well_formed("12."));
    assert!(!is_well_formed(".5"));
    assert!(!is_well_formed("-.5"));
    assert!(!is_well_formed("1.2a"));
    assert!(!is_well_formed("a.2"));
}
