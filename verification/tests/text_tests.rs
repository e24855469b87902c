use clingfun::puzzle::yes_no;
use clingfun::text::{chars_of, decimal_string, reversed};

#[test]
fn decimal_numerals() {
    assert_eq!(decimal_string(0), "0");
    assert_eq!(decimal_string(7), "7");
    assert_eq!(decimal_string(10), "10");
    assert_eq!(decimal_string(407), "407");
    assert_eq!(decimal_string(usize::MAX), usize::MAX.to_string());
}

#[test]
fn chars_and_reversal() {
    assert_eq!(chars_of("aεb"), vec!['a', 'ε', 'b']);
    assert_eq!(chars_of(""), Vec::<char>::new());
    assert_eq!(reversed("0011"), "1100");
    assert_eq!(reversed("aεb"), "bεa");
    assert_eq!(reversed(""), "");
}

#[test]
fn yes_and_no() {
    assert_eq!(yes_no(true), "Yes");
    assert_eq!(yes_no(false), "No");
}
