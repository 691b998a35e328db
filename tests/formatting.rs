use prspdf::fmt::{dec_string, push_padded};
use prspdf::indent::{indent, indent_skip1};
use prspdf::{Decimal, ToPdfString};

#[test]
fn test_f64_to_pdf_string() {
    assert_eq!(Decimal::new(3, 0).to_pdf_string(), "3.0");
    assert_eq!(Decimal::new(314, 2).to_pdf_string(), "3.14");
}

#[test]
fn test_u32_to_pdf_string() {
    assert_eq!(42u32.to_pdf_string(), "42");
}

#[test]
fn test_array_to_pdf_string() {
    let arr = [1u32, 2, 3];
    assert_eq!(arr.to_pdf_string(), "[1 2 3]");

    let arr = [Decimal::new(10, 1), Decimal::new(25, 1), Decimal::new(3, 0)];
    assert_eq!(arr.to_pdf_string(), "[1.0 2.5 3.0]");
}

#[test]
fn test_vec_to_pdf_string() {
    let vec = vec![1u32, 2, 3];
    assert_eq!(vec.to_pdf_string(), "[1 2 3]");

    let vec = vec![Decimal::new(10, 1), Decimal::new(25, 1), Decimal::new(3, 0)];
    assert_eq!(vec.to_pdf_string(), "[1.0 2.5 3.0]");
}

#[test]
fn empty_array_to_pdf_string() {
    let vec: Vec<u32> = Vec::new();
    assert_eq!(vec.to_pdf_string(), "[]");
}

#[test]
fn pair_to_pdf_string() {
    assert_eq!((Decimal::new(0, 0), Decimal::new(1, 0)).to_pdf_string(), "0.0 1.0");
}

#[test]
fn integral_value_ends_in_point_zero() {
    assert_eq!(Decimal::new(10, 1).to_pdf_string(), "1.0");
    assert_eq!(Decimal::from_int(1).to_pdf_string(), "1.0");
    assert_eq!(Decimal::new(-1200, 2).to_pdf_string(), "-12.0");
    assert_eq!(Decimal::new(0, 3).to_pdf_string(), "0.0");
}

#[test]
fn fraction_in_fewest_digits() {
    assert_eq!(Decimal::new(1, 1).to_pdf_string(), "0.1");
    assert_eq!(Decimal::new(1000, 4).to_pdf_string(), "0.1");
    assert_eq!(Decimal::new(-5, 1).to_pdf_string(), "-0.5");
    assert_eq!(Decimal::new(1005, 3).to_pdf_string(), "1.005");
    assert_eq!(Decimal::new(964203, 6).to_pdf_string(), "0.964203");
}

#[test]
fn decimal_extremes() {
    assert_eq!(Decimal::new(i64::MIN, 0).to_pdf_string(), "-9223372036854775808.0");
    assert_eq!(Decimal::new(i64::MAX, 19).to_pdf_string(), "0.9223372036854775807");
    assert_eq!(Decimal::new(1, 19).to_pdf_string(), "0.0000000000000000001");
}

#[test]
fn decimal_digits() {
    assert_eq!(dec_string(0), "0");
    assert_eq!(dec_string(10), "10");
    assert_eq!(dec_string(u64::MAX), "18446744073709551615");
}

#[test]
fn padded_digits() {
    let mut s = String::new();
    push_padded(&mut s, 42, 10);
    assert_eq!(s, "0000000042");
    let mut s = String::new();
    push_padded(&mut s, 12345678901, 10);
    assert_eq!(s, "12345678901");
}

#[test]
fn indent_every_line() {
    assert_eq!(indent("a\nb", 1), "  a\n  b");
    assert_eq!(indent("a\nb\n", 2), "    a\n    b\n");
    assert_eq!(indent("", 3), "");
    assert_eq!(indent("\n", 1), "  \n");
    assert_eq!(indent("a\r\nb", 1), "  a\n  b");
}

#[test]
fn indent_skip_first_line() {
    assert_eq!(indent_skip1("<<\n/A 1\n>>", 1), "<<\n  /A 1\n  >>");
    assert_eq!(indent_skip1("one", 4), "one");
}
