use mr::names::{decimal_string, intermediate_file_name, output_file_name, signed_decimal_string};

#[test]
fn decimal_numerals() {
    assert_eq!(decimal_string(0), "0");
    assert_eq!(decimal_string(7), "7");
    assert_eq!(decimal_string(1234), "1234");
    assert_eq!(decimal_string(u64::MAX), u64::MAX.to_string());
}

#[test]
fn signed_numerals() {
    assert_eq!(signed_decimal_string(0), "0");
    assert_eq!(signed_decimal_string(100), "100");
    assert_eq!(signed_decimal_string(-5), "-5");
    assert_eq!(signed_decimal_string(-128), "-128");
    assert_eq!(signed_decimal_string(127), "127");
}

#[test]
fn file_names() {
    assert_eq!(intermediate_file_name(2, 7), "mr-2-7");
    assert_eq!(intermediate_file_name(10, 0), "mr-10-0");
    assert_eq!(output_file_name(&"3".to_string()), "mr-out-3");
}

#[test]
fn file_names_are_distinct() {
    let mut seen = std::collections::HashSet::new();
    for a in 0..30 {
        for b in 0..30 {
            assert!(seen.insert(intermediate_file_name(a, b)));
        }
    }
    assert_ne!(decimal_string(1), decimal_string(10));
}
