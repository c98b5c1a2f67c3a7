use cosmox::version::Version;

#[test]
fn test_version_parsing_from_str_and_string() {
    let v_str = Version::from("1.2.3");
    let v_string = Version::from("1.2.3".to_string());
    assert_eq!(v_str, v_string);
}

#[test]
fn test_version_numeric_vs_lexicographical_ordering() {
    let v_small = Version::from("1.2.9");
    let v_big = Version::from("1.10.2");

    assert!(v_big > v_small);
    assert!(v_small < v_big);
}

#[test]
fn test_version_different_lengths_comparison() {
    let v_short = Version::from("1.2");
    let v_long = Version::from("1.2.0");
    let v_longer = Version::from("1.2.0.1");

    assert!(v_long >= v_short);
    assert!(v_longer > v_long);
    assert!(v_longer > v_short);
}

#[test]
fn test_version_leading_zeros_and_identity() {
    let v1 = Version::from("1.02.3");
    let v2 = Version::from("1.2.3");
    let v3 = Version::from("01.2.3");

    assert_eq!(v1, v2);
    assert_eq!(v2, v3);
}

#[test]
fn test_version_extreme_values() {
    let v_max = Version::from("999999999999.99999999.999999");
    let v_min = Version::from("0.0.0");

    assert!(v_max > v_min);
}

#[test]
fn test_version_trailing_zeros_equality() {
    let v_short = Version::from("1.2");
    let v_zeros = Version::from("1.2.0.0");
    let v_longer_zeros = Version::from("1.2.0.0.0");

    assert_eq!(v_short, v_zeros);
    assert_eq!(v_zeros, v_longer_zeros);
    assert!(v_short >= v_zeros);
    assert!(v_zeros <= v_short);
}

#[test]
fn test_version_complex_trailing_zeros_comparison() {
    let v_base = Version::from("1.2.0");
    let v_more = Version::from("1.2.0.1");
    let v_less = Version::from("1.2.0.0.9");

    assert!(v_more > v_base);
    assert!(v_less > v_base);
    assert!(v_more > v_less);
}

#[test]
fn test_version_zeros_strings() {
    let v_zero = Version::from("0");
    let v_triple_zero = Version::from("0.0.0");

    assert_eq!(v_zero, v_triple_zero);
}

#[test]
fn test_version_caret_matching() {
    // ^1.2.3
    let req = Version::from("1.2.3");
    assert!(Version::from("1.2.3").matches_caret(&req));
    assert!(Version::from("1.2.4").matches_caret(&req));
    assert!(Version::from("1.3.0").matches_caret(&req));
    assert!(!Version::from("2.0.0").matches_caret(&req));
    assert!(!Version::from("1.2").matches_caret(&req));

    // ^0.2.3
    let zero_req = Version::from("0.2.3");
    assert!(Version::from("0.2.3").matches_caret(&zero_req));
    assert!(Version::from("0.2.9").matches_caret(&zero_req));
    assert!(!Version::from("0.3.0").matches_caret(&zero_req));

    // ^0.0.3
    let tiny_req = Version::from("0.0.3");
    assert!(Version::from("0.0.3").matches_caret(&tiny_req));
    assert!(!Version::from("0.0.4").matches_caret(&tiny_req));
}

#[test]
fn test_version_tilde_matching() {
    // ~1.2.3
    let req = Version::from("1.2.3");
    assert!(Version::from("1.2.3").matches_tilde(&req));
    assert!(Version::from("1.2.9").matches_tilde(&req));
    assert!(!Version::from("1.3.0").matches_tilde(&req));
    assert!(!Version::from("1.1.9").matches_tilde(&req));

    // ~1.2
    let short_req = Version::from("1.2");
    assert!(Version::from("1.2").matches_tilde(&short_req));
    assert!(Version::from("1.5").matches_tilde(&short_req));
    assert!(!Version::from("2.0").matches_tilde(&short_req));
}

#[test]
fn test_version_long_matching() {
    let deep_req = Version::from("1.2.3.4");
    assert!(Version::from("1.2.3.10").matches_tilde(&deep_req));
    assert!(Version::from("1.2.10.4").matches_caret(&deep_req));
}

#[test]
fn caret_accepts_shorter_and_padded_versions() {
    let req = Version::from("1.2.3");
    assert!(Version::from("1.3").matches_caret(&req));
    assert!(Version::from("01.2.3").matches_caret(&req));
    assert!(Version::from("1.2.3.0").matches_caret(&req));
    assert!(!Version::from("2").matches_caret(&req));
}

#[test]
fn tilde_with_one_part_locks_that_part() {
    let req = Version::from("1");
    assert!(Version::from("1.0.0").matches_tilde(&req));
    assert!(Version::from("1.9.9").matches_tilde(&req));
    assert!(!Version::from("2.0.0").matches_tilde(&req));
    assert!(!Version::from("0.9").matches_tilde(&req));
}

#[test]
fn tilde_accepts_shorter_versions() {
    let req = Version::from("1.3.0");
    assert!(Version::from("1.3").matches_tilde(&req));
    assert!(Version::from("1.3.7").matches_tilde(&req));
    assert!(!Version::from("1.4").matches_tilde(&req));
}

#[test]
fn locked_parts_that_are_not_numbers_compare_as_text() {
    assert!(!Version::from("a.1").matches_tilde(&Version::from("b.1")));
    assert!(Version::from("a.1").matches_tilde(&Version::from("a.0")));
    assert!(Version::from("a.5").matches_caret(&Version::from("a.1")));
    assert!(!Version::from("b.5").matches_caret(&Version::from("a.1")));
    // numbers still compare by value where both parts are numbers
    assert!(Version::from("01.2.3").matches_tilde(&Version::from("1.2.3")));
}
