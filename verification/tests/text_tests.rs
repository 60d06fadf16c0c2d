use backend::text::{
    first_segment, int_to_string, join_strings, last_segment, nat_to_string, parse_usize, split_at_last, str_eq,
};

#[test]
fn numbers_print_in_decimal() {
    assert_eq!(nat_to_string(0), "0");
    assert_eq!(nat_to_string(4096), "4096");
    assert_eq!(nat_to_string(u64::MAX), "18446744073709551615");
    assert_eq!(int_to_string(-1), "-1");
    assert_eq!(int_to_string(i64::MIN), "-9223372036854775808");
    assert_eq!(int_to_string(512), "512");
}

#[test]
fn segments_split_at_underscores() {
    assert_eq!(first_segment("load-rm_4"), "load-rm");
    assert_eq!(last_segment("load-rm_4"), "4");
    assert_eq!(first_segment("a_b_c"), "a");
    assert_eq!(last_segment("a_b_c"), "c");
    assert_eq!(first_segment("gemm"), "gemm");
    assert_eq!(last_segment("gemm"), "gemm");
    assert_eq!(last_segment("x_"), "");
}

#[test]
fn strings_compare_and_join() {
    assert!(str_eq("abc", "abc"));
    assert!(!str_eq("abc", "abd"));
    assert!(!str_eq("ab", "abc"));
    let parts = vec!["t0".to_string(), "t1".to_string(), "t2".to_string()];
    assert_eq!(join_strings(&parts, ", "), "t0, t1, t2");
    assert_eq!(join_strings(&Vec::new(), ", "), "");
    assert_eq!(join_strings(&vec!["x".to_string()], ","), "x");
}

#[test]
fn split_at_last_separator() {
    assert_eq!(split_at_last("12.3", '.'), Some(("12", "3")));
    assert_eq!(split_at_last("1.2.3", '.'), Some(("1.2", "3")));
    assert_eq!(split_at_last("7.", '.'), Some(("7", "")));
    assert_eq!(split_at_last("123", '.'), None);
}

#[test]
fn unsigned_numbers_parse_like_std() {
    assert_eq!(parse_usize("0"), Some(0));
    assert_eq!(parse_usize("42"), Some(42));
    assert_eq!(parse_usize("+42"), Some(42));
    assert_eq!(parse_usize("007"), Some(7));
    assert_eq!(parse_usize(""), None);
    assert_eq!(parse_usize("+"), None);
    assert_eq!(parse_usize("-1"), None);
    assert_eq!(parse_usize("4a"), None);
    assert_eq!(parse_usize(" 4"), None);
    assert_eq!(parse_usize("18446744073709551615"), "18446744073709551615".parse::<usize>().ok());
    assert_eq!(parse_usize("99999999999999999999999"), None);
    for s in ["0", "12", "+3", "", "+", "-0", "1_0", "340282366920938463463374607431768211456"] {
        assert_eq!(parse_usize(s), s.parse::<usize>().ok(), "input {:?}", s);
    }
}
