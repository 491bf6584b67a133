use yt_grab::error::AppError;
use yt_grab::range_parser::parse_ranges;

#[test]
fn test_single() {
    assert_eq!(parse_ranges("3", 10).unwrap(), vec![3]);
}

#[test]
fn test_comma_separated() {
    assert_eq!(parse_ranges("1,3,5", 10).unwrap(), vec![1, 3, 5]);
}

#[test]
fn test_range() {
    assert_eq!(parse_ranges("2-5", 10).unwrap(), vec![2, 3, 4, 5]);
}

#[test]
fn test_mixed() {
    assert_eq!(parse_ranges("1,3-5,8", 10).unwrap(), vec![1, 3, 4, 5, 8]);
}

#[test]
fn test_all() {
    assert_eq!(parse_ranges("all", 4).unwrap(), vec![1, 2, 3, 4]);
}

#[test]
fn test_dedup() {
    assert_eq!(parse_ranges("1,1,2", 5).unwrap(), vec![1, 2]);
}

#[test]
fn test_out_of_bounds() {
    assert!(parse_ranges("11", 10).is_err());
}

#[test]
fn test_zero() {
    assert!(parse_ranges("0", 10).is_err());
}

#[test]
fn all_is_case_insensitive_and_trimmed() {
    assert_eq!(parse_ranges("ALL", 3).unwrap(), vec![1, 2, 3]);
    assert_eq!(parse_ranges("  All  ", 2).unwrap(), vec![1, 2]);
}

#[test]
fn unordered_repeated_input_comes_out_sorted_unique() {
    assert_eq!(parse_ranges("3,1,1,2", 5).unwrap(), vec![1, 2, 3]);
    assert_eq!(parse_ranges("8,2-4,3", 10).unwrap(), vec![2, 3, 4, 8]);
}

#[test]
fn zero_out_of_bounds_and_reversed_fail_with_invalid_selection() {
    assert!(matches!(parse_ranges("0", 10), Err(AppError::InvalidRange(_))));
    assert!(matches!(parse_ranges("11", 10), Err(AppError::InvalidRange(_))));
    assert!(matches!(parse_ranges("5-2", 10), Err(AppError::InvalidRange(_))));
}

#[test]
fn non_numeric_token_fails() {
    assert!(matches!(parse_ranges("two", 10), Err(AppError::InvalidRange(_))));
    assert!(matches!(parse_ranges("1,x-3", 10), Err(AppError::InvalidRange(_))));
}

#[test]
fn empty_selection_fails() {
    assert!(matches!(parse_ranges("", 10), Err(AppError::InvalidRange(_))));
    assert!(matches!(parse_ranges(" , ,", 10), Err(AppError::InvalidRange(_))));
}

#[test]
fn tokens_may_carry_whitespace() {
    assert_eq!(parse_ranges(" 2 - 5 , 7 ", 10).unwrap(), vec![2, 3, 4, 5, 7]);
}
