use task_slayer::selector::{expand_selectors, parse_selector, SelectorError};

#[test]
fn selector_single_id() {
    let s: Vec<String> = vec!["5".into()];
    assert_eq!(expand_selectors(&s).unwrap(), vec![5]);
}

#[test]
fn selector_multiple_ids() {
    let s: Vec<String> = vec!["1".into(), "4".into(), "8".into()];
    assert_eq!(expand_selectors(&s).unwrap(), vec![1, 4, 8]);
}

#[test]
fn selector_range() {
    let s: Vec<String> = vec!["3-7".into()];
    assert_eq!(expand_selectors(&s).unwrap(), vec![3, 4, 5, 6, 7]);
}

#[test]
fn selector_mixed() {
    let s: Vec<String> = vec!["1".into(), "3-5".into(), "8".into()];
    assert_eq!(expand_selectors(&s).unwrap(), vec![1, 3, 4, 5, 8]);
}

#[test]
fn selector_dedup() {
    let s: Vec<String> = vec!["1".into(), "1".into(), "1-3".into(), "2".into()];
    assert_eq!(expand_selectors(&s).unwrap(), vec![1, 2, 3]);
}

#[test]
fn selector_range_single() {
    // 5-5 should produce just [5]
    let s: Vec<String> = vec!["5-5".into()];
    assert_eq!(expand_selectors(&s).unwrap(), vec![5]);
}

#[test]
fn selector_invalid_id() {
    let s: Vec<String> = vec!["abc".into()];
    assert!(expand_selectors(&s).is_err());
}

#[test]
fn selector_reversed_range() {
    let s: Vec<String> = vec!["5-2".into()];
    assert!(expand_selectors(&s).is_err());
}

#[test]
fn selector_empty_string() {
    let s: Vec<String> = vec!["".into()];
    assert!(expand_selectors(&s).is_err());
}

#[test]
fn selector_unsorted_input_comes_out_sorted() {
    let s: Vec<String> = vec!["9".into(), "2-3".into(), "1".into()];
    assert_eq!(expand_selectors(&s).unwrap(), vec![1, 2, 3, 9]);
}

#[test]
fn selector_no_selectors_gives_no_ids() {
    let s: Vec<String> = vec![];
    assert_eq!(expand_selectors(&s).unwrap(), Vec::<u64>::new());
}

#[test]
fn selector_plus_sign_is_accepted() {
    assert_eq!(parse_selector("+7").unwrap(), vec![7]);
    assert_eq!(parse_selector("+2-+3").unwrap(), vec![2, 3]);
}

#[test]
fn selector_lone_plus_is_refused() {
    match parse_selector("+") {
        Err(SelectorError::InvalidId(s)) => assert_eq!(s, "+"),
        other => panic!("unexpected {:?}", other),
    }
}

#[test]
fn selector_largest_id_is_accepted() {
    assert_eq!(parse_selector("18446744073709551615").unwrap(), vec![u64::MAX]);
    assert_eq!(
        parse_selector("18446744073709551614-18446744073709551615").unwrap(),
        vec![u64::MAX - 1, u64::MAX]
    );
}

#[test]
fn selector_overflowing_id_is_refused() {
    match parse_selector("18446744073709551616") {
        Err(SelectorError::InvalidId(s)) => assert_eq!(s, "18446744073709551616"),
        other => panic!("unexpected {:?}", other),
    }
}

#[test]
fn selector_error_names_range_start() {
    match parse_selector("a-3") {
        Err(SelectorError::InvalidRangeStart(s)) => assert_eq!(s, "a"),
        other => panic!("unexpected {:?}", other),
    }
    match parse_selector("-3") {
        Err(SelectorError::InvalidRangeStart(s)) => assert_eq!(s, ""),
        other => panic!("unexpected {:?}", other),
    }
}

#[test]
fn selector_error_names_range_end() {
    // The text is split at the first dash, so the end is "2-3".
    match parse_selector("1-2-3") {
        Err(SelectorError::InvalidRangeEnd(s)) => assert_eq!(s, "2-3"),
        other => panic!("unexpected {:?}", other),
    }
}

#[test]
fn selector_error_names_reversed_range() {
    match parse_selector("5-2") {
        Err(SelectorError::ReversedRange(s)) => assert_eq!(s, "5-2"),
        other => panic!("unexpected {:?}", other),
    }
}

#[test]
fn selector_first_bad_selector_decides() {
    let s: Vec<String> = vec!["1".into(), "x".into(), "4-1".into()];
    match expand_selectors(&s) {
        Err(SelectorError::InvalidId(t)) => assert_eq!(t, "x"),
        other => panic!("unexpected {:?}", other),
    }
}

#[test]
fn selector_non_ascii_is_refused() {
    match parse_selector("\u{4e00}") {
        Err(SelectorError::InvalidId(t)) => assert_eq!(t, "\u{4e00}"),
        other => panic!("unexpected {:?}", other),
    }
    match parse_selector("\u{e9}-4") {
        Err(SelectorError::InvalidRangeStart(t)) => assert_eq!(t, "\u{e9}"),
        other => panic!("unexpected {:?}", other),
    }
}
