use lib::debug::getDebugLevel;

#[test]
fn test_unset_variable_gives_default() {
    assert_eq!(getDebugLevel(None, 7), 7);
}

#[test]
fn test_decimal_values() {
    assert_eq!(getDebugLevel(Some(b"2"), 0), 2);
    assert_eq!(getDebugLevel(Some(b"  \t3"), 0), 3);
    assert_eq!(getDebugLevel(Some(b"+4"), 0), 4);
    assert_eq!(getDebugLevel(Some(b"0042"), 9), 42);
    assert_eq!(getDebugLevel(Some(b"18446744073709551615"), 0), u64::MAX);
}

#[test]
fn test_negative_values_wrap() {
    assert_eq!(getDebugLevel(Some(b"-1"), 0), u64::MAX);
    assert_eq!(getDebugLevel(Some(b"-0"), 5), 0);
}

#[test]
fn test_rejected_values_give_default() {
    assert_eq!(getDebugLevel(Some(b""), 1), 1);
    assert_eq!(getDebugLevel(Some(b"   "), 1), 1);
    assert_eq!(getDebugLevel(Some(b"-"), 1), 1);
    assert_eq!(getDebugLevel(Some(b"5x"), 1), 1);
    assert_eq!(getDebugLevel(Some(b"3 "), 1), 1);
    assert_eq!(getDebugLevel(Some(b"abc"), 1), 1);
    assert_eq!(getDebugLevel(Some(b"18446744073709551616"), 1), 1);
}
