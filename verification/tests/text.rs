use perf_event_block::text::{byte_order, bytes_in, decimal_text, push_right_aligned, IntoText, TextOrder};

#[test]
fn decimal_has_no_leading_zeros() {
    assert_eq!(decimal_text(0), "0");
    assert_eq!(decimal_text(7), "7");
    assert_eq!(decimal_text(10), "10");
    assert_eq!(decimal_text(1000000), "1000000");
    assert_eq!(decimal_text(u64::MAX), "18446744073709551615");
}

#[test]
fn strings_are_ordered_by_their_bytes() {
    assert_eq!(byte_order("a", "b"), TextOrder::Before);
    assert_eq!(byte_order("b", "a"), TextOrder::After);
    assert_eq!(byte_order("a", "a"), TextOrder::Same);
    assert_eq!(byte_order("", ""), TextOrder::Same);
    assert_eq!(byte_order("", "a"), TextOrder::Before);
    assert_eq!(byte_order("ab", "a"), TextOrder::After);
    assert_eq!(byte_order("Z", "a"), TextOrder::Before);
    assert_eq!(byte_order("z", "ä"), TextOrder::Before);
}

#[test]
fn order_agrees_with_that_of_strings() {
    let words = ["", "a", "aa", "b", "L1-misses", "LLC-misses", "ä", "äb", "日本", "😀"];
    for a in words {
        for b in words {
            let want = if a < b {
                TextOrder::Before
            } else if a == b {
                TextOrder::Same
            } else {
                TextOrder::After
            };
            assert_eq!(byte_order(a, b), want);
        }
    }
}

#[test]
fn lengths_are_in_bytes_and_fields_in_characters() {
    assert_eq!(bytes_in("abc"), 3);
    assert_eq!(bytes_in("ä"), 2);
    let mut out = String::from("|");
    push_right_aligned(&mut out, "ä", 3);
    assert_eq!(out, "|  ä");
    push_right_aligned(&mut out, "abcd", 3);
    assert_eq!(out, "|  äabcd");
}

#[test]
fn texts_can_be_borrowed_or_owned() {
    let owned = String::from("x");
    assert_eq!("x".into_text(), "x");
    assert_eq!((&owned).into_text(), "x");
    assert_eq!(owned.into_text(), "x");
}
