use klipper_bridge::numbers::{decimal_text, digit, push_decimal, push_two_digits};

#[test]
fn decimal_text_has_no_leading_zeros() {
    assert_eq!(decimal_text(0), "0");
    assert_eq!(decimal_text(7), "7");
    assert_eq!(decimal_text(10), "10");
    assert_eq!(decimal_text(8192), "8192");
    assert_eq!(decimal_text(u64::MAX), "18446744073709551615");
}

#[test]
fn decimal_text_agrees_with_the_standard_library() {
    let mut n: u64 = 0;
    while n < 5_000_000 {
        assert_eq!(decimal_text(n), n.to_string());
        n = n * 3 + 1;
    }
    for k in 0..20u32 {
        let p = 10u64.pow(k.min(19));
        assert_eq!(decimal_text(p), p.to_string());
        assert_eq!(decimal_text(p - 1), (p - 1).to_string());
    }
}

#[test]
fn digits_are_ascii_digits() {
    let all: String = (0u8..10).map(digit).collect();
    assert_eq!(all, "0123456789");
}

#[test]
fn pushing_appends() {
    let mut s = String::from("n=");
    push_decimal(&mut s, 42);
    assert_eq!(s, "n=42");
    push_two_digits(&mut s, 5);
    assert_eq!(s, "n=4205");
    push_two_digits(&mut s, 123);
    assert_eq!(s, "n=4205123");
    push_two_digits(&mut s, 0);
    assert_eq!(s, "n=420512300");
}
