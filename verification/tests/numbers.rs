use codebake::number::Number;

fn num(text: &str) -> Number {
    match Number::read(text) {
        Some(n) => n,
        None => panic!("{:?} is no number", text),
    }
}

#[test]
fn a_canonical_literal_is_written_as_it_was_read() {
    for text in [
        "0", "5", "12", "-12", "300", "3.14159", "-3.14159", "300.14159", "0.5", "-0.05", "100.2",
        "1000000000000000000000000000000.000000000000000000000001",
    ] {
        assert_eq!(num(text).to_text(), text);
    }
}

#[test]
fn a_literal_is_brought_into_canonical_form() {
    assert_eq!(num("007").to_text(), "7");
    assert_eq!(num("1.500").to_text(), "1.5");
    assert_eq!(num("2.0").to_text(), "2");
    assert_eq!(num("-0").to_text(), "0");
    assert_eq!(num("-0.0").to_text(), "0");
    assert_eq!(num("000.000").to_text(), "0");
    assert_eq!(num("0010.0100").to_text(), "10.01");
    assert!(num("2.0").equals(&num("2")));
    assert!(num("-0").equals(&Number::zero()));
    assert!(!num("2.1").equals(&num("2")));
    assert!(!num("-2").equals(&num("2")));
}

#[test]
fn what_is_no_literal_is_no_number() {
    for text in [
        "", "-", ".", "1.", ".5", "-.5", "1..2", "1.2.3", "+1", "--1", "1e5", "a", "1a", "1 ", " 1",
        "0x10", "1,5", "\u{661}",
    ] {
        assert!(Number::read(text).is_none(), "{:?}", text);
    }
}

#[test]
fn sums_are_exact() {
    for (a, b, sum) in [
        ("2", "3", "5"),
        ("0.1", "0.2", "0.3"),
        ("1.5", "2.5", "4"),
        ("999", "1", "1000"),
        ("-5", "5", "0"),
        ("-5", "3", "-2"),
        ("5", "-3", "2"),
        ("3", "-5", "-2"),
        ("-3", "-5", "-8"),
        ("0", "0", "0"),
        ("0", "-7.25", "-7.25"),
        ("100", "0.001", "100.001"),
        ("0.999", "0.001", "1"),
        ("-0.999", "-0.001", "-1"),
        ("1", "-0.001", "0.999"),
        ("99999999999999999999", "1", "100000000000000000000"),
        ("123456789012345678901234567890", "987654321098765432109876543210",
            "1111111110111111111011111111100"),
    ] {
        assert_eq!(num(a).add(&num(b)).to_text(), sum, "{} + {}", a, b);
        assert_eq!(num(b).add(&num(a)).to_text(), sum, "{} + {}", b, a);
    }
}

#[test]
fn differences_are_exact() {
    for (a, b, difference) in [
        ("112.4", "12.2", "100.2"),
        ("5", "3", "2"),
        ("3", "5", "-2"),
        ("1", "0.001", "0.999"),
        ("1000", "1", "999"),
        ("0", "4", "-4"),
        ("4", "0", "4"),
        ("-4", "-4", "0"),
        ("-4", "4", "-8"),
        ("0.3", "0.1", "0.2"),
        ("100000000000000000000", "1", "99999999999999999999"),
    ] {
        assert_eq!(num(a).subtract(&num(b)).to_text(), difference, "{} - {}", a, b);
    }
}

#[test]
fn negation_keeps_zero() {
    assert_eq!(num("5").negate().to_text(), "-5");
    assert_eq!(num("-0.5").negate().to_text(), "0.5");
    assert_eq!(num("0").negate().to_text(), "0");
}

#[test]
fn whole_numbers_come_from_integers() {
    for n in [0i64, 1, -1, 9, 10, 255, -1000, i64::MAX, i64::MIN] {
        assert_eq!(Number::from_i64(n).to_text(), n.to_string());
        assert_eq!(Number::from_i64(n).to_i64(), n);
    }
}

#[test]
fn an_integer_is_the_number_rounded_toward_zero() {
    for (text, n) in [
        ("0", 0i64),
        ("0.9", 0),
        ("-0.9", 0),
        ("1.9", 1),
        ("-1.9", -1),
        ("13", 13),
        ("13.000001", 13),
        ("9223372036854775807", i64::MAX),
        ("9223372036854775807.5", i64::MAX),
        ("9223372036854775808", i64::MAX),
        ("-9223372036854775808", i64::MIN),
        ("-9223372036854775808.9", i64::MIN),
        ("-9223372036854775809", i64::MIN),
        ("100000000000000000000000", i64::MAX),
        ("-100000000000000000000000", i64::MIN),
    ] {
        assert_eq!(num(text).to_i64(), n, "{}", text);
    }
}

#[test]
fn a_copy_equals_the_number() {
    let n = num("-12.75");
    assert!(n.copy().equals(&n));
    assert_eq!(n.copy().to_text(), "-12.75");
}

#[test]
fn sums_agree_with_floating_point_where_that_is_exact() {
    let values = [0.0f64, 0.5, 1.0, 2.25, -3.75, 100.125, -0.0625, 4096.0];
    for a in values {
        for b in values {
            let sum = num(&a.to_string()).add(&num(&b.to_string()));
            assert_eq!(sum.to_text(), (a + b).to_string(), "{} + {}", a, b);
            let difference = num(&a.to_string()).subtract(&num(&b.to_string()));
            assert_eq!(difference.to_text(), (a - b).to_string(), "{} - {}", a, b);
        }
    }
}
