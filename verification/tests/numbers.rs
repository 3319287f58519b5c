use scriptling::number::Number;

fn num(value: f64) -> Number {
    Number::from_bits(value.to_bits())
}

fn float(number: Number) -> f64 {
    f64::from_bits(number.to_bits())
}

fn samples() -> Vec<f64> {
    vec![
        0.0,
        -0.0,
        1.0,
        -1.0,
        2.0,
        3.0,
        0.1,
        0.2,
        0.3,
        1.5,
        -2.75,
        7.0,
        10.0,
        1e-320,
        5e-324,
        1e308,
        -1e308,
        1.7976931348623157e308,
        123456789.125,
        9007199254740993.0,
        f64::INFINITY,
        f64::NEG_INFINITY,
        f64::NAN,
    ]
}

fn same_double(a: f64, b: f64) -> bool {
    (a.is_nan() && b.is_nan()) || a.to_bits() == b.to_bits()
}

#[test]
fn bits_round_trip() {
    assert_eq!(Number::from_bits(0x4014_0000_0000_0000).to_bits(), 0x4014_0000_0000_0000);
    assert_eq!(float(Number::from_bits(0x4014_0000_0000_0000)), 5.0);
}

#[test]
fn classification_follows_the_bit_pattern() {
    for x in samples() {
        let n = num(x);
        assert_eq!(n.is_nan(), x.is_nan(), "is_nan of {}", x);
        assert_eq!(n.is_zero(), x == 0.0, "is_zero of {}", x);
        assert_eq!(n.is_negative(), x.is_sign_negative(), "is_negative of {}", x);
    }
}

#[test]
fn negative_zero_is_zero_and_negative() {
    let n = num(-0.0);
    assert!(n.is_zero());
    assert!(n.is_negative());
    assert!(!n.is_nan());
}

#[test]
fn negation_flips_the_sign() {
    for x in samples() {
        assert!(same_double(float(num(x).negate()), -x), "negation of {}", x);
    }
    assert_eq!(num(2.5).negate().to_bits(), (-2.5f64).to_bits());
    assert_eq!(num(0.0).negate().to_bits(), (-0.0f64).to_bits());
}

#[test]
fn equality_is_that_of_doubles() {
    for x in samples() {
        for y in samples() {
            assert_eq!(num(x).is_equal(num(y)), x == y, "{} == {}", x, y);
            assert_eq!(num(x) == num(y), x == y, "{} == {} by the operator", x, y);
        }
    }
}

#[test]
fn nan_equals_nothing() {
    assert!(!num(f64::NAN).is_equal(num(f64::NAN)));
    assert!(!num(f64::NAN).is_equal(num(1.0)));
}

#[test]
fn the_two_zeros_are_equal() {
    assert!(num(0.0).is_equal(num(-0.0)));
    assert!(!num(0.0).is_below(num(-0.0)));
    assert!(!num(-0.0).is_below(num(0.0)));
}

#[test]
fn order_is_that_of_doubles() {
    for x in samples() {
        for y in samples() {
            assert_eq!(num(x).is_below(num(y)), x < y, "{} < {}", x, y);
            assert_eq!(num(x).is_at_most(num(y)), x <= y, "{} <= {}", x, y);
        }
    }
}

#[test]
fn sums_are_those_of_doubles() {
    for x in samples() {
        for y in samples() {
            assert!(same_double(float(num(x).plus(num(y))), x + y), "{} + {}", x, y);
        }
    }
    assert_eq!(float(num(2.0).plus(num(3.0))), 5.0);
    assert_eq!(float(num(0.1).plus(num(0.2))), 0.30000000000000004);
}

#[test]
fn differences_are_those_of_doubles() {
    for x in samples() {
        for y in samples() {
            assert!(same_double(float(num(x).minus(num(y))), x - y), "{} - {}", x, y);
        }
    }
    assert_eq!(float(num(2.0).minus(num(3.0))), -1.0);
}

#[test]
fn products_are_those_of_doubles() {
    for x in samples() {
        for y in samples() {
            assert!(same_double(float(num(x).times(num(y))), x * y), "{} * {}", x, y);
        }
    }
    assert_eq!(float(num(4.0).times(num(2.5))), 10.0);
}

#[test]
fn quotients_are_those_of_doubles() {
    for x in samples() {
        for y in samples() {
            assert!(same_double(float(num(x).divided_by(num(y))), x / y), "{} / {}", x, y);
        }
    }
    assert_eq!(float(num(7.0).divided_by(num(2.0))), 3.5);
    assert_eq!(float(num(1.0).divided_by(num(3.0))), 0.3333333333333333);
    assert_eq!(float(num(1.0).divided_by(num(0.0))), f64::INFINITY);
}

#[test]
fn remainders_are_those_of_doubles() {
    for x in samples() {
        for y in samples() {
            assert!(same_double(float(num(x).remainder(num(y))), x % y), "{} % {}", x, y);
        }
    }
    assert_eq!(float(num(7.0).remainder(num(3.0))), 1.0);
    assert_eq!(float(num(-7.0).remainder(num(3.0))), -1.0);
    assert_eq!(float(num(7.5).remainder(num(2.0))), 1.5);
    assert!(float(num(1.0).remainder(num(0.0))).is_nan());
}

#[test]
fn numerals_are_read_as_the_nearest_double() {
    let numerals = [
        "0",
        "5",
        "007",
        "1.",
        "1.5",
        "3.14",
        "0.1",
        "0.30000000000000004",
        "123456789.125",
        "9007199254740993",
        "179769313486231570000000000000000000000000000000000000000000000000000000000000000000000000000000000000000000000000000000000000000000000000000000000000000000000000000000000000000000000000000000000000000000000000000000000000000000000000000000000000000000000000000000000000000000000000000000000000000000000000000",
        "0.000000000000000000000000000000000000000000000000000000000000000000000000000001",
        "2.2250738585072014",
        "1000000000000000000000000000000000000000000000000000000000000000000000000000000000000000000000000000000000000000000000000000000000000000000000000000000000000000000000000000000000000000000000000000000000000000000000000000000000000000000000000000000000000000000000000000000000000000000000000000000000000000000000000",
    ];
    for text in numerals {
        let expected: f64 = text.parse().unwrap();
        let read = Number::parse(text).expect(text);
        assert_eq!(read.to_bits(), expected.to_bits(), "numeral {}", text);
    }
    assert_eq!(float(Number::parse("2.5").unwrap()), 2.5);
}

#[test]
fn what_is_no_numeral_is_refused() {
    assert!(Number::parse("").is_none());
    assert!(Number::parse("1.2.3").is_none());
    assert!(Number::parse("abc").is_none());
    assert!(Number::parse(".5").is_none());
    assert!(Number::parse("-1").is_none());
    assert!(Number::parse("+1").is_none());
    assert!(Number::parse("1e5").is_none());
    assert!(Number::parse("0x10").is_none());
    assert!(Number::parse("inf").is_none());
    assert!(Number::parse("NaN").is_none());
    assert!(Number::parse("1 ").is_none());
    assert!(Number::parse("١").is_none());
}
