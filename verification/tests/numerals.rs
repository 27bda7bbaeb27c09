use ldap_client::numerals::{parse_i64, format_i64, format_u64};

fn fmt(x: i64) -> String {
    format_i64(x).into_iter().collect()
}

#[test]
fn parse_plain_numbers() {
    assert_eq!(parse_i64("0"), Some(0));
    assert_eq!(parse_i64("42"), Some(42));
    assert_eq!(parse_i64("007"), Some(7));
    assert_eq!(parse_i64("+5"), Some(5));
    assert_eq!(parse_i64("-7"), Some(-7));
}

#[test]
fn parse_rejects_junk() {
    assert_eq!(parse_i64(""), None);
    assert_eq!(parse_i64("-"), None);
    assert_eq!(parse_i64("+"), None);
    assert_eq!(parse_i64("12a"), None);
    assert_eq!(parse_i64(" 12"), None);
    assert_eq!(parse_i64("1 2"), None);
    assert_eq!(parse_i64("--3"), None);
}

#[test]
fn parse_handles_limits() {
    assert_eq!(parse_i64("9223372036854775807"), Some(i64::MAX));
    assert_eq!(parse_i64("9223372036854775808"), None);
    assert_eq!(parse_i64("-9223372036854775808"), Some(i64::MIN));
    assert_eq!(parse_i64("-9223372036854775809"), None);
    assert_eq!(parse_i64("99999999999999999999999999"), None);
}

#[test]
fn parse_agrees_with_std() {
    let samples = [
        "0", "42", "007", "+5", "-7", "", "-", "+", "12a", "9223372036854775807",
        "9223372036854775808", "-9223372036854775808", "-9223372036854775809",
    ];
    for s in samples {
        assert_eq!(parse_i64(s), s.parse::<i64>().ok(), "on input {:?}", s);
    }
}

#[test]
fn format_canonical() {
    assert_eq!(fmt(0), "0");
    assert_eq!(fmt(250), "250");
    assert_eq!(fmt(-13), "-13");
    assert_eq!(fmt(i64::MAX), "9223372036854775807");
    assert_eq!(fmt(i64::MIN), "-9223372036854775808");
    let u: String = format_u64(10).into_iter().collect();
    assert_eq!(u, "10");
}

#[test]
fn format_then_parse_is_identity() {
    for x in [0, 1, -1, 9, 10, -10, 250, i64::MAX, i64::MIN] {
        assert_eq!(parse_i64(&fmt(x)), Some(x));
    }
}
