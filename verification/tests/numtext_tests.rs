use logpart::numtext::{i64_to_dec, parse_i64};

fn parse(s: &str) -> Option<i64> {
    parse_i64(&s.as_bytes().to_vec())
}

#[test]
fn parses_like_std() {
    let cases = vec![
        "0",
        "42",
        "-42",
        "+42",
        "9223372036854775807",
        "-9223372036854775808",
        "9223372036854775808",
        "-9223372036854775809",
        "18446744073709551616",
        "",
        "-",
        "+",
        "12a",
        " 1",
        "1 ",
        "1.5",
        "--1",
        "0009",
    ];
    for c in cases {
        assert_eq!(parse(c), c.parse::<i64>().ok(), "input {:?}", c);
    }
}

#[test]
fn formats_like_std() {
    let cases: Vec<i64> = vec![0, 7, -7, 1700000000, i64::MAX, i64::MIN, -1000];
    for v in cases {
        assert_eq!(i64_to_dec(v), v.to_string().into_bytes(), "value {}", v);
    }
}

#[test]
fn round_trip() {
    for v in vec![0i64, 5, -5, i64::MAX, i64::MIN, 8210266876799000] {
        assert_eq!(parse_i64(&i64_to_dec(v)), Some(v));
    }
}
