use kyberfrog::args::{parse_i64, parse_u64, Args};

fn argv(words: &[&str]) -> Vec<String> {
    words.iter().map(|w| w.to_string()).collect()
}

#[test]
fn key_value_pairs_parse() {
    let a = Args::parse(argv(&["--name", "src", "--fps", "30", "--fps", "60"])).unwrap();
    assert_eq!(a.opt("name"), Some("src"));
    assert_eq!(a.opt("nope"), None);
    assert_eq!(a.str("csv", "gen.csv"), "gen.csv");
    assert_eq!(a.num("fps", 1), Ok(60));
    assert_eq!(a.num("seed", 7), Ok(7));
}

#[test]
fn malformed_arguments_are_errors() {
    assert_eq!(Args::parse(argv(&["name", "x"])).err(), Some("expected --key, got 'name'".to_string()));
    assert_eq!(Args::parse(argv(&["--name"])).err(), Some("--name needs a value".to_string()));
    let a = Args::parse(argv(&["--fps", "sixty"])).unwrap();
    assert_eq!(a.num("fps", 1), Err("--fps: invalid value 'sixty'".to_string()));
}

#[test]
fn unsigned_numbers_read_like_from_str() {
    assert_eq!(parse_u64("42"), Some(42));
    assert_eq!(parse_u64("+7"), Some(7));
    assert_eq!(parse_u64("18446744073709551615"), Some(u64::MAX));
    assert_eq!(parse_u64("18446744073709551616"), None);
    assert_eq!(parse_u64(""), None);
    assert_eq!(parse_u64("+"), None);
    assert_eq!(parse_u64("-1"), None);
    assert_eq!(parse_u64(" 1"), None);
    for s in ["0", "00012", "99999", "+0"] {
        assert_eq!(parse_u64(s), s.parse::<u64>().ok());
    }
}

#[test]
fn signed_values_read_like_i64_from_str() {
    for s in ["0", "-1", "+42", "2000", "-9223372036854775808", "9223372036854775807", "", "-", "+", "1x", "--1",
        "9223372036854775808", "-9223372036854775809", " 1"] {
        assert_eq!(parse_i64(s), s.parse::<i64>().ok(), "{s:?}");
    }
}

#[test]
fn num_i64_reads_signed_values_with_a_default() {
    let args = Args::parse(vec!["--lead-us".to_string(), "-500".to_string(), "--poll-us".to_string(), "x".to_string()]).unwrap();
    assert_eq!(args.num_i64("lead-us", 2_000), Ok(-500));
    assert_eq!(args.num_i64("missing", 2_000), Ok(2_000));
    assert_eq!(args.num_i64("poll-us", 50), Err("--poll-us: invalid value 'x'".to_string()));
}
