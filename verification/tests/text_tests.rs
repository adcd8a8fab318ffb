use vitric::text::{parse_uint, IntError};

#[test]
fn unsigned_parsing_follows_std() {
    for s in ["0", "42", "+7", "18446744073709551615", "-1", "", "+", "18446744073709551616", "1a"] {
        let mine = parse_uint(s, 10);
        let std_r = s.parse::<u64>();
        assert_eq!(mine.is_ok(), std_r.is_ok(), "{s}");
        if let (Ok(a), Ok(b)) = (&mine, &std_r) {
            assert_eq!(a, b);
        }
    }
    assert_eq!(parse_uint("ff", 16), Ok(255));
    assert_eq!(parse_uint("FF", 16), Ok(255));
    assert_eq!(parse_uint("", 16), Err(IntError::Empty));
    assert_eq!(parse_uint("g", 16), Err(IntError::InvalidDigit));
    assert_eq!(parse_uint("10000000000000000", 16), Err(IntError::PosOverflow));
    assert_eq!(u64::from_str_radix("10000000000000000", 16).unwrap_err().to_string(), "number too large to fit in target type");
    assert_eq!(u64::from_str_radix("", 16).unwrap_err().to_string(), "cannot parse integer from empty string");
    assert_eq!(u64::from_str_radix("g", 16).unwrap_err().to_string(), "invalid digit found in string");
}
