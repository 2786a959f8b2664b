use airc::number::{parse_unsigned, push_decimal, to_decimal, ParseIntError};

#[test]
fn digits_are_those_of_the_standard_library() {
    for n in [0u64, 7, 10, 99, 100, 4294967296, u64::MAX] {
        assert_eq!(to_decimal(n), n.to_string());
    }
    let mut s = "port ".to_string();
    push_decimal(&mut s, 6667);
    assert_eq!(s, "port 6667");
}

#[test]
fn numbers_read_as_the_standard_library_reads_them() {
    let texts = [
        "", "+", "0", "+0", "-1", "007", "12a", "a12", " 1", "65535", "65536", "99999999999999999999",
        "+65535", "++1", "99999a", "6553x", "\u{663}",
    ];
    for t in texts {
        let expected = t.parse::<u16>();
        match parse_unsigned(t, u16::MAX as u64) {
            Ok(n) => assert_eq!(expected, Ok(n as u16)),
            Err(e) => assert_eq!(expected.unwrap_err().to_string(), e.message()),
        }
    }
}

#[test]
fn each_way_to_fail_is_told() {
    assert_eq!(parse_unsigned("", 9), Err(ParseIntError::Empty));
    assert_eq!(parse_unsigned("x", 9), Err(ParseIntError::InvalidDigit));
    assert_eq!(parse_unsigned("10", 9), Err(ParseIntError::PosOverflow));
    assert_eq!(parse_unsigned("9", 9), Ok(9));
}

#[test]
fn reading_the_digits_of_a_number_gives_it_back() {
    for n in [0u64, 5, 42, 1000, 18446744073709551615] {
        assert_eq!(parse_unsigned(&to_decimal(n), u64::MAX), Ok(n));
    }
}
