use remodian::text::{chars_of, parse_u32_chars, split_chars, trim_chars, ParseErrorKind};

fn parse(s: &str) -> Result<u32, ParseErrorKind> {
    parse_u32_chars(&chars_of(s))
}

#[test]
fn parse_u32_like_std() {
    assert_eq!(parse("0"), Ok(0));
    assert_eq!(parse("+5"), Ok(5));
    assert_eq!(parse("007"), Ok(7));
    assert_eq!(parse("4294967295"), Ok(u32::MAX));
    assert_eq!(parse(""), Err(ParseErrorKind::Empty));
    assert_eq!(parse("+"), Err(ParseErrorKind::InvalidDigit));
    assert_eq!(parse("-"), Err(ParseErrorKind::InvalidDigit));
    assert_eq!(parse("-5"), Err(ParseErrorKind::InvalidDigit));
    assert_eq!(parse("4294967296"), Err(ParseErrorKind::PosOverflow));
    assert_eq!(parse("1 2"), Err(ParseErrorKind::InvalidDigit));
    assert_eq!(parse("٣"), Err(ParseErrorKind::InvalidDigit));
    for s in ["12", "+0", "99999999999", "42x", "4294967295", "+-1"] {
        assert_eq!(parse(s).is_ok(), s.parse::<u32>().is_ok(), "{s}");
        if let Ok(v) = s.parse::<u32>() {
            assert_eq!(parse(s), Ok(v));
        }
    }
}

#[test]
fn trim_like_std() {
    for s in ["  a b \n", "\u{3000}x\u{A0}", "", " \t ", "no-space", "\u{2009}y\u{200B}"] {
        let t: String = trim_chars(&chars_of(s)).into_iter().collect();
        assert_eq!(t, s.trim(), "{s:?}");
    }
}

#[test]
fn split_like_std() {
    for s in ["a+b", "", "+", "a++b+", "abc"] {
        let ours: Vec<String> = split_chars(&chars_of(s), '+')
            .into_iter()
            .map(|v| v.into_iter().collect())
            .collect();
        let std: Vec<String> = s.split('+').map(|p| p.to_string()).collect();
        assert_eq!(ours, std, "{s:?}");
    }
}
