use json_parser::{parse, Json, JsonNumber, ParseJsonError, Parser};

fn lexeme(source: &str) -> String {
    match parse(source) {
        Ok(Json::Number(number)) => number.as_str().to_string(),
        other => panic!("not a number: {:?}", other),
    }
}

fn float(source: &str) -> f64 {
    lexeme(source).parse::<f64>().unwrap()
}

#[test]
fn number_with_fraction_and_exponent() {
    assert_eq!(float("-3.14e2"), -314.0);
    assert_eq!(lexeme("-3.14e2"), "-3.14e2");
}

#[test]
fn zero_is_a_number() {
    assert_eq!(float("0"), 0.0);
    assert_eq!(lexeme("0"), "0");
    assert_eq!(float("-0"), 0.0);
    assert_eq!(float("0.0"), 0.0);
    assert_eq!(float("0e0"), 0.0);
}

#[test]
fn leading_zero_is_rejected() {
    assert_eq!(parse("01"), Err(ParseJsonError::Trailing('1')));
    assert_eq!(parse("-01"), Err(ParseJsonError::Trailing('1')));
    assert_eq!(parse("00"), Err(ParseJsonError::Trailing('0')));
    assert_eq!(parse("[01]"), Err(ParseJsonError::Expected(']', '1')));
    assert_eq!(parse("{\"a\":007}"), Err(ParseJsonError::Expected('}', '0')));
}

#[test]
fn numbers_of_every_form() {
    assert_eq!(float("1"), 1.0);
    assert_eq!(float("-1"), -1.0);
    assert_eq!(float("1234567890"), 1234567890.0);
    assert_eq!(float("10"), 10.0);
    assert_eq!(float("1.5"), 1.5);
    assert_eq!(float("0.25"), 0.25);
    assert_eq!(float("-0.5"), -0.5);
    assert_eq!(float("1e3"), 1000.0);
    assert_eq!(float("1E3"), 1000.0);
    assert_eq!(float("1e+3"), 1000.0);
    assert_eq!(float("1e-3"), 0.001);
    assert_eq!(float("2.5E-1"), 0.25);
    assert_eq!(float("12.00"), 12.0);
    assert_eq!(float("1e05"), 100000.0);
    assert_eq!(float(" 42 "), 42.0);
}

#[test]
fn number_keeps_its_lexeme() {
    assert_eq!(lexeme("1.0"), "1.0");
    assert_eq!(lexeme("1E+05"), "1E+05");
    assert_eq!(lexeme(" -12.50e-3\n"), "-12.50e-3");
    assert_eq!(
        lexeme("123456789012345678901234567890.12345678901234567890"),
        "123456789012345678901234567890.12345678901234567890"
    );
    assert_ne!(parse("1.0"), parse("1"));
}

#[test]
fn number_needs_its_digits() {
    assert_eq!(parse("-"), Err(ParseJsonError::MalformedNumber(None)));
    assert_eq!(parse("-x"), Err(ParseJsonError::MalformedNumber(Some('x'))));
    assert_eq!(parse("--1"), Err(ParseJsonError::MalformedNumber(Some('-'))));
    assert_eq!(parse("-.5"), Err(ParseJsonError::MalformedNumber(Some('.'))));
    assert_eq!(parse("1."), Err(ParseJsonError::MalformedNumber(None)));
    assert_eq!(parse("1.e3"), Err(ParseJsonError::MalformedNumber(Some('e'))));
    assert_eq!(parse("[1.]"), Err(ParseJsonError::MalformedNumber(Some(']'))));
    assert_eq!(parse("1e"), Err(ParseJsonError::MalformedNumber(None)));
    assert_eq!(parse("1e+"), Err(ParseJsonError::MalformedNumber(None)));
    assert_eq!(parse("1e-"), Err(ParseJsonError::MalformedNumber(None)));
    assert_eq!(parse("1ex"), Err(ParseJsonError::MalformedNumber(Some('x'))));
    assert_eq!(parse("1e+-1"), Err(ParseJsonError::MalformedNumber(Some('-'))));
    assert_eq!(parse("1E 5"), Err(ParseJsonError::MalformedNumber(Some(' '))));
}

#[test]
fn number_ends_where_the_grammar_ends() {
    assert_eq!(parse("1.5.5"), Err(ParseJsonError::Trailing('.')));
    assert_eq!(parse("1e5e5"), Err(ParseJsonError::Trailing('e')));
    assert_eq!(parse("1e5.5"), Err(ParseJsonError::Trailing('.')));
    assert_eq!(parse("1x"), Err(ParseJsonError::Trailing('x')));
    assert_eq!(parse("1-2"), Err(ParseJsonError::Trailing('-')));
    assert_eq!(parse("0x10"), Err(ParseJsonError::Trailing('x')));
    assert_eq!(parse(".5"), Err(ParseJsonError::Unexpected('.')));
    assert_eq!(parse("+1"), Err(ParseJsonError::Unexpected('+')));
    assert_eq!(parse("NaN"), Err(ParseJsonError::Unexpected('N')));
    assert_eq!(parse("Infinity"), Err(ParseJsonError::Unexpected('I')));
}

#[test]
fn parse_number_reads_from_the_cursor() {
    let mut parser = Parser::new("12.5,3");
    let number = parser.parse_number().unwrap();
    assert_eq!(number, Json::Number(JsonNumber::new("12.5").unwrap()));
    assert_eq!(parser.position(), 4);
    assert_eq!(parser.peek(), Some(','));
}

#[test]
fn parse_number_skips_no_whitespace() {
    let mut parser = Parser::new(" 1");
    assert_eq!(parser.parse_number(), Err(ParseJsonError::MalformedNumber(Some(' '))));
    assert_eq!(parser.position(), 0);
}

#[test]
fn error_in_a_number_leaves_the_cursor_on_it() {
    let mut parser = Parser::new("-12.x");
    assert_eq!(parser.parse_number(), Err(ParseJsonError::MalformedNumber(Some('x'))));
    assert_eq!(parser.position(), 4);
    let mut parser = Parser::new("3e+");
    assert_eq!(parser.parse_number(), Err(ParseJsonError::MalformedNumber(None)));
    assert_eq!(parser.position(), 3);
}

#[test]
fn number_made_from_a_lexeme() {
    let number = JsonNumber::new("-3.14e2").unwrap();
    assert_eq!(number.as_str(), "-3.14e2");
    assert_eq!(parse("-3.14e2"), Ok(Json::Number(number)));
    assert!(JsonNumber::new("0").is_some());
    assert!(JsonNumber::new("-0.0E-0").is_some());
    assert!(JsonNumber::new("10").is_some());
}

#[test]
fn lexeme_that_is_no_number_makes_none() {
    assert!(JsonNumber::new("").is_none());
    assert!(JsonNumber::new("01").is_none());
    assert!(JsonNumber::new("1 ").is_none());
    assert!(JsonNumber::new(" 1").is_none());
    assert!(JsonNumber::new("1.").is_none());
    assert!(JsonNumber::new("-").is_none());
    assert!(JsonNumber::new("1e").is_none());
    assert!(JsonNumber::new("+1").is_none());
    assert!(JsonNumber::new("1,2").is_none());
    assert!(JsonNumber::new("0x1").is_none());
    assert!(JsonNumber::new("NaN").is_none());
    assert!(JsonNumber::new("1e5x").is_none());
}

#[test]
fn numbers_in_an_array() {
    let items = match parse("[0, -1, 2.5, 1e2]").unwrap() {
        Json::Array(items) => items,
        other => panic!("{:?}", other),
    };
    let floats: Vec<f64> = items
        .iter()
        .map(|item| match item {
            Json::Number(number) => number.as_str().parse::<f64>().unwrap(),
            other => panic!("{:?}", other),
        })
        .collect();
    assert_eq!(floats, vec![0.0, -1.0, 2.5, 100.0]);
}
