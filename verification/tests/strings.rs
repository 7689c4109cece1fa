use json_parser::{parse, Json, ParseJsonError, Parser};

fn text(source: &str) -> String {
    match parse(source) {
        Ok(Json::String(text)) => text,
        other => panic!("not a string: {:?}", other),
    }
}

#[test]
fn string_without_escapes() {
    assert_eq!(text(r#""hello world""#), "hello world");
    assert_eq!(text(r#""""#), "");
    assert_eq!(text("\"caf\u{e9} \u{1F600} \u{7f}\""), "caf\u{e9} \u{1F600} \u{7f}");
}

#[test]
fn each_short_escape_is_decoded() {
    assert_eq!(text(r#""\"""#), "\"");
    assert_eq!(text(r#""\\""#), "\\");
    assert_eq!(text(r#""\/""#), "/");
    assert_eq!(text(r#""\b""#), "\u{8}");
    assert_eq!(text(r#""\f""#), "\u{c}");
    assert_eq!(text(r#""\n""#), "\n");
    assert_eq!(text(r#""\r""#), "\r");
    assert_eq!(text(r#""\t""#), "\t");
    assert_eq!(text(r#""a\nb\tc\\d\"e""#), "a\nb\tc\\d\"e");
}

#[test]
fn escapes_are_not_kept_as_written() {
    assert_ne!(text(r#""\n""#), "\\n");
    assert_eq!(text(r#""\n""#).chars().count(), 1);
    assert_eq!(text(r#""\u0041""#).chars().count(), 1);
}

#[test]
fn unicode_escape_names_a_character() {
    assert_eq!(text(r#""\u0041""#), "A");
    assert_eq!(text(r#""\u00e9""#), "\u{e9}");
    assert_eq!(text(r#""\u00E9""#), "\u{e9}");
    assert_eq!(text(r#""\u20aC""#), "\u{20ac}");
    assert_eq!(text(r#""\u0000""#), "\u{0}");
    assert_eq!(text(r#""\uffff""#), "\u{ffff}");
    assert_eq!(text(r#""\ud7ff\ue000""#), "\u{d7ff}\u{e000}");
    assert_eq!(text(r#""\uabcd\uABCD\uAbCd""#), "\u{abcd}\u{abcd}\u{abcd}");
    assert_eq!(text(r#""x\u0031y""#), "x1y");
}

#[test]
fn surrogate_pair_names_one_character() {
    assert_eq!(text(r#""\ud83d\ude00""#), "\u{1F600}");
    assert_eq!(text(r#""\uD83D\uDE00""#), "\u{1F600}");
    assert_eq!(text(r#""\ud800\udc00""#), "\u{10000}");
    assert_eq!(text(r#""\udbff\udfff""#), "\u{10FFFF}");
    assert_eq!(text(r#""a\ud834\udd1eb""#), "a\u{1D11E}b");
}

#[test]
fn unpaired_surrogate_is_rejected() {
    assert_eq!(parse(r#""\udc00""#), Err(ParseJsonError::UnpairedSurrogate));
    assert_eq!(parse(r#""\udfff""#), Err(ParseJsonError::UnpairedSurrogate));
    assert_eq!(parse(r#""\ud800\u0041""#), Err(ParseJsonError::UnpairedSurrogate));
    assert_eq!(parse(r#""\ud800\ud800""#), Err(ParseJsonError::UnpairedSurrogate));
    assert_eq!(parse(r#""\udbff\ue000""#), Err(ParseJsonError::UnpairedSurrogate));
}

#[test]
fn first_half_of_a_pair_needs_the_second() {
    assert_eq!(parse(r#""\ud800""#), Err(ParseJsonError::Expected('\\', '"')));
    assert_eq!(parse(r#""\ud800x""#), Err(ParseJsonError::Expected('\\', 'x')));
    assert_eq!(parse(r#""\ud800\n""#), Err(ParseJsonError::Expected('u', 'n')));
    assert_eq!(parse(r#""\ud800"#), Err(ParseJsonError::EndOfString('\\')));
    assert_eq!(parse(r#""\ud800\"#), Err(ParseJsonError::EndOfString('u')));
    assert_eq!(parse(r#""\ud800\udc0"#), Err(ParseJsonError::EndOfString('"')));
}

#[test]
fn control_character_needs_an_escape() {
    assert_eq!(parse("\"a\nb\""), Err(ParseJsonError::ControlCharacter('\n')));
    assert_eq!(parse("\"\t\""), Err(ParseJsonError::ControlCharacter('\t')));
    assert_eq!(parse("\"\u{0}\""), Err(ParseJsonError::ControlCharacter('\u{0}')));
    assert_eq!(parse("\"\u{1f}\""), Err(ParseJsonError::ControlCharacter('\u{1f}')));
    assert_eq!(text("\"\u{20}\""), " ");
}

#[test]
fn unknown_escape_is_rejected() {
    assert_eq!(parse(r#""\x41""#), Err(ParseJsonError::InvalidEscape('x')));
    assert_eq!(parse(r#""\'""#), Err(ParseJsonError::InvalidEscape('\'')));
    assert_eq!(parse(r#""\U0041""#), Err(ParseJsonError::InvalidEscape('U')));
    assert_eq!(parse(r#""\0""#), Err(ParseJsonError::InvalidEscape('0')));
}

#[test]
fn unicode_escape_needs_four_hexadecimal_digits() {
    assert_eq!(parse(r#""\u00g1""#), Err(ParseJsonError::InvalidHexDigit('g')));
    assert_eq!(parse(r#""\u41""#), Err(ParseJsonError::InvalidHexDigit('"')));
    assert_eq!(parse(r#""\u 041""#), Err(ParseJsonError::InvalidHexDigit(' ')));
    assert_eq!(parse(r#""\u-041""#), Err(ParseJsonError::InvalidHexDigit('-')));
    assert_eq!(parse(r#""\u004"#), Err(ParseJsonError::EndOfString('"')));
    assert_eq!(parse(r#""\u"#), Err(ParseJsonError::EndOfString('"')));
}

#[test]
fn unterminated_string_expects_the_quote() {
    assert_eq!(parse(r#""abc"#), Err(ParseJsonError::EndOfString('"')));
    assert_eq!(parse(r#"""#), Err(ParseJsonError::EndOfString('"')));
    assert_eq!(parse(r#""abc\"#), Err(ParseJsonError::EndOfString('"')));
    assert_eq!(parse(r#""abc\""#), Err(ParseJsonError::EndOfString('"')));
}

#[test]
fn keys_are_decoded_like_strings() {
    let object = match parse(r#"{"a\tb\u0041": 1}"#).unwrap() {
        Json::Object(object) => object,
        other => panic!("{:?}", other),
    };
    assert!(object.get("a\tbA").is_some());
    assert!(object.get("a\\tb\\u0041").is_none());
}

#[test]
fn parse_string_reads_from_the_cursor() {
    let mut parser = Parser::new(r#""ab" rest"#);
    assert_eq!(parser.parse_string(), Ok(Json::String("ab".to_string())));
    assert_eq!(parser.position(), 4);
    assert_eq!(parser.peek(), Some(' '));
}

#[test]
fn parse_string_needs_the_opening_quote() {
    let mut parser = Parser::new("ab\"");
    assert_eq!(parser.parse_string(), Err(ParseJsonError::Expected('"', 'a')));
    assert_eq!(parser.position(), 0);
    let mut parser = Parser::new(" \"ab\"");
    assert_eq!(parser.parse_string(), Err(ParseJsonError::Expected('"', ' ')));
    let mut parser = Parser::new("");
    assert_eq!(parser.parse_string(), Err(ParseJsonError::EndOfString('"')));
}

#[test]
fn error_in_a_string_leaves_the_cursor_on_it() {
    let mut parser = Parser::new("\"ab\\qcd\"");
    assert_eq!(parser.parse_string(), Err(ParseJsonError::InvalidEscape('q')));
    assert_eq!(parser.position(), 4);
    let mut parser = Parser::new("\"ab\u{1}\"");
    assert_eq!(parser.parse_string(), Err(ParseJsonError::ControlCharacter('\u{1}')));
    assert_eq!(parser.position(), 3);
    let mut parser = Parser::new(r#""\u12x4""#);
    assert_eq!(parser.parse_string(), Err(ParseJsonError::InvalidHexDigit('x')));
    assert_eq!(parser.position(), 5);
    let mut parser = Parser::new(r#""\udc00""#);
    assert_eq!(parser.parse_string(), Err(ParseJsonError::UnpairedSurrogate));
    assert_eq!(parser.position(), 3);
    let mut parser = Parser::new(r#""\ud800\u0041""#);
    assert_eq!(parser.parse_string(), Err(ParseJsonError::UnpairedSurrogate));
    assert_eq!(parser.position(), 9);
    let mut parser = Parser::new(r#""abc"#);
    assert_eq!(parser.parse_string(), Err(ParseJsonError::EndOfString('"')));
    assert_eq!(parser.position(), 4);
}
