use json_parser::{parse, Json, ParseJsonError};

fn number(json: &Json) -> f64 {
    match json {
        Json::Number(number) => number.as_str().parse::<f64>().unwrap(),
        other => panic!("not a number: {:?}", other),
    }
}

#[test]
fn it_works() {
    let json = r#"{"Paris": "France"}"#.parse::<Json>().unwrap();
    let values = match json {
        Json::Object(values) => values,
        _ => unreachable!(),
    };
    assert!(values.get("Paris").is_some());
    assert_eq!(values.get("Paris"), Some(&Json::String("France".to_string())));
    assert!(values.get("France").is_none());
    assert!(values.get("todo").is_none());
}

#[test]
fn empty_object_has_no_entries() {
    match parse("{}") {
        Ok(Json::Object(object)) => {
            assert_eq!(object.len(), 0);
            assert!(object.is_empty());
        }
        other => panic!("{:?}", other),
    }
    match parse("{ \n }") {
        Ok(Json::Object(object)) => assert_eq!(object.len(), 0),
        other => panic!("{:?}", other),
    }
}

#[test]
fn empty_array_has_no_items() {
    assert_eq!(parse("[]"), Ok(Json::Array(vec![])));
    assert_eq!(parse("[ \t ]"), Ok(Json::Array(vec![])));
}

#[test]
fn duplicate_key_keeps_the_later_value() {
    let json = parse(r#"{"a":1,"a":2}"#).unwrap();
    let object = match json {
        Json::Object(object) => object,
        other => panic!("{:?}", other),
    };
    assert_eq!(object.len(), 1);
    assert_eq!(number(object.get("a").unwrap()), 2.0);
}

#[test]
fn duplicate_key_keeps_the_first_place() {
    let json = parse(r#"{"a":1,"b":true,"a":null}"#).unwrap();
    let object = match json {
        Json::Object(object) => object,
        other => panic!("{:?}", other),
    };
    let entries = object.into_entries();
    assert_eq!(entries.len(), 2);
    assert_eq!(entries[0], ("a".to_string(), Json::Null));
    assert_eq!(entries[1], ("b".to_string(), Json::Boolean(true)));
}

#[test]
fn unterminated_object_expects_a_key() {
    assert_eq!(parse("{"), Err(ParseJsonError::EndOfString('"')));
    assert_eq!(parse("{  "), Err(ParseJsonError::EndOfString('"')));
}

#[test]
fn unterminated_object_expects_a_brace() {
    assert_eq!(parse(r#"{"a":1"#), Err(ParseJsonError::EndOfString('}')));
    assert_eq!(parse(r#"{"a":1 "#), Err(ParseJsonError::EndOfString('}')));
}

#[test]
fn unterminated_object_expects_a_colon() {
    assert_eq!(parse(r#"{"a""#), Err(ParseJsonError::EndOfString(':')));
}

#[test]
fn missing_colon_is_a_mismatch() {
    assert_eq!(parse(r#"{"a" 1}"#), Err(ParseJsonError::Expected(':', '1')));
    assert_eq!(parse(r#"{"a"1}"#), Err(ParseJsonError::Expected(':', '1')));
}

#[test]
fn nested_structure() {
    let json = parse(r#"{"x":[1,2,{"y":true}]}"#).unwrap();
    let object = match json {
        Json::Object(object) => object,
        other => panic!("{:?}", other),
    };
    assert_eq!(object.len(), 1);
    let items = match object.get("x") {
        Some(Json::Array(items)) => items,
        other => panic!("{:?}", other),
    };
    assert_eq!(items.len(), 3);
    assert_eq!(number(&items[0]), 1.0);
    assert_eq!(number(&items[1]), 2.0);
    let inner = match &items[2] {
        Json::Object(inner) => inner,
        other => panic!("{:?}", other),
    };
    assert_eq!(inner.len(), 1);
    assert_eq!(inner.get("y"), Some(&Json::Boolean(true)));
}

#[test]
fn whitespace_does_not_change_the_tree() {
    assert_eq!(parse("{ \"a\" : 1 }"), parse("{\"a\":1}"));
    assert!(parse("{\"a\":1}").is_ok());
    assert_eq!(
        parse(" \t\r\n[ 1 ,\n\t{ \"k\" : [ ] , \"l\" : null } , \"s\" ]\n"),
        parse("[1,{\"k\":[],\"l\":null},\"s\"]")
    );
    assert!(parse("[1,{\"k\":[],\"l\":null},\"s\"]").is_ok());
}

#[test]
fn whitespace_inside_a_string_stays() {
    assert_eq!(parse("\" a  b \""), Ok(Json::String(" a  b ".to_string())));
    assert_ne!(parse("\"a b\""), parse("\"ab\""));
}

#[test]
fn only_four_characters_are_whitespace() {
    assert_eq!(parse("\u{a0}1"), Err(ParseJsonError::Unexpected('\u{a0}')));
    assert_eq!(parse("\u{b}1"), Err(ParseJsonError::Unexpected('\u{b}')));
    assert_eq!(parse("\u{c}1"), Err(ParseJsonError::Unexpected('\u{c}')));
    assert!(parse(" \t\n\r1").is_ok());
}

#[test]
fn any_value_may_be_the_root() {
    assert_eq!(parse("null"), Ok(Json::Null));
    assert_eq!(parse("true"), Ok(Json::Boolean(true)));
    assert_eq!(parse("false"), Ok(Json::Boolean(false)));
    assert_eq!(parse("\"text\""), Ok(Json::String("text".to_string())));
    assert_eq!(number(&parse("12").unwrap()), 12.0);
    assert_eq!(parse(" [null] "), Ok(Json::Array(vec![Json::Null])));
}

#[test]
fn array_keeps_the_order_of_its_items() {
    assert_eq!(
        parse("[true, false, null, \"x\"]"),
        Ok(Json::Array(vec![
            Json::Boolean(true),
            Json::Boolean(false),
            Json::Null,
            Json::String("x".to_string()),
        ]))
    );
}

#[test]
fn object_keeps_the_order_of_its_keys() {
    let object = match parse(r#"{"b":null,"a":true,"c":false}"#).unwrap() {
        Json::Object(object) => object,
        other => panic!("{:?}", other),
    };
    let keys: Vec<String> = object.into_entries().into_iter().map(|entry| entry.0).collect();
    assert_eq!(keys, vec!["b".to_string(), "a".to_string(), "c".to_string()]);
}

#[test]
fn from_str_is_parse() {
    assert_eq!("[1, 2]".parse::<Json>(), parse("[1, 2]"));
    assert_eq!("[1, 2".parse::<Json>(), Err(ParseJsonError::EndOfString(']')));
}

#[test]
fn nothing_may_follow_the_document() {
    assert_eq!(parse("{} x"), Err(ParseJsonError::Trailing('x')));
    assert_eq!(parse("[] []"), Err(ParseJsonError::Trailing('[')));
    assert_eq!(parse("null,"), Err(ParseJsonError::Trailing(',')));
}

#[test]
fn a_text_without_a_value_is_rejected() {
    assert_eq!(parse(""), Err(ParseJsonError::UnexpectedEnd));
    assert_eq!(parse("  \n"), Err(ParseJsonError::UnexpectedEnd));
    assert_eq!(parse("[1,"), Err(ParseJsonError::UnexpectedEnd));
    assert_eq!(parse("{\"a\":"), Err(ParseJsonError::UnexpectedEnd));
}

#[test]
fn a_character_that_starts_no_value_is_rejected() {
    assert_eq!(parse("?"), Err(ParseJsonError::Unexpected('?')));
    assert_eq!(parse("+1"), Err(ParseJsonError::Unexpected('+')));
    assert_eq!(parse("[1,]"), Err(ParseJsonError::Unexpected(']')));
    assert_eq!(parse("[,1]"), Err(ParseJsonError::Unexpected(',')));
    assert_eq!(parse("}"), Err(ParseJsonError::Unexpected('}')));
}

#[test]
fn a_comma_must_be_followed_by_a_member() {
    assert_eq!(parse(r#"{"a":1,}"#), Err(ParseJsonError::Expected('"', '}')));
    assert_eq!(parse(r#"{"a":1,"#), Err(ParseJsonError::EndOfString('"')));
    assert_eq!(parse(r#"{a:1}"#), Err(ParseJsonError::Expected('"', 'a')));
}

#[test]
fn items_need_commas_between_them() {
    assert_eq!(parse("[1 2]"), Err(ParseJsonError::Expected(']', '2')));
    assert_eq!(parse("[1"), Err(ParseJsonError::EndOfString(']')));
    assert_eq!(parse(r#"{"a":1 "b":2}"#), Err(ParseJsonError::Expected('}', '"')));
}

#[test]
fn literals_fail_at_the_first_other_character() {
    assert_eq!(parse("tru"), Err(ParseJsonError::EndOfString('e')));
    assert_eq!(parse("trux"), Err(ParseJsonError::Expected('e', 'x')));
    assert_eq!(parse("fals"), Err(ParseJsonError::EndOfString('e')));
    assert_eq!(parse("fAlse"), Err(ParseJsonError::Expected('a', 'A')));
    assert_eq!(parse("nul"), Err(ParseJsonError::EndOfString('l')));
    assert_eq!(parse("nil"), Err(ParseJsonError::Expected('u', 'i')));
    assert_eq!(parse("nulll"), Err(ParseJsonError::Trailing('l')));
}

#[test]
fn nesting_up_to_the_limit_is_read() {
    let depth = json_parser::grammar::MAX_DEPTH;
    assert_eq!(depth, 128);
    let text = "[".repeat(depth) + &"]".repeat(depth);
    let mut json = parse(&text).unwrap();
    let mut levels = 0;
    loop {
        match json {
            Json::Array(mut items) => {
                levels += 1;
                if items.is_empty() {
                    break;
                }
                assert_eq!(items.len(), 1);
                json = items.pop().unwrap();
            }
            other => panic!("{:?}", other),
        }
    }
    assert_eq!(levels, depth);
}

#[test]
fn nesting_beyond_the_limit_is_rejected() {
    let depth = json_parser::grammar::MAX_DEPTH + 1;
    let arrays = "[".repeat(depth) + &"]".repeat(depth);
    assert_eq!(parse(&arrays), Err(ParseJsonError::DepthExceeded));
    let objects = "{\"k\":".repeat(depth) + "null" + &"}".repeat(depth);
    assert_eq!(parse(&objects), Err(ParseJsonError::DepthExceeded));
    let open = "[".repeat(100_000);
    assert_eq!(parse(&open), Err(ParseJsonError::DepthExceeded));
}
