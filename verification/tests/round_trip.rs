use json_parser::{parse, Json, JsonNumber, JsonObject};

fn write_string(text: &str, out: &mut String) {
    out.push('"');
    for c in text.chars() {
        if c == '"' || c == '\\' {
            out.push('\\');
            out.push(c);
        } else if c < ' ' {
            out.push_str(&format!("{}u{:04x}", '\\', c as u32));
        } else {
            out.push(c);
        }
    }
    out.push('"');
}

fn encode(json: Json) -> String {
    let mut out = String::new();
    match json {
        Json::Null => out.push_str("null"),
        Json::Boolean(true) => out.push_str("true"),
        Json::Boolean(false) => out.push_str("false"),
        Json::Number(number) => out.push_str(number.as_str()),
        Json::String(text) => write_string(&text, &mut out),
        Json::Array(items) => {
            out.push('[');
            for (i, item) in items.into_iter().enumerate() {
                if i > 0 {
                    out.push(',');
                }
                out.push_str(&encode(item));
            }
            out.push(']');
        }
        Json::Object(object) => {
            out.push('{');
            for (i, (key, value)) in object.into_entries().into_iter().enumerate() {
                if i > 0 {
                    out.push(',');
                }
                write_string(&key, &mut out);
                out.push(':');
                out.push_str(&encode(value));
            }
            out.push('}');
        }
    }
    out
}

fn reparsed(text: &str) -> (Json, Json, String) {
    let first = parse(text).unwrap();
    let written = encode(parse(text).unwrap());
    let second = parse(&written).unwrap();
    (first, second, written)
}

#[test]
fn written_value_parses_to_itself() {
    for text in [
        r#"null"#,
        r#"true"#,
        r#"false"#,
        r#"0"#,
        r#"-3.14e2"#,
        r#"1E+05"#,
        r#""""#,
        r#""plain""#,
        r#"[]"#,
        r#"{}"#,
        r#"[[],[[]],{}]"#,
        r#"{"x":[1,2,{"y":true}]}"#,
        r#"{"a":{"b":{"c":[null,false,"d"]}},"e":-0.5}"#,
    ] {
        let (first, second, written) = reparsed(text);
        assert_eq!(first, second, "{}", text);
        assert_eq!(written, text);
    }
}

#[test]
fn written_value_parses_to_itself_whatever_the_whitespace() {
    let (first, second, written) = reparsed(" {\n\t\"a\" : [ 1 , 2 ] ,\r\n \"b\" : { } }\n");
    assert_eq!(first, second);
    assert_eq!(written, r#"{"a":[1,2],"b":{}}"#);
}

#[test]
fn written_value_parses_to_itself_whatever_the_escapes() {
    let (first, second, written) =
        reparsed(r#"["\u0041\u0062", "a\/b", "\n", "\ud83d\ude00", "\\\""]"#);
    assert_eq!(first, second);
    assert_eq!(written, "[\"Ab\",\"a/b\",\"\\u000a\",\"\u{1F600}\",\"\\\\\\\"\"]");
    assert_eq!(
        first,
        Json::Array(vec![
            Json::String("Ab".to_string()),
            Json::String("a/b".to_string()),
            Json::String("\n".to_string()),
            Json::String("\u{1F600}".to_string()),
            Json::String("\\\"".to_string()),
        ])
    );
}

#[test]
fn written_object_with_duplicate_keys_keeps_the_later_value() {
    let (first, second, written) = reparsed(r#"{"a":1,"b":2,"a":3}"#);
    assert_eq!(first, second);
    assert_eq!(written, r#"{"a":3,"b":2}"#);
}

#[test]
fn built_value_parses_back() {
    let mut object = JsonObject::new();
    object.insert("quote\"d".to_string(), Json::String("line\nbreak\u{1}".to_string()));
    object.insert("n".to_string(), Json::Number(JsonNumber::new("-1.5e-7").unwrap()));
    object.insert("list".to_string(), Json::Array(vec![Json::Null, Json::Boolean(true)]));
    let written = encode(Json::Object(object));
    assert_eq!(
        written,
        r#"{"quote\"d":"line\u000abreak\u0001","n":-1.5e-7,"list":[null,true]}"#
    );
    let read = match parse(&written).unwrap() {
        Json::Object(read) => read,
        other => panic!("{:?}", other),
    };
    assert_eq!(read.len(), 3);
    assert_eq!(read.get("quote\"d"), Some(&Json::String("line\nbreak\u{1}".to_string())));
    assert_eq!(read.get("n"), Some(&Json::Number(JsonNumber::new("-1.5e-7").unwrap())));
    assert_eq!(read.get("list"), Some(&Json::Array(vec![Json::Null, Json::Boolean(true)])));
}
