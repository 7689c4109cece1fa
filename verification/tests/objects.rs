use json_parser::{parse, Json, JsonNumber, JsonObject};

#[test]
fn new_object_is_empty() {
    let object = JsonObject::new();
    assert_eq!(object.len(), 0);
    assert!(object.is_empty());
    assert!(object.get("a").is_none());
    assert!(object.get("").is_none());
    assert_eq!(parse("{}"), Ok(Json::Object(object)));
}

#[test]
fn inserted_value_is_found_under_its_key() {
    let mut object = JsonObject::new();
    object.insert("a".to_string(), Json::Boolean(true));
    assert_eq!(object.len(), 1);
    assert!(!object.is_empty());
    assert_eq!(object.get("a"), Some(&Json::Boolean(true)));
    assert_eq!(object.get("b"), None);
    assert_eq!(object.get("A"), None);
    assert_eq!(object.get(""), None);
    assert_eq!(object.get("aa"), None);
}

#[test]
fn insert_under_a_new_key_appends() {
    let mut object = JsonObject::new();
    object.insert("b".to_string(), Json::Null);
    object.insert("a".to_string(), Json::Boolean(false));
    object.insert("".to_string(), Json::String("empty".to_string()));
    assert_eq!(object.len(), 3);
    assert_eq!(object.get("b"), Some(&Json::Null));
    assert_eq!(object.get("a"), Some(&Json::Boolean(false)));
    assert_eq!(object.get(""), Some(&Json::String("empty".to_string())));
    assert_eq!(
        object.into_entries(),
        vec![
            ("b".to_string(), Json::Null),
            ("a".to_string(), Json::Boolean(false)),
            ("".to_string(), Json::String("empty".to_string())),
        ]
    );
}

#[test]
fn insert_under_a_present_key_replaces() {
    let mut object = JsonObject::new();
    object.insert("a".to_string(), Json::Null);
    object.insert("b".to_string(), Json::Null);
    object.insert("a".to_string(), Json::Boolean(true));
    assert_eq!(object.len(), 2);
    assert_eq!(object.get("a"), Some(&Json::Boolean(true)));
    assert_eq!(object.get("b"), Some(&Json::Null));
    assert_eq!(
        object.into_entries(),
        vec![("a".to_string(), Json::Boolean(true)), ("b".to_string(), Json::Null)]
    );
}

#[test]
fn built_object_equals_parsed_object() {
    let mut inner = JsonObject::new();
    inner.insert("y".to_string(), Json::Boolean(true));
    let mut object = JsonObject::new();
    object.insert(
        "x".to_string(),
        Json::Array(vec![
            Json::Number(JsonNumber::new("1").unwrap()),
            Json::Number(JsonNumber::new("2").unwrap()),
            Json::Object(inner),
        ]),
    );
    assert_eq!(parse(r#"{"x":[1,2,{"y":true}]}"#), Ok(Json::Object(object)));
}

#[test]
fn keys_differ_by_any_character() {
    let object = match parse(r#"{"key":1,"Key":2,"key ":3,"ke":4}"#).unwrap() {
        Json::Object(object) => object,
        other => panic!("{:?}", other),
    };
    assert_eq!(object.len(), 4);
    assert_eq!(object.get("key"), Some(&Json::Number(JsonNumber::new("1").unwrap())));
    assert_eq!(object.get("Key"), Some(&Json::Number(JsonNumber::new("2").unwrap())));
    assert_eq!(object.get("key "), Some(&Json::Number(JsonNumber::new("3").unwrap())));
    assert_eq!(object.get("ke"), Some(&Json::Number(JsonNumber::new("4").unwrap())));
    assert_eq!(object.get("k"), None);
}

#[test]
fn duplicate_keys_at_every_level() {
    let object = match parse(r#"{"a":{"b":1,"b":2},"a":{"b":3,"b":4}}"#).unwrap() {
        Json::Object(object) => object,
        other => panic!("{:?}", other),
    };
    assert_eq!(object.len(), 1);
    let inner = match object.get("a") {
        Some(Json::Object(inner)) => inner,
        other => panic!("{:?}", other),
    };
    assert_eq!(inner.len(), 1);
    assert_eq!(inner.get("b"), Some(&Json::Number(JsonNumber::new("4").unwrap())));
}

#[test]
fn entries_are_seen_in_their_order() {
    let object = match parse(r#"{"b":true,"a":null,"b":false}"#).unwrap() {
        Json::Object(object) => object,
        other => panic!("{:?}", other),
    };
    let keys: Vec<&str> = object.entries().iter().map(|entry| entry.0.as_str()).collect();
    assert_eq!(keys, vec!["b", "a"]);
    assert_eq!(object.entries()[0].1, Json::Boolean(false));
    assert_eq!(object.entries()[1].1, Json::Null);
    assert_eq!(object.entries().len(), object.len());
}
