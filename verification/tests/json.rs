use turtl_core::error::JSONError;
use turtl_core::json;
use turtl_core::json::{Json, Object};

#[test]
fn reads_and_writes() {
    let v = json::parse(r#" {"b":[1,2.5,null,true],"a":"x\n\u00e4"} "#).unwrap();
    assert_eq!(json::stringify(&v).unwrap(), r#"{"a":"x\nä","b":[1,2.5,null,true]}"#);
    assert_eq!(json::stringify(&Json::Null).unwrap(), "null");
    assert!(matches!(json::parse("{"), Err(JSONError::Parse(_))));
    assert!(matches!(json::parse(""), Err(JSONError::Parse(_))));
}

#[test]
fn what_is_written_reads_back() {
    for text in ["0", "-1", "18446744073709551615", "1e300", "0.1", "123456.789e-5", "\"\\u0000\"", "[[],{}]"] {
        let v = json::parse(text).unwrap();
        let written = json::stringify(&v).unwrap();
        let again = json::parse(&written).unwrap();
        assert_eq!(json::stringify(&again).unwrap(), written);
        if let (Json::Number(a), Json::Number(b)) = (&v, &again) {
            assert_eq!(a, b);
        }
    }
}

#[test]
fn reads_up_to_the_nesting_limit() {
    let deep = |n: usize| format!("{}{}", "[".repeat(n), "]".repeat(n));
    let v = json::parse(&deep(json::MAX_NESTING)).unwrap();
    assert_eq!(json::stringify(&v).unwrap(), deep(json::MAX_NESTING));
    assert!(matches!(json::parse(&deep(json::MAX_NESTING + 1)), Err(JSONError::Parse(_))));
    let too_deep = Json::List(vec![v]);
    assert_eq!(json::stringify(&too_deep).unwrap(), deep(json::MAX_NESTING + 1));
}

#[test]
fn the_last_of_one_name_counts() {
    let v = json::parse(r#"{"a":1,"a":2}"#).unwrap();
    assert_eq!(json::stringify(&v).unwrap(), r#"{"a":2}"#);
    let mut o = Object::new();
    o.insert(String::from("a"), Json::Bool(false));
    o.insert(String::from("b"), Json::Null);
    o.insert(String::from("a"), Json::Bool(true));
    assert!(matches!(o.get("a"), Some(Json::Bool(true))));
    assert!(!format!("{:?}", o).contains("false"));
    assert_eq!(json::stringify(&Json::Object(o.clone())).unwrap(), r#"{"a":true,"b":null}"#);
    assert!(matches!(o.remove("a"), Some(Json::Bool(true))));
    assert!(o.get("a").is_none());
    assert!(o.remove("a").is_none());
    assert!(matches!(o.get("b"), Some(Json::Null)));
}

#[test]
fn walks() {
    let v = json::parse(r#"{"a":[1]}"#).unwrap();
    assert_eq!(json::stringify(json::walk("a", &v).unwrap()).unwrap(), "[1]");
    match json::walk("b", &v) {
        Err(JSONError::NotFound(name)) => assert_eq!(name, "b"),
        _ => panic!("there is no b"),
    }
    assert!(matches!(json::walk("a", &Json::Null), Err(JSONError::DeadEnd)));
}
