use turtl_core::crypto;
use turtl_core::error::{CryptoError, JSONError, TError};
use turtl_core::json;
use turtl_core::json::Json;
use turtl_core::models::content::{Class, Kind};
use turtl_core::models::model::Model;
use turtl_core::models::protected::{key_model, Protected};

fn dog_kind() -> Model {
    Model::new("Dog")
        .with_field("size", Class::Public, Kind::Int)
        .with_field("name", Class::Private, Kind::Text)
        .with_field("type_", Class::Private, Kind::Text)
        .with_field("tags", Class::Private, Kind::List(Box::new(Kind::Text)))
        .with_field("active", Class::Extra, Kind::Bool)
}

fn junkyard_kind() -> Model {
    Model::new("Junkyard")
        .with_field("name", Class::Public, Kind::Text)
        .with_submodel("dog", Class::Private, &dog_kind())
}

fn parse_model(kind: Model, text: &str) -> Model {
    let mut m = kind;
    m.set_multi(json::parse(text).unwrap()).unwrap();
    m
}

fn number(n: i64) -> Option<Json> {
    Some(Json::Number(serde_json::Number::from(n)))
}

fn text(s: &str) -> Option<Json> {
    Some(Json::Text(String::from(s)))
}

fn texts(items: &[&str]) -> Option<Json> {
    Some(Json::List(items.iter().map(|s| Json::Text(String::from(*s))).collect()))
}

/// The JSON text of a value, if there is one.
fn shown(v: Option<&Json>) -> Option<String> {
    v.map(|v| json::stringify(v).unwrap())
}

fn at(name: &str, data: &Json) -> Json {
    json::walk(name, data).unwrap().clone()
}

#[test]
fn returns_correct_public_fields() {
    let dog = dog_kind();
    assert_eq!(dog.public_fields(), ["id", "body", "size"]);
}

#[test]
fn returns_correct_private_fields() {
    let dog = dog_kind();
    assert_eq!(dog.private_fields(), ["name", "type", "tags"]);
}

#[test]
fn handles_public_data() {
    let mut dog = dog_kind();
    assert!(dog.set_field("active", Some(Json::Bool(true))));
    dog.id = Some(String::from("123"));
    assert!(dog.set_field("size", number(42i64)));
    assert!(dog.set_field("name", text("barky")));
    assert_eq!(json::stringify(&dog.data_for_storage()).unwrap(), r#"{"body":null,"id":"123","size":42}"#);
    assert_eq!(dog.stringify_for_storage().unwrap(), r#"{"body":null,"id":"123","size":42}"#);
}

#[test]
fn can_serialize_json() {
    let mut dog = dog_kind();
    assert!(dog.set_field("size", number(32i64)));
    assert!(dog.set_field("name", text("timmy")));
    assert!(dog.set_field("type_", text("tiny")));
    assert!(dog.set_field("tags", texts(&["canine", "3-legged"])));
    // extra fields do not show in the JSON
    assert!(dog.set_field("active", Some(Json::Bool(true))));
    assert_eq!(dog.stringify_unsafe().unwrap(), r#"{"body":null,"id":null,"name":"timmy","size":32,"tags":["canine","3-legged"],"type":"tiny"}"#);
    {
        let mut tags = dog.field("tags").unwrap().clone();
        match &mut tags {
            Json::List(items) => items.push(Json::Text(String::from("fast"))),
            _ => panic!("tags are a list"),
        }
        assert!(dog.set_field("tags", Some(tags)));
    }
    assert_eq!(dog.stringify_unsafe().unwrap(), r#"{"body":null,"id":null,"name":"timmy","size":32,"tags":["canine","3-legged","fast"],"type":"tiny"}"#);
}

#[test]
fn encrypts_decrypts() {
    let json_text = String::from(r#"{"size":69,"name":"barky","type":"canadian","tags":["flappy","noisy"]}"#);
    let mut dog = parse_model(dog_kind(), &json_text);
    let key = crypto::random_key().unwrap();
    dog.set_key(Some(key.clone()));
    let serialized = dog.serialize().unwrap();

    let body = match at("body", &serialized) {
        Json::Text(s) => s,
        _ => panic!("the body is a text"),
    };
    match json::walk("name", &serialized) {
        Ok(..) => panic!("data from Protected::serialize() contains private fields"),
        Err(e) => match e {
            JSONError::NotFound(..) => (),
            _ => panic!("error while testing data returned from Protected::serialize() - {:?}", e),
        },
    }
    assert_eq!(&body, dog.body.as_ref().unwrap());

    let mut dog2 = dog_kind();
    dog2.set_multi(dog.data_for_storage()).unwrap();
    assert_eq!(dog.stringify_for_storage().unwrap(), dog2.stringify_for_storage().unwrap());
    dog2.set_key(Some(key.clone()));
    assert_eq!(shown(dog2.field("size")), shown(number(69).as_ref()));
    assert_eq!(shown(dog2.field("name")), None);
    assert_eq!(shown(dog2.field("type_")), None);
    assert_eq!(shown(dog2.field("tags")), None);
    let res = dog2.deserialize().unwrap();
    assert_eq!(dog.stringify_unsafe().unwrap(), dog2.stringify_unsafe().unwrap());
    assert_eq!(shown(Some(&at("name", &res))), shown(text("barky").as_ref()));
    assert_eq!(shown(Some(&at("type", &res))), shown(text("canadian").as_ref()));
    assert_eq!(shown(dog2.field("size")), shown(number(69).as_ref()));
    assert_eq!(shown(dog2.field("name")), shown(text("barky").as_ref()));
    assert_eq!(shown(dog2.field("type_")), shown(text("canadian").as_ref()));
    assert_eq!(shown(dog2.field("tags")), shown(texts(&["flappy", "noisy"]).as_ref()));
}

#[test]
fn recursive_serialization() {
    let mut junkyard = parse_model(junkyard_kind(), r#"{"name":"US political system","dog":{"size":69,"name":"Gerard","type":"chowchow","tags":["bites","stubborn","furry"]}}"#);
    assert_eq!(junkyard.stringify_for_storage().unwrap(), String::from(r#"{"body":null,"dog":{"body":null,"id":null,"size":69},"id":null,"name":"US political system"}"#));
    assert_eq!(junkyard.stringify_unsafe().unwrap(), String::from(r#"{"body":null,"dog":{"body":null,"id":null,"name":"Gerard","size":69,"tags":["bites","stubborn","furry"],"type":"chowchow"},"id":null,"name":"US political system"}"#));
    junkyard.generate_key().unwrap();
    junkyard.serialize().unwrap();

    // the submodel was serialized too, and both can be undone
    let storage = junkyard.stringify_for_storage().unwrap();

    let mut junkyard2 = parse_model(junkyard_kind(), &storage);
    assert_eq!(shown(junkyard2.submodel("dog").unwrap().field("size")), shown(number(69).as_ref()));
    junkyard2.set_key(Some(junkyard.key().unwrap().clone()));
    junkyard2.deserialize().unwrap();
    assert_eq!(shown(junkyard2.submodel("dog").unwrap().field("size")), shown(number(69).as_ref()));
    let mut dog = junkyard2.submodel("dog").unwrap().duplicate();
    assert_eq!(shown(dog.field("name")), shown(text("Gerard").as_ref()));
    assert_eq!(shown(dog.field("type_")), shown(text("chowchow").as_ref()));
    assert_eq!(shown(dog.field("size")), shown(number(69).as_ref()));
    dog.body = None;
    assert_eq!(dog.stringify_unsafe().unwrap(), String::from(r#"{"body":null,"id":null,"name":"Gerard","size":69,"tags":["bites","stubborn","furry"],"type":"chowchow"}"#));
}

#[test]
fn tells_type_and_table() {
    let kind = Model::new("JUNKYard");
    assert_eq!(kind.table(), "junkyard");
    assert_eq!(kind.model_type(), "junkyard");
    assert_eq!(Model::new("ÄRGER").table(), "ärger");
    assert_eq!(key_model().table(), "key");
    assert_eq!(key_model().public_fields(), ["id", "body"]);
    assert!(key_model().private_fields().is_empty());
}

#[test]
fn lists_submodels() {
    assert_eq!(junkyard_kind().submodel_fields(), ["dog"]);
    assert!(dog_kind().submodel_fields().is_empty());
    let kind = Model::new("Odd").with_submodel("type_", Class::Public, &dog_kind());
    assert_eq!(kind.submodel_fields(), ["type"]);
}

#[test]
fn gives_submodel_data() {
    let junkyard = parse_model(junkyard_kind(), r#"{"dog":{"size":1,"name":"Rex"}}"#);
    let public = junkyard.submodel_data("dog", false).unwrap();
    assert_eq!(json::stringify(&public).unwrap(), r#"{"body":null,"id":null,"size":1}"#);
    let private = junkyard.submodel_data("dog", true).unwrap();
    assert_eq!(json::stringify(&private).unwrap(), r#"{"name":"Rex","tags":null,"type":null}"#);
    assert!(matches!(junkyard_kind().submodel_data("dog", true), Ok(Json::Null)));
    match junkyard.submodel_data("cat", true) {
        Err(TError::MissingField(m)) => assert_eq!(m, "The field cat wasn't found in this model"),
        _ => panic!("there is no cat"),
    }
}

#[test]
fn gets_fields() {
    let dog = parse_model(dog_kind(), r#"{"size":3,"name":"Rex"}"#);
    let names = vec![String::from("size"), String::from("type"), String::from("cat")];
    let some = dog.get_fields(&names);
    assert_eq!(shown(some.get("size")), shown(number(3).as_ref()));
    assert!(matches!(some.get("type"), Some(Json::Null)));
    assert_eq!(shown(some.get("cat")), None);
    assert_eq!(shown(some.get("name")), None);
}

#[test]
fn prints_type_and_id() {
    let mut dog = parse_model(dog_kind(), r#"{"name":"Rex"}"#);
    assert_eq!(dog.debug_text(), "dog: (<no id>)");
    dog.id = Some(String::from("6969"));
    assert_eq!(dog.debug_text(), "dog: (6969)");
}

#[test]
fn needs_a_key() {
    let mut dog = parse_model(dog_kind(), r#"{"name":"Rex"}"#);
    match dog.serialize() {
        Err(TError::BadValue(m)) => assert_eq!(m, "Protected::serialize() - missing `key` field for dog model <no id>"),
        _ => panic!("there is no key"),
    }
    assert_eq!(dog.get_body(), None);
    match dog.deserialize() {
        Err(TError::MissingField(m)) => assert_eq!(m, "Protected::deserialize() - missing `body` field for dog model <no id>"),
        _ => panic!("there is no body"),
    }
    dog.id = Some(String::from("7"));
    dog.set_body(String::from("AAAA"));
    match dog.deserialize() {
        Err(TError::BadValue(m)) => assert_eq!(m, "Protected::deserialize() - missing `key` field for dog model 7"),
        _ => panic!("there is no key"),
    }
    dog.set_body(String::from("not base64"));
    assert!(matches!(dog.deserialize(), Err(TError::Crypto(CryptoError::Base64))));
}

#[test]
fn refuses_bad_bodies() {
    let mut dog = parse_model(dog_kind(), r#"{"name":"Rex"}"#);
    dog.set_key(Some(vec![7; 31]));
    assert!(matches!(dog.serialize(), Err(TError::Crypto(CryptoError::BadKey))));
    dog.set_key(Some(vec![7; 32]));
    dog.serialize().unwrap();
    dog.set_key(Some(vec![8; 32]));
    assert!(matches!(dog.deserialize(), Err(TError::Crypto(CryptoError::Authentication))));
    dog.set_body(String::from("AAAA"));
    assert!(matches!(dog.deserialize(), Err(TError::Crypto(CryptoError::BadData))));
    assert!(matches!(dog.deserialize_with(&None), Err(TError::Crypto(CryptoError::Unavailable))));
    assert!(matches!(dog.serialize_with(&None), Err(TError::Crypto(CryptoError::Unavailable))));

    let aes = crypto::cipher();
    let key = vec![8; 32];
    let body = crypto::encrypt(&aes, &key, &[0xff, 0xfe]).unwrap();
    dog.set_body(crypto::to_base64(&body));
    assert!(matches!(dog.deserialize(), Err(TError::Utf8)));
    let body = crypto::encrypt(&aes, &key, b"{").unwrap();
    dog.set_body(crypto::to_base64(&body));
    assert!(matches!(dog.deserialize(), Err(TError::Json(JSONError::Parse(_)))));
    let body = crypto::encrypt(&aes, &key, b"[]").unwrap();
    dog.set_body(crypto::to_base64(&body));
    match dog.deserialize() {
        Err(TError::BadValue(m)) => assert_eq!(m, "protected.set_multi() -- invalid JSON object"),
        _ => panic!("a list is no object"),
    }
}

#[test]
fn first_submodel_that_fails_stops() {
    let mut junkyard = parse_model(junkyard_kind(), r#"{"name":"x","dog":{"name":"Rex"}}"#);
    junkyard.key = Some(vec![1; 32]);
    match junkyard.serialize() {
        Err(TError::BadValue(m)) => assert_eq!(m, "Protected::serialize() - missing `key` field for dog model <no id>"),
        _ => panic!("the dog has no key"),
    }
    assert_eq!(junkyard.get_body(), None);
    match junkyard.serialize_submodels() {
        Err(TError::BadValue(_)) => (),
        _ => panic!("the dog has no key"),
    }
    junkyard._set_key_on_submodels();
    junkyard.serialize_submodels().unwrap();
    assert_eq!(junkyard.get_body(), None);
    assert!(junkyard.submodel("dog").unwrap().get_body().is_some());
    junkyard.deserialize_submodels().unwrap();
}

#[test]
fn keys_reach_submodels() {
    let mut junkyard = parse_model(junkyard_kind(), r#"{"dog":{"name":"Rex"}}"#);
    assert_eq!(junkyard.ensure_key(), None);
    let key = junkyard.generate_key().unwrap().clone();
    assert_eq!(key.len(), 32);
    assert_eq!(junkyard.key(), Some(&key));
    assert_eq!(junkyard.submodel("dog").unwrap().key(), Some(&key));
    assert_eq!(junkyard.generate_key().unwrap(), &key);
    assert_eq!(junkyard.ensure_key(), Some(&key));
    junkyard.set_key(None);
    assert_eq!(junkyard.key(), None);
    assert_eq!(junkyard.submodel("dog").unwrap().key(), Some(&key));
}

#[test]
fn sets_from_json() {
    let mut dog = parse_model(dog_kind(), r#"{"id":"1","size":3,"name":"Rex","active":true,"cat":1}"#);
    assert_eq!(dog.id(), Some(&String::from("1")));
    assert_eq!(shown(dog.field("active")), None);
    dog.set_multi(json::parse(r#"{"id":null,"name":null}"#).unwrap()).unwrap();
    assert_eq!(dog.id(), None);
    assert_eq!(shown(dog.field("name")), None);
    assert_eq!(shown(dog.field("size")), shown(number(3).as_ref()));
    match dog.set_multi(json::parse(r#"{"body":1,"size":4}"#).unwrap()) {
        Err(TError::BadValue(m)) => assert_eq!(m, "Model::set_multi() -- invalid text field body"),
        _ => panic!("a number is no body"),
    }
    assert_eq!(shown(dog.field("size")), shown(number(3).as_ref()));
    match dog.set_multi(Json::Null) {
        Err(TError::BadValue(m)) => assert_eq!(m, "Model::set_multi() -- invalid JSON object"),
        _ => panic!("null is no object"),
    }
    let mut junkyard = parse_model(junkyard_kind(), r#"{"dog":{"name":"Rex"}}"#);
    junkyard.set_multi_recursive(json::parse(r#"{"name":"y","dog":{"size":2}}"#).unwrap()).unwrap();
    assert_eq!(shown(junkyard.field("name")), shown(text("y").as_ref()));
    let dog = junkyard.submodel("dog").unwrap();
    assert_eq!(shown(dog.field("name")), shown(text("Rex").as_ref()));
    assert_eq!(shown(dog.field("size")), shown(number(2).as_ref()));
    junkyard.set_multi(json::parse(r#"{"dog":null}"#).unwrap()).unwrap();
    assert!(junkyard.submodel("dog").is_none());
    junkyard.set_multi_recursive(json::parse(r#"{"dog":{"size":5}}"#).unwrap()).unwrap();
    assert_eq!(shown(junkyard.submodel("dog").unwrap().field("size")), shown(number(5).as_ref()));
}

#[test]
fn absent_submodel_cannot_be_deserialized() {
    let mut junkyard = parse_model(junkyard_kind(), r#"{"name":"empty"}"#);
    junkyard.generate_key().unwrap();
    junkyard.serialize().unwrap();
    match junkyard.deserialize() {
        Err(TError::BadValue(m)) => assert_eq!(m, "Model::set_multi() -- invalid JSON object"),
        _ => panic!("null is no submodel"),
    }
}

#[test]
fn submodel_named_type_comes_back() {
    let kind = Model::new("Odd")
        .with_field("name", Class::Private, Kind::Text)
        .with_submodel("type_", Class::Public, &dog_kind());
    let mut odd = parse_model(kind.blank(), r#"{"name":"n","type":{"size":1,"name":"Rex"}}"#);
    odd.generate_key().unwrap();
    odd.serialize().unwrap();
    let mut again = kind.blank();
    again.set_multi(odd.data_for_storage()).unwrap();
    again.set_key(odd.key().cloned());
    again.deserialize().unwrap();
    assert_eq!(again.stringify_unsafe().unwrap(), odd.stringify_unsafe().unwrap());

    let mut odd = parse_model(kind.blank(), r#"{"name":"n"}"#);
    odd.generate_key().unwrap();
    odd.serialize().unwrap();
    let mut again = kind.blank();
    again.set_multi(odd.data_for_storage()).unwrap();
    again.set_key(odd.key().cloned());
    again.deserialize().unwrap();
    assert_eq!(again.stringify_unsafe().unwrap(), odd.stringify_unsafe().unwrap());
    assert!(again.submodel("type_").is_none());
}

#[test]
fn serialize_changes_bodies_only() {
    let mut junkyard = parse_model(junkyard_kind(), r#"{"id":"9","name":"x","dog":{"id":"8","size":1,"name":"Rex"}}"#);
    junkyard.generate_key().unwrap();
    let before = junkyard.duplicate();
    let stored = junkyard.serialize().unwrap();
    assert_eq!(shown(Some(&stored)), shown(Some(&junkyard.data_for_storage())));
    assert_eq!(junkyard.key(), before.key());
    assert!(junkyard.get_body().is_some());
    let mut dog = junkyard.submodel("dog").unwrap().duplicate();
    assert!(dog.get_body().is_some());
    dog.body = None;
    assert_eq!(dog.stringify_unsafe().unwrap(), before.submodel("dog").unwrap().stringify_unsafe().unwrap());
    assert_eq!(shown(junkyard.field("name")), shown(before.field("name")));
    assert_eq!(junkyard.id(), before.id());
}

#[test]
fn storage_tells_nothing_private() {
    let one = parse_model(junkyard_kind(), r#"{"name":"x","dog":{"size":1,"name":"Rex"}}"#);
    let mut two = parse_model(junkyard_kind(), r#"{"name":"x","dog":{"size":1,"name":"Ada","tags":["t"]}}"#);
    two.set_key(Some(vec![3; 32]));
    assert_eq!(one.stringify_for_storage().unwrap(), two.stringify_for_storage().unwrap());
    assert!(!one.stringify_for_storage().unwrap().contains("Rex"));
    assert_eq!(two.key(), Some(&vec![3; 32]));
    assert!(!two.stringify_unsafe().unwrap().contains("key"));
}

#[test]
fn storage_without_extra_submodels_reads_back() {
    let kind = junkyard_kind();
    let yard = parse_model(kind.blank(), r#"{"id":"i","body":"b","name":"x","dog":{"size":1,"name":"Rex"}}"#);
    let mut again = kind.blank();
    again.set_multi(yard.data_for_storage()).unwrap();
    assert_eq!(again.stringify_for_storage().unwrap(), yard.stringify_for_storage().unwrap());
}

#[test]
fn finds_fields_and_submodels() {
    let yard = parse_model(junkyard_kind(), r#"{"name":"x","dog":{"size":1}}"#);
    assert_eq!(shown(yard.field("dog")), None);
    assert!(yard.submodel("name").is_none());
    assert!(yard.submodel("cat").is_none());
    let mut yard = yard;
    assert!(!yard.set_field("cat", None));
    assert!(!yard.set_field("dog", None));
    assert!(yard.submodel("dog").is_some());
    assert!(yard.set_field("name", None));
    assert_eq!(shown(yard.field("name")), None);
}

#[test]
fn data_stand_under_public_and_private_names() {
    let yard = parse_model(junkyard_kind(), r#"{"name":"x","dog":{"size":1,"name":"Rex"}}"#);
    let mut names = yard.public_fields();
    names.extend(yard.private_fields());
    let some = yard.get_fields(&names);
    assert_eq!(json::stringify(&Json::Object(some)).unwrap(), yard.stringify_unsafe().unwrap());
    let private = yard.get_serializable_data(true);
    assert_eq!(json::stringify(&private).unwrap(), r#"{"dog":{"name":"Rex","tags":null,"type":null}}"#);
    let public = yard.get_serializable_data(false);
    assert_eq!(json::stringify(&public).unwrap(), r#"{"body":null,"dog":{"body":null,"id":null,"size":1},"id":null,"name":"x"}"#);
}

fn refused(r: Result<(), TError>, field: &str) {
    match r {
        Err(TError::BadValue(m)) => assert_eq!(m, format!("Model::set_multi() -- invalid value for field {}", field)),
        _ => panic!("the value is not of the type of {}", field),
    }
}

#[test]
fn values_are_of_their_types() {
    let mut dog = parse_model(dog_kind(), r#"{"size":3,"name":"Rex","type":"t","tags":["a"]}"#);
    let before = dog.stringify_unsafe().unwrap();
    refused(dog.set_multi(json::parse(r#"{"size":"big"}"#).unwrap()), "size");
    refused(dog.set_multi(json::parse(r#"{"size":2.5}"#).unwrap()), "size");
    refused(dog.set_multi(json::parse(r#"{"size":9223372036854775808}"#).unwrap()), "size");
    refused(dog.set_multi(json::parse(r#"{"name":1}"#).unwrap()), "name");
    refused(dog.set_multi(json::parse(r#"{"type":false}"#).unwrap()), "type");
    refused(dog.set_multi(json::parse(r#"{"tags":"a"}"#).unwrap()), "tags");
    refused(dog.set_multi(json::parse(r#"{"tags":["a",1]}"#).unwrap()), "tags");
    refused(dog.set_multi(json::parse(r#"{"tags":[null]}"#).unwrap()), "tags");
    assert_eq!(dog.stringify_unsafe().unwrap(), before);
    dog.set_multi(json::parse(r#"{"size":-9223372036854775808,"tags":[]}"#).unwrap()).unwrap();
    assert_eq!(shown(dog.field("size")), Some(String::from("-9223372036854775808")));
    assert_eq!(shown(dog.field("tags")), Some(String::from("[]")));

    assert!(!dog.set_field("size", text("big")));
    assert!(!dog.set_field("active", number(1)));
    assert!(dog.set_field("active", Some(Json::Bool(true))));
    assert!(dog.set_field("size", None));
    assert_eq!(shown(dog.field("size")), None);

    let mut any = Model::new("Any").with_field("v", Class::Public, Kind::Any);
    assert!(any.set_field("v", text("x")));
    assert!(any.set_field("v", texts(&["x"])));
}

#[test]
fn a_value_that_is_refused_leaves_later_fields() {
    let mut dog = dog_kind();
    refused(dog.set_multi(json::parse(r#"{"id":"1","size":1,"name":2,"tags":["a"]}"#).unwrap()), "name");
    assert_eq!(dog.id(), Some(&String::from("1")));
    assert_eq!(shown(dog.field("size")), Some(String::from("1")));
    assert_eq!(shown(dog.field("tags")), None);
    let mut junkyard = junkyard_kind();
    refused(junkyard.set_multi_recursive(json::parse(r#"{"dog":{"size":true}}"#).unwrap()), "size");
}

#[test]
fn a_body_of_other_types_is_refused() {
    let aes = crypto::cipher();
    let key = vec![8; 32];
    let mut dog = dog_kind();
    dog.set_key(Some(key.clone()));
    let body = crypto::encrypt(&aes, &key, br#"{"name":17}"#).unwrap();
    dog.set_body(crypto::to_base64(&body));
    refused(dog.deserialize().map(|_| ()), "name");
}

#[test]
fn stored_text_reads_back() {
    let yard = parse_model(junkyard_kind(), r#"{"name":"x","dog":{"size":1,"name":"Rex"}}"#);
    let text = yard.stringify_for_storage().unwrap();
    assert_eq!(shown(json::parse(&text).ok().as_ref()), shown(Some(&yard.data_for_storage())));
    let text = yard.stringify_unsafe().unwrap();
    assert_eq!(shown(json::parse(&text).ok().as_ref()), shown(Some(&yard.data())));
}
