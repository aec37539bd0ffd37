use turtl_core::sock::{
    address, default_config_file, greetings, next_conn_id, runtime_config, Connection, FromUi, Gave, Turn, REST,
};

fn greeted(id: u32) -> Connection {
    Connection::new(id).next(Gave::Done).next(Gave::Done)
}

fn reading() -> Connection {
    greeted(1).next(Gave::Latest(1))
}

#[test]
fn knows_its_settings() {
    assert_eq!(default_config_file(), "../config.yaml");
    assert_eq!(runtime_config(), r#"{"messaging":{"reqres_append_mid":false}}"#);
    assert_eq!(address(), "127.0.0.1:7472");
    assert_eq!(greetings(), (r#"["0","sync:shutdown",false]"#, r#"["0","user:logout",false]"#));
    assert_eq!(REST, 10);
    assert_eq!(next_conn_id(0), 1);
    assert_eq!(next_conn_id(u32::MAX - 1), u32::MAX);
}

#[test]
fn greets_first() {
    let c = Connection::new(7).next(Gave::Latest(7));
    match &c.turn {
        Turn::Greet(s) => assert_eq!(s, r#"["0","sync:shutdown",false]"#),
        _ => panic!("the first greeting comes first"),
    }
    let c = c.next(Gave::Done);
    match &c.turn {
        Turn::GreetAgain(s) => assert_eq!(s, r#"["0","user:logout",false]"#),
        _ => panic!("the second greeting comes next"),
    }
    let c = c.next(Gave::Done);
    assert!(matches!(c.turn, Turn::AskLatest));
    assert_eq!(c.id, 7);
}

#[test]
fn goes_a_whole_round() {
    let c = reading();
    assert!(matches!(c.turn, Turn::ReadUi));
    let c = c.next(Gave::Ui(FromUi::Text(String::from("to core"))));
    match &c.turn {
        Turn::ToCore(s) => assert_eq!(s, "to core"),
        _ => panic!("the text goes into the core"),
    }
    let c = c.next(Gave::Done);
    assert!(matches!(c.turn, Turn::ReadMessage));
    let c = c.next(Gave::Core(Some(String::from("a message"))));
    match &c.turn {
        Turn::MessageToUi(s) => assert_eq!(s, "a message"),
        _ => panic!("the message goes out"),
    }
    let c = c.next(Gave::Done);
    assert!(matches!(c.turn, Turn::ReadEvent));
    let c = c.next(Gave::Core(Some(String::from("an event"))));
    match &c.turn {
        Turn::EventToUi(s) => assert_eq!(s, "an event"),
        _ => panic!("the event goes out"),
    }
    let c = c.next(Gave::Done);
    assert!(matches!(c.turn, Turn::Rest));
    let c = c.next(Gave::Done);
    assert!(matches!(c.turn, Turn::AskLatest));
    assert_eq!(c.id, 1);
}

#[test]
fn goes_an_idle_round() {
    let c = reading().next(Gave::Ui(FromUi::Other)).next(Gave::Core(None)).next(Gave::Core(None));
    assert!(matches!(c.turn, Turn::Rest));
}

#[test]
fn reads_binary_as_text() {
    let c = reading().next(Gave::Ui(FromUi::Binary("grüße".as_bytes().to_vec())));
    match c.turn {
        Turn::ToCore(s) => assert_eq!(s, "grüße"),
        _ => panic!("the text goes into the core"),
    }
    let c = reading().next(Gave::Ui(FromUi::Binary(vec![0xff])));
    assert!(matches!(c.turn, Turn::Fail));
}

#[test]
fn ends() {
    let c = reading().next(Gave::Ui(FromUi::Close));
    assert!(matches!(c.turn, Turn::End));
    let c = greeted(1).next(Gave::Latest(2));
    assert!(matches!(c.turn, Turn::End));
    let c = c.next(Gave::Latest(1)).next(Gave::Done);
    assert!(matches!(c.turn, Turn::End));
}

#[test]
fn ignores_what_is_not_on_the_turn() {
    let c = greeted(1).next(Gave::Done).next(Gave::Core(None));
    assert!(matches!(c.turn, Turn::AskLatest));
}
