use turtl_core::error::TError;
use turtl_core::messaging::{recv, recv_event, recv_event_nb, recv_impl, recv_nb, recv_nb_impl, send};

fn configured() -> Result<String, TError> {
    Ok(String::from("inproc://turtl"))
}

#[test]
fn sends_into_the_core() {
    let out = send(String::from(r#"["1","ping"]"#));
    assert_eq!(out.message, r#"["1","ping"]"#);
    assert_eq!(out.config_path(), ("messaging", "reqres"));
    assert_eq!(out.channel(configured()).unwrap(), "inproc://turtl-core-in");
    match out.channel(Err(TError::Msg(String::from("no such entry")))) {
        Err(TError::Msg(m)) => assert_eq!(m, "no such entry"),
        _ => panic!("the entry is missing"),
    }
}

#[test]
fn receives_messages() {
    let one = recv(Some("1"));
    assert!(one.blocking);
    assert_eq!(one.config_path(), ("messaging", "reqres"));
    assert_eq!(one.channel(configured()).unwrap(), "inproc://turtl-core-out:1");
    let any = recv(None);
    assert_eq!(any.channel(configured()).unwrap(), "inproc://turtl-core-out");
    assert_eq!(recv(Some("")).channel(configured()).unwrap(), "inproc://turtl-core-out:");
    assert_eq!(any.message(Ok(r#"{"e":0}"#.as_bytes().to_vec())).unwrap(), r#"{"e":0}"#);
    assert_eq!(any.message(Ok("ä".as_bytes().to_vec())).unwrap(), "ä");
    assert!(matches!(any.message(Ok(vec![0xff])), Err(TError::Utf8)));
    assert!(matches!(any.message(Err(TError::Msg(String::new()))), Err(TError::Msg(_))));
    assert!(matches!(any.channel(Err(TError::Utf8)), Err(TError::Utf8)));
}

#[test]
fn receives_events() {
    let event = recv_event();
    assert!(event.blocking);
    assert_eq!(event.config_path(), ("messaging", "events"));
    assert_eq!(event.channel(configured()).unwrap(), "inproc://turtl");
}

#[test]
fn receives_without_a_wait() {
    let one = recv_nb(Some("0"));
    assert!(!one.blocking);
    assert_eq!(one.config_path(), ("messaging", "reqres"));
    assert_eq!(one.channel(configured()).unwrap(), recv(Some("0")).channel(configured()).unwrap());
    assert_eq!(one.message_nb(Ok(None)).unwrap(), None);
    assert_eq!(one.message_nb(Ok(Some(b"x".to_vec()))).unwrap(), Some(String::from("x")));
    assert!(matches!(one.message_nb(Ok(Some(vec![0xc0]))), Err(TError::Utf8)));
    assert!(matches!(one.message_nb(Err(TError::Utf8)), Err(TError::Utf8)));
    let event = recv_event_nb();
    assert!(!event.blocking);
    assert_eq!(event.config_path(), ("messaging", "events"));
    assert_eq!(event.channel(configured()).unwrap(), "inproc://turtl");
}

#[test]
fn channels_differ() {
    let c = |id: Option<&str>| recv(id).channel(configured()).unwrap();
    let into = send(String::new()).channel(configured()).unwrap();
    assert_ne!(c(Some("1")), c(Some("2")));
    assert_ne!(c(Some("1")), c(None));
    assert_ne!(c(Some("")), c(None));
    assert_ne!(c(None), into);
    assert_ne!(recv_event().channel(configured()).unwrap(), c(None));
}

#[test]
fn waiting_makes_no_difference() {
    for event in [false, true] {
        for id in [None, Some(""), Some("1")] {
            let (wait, no_wait) = (recv_impl(event, id), recv_nb_impl(event, id));
            assert!(wait.blocking);
            assert!(!no_wait.blocking);
            assert_eq!(wait.config_path(), no_wait.config_path());
            assert_eq!(wait.channel(configured()).unwrap(), no_wait.channel(configured()).unwrap());
            for bytes in [b"x".to_vec(), Vec::new(), vec![0xff]] {
                let (a, b) = (wait.message(Ok(bytes.clone())), no_wait.message_nb(Ok(Some(bytes))));
                assert_eq!(a.ok(), b.ok().flatten());
            }
        }
    }
    assert_eq!(recv_impl(true, Some("1")).channel(configured()).unwrap(), "inproc://turtl-core-out:1");
}
