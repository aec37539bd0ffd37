use turtl_core::capi::{
    send_config_path, turtlc_recv, turtlc_recv_any, turtlc_recv_event, turtlc_send, turtlc_start, Launch, Launched,
};
use turtl_core::error::TError;
use turtl_core::messaging::{recv, recv_event};

fn configured() -> Result<String, TError> {
    Ok(String::from("inproc://turtl"))
}

fn code(step: Launch) -> i32 {
    match step {
        Launch::Return(code) => code,
        _ => panic!("not done yet"),
    }
}

#[test]
fn sends() {
    assert_eq!(send_config_path(), ("messaging", "reqres"));
    assert_eq!(turtlc_send(configured()), Ok(String::from("inproc://turtl-core-in")));
    assert_eq!(turtlc_send(Err(TError::Utf8)), Err(-5));
    assert_eq!(turtlc_send(Ok(String::from("a\0b"))), Err(-6));
}

#[test]
fn receives() {
    let wait = turtlc_recv(0, Some(b"1".to_vec()));
    assert!(wait.blocking);
    assert_eq!(wait.config_path(), ("messaging", "reqres"));
    assert_eq!(wait.channel(configured()), Some(String::from("inproc://turtl-core-out:1")));
    assert_eq!(wait.channel(Err(TError::Utf8)), None);
    assert_eq!(wait.channel(Ok(String::from("a\0b"))), None);
    assert_eq!(turtlc_recv(0, Some(Vec::new())).channel(configured()), Some(String::from("inproc://turtl-core-out")));
    assert_eq!(turtlc_recv(0, None).channel(configured()), Some(String::from("inproc://turtl-core-out")));
    assert_eq!(turtlc_recv(0, Some(vec![0xff])).channel(configured()), None);
    assert!(!turtlc_recv(1, None).blocking);
    assert!(turtlc_recv(2, None).blocking);
    assert!(!turtlc_recv_any(0, 2, None).event);
    let wait = turtlc_recv_any(0, 1, Some(b"9".to_vec()));
    assert_eq!(wait.channel(configured()), Some(String::from("inproc://turtl:9")));
}

#[test]
fn receives_events_of_both_sorts() {
    let wait = turtlc_recv_event(1);
    assert!(!wait.blocking);
    assert!(turtlc_recv_event(0).blocking);
    assert_eq!(wait.config_path(), ("messaging", "events"));
    assert_eq!(wait.channel(configured()), Some(String::from("inproc://turtl")));
}

#[test]
fn meets_the_rust_interface() {
    assert_eq!(turtlc_recv(0, Some(b"42".to_vec())).channel(configured()), recv(Some("42")).channel(configured()).ok());
    assert_eq!(turtlc_recv(0, None).channel(configured()), recv(None).channel(configured()).ok());
    assert_eq!(turtlc_recv_event(0).channel(configured()), recv_event().channel(configured()).ok());
}

#[test]
fn starts_and_waits() {
    let step = turtlc_start(Some(b"{}".to_vec()), 0);
    let step = step.next(Launched::Started);
    let step = step.next(Launched::Initialized(Ok(())));
    match &step {
        Launch::Start { config, threaded } => assert_eq!((config.as_str(), *threaded), ("{}", 0)),
        _ => panic!("the core starts next"),
    }
    let step = step.next(Launched::Started);
    assert!(matches!(step, Launch::Join));
    assert_eq!(code(step.next(Launched::Joined(true))), 0);
}

#[test]
fn starts_in_a_thread() {
    let step = turtlc_start(Some(Vec::new()), 1).next(Launched::Initialized(Ok(())));
    assert_eq!(code(step.next(Launched::Started).next(Launched::Panicked)), 0);
}

#[test]
fn start_fails() {
    assert_eq!(code(turtlc_start(None, 0)), -1);
    assert_eq!(code(turtlc_start(Some(vec![0xff]), 0)), -3);
    let step = turtlc_start(Some(Vec::new()), 0);
    assert_eq!(code(step.next(Launched::Initialized(Err(TError::Utf8)))), -3);
    let step = turtlc_start(Some(Vec::new()), 0).next(Launched::Initialized(Ok(()))).next(Launched::Started);
    assert_eq!(code(step.next(Launched::Joined(false))), -4);
    let step = turtlc_start(Some(Vec::new()), 0).next(Launched::Initialized(Ok(())));
    assert_eq!(code(step.next(Launched::Panicked)), -5);
}
