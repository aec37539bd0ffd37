use std::collections::{HashMap, VecDeque};

use turtl_core::capi;
use turtl_core::capi::{Launch, Launched};
use turtl_core::error::TError;
use turtl_core::json;
use turtl_core::json::Json;
use turtl_core::messaging;
use turtl_core::startup;
use turtl_core::startup::{Start, Started};

/// Channels in memory, a configuration, and a peer that answers by both.
struct Peer {
    channels: HashMap<String, VecDeque<Vec<u8>>>,
    append_mid: bool,
    up: bool,
}

impl Peer {
    fn new() -> Peer {
        Peer { channels: HashMap::new(), append_mid: true, up: false }
    }

    fn config(&self, path: (&str, &str)) -> Result<String, TError> {
        match path {
            ("messaging", "reqres") => Ok(String::from("inproc://turtl")),
            ("messaging", "events") => Ok(String::from("inproc://turtl-events")),
            _ => Err(TError::Msg(String::from("no such entry"))),
        }
    }

    fn put(&mut self, channel: &str, message: Vec<u8>) {
        self.channels.entry(String::from(channel)).or_default().push_back(message);
    }

    fn take(&mut self, channel: &str) -> Option<Vec<u8>> {
        self.answer();
        self.channels.get_mut(channel).and_then(|c| c.pop_front())
    }

    /// Answers what came into the core.
    fn answer(&mut self) {
        while let Some(message) = self.channels.get_mut("inproc://turtl-core-in").and_then(|c| c.pop_front()) {
            let parsed = json::parse(&String::from_utf8(message).unwrap()).unwrap();
            let (id, command) = match &parsed {
                Json::List(items) => match (&items[0], &items[1]) {
                    (Json::Text(id), Json::Text(command)) => (id.clone(), command.clone()),
                    _ => panic!("an id and a command"),
                },
                _ => panic!("a list"),
            };
            let data = if command == "ping" { r#""pong""# } else { "{}" };
            if self.append_mid {
                self.put(
                    &format!("inproc://turtl-core-out:{}", id),
                    format!(r#"{{"e":0,"d":{}}}"#, data).into_bytes(),
                );
            } else {
                self.put("inproc://turtl-core-out", format!(r#"{{"id":"{}","e":0,"d":{}}}"#, id, data).into_bytes());
            }
            if command == "ping" {
                self.put("inproc://turtl-events", br#"{"e":"pong","d":null}"#.to_vec());
            } else {
                self.up = false;
            }
        }
    }

    fn merge(&mut self, config: &Json) {
        if let Ok(m) = json::walk("messaging", config) {
            if let Ok(Json::Bool(b)) = json::walk("reqres_append_mid", m) {
                self.append_mid = *b;
            }
        }
    }

    fn start(&mut self, config: &str) -> Start {
        let step = startup::start(config);
        match &step {
            Start::Configure(config) => self.merge(config),
            _ => panic!("the configuration comes first"),
        }
        self.up = true;
        step.next(Started::Configured)
            .next(Started::Folder(Ok(String::from(":memory:"))))
            .next(Started::TurtlCreated(Ok(())))
    }

    fn join(&mut self, step: Start) {
        assert!(matches!(step, Start::Serve));
        assert!(!self.up);
        assert!(matches!(step.next(Started::Served(Ok(()))), Start::Down(Ok(()))));
    }

    fn send(&mut self, message: String) -> Result<(), TError> {
        let out = messaging::send(message);
        let channel = out.channel(self.config(out.config_path()))?;
        self.put(&channel, out.message.into_bytes());
        Ok(())
    }

    fn wait(&mut self, wait: messaging::Receiving) -> Result<String, TError> {
        let channel = wait.channel(self.config(wait.config_path()))?;
        let got = self.take(&channel).ok_or(TError::Msg(String::from("nothing came")));
        wait.message(got)
    }

    fn wait_nb(&mut self, wait: messaging::Receiving) -> Result<Option<String>, TError> {
        let channel = wait.channel(self.config(wait.config_path()))?;
        let got = self.take(&channel);
        wait.message_nb(Ok(got))
    }

    fn c_send(&mut self, message: &[u8]) -> i32 {
        match capi::turtlc_send(self.config(("messaging", "reqres"))) {
            Ok(channel) => {
                self.put(&channel, message.to_vec());
                0
            }
            Err(code) => code,
        }
    }

    fn c_recv_str(&mut self, mid: &str) -> String {
        let wait = if mid == "" {
            capi::turtlc_recv_event(0)
        } else {
            capi::turtlc_recv(0, Some(mid.as_bytes().to_vec()))
        };
        assert!(wait.blocking);
        let channel = wait.channel(self.config(wait.config_path())).unwrap();
        String::from_utf8(self.take(&channel).unwrap()).unwrap()
    }
}

#[test]
fn rust_api() {
    let mut peer = Peer::new();
    let handle = peer.start(r#"{"messaging":{"reqres_append_mid":true}}"#);

    let blank = peer.wait_nb(messaging::recv_nb(Some("0"))).unwrap();
    assert_eq!(blank, None);

    peer.send(String::from(r#"["1","ping"]"#)).unwrap();
    let res_msg = peer.wait(messaging::recv(Some("1"))).unwrap();
    assert_eq!(res_msg, r#"{"e":0,"d":"pong"}"#);
    let res_ev = peer.wait(messaging::recv_event()).unwrap();
    assert_eq!(res_ev, r#"{"e":"pong","d":null}"#);

    peer.send(String::from(r#"["2","app:shutdown"]"#)).unwrap();
    let res_msg = peer.wait(messaging::recv(Some("2"))).unwrap();
    assert_eq!(res_msg, r#"{"e":0,"d":{}}"#);

    peer.join(handle);

    let handle = peer.start(r#"{"messaging":{"reqres_append_mid":false}}"#);

    peer.send(String::from(r#"["3","ping"]"#)).unwrap();
    let res_msg = peer.wait(messaging::recv(None)).unwrap();
    assert_eq!(res_msg, r#"{"id":"3","e":0,"d":"pong"}"#);
    let res_ev = peer.wait(messaging::recv_event()).unwrap();
    assert_eq!(res_ev, r#"{"e":"pong","d":null}"#);

    peer.send(String::from(r#"["4","app:shutdown"]"#)).unwrap();
    let res_msg = peer.wait(messaging::recv(None)).unwrap();
    assert_eq!(res_msg, r#"{"id":"4","e":0,"d":{}}"#);

    peer.join(handle);
}

#[test]
fn c_api() {
    let mut peer = Peer::new();
    let config = String::from("{}");
    let mut step = capi::turtlc_start(Some(config.into_bytes()), 0);
    step = step.next(Launched::Initialized(startup::init(Ok(()))));
    let handle = match &step {
        Launch::Start { config, .. } => peer.start(config),
        _ => panic!("the core starts next"),
    };
    step = step.next(Launched::Started);
    assert!(matches!(step, Launch::Join));

    let msg = Vec::from(String::from("[\"1\",\"ping\"]").as_bytes());
    let res = peer.c_send(&msg);
    assert_eq!(res, 0);

    let res_msg = peer.c_recv_str("1");
    assert_eq!(res_msg, r#"{"e":0,"d":"pong"}"#);
    let res_ev = peer.c_recv_str("");
    assert_eq!(res_ev, r#"{"e":"pong","d":null}"#);

    let msg = Vec::from(String::from("[\"2\",\"app:shutdown\"]").as_bytes());
    let res = peer.c_send(&msg);
    assert_eq!(res, 0);
    let res_msg = peer.c_recv_str("2");
    assert_eq!(res_msg, r#"{"e":0,"d":{}}"#);
    peer.join(handle);
    match step.next(Launched::Joined(true)) {
        Launch::Return(res) => assert_eq!(res, 0),
        _ => panic!("a code comes back"),
    }
}
