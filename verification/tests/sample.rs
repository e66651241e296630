use lavish::client::ClientState;
use lavish::demo;
use lavish::server;
use lavish::services::sample::{
    self, get_cookies, get_user_agent, ping, DeserializeError, Handler, Params, ReadResults, Results,
    ResultsReader,
};

#[test]
fn method_names() {
    assert_eq!(Params::get_cookies(get_cookies::Params {}).method(), "get_cookies");
    assert_eq!(Params::get_user_agent(get_user_agent::Params {}).method(), "get_user_agent");
    assert_eq!(Params::ping(ping::Params {}).method(), "ping");
    assert_eq!(Params::ping_ping(ping::ping::Params {}).method(), "ping.ping");
    assert_eq!(Results::ping_ping(ping::ping::Results {}).method(), "ping.ping");
    assert_eq!(Results::get_cookies(get_cookies::Results { cookies: vec![] }).method(), "get_cookies");
}

#[test]
fn deserialize_by_method() {
    for name in ["get_cookies", "get_user_agent", "ping", "ping.ping"] {
        assert_eq!(Params::deserialize::<()>(name, Ok(())).unwrap().method(), name);
    }
    match Params::deserialize::<()>("pong", Ok(())).unwrap_err() {
        DeserializeError::UnknownMethod(msg) => assert_eq!(msg, "unknown method: pong"),
        other => panic!("unexpected {:?}", other),
    }
    match Params::deserialize("ping.pin", Err("bad payload")).unwrap_err() {
        DeserializeError::UnknownMethod(msg) => assert_eq!(msg, "unknown method: ping.pin"),
        other => panic!("unexpected {:?}", other),
    }
    match Params::deserialize("ping", Err("bad payload")).unwrap_err() {
        DeserializeError::Payload(e) => assert_eq!(e, "bad payload"),
        other => panic!("unexpected {:?}", other),
    }
}

#[test]
fn results_reader_by_method() {
    assert_eq!(Results::reader_for("get_cookies").unwrap(), ResultsReader::GetCookies);
    assert_eq!(Results::reader_for("get_user_agent").unwrap(), ResultsReader::GetUserAgent);
    assert_eq!(Results::reader_for("ping").unwrap(), ResultsReader::Ping);
    assert_eq!(Results::reader_for("ping.ping").unwrap(), ResultsReader::PingPing);
    assert_eq!(Results::reader_for("nope").unwrap_err(), "unknown method: nope");
}

#[test]
fn results_from_what_was_read() {
    let read: ReadResults<&str> = ReadResults::GetUserAgent(Ok(get_user_agent::Results { user_agent: "x".to_string() }));
    match Results::from_read(read).unwrap() {
        Results::get_user_agent(r) => assert_eq!(r.user_agent, "x"),
        other => panic!("unexpected {:?}", other),
    }
    let read: ReadResults<&str> = ReadResults::GetCookies(Ok(get_cookies::Results { cookies: lavish::demo::get_cookies() }));
    match Results::from_read(read).unwrap() {
        Results::get_cookies(r) => assert_eq!(r.cookies[1].value, "Super Mario Maker"),
        other => panic!("unexpected {:?}", other),
    }
    let read: ReadResults<&str> = ReadResults::PingPing(Ok(ping::ping::Results {}));
    assert_eq!(Results::from_read(read).unwrap().method(), "ping.ping");
    let read: ReadResults<&str> = ReadResults::Ping(Err("not empty"));
    match Results::from_read(read).unwrap_err() {
        DeserializeError::Payload(e) => assert_eq!(e, "not empty"),
        other => panic!("unexpected {:?}", other),
    }
}

#[test]
fn notifications_are_all_unknown() {
    assert_eq!(sample::deserialize_notification("ping"), "unknown method: ping");
    assert!(sample::is_method("ping"));
    assert!(!sample::is_method("pong"));
}

#[test]
fn downgrade_matches_the_variant() {
    assert!(get_cookies::Params::downgrade(Params::get_cookies(get_cookies::Params {})).is_some());
    assert!(get_cookies::Params::downgrade(Params::ping(ping::Params {})).is_none());
    assert!(ping::ping::Params::downgrade(Params::ping_ping(ping::ping::Params {})).is_some());
    assert!(ping::Params::downgrade(Params::ping_ping(ping::ping::Params {})).is_none());
    let r = Results::get_user_agent(get_user_agent::Results { user_agent: "ua".to_string() });
    assert_eq!(get_user_agent::Results::downgrade(r).unwrap().user_agent, "ua");
    assert!(ping::Results::downgrade(Results::ping_ping(ping::ping::Results {})).is_none());
}

#[test]
fn server_cookies() {
    let res = server::get_cookies_results("lavish-sample/0.2.0".to_string());
    assert_eq!(res.cookies.len(), 2);
    assert_eq!(res.cookies[0].key, "ads");
    assert_eq!(res.cookies[0].value, "no");
    assert_eq!(res.cookies[1].key, "user-agent");
    assert_eq!(res.cookies[1].value, "lavish-sample/0.2.0");
}

#[test]
fn reverse_strings() {
    assert_eq!(server::reverse("rust"), "tsur");
    assert_eq!(server::reverse(""), "");
    assert_eq!(server::reverse("héllo"), "olléh");
}

#[test]
fn shutdown_only_on_one() {
    assert!(server::ping_shuts_down(Some("1")));
    assert!(!server::ping_shuts_down(Some("0")));
    assert!(!server::ping_shuts_down(Some("11")));
    assert!(!server::ping_shuts_down(None));
}

#[test]
fn client_remembers_being_asked() {
    let mut state = ClientState::new();
    assert!(!state.asked_for_user_agent);
    let res = state.get_user_agent();
    assert_eq!(res.user_agent, "lavish-sample/0.2.0");
    assert!(state.asked_for_user_agent);
}

#[test]
fn demo_cookies() {
    let cookies = demo::get_cookies();
    assert_eq!(cookies.len(), 5);
    assert_eq!(cookies[0].comment.as_deref(), Some("Open for collabs"));
    assert_eq!(cookies[3].value, "XCOM 2");
    assert!(cookies[4].comment.is_none());
}

#[test]
fn handler_dispatches_by_method() {
    let mut h: Handler<u32, fn() -> &'static str> = Handler::new(7);
    assert_eq!(h.handle(&Params::ping(ping::Params {})).unwrap_err().method, "ping");
    h.on_ping((|| "pong") as fn() -> &'static str);
    h.on_get_cookies((|| "cookies") as fn() -> &'static str);
    let (state, f) = h.handle(&Params::ping(ping::Params {})).unwrap();
    assert_eq!(*state, 7);
    assert_eq!(f(), "pong");
    let (_, f) = h.handle(&Params::get_cookies(get_cookies::Params {})).unwrap();
    assert_eq!(f(), "cookies");
    assert_eq!(h.handle(&Params::ping_ping(ping::ping::Params {})).unwrap_err().method, "ping.ping");
    assert_eq!(
        h.handle(&Params::get_user_agent(get_user_agent::Params {})).unwrap_err().method,
        "get_user_agent"
    );
}

#[test]
fn handler_replaces_a_handler() {
    let mut h: Handler<(), u8> = Handler::new(());
    h.on_ping_ping(1);
    h.on_ping_ping(2);
    assert_eq!(*h.handle(&Params::ping_ping(ping::ping::Params {})).unwrap().1, 2);
}
