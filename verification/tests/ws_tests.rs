use chat_core::ws::{
    authenticate, is_ping_frame, ping_timeout_secs, pong_text, socket_step, SocketAction,
    SocketEvent, WsAuthError, WsQuery,
};

#[test]
fn timeout_is_five_minutes() {
    assert_eq!(ping_timeout_secs(), 300);
}

#[test]
fn authenticate_requires_uid() {
    assert_eq!(authenticate(&WsQuery { uid: None }), Err(WsAuthError::MissingUid));
}

#[test]
fn authenticate_trims_and_parses() {
    assert_eq!(authenticate(&WsQuery { uid: Some(" 42 ".to_string()) }), Ok(42));
    assert_eq!(authenticate(&WsQuery { uid: Some("-7".to_string()) }), Ok(-7));
    assert_eq!(
        authenticate(&WsQuery { uid: Some("abc".to_string()) }),
        Err(WsAuthError::InvalidUid)
    );
    assert_eq!(
        authenticate(&WsQuery { uid: Some("2147483648".to_string()) }),
        Err(WsAuthError::InvalidUid)
    );
    assert_eq!(authenticate(&WsQuery { uid: Some("".to_string()) }), Err(WsAuthError::InvalidUid));
}

#[test]
fn ping_frames_are_recognized() {
    assert!(is_ping_frame("{\"type\":\"ping\"}"));
    assert!(is_ping_frame(" { \"type\" : \"ping\" , \"seq\" : 5 } "));
    assert!(!is_ping_frame("{\"type\":\"pong\"}"));
    assert!(!is_ping_frame("{\"kind\":\"ping\"}"));
    assert!(!is_ping_frame("ping"));
    assert!(!is_ping_frame(""));
}

#[test]
fn socket_steps() {
    assert_eq!(
        socket_step(SocketEvent::PushReady("ev".to_string())),
        SocketAction::Forward("ev".to_string())
    );
    assert_eq!(socket_step(SocketEvent::PushClosed), SocketAction::Disconnect);
    assert_eq!(
        socket_step(SocketEvent::ClientText("{\"type\":\"ping\"}".to_string())),
        SocketAction::Pong
    );
    assert_eq!(
        socket_step(SocketEvent::ClientText("{\"type\":\"chat\"}".to_string())),
        SocketAction::Ignore
    );
    assert_eq!(
        socket_step(SocketEvent::ClientText("not json".to_string())),
        SocketAction::Ignore
    );
    assert_eq!(socket_step(SocketEvent::ClientOtherFrame), SocketAction::Ignore);
    assert_eq!(socket_step(SocketEvent::ClientClosedOrError), SocketAction::Disconnect);
}

#[test]
fn pong_reply_shape() {
    assert_eq!(pong_text(), "{\"type\":\"pong\"}");
}
