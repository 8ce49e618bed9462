use shiritori::gateway::{
    event_route, heartbeat_request, EventRoute, FrameAction, GatewaySession, SessionState,
};
use shiritori::utility::GameConfig;

#[test]
fn identify_frame_carries_the_token() {
    let mut session = GatewaySession::new();
    assert_eq!(session.state, SessionState::Connecting);
    let identify = session.connected("tok-123");
    assert_eq!(
        identify,
        "{\"op\": 2, \"d\": {\"token\": \"tok-123\", \"properties\": {\"os\": \"linux\", \
         \"device\": \"device\", \"browser\": \"browser\"}, \"intents\": 1536}}"
    );
    assert_eq!(session.state, SessionState::Identifying);
}

#[test]
fn hello_starts_then_replaces_heartbeat() {
    let mut session = GatewaySession::new();
    session.connected("t");
    assert_eq!(
        session.on_frame(10, Some(41250)),
        FrameAction::StartHeartbeat(41250)
    );
    assert_eq!(session.state, SessionState::Ready);
    assert_eq!(session.heartbeat_interval, Some(41250));
    // a second hello mid-session replaces the timer instead of leaking one
    assert_eq!(
        session.on_frame(10, Some(30000)),
        FrameAction::ReplaceHeartbeat(30000)
    );
    assert_eq!(session.heartbeat_interval, Some(30000));
}

#[test]
fn dispatch_and_unknown_ops() {
    let mut session = GatewaySession::new();
    session.connected("t");
    assert_eq!(session.on_frame(0, None), FrameAction::Dispatch);
    assert_eq!(session.on_frame(11, None), FrameAction::Ignore);
    assert_eq!(session.state, SessionState::Ready);
}

#[test]
fn malformed_hello_is_fatal() {
    let mut session = GatewaySession::new();
    session.connected("t");
    assert_eq!(session.on_frame(10, None), FrameAction::Fatal);
    assert_eq!(session.state, SessionState::Closed);
}

#[test]
fn close_stops_the_session() {
    let mut session = GatewaySession::new();
    session.connected("t");
    session.on_frame(10, Some(1000));
    session.close();
    assert_eq!(session.state, SessionState::Closed);
    assert_eq!(session.heartbeat_interval, None);
}

#[test]
fn heartbeat_body_is_fixed() {
    assert_eq!(heartbeat_request(), "{\"op\":1, \"d\":null}");
}

#[test]
fn event_routing_table() {
    assert_eq!(event_route("MESSAGE_CREATE", false), EventRoute::HandleMessage);
    assert_eq!(event_route("MESSAGE_CREATE", true), EventRoute::Skip);
    assert_eq!(event_route("MESSAGE_REACTION_ADD", false), EventRoute::HandleReaction);
    assert_eq!(event_route("MESSAGE_REACTION_ADD", true), EventRoute::HandleReaction);
    assert_eq!(event_route("TYPING_START", false), EventRoute::Skip);
    assert_eq!(event_route("", false), EventRoute::Skip);
}

#[test]
fn default_game_parameters() {
    let config = GameConfig::new();
    assert_eq!(config.dist_threshold_milli, 300);
    assert_eq!(config.vote_count, 3);
}
