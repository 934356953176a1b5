use ocean_chat::config::Config;
use ocean_chat::endpoint::deadline_expired;
use ocean_chat::endpoint::dispatch_frame;
use ocean_chat::endpoint::refresh_deadline;
use ocean_chat::endpoint::EndpointAction;
use ocean_chat::protocol::decode_message;
use ocean_chat::protocol::ChangeState;
use ocean_chat::protocol::SocketMessage;
use ocean_chat::protocol::UserStatus;
use ocean_chat::sloan::Sloan;
use ocean_chat::scores::Scores;

#[test]
fn test_dispatch_table() {
    let ping = dispatch_frame(Some(SocketMessage::Ping));
    assert!(matches!(ping, EndpointAction::EchoPing));
    let q = dispatch_frame(Some(SocketMessage::GetStatus));
    assert!(matches!(q, EndpointAction::QueryStatus));
    let cs = dispatch_frame(Some(SocketMessage::StateChange(ChangeState::Idle)));
    assert!(matches!(cs, EndpointAction::ToCoordinator(ChangeState::Idle)));
    let chat = dispatch_frame(Some(SocketMessage::User("hey".to_string())));
    assert!(matches!(chat, EndpointAction::ToRelay(t) if t == "hey"));
    let close = dispatch_frame(Some(SocketMessage::ConnectionClosed));
    assert!(matches!(close, EndpointAction::Shutdown));
    let malformed = dispatch_frame(None);
    assert!(matches!(malformed, EndpointAction::Shutdown));
    let upstream = dispatch_frame(Some(SocketMessage::Status(UserStatus::Idle)));
    assert!(matches!(upstream, EndpointAction::DropFrame));
    let pong = dispatch_frame(Some(SocketMessage::Pong));
    assert!(matches!(pong, EndpointAction::DropFrame));
}

#[test]
fn test_wire_to_action() {
    // a raw frame travels codec then dispatch, as the endpoint loop does
    let action = dispatch_frame(decode_message("{\"StateChange\":\"Waiting\"}"));
    assert!(matches!(action, EndpointAction::ToCoordinator(ChangeState::Waiting)));
    let action = dispatch_frame(decode_message("not json at all"));
    assert!(matches!(action, EndpointAction::Shutdown));
}

#[test]
fn test_chat_relay_path() {
    // one chat frame travels endpoint -> relay -> peer unchanged, and
    // nothing is echoed to the sender
    let action = dispatch_frame(decode_message("{\"User\":\"hello\"}"));
    let text = match action {
        EndpointAction::ToRelay(t) => t,
        other => panic!("chat frame dispatched to {:?}", other),
    };
    assert_eq!(text, "hello");
    let step = ocean_chat::connection::process_message(SocketMessage::User(text));
    let forwarded = match step {
        ocean_chat::connection::RelayStep::Forward(m) => m,
        other => panic!("chat message relayed as {:?}", other),
    };
    assert_eq!(
        ocean_chat::protocol::encode_message(&forwarded),
        "{\"User\":\"hello\"}"
    );
}

#[test]
fn test_deadline_refresh_and_expiry() {
    let deadline = refresh_deadline(1_000, 120);
    assert_eq!(deadline, 121_000);
    assert!(!deadline_expired(121_000, deadline));
    assert!(deadline_expired(121_001, deadline));
}

#[test]
fn test_config_defaults() {
    let c = Config::default();
    assert!(!c.local);
    assert_eq!(c.pair_interval_millis, 1000);
    assert_eq!(c.timeout_secs, 120);
    let c = Config::from_options(Some(true), None, Some(30));
    assert!(c.local);
    assert_eq!(c.pair_interval_millis, 1000);
    assert_eq!(c.timeout_secs, 30);
    assert_eq!(c.server_address(), "ws://127.0.0.1:3000");
}

#[test]
fn test_sloan_codes() {
    let all_low = Scores::new(0, 0, 0, 0, 0).unwrap();
    let s = Sloan::from_scores(all_low);
    assert_eq!(s, Sloan::Rcuen);
    assert_eq!(s.summary(), "reserved, calm, unstructured, egocentric, non-curious");
    let all_high = Scores::new(10_000, 10_000, 10_000, 10_000, 10_000).unwrap();
    let s = Sloan::from_scores(all_high);
    assert_eq!(s, Sloan::Sloai);
    assert_eq!(s.summary(), "social, limbic, organized, accommodating, inquisitive");
    // the exact middle counts as the lower side
    let mid = Scores::mid();
    assert_eq!(Sloan::from_scores(mid), Sloan::Rcuen);
}
