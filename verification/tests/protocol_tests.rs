use ocean_chat::protocol::decode_message;
use ocean_chat::protocol::encode_message;
use ocean_chat::protocol::ChangeState;
use ocean_chat::protocol::SocketMessage;
use ocean_chat::protocol::UserStatus;
use ocean_chat::scores::Scores;

#[test]
fn test_encode_chat_frame() {
    let m = SocketMessage::User("hello".to_string());
    assert_eq!(encode_message(&m), "{\"User\":\"hello\"}");
}

#[test]
fn test_encode_constant_frames() {
    assert_eq!(
        encode_message(&SocketMessage::ConnectionClosed),
        "{\"ConnectionClosed\":null}"
    );
    assert_eq!(encode_message(&SocketMessage::GetStatus), "{\"GetStatus\":null}");
    assert_eq!(encode_message(&SocketMessage::Ping), "{\"Ping\":null}");
    assert_eq!(encode_message(&SocketMessage::Pong), "{\"Pong\":null}");
    assert_eq!(
        encode_message(&SocketMessage::Status(UserStatus::Waiting)),
        "{\"Status\":\"Waiting\"}"
    );
    assert_eq!(
        encode_message(&SocketMessage::StateChange(ChangeState::Waiting)),
        "{\"StateChange\":\"Waiting\"}"
    );
}

#[test]
fn test_decode_chat_frame() {
    let m = decode_message("{\"User\":\"hello\"}").unwrap();
    assert!(matches!(m, SocketMessage::User(t) if t == "hello"));
}

#[test]
fn test_decode_rejects_junk() {
    assert!(decode_message("").is_none());
    assert!(decode_message("hello").is_none());
    assert!(decode_message("{\"User\":\"unterminated}").is_none());
    assert!(decode_message("{\"Nope\":null}").is_none());
    assert!(decode_message("{\"Status\":\"Sleeping\"}").is_none());
    assert!(decode_message("{\"User\":\"bad\\escape\"}").is_none());
}

#[test]
fn test_round_trip_every_tag() {
    let sc = Scores::new(5000, 5000, 5000, 5000, 5000).unwrap();
    let messages = vec![
        SocketMessage::User("how are you?".to_string()),
        SocketMessage::Info("connected to peer!".to_string()),
        SocketMessage::PeerScores(sc),
        SocketMessage::Status(UserStatus::Disconnected),
        SocketMessage::Status(UserStatus::Connected),
        SocketMessage::Status(UserStatus::Waiting),
        SocketMessage::Status(UserStatus::Idle),
        SocketMessage::StateChange(ChangeState::Waiting),
        SocketMessage::StateChange(ChangeState::Idle),
        SocketMessage::ConnectionClosed,
        SocketMessage::GetStatus,
        SocketMessage::Ping,
        SocketMessage::Pong,
    ];
    for m in messages {
        let text = encode_message(&m);
        let back = decode_message(&text).unwrap();
        assert_eq!(encode_message(&back), text);
    }
}

#[test]
fn test_escaped_chat_round_trip() {
    let tricky = "quote \" backslash \\ newline \n tab \t bell \u{7} nul \u{0}".to_string();
    let m = SocketMessage::User(tricky.clone());
    let text = encode_message(&m);
    let back = decode_message(&text).unwrap();
    assert!(matches!(back, SocketMessage::User(t) if t == tricky));
}

#[test]
fn test_message_constructors() {
    assert_eq!(SocketMessage::user_msg("hello".to_string()), "{\"User\":\"hello\"}");
    assert_eq!(SocketMessage::info_msg("hi".to_string()), "{\"Info\":\"hi\"}");
    assert_eq!(SocketMessage::close_connection(), "{\"ConnectionClosed\":null}");
    assert_eq!(SocketMessage::ping(), "{\"Ping\":null}");
    assert_eq!(SocketMessage::pong(), "{\"Pong\":null}");
    let sc = Scores::new(0, 0, 0, 0, 0).unwrap();
    assert_eq!(
        SocketMessage::peer_scores(sc),
        "{\"PeerScores\":\"0.00,0.00,0.00,0.00,0.00\"}"
    );
    let m = SocketMessage::Status(UserStatus::Idle);
    assert_eq!(m.into_message(), "{\"Status\":\"Idle\"}");
}

#[test]
fn test_peer_scores_frame() {
    let sc = Scores::new(9900, 9900, 9900, 9900, 9900).unwrap();
    let text = encode_message(&SocketMessage::PeerScores(sc));
    assert_eq!(text, "{\"PeerScores\":\"99.00,99.00,99.00,99.00,99.00\"}");
    let back = decode_message(&text).unwrap();
    assert!(matches!(back, SocketMessage::PeerScores(s) if s == sc));
}
