use ocean_chat::connection::opening_messages;
use ocean_chat::connection::process_message;
use ocean_chat::connection::RelayStep;
use ocean_chat::coordinator::State;
use ocean_chat::coordinator::StateAction;
use ocean_chat::coordinator::StateMessage;
use ocean_chat::protocol::ChangeState;
use ocean_chat::protocol::SocketMessage;
use ocean_chat::protocol::UserStatus;
use ocean_chat::scores::Scores;
use ocean_chat::user::User;

fn mid_user(id: &str, endpoint: u64) -> User {
    User::new(Scores::mid(), id.to_string(), endpoint)
}

fn user_with(id: &str, component: u32, endpoint: u64) -> User {
    let sc = Scores::new(component, component, component, component, component).unwrap();
    User::new(sc, id.to_string(), endpoint)
}

/// Installs a pair through the registry the way the matchmaker does.
fn connect_pair(state: &mut State, relay: u64) -> bool {
    let no_closed: Vec<String> = Vec::new();
    match state.waiting_users.pop_pair(&no_closed) {
        Some((left, right)) => {
            state.connections.connect(left, right, relay);
            true
        }
        None => false,
    }
}

#[test]
fn test_queue_user() {
    let mut state = State::new();
    let (evicted, stopped) = state.queue(mid_user("heythere", 1));
    assert!(evicted.is_none());
    assert!(stopped.is_none());
    assert_eq!(state.user_status("heythere"), UserStatus::Waiting);
    assert_eq!(state.waiting_users.user_ids(), vec!["heythere".to_string()]);
}

#[test]
fn test_connect_pair() {
    let mut state = State::new();
    state.queue(mid_user("foo", 1));
    assert_eq!(state.user_status("foo"), UserStatus::Waiting);
    state.queue(mid_user("bar", 2));
    assert!(connect_pair(&mut state, 10));
    assert_eq!(state.user_status("foo"), UserStatus::Connected);
    assert_eq!(state.user_status("bar"), UserStatus::Connected);
}

#[test]
fn test_close_connection_when_same_connects() {
    let mut state = State::new();
    state.queue(mid_user("foo", 1));
    let (evicted, _) = state.queue(user_with("foo", 9900, 2));
    // the first endpoint is handed back for closing; only one user remains
    let evicted = evicted.unwrap();
    assert_eq!(evicted.id, "foo");
    assert_eq!(evicted.endpoint, 1);
    assert_eq!(state.waiting_users.len(), 1);
    assert_eq!(state.user_status("foo"), UserStatus::Waiting);
    // the sole slot carries the newer score
    assert!(!connect_pair(&mut state, 10));
    assert_eq!(state.waiting_users.users[0].scores, Scores::new(9900, 9900, 9900, 9900, 9900).unwrap());
}

#[test]
fn test_state_change() {
    let mut state = State::new();
    state.queue(mid_user("foo", 1));
    assert_eq!(state.user_status("foo"), UserStatus::Waiting);

    // a waiting user can go idle ...
    state.handle_message(StateMessage::new(
        "foo".to_string(),
        StateAction::StateChange(ChangeState::Idle),
    ));
    assert_eq!(state.user_status("foo"), UserStatus::Idle);

    // ... and back to waiting
    state.handle_message(StateMessage::new(
        "foo".to_string(),
        StateAction::StateChange(ChangeState::Waiting),
    ));
    assert_eq!(state.user_status("foo"), UserStatus::Waiting);

    // another user connects and both are paired
    state.queue(mid_user("bar", 2));
    assert!(connect_pair(&mut state, 10));
    assert_eq!(state.user_status("foo"), UserStatus::Connected);
    assert_eq!(state.user_status("bar"), UserStatus::Connected);

    // one goes back to waiting; the other is set to idle
    state.handle_message(StateMessage::new(
        "foo".to_string(),
        StateAction::StateChange(ChangeState::Waiting),
    ));
    assert_eq!(state.user_status("bar"), UserStatus::Idle);
    assert_eq!(state.user_status("foo"), UserStatus::Waiting);
}

#[test]
fn test_close_connection() {
    let mut state = State::new();
    state.queue(mid_user("foo", 1));
    state.queue(mid_user("bar", 2));
    assert!(connect_pair(&mut state, 10));
    assert_eq!(state.user_status("foo"), UserStatus::Connected);
    assert_eq!(state.user_status("bar"), UserStatus::Connected);

    // foo's socket closes; bar is set to idle, not dropped
    let effects = state.handle_message(StateMessage::new(
        "foo".to_string(),
        StateAction::RemoveUser,
    ));
    assert_eq!(effects.len(), 2);
    assert_eq!(state.user_status("foo"), UserStatus::Disconnected);
    assert_eq!(state.user_status("bar"), UserStatus::Idle);
}

#[test]
fn test_pop_pair_needs_two() {
    let mut state = State::new();
    let no_closed: Vec<String> = Vec::new();
    assert!(state.waiting_users.pop_pair(&no_closed).is_none());
    state.queue(mid_user("only", 1));
    assert!(state.waiting_users.pop_pair(&no_closed).is_none());
    assert_eq!(state.user_status("only"), UserStatus::Waiting);
}

#[test]
fn test_pop_pair_nearest_neighbor() {
    // arrival order a, b, c; a pairs with the nearer c, b keeps waiting
    let mut state = State::new();
    state.queue(user_with("a", 0, 1));
    state.queue(user_with("b", 9000, 2));
    state.queue(user_with("c", 1000, 3));
    let no_closed: Vec<String> = Vec::new();
    let (left, right) = state.waiting_users.pop_pair(&no_closed).unwrap();
    assert_eq!(left.id, "a");
    assert_eq!(right.id, "c");
    assert_eq!(state.user_status("b"), UserStatus::Waiting);
}

#[test]
fn test_pop_pair_tie_prefers_earlier() {
    let mut state = State::new();
    state.queue(user_with("a", 5000, 1));
    state.queue(user_with("b", 6000, 2));
    state.queue(user_with("c", 4000, 3));
    // b and c lie equally far from a; b arrived first
    let no_closed: Vec<String> = Vec::new();
    let (left, right) = state.waiting_users.pop_pair(&no_closed).unwrap();
    assert_eq!(left.id, "a");
    assert_eq!(right.id, "b");
}

#[test]
fn test_pop_pair_discards_closed() {
    let mut state = State::new();
    state.queue(user_with("gone", 0, 1));
    state.queue(user_with("x", 1000, 2));
    state.queue(user_with("y", 2000, 3));
    let closed = vec!["gone".to_string()];
    let (left, right) = state.waiting_users.pop_pair(&closed).unwrap();
    assert_eq!(left.id, "x");
    assert_eq!(right.id, "y");
    assert_eq!(state.waiting_users.len(), 0);
}

#[test]
fn test_take_then_queue_same_id() {
    let mut state = State::new();
    state.queue(mid_user("a", 1));
    state.queue(mid_user("b", 2));
    let (taken, _) = state.take_user("a");
    let taken = taken.unwrap();
    assert_eq!(state.user_status("a"), UserStatus::Disconnected);
    state.queue(User::new(taken.scores, "a".to_string(), 3));
    // container-level no-op: both users wait, exactly as before
    assert_eq!(state.user_status("a"), UserStatus::Waiting);
    assert_eq!(state.user_status("b"), UserStatus::Waiting);
    assert_eq!(state.waiting_users.len(), 2);
}

#[test]
fn test_registry_balance() {
    let mut state = State::new();
    state.queue(mid_user("a", 1));
    state.queue(mid_user("b", 2));
    state.queue(user_with("c", 0, 3));
    state.queue(user_with("d", 100, 4));
    assert!(connect_pair(&mut state, 10));
    assert!(connect_pair(&mut state, 11));
    // two pair entries, four id entries
    assert_eq!(state.connections.connected_users_qty(), 2);
    let pairs = state.connections.pairs();
    let mut ids: Vec<String> = Vec::new();
    for (l, r) in pairs {
        ids.push(l);
        ids.push(r);
    }
    assert_eq!(ids.len(), 4);
}

#[test]
fn test_get_status_unknown_is_disconnected() {
    let state = State::new();
    assert_eq!(state.user_status("nobody"), UserStatus::Disconnected);
}

#[test]
fn test_opening_messages() {
    let peer = Scores::new(1000, 2000, 3000, 4000, 5000).unwrap();
    let msgs = opening_messages(&peer);
    assert_eq!(msgs.len(), 2);
    assert!(matches!(&msgs[0], SocketMessage::Info(t) if t == "connected to peer!"));
    assert!(matches!(&msgs[1], SocketMessage::PeerScores(s) if *s == peer));
}

#[test]
fn test_relay_steps() {
    let chat = process_message(SocketMessage::User("hi".to_string()));
    assert!(matches!(chat, RelayStep::Forward(SocketMessage::User(t)) if t == "hi"));
    let closed = process_message(SocketMessage::ConnectionClosed);
    assert!(matches!(closed, RelayStep::PeerClosed));
    let odd = process_message(SocketMessage::Ping);
    assert!(matches!(odd, RelayStep::Ignore));
}
