use pigeon_server::{auth, AppError, Message, State};

const SALT: [u8; 16] = *b"Hello, world!!!!";
const COST: u32 = 4;

fn msg(author: &str, content: &str, recipients: &[&str]) -> Message {
    Message::new(
        author.to_string(),
        content.to_string(),
        recipients.iter().map(|r| r.to_string()).collect(),
    )
}

fn with_users(names: &[&str]) -> State {
    let mut s = State::new();
    for n in names {
        s.register(n.to_string(), "pw", COST, SALT).unwrap();
    }
    s
}

#[test]
fn register_then_conflict_keeps_original_hash() {
    let mut s = State::new();
    assert_eq!(s.register("alice".to_string(), "first", COST, SALT), Ok(()));
    let stored = s.users[0].1.clone();
    assert_eq!(
        s.register("alice".to_string(), "second", COST, SALT),
        Err(AppError::Conflict)
    );
    assert_eq!(s.users.len(), 1);
    assert_eq!(s.users[0].0, "alice");
    assert_eq!(s.users[0].1, stored);
    assert_eq!(auth(&s, "alice", "first", COST, SALT), Ok(true));
    assert_eq!(auth(&s, "alice", "second", COST, SALT), Ok(false));
}

#[test]
fn register_stores_a_bcrypt_hash_not_the_password() {
    let mut s = State::new();
    s.register("alice".to_string(), "secret", COST, SALT).unwrap();
    let stored = &s.users[0].1;
    assert_ne!(stored, "secret");
    assert_eq!(stored.len(), 60);
    assert!(stored.starts_with("$2b$04$"));
}

#[test]
fn register_with_bad_cost_fails_and_adds_nothing() {
    let mut s = State::new();
    assert_eq!(
        s.register("alice".to_string(), "pw", 3, SALT),
        Err(AppError::HashFailure)
    );
    assert!(s.users.is_empty());
    assert!(!s.contains_user("alice"));
}

#[test]
fn auth_unknown_user_is_false() {
    let s = with_users(&["alice"]);
    assert_eq!(auth(&s, "bob", "pw", COST, SALT), Ok(false));
    assert_eq!(auth(&s, "alice", "pw", 40, SALT), Err(AppError::HashFailure));
}

#[test]
fn unknown_author_is_refused_and_log_unchanged() {
    let mut s = with_users(&["alice"]);
    assert_eq!(
        s.add_message_at(msg("mallory", "x", &[]), 10),
        Err(AppError::NonExistentMessageAuthor)
    );
    assert_eq!(
        s.add_message_at_present(msg("mallory", "x", &[])),
        Err(AppError::NonExistentMessageAuthor)
    );
    assert!(s.messages.is_empty());
}

#[test]
fn send_with_unknown_recipient_posts_nothing() {
    let mut s = with_users(&["alice", "bob"]);
    assert_eq!(
        s.send(msg("alice", "hi", &["bob", "carol"]), "pw", COST, SALT),
        Err(AppError::NonExistentRecipient)
    );
    assert!(s.messages.is_empty());
}

#[test]
fn send_with_wrong_password_is_unauthorized() {
    let mut s = with_users(&["alice", "bob"]);
    assert_eq!(
        s.send(msg("alice", "hi", &["bob"]), "nope", COST, SALT),
        Err(AppError::Unauthorized)
    );
    assert_eq!(
        s.send(msg("zed", "hi", &[]), "pw", COST, SALT),
        Err(AppError::Unauthorized)
    );
    assert!(s.messages.is_empty());
}

#[test]
fn same_second_messages_are_kept_in_order() {
    let mut s = with_users(&["alice"]);
    s.add_message_at(msg("alice", "a", &[]), 7).unwrap();
    s.add_message_at(msg("alice", "b", &[]), 7).unwrap();
    s.add_message_at(msg("alice", "c", &[]), 3).unwrap();
    s.add_message_at(msg("alice", "d", &[]), 9).unwrap();
    let keys: Vec<u64> = s.messages.iter().map(|e| e.0).collect();
    assert_eq!(keys, vec![3, 7, 9]);
    assert_eq!(s.messages[1].1.len(), 2);
    assert_eq!(s.messages[1].1[0].content, "a");
    assert_eq!(s.messages[1].1[1].content, "b");
}

#[test]
fn timestamps_do_not_decrease() {
    let mut s = with_users(&["alice"]);
    s.add_message_at_present(msg("alice", "one", &[])).unwrap();
    s.add_message_at_present(msg("alice", "two", &[])).unwrap();
    let flat: Vec<(u64, String)> = s
        .messages
        .iter()
        .flat_map(|(t, ms)| ms.iter().map(move |m| (*t, m.content.clone())))
        .collect();
    assert_eq!(flat.len(), 2);
    assert_eq!(flat[0].1, "one");
    assert_eq!(flat[1].1, "two");
    assert!(flat[0].0 <= flat[1].0);
}

#[test]
fn query_bounds_are_strict_and_filter_by_recipient() {
    let mut s = with_users(&["alice", "bob", "carol"]);
    s.add_message_at(msg("alice", "all", &[]), 5).unwrap();
    s.add_message_at(msg("alice", "to bob", &["bob"]), 6).unwrap();
    s.add_message_at(msg("alice", "to carol", &["carol"]), 6).unwrap();
    s.add_message_at(msg("alice", "late", &[]), 8).unwrap();
    let r = s.query_after(5, 8, Some("bob"));
    assert_eq!(r.len(), 1);
    assert_eq!(r[0].0, 6);
    assert_eq!(r[0].1.content, "to bob");
    let r = s.query_after(4, 9, Some("carol"));
    let got: Vec<(u64, String)> = r.into_iter().map(|(t, m)| (t, m.content)).collect();
    assert_eq!(
        got,
        vec![
            (5, "all".to_string()),
            (6, "to carol".to_string()),
            (8, "late".to_string())
        ]
    );
    assert_eq!(s.query_after(4, 9, None).len(), 4);
    assert!(s.query_after(6, 7, None).is_empty());
}

#[test]
fn alice_sends_bob_reads() {
    let mut s = with_users(&["alice", "bob"]);
    assert_eq!(s.send(msg("alice", "hi", &["bob"]), "pw", COST, SALT), Ok(()));
    let ts = s.messages[0].0;
    let r = s.query_after(0, ts + 1, Some("bob"));
    assert_eq!(r.len(), 1);
    assert_eq!(r[0].1.content, "hi");
    assert_eq!(r[0].1.author, "alice");
    assert!(s.query_after(ts, ts + 1, Some("alice")).is_empty());
}

#[test]
fn receive_checks_password() {
    let mut s = with_users(&["alice", "bob"]);
    s.add_message_at(msg("alice", "old", &["bob"]), 1).unwrap();
    assert_eq!(
        s.receive("bob", "wrong", 0, COST, SALT).map(|v| v.len()),
        Err(AppError::Unauthorized)
    );
    let r = s.receive("bob", "pw", 0, COST, SALT).unwrap();
    assert_eq!(r.len(), 1);
    assert_eq!(r[0].0, 1);
    assert_eq!(r[0].1.content, "old");
}

#[test]
fn snapshot_round_trip_restores_state() {
    let mut s = with_users(&["alice", "bob"]);
    s.add_message_at(msg("alice", "a", &["bob"]), 2).unwrap();
    s.add_message_at(msg("bob", "b", &[]), 4).unwrap();
    let users = s.users.clone();
    let messages: Vec<(u64, Vec<Message>)> = s
        .messages
        .iter()
        .map(|(t, ms)| (*t, ms.iter().map(|m| m.duplicate()).collect()))
        .collect();
    let r = State::from_snapshot(users, messages);
    assert_eq!(r.users, s.users);
    assert_eq!(r.messages.len(), 2);
    assert_eq!(r.messages[0].0, 2);
    assert_eq!(r.messages[0].1[0].content, "a");
    assert_eq!(r.messages[0].1[0].recipients, vec!["bob".to_string()]);
    assert_eq!(r.messages[1].0, 4);
    assert_eq!(r.messages[1].1[0].author, "bob");
}

#[test]
fn snapshot_parts_fall_back_to_empty_independently() {
    let users = vec![
        ("a".to_string(), "h".to_string()),
        ("a".to_string(), "g".to_string()),
    ];
    let messages = vec![(3, vec![msg("a", "x", &[])])];
    let r = State::from_snapshot(users, messages);
    assert!(r.users.is_empty());
    assert_eq!(r.messages.len(), 1);

    let users = vec![("a".to_string(), "h".to_string())];
    let messages = vec![(3, vec![msg("a", "x", &[])]), (3, vec![msg("a", "y", &[])])];
    let r = State::from_snapshot(users, messages);
    assert_eq!(r.users.len(), 1);
    assert!(r.messages.is_empty());
}

#[test]
fn visibility_of_messages() {
    assert!(msg("a", "x", &[]).is_visible_to(Some("z")));
    assert!(msg("a", "x", &["b", "c"]).is_visible_to(Some("c")));
    assert!(!msg("a", "x", &["b", "c"]).is_visible_to(Some("a")));
    assert!(msg("a", "x", &["b"]).is_visible_to(None));
}
