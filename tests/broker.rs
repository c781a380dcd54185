use transmitter::params::JoinError;
use transmitter::registry::Registry;
use transmitter::session::{ConnState, Connection, Outbound, Role};

fn texts_to(out: &[Outbound], to: u64) -> Vec<String> {
    out.iter()
        .filter_map(|o| match o {
            Outbound::Text { to: t, text } if *t == to => Some(text.clone()),
            _ => None,
        })
        .collect()
}

fn recipients(out: &[Outbound]) -> Vec<u64> {
    let mut r: Vec<u64> = out
        .iter()
        .map(|o| match o {
            Outbound::Text { to, .. } => *to,
            Outbound::Close { to, .. } => *to,
        })
        .collect();
    r.sort();
    r
}

fn join(reg: &mut Registry, channel: &str, identity: &str, conn: u64) -> (Connection, Vec<Outbound>) {
    let j = reg.join(channel, identity, conn).expect("join succeeds");
    (j.connection, j.outbound)
}

#[test]
fn list_shows_both_members_to_the_sender_only() {
    let mut reg = Registry::new();
    let (alice, _) = join(&mut reg, "room1", "alice", 1);
    let (_bob, _) = join(&mut reg, "room1", "bob", 2);
    let out = reg.handle_frame(&alice, r#"{"command":"list"}"#);
    assert_eq!(out.len(), 1);
    assert_eq!(recipients(&out), vec![1]);
    let text = &texts_to(&out, 1)[0];
    assert!(text == r#"["alice","bob"]"# || text == r#"["bob","alice"]"#, "{}", text);
}

#[test]
fn reused_identity_evicts_the_earlier_connection() {
    let mut reg = Registry::new();
    let (_first, _) = join(&mut reg, "room1", "alice", 1);
    let (second, out) = join(&mut reg, "room1", "alice", 2);
    assert_eq!(out.len(), 2);
    match &out[0] {
        Outbound::Close { to, reason } => {
            assert_eq!(*to, 1);
            assert_eq!(reason, "Replaced by new connection");
        }
        _ => panic!("expected a close first"),
    }
    assert_eq!(texts_to(&out, 2), vec!["Connected as alice to room1".to_string()]);
    let listed = reg.handle_frame(&second, r#"{"command":"list"}"#);
    assert_eq!(texts_to(&listed, 2), vec![r#"["alice"]"#.to_string()]);
}

#[test]
fn secondary_of_an_absent_primary_is_refused() {
    let mut reg = Registry::new();
    let r = reg.join_secondary("streamerX", "viewer1", 1);
    assert!(matches!(r, Err(JoinError::ChannelNotFound)));
    assert!(!reg.contains("streamerX"));
}

#[test]
fn broadcast_reaches_every_current_member_once() {
    let mut reg = Registry::new();
    let (a, _) = join(&mut reg, "room", "A", 1);
    let (_b, _) = join(&mut reg, "room", "B", 2);
    let (mut c, _) = join(&mut reg, "room", "C", 3);
    let (_d, _) = join(&mut reg, "room", "D", 4);
    assert!(reg.close(&mut c));
    let out = reg.handle_frame(&a, r#"{"command":"broadcast","message":"m"}"#);
    assert_eq!(recipients(&out), vec![1, 2, 4]);
    for o in &out {
        match o {
            Outbound::Text { text, .. } => assert_eq!(text, "m"),
            _ => panic!("broadcast sends text"),
        }
    }
    let (_e, _) = join(&mut reg, "room", "E", 5);
    assert_eq!(recipients(&out), vec![1, 2, 4]);
}

#[test]
fn closing_twice_leaves_once() {
    let mut reg = Registry::new();
    let (a, _) = join(&mut reg, "room", "A", 1);
    let (mut b, _) = join(&mut reg, "room", "B", 2);
    assert!(reg.close(&mut b));
    assert_eq!(b.state(), ConnState::Closed);
    assert!(!reg.close(&mut b));
    assert!(!reg.close(&mut b));
    let listed = reg.handle_frame(&a, r#"{"command":"list"}"#);
    assert_eq!(texts_to(&listed, 1), vec![r#"["A"]"#.to_string()]);
}

#[test]
fn replaced_connection_closing_keeps_its_successor() {
    let mut reg = Registry::new();
    let (mut old, _) = join(&mut reg, "room", "alice", 1);
    let (new, _) = join(&mut reg, "room", "alice", 2);
    assert!(!reg.close(&mut old));
    assert!(reg.is_registered(&new));
    let listed = reg.handle_frame(&new, r#"{"command":"list"}"#);
    assert_eq!(texts_to(&listed, 2), vec![r#"["alice"]"#.to_string()]);
}

#[test]
fn broadcast_without_message_sends_nothing() {
    let mut reg = Registry::new();
    let (a, _) = join(&mut reg, "room", "A", 1);
    let (_b, _) = join(&mut reg, "room", "B", 2);
    let out = reg.handle_frame(&a, r#"{"command":"broadcast"}"#);
    assert!(out.is_empty());
    assert_eq!(a.state(), ConnState::Active);
}

#[test]
fn non_json_is_answered_and_session_stays_open() {
    let mut reg = Registry::new();
    let (a, _) = join(&mut reg, "room", "A", 1);
    let out = reg.handle_frame(&a, "hello there");
    assert_eq!(texts_to(&out, 1), vec![r#"{"error":"Invalid JSON"}"#.to_string()]);
    assert_eq!(a.state(), ConnState::Active);
    let again = reg.handle_frame(&a, r#"{"command":"whois"}"#);
    assert_eq!(texts_to(&again, 1), vec![r#"{"identity":"A"}"#.to_string()]);
}

#[test]
fn missing_command_is_invalid_format() {
    let mut reg = Registry::new();
    let (a, _) = join(&mut reg, "room", "A", 1);
    let out = reg.handle_frame(&a, r#"{"message":"hi"}"#);
    assert_eq!(texts_to(&out, 1), vec![r#"{"error":"Invalid command format"}"#.to_string()]);
    let out = reg.handle_frame(&a, r#"{"command":7}"#);
    assert_eq!(texts_to(&out, 1), vec![r#"{"error":"Invalid command format"}"#.to_string()]);
}

#[test]
fn unknown_command_is_answered() {
    let mut reg = Registry::new();
    let (a, _) = join(&mut reg, "room", "A", 1);
    let out = reg.handle_frame(&a, r#"{"command":"dance"}"#);
    assert_eq!(texts_to(&out, 1), vec![r#"{"error":"Unknown command"}"#.to_string()]);
}

#[test]
fn channels_do_not_affect_each_other() {
    let mut reg = Registry::new();
    let (x1, _) = join(&mut reg, "X", "p", 1);
    let (_x2, _) = join(&mut reg, "X", "q", 2);
    let (y1, _) = join(&mut reg, "Y", "p", 3);
    let out = reg.handle_frame(&x1, r#"{"command":"broadcast","message":"hi"}"#);
    assert_eq!(recipients(&out), vec![1, 2]);
    let listed = reg.handle_frame(&y1, r#"{"command":"list"}"#);
    assert_eq!(texts_to(&listed, 3), vec![r#"["p"]"#.to_string()]);
    let (mut x3, out) = join(&mut reg, "X", "r", 4);
    assert_eq!(out.len(), 1);
    reg.close(&mut x3);
    let listed = reg.handle_frame(&y1, r#"{"command":"list"}"#);
    assert_eq!(texts_to(&listed, 3), vec![r#"["p"]"#.to_string()]);
}

#[test]
fn join_requires_channel_and_identity() {
    let mut reg = Registry::new();
    match reg.join("", "alice", 1) {
        Err(JoinError::MissingParameter(p)) => assert_eq!(p, "channel"),
        _ => panic!("empty channel must be refused"),
    }
    match reg.join("room", "", 1) {
        Err(JoinError::MissingParameter(p)) => assert_eq!(p, "id"),
        _ => panic!("empty identity must be refused"),
    }
    assert!(!reg.contains("room"));
}

#[test]
fn join_acknowledges_and_creates_the_channel() {
    let mut reg = Registry::new();
    let (a, out) = join(&mut reg, "room1", "alice", 9);
    assert_eq!(texts_to(&out, 9), vec!["Connected as alice to room1".to_string()]);
    assert_eq!(a.id(), 9);
    assert_eq!(a.identity(), "alice");
    assert_eq!(a.channel(), "room1");
    assert_eq!(a.role(), Role::Member);
    assert_eq!(a.state(), ConnState::Active);
    assert!(reg.contains("room1"));
}

#[test]
fn last_member_leaving_erases_the_channel() {
    let mut reg = Registry::new();
    let (mut a, _) = join(&mut reg, "room", "A", 1);
    let (mut b, _) = join(&mut reg, "room", "B", 2);
    reg.close(&mut a);
    assert!(reg.contains("room"));
    reg.close(&mut b);
    assert!(!reg.contains("room"));
}

#[test]
fn secondary_joins_a_connected_primary() {
    let mut reg = Registry::new();
    let p = reg.join_primary("streamerX", 1).expect("primary joins");
    assert_eq!(p.connection.role(), Role::Primary);
    assert_eq!(texts_to(&p.outbound, 1), vec!["Connected as streamerX to streamerX".to_string()]);
    let v = reg.join_secondary("streamerX", "viewer1", 2).expect("secondary joins");
    assert_eq!(v.connection.role(), Role::Secondary);
    assert_eq!(texts_to(&v.outbound, 2), vec!["Connected as Watcher: viewer1 to Streamer: streamerX".to_string()]);
    let listed = reg.handle_frame(&p.connection, r#"{"command":"list"}"#);
    assert_eq!(texts_to(&listed, 1), vec![r#"["viewer1"]"#.to_string()]);
}

#[test]
fn secondary_may_only_broadcast() {
    let mut reg = Registry::new();
    let p = reg.join_primary("s", 1).unwrap();
    let v1 = reg.join_secondary("s", "v1", 2).unwrap();
    let _v2 = reg.join_secondary("s", "v2", 3).unwrap();
    let out = reg.handle_frame(&v1.connection, r#"{"command":"list"}"#);
    assert_eq!(texts_to(&out, 2), vec![r#"{"error":"Unknown command"}"#.to_string()]);
    let out = reg.handle_frame(&v1.connection, r#"{"command":"whois"}"#);
    assert_eq!(texts_to(&out, 2), vec![r#"{"error":"Unknown command"}"#.to_string()]);
    let out = reg.handle_frame(&v1.connection, r#"{"command":"broadcast","message":"x"}"#);
    assert_eq!(recipients(&out), vec![2, 3]);
    let out = reg.handle_frame(&p.connection, r#"{"command":"broadcast","message":"y"}"#);
    assert_eq!(recipients(&out), vec![2, 3]);
}

#[test]
fn primary_replaced_and_leaving() {
    let mut reg = Registry::new();
    let mut p1 = reg.join_primary("s", 1).unwrap();
    let _v = reg.join_secondary("s", "v", 2).unwrap();
    let p2 = reg.join_primary("s", 3).unwrap();
    match &p2.outbound[0] {
        Outbound::Close { to, reason } => {
            assert_eq!(*to, 1);
            assert_eq!(reason, "Replaced by new connection");
        }
        _ => panic!("expected a close of the earlier primary"),
    }
    assert!(!reg.close(&mut p1.connection));
    let mut p2c = p2.connection;
    assert!(reg.close(&mut p2c));
    assert!(reg.contains("s"));
    assert!(matches!(reg.join_secondary("s", "w", 4), Err(JoinError::ChannelNotFound)));
}

#[test]
fn whois_escapes_the_identity() {
    let mut reg = Registry::new();
    let (a, _) = join(&mut reg, "room", "a\"b", 1);
    let out = reg.handle_frame(&a, r#"{"command":"whois"}"#);
    assert_eq!(texts_to(&out, 1), vec![r#"{"identity":"a\"b"}"#.to_string()]);
}

#[test]
fn closing_connection_ignores_frames() {
    let mut reg = Registry::new();
    let (mut a, _) = join(&mut reg, "room", "A", 1);
    a.begin_close();
    assert_eq!(a.state(), ConnState::Closing);
    assert!(reg.handle_frame(&a, r#"{"command":"whois"}"#).is_empty());
    assert!(reg.is_registered(&a));
    assert!(reg.close(&mut a));
    a.begin_close();
    assert_eq!(a.state(), ConnState::Closed);
}

#[test]
fn broadcast_by_channel_name() {
    let mut reg = Registry::new();
    let (_a, _) = join(&mut reg, "room", "A", 1);
    let (_b, _) = join(&mut reg, "room", "B", 2);
    assert_eq!(recipients(&reg.broadcast("room", "sdp")), vec![1, 2]);
    assert!(reg.broadcast("elsewhere", "sdp").is_empty());
}
