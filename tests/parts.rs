use transmitter::channel::Channel;
use transmitter::params::{
    param, primary_request, query_params, required_param, room_request, secondary_request,
    JoinError,
};
use transmitter::protocol::{ack_reply, secondary_ack_reply, classify, decode_frame, list_reply, whois_reply, Command, FrameError};
use transmitter::registry::Registry;

#[test]
fn channel_add_replaces_and_reports_evicted() {
    let mut ch = Channel::new("room", None);
    assert_eq!(ch.add_member("alice", 1), None);
    assert_eq!(ch.add_member("bob", 2), None);
    assert_eq!(ch.add_member("alice", 3), Some(1));
    assert_eq!(ch.holder("alice"), Some(3));
    assert_eq!(ch.member_count(), 2);
    let mut names = ch.list_members();
    names.sort();
    assert_eq!(names, vec!["alice".to_string(), "bob".to_string()]);
}

#[test]
fn channel_remove_absent_is_no_op() {
    let mut ch = Channel::new("room", None);
    ch.add_member("alice", 1);
    assert!(!ch.remove_member("carol"));
    assert!(ch.remove_member("alice"));
    assert!(!ch.remove_member("alice"));
    assert_eq!(ch.member_count(), 0);
    assert_eq!(ch.holder("alice"), None);
}

#[test]
fn channel_release_only_by_holder() {
    let mut ch = Channel::new("room", None);
    ch.add_member("alice", 1);
    ch.add_member("alice", 2);
    assert!(!ch.release("alice", 1));
    assert_eq!(ch.holder("alice"), Some(2));
    assert!(ch.release("alice", 2));
    assert_eq!(ch.holder("alice"), None);
}

#[test]
fn channel_snapshot_and_primary() {
    let mut ch = Channel::new("s", Some(7));
    assert_eq!(ch.name(), "s");
    assert_eq!(ch.primary(), Some(7));
    assert_eq!(ch.set_primary(Some(8)), Some(7));
    ch.add_member("v1", 1);
    ch.add_member("v2", 2);
    let mut conns: Vec<u64> = ch.snapshot().iter().map(|m| m.conn).collect();
    conns.sort();
    assert_eq!(conns, vec![1, 2]);
}

#[test]
fn registry_create_is_idempotent_and_erase_removes() {
    let mut reg = Registry::new();
    assert!(reg.resolve_or_create("a", None));
    assert!(!reg.resolve_or_create("a", Some(4)));
    assert_eq!(reg.lookup("a").map(|c| c.primary()), Some(None));
    assert_eq!(reg.add_member("a", "x", 1), None);
    assert_eq!(reg.add_member("a", "x", 2), Some(1));
    assert!(!reg.release("a", "x", 1));
    assert!(reg.release("a", "x", 2));
    assert_eq!(reg.set_primary("a", Some(5)), None);
    assert!(reg.erase("a"));
    assert!(!reg.erase("a"));
    assert!(reg.lookup("a").is_none());
}

#[test]
fn decode_frame_covers_each_outcome() {
    assert!(matches!(decode_frame(r#"{"command":"list"}"#), Ok(Command::List)));
    assert!(matches!(decode_frame(r#"{"command":"whois"}"#), Ok(Command::Whois)));
    match decode_frame(r#"{"command":"broadcast","message":"hi"}"#) {
        Ok(Command::Broadcast(Some(m))) => assert_eq!(m, "hi"),
        _ => panic!("expected a broadcast"),
    }
    assert!(matches!(decode_frame(r#"{"command":"broadcast"}"#), Ok(Command::Broadcast(None))));
    assert!(matches!(decode_frame("{"), Err(FrameError::InvalidJson)));
    assert!(matches!(decode_frame("[1,2]"), Err(FrameError::InvalidCommandFormat)));
    assert!(matches!(decode_frame(r#"{"command":"jump"}"#), Err(FrameError::UnknownCommand)));
}

#[test]
fn classify_takes_the_decoded_members() {
    assert!(matches!(classify(None), Err(FrameError::InvalidJson)));
    assert!(matches!(classify(Some((None, Some("m".to_string())))), Err(FrameError::InvalidCommandFormat)));
    assert!(matches!(classify(Some((Some("list".to_string()), None))), Ok(Command::List)));
    assert!(matches!(classify(Some((Some("LIST".to_string()), None))), Err(FrameError::UnknownCommand)));
}

#[test]
fn error_replies_are_exact() {
    assert_eq!(FrameError::InvalidJson.reply(), r#"{"error":"Invalid JSON"}"#);
    assert_eq!(FrameError::InvalidCommandFormat.reply(), r#"{"error":"Invalid command format"}"#);
    assert_eq!(FrameError::UnknownCommand.reply(), r#"{"error":"Unknown command"}"#);
}

#[test]
fn replies_encode_json() {
    assert_eq!(list_reply(&vec![]), "[]");
    assert_eq!(list_reply(&vec!["a".to_string(), "b\\c".to_string()]), r#"["a","b\\c"]"#);
    assert_eq!(whois_reply("x\ny"), r#"{"identity":"x\ny"}"#);
    assert_eq!(ack_reply("alice", "room1"), "Connected as alice to room1");
    assert_eq!(
        secondary_ack_reply("viewer1", "streamerX"),
        "Connected as Watcher: viewer1 to Streamer: streamerX"
    );
    assert_eq!(whois_reply("a\u{1}b\u{1f}/\t"), "{\"identity\":\"a\\u0001b\\u001f/\\t\"}");
}

#[test]
fn query_pairs_decode_in_order() {
    let pairs = query_params("id=a%20b&streamer_id=s&id=c");
    assert_eq!(
        pairs,
        vec![
            ("id".to_string(), "a b".to_string()),
            ("streamer_id".to_string(), "s".to_string()),
            ("id".to_string(), "c".to_string()),
        ]
    );
    assert_eq!(param(&pairs, "id"), Some("c".to_string()));
    assert_eq!(param(&pairs, "none"), None);
    assert!(query_params("").is_empty());
}

#[test]
fn required_param_refuses_empty() {
    let pairs = query_params("id=&x=1");
    assert_eq!(required_param(&pairs, "id"), Err(JoinError::MissingParameter("id".to_string())));
    assert_eq!(required_param(&pairs, "x"), Ok("1".to_string()));
}

#[test]
fn join_requests_read_their_parameters() {
    let r = room_request("channel=room1&id=alice").unwrap();
    assert_eq!(r.channel, "room1");
    assert_eq!(r.identity, "alice");
    assert_eq!(
        room_request("id=alice").err(),
        Some(JoinError::MissingParameter("channel".to_string()))
    );
    assert_eq!(primary_request("id=streamerX"), Ok("streamerX".to_string()));
    assert_eq!(primary_request("name=x"), Err(JoinError::MissingParameter("id".to_string())));
    let s = secondary_request("id=viewer1&streamer_id=streamerX").unwrap();
    assert_eq!(s.channel, "streamerX");
    assert_eq!(s.identity, "viewer1");
    assert_eq!(
        secondary_request("streamer_id=s").err(),
        Some(JoinError::MissingParameter("id".to_string()))
    );
    assert_eq!(
        secondary_request("id=v").err(),
        Some(JoinError::MissingParameter("streamer_id".to_string()))
    );
}

#[test]
fn join_error_messages() {
    assert_eq!(
        JoinError::MissingParameter("id".to_string()).message(),
        "Missing 'id' query parameter"
    );
    assert_eq!(JoinError::ChannelNotFound.message(), "Streamer does not exist");
}
