use minibus::entity::AccessTag;
use minibus::gateway::{parse_command, Command};
use minibus::packet::{Request, ResponsePayload};
use minibus::short_text::ShortText;
use minibus::utils::{first_free_from, DecodeError, RandomKey};
use minibus::webgateway::{
    bucket_listing, event_with, get_access_tag_flag, missing_bucket, no_content, reply_to_call,
    reply_to_listing, reply_to_read, reply_to_write, sse_event, SseKind,
};
use std::collections::BTreeMap;

#[test]
fn flags_stand_for_tags() {
    assert_eq!(get_access_tag_flag(AccessTag::Private), '!');
    assert_eq!(get_access_tag_flag(AccessTag::Protected), '-');
    assert_eq!(get_access_tag_flag(AccessTag::Public), '+');
}

#[test]
fn listing_is_joined_by_zero_bytes() {
    let keys = vec![
        (ShortText::build(b"a"), AccessTag::Public),
        (ShortText::build(b"bc"), AccessTag::Private),
        (ShortText::build(b""), AccessTag::Protected),
    ];
    assert_eq!(bucket_listing(&keys), b"+a\0!bc\0-".to_vec());
    assert_eq!(bucket_listing(&keys[..1].to_vec()), b"+a".to_vec());
    assert!(bucket_listing(&Vec::new()).is_empty());
}

#[test]
fn replies_keep_the_statuses_of_the_routes() {
    assert_eq!(missing_bucket().status, 400);
    assert_eq!(no_content().status, 204);
    let reply = reply_to_read(ResponsePayload::SuccessWithData(b"v".to_vec()));
    assert_eq!((reply.status, reply.body), (400, b"v".to_vec()));
    let reply = reply_to_read(ResponsePayload::Success);
    assert_eq!((reply.status, reply.body), (204, Vec::new()));
    let reply = reply_to_read(ResponsePayload::Failed(b"not allowed".to_vec()));
    assert_eq!((reply.status, reply.body), (500, b"not allowed".to_vec()));
    let reply = reply_to_write(ResponsePayload::Success);
    assert_eq!((reply.status, reply.body), (204, Vec::new()));
    let reply = reply_to_write(ResponsePayload::Failed(b"not found".to_vec()));
    assert_eq!((reply.status, reply.body), (500, b"not found".to_vec()));
    let reply = reply_to_listing(Some(vec![(ShortText::build(b"k"), AccessTag::Public)]));
    assert_eq!((reply.status, reply.body), (200, b"+k".to_vec()));
    let reply = reply_to_listing(None);
    assert_eq!((reply.status, reply.body), (400, Vec::new()));
    let reply = reply_to_call(ResponsePayload::Success);
    assert_eq!((reply.status, reply.body), (204, Vec::new()));
    let reply = reply_to_call(ResponsePayload::SuccessWithData(b"d".to_vec()));
    assert_eq!((reply.status, reply.body), (400, b"d".to_vec()));
    let reply = reply_to_call(ResponsePayload::Failed(b"e".to_vec()));
    assert_eq!((reply.status, reply.body), (400, b"e".to_vec()));
}

#[test]
fn events_are_text_base64_or_null() {
    let event = sse_event(Some("héllo".as_bytes()));
    assert_eq!(event.kind, SseKind::Text);
    assert_eq!(event.body, "héllo".as_bytes().to_vec());
    assert_eq!(event.kind.name(), b"text".to_vec());
    let event = sse_event(Some(&[0xff, 0xfe, 0x00]));
    assert_eq!(event.kind, SseKind::Base64);
    assert_eq!(event.body, b"//4A".to_vec());
    assert_eq!(event.kind.name(), b"base64".to_vec());
    let event = sse_event(Some(&[0xff]));
    assert_eq!(event.body, b"/w==".to_vec());
    let event = sse_event(None);
    assert_eq!(event.kind, SseKind::Null);
    assert!(event.body.is_empty());
    assert_eq!(event.kind.name(), b"null".to_vec());
    let event = sse_event(Some(b""));
    assert_eq!(event.kind, SseKind::Text);
    let event = event_with(Some(&[0xff]), false, b"made up".to_vec());
    assert_eq!((event.kind, event.body), (SseKind::Base64, b"made up".to_vec()));
    let event = event_with(Some(b"plain"), true, b"made up".to_vec());
    assert_eq!((event.kind, event.body), (SseKind::Text, b"plain".to_vec()));
    let event = event_with(None, false, b"made up".to_vec());
    assert_eq!((event.kind, event.body), (SseKind::Null, Vec::new()));
}

#[test]
fn free_keys_are_found_from_the_start() {
    let mut taken: BTreeMap<u32, u64> = BTreeMap::new();
    assert_eq!(first_free_from(&taken, 5), Some(5));
    taken.insert(5, 0);
    taken.insert(6, 0);
    assert_eq!(first_free_from(&taken, 5), Some(7));
    assert_eq!(first_free_from(&taken, 6), Some(7));
    assert_eq!(first_free_from(&taken, 4), Some(4));
    taken.insert(u32::MAX, 0);
    assert_eq!(first_free_from(&taken, u32::MAX), Some(0));
    taken.insert(0, 0);
    assert_eq!(first_free_from(&taken, u32::MAX), Some(1));
    for _ in 0..20 {
        let key = taken.gen_random_key().unwrap();
        assert!(!taken.contains_key(&key));
    }
    let draws: Vec<u32> = (0..8).map(|_| taken.gen_random_key().unwrap()).collect();
    assert!(draws.iter().any(|key| *key != draws[0]));
}

#[test]
fn commands_are_read_from_requests() {
    let read = |command: &[u8], payload: &[u8]| {
        parse_command(&Request {
            reqid: 1,
            command: ShortText::build(command),
            payload: payload.to_vec(),
        })
    };
    assert!(matches!(read(b"STOP", b"x"), Ok(Command::Stop)));
    assert!(matches!(read(b"PING", b"x"), Ok(Command::Ping(p)) if p == b"x"));
    assert!(matches!(
        read(b"SET PRIVATE", b"\x01kvalue"),
        Ok(Command::SetPrivate { key, value }) if key.eq_bytes(b"k") && value == b"value"
    ));
    assert!(matches!(read(b"GET PRIVATE", b"\x01k"), Ok(Command::GetPrivate { key }) if key.eq_bytes(b"k")));
    assert!(matches!(read(b"DEL PRIVATE", b"\x00"), Ok(Command::DelPrivate { key }) if key.eq_bytes(b"")));
    assert!(matches!(
        read(b"ACL", b"\x01k\x07private"),
        Ok(Command::Acl { key, tag }) if key.eq_bytes(b"k") && tag == AccessTag::Private
    ));
    assert!(matches!(read(b"ACL", b"\x01k\x07Private"), Err(DecodeError::Unexcepted)));
    assert!(matches!(read(b"ACL", b"\x01k"), Err(DecodeError::Incomplete)));
    assert!(matches!(
        read(b"SET", b"\x01t\x01kv"),
        Ok(Command::SetKey { target, key, value })
            if target.eq_bytes(b"t") && key.eq_bytes(b"k") && value == b"v"
    ));
    assert!(matches!(read(b"GET", b"\x01t\x01k"), Ok(Command::GetKey { .. })));
    assert!(matches!(read(b"DEL", b"\x01t\x01k"), Ok(Command::DelKey { .. })));
    assert!(matches!(read(b"GET", b"\x01t\x02k"), Err(DecodeError::Incomplete)));
    assert!(matches!(read(b"KEYS", b"\x01t"), Ok(Command::Keys { target }) if target.eq_bytes(b"t")));
    assert!(matches!(read(b"NOTIFY", b"\x01kv"), Ok(Command::Notify { .. })));
    assert!(matches!(read(b"LISTEN", b"\x01t\x01k"), Ok(Command::Listen { .. })));
    assert!(matches!(read(b"OBSERVE", b"\x01t\x01k"), Ok(Command::Observe { .. })));
    assert!(matches!(
        read(b"CALL", b"\x01t\x01kp"),
        Ok(Command::Call { payload, .. }) if payload == b"p"
    ));
    assert!(matches!(read(b"RESPONSE", b"r"), Ok(Command::Response(r)) if r == b"r"));
    assert!(matches!(read(b"EXCEPTION", b"e"), Ok(Command::Exception(e)) if e == b"e"));
    assert!(matches!(read(b"ping", b""), Ok(Command::Unknown)));
    assert!(matches!(read(b"", b""), Ok(Command::Unknown)));
    assert!(matches!(read(b"SET ", b""), Ok(Command::Unknown)));
}
