use minibus::broker::{EventKey, EventReceiver, NotifyReceiver};
use minibus::entity::{AccessTag, Entity, EntityError, EntityReceiver, ExternalEntity};
use minibus::packet::{ResponseKind, ResponsePayload};
use minibus::shared::{bucket_name, SharedStorage};
use minibus::short_text::ShortText;
use minibus::utils::{DecodeError, Decoder, Encoder, Reader};

fn key(text: &[u8]) -> ShortText {
    ShortText::build(text)
}

#[test]
fn access_tags_have_their_names_on_the_wire() {
    for (tag, name) in [
        (AccessTag::Private, &b"private"[..]),
        (AccessTag::Protected, b"protected"),
        (AccessTag::Public, b"public"),
    ] {
        assert!(tag.name().eq_bytes(name));
        assert_eq!(AccessTag::named(&key(name)), Some(tag));
        let mut wire: Vec<u8> = Vec::new();
        wire.encode(tag);
        assert_eq!(wire[0] as usize, name.len());
        assert_eq!(&wire[1..], name);
        let mut reader = Reader::new(&wire);
        let back: AccessTag = reader.decode().unwrap();
        assert_eq!(back, tag);
    }
    assert_eq!(AccessTag::named(&key(b"Public")), None);
    let wire = vec![2u8, b'n', b'o'];
    let mut reader = Reader::new(&wire);
    let back: Result<AccessTag, DecodeError> = reader.decode();
    assert!(matches!(back, Err(DecodeError::Unexcepted)));
    assert_eq!(reader.remaining(), 3);
}

#[test]
fn every_error_has_its_message() {
    assert_eq!(EntityError::NotFound.message(), b"not found".to_vec());
    assert_eq!(EntityError::NotAllowed.message(), b"not allowed".to_vec());
    assert_eq!(EntityError::NotAllowned.message(), b"not allowned".to_vec());
    assert_eq!(EntityError::Duplicated.message(), b"duplicated".to_vec());
    assert_eq!(EntityError::TooManyNames.message(), b"too many names".to_vec());
    assert_eq!(EntityError::NotSupported.message(), b"not supported".to_vec());
    assert_eq!(EntityError::Exhausted.message(), b"no free call id".to_vec());
    assert_eq!(EntityError::NoName.message(), b"no name".to_vec());
    assert_eq!(EntityError::TargetNotFound.message(), b"target not found".to_vec());
    assert_eq!(EntityError::UnknownCommand.message(), b"Unknown command".to_vec());
}

#[test]
fn tags_are_enforced_against_others() {
    let mut entity = ExternalEntity::new();
    assert!(matches!(entity.get(Some(1), &key(b"k")), Err(EntityError::NotFound)));
    assert!(matches!(entity.set(Some(1), &key(b"k"), Vec::new()), Err(EntityError::NotFound)));
    assert!(matches!(entity.del(Some(1), &key(b"k")), Err(EntityError::NotFound)));
    entity.set_acl(&key(b"k"), AccessTag::Private);
    assert!(matches!(entity.get(Some(1), &key(b"k")), Err(EntityError::NotAllowed)));
    assert!(matches!(entity.set(Some(1), &key(b"k"), Vec::new()), Err(EntityError::NotAllowned)));
    assert!(matches!(entity.del(Some(1), &key(b"k")), Err(EntityError::NotAllowned)));
    entity.set_acl(&key(b"k"), AccessTag::Protected);
    assert!(matches!(entity.get(Some(1), &key(b"k")), Ok(None)));
    assert!(matches!(entity.set(Some(1), &key(b"k"), Vec::new()), Err(EntityError::NotAllowned)));
    assert!(matches!(entity.del(None, &key(b"k")), Err(EntityError::NotAllowned)));
    entity.set_acl(&key(b"k"), AccessTag::Public);
    assert!(matches!(entity.set(Some(1), &key(b"k"), b"v".to_vec()), Ok(None)));
    assert!(matches!(entity.get(Some(1), &key(b"k")), Ok(Some(v)) if v == b"v"));
    assert!(matches!(entity.del(Some(1), &key(b"k")), Ok(None)));
    assert!(matches!(entity.get(Some(1), &key(b"k")), Ok(None)));
}

#[test]
fn set_private_goes_through_whatever_the_tag() {
    let mut entity = ExternalEntity::new();
    entity.set_acl(&key(b"k"), AccessTag::Private);
    assert!(entity.set_private(&key(b"k"), b"v".to_vec()).is_none());
    assert_eq!(entity.get_private(&key(b"k")), Some(b"v".to_vec()));
    assert_eq!(entity.keys(None).unwrap()[0].1, AccessTag::Public);
    entity.set_acl(&key(b"k"), AccessTag::Protected);
    assert_eq!(entity.get_private(&key(b"k")), Some(b"v".to_vec()));
    assert_eq!(entity.keys(None).unwrap()[0].1, AccessTag::Protected);
    assert!(entity.del_private(&key(b"k")).is_none());
    assert!(entity.keys(None).unwrap().is_empty());
    assert_eq!(entity.get_private(&key(b"k")), None);
}

#[test]
fn changes_are_published_under_the_name() {
    let mut entity = ExternalEntity::new();
    assert!(entity.get_name().is_none());
    entity.update_name(Some(&key(b"alice")));
    assert!(entity.get_name().unwrap().eq_bytes(b"alice"));
    let change = entity.set_private(&key(b"k"), b"v".to_vec()).unwrap();
    assert!(change.key == EventKey(key(b"alice"), key(b"k")));
    assert_eq!(change.data, Some(b"v".to_vec()));
    let change = entity.set(Some(9), &key(b"k"), b"w".to_vec()).unwrap().unwrap();
    assert_eq!(change.data, Some(b"w".to_vec()));
    let change = entity.del(Some(9), &key(b"k")).unwrap().unwrap();
    assert!(change.key == EventKey(key(b"alice"), key(b"k")));
    assert_eq!(change.data, None);
    let change = entity.del_private(&key(b"k")).unwrap();
    assert_eq!(change.data, None);
    entity.update_name(None);
    assert!(entity.set_private(&key(b"k"), Vec::new()).is_none());
}

#[test]
fn keys_come_in_the_order_of_arrival() {
    let mut entity = ExternalEntity::new();
    entity.set_private(&key(b"b"), Vec::new());
    entity.set_acl(&key(b"a"), AccessTag::Private);
    entity.set_private(&key(b"c"), Vec::new());
    entity.set_acl(&key(b"b"), AccessTag::Protected);
    let list: Vec<(Vec<u8>, AccessTag)> =
        entity.keys(None).unwrap().iter().map(|(k, t)| (k.to_vec(), *t)).collect();
    assert_eq!(
        list,
        vec![
            (b"b".to_vec(), AccessTag::Protected),
            (b"a".to_vec(), AccessTag::Private),
            (b"c".to_vec(), AccessTag::Public),
        ]
    );
}

#[test]
fn streams_go_under_their_request_ids() {
    let mut entity = ExternalEntity::new();
    let topic = EventKey(key(b"alice"), key(b"k"));
    assert!(entity.on_event(&topic, None).is_none());
    entity.register_event(9, topic);
    entity.register_notify(4, topic);
    let frame = entity.on_event(&topic, Some(b"v")).unwrap();
    assert_eq!(frame.reqid, 9);
    assert_eq!(frame.kind, ResponseKind::NEXT);
    assert!(matches!(frame.payload, ResponsePayload::SuccessWithData(d) if d == b"v"));
    let frame = entity.on_notify(&topic, None).unwrap();
    assert_eq!(frame.reqid, 4);
    assert!(matches!(frame.payload, ResponsePayload::Success));
    assert!(entity.on_event(&EventKey(key(b"alice"), key(b"l")), None).is_none());
    entity.register_event(10, topic);
    assert_eq!(entity.on_event(&topic, None).unwrap().reqid, 10);
}

#[test]
fn calls_are_recorded_and_answered_once() {
    let mut callee = ExternalEntity::new();
    let mut caller = ExternalEntity::new();
    let plan = callee.call(7, 11, &key(b"m"), b"p").unwrap();
    assert_eq!(plan.reqid, 11);
    assert_eq!(plan.frame.reqid, plan.rid);
    assert_eq!(plan.frame.kind, ResponseKind::CALL);
    assert!(matches!(&plan.frame.payload, ResponsePayload::SuccessWithData(d) if d == &[1, b'm', b'p']));
    caller.assign_call_ids(plan.reqid, plan.rid);
    let forward = callee.recv_call_resp(plan.rid, ResponsePayload::Success).unwrap();
    assert_eq!(forward.to, 7);
    assert_eq!(forward.rid, plan.rid);
    assert!(callee.recv_call_resp(plan.rid, ResponsePayload::Success).is_none());
    let frame = caller.call_resp(forward.rid, forward.payload).unwrap();
    assert_eq!(frame.reqid, 11);
    assert_eq!(frame.kind, ResponseKind::RESP);
    assert!(caller.call_resp(plan.rid, ResponsePayload::Success).is_none());
    caller.assign_call_ids(1, 2);
    caller.remove_call_id(2);
    assert!(caller.call_resp(2, ResponsePayload::Success).is_none());
}

#[test]
fn call_with_id_uses_the_given_id() {
    let mut callee = ExternalEntity::new();
    let frame = callee.call_with_id(7, 1234, &key(b"method"), b"");
    assert_eq!(frame.reqid, 1234);
    assert!(matches!(&frame.payload, ResponsePayload::SuccessWithData(d) if d == b"\x06method"));
    assert_eq!(callee.recv_call_resp(1234, ResponsePayload::Success).unwrap().to, 7);
}

#[test]
fn shared_bucket_refuses_nobody() {
    let mut bucket = SharedStorage::new();
    assert!(bucket_name().eq_bytes(b"shared"));
    assert!(matches!(bucket.get(None, &key(b"k")), Ok(None)));
    let change = bucket.set(None, &key(b"k"), b"v".to_vec()).unwrap().unwrap();
    assert!(change.key == EventKey(key(b"shared"), key(b"k")));
    assert_eq!(change.data, Some(b"v".to_vec()));
    assert!(matches!(bucket.get(Some(3), &key(b"k")), Ok(Some(v)) if v == b"v"));
    bucket.set(Some(4), &key(b"l"), Vec::new()).unwrap();
    let list: Vec<(Vec<u8>, AccessTag)> =
        bucket.keys(None).unwrap().iter().map(|(k, t)| (k.to_vec(), *t)).collect();
    assert_eq!(list, vec![(b"k".to_vec(), AccessTag::Public), (b"l".to_vec(), AccessTag::Public)]);
    let change = bucket.del(None, &key(b"k")).unwrap().unwrap();
    assert_eq!(change.data, None);
    assert!(matches!(bucket.get(None, &key(b"k")), Ok(None)));
    assert!(bucket.del(None, &key(b"k")).is_ok());
    assert_eq!(bucket.keys(None).unwrap().len(), 1);
    assert!(matches!(bucket.call(3, 1, &key(b"m"), b""), Err(EntityError::NotSupported)));
    bucket.update_name(Some(&key(b"other")));
    assert!(bucket_name().eq_bytes(b"shared"));
}
