use minibus::broker::EventKey;
use minibus::bus::{BrokerKind, Bus, Reaction, REGISTRY_ID, SHARED_ID};
use minibus::packet::{Request, Response, ResponseKind, ResponsePayload};
use minibus::short_text::ShortText;
use minibus::utils::{
    handshake_reply, verify_client, Decoder, DecoderUtils, Encoder, EncoderUtils, Reader,
};

fn fields(texts: &[&[u8]], rest: &[u8]) -> Vec<u8> {
    let mut payload: Vec<u8> = Vec::new();
    for text in texts {
        payload.encode_short_text(&ShortText::build(text));
    }
    payload.extend_from_slice(rest);
    payload
}

fn request(reqid: u32, command: &[u8], texts: &[&[u8]], rest: &[u8]) -> Request {
    Request { reqid, command: ShortText::build(command), payload: fields(texts, rest) }
}

fn over_the_wire(request: Request) -> Request {
    let mut wire: Vec<u8> = Vec::new();
    wire.encode(request);
    let mut reader = Reader::new(&wire);
    let back: Request = reader.decode().unwrap();
    assert_eq!(reader.remaining(), 0);
    back
}

fn send(bus: &mut Bus, conn: u64, reqid: u32, command: &[u8], texts: &[&[u8]], rest: &[u8]) -> Reaction {
    bus.handle(conn, over_the_wire(request(reqid, command, texts, rest)))
}

fn is_resp(frame: &(u64, Response), to: u64, reqid: u32) -> bool {
    frame.0 == to && frame.1.reqid == reqid && frame.1.kind == ResponseKind::RESP
}

fn is_success(payload: &ResponsePayload) -> bool {
    matches!(payload, ResponsePayload::Success)
}

fn is_data(payload: &ResponsePayload, data: &[u8]) -> bool {
    matches!(payload, ResponsePayload::SuccessWithData(d) if d == data)
}

fn is_failed(payload: &ResponsePayload, message: &[u8]) -> bool {
    matches!(payload, ResponsePayload::Failed(m) if m == message)
}

fn join(bus: &mut Bus) -> u64 {
    bus.connect().unwrap().id
}

fn two_clients() -> (Bus, u64, u64) {
    let mut bus = Bus::new();
    let first = join(&mut bus);
    let second = join(&mut bus);
    (bus, first, second)
}

fn register(bus: &mut Bus, conn: u64, name: &[u8]) {
    let reaction = send(bus, conn, 1, b"SET", &[b"registry", name], b"");
    assert!(is_success(&reaction.frames.last().unwrap().1.payload));
}

#[test]
fn handshake_success_then_ping() {
    assert!(verify_client(b"MINIBUS\0"));
    assert_eq!(handshake_reply(), b"OK".to_vec());
    let mut bus = Bus::new();
    let conn = join(&mut bus);
    let reaction = send(&mut bus, conn, 7, b"PING", &[], b"hi");
    assert!(!reaction.close);
    assert!(reaction.offers.is_empty());
    assert_eq!(reaction.frames.len(), 1);
    assert!(is_resp(&reaction.frames[0], conn, 7));
    assert!(is_data(&reaction.frames[0].1.payload, b"hi"));
    let mut wire: Vec<u8> = Vec::new();
    wire.encode(reaction.frames[0].1.clone());
    assert_eq!(wire, vec![7u8, 0, 0, 0, b'R', b'E', b'S', b'P', 1, 2, b'h', b'i']);
}

#[test]
fn registration_and_observation() {
    let (mut bus, client1, client2) = two_clients();
    let reaction = send(&mut bus, client1, 1, b"SET", &[b"registry", b"alice"], b"");
    assert_eq!(reaction.frames.len(), 1);
    assert!(is_resp(&reaction.frames[0], client1, 1));
    assert!(is_success(&reaction.frames[0].1.payload));
    let reaction = send(&mut bus, client2, 9, b"OBSERVE", &[b"registry", b"alice"], b"");
    assert_eq!(reaction.frames.len(), 1);
    assert!(is_resp(&reaction.frames[0], client2, 9));
    assert!(is_success(&reaction.frames[0].1.payload));
    let reaction = send(&mut bus, client1, 2, b"DEL", &[b"registry", b"alice"], b"");
    assert_eq!(reaction.frames.len(), 2);
    assert_eq!(reaction.frames[0].0, client2);
    assert_eq!(reaction.frames[0].1.reqid, 9);
    assert_eq!(reaction.frames[0].1.kind, ResponseKind::NEXT);
    assert!(is_success(&reaction.frames[0].1.payload));
    assert!(is_resp(&reaction.frames[1], client1, 2));
    assert!(is_success(&reaction.frames[1].1.payload));
}

#[test]
fn public_write_is_read_by_another() {
    let (mut bus, client1, client2) = two_clients();
    register(&mut bus, client1, b"alice");
    let reaction = send(&mut bus, client1, 2, b"ACL", &[b"x", b"public"], b"");
    assert!(is_success(&reaction.frames[0].1.payload));
    let reaction = send(&mut bus, client1, 3, b"SET PRIVATE", &[b"x"], b"v");
    assert!(is_success(&reaction.frames.last().unwrap().1.payload));
    let reaction = send(&mut bus, client2, 4, b"GET", &[b"alice", b"x"], b"");
    assert_eq!(reaction.frames.len(), 1);
    assert!(is_resp(&reaction.frames[0], client2, 4));
    assert!(is_data(&reaction.frames[0].1.payload, b"v"));
}

#[test]
fn remote_write_blocked() {
    let (mut bus, client1, client2) = two_clients();
    register(&mut bus, client1, b"alice");
    let reaction = send(&mut bus, client1, 2, b"ACL", &[b"y", b"protected"], b"");
    assert!(is_success(&reaction.frames[0].1.payload));
    let reaction = send(&mut bus, client2, 3, b"SET", &[b"alice", b"y"], b"v");
    assert_eq!(reaction.frames.len(), 1);
    assert!(is_resp(&reaction.frames[0], client2, 3));
    assert!(is_failed(&reaction.frames[0].1.payload, b"not allowned"));
    let reaction = send(&mut bus, client1, 4, b"GET PRIVATE", &[b"y"], b"");
    assert!(is_failed(&reaction.frames[0].1.payload, b"not found"));
}

#[test]
fn rpc_there_and_back() {
    let (mut bus, client1, client2) = two_clients();
    register(&mut bus, client1, b"svc");
    let reaction = send(&mut bus, client2, 11, b"CALL", &[b"svc", b"m"], b"p");
    assert_eq!(reaction.frames.len(), 1);
    assert_eq!(reaction.frames[0].0, client1);
    assert_eq!(reaction.frames[0].1.kind, ResponseKind::CALL);
    assert!(is_data(&reaction.frames[0].1.payload, &[1, b'm', b'p']));
    let rid = reaction.frames[0].1.reqid;
    let reaction = send(&mut bus, client1, rid, b"RESPONSE", &[], b"OK");
    assert_eq!(reaction.frames.len(), 1);
    assert!(is_resp(&reaction.frames[0], client2, 11));
    assert!(is_data(&reaction.frames[0].1.payload, b"OK"));
    let reaction = send(&mut bus, client1, rid, b"RESPONSE", &[], b"again");
    assert!(reaction.frames.is_empty());
}

#[test]
fn rpc_exception_comes_back_as_failure() {
    let (mut bus, client1, client2) = two_clients();
    register(&mut bus, client1, b"svc");
    let reaction = send(&mut bus, client2, 12, b"CALL", &[b"svc", b"m"], b"");
    let rid = reaction.frames[0].1.reqid;
    let reaction = send(&mut bus, client1, rid, b"EXCEPTION", &[], b"boom");
    assert_eq!(reaction.frames.len(), 1);
    assert!(is_resp(&reaction.frames[0], client2, 12));
    assert!(is_failed(&reaction.frames[0].1.payload, b"boom"));
}

#[test]
fn notify_without_name() {
    let mut bus = Bus::new();
    let conn = join(&mut bus);
    let reaction = send(&mut bus, conn, 5, b"NOTIFY", &[b"k"], b"v");
    assert_eq!(reaction.frames.len(), 1);
    assert!(is_resp(&reaction.frames[0], conn, 5));
    assert!(is_failed(&reaction.frames[0].1.payload, b"no name"));
}

#[test]
fn notify_reaches_listeners_only() {
    let (mut bus, client1, client2) = two_clients();
    let client3 = join(&mut bus);
    register(&mut bus, client1, b"alice");
    send(&mut bus, client2, 20, b"LISTEN", &[b"alice", b"k"], b"");
    send(&mut bus, client3, 21, b"OBSERVE", &[b"alice", b"k"], b"");
    let reaction = send(&mut bus, client1, 6, b"NOTIFY", &[b"k"], b"v");
    assert_eq!(reaction.frames.len(), 2);
    assert_eq!(reaction.frames[0].0, client2);
    assert_eq!(reaction.frames[0].1.reqid, 20);
    assert_eq!(reaction.frames[0].1.kind, ResponseKind::NEXT);
    assert!(is_data(&reaction.frames[0].1.payload, b"v"));
    assert!(is_resp(&reaction.frames[1], client1, 6));
    let reaction = send(&mut bus, client1, 7, b"SET PRIVATE", &[b"k"], b"w");
    assert_eq!(reaction.frames.len(), 2);
    assert_eq!(reaction.frames[0].0, client3);
    assert_eq!(reaction.frames[0].1.reqid, 21);
    assert!(is_data(&reaction.frames[0].1.payload, b"w"));
}

#[test]
fn binding_is_observed_with_its_value() {
    let (mut bus, client1, client2) = two_clients();
    send(&mut bus, client2, 9, b"OBSERVE", &[b"registry", b"bob"], b"");
    let reaction = send(&mut bus, client1, 1, b"SET", &[b"registry", b"bob"], b"hello");
    assert_eq!(reaction.frames.len(), 2);
    assert_eq!(reaction.frames[0].0, client2);
    assert_eq!(reaction.frames[0].1.kind, ResponseKind::NEXT);
    assert!(is_data(&reaction.frames[0].1.payload, b"hello"));
    assert!(is_success(&reaction.frames[1].1.payload));
}

#[test]
fn second_name_is_refused() {
    let (mut bus, client1, client2) = two_clients();
    register(&mut bus, client1, b"alice");
    let reaction = send(&mut bus, client1, 2, b"SET", &[b"registry", b"alice2"], b"");
    assert!(is_failed(&reaction.frames[0].1.payload, b"too many names"));
    let reaction = send(&mut bus, client2, 3, b"SET", &[b"registry", b"alice"], b"");
    assert!(is_failed(&reaction.frames[0].1.payload, b"duplicated"));
    let reaction = send(&mut bus, client2, 4, b"DEL", &[b"registry", b"alice"], b"");
    assert!(is_failed(&reaction.frames[0].1.payload, b"not allowned"));
    let reaction = send(&mut bus, client2, 5, b"DEL", &[b"registry", b"nobody"], b"");
    assert!(is_failed(&reaction.frames[0].1.payload, b"not found"));
    let reaction = send(&mut bus, client2, 6, b"GET", &[b"registry", b"alice"], b"");
    assert!(is_success(&reaction.frames[0].1.payload));
    let reaction = send(&mut bus, client2, 7, b"GET", &[b"registry", b"nobody"], b"");
    assert!(is_failed(&reaction.frames[0].1.payload, b"not found"));
}

#[test]
fn private_key_is_not_read_by_another() {
    let (mut bus, client1, client2) = two_clients();
    register(&mut bus, client1, b"alice");
    send(&mut bus, client1, 2, b"SET PRIVATE", &[b"s"], b"secret");
    send(&mut bus, client1, 3, b"ACL", &[b"s", b"private"], b"");
    let reaction = send(&mut bus, client2, 4, b"GET", &[b"alice", b"s"], b"");
    assert!(is_failed(&reaction.frames[0].1.payload, b"not allowed"));
    let reaction = send(&mut bus, client2, 5, b"DEL", &[b"alice", b"s"], b"");
    assert!(is_failed(&reaction.frames[0].1.payload, b"not allowned"));
    let reaction = send(&mut bus, client2, 6, b"GET", &[b"alice", b"t"], b"");
    assert!(is_failed(&reaction.frames[0].1.payload, b"not found"));
    let reaction = send(&mut bus, client1, 7, b"GET PRIVATE", &[b"s"], b"");
    assert!(is_data(&reaction.frames[0].1.payload, b"secret"));
    let reaction = send(&mut bus, client1, 8, b"SET PRIVATE", &[b"s"], b"open");
    assert!(is_success(&reaction.frames.last().unwrap().1.payload));
    let reaction = send(&mut bus, client2, 9, b"GET", &[b"alice", b"s"], b"");
    assert!(is_data(&reaction.frames[0].1.payload, b"open"));
}

#[test]
fn remote_delete_keeps_the_key() {
    let (mut bus, client1, client2) = two_clients();
    register(&mut bus, client1, b"alice");
    send(&mut bus, client1, 2, b"SET PRIVATE", &[b"x"], b"v");
    let reaction = send(&mut bus, client2, 3, b"DEL", &[b"alice", b"x"], b"");
    assert!(is_success(&reaction.frames[0].1.payload));
    let reaction = send(&mut bus, client2, 4, b"GET", &[b"alice", b"x"], b"");
    assert!(is_success(&reaction.frames[0].1.payload));
    let reaction = send(&mut bus, client2, 5, b"KEYS", &[b"alice"], b"");
    assert!(is_data(&reaction.frames[0].1.payload, b"\x06public\x01x"));
    send(&mut bus, client1, 6, b"DEL PRIVATE", &[b"x"], b"");
    let reaction = send(&mut bus, client2, 7, b"KEYS", &[b"alice"], b"");
    assert!(is_data(&reaction.frames[0].1.payload, b""));
}

#[test]
fn shared_bucket_is_open_to_all() {
    let (mut bus, client1, client2) = two_clients();
    send(&mut bus, client2, 30, b"OBSERVE", &[b"shared", b"k"], b"");
    let reaction = send(&mut bus, client1, 1, b"SET", &[b"shared", b"k"], b"v");
    assert_eq!(reaction.frames.len(), 2);
    assert_eq!(reaction.frames[0].0, client2);
    assert_eq!(reaction.frames[0].1.reqid, 30);
    assert!(is_data(&reaction.frames[0].1.payload, b"v"));
    assert!(is_success(&reaction.frames[1].1.payload));
    let reaction = send(&mut bus, client2, 2, b"GET", &[b"shared", b"k"], b"");
    assert!(is_data(&reaction.frames[0].1.payload, b"v"));
    let reaction = send(&mut bus, client2, 3, b"KEYS", &[b"shared"], b"");
    assert!(is_data(&reaction.frames[0].1.payload, b"\x06public\x01k"));
    let reaction = send(&mut bus, client2, 4, b"DEL", &[b"shared", b"k"], b"");
    assert_eq!(reaction.frames.len(), 2);
    assert!(is_success(&reaction.frames[0].1.payload));
    assert!(is_success(&reaction.frames[1].1.payload));
    let reaction = send(&mut bus, client1, 5, b"GET", &[b"shared", b"k"], b"");
    assert!(is_success(&reaction.frames[0].1.payload));
    let reaction = send(&mut bus, client1, 6, b"CALL", &[b"shared", b"k"], b"");
    assert!(is_failed(&reaction.frames[0].1.payload, b"not supported"));
}

#[test]
fn registry_keys_show_own_name_public() {
    let (mut bus, client1, client2) = two_clients();
    register(&mut bus, client1, b"alice");
    let reaction = send(&mut bus, client1, 2, b"KEYS", &[b"registry"], b"");
    assert!(is_data(
        &reaction.frames[0].1.payload,
        b"\x09protected\x08registry\x09protected\x06shared\x06public\x05alice"
    ));
    let reaction = send(&mut bus, client2, 3, b"KEYS", &[b"registry"], b"");
    assert!(is_data(
        &reaction.frames[0].1.payload,
        b"\x09protected\x08registry\x09protected\x06shared\x09protected\x05alice"
    ));
}

#[test]
fn missing_target_is_reported() {
    let mut bus = Bus::new();
    let conn = join(&mut bus);
    for command in [&b"SET"[..], b"GET", b"DEL", b"CALL"] {
        let reaction = send(&mut bus, conn, 1, command, &[b"nobody", b"k"], b"");
        assert_eq!(reaction.frames.len(), 1);
        assert!(is_failed(&reaction.frames[0].1.payload, b"target not found"));
    }
    let reaction = send(&mut bus, conn, 1, b"KEYS", &[b"nobody"], b"");
    assert!(is_failed(&reaction.frames[0].1.payload, b"target not found"));
    let reaction = send(&mut bus, conn, 1, b"CALL", &[b"registry", b"k"], b"");
    assert!(is_failed(&reaction.frames[0].1.payload, b"not supported"));
}

#[test]
fn unknown_command_closes() {
    let mut bus = Bus::new();
    let conn = join(&mut bus);
    let reaction = send(&mut bus, conn, 3, b"DANCE", &[], b"");
    assert!(reaction.close);
    assert_eq!(reaction.frames.len(), 1);
    assert!(is_resp(&reaction.frames[0], conn, 3));
    assert!(is_failed(&reaction.frames[0].1.payload, b"Unknown command"));
}

#[test]
fn stop_and_bad_payload_close_silently() {
    let mut bus = Bus::new();
    let conn = join(&mut bus);
    let reaction = send(&mut bus, conn, 3, b"STOP", &[], b"");
    assert!(reaction.close);
    assert!(reaction.frames.is_empty());
    let reaction = bus.handle(
        conn,
        Request { reqid: 4, command: ShortText::build(b"GET"), payload: vec![5, b'a'] },
    );
    assert!(reaction.close);
    assert!(reaction.frames.is_empty());
    let reaction = send(&mut bus, conn, 5, b"ACL", &[b"k", b"secret"], b"");
    assert!(reaction.close);
    assert!(reaction.frames.is_empty());
    let reaction = send(&mut bus, 77, 6, b"PING", &[], b"");
    assert!(reaction.close);
    assert!(reaction.frames.is_empty());
}

#[test]
fn disconnect_frees_the_name_and_the_subscriptions() {
    let (mut bus, client1, client2) = two_clients();
    register(&mut bus, client1, b"alice");
    send(&mut bus, client1, 2, b"OBSERVE", &[b"shared", b"k"], b"");
    assert!(bus.is_connected(client1));
    bus.disconnect(client1);
    assert!(!bus.is_connected(client1));
    let reaction = send(&mut bus, client2, 3, b"GET", &[b"alice", b"x"], b"");
    assert!(is_failed(&reaction.frames[0].1.payload, b"target not found"));
    let reaction = send(&mut bus, client2, 4, b"KEYS", &[b"registry"], b"");
    assert!(is_data(
        &reaction.frames[0].1.payload,
        b"\x09protected\x08registry\x09protected\x06shared"
    ));
    let reaction = send(&mut bus, client2, 5, b"SET", &[b"shared", b"k"], b"v");
    assert_eq!(reaction.frames.len(), 1);
    let reaction = send(&mut bus, client2, 6, b"SET", &[b"registry", b"alice"], b"");
    assert!(is_success(&reaction.frames.last().unwrap().1.payload));
}

#[test]
fn observing_twice_delivers_once() {
    let (mut bus, client1, client2) = two_clients();
    send(&mut bus, client2, 8, b"OBSERVE", &[b"shared", b"k"], b"");
    send(&mut bus, client2, 9, b"OBSERVE", &[b"shared", b"k"], b"");
    let reaction = send(&mut bus, client1, 1, b"SET", &[b"shared", b"k"], b"v");
    assert_eq!(reaction.frames.len(), 2);
    assert_eq!(reaction.frames[0].0, client2);
    assert_eq!(reaction.frames[0].1.reqid, 9);
}

#[test]
fn alternative_subscribers_are_offered_and_settled() {
    let mut bus = Bus::new();
    let conn = join(&mut bus);
    let topic = EventKey(ShortText::build(b"shared"), ShortText::build(b"k"));
    bus.alternative_register(BrokerKind::Event, 100, topic);
    bus.alternative_register(BrokerKind::Event, 101, topic);
    bus.alternative_register(BrokerKind::Event, 102, topic);
    let reaction = send(&mut bus, conn, 1, b"SET", &[b"shared", b"k"], b"v");
    assert_eq!(reaction.offers.len(), 1);
    assert_eq!(reaction.offers[0].kind, BrokerKind::Event);
    assert!(reaction.offers[0].key == topic);
    assert_eq!(reaction.offers[0].to, vec![100u64, 101, 102]);
    assert_eq!(reaction.offers[0].data, Some(b"v".to_vec()));
    bus.settle(BrokerKind::Event, &topic, &vec![true, false, true]);
    let reaction = send(&mut bus, conn, 2, b"DEL", &[b"shared", b"k"], b"");
    assert_eq!(reaction.offers.len(), 1);
    assert_eq!(reaction.offers[0].to, vec![100u64, 102]);
    assert_eq!(reaction.offers[0].data, None);
    bus.settle(BrokerKind::Event, &topic, &vec![false, false]);
    let reaction = send(&mut bus, conn, 3, b"SET", &[b"shared", b"k"], b"v");
    assert!(reaction.offers.is_empty());
}

#[test]
fn failed_call_frame_is_reported_to_the_caller() {
    let (mut bus, client1, client2) = two_clients();
    register(&mut bus, client1, b"svc");
    let reaction = send(&mut bus, client2, 11, b"CALL", &[b"svc", b"m"], b"p");
    let rid = reaction.frames[0].1.reqid;
    let reaction = bus.call_failed(client2, rid, b"broken pipe".to_vec());
    assert_eq!(reaction.frames.len(), 1);
    assert!(is_resp(&reaction.frames[0], client2, 11));
    assert!(is_failed(&reaction.frames[0].1.payload, b"broken pipe"));
    let reaction = bus.call_failed(client2, rid, b"broken pipe".to_vec());
    assert!(reaction.frames.is_empty());
}

#[test]
fn calls_get_distinct_responder_ids() {
    let (mut bus, client1, client2) = two_clients();
    register(&mut bus, client1, b"svc");
    let mut seen: Vec<u32> = Vec::new();
    for reqid in 0..50u32 {
        let reaction = send(&mut bus, client2, reqid, b"CALL", &[b"svc", b"m"], b"");
        let rid = reaction.frames[0].1.reqid;
        assert!(!seen.contains(&rid));
        seen.push(rid);
    }
    assert!(seen.iter().any(|rid| *rid != seen[0].wrapping_add(1)));
}

#[test]
fn builtin_entities_have_fixed_ids() {
    let bus = Bus::new();
    assert_eq!(REGISTRY_ID, 0);
    assert_eq!(SHARED_ID, 1);
    assert!(!bus.is_connected(REGISTRY_ID));
    assert!(matches!(
        bus.resolve(&ShortText::build(b"registry")),
        minibus::bus::Target::Registry
    ));
    assert!(matches!(bus.resolve(&ShortText::build(b"shared")), minibus::bus::Target::Shared));
    assert!(matches!(bus.resolve(&ShortText::build(b"x")), minibus::bus::Target::Missing));
}

#[test]
fn first_clients_get_the_first_free_entities() {
    let mut bus = Bus::new();
    let first = bus.connect().unwrap();
    let second = bus.connect().unwrap();
    assert_eq!(first.id, 2);
    assert_eq!(second.id, 3);
    assert!(bus.is_connected(2));
    assert!(bus.is_connected(3));
    assert!(!bus.is_connected(4));
}

#[test]
fn a_client_whose_lease_is_dropped_is_swept() {
    let mut bus = Bus::new();
    let kept = bus.connect().unwrap();
    let dropped = bus.connect().unwrap();
    let watcher = bus.connect().unwrap();
    let gone_id = dropped.id;
    register(&mut bus, gone_id, b"alice");
    register(&mut bus, kept.id, b"bob");
    send(&mut bus, gone_id, 2, b"OBSERVE", &[b"shared", b"k"], b"");
    send(&mut bus, watcher.id, 3, b"OBSERVE", &[b"shared", b"k"], b"");
    assert!(bus.sweep().is_empty());
    assert!(bus.is_connected(gone_id));
    drop(dropped);
    assert_eq!(bus.sweep(), vec![gone_id]);
    assert!(!bus.is_connected(gone_id));
    assert!(bus.is_connected(kept.id));
    assert!(bus.sweep().is_empty());
    let reaction = send(&mut bus, kept.id, 4, b"GET", &[b"alice", b"x"], b"");
    assert!(is_failed(&reaction.frames[0].1.payload, b"target not found"));
    let reaction = send(&mut bus, kept.id, 5, b"KEYS", &[b"registry"], b"");
    assert!(is_data(
        &reaction.frames[0].1.payload,
        b"\x09protected\x08registry\x09protected\x06shared\x06public\x03bob"
    ));
    let reaction = send(&mut bus, kept.id, 6, b"SET", &[b"shared", b"k"], b"v");
    assert_eq!(reaction.frames.len(), 2);
    assert_eq!(reaction.frames[0].0, watcher.id);
    drop(kept);
    drop(watcher);
    let mut gone = bus.sweep();
    gone.sort();
    assert_eq!(gone.len(), 2);
    assert!(!gone.contains(&gone_id));
}

#[test]
fn a_disconnected_client_is_not_swept_again() {
    let mut bus = Bus::new();
    let lease = bus.connect().unwrap();
    bus.disconnect(lease.id);
    drop(lease);
    assert!(bus.sweep().is_empty());
}
