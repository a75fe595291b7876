use minibus::packet::{Request, Response, ResponseKind, ResponsePayload};
use minibus::short_text::ShortText;
use minibus::utils::{verify_client, DecodeError, Decoder, DecoderUtils, Encoder, EncoderUtils, Reader};

fn varuint_wire(value: usize) -> Vec<u8> {
    let mut wire: Vec<u8> = Vec::new();
    wire.encode_varuint(value);
    wire
}

#[test]
fn varuint_exact_bytes() {
    assert_eq!(varuint_wire(0), vec![0u8]);
    assert_eq!(varuint_wire(1), vec![1u8]);
    assert_eq!(varuint_wire(127), vec![127u8]);
    assert_eq!(varuint_wire(128), vec![0x80u8, 0x01]);
    assert_eq!(varuint_wire(16383), vec![0xffu8, 0x7f]);
    assert_eq!(varuint_wire(16384), vec![0x80u8, 0x80, 0x01]);
    assert_eq!(varuint_wire(4294967295), vec![0xffu8, 0xff, 0xff, 0xff, 0x0f]);
}

#[test]
fn varuint_round_trips() {
    for value in [0usize, 1, 127, 128, 16383, 16384, 4294967295] {
        let wire = varuint_wire(value);
        let mut reader = Reader::new(&wire);
        assert_eq!(reader.decode_varuint(), Ok(value));
        assert_eq!(reader.remaining(), 0);
    }
}

#[test]
fn handshake_is_exact() {
    assert!(verify_client(b"MINIBUS\0"));
    assert!(!verify_client(b"MINIBUS"));
    assert!(!verify_client(b"MINIBUS\0\0"));
    assert!(!verify_client(b"minibus\0"));
}

#[test]
fn request_round_trips() {
    let request = Request { reqid: 7, command: ShortText::build(b"PING"), payload: b"hi".to_vec() };
    let mut wire: Vec<u8> = Vec::new();
    wire.encode(request);
    assert_eq!(wire, vec![7u8, 0, 0, 0, 4, b'P', b'I', b'N', b'G', 2, b'h', b'i']);
    let mut reader = Reader::new(&wire);
    let back: Request = reader.decode().unwrap();
    assert_eq!(back.reqid, 7);
    assert!(back.command.eq_bytes(b"PING"));
    assert_eq!(back.payload, b"hi".to_vec());
    assert_eq!(reader.remaining(), 0);
}

#[test]
fn response_round_trips() {
    let mut wire: Vec<u8> = Vec::new();
    wire.encode(Response::new_next(0x01020304, ResponsePayload::Failed(b"no".to_vec())));
    assert_eq!(wire, vec![4u8, 3, 2, 1, b'N', b'E', b'X', b'T', 255, 2, b'n', b'o']);
    let mut reader = Reader::new(&wire);
    let back: Response = reader.decode().unwrap();
    assert_eq!(back.reqid, 0x01020304);
    assert_eq!(back.kind, ResponseKind::NEXT);
    assert!(matches!(back.payload, ResponsePayload::Failed(ref m) if m == b"no"));
}

#[test]
fn short_frames_are_incomplete() {
    let wire = vec![7u8, 0, 0, 0, 4, b'P', b'I'];
    let mut reader = Reader::new(&wire);
    let back: Result<Request, DecodeError> = reader.decode();
    assert!(matches!(back, Err(DecodeError::Incomplete)));
    assert_eq!(reader.remaining(), 7);
}

#[test]
fn unknown_kind_and_tag_do_not_match() {
    let wire = vec![1u8, 0, 0, 0, b'R', b'E', b'S', b'Q', 0];
    let mut reader = Reader::new(&wire);
    let back: Result<Response, DecodeError> = reader.decode();
    assert!(matches!(back, Err(DecodeError::NotMatch)));
    let wire = vec![1u8, 0, 0, 0, b'R', b'E', b'S', b'P', 2];
    let mut reader = Reader::new(&wire);
    let back: Result<Response, DecodeError> = reader.decode();
    assert!(matches!(back, Err(DecodeError::NotMatch)));
}
