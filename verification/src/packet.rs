//! Frames: what a client sends (`Request`) and what it is sent (`Response`),
//! with their wire forms.

use crate::short_text::ShortText;
use crate::utils::{
    binary_bytes, lemma_binary_round_trip, lemma_reqid_round_trip, lemma_short_text_round_trip,
    parse_binary, parse_reqid, parse_short_text, reqid_bytes, short_text_bytes, DecodeError,
    Decoder, DecoderUtils, Encoder, EncoderUtils, Parsed, Reader,
};
use vstd::prelude::*;

verus! {

/// A frame from a client: a request id, a command token and a payload.
#[derive(Debug, Clone)]
pub struct Request {
    pub reqid: u32,
    pub command: ShortText,
    pub payload: Vec<u8>,
}

/// What a `Request` holds.
pub struct RequestView {
    pub reqid: u32,
    pub command: Seq<u8>,
    pub payload: Seq<u8>,
}

impl View for Request {
    type V = RequestView;

    open spec fn view(&self) -> RequestView {
        RequestView { reqid: self.reqid, command: self.command@, payload: self.payload@ }
    }
}

/// A request on the wire: the request id, the command as a short text, the
/// payload as a binary.
pub open spec fn request_bytes(request: RequestView) -> Seq<u8> {
    reqid_bytes(request.reqid) + short_text_bytes(request.command) + binary_bytes(request.payload)
}

/// The request at the front of `input`.
pub open spec fn parse_request(input: Seq<u8>) -> Parsed<RequestView> {
    match parse_reqid(input) {
        Err(e) => Err(e),
        Ok((reqid, n1)) => match parse_short_text(input.skip(n1 as int)) {
            Err(e) => Err(e),
            Ok((command, n2)) => match parse_binary(input.skip(n1 as int).skip(n2 as int)) {
                Err(e) => Err(e),
                Ok((payload, n3)) => Ok((RequestView { reqid, command, payload }, n1 + n2 + n3)),
            },
        },
    }
}

impl Encoder<Request> for Vec<u8> {
    open spec fn encoding(data: &Request) -> Seq<u8> {
        request_bytes(data@)
    }

    fn encode(&mut self, data: Request) {
        self.encode_reqid(data.reqid);
        self.encode_short_text(&data.command);
        self.encode_binary(data.payload.as_slice());
        assert(self@ =~= old(self)@ + request_bytes(data@));
    }
}

impl<'a> Decoder<Request> for Reader<'a> {
    open spec fn parsing(input: Seq<u8>) -> Parsed<RequestView> {
        parse_request(input)
    }

    fn decode(&mut self) -> (value: Result<Request, DecodeError>) {
        let mut probe = *self;
        let reqid = match probe.decode_reqid() {
            Ok(reqid) => reqid,
            Err(e) => {
                return Err(e);
            },
        };
        let command = match probe.decode_short_text() {
            Ok(command) => command,
            Err(e) => {
                return Err(e);
            },
        };
        let payload = match probe.decode_binary() {
            Ok(payload) => payload,
            Err(e) => {
                return Err(e);
            },
        };
        proof {
            let n1 = parse_reqid(old(self)@)->Ok_0.1;
            let n2 = parse_short_text(old(self)@.skip(n1 as int))->Ok_0.1;
            let n3 = parse_binary(old(self)@.skip(n1 as int).skip(n2 as int))->Ok_0.1;
            assert(old(self)@.skip(n1 as int).skip(n2 as int).skip(n3 as int) =~= old(self)@.skip(
                (n1 + n2 + n3) as int,
            ));
        }
        *self = probe;
        Ok(Request { reqid, command, payload })
    }
}

/// The kind of a response frame.
#[allow(non_camel_case_types)]
#[derive(Debug, Clone, Copy, PartialEq, Eq, Structural)]
pub enum ResponseKind {
    /// The answer to a request.
    RESP,
    /// One more item of a stream that a request opened.
    NEXT,
    /// A call that another entity makes on the receiver.
    CALL,
}

impl View for ResponseKind {
    type V = ResponseKind;

    open spec fn view(&self) -> ResponseKind {
        *self
    }
}

/// A response kind on the wire: its name in four ASCII letters.
pub open spec fn kind_bytes(kind: ResponseKind) -> Seq<u8> {
    match kind {
        ResponseKind::RESP => seq![82u8, 69u8, 83u8, 80u8],
        ResponseKind::NEXT => seq![78u8, 69u8, 88u8, 84u8],
        ResponseKind::CALL => seq![67u8, 65u8, 76u8, 76u8],
    }
}

/// The response kind at the front of `input`.
pub open spec fn parse_kind(input: Seq<u8>) -> Parsed<ResponseKind> {
    if input.len() < 4 {
        Err(DecodeError::Incomplete)
    } else if input.subrange(0, 4) == kind_bytes(ResponseKind::RESP) {
        Ok((ResponseKind::RESP, 4))
    } else if input.subrange(0, 4) == kind_bytes(ResponseKind::NEXT) {
        Ok((ResponseKind::NEXT, 4))
    } else if input.subrange(0, 4) == kind_bytes(ResponseKind::CALL) {
        Ok((ResponseKind::CALL, 4))
    } else {
        Err(DecodeError::NotMatch)
    }
}

impl Encoder<ResponseKind> for Vec<u8> {
    open spec fn encoding(data: &ResponseKind) -> Seq<u8> {
        kind_bytes(*data)
    }

    fn encode(&mut self, data: ResponseKind) {
        match data {
            ResponseKind::RESP => {
                self.push(82u8);
                self.push(69u8);
                self.push(83u8);
                self.push(80u8);
            },
            ResponseKind::NEXT => {
                self.push(78u8);
                self.push(69u8);
                self.push(88u8);
                self.push(84u8);
            },
            ResponseKind::CALL => {
                self.push(67u8);
                self.push(65u8);
                self.push(76u8);
                self.push(76u8);
            },
        }
        assert(self@ =~= old(self)@ + kind_bytes(data));
    }
}

impl<'a> Decoder<ResponseKind> for Reader<'a> {
    open spec fn parsing(input: Seq<u8>) -> Parsed<ResponseKind> {
        parse_kind(input)
    }

    fn decode(&mut self) -> (value: Result<ResponseKind, DecodeError>) {
        let mut probe = *self;
        let name = match probe.read_exact(4) {
            Ok(name) => name,
            Err(e) => {
                return Err(e);
            },
        };
        let kind = if name[0] == 82u8 && name[1] == 69u8 && name[2] == 83u8 && name[3] == 80u8 {
            assert(name@ =~= kind_bytes(ResponseKind::RESP));
            ResponseKind::RESP
        } else if name[0] == 78u8 && name[1] == 69u8 && name[2] == 88u8 && name[3] == 84u8 {
            assert(name@ =~= kind_bytes(ResponseKind::NEXT));
            ResponseKind::NEXT
        } else if name[0] == 67u8 && name[1] == 65u8 && name[2] == 76u8 && name[3] == 76u8 {
            assert(name@ =~= kind_bytes(ResponseKind::CALL));
            ResponseKind::CALL
        } else {
            return Err(DecodeError::NotMatch);
        };
        *self = probe;
        Ok(kind)
    }
}

/// What a response carries: success, success with data, or a failure with
/// its message.
#[derive(Debug, Clone)]
pub enum ResponsePayload {
    Success,
    SuccessWithData(Vec<u8>),
    Failed(Vec<u8>),
}

/// What a `ResponsePayload` holds.
pub enum ResponsePayloadView {
    Success,
    SuccessWithData(Seq<u8>),
    Failed(Seq<u8>),
}

impl View for ResponsePayload {
    type V = ResponsePayloadView;

    open spec fn view(&self) -> ResponsePayloadView {
        match self {
            ResponsePayload::Success => ResponsePayloadView::Success,
            ResponsePayload::SuccessWithData(data) => ResponsePayloadView::SuccessWithData(data@),
            ResponsePayload::Failed(message) => ResponsePayloadView::Failed(message@),
        }
    }
}

/// A response payload on the wire: a tag byte, then the data or the message
/// as a binary where there is one.
pub open spec fn payload_bytes(payload: ResponsePayloadView) -> Seq<u8> {
    match payload {
        ResponsePayloadView::Success => seq![0u8],
        ResponsePayloadView::SuccessWithData(data) => seq![1u8] + binary_bytes(data),
        ResponsePayloadView::Failed(message) => seq![255u8] + binary_bytes(message),
    }
}

/// The response payload at the front of `input`.
pub open spec fn parse_payload(input: Seq<u8>) -> Parsed<ResponsePayloadView> {
    if input.len() < 1 {
        Err(DecodeError::Incomplete)
    } else if input[0] == 0 {
        Ok((ResponsePayloadView::Success, 1))
    } else if input[0] == 1 {
        match parse_binary(input.skip(1)) {
            Ok((data, taken)) => Ok((ResponsePayloadView::SuccessWithData(data), taken + 1)),
            Err(e) => Err(e),
        }
    } else if input[0] == 255 {
        match parse_binary(input.skip(1)) {
            Ok((message, taken)) => Ok((ResponsePayloadView::Failed(message), taken + 1)),
            Err(e) => Err(e),
        }
    } else {
        Err(DecodeError::NotMatch)
    }
}

impl Encoder<ResponsePayload> for Vec<u8> {
    open spec fn encoding(data: &ResponsePayload) -> Seq<u8> {
        payload_bytes(data@)
    }

    fn encode(&mut self, data: ResponsePayload) {
        match data {
            ResponsePayload::Success => {
                self.push(0u8);
                assert(self@ =~= old(self)@ + payload_bytes(data@));
            },
            ResponsePayload::SuccessWithData(bytes) => {
                self.push(1u8);
                self.encode_binary(bytes.as_slice());
                assert(self@ =~= old(self)@ + payload_bytes(data@));
            },
            ResponsePayload::Failed(message) => {
                self.push(255u8);
                self.encode_binary(message.as_slice());
                assert(self@ =~= old(self)@ + payload_bytes(data@));
            },
        }
    }
}

impl<'a> Decoder<ResponsePayload> for Reader<'a> {
    open spec fn parsing(input: Seq<u8>) -> Parsed<ResponsePayloadView> {
        parse_payload(input)
    }

    fn decode(&mut self) -> (value: Result<ResponsePayload, DecodeError>) {
        let mut probe = *self;
        let tag = match probe.read_exact(1) {
            Ok(tag) => tag[0],
            Err(e) => {
                return Err(e);
            },
        };
        let payload = if tag == 0 {
            ResponsePayload::Success
        } else if tag == 1 {
            match probe.decode_binary() {
                Ok(data) => ResponsePayload::SuccessWithData(data),
                Err(e) => {
                    return Err(e);
                },
            }
        } else if tag == 255 {
            match probe.decode_binary() {
                Ok(message) => ResponsePayload::Failed(message),
                Err(e) => {
                    return Err(e);
                },
            }
        } else {
            return Err(DecodeError::NotMatch);
        };
        proof {
            if tag != 0 {
                let taken = parse_binary(old(self)@.skip(1))->Ok_0.1;
                assert(old(self)@.skip(1).skip(taken as int) =~= old(self)@.skip((taken + 1) as int));
            }
        }
        *self = probe;
        Ok(payload)
    }
}

/// A frame to a client: the request id that it answers or continues, its
/// kind and its payload.
#[derive(Debug, Clone)]
pub struct Response {
    pub reqid: u32,
    pub kind: ResponseKind,
    pub payload: ResponsePayload,
}

/// What a `Response` holds.
pub struct ResponseView {
    pub reqid: u32,
    pub kind: ResponseKind,
    pub payload: ResponsePayloadView,
}

impl View for Response {
    type V = ResponseView;

    open spec fn view(&self) -> ResponseView {
        ResponseView { reqid: self.reqid, kind: self.kind, payload: self.payload@ }
    }
}

/// A response on the wire: the request id, the kind, the payload.
pub open spec fn response_bytes(response: ResponseView) -> Seq<u8> {
    reqid_bytes(response.reqid) + kind_bytes(response.kind) + payload_bytes(response.payload)
}

/// The response at the front of `input`.
pub open spec fn parse_response(input: Seq<u8>) -> Parsed<ResponseView> {
    match parse_reqid(input) {
        Err(e) => Err(e),
        Ok((reqid, n1)) => match parse_kind(input.skip(n1 as int)) {
            Err(e) => Err(e),
            Ok((kind, n2)) => match parse_payload(input.skip(n1 as int).skip(n2 as int)) {
                Err(e) => Err(e),
                Ok((payload, n3)) => Ok((ResponseView { reqid, kind, payload }, n1 + n2 + n3)),
            },
        },
    }
}

impl Response {
    /// The answer to the request `reqid`.
    pub fn new_resp(reqid: u32, payload: ResponsePayload) -> (response: Response)
        ensures
            response@ == (ResponseView { reqid, kind: ResponseKind::RESP, payload: payload@ }),
    {
        Response { reqid, kind: ResponseKind::RESP, payload }
    }

    /// One more item of the stream that the request `reqid` opened.
    pub fn new_next(reqid: u32, payload: ResponsePayload) -> (response: Response)
        ensures
            response@ == (ResponseView { reqid, kind: ResponseKind::NEXT, payload: payload@ }),
    {
        Response { reqid, kind: ResponseKind::NEXT, payload }
    }

    /// A call on the receiver, to be answered under `reqid`.
    pub fn new_call(reqid: u32, payload: ResponsePayload) -> (response: Response)
        ensures
            response@ == (ResponseView { reqid, kind: ResponseKind::CALL, payload: payload@ }),
    {
        Response { reqid, kind: ResponseKind::CALL, payload }
    }
}

impl Encoder<Response> for Vec<u8> {
    open spec fn encoding(data: &Response) -> Seq<u8> {
        response_bytes(data@)
    }

    fn encode(&mut self, data: Response) {
        let ghost whole = data@;
        let Response { reqid, kind, payload } = data;
        self.encode_reqid(reqid);
        self.encode(kind);
        self.encode(payload);
        assert(self@ =~= old(self)@ + response_bytes(whole));
    }
}

impl<'a> Decoder<Response> for Reader<'a> {
    open spec fn parsing(input: Seq<u8>) -> Parsed<ResponseView> {
        parse_response(input)
    }

    fn decode(&mut self) -> (value: Result<Response, DecodeError>) {
        let mut probe = *self;
        let reqid = match probe.decode_reqid() {
            Ok(reqid) => reqid,
            Err(e) => {
                return Err(e);
            },
        };
        let kind: ResponseKind = match probe.decode() {
            Ok(kind) => kind,
            Err(e) => {
                return Err(e);
            },
        };
        let payload: ResponsePayload = match probe.decode() {
            Ok(payload) => payload,
            Err(e) => {
                return Err(e);
            },
        };
        proof {
            let n1 = parse_reqid(old(self)@)->Ok_0.1;
            let n2 = parse_kind(old(self)@.skip(n1 as int))->Ok_0.1;
            let n3 = parse_payload(old(self)@.skip(n1 as int).skip(n2 as int))->Ok_0.1;
            assert(old(self)@.skip(n1 as int).skip(n2 as int).skip(n3 as int) =~= old(self)@.skip(
                (n1 + n2 + n3) as int,
            ));
        }
        *self = probe;
        Ok(Response { reqid, kind, payload })
    }
}

/// Whether a request can be written and read back: its command is a short
/// text and its payload has a length that a machine word holds.
pub open spec fn request_well_formed(request: RequestView) -> bool {
    request.command.len() <= 255 && request.payload.len() <= usize::MAX
}

/// Whether a response can be written and read back: the data or the message
/// that it carries has a length that a machine word holds.
pub open spec fn response_well_formed(response: ResponseView) -> bool {
    match response.payload {
        ResponsePayloadView::Success => true,
        ResponsePayloadView::SuccessWithData(data) => data.len() <= usize::MAX,
        ResponsePayloadView::Failed(message) => message.len() <= usize::MAX,
    }
}

/// Decoding what a well-formed request was encoded as gives the request
/// back and takes exactly its bytes, whatever follows them.
pub proof fn lemma_request_round_trip(request: RequestView, rest: Seq<u8>)
    requires
        request_well_formed(request),
    ensures
        parse_request(request_bytes(request) + rest) == Ok::<(RequestView, nat), DecodeError>(
            (request, request_bytes(request).len()),
        ),
{
    let a = reqid_bytes(request.reqid);
    let b = short_text_bytes(request.command);
    let c = binary_bytes(request.payload);
    let wire = request_bytes(request) + rest;
    assert(wire =~= a + (b + c + rest));
    lemma_reqid_round_trip(request.reqid, b + c + rest);
    assert(wire.skip(4) =~= b + (c + rest));
    lemma_short_text_round_trip(request.command, c + rest);
    assert(wire.skip(4).skip(b.len() as int) =~= c + rest);
    lemma_binary_round_trip(request.payload, rest);
}

/// A response kind is read back as it was written, whatever follows it.
pub proof fn lemma_kind_round_trip(kind: ResponseKind, rest: Seq<u8>)
    ensures
        kind_bytes(kind).len() == 4,
        parse_kind(kind_bytes(kind) + rest) == Ok::<(ResponseKind, nat), DecodeError>((kind, 4)),
{
    let wire = kind_bytes(kind) + rest;
    assert(wire.subrange(0, 4) =~= kind_bytes(kind));
    assert(kind_bytes(ResponseKind::RESP)[0] != kind_bytes(ResponseKind::NEXT)[0]);
    assert(kind_bytes(ResponseKind::RESP)[0] != kind_bytes(ResponseKind::CALL)[0]);
    assert(kind_bytes(ResponseKind::NEXT)[0] != kind_bytes(ResponseKind::CALL)[0]);
}

/// A response payload is read back as it was written, whatever follows it.
pub proof fn lemma_payload_round_trip(payload: ResponsePayloadView, rest: Seq<u8>)
    requires
        response_well_formed(ResponseView { reqid: 0, kind: ResponseKind::RESP, payload }),
    ensures
        parse_payload(payload_bytes(payload) + rest) == Ok::<
            (ResponsePayloadView, nat),
            DecodeError,
        >((payload, payload_bytes(payload).len())),
{
    let wire = payload_bytes(payload) + rest;
    match payload {
        ResponsePayloadView::Success => {
            assert(wire[0] == 0);
        },
        ResponsePayloadView::SuccessWithData(data) => {
            assert(wire[0] == 1);
            assert(wire.skip(1) =~= binary_bytes(data) + rest);
            lemma_binary_round_trip(data, rest);
        },
        ResponsePayloadView::Failed(message) => {
            assert(wire[0] == 255);
            assert(wire.skip(1) =~= binary_bytes(message) + rest);
            lemma_binary_round_trip(message, rest);
        },
    }
}

/// Decoding what a well-formed response was encoded as gives the response
/// back and takes exactly its bytes, whatever follows them.
pub proof fn lemma_response_round_trip(response: ResponseView, rest: Seq<u8>)
    requires
        response_well_formed(response),
    ensures
        parse_response(response_bytes(response) + rest) == Ok::<(ResponseView, nat), DecodeError>(
            (response, response_bytes(response).len()),
        ),
{
    let a = reqid_bytes(response.reqid);
    let b = kind_bytes(response.kind);
    let c = payload_bytes(response.payload);
    let wire = response_bytes(response) + rest;
    assert(wire =~= a + (b + c + rest));
    lemma_reqid_round_trip(response.reqid, b + c + rest);
    assert(wire.skip(4) =~= b + (c + rest));
    lemma_kind_round_trip(response.kind, c + rest);
    assert(wire.skip(4).skip(4) =~= c + rest);
    lemma_payload_round_trip(response.payload, rest);
}

} // verus!
