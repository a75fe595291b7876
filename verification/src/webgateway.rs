//! What the HTTP view of the bus answers: the listing of a bucket, the
//! replies to reads and calls, and the server-sent event of a publication.
//! The routes themselves, and the sockets, are not here.

use crate::entity::{AccessTag, EntityError};
use crate::packet::{ResponsePayload, ResponsePayloadView};
use crate::short_text::ShortText;
use crate::utils::{ascii, bytes_of, write_all};
use vstd::prelude::*;
use vstd::slice::slice_to_vec;
use vstd::utf8::valid_utf8;

verus! {

/// The sign that stands for an access tag in a listing.
pub open spec fn flag_of(tag: AccessTag) -> char {
    match tag {
        AccessTag::Private => '!',
        AccessTag::Protected => '-',
        AccessTag::Public => '+',
    }
}

/// The sign that stands for `tag` in a listing.
pub fn get_access_tag_flag(tag: AccessTag) -> (flag: char)
    ensures
        flag == flag_of(tag),
{
    match tag {
        AccessTag::Private => '!',
        AccessTag::Protected => '-',
        AccessTag::Public => '+',
    }
}

/// One line of a listing: the sign of the tag, then the name.
pub open spec fn listing_line(item: (Seq<u8>, AccessTag)) -> Seq<u8> {
    seq![flag_of(item.1) as u8] + item.0
}

/// The listing of a bucket: a line for each key, with a zero byte between
/// two lines.
pub open spec fn listing_text(list: Seq<(Seq<u8>, AccessTag)>) -> Seq<u8>
    decreases list.len(),
{
    if list.len() == 0 {
        Seq::empty()
    } else if list.len() == 1 {
        listing_line(list[0])
    } else {
        listing_text(list.drop_last()) + seq![0u8] + listing_line(list.last())
    }
}

/// Writes the listing of a bucket.
pub fn bucket_listing(keys: &Vec<(ShortText, AccessTag)>) -> (text: Vec<u8>)
    ensures
        text@ == listing_text(crate::entity::listing_view(keys@)),
{
    let mut text: Vec<u8> = Vec::new();
    let ghost items = crate::entity::listing_view(keys@);
    let mut i: usize = 0;
    proof {
        assert(items.take(0) =~= Seq::empty());
    }
    while i < keys.len()
        invariant
            i <= keys@.len(),
            items == crate::entity::listing_view(keys@),
            text@ == listing_text(items.take(i as int)),
        decreases keys@.len() - i,
    {
        let (name, tag) = keys[i];
        proof {
            assert(items.take(i + 1).drop_last() =~= items.take(i as int));
            assert(items.take(i + 1).last() == (name@, tag));
            assert(items.take(i + 1)[0] == items[0]);
        }
        if i > 0 {
            text.push(0u8);
        }
        text.push(get_access_tag_flag(tag) as u8);
        write_all(&mut text, name.as_bytes());
        proof {
            assert(text@ =~= listing_text(items.take(i + 1)));
        }
        i += 1;
    }
    proof {
        assert(items.take(i as int) =~= items);
    }
    text
}

/// The answer to an HTTP request: the status and the body.
pub struct HttpReply {
    pub status: u16,
    pub body: Vec<u8>,
}

/// What an `HttpReply` holds.
pub struct HttpReplyView {
    pub status: u16,
    pub body: Seq<u8>,
}

impl View for HttpReply {
    type V = HttpReplyView;

    open spec fn view(&self) -> HttpReplyView {
        HttpReplyView { status: self.status, body: self.body@ }
    }
}

/// The answer where the bucket of the request is not there: status 400.
pub fn missing_bucket() -> (reply: HttpReply)
    ensures
        reply@ == (HttpReplyView { status: 400, body: Seq::empty() }),
{
    HttpReply { status: 400, body: Vec::new() }
}

/// The answer to a write or a deletion that went through: status 204.
pub fn no_content() -> (reply: HttpReply)
    ensures
        reply@ == (HttpReplyView { status: 204, body: Seq::empty() }),
{
    HttpReply { status: 204, body: Vec::new() }
}

/// The answer to the listing of a bucket: status 200 with the listing, or
/// status 400 where the bucket is not there.
pub fn reply_to_listing(keys: Option<Vec<(ShortText, AccessTag)>>) -> (reply: HttpReply)
    ensures
        reply@ == match keys {
            Some(list) => HttpReplyView {
                status: 200,
                body: listing_text(crate::entity::listing_view(list@)),
            },
            None => HttpReplyView { status: 400, body: Seq::empty() },
        },
{
    match keys {
        Some(list) => HttpReply { status: 200, body: bucket_listing(&list) },
        None => missing_bucket(),
    }
}

/// The answer to the read of a key, given what the bus answered: status 400
/// with the value where there is one, status 204 where there is none,
/// status 500 with the message where the read failed.
pub fn reply_to_read(answer: ResponsePayload) -> (reply: HttpReply)
    ensures
        reply@ == match answer@ {
            ResponsePayloadView::Success => HttpReplyView { status: 204, body: Seq::empty() },
            ResponsePayloadView::SuccessWithData(data) => HttpReplyView { status: 400, body: data },
            ResponsePayloadView::Failed(message) => HttpReplyView { status: 500, body: message },
        },
{
    match answer {
        ResponsePayload::Success => no_content(),
        ResponsePayload::SuccessWithData(data) => HttpReply { status: 400, body: data },
        ResponsePayload::Failed(message) => HttpReply { status: 500, body: message },
    }
}

/// The answer to a write or a deletion, given what the bus answered:
/// status 204 where it went through, status 500 with the message where it
/// failed.
pub fn reply_to_write(answer: ResponsePayload) -> (reply: HttpReply)
    ensures
        reply@ == match answer@ {
            ResponsePayloadView::Failed(message) => HttpReplyView { status: 500, body: message },
            _ => HttpReplyView { status: 204, body: Seq::empty() },
        },
{
    match answer {
        ResponsePayload::Failed(message) => HttpReply { status: 500, body: message },
        _ => no_content(),
    }
}

/// The answer to a call, once the called client has answered: status 204
/// for a success without data, status 400 with the data or the message
/// otherwise.
pub fn reply_to_call(payload: ResponsePayload) -> (reply: HttpReply)
    ensures
        reply@ == match payload@ {
            ResponsePayloadView::Success => HttpReplyView { status: 204, body: Seq::empty() },
            ResponsePayloadView::SuccessWithData(data) => HttpReplyView { status: 400, body: data },
            ResponsePayloadView::Failed(message) => HttpReplyView { status: 400, body: message },
        },
{
    match payload {
        ResponsePayload::Success => no_content(),
        ResponsePayload::SuccessWithData(data) => HttpReply { status: 400, body: data },
        ResponsePayload::Failed(message) => HttpReply { status: 400, body: message },
    }
}

/// The type of a server-sent event.
#[derive(Clone, Copy, Debug, PartialEq, Eq, Structural)]
pub enum SseKind {
    /// `text`: the payload is UTF-8 and is sent as it is.
    Text,
    /// `base64`: the payload is not UTF-8 and is sent in base64.
    Base64,
    /// `null`: a deletion; nothing is sent with it.
    Null,
}

/// The name of a type of server-sent event.
pub open spec fn kind_name(kind: SseKind) -> Seq<u8> {
    match kind {
        SseKind::Text => ascii("text"),
        SseKind::Base64 => ascii("base64"),
        SseKind::Null => ascii("null"),
    }
}

impl SseKind {
    /// The name of the type.
    pub fn name(&self) -> (name: Vec<u8>)
        ensures
            name@ == kind_name(*self),
    {
        proof {
            reveal_strlit("text");
            reveal_strlit("base64");
            reveal_strlit("null");
        }
        match self {
            SseKind::Text => bytes_of("text"),
            SseKind::Base64 => bytes_of("base64"),
            SseKind::Null => bytes_of("null"),
        }
    }
}

/// A server-sent event: its type and what is sent with it.
pub struct SseEvent {
    pub kind: SseKind,
    pub body: Vec<u8>,
}

/// What `base64::encode` makes of `data`: its base64 text in the standard
/// alphabet, with padding.
pub uninterp spec fn base64_text(data: Seq<u8>) -> Seq<u8>;

/// `base64::encode`: the base64 text of `data`. The call panics where the
/// length of the text does not fit a machine word, which the requirement
/// leaves out.
#[verifier::external_body]
fn base64_encode(data: &[u8]) -> (text: Vec<u8>)
    requires
        data@.len() / 3 * 4 + 4 <= usize::MAX,
    ensures
        text@ == base64_text(data@),
{
    base64::encode(data).into_bytes()
}

/// `std::str::from_utf8`: whether `data` is UTF-8.
#[verifier::external_body]
fn is_utf8(data: &[u8]) -> (valid: bool)
    ensures
        valid == valid_utf8(data@),
{
    std::str::from_utf8(data).is_ok()
}

/// Whether `data` is short enough to be put in base64.
pub open spec fn fits_base64(data: Option<Seq<u8>>) -> bool {
    data matches Some(bytes) ==> bytes.len() / 3 * 4 + 4 <= usize::MAX
}

/// The event that a type and a body make.
pub open spec fn event_view(event: SseEvent) -> (SseKind, Seq<u8>) {
    (event.kind, event.body@)
}

/// What is sent for a publication, given whether its payload is UTF-8 and
/// the base64 text of the payload: the payload itself where it is UTF-8,
/// its base64 text where it is not, and nothing for a deletion.
pub open spec fn event_of(data: Option<Seq<u8>>, utf8: bool, encoded: Seq<u8>) -> (
    SseKind,
    Seq<u8>,
) {
    match data {
        None => (SseKind::Null, Seq::empty()),
        Some(bytes) => if utf8 {
            (SseKind::Text, bytes)
        } else {
            (SseKind::Base64, encoded)
        },
    }
}

/// The server-sent event of a publication, given whether its payload is
/// UTF-8 and the base64 text of the payload.
pub fn event_with(data: Option<&[u8]>, utf8: bool, encoded: Vec<u8>) -> (event: SseEvent)
    ensures
        event_view(event) == event_of(crate::entity::slice_view(data), utf8, encoded@),
{
    match data {
        None => SseEvent { kind: SseKind::Null, body: Vec::new() },
        Some(bytes) => {
            if utf8 {
                SseEvent { kind: SseKind::Text, body: slice_to_vec(bytes) }
            } else {
                SseEvent { kind: SseKind::Base64, body: encoded }
            }
        },
    }
}

/// The server-sent event of a publication.
pub fn sse_event(data: Option<&[u8]>) -> (event: SseEvent)
    requires
        fits_base64(crate::entity::slice_view(data)),
    ensures
        event_view(event) == match data {
            Some(bytes) => event_of(Some(bytes@), valid_utf8(bytes@), base64_text(bytes@)),
            None => event_of(None, true, Seq::empty()),
        },
{
    match data {
        None => event_with(data, true, Vec::new()),
        Some(bytes) => {
            if is_utf8(bytes) {
                event_with(data, true, Vec::new())
            } else {
                event_with(data, false, base64_encode(bytes))
            }
        },
    }
}

} // verus!
