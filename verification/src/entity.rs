//! Entities: what a name in the bus stands for, and the state that the bus
//! keeps for one client connection.
//!
//! An `ExternalEntity` does no input or output. Where an operation has
//! something to say to the client, it returns the frame; where it changes
//! something that others may observe, it returns the publication.

use crate::broker::{EventKey, EventReceiver, NotifyReceiver};
use crate::packet::{Response, ResponseKind, ResponsePayload, ResponsePayloadView, ResponseView};
use crate::short_text::ShortText;
use crate::table::Table;
use crate::utils::{
    ascii, bytes_of, parse_short_text, short_text_bytes, write_all, DecodeError,
    Decoder, DecoderUtils, Encoder, EncoderUtils, Parsed, RandomKey, Reader,
};
use std::collections::BTreeMap;
use vstd::prelude::*;
use vstd::slice::slice_to_vec;

verus! {

/// The name under which an entity is known inside the bus. It stays the
/// same for as long as the entity lives and is not given to another.
pub type EntityId = u64;

/// Who may read and write a key of an entity.
#[derive(PartialEq, Eq, Clone, Copy, Debug, Structural)]
pub enum AccessTag {
    /// Only the owner reads and writes.
    Private,
    /// Everyone reads, only the owner writes.
    Protected,
    /// Everyone reads and writes.
    Public,
}

impl View for AccessTag {
    type V = AccessTag;

    open spec fn view(&self) -> AccessTag {
        *self
    }
}

/// The name of an access tag.
pub open spec fn tag_name(tag: AccessTag) -> Seq<u8> {
    match tag {
        AccessTag::Private => ascii("private"),
        AccessTag::Protected => ascii("protected"),
        AccessTag::Public => ascii("public"),
    }
}

/// An access tag on the wire: its name as a short text.
pub open spec fn tag_bytes(tag: AccessTag) -> Seq<u8> {
    short_text_bytes(tag_name(tag))
}

/// The access tag that `name` is the name of.
pub open spec fn tag_named(name: Seq<u8>) -> Option<AccessTag> {
    if name == tag_name(AccessTag::Private) {
        Some(AccessTag::Private)
    } else if name == tag_name(AccessTag::Protected) {
        Some(AccessTag::Protected)
    } else if name == tag_name(AccessTag::Public) {
        Some(AccessTag::Public)
    } else {
        None
    }
}

/// The access tag at the front of `input`.
pub open spec fn parse_tag(input: Seq<u8>) -> Parsed<AccessTag> {
    match parse_short_text(input) {
        Ok((name, taken)) => match tag_named(name) {
            Some(tag) => Ok((tag, taken)),
            None => Err(DecodeError::Unexcepted),
        },
        Err(e) => Err(e),
    }
}

impl AccessTag {
    /// The name of the tag.
    pub fn name(&self) -> (name: ShortText)
        ensures
            name@ == tag_name(*self),
    {
        proof {
            reveal_strlit("private");
            reveal_strlit("protected");
            reveal_strlit("public");
        }
        match self {
            AccessTag::Private => ShortText::build(bytes_of("private").as_slice()),
            AccessTag::Protected => ShortText::build(bytes_of("protected").as_slice()),
            AccessTag::Public => ShortText::build(bytes_of("public").as_slice()),
        }
    }

    /// The tag that `name` is the name of.
    pub fn named(name: &ShortText) -> (tag: Option<AccessTag>)
        ensures
            tag == tag_named(name@),
    {
        proof {
            reveal_strlit("private");
            reveal_strlit("protected");
            reveal_strlit("public");
        }
        if name.eq_bytes(bytes_of("private").as_slice()) {
            Some(AccessTag::Private)
        } else if name.eq_bytes(bytes_of("protected").as_slice()) {
            Some(AccessTag::Protected)
        } else if name.eq_bytes(bytes_of("public").as_slice()) {
            Some(AccessTag::Public)
        } else {
            None
        }
    }
}

impl Encoder<AccessTag> for Vec<u8> {
    open spec fn encoding(data: &AccessTag) -> Seq<u8> {
        tag_bytes(*data)
    }

    fn encode(&mut self, data: AccessTag) {
        let name = data.name();
        self.encode_short_text(&name);
    }
}

impl<'a> Decoder<AccessTag> for Reader<'a> {
    open spec fn parsing(input: Seq<u8>) -> Parsed<AccessTag> {
        parse_tag(input)
    }

    fn decode(&mut self) -> (value: Result<AccessTag, DecodeError>) {
        let mut probe = *self;
        let name = match probe.decode_short_text() {
            Ok(name) => name,
            Err(e) => {
                return Err(e);
            },
        };
        match AccessTag::named(&name) {
            Some(tag) => {
                *self = probe;
                Ok(tag)
            },
            None => Err(DecodeError::Unexcepted),
        }
    }
}

/// Why an entity did not do what it was asked.
#[derive(PartialEq, Eq, Clone, Copy, Debug, Structural)]
pub enum EntityError {
    /// `not found`: there is no such key.
    NotFound,
    /// `not allowed`: the key may not be read.
    NotAllowed,
    /// `not allowned`: the key may not be written, or the name is another's.
    NotAllowned,
    /// `duplicated`: the name is taken.
    Duplicated,
    /// `too many names`: the entity has a name.
    TooManyNames,
    /// `not supported`: the entity takes no calls.
    NotSupported,
    /// `no free call id`: every responder id is in use.
    Exhausted,
    /// `no name`: the entity has no name to publish under.
    NoName,
    /// `target not found`: the name stands for no entity.
    TargetNotFound,
    /// `Unknown command`: the command token is not one of the protocol.
    UnknownCommand,
}

/// What a client is told of an error, in ASCII.
pub open spec fn error_text(error: EntityError) -> Seq<u8> {
    match error {
        EntityError::NotFound => ascii("not found"),
        EntityError::NotAllowed => ascii("not allowed"),
        EntityError::NotAllowned => ascii("not allowned"),
        EntityError::Duplicated => ascii("duplicated"),
        EntityError::TooManyNames => ascii("too many names"),
        EntityError::NotSupported => ascii("not supported"),
        EntityError::Exhausted => ascii("no free call id"),
        EntityError::NoName => ascii("no name"),
        EntityError::TargetNotFound => ascii("target not found"),
        EntityError::UnknownCommand => ascii("Unknown command"),
    }
}

impl EntityError {
    /// What a client is told of the error.
    pub fn message(&self) -> (text: Vec<u8>)
        ensures
            text@ == error_text(*self),
    {
        proof {
            reveal_strlit("not found");
            reveal_strlit("not allowed");
            reveal_strlit("not allowned");
            reveal_strlit("duplicated");
            reveal_strlit("too many names");
            reveal_strlit("not supported");
            reveal_strlit("no free call id");
            reveal_strlit("no name");
            reveal_strlit("target not found");
            reveal_strlit("Unknown command");
        }
        match self {
            EntityError::NotFound => bytes_of("not found"),
            EntityError::NotAllowed => bytes_of("not allowed"),
            EntityError::NotAllowned => bytes_of("not allowned"),
            EntityError::Duplicated => bytes_of("duplicated"),
            EntityError::TooManyNames => bytes_of("too many names"),
            EntityError::NotSupported => bytes_of("not supported"),
            EntityError::Exhausted => bytes_of("no free call id"),
            EntityError::NoName => bytes_of("no name"),
            EntityError::TargetNotFound => bytes_of("target not found"),
            EntityError::UnknownCommand => bytes_of("Unknown command"),
        }
    }
}

/// A value with its access tag. Without a value, the key is there only to
/// carry the tag.
pub struct ValueWithAccess(pub Option<Vec<u8>>, pub AccessTag);

/// What a `ValueWithAccess` holds.
pub type Cell = (Option<Seq<u8>>, AccessTag);

/// What an optional vector holds.
pub open spec fn bytes_view(data: Option<Vec<u8>>) -> Option<Seq<u8>> {
    match data {
        Some(bytes) => Some(bytes@),
        None => None,
    }
}

/// What an optional slice holds.
pub open spec fn slice_view(data: Option<&[u8]>) -> Option<Seq<u8>> {
    match data {
        Some(bytes) => Some(bytes@),
        None => None,
    }
}

impl View for ValueWithAccess {
    type V = Cell;

    open spec fn view(&self) -> Cell {
        (bytes_view(self.0), self.1)
    }
}

/// Something to publish on a broker: the topic and the data, where `None`
/// stands for a deletion.
pub struct Publication {
    pub key: EventKey,
    pub data: Option<Vec<u8>>,
}

/// What a `Publication` holds.
pub struct PublicationView {
    pub key: (Seq<u8>, Seq<u8>),
    pub data: Option<Seq<u8>>,
}

impl View for Publication {
    type V = PublicationView;

    open spec fn view(&self) -> PublicationView {
        PublicationView { key: self.key@, data: bytes_view(self.data) }
    }
}

/// What an optional publication holds.
pub open spec fn publication_view(publication: Option<Publication>) -> Option<PublicationView> {
    match publication {
        Some(p) => Some(p@),
        None => None,
    }
}

/// What an entity named `name` publishes when its key `key` changes to
/// `data`: nothing while it has no name.
pub open spec fn change_of(name: Option<Seq<u8>>, key: Seq<u8>, data: Option<Seq<u8>>) -> Option<
    PublicationView,
> {
    match name {
        Some(owner) => Some(PublicationView { key: (owner, key), data }),
        None => None,
    }
}

/// The payload of the frame that hands a publication to a subscriber.
pub open spec fn stream_item(data: Option<Seq<u8>>) -> ResponsePayloadView {
    match data {
        Some(bytes) => ResponsePayloadView::SuccessWithData(bytes),
        None => ResponsePayloadView::Success,
    }
}

/// What an optional response holds.
pub open spec fn response_view(response: Option<Response>) -> Option<ResponseView> {
    match response {
        Some(r) => Some(r@),
        None => None,
    }
}

/// The frame that hands the publication `data` to a subscriber whose
/// subscriptions are `streams`, where it has one on the topic `key`.
pub open spec fn stream_frame(
    streams: Map<(Seq<u8>, Seq<u8>), u32>,
    key: (Seq<u8>, Seq<u8>),
    data: Option<Seq<u8>>,
) -> Option<ResponseView> {
    if streams.contains_key(key) {
        Some(ResponseView { reqid: streams[key], kind: ResponseKind::NEXT, payload: stream_item(data) })
    } else {
        None
    }
}

/// A copy of `data`.
pub fn copy_bytes(data: Option<&[u8]>) -> (copy: Option<Vec<u8>>)
    ensures
        bytes_view(copy) == slice_view(data),
{
    match data {
        Some(bytes) => Some(slice_to_vec(bytes)),
        None => None,
    }
}

/// The values of a key/value store, each as what it holds.
pub open spec fn cells(store: Map<Seq<u8>, ValueWithAccess>) -> Map<Seq<u8>, Cell> {
    store.map_values(|value: ValueWithAccess| value@)
}

/// The state of the entity of one client connection.
pub struct ExternalEntity {
    name: Option<ShortText>,
    kvstore: Table<ShortText, ValueWithAccess>,
    pending_call: BTreeMap<u32, u32>,
    call_record: BTreeMap<u32, u64>,
    notify_subscribe: Table<EventKey, u32>,
    event_subscribe: Table<EventKey, u32>,
}

/// What an `ExternalEntity` holds.
#[verifier::ext_equal]
pub struct ExternalEntityView {
    /// The name under which the entity is registered, once it is.
    pub name: Option<Seq<u8>>,
    /// The key/value store.
    pub kvstore: Map<Seq<u8>, Cell>,
    /// The keys of the store, in the order in which they came.
    pub keys: Seq<Seq<u8>>,
    /// For each call that the entity made and that is not answered: the
    /// request id of the client under the responder id of the call.
    pub pending_call: Map<u32, u32>,
    /// For each call that was made on the entity and that it has not
    /// answered: the calling entity under the responder id of the call.
    pub call_record: Map<u32, u64>,
    /// The request id of the stream of each topic of notifications that
    /// the entity listens to.
    pub notify_subscribe: Map<(Seq<u8>, Seq<u8>), u32>,
    /// The request id of the stream of each topic of events that the
    /// entity observes.
    pub event_subscribe: Map<(Seq<u8>, Seq<u8>), u32>,
}

impl View for ExternalEntity {
    type V = ExternalEntityView;

    closed spec fn view(&self) -> ExternalEntityView {
        ExternalEntityView {
            name: match self.name {
                Some(name) => Some(name@),
                None => None,
            },
            kvstore: cells(self.kvstore@),
            keys: self.kvstore.keys(),
            pending_call: self.pending_call@,
            call_record: self.call_record@,
            notify_subscribe: self.notify_subscribe@,
            event_subscribe: self.event_subscribe@,
        }
    }
}

/// What a remote `get` of `key` answers on a store.
pub open spec fn remote_get(store: Map<Seq<u8>, Cell>, key: Seq<u8>) -> Result<
    Option<Seq<u8>>,
    EntityError,
> {
    if !store.contains_key(key) {
        Err(EntityError::NotFound)
    } else if store[key].1 == AccessTag::Private {
        Err(EntityError::NotAllowed)
    } else {
        Ok(store[key].0)
    }
}

/// Whether a remote `set` or `del` of `key` is let through on a store, and
/// the error where it is not.
pub open spec fn remote_write(store: Map<Seq<u8>, Cell>, key: Seq<u8>) -> Result<(), EntityError> {
    if !store.contains_key(key) {
        Err(EntityError::NotFound)
    } else if store[key].1 != AccessTag::Public {
        Err(EntityError::NotAllowned)
    } else {
        Ok(())
    }
}

/// A call on an entity that was let through: what the caller has to note
/// and what the called client is sent.
pub struct CallPlan {
    /// The request id under which the caller made the call.
    pub reqid: u32,
    /// The responder id that the call was given.
    pub rid: u32,
    /// The `CALL` frame for the client of the called entity.
    pub frame: Response,
}

/// The payload of a `CALL` frame: the key as a short text, then the bytes
/// of the call as they are.
pub open spec fn call_payload(key: Seq<u8>, val: Seq<u8>) -> Seq<u8> {
    short_text_bytes(key) + val
}

/// The answer to a call, on its way back to the entity that made the call.
pub struct Forward {
    /// The entity that made the call.
    pub to: EntityId,
    /// The responder id of the call.
    pub rid: u32,
    /// The answer.
    pub payload: ResponsePayload,
}

/// Anything that a name of the bus stands for: a store of keys that others
/// read, write, delete and list, that may take calls, and that is told the
/// name under which it is bound. What an operation changes for others to
/// observe is returned for publication.
pub trait Entity {
    fn update_name(&mut self, name: Option<&ShortText>);

    fn get(&self, sender: Option<EntityId>, key: &ShortText) -> Result<Option<Vec<u8>>, EntityError>;

    fn set(&mut self, sender: Option<EntityId>, key: &ShortText, val: Vec<u8>) -> Result<
        Option<Publication>,
        EntityError,
    >;

    fn del(&mut self, sender: Option<EntityId>, key: &ShortText) -> Result<
        Option<Publication>,
        EntityError,
    >;

    fn keys(&self, sender: Option<EntityId>) -> Result<Vec<(ShortText, AccessTag)>, EntityError>;

    fn call(&mut self, sender: EntityId, reqid: u32, key: &ShortText, val: &[u8]) -> Result<
        CallPlan,
        EntityError,
    >;
}

/// What a list of keys with their tags holds.
pub open spec fn listing_view(list: Seq<(ShortText, AccessTag)>) -> Seq<(Seq<u8>, AccessTag)> {
    list.map_values(|item: (ShortText, AccessTag)| (item.0@, item.1))
}

/// The keys of the entity of a client, each with its tag, in the order in
/// which the keys came.
pub open spec fn entity_listing(entity: ExternalEntityView) -> Seq<(Seq<u8>, AccessTag)> {
    Seq::new(entity.keys.len(), |i: int| (entity.keys[i], entity.kvstore[entity.keys[i]].1))
}

/// The side of an entity that makes calls: it notes the calls that it has
/// open and takes their answers.
pub trait EntityReceiver {
    fn assign_call_ids(&mut self, reqid: u32, resid: u32);

    fn remove_call_id(&mut self, resid: u32);

    fn call_resp(&mut self, resid: u32, val: ResponsePayload) -> Option<Response>;
}

/// What the entity of a connection that has just been made holds: nothing.
pub open spec fn fresh_entity() -> ExternalEntityView {
    ExternalEntityView {
        name: None,
        kvstore: Map::empty(),
        keys: Seq::empty(),
        pending_call: Map::empty(),
        call_record: Map::empty(),
        notify_subscribe: Map::empty(),
        event_subscribe: Map::empty(),
    }
}

impl ExternalEntity {
    /// The state of a connection that has just been made.
    pub fn new() -> (entity: ExternalEntity)
        ensures
            entity@ == fresh_entity(),
    {
        let entity = ExternalEntity {
            name: None,
            kvstore: Table::new(),
            pending_call: BTreeMap::new(),
            call_record: BTreeMap::new(),
            notify_subscribe: Table::new(),
            event_subscribe: Table::new(),
        };
        assert(entity@.kvstore =~= Map::empty());
        entity
    }

    /// The name under which the entity is registered, once it is.
    pub fn get_name(&self) -> (name: Option<ShortText>)
        ensures
            name is Some == self@.name is Some,
            name matches Some(n) ==> self@.name == Some(n@),
    {
        self.name
    }

    fn item(data: Option<&[u8]>) -> (payload: ResponsePayload)
        ensures
            payload@ == stream_item(slice_view(data)),
    {
        match data {
            Some(bytes) => ResponsePayload::SuccessWithData(slice_to_vec(bytes)),
            None => ResponsePayload::Success,
        }
    }

    fn change(&self, key: &ShortText, data: Option<&[u8]>) -> (publication: Option<Publication>)
        ensures
            publication_view(publication) == change_of(self@.name, key@, slice_view(data)),
    {
        match self.name {
            Some(name) => Some(Publication { key: EventKey(name, *key), data: copy_bytes(data) }),
            None => None,
        }
    }

    /// Records a call by the entity `sender` under the responder id `rid`
    /// and makes the `CALL` frame for the client.
    pub fn call_with_id(&mut self, sender: EntityId, rid: u32, key: &ShortText, val: &[u8]) -> (frame: Response)
        requires
            !old(self)@.call_record.contains_key(rid),
        ensures
            final(self)@ == (ExternalEntityView {
                call_record: old(self)@.call_record.insert(rid, sender),
                ..old(self)@
            }),
            frame@ == (ResponseView {
                reqid: rid,
                kind: ResponseKind::CALL,
                payload: ResponsePayloadView::SuccessWithData(call_payload(key@, val@)),
            }),
    {
        let mut buf: Vec<u8> = Vec::new();
        buf.encode_short_text(key);
        write_all(&mut buf, val);
        assert(buf@ =~= call_payload(key@, val@));
        self.call_record.insert(rid, sender);
        Response::new_call(rid, ResponsePayload::SuccessWithData(buf))
    }

    /// Sets the tag of `key`. A key that is not there is made, without a
    /// value.
    pub fn set_acl(&mut self, key: &ShortText, acl: AccessTag)
        ensures
            final(self)@ == (ExternalEntityView {
                kvstore: old(self)@.kvstore.insert(
                    key@,
                    (
                        if old(self)@.kvstore.contains_key(key@) {
                            old(self)@.kvstore[key@].0
                        } else {
                            None
                        },
                        acl,
                    ),
                ),
                keys: if old(self)@.kvstore.contains_key(key@) {
                    old(self)@.keys
                } else {
                    old(self)@.keys.push(key@)
                },
                ..old(self)@
            }),
    {
        let value = self.get_private(key);
        let ghost held = bytes_view(value);
        self.kvstore.insert(*key, ValueWithAccess(value, acl));
        proof {
            assert(final(self)@.kvstore =~= old(self)@.kvstore.insert(key@, (held, acl)));
        }
    }

    /// A read of `key` by the client of the entity: the value, if there is
    /// one, whatever the tag.
    pub fn get_private(&self, key: &ShortText) -> (value: Option<Vec<u8>>)
        ensures
            bytes_view(value) == if self@.kvstore.contains_key(key@) {
                self@.kvstore[key@].0
            } else {
                None
            },
    {
        match self.kvstore.get(key) {
            Some(cell) => match &cell.0 {
                Some(bytes) => Some(slice_to_vec(bytes.as_slice())),
                None => None,
            },
            None => None,
        }
    }

    /// A write of `key` by the client of the entity: the key gets the
    /// value and becomes public, whatever it was. The change is returned
    /// for publication.
    pub fn set_private(&mut self, key: &ShortText, value: Vec<u8>) -> (publication: Option<
        Publication,
    >)
        ensures
            publication_view(publication) == change_of(old(self)@.name, key@, Some(value@)),
            final(self)@ == (ExternalEntityView {
                kvstore: old(self)@.kvstore.insert(key@, (Some(value@), AccessTag::Public)),
                keys: if old(self)@.kvstore.contains_key(key@) {
                    old(self)@.keys
                } else {
                    old(self)@.keys.push(key@)
                },
                ..old(self)@
            }),
    {
        let publication = self.change(key, Some(value.as_slice()));
        self.kvstore.insert(*key, ValueWithAccess(Some(value), AccessTag::Public));
        proof {
            assert(final(self)@.kvstore =~= old(self)@.kvstore.insert(
                key@,
                (Some(value@), AccessTag::Public),
            ));
        }
        publication
    }

    /// A deletion of `key` by the client of the entity: the key goes, with
    /// its tag. The change is returned for publication.
    pub fn del_private(&mut self, key: &ShortText) -> (publication: Option<Publication>)
        ensures
            publication_view(publication) == change_of(old(self)@.name, key@, None),
            final(self)@ == (ExternalEntityView {
                kvstore: old(self)@.kvstore.remove(key@),
                keys: old(self)@.keys.filter(|k: Seq<u8>| k != key@),
                ..old(self)@
            }),
    {
        let publication = self.change(key, None);
        self.kvstore.remove(key);
        proof {
            assert(final(self)@.kvstore =~= old(self)@.kvstore.remove(key@));
        }
        publication
    }

    /// Takes the answer of the client to the call that it knows under
    /// `reqid`. Where such a call is recorded, the record goes and the
    /// answer is returned on its way to the entity that made the call.
    pub fn recv_call_resp(&mut self, reqid: u32, payload: ResponsePayload) -> (forward: Option<
        Forward,
    >)
        ensures
            final(self)@ == (ExternalEntityView {
                call_record: old(self)@.call_record.remove(reqid),
                ..old(self)@
            }),
            forward is Some == old(self)@.call_record.contains_key(reqid),
            forward matches Some(f) ==> f.to == old(self)@.call_record[reqid] && f.rid == reqid
                && f.payload@ == payload@,
    {
        match self.call_record.remove(&reqid) {
            Some(to) => Some(Forward { to, rid: reqid, payload }),
            None => None,
        }
    }

    /// Notes that events on the topic `ek` go to the client under the
    /// request id `reqid`.
    pub fn register_event(&mut self, reqid: u32, ek: EventKey)
        ensures
            final(self)@ == (ExternalEntityView {
                event_subscribe: old(self)@.event_subscribe.insert(ek@, reqid),
                ..old(self)@
            }),
    {
        self.event_subscribe.insert(ek, reqid);
    }

    /// Notes that notifications on the topic `ek` go to the client under
    /// the request id `reqid`.
    pub fn register_notify(&mut self, reqid: u32, ek: EventKey)
        ensures
            final(self)@ == (ExternalEntityView {
                notify_subscribe: old(self)@.notify_subscribe.insert(ek@, reqid),
                ..old(self)@
            }),
    {
        self.notify_subscribe.insert(ek, reqid);
    }
}

impl Entity for ExternalEntity {
    /// Takes note of the name under which the registry bound the entity.
    fn update_name(&mut self, name: Option<&ShortText>)
        ensures
            final(self)@ == (ExternalEntityView {
                name: match name {
                    Some(n) => Some(n@),
                    None => None,
                },
                ..old(self)@
            }),
    {
        self.name = match name {
            Some(n) => Some(*n),
            None => None,
        };
    }

    /// A read of `key` by another entity: the value, where the key is
    /// there and is not private.
    fn get(&self, _sender: Option<EntityId>, key: &ShortText) -> (value: Result<
        Option<Vec<u8>>,
        EntityError,
    >)
        ensures
            match remote_get(self@.kvstore, key@) {
                Ok(held) => value is Ok && bytes_view(value->Ok_0) == held,
                Err(e) => value == Err::<Option<Vec<u8>>, EntityError>(e),
            },
    {
        match self.kvstore.get(key) {
            Some(cell) => {
                match cell.1 {
                    AccessTag::Private => Err(EntityError::NotAllowed),
                    _ => Ok(
                        match &cell.0 {
                            Some(bytes) => Some(slice_to_vec(bytes.as_slice())),
                            None => None,
                        },
                    ),
                }
            },
            None => Err(EntityError::NotFound),
        }
    }

    /// A write of `key` by another entity: let through where the key is
    /// there and is public. The change is returned for publication.
    fn set(&mut self, _sender: Option<EntityId>, key: &ShortText, val: Vec<u8>) -> (done: Result<
        Option<Publication>,
        EntityError,
    >)
        ensures
            match remote_write(old(self)@.kvstore, key@) {
                Ok(()) => done is Ok && publication_view(done->Ok_0) == change_of(
                    old(self)@.name,
                    key@,
                    Some(val@),
                ) && final(self)@ == (ExternalEntityView {
                    kvstore: old(self)@.kvstore.insert(key@, (Some(val@), AccessTag::Public)),
                    ..old(self)@
                }),
                Err(e) => done == Err::<Option<Publication>, EntityError>(e) && final(self)@ == old(self)@,
            },
    {
        match self.kvstore.get(key) {
            Some(cell) => {
                match cell.1 {
                    AccessTag::Public => {},
                    _ => {
                        return Err(EntityError::NotAllowned);
                    },
                }
            },
            None => {
                return Err(EntityError::NotFound);
            },
        }
        let publication = self.change(key, Some(val.as_slice()));
        self.kvstore.insert(*key, ValueWithAccess(Some(val), AccessTag::Public));
        proof {
            assert(final(self)@.kvstore =~= old(self)@.kvstore.insert(
                key@,
                (Some(val@), AccessTag::Public),
            ));
        }
        Ok(publication)
    }

    /// A deletion of `key` by another entity: let through where the key is
    /// there and is public. The value goes, the key and its tag stay. The
    /// change is returned for publication.
    fn del(&mut self, _sender: Option<EntityId>, key: &ShortText) -> (done: Result<
        Option<Publication>,
        EntityError,
    >)
        ensures
            match remote_write(old(self)@.kvstore, key@) {
                Ok(()) => done is Ok && publication_view(done->Ok_0) == change_of(
                    old(self)@.name,
                    key@,
                    None,
                ) && final(self)@ == (ExternalEntityView {
                    kvstore: old(self)@.kvstore.insert(key@, (None, AccessTag::Public)),
                    ..old(self)@
                }),
                Err(e) => done == Err::<Option<Publication>, EntityError>(e) && final(self)@ == old(self)@,
            },
    {
        match self.kvstore.get(key) {
            Some(cell) => {
                match cell.1 {
                    AccessTag::Public => {},
                    _ => {
                        return Err(EntityError::NotAllowned);
                    },
                }
            },
            None => {
                return Err(EntityError::NotFound);
            },
        }
        let publication = self.change(key, None);
        self.kvstore.insert(*key, ValueWithAccess(None, AccessTag::Public));
        proof {
            assert(final(self)@.kvstore =~= old(self)@.kvstore.insert(
                key@,
                (None, AccessTag::Public),
            ));
        }
        Ok(publication)
    }

    /// Every key of the store with its tag, in the order in which the keys
    /// came.
    fn keys(&self, _sender: Option<EntityId>) -> (listed: Result<
        Vec<(ShortText, AccessTag)>,
        EntityError,
    >)
        ensures
            listed is Ok,
            listing_view(listed->Ok_0@) == entity_listing(self@),
    {
        let mut list: Vec<(ShortText, AccessTag)> = Vec::new();
        let count = self.kvstore.len();
        let mut i: usize = 0;
        while i < count
            invariant
                i <= count,
                count == self.kvstore.keys().len(),
                list@.len() == i,
                forall|j: int|
                    0 <= j < i ==> (#[trigger] list@[j]).0@ == self@.keys[j] && self@.kvstore.contains_key(
                        self@.keys[j],
                    ) && list@[j].1 == self@.kvstore[self@.keys[j]].1,
            decreases count - i,
        {
            let (key, cell) = self.kvstore.entry_at(i);
            list.push((*key, cell.1));
            i += 1;
        }
        proof {
            assert(listing_view(list@) =~= entity_listing(self@));
        }
        Ok(list)
    }

    /// A call by the entity `sender`, made under its request id `reqid`:
    /// the call is given a responder id that no call on this entity has,
    /// found from a random start, and is recorded under it. It fails only
    /// where every responder id is in use.
    fn call(&mut self, sender: EntityId, reqid: u32, key: &ShortText, val: &[u8]) -> (plan: Result<
        CallPlan,
        EntityError,
    >)
        ensures
            plan is Err <==> forall|rid: u32| old(self)@.call_record.contains_key(rid),
            plan matches Err(e) ==> e == EntityError::Exhausted && final(self)@ == old(self)@,
            plan matches Ok(p) ==> p.reqid == reqid && !old(self)@.call_record.contains_key(p.rid)
                && final(self)@ == (ExternalEntityView {
                call_record: old(self)@.call_record.insert(p.rid, sender),
                ..old(self)@
            }) && p.frame@ == (ResponseView {
                reqid: p.rid,
                kind: ResponseKind::CALL,
                payload: ResponsePayloadView::SuccessWithData(call_payload(key@, val@)),
            }),
    {
        let found = self.call_record.gen_random_key();
        proof {
            if found is None {
                assert forall|rid: u32| old(self)@.call_record.contains_key(rid) by {
                    assert(self.call_record.has_key(rid));
                }
            } else {
                assert(!self.call_record.has_key(found->Some_0));
            }
        }
        match found {
            Some(rid) => {
                let frame = self.call_with_id(sender, rid, key, val);
                Ok(CallPlan { reqid, rid, frame })
            },
            None => Err(EntityError::Exhausted),
        }
    }
}

impl EntityReceiver for ExternalEntity {
    /// Notes that the call that this entity made under the request id
    /// `reqid` is known to the called entity under `resid`.
    fn assign_call_ids(&mut self, reqid: u32, resid: u32)
        ensures
            final(self)@ == (ExternalEntityView {
                pending_call: old(self)@.pending_call.insert(resid, reqid),
                ..old(self)@
            }),
    {
        self.pending_call.insert(resid, reqid);
    }

    /// Forgets the call that is known to the called entity under `resid`.
    fn remove_call_id(&mut self, resid: u32)
        ensures
            final(self)@ == (ExternalEntityView {
                pending_call: old(self)@.pending_call.remove(resid),
                ..old(self)@
            }),
    {
        self.pending_call.remove(&resid);
    }

    /// Takes the answer `val` to the call that is known to the called
    /// entity under `resid`. Where this entity made such a call, the call is
    /// forgotten and the `RESP` frame for the client is returned, under the
    /// request id of the call.
    fn call_resp(&mut self, resid: u32, val: ResponsePayload) -> (frame: Option<Response>)
        ensures
            final(self)@ == (ExternalEntityView {
                pending_call: old(self)@.pending_call.remove(resid),
                ..old(self)@
            }),
            response_view(frame) == if old(self)@.pending_call.contains_key(resid) {
                Some(
                    ResponseView {
                        reqid: old(self)@.pending_call[resid],
                        kind: ResponseKind::RESP,
                        payload: val@,
                    },
                )
            } else {
                None
            },
    {
        match self.pending_call.remove(&resid) {
            Some(reqid) => Some(Response::new_resp(reqid, val)),
            None => None,
        }
    }
}

impl NotifyReceiver for ExternalEntity {
    /// The `NEXT` frame that hands a notification on the topic `key` to the
    /// client, where the entity listens to the topic.
    fn on_notify(&self, key: &EventKey, data: Option<&[u8]>) -> (frame: Option<Response>)
        ensures
            response_view(frame) == stream_frame(self@.notify_subscribe, key@, slice_view(data)),
    {
        match self.notify_subscribe.get(key) {
            Some(id) => Some(Response::new_next(*id, Self::item(data))),
            None => None,
        }
    }
}

impl EventReceiver for ExternalEntity {
    /// The `NEXT` frame that hands an event on the topic `key` to the
    /// client, where the entity observes the topic.
    fn on_event(&self, key: &EventKey, data: Option<&[u8]>) -> (frame: Option<Response>)
        ensures
            response_view(frame) == stream_frame(self@.event_subscribe, key@, slice_view(data)),
    {
        match self.event_subscribe.get(key) {
            Some(id) => Some(Response::new_next(*id, Self::item(data))),
            None => None,
        }
    }
}

} // verus!
