//! The bus: the registry, the two brokers, the shared bucket and the
//! entities of the connected clients, as one state that each request of a
//! client moves on.
//!
//! The bus reads no socket and writes none. A request goes in with the
//! entity of the connection that it came on; what comes out is the frames
//! to write, each with the entity whose connection it goes to, and the
//! publications to offer to the alternative subscribers.
//!
//! A client is held by its lease. Whoever serves the connection keeps the
//! lease; the bus keeps it weakly, and lets the client go when it finds at a
//! `sweep` that nobody holds the lease any more.

use crate::broker::{
    copy_ids, list_at, settled, swept, with_subscriber, Broker, BrokerView, EventKey,
    EventReceiver, NotifyReceiver,
};
use crate::entity::{
    bytes_view, call_payload, change_of, entity_listing, error_text, fresh_entity, listing_view,
    publication_view, remote_get,
    remote_write, stream_frame, tag_bytes, AccessTag, Entity, EntityError, EntityId, EntityReceiver,
    ExternalEntity, ExternalEntityView, Publication, PublicationView,
};
use crate::gateway::{command_of, parse_command, Command, CommandView};
use crate::packet::{Request, RequestView};
use crate::utils::{short_text_bytes, Encoder, EncoderUtils};
use crate::packet::{Response, ResponseKind, ResponsePayload, ResponsePayloadView, ResponseView};
use crate::registry::{
    bidirectional, binding_error, bound, forgotten, installed, installed_names, name_event,
    registry_listing, release_error, released, Binding,
    Registry, RegistryView, StaticRegistryItem,
};
use crate::shared::{
    bucket_name, shared_event, shared_listing, shared_name, SharedStorage, SharedView,
};
use crate::short_text::ShortText;
use std::collections::HashMap;
use std::sync::{Arc, Weak};
use vstd::prelude::*;
use weak_table::WeakValueHashMap;

verus! {

/// The entity of the registry.
pub const REGISTRY_ID: EntityId = 0;

/// The entity of the shared bucket.
pub const SHARED_ID: EntityId = 1;

/// The two kinds of publication, each with its broker.
#[derive(Clone, Copy, Debug, PartialEq, Eq, Structural)]
pub enum BrokerKind {
    /// What happens to keys and names.
    Event,
    /// What a client publishes with `NOTIFY`.
    Notify,
}

/// A publication for the alternative subscribers of a topic.
pub struct Offer {
    /// The broker of the topic.
    pub kind: BrokerKind,
    /// The topic.
    pub key: EventKey,
    /// The alternative subscribers, in the order in which they are asked.
    pub to: Vec<u64>,
    /// What is published; `None` stands for a deletion.
    pub data: Option<Vec<u8>>,
}

/// What an `Offer` holds.
pub struct OfferView {
    pub kind: BrokerKind,
    pub key: (Seq<u8>, Seq<u8>),
    pub to: Seq<u64>,
    pub data: Option<Seq<u8>>,
}

impl View for Offer {
    type V = OfferView;

    open spec fn view(&self) -> OfferView {
        OfferView { kind: self.kind, key: self.key@, to: self.to@, data: bytes_view(self.data) }
    }
}

/// What the bus asks of its surroundings after a request.
pub struct Reaction {
    /// The frames to write, in this order, each to the connection of the
    /// entity that it stands with. An entity that is gone is passed over.
    pub frames: Vec<(EntityId, Response)>,
    /// The publications to offer to alternative subscribers.
    pub offers: Vec<Offer>,
    /// Whether the connection that the request came on is to be closed.
    pub close: bool,
}

/// What a `Reaction` holds.
#[verifier::ext_equal]
pub struct ReactionView {
    pub frames: Seq<(EntityId, ResponseView)>,
    pub offers: Seq<OfferView>,
    pub close: bool,
}

impl View for Reaction {
    type V = ReactionView;

    open spec fn view(&self) -> ReactionView {
        ReactionView {
            frames: self.frames@.map_values(|frame: (EntityId, Response)| (frame.0, frame.1@)),
            offers: self.offers@.map_values(|offer: Offer| offer@),
            close: self.close,
        }
    }
}

/// Nothing to do.
pub open spec fn quiet() -> ReactionView {
    ReactionView { frames: Seq::empty(), offers: Seq::empty(), close: false }
}

/// Nothing to do but to close the connection.
pub open spec fn closing() -> ReactionView {
    ReactionView { frames: Seq::empty(), offers: Seq::empty(), close: true }
}

/// `so_far`, and then the answer `payload` to the request `reqid` of the
/// entity `conn`.
pub open spec fn answered(
    so_far: ReactionView,
    conn: EntityId,
    reqid: u32,
    payload: ResponsePayloadView,
) -> ReactionView {
    ReactionView {
        frames: so_far.frames.push(
            (conn, ResponseView { reqid, kind: ResponseKind::RESP, payload }),
        ),
        ..so_far
    }
}

/// The payload that tells a client of an error.
pub open spec fn failure(error: EntityError) -> ResponsePayloadView {
    ResponsePayloadView::Failed(error_text(error))
}

/// The payload that hands a value that may be missing to a client.
pub open spec fn found(value: Option<Seq<u8>>) -> ResponsePayloadView {
    match value {
        Some(bytes) => ResponsePayloadView::SuccessWithData(bytes),
        None => ResponsePayloadView::Success,
    }
}

impl Reaction {
    /// Nothing to do.
    pub fn new() -> (reaction: Reaction)
        ensures
            reaction@ == quiet(),
    {
        let reaction = Reaction { frames: Vec::new(), offers: Vec::new(), close: false };
        assert(reaction@.frames =~= Seq::empty());
        assert(reaction@.offers =~= Seq::empty());
        reaction
    }

    /// Adds a frame for the entity `to`.
    pub fn frame(&mut self, to: EntityId, response: Response)
        ensures
            final(self)@ == (ReactionView {
                frames: old(self)@.frames.push((to, response@)),
                ..old(self)@
            }),
    {
        self.frames.push((to, response));
        assert(final(self)@.frames =~= old(self)@.frames.push((to, response@)));
    }

    /// Adds the answer `payload` to the request `reqid` of the entity `conn`.
    pub fn answer(&mut self, conn: EntityId, reqid: u32, payload: ResponsePayload)
        ensures
            final(self)@ == answered(old(self)@, conn, reqid, payload@),
    {
        self.frame(conn, Response::new_resp(reqid, payload));
    }

    /// Adds the answer that tells the entity `conn` of `error`.
    pub fn fail(&mut self, conn: EntityId, reqid: u32, error: EntityError)
        ensures
            final(self)@ == answered(old(self)@, conn, reqid, failure(error)),
    {
        self.answer(conn, reqid, ResponsePayload::Failed(error.message()));
    }
}

/// What the holder of a connection keeps for as long as the connection
/// lives. The bus keeps each lease weakly: when the holder lets go of it,
/// the bus finds the entity gone at its next `sweep`.
pub struct Lease {
    /// The entity of the connection.
    pub id: EntityId,
}

/// `weak_table::WeakValueHashMap` from entities to weakly held leases. It
/// is kept out of sight of the verifier, which cannot take the weak pointers
/// in it; whether it still holds a lease is asked with `lease_held`.
#[verifier::external_body]
pub struct Leases {
    table: WeakValueHashMap<u64, Weak<Lease>>,
}

/// `WeakValueHashMap::new`: a table without leases.
#[verifier::external_body]
fn leases_new() -> Leases {
    Leases { table: WeakValueHashMap::new() }
}

/// `WeakValueHashMap::insert`: puts a weak pointer to `lease` under the
/// entity `id`.
#[verifier::external_body]
fn lease_insert(leases: &mut Leases, id: u64, lease: &Arc<Lease>) {
    leases.table.insert(id, lease.clone());
}

/// `WeakValueHashMap::contains_key`: whether the table has a lease under the
/// entity `id` that someone still holds. The answer goes by who holds what
/// at the moment of asking, so nothing is said of it.
#[verifier::external_body]
fn lease_held(leases: &Leases, id: u64) -> bool {
    leases.table.contains_key(&id)
}

/// The state of the bus.
pub struct Bus {
    registry: Registry,
    event_broker: Broker,
    notify_broker: Broker,
    shared: SharedStorage,
    entities: HashMap<u64, ExternalEntity>,
    leases: Leases,
    roster: Vec<u64>,
    next_id: u64,
}

/// What a `Bus` holds.
#[verifier::ext_equal]
pub struct BusView {
    /// The names.
    pub registry: RegistryView,
    /// The subscribers to events.
    pub events: BrokerView,
    /// The subscribers to notifications.
    pub notifies: BrokerView,
    /// The shared bucket.
    pub shared: SharedView,
    /// The entities of the connected clients.
    pub entities: Map<EntityId, ExternalEntityView>,
    /// The entities that were given a lease and were not let go since, in
    /// the order in which they came.
    pub roster: Seq<EntityId>,
    /// The entity that the next client gets.
    pub next_id: EntityId,
}

impl View for Bus {
    type V = BusView;

    closed spec fn view(&self) -> BusView {
        BusView {
            registry: self.registry@,
            events: self.event_broker@,
            notifies: self.notify_broker@,
            shared: self.shared@,
            entities: self.entities@.map_values(|entity: ExternalEntity| entity@),
            roster: self.roster@,
            next_id: self.next_id,
        }
    }
}

/// The broker of a kind of publication.
pub open spec fn broker_of(bus: BusView, kind: BrokerKind) -> BrokerView {
    match kind {
        BrokerKind::Event => bus.events,
        BrokerKind::Notify => bus.notifies,
    }
}

/// The streams that an entity has open for a kind of publication.
pub open spec fn streams_of(entity: ExternalEntityView, kind: BrokerKind) -> Map<
    (Seq<u8>, Seq<u8>),
    u32,
> {
    match kind {
        BrokerKind::Event => entity.event_subscribe,
        BrokerKind::Notify => entity.notify_subscribe,
    }
}

/// The frames that hand a publication to the subscribers `to`, in their
/// order: one for each that is connected and has a stream open on the topic.
pub open spec fn fanout(
    entities: Map<EntityId, ExternalEntityView>,
    kind: BrokerKind,
    to: Seq<u64>,
    key: (Seq<u8>, Seq<u8>),
    data: Option<Seq<u8>>,
) -> Seq<(EntityId, ResponseView)>
    decreases to.len(),
{
    if to.len() == 0 {
        Seq::empty()
    } else {
        let before = fanout(entities, kind, to.drop_last(), key, data);
        let id = to.last();
        if entities.contains_key(id) && stream_frame(streams_of(entities[id], kind), key, data)
            is Some {
            before.push((id, stream_frame(streams_of(entities[id], kind), key, data)->Some_0))
        } else {
            before
        }
    }
}

/// The offer of a publication to the alternative subscribers of its topic,
/// where the topic has any.
pub open spec fn offers_of(broker: BrokerView, kind: BrokerKind, publication: PublicationView) -> Seq<
    OfferView,
> {
    if list_at(broker.alternatives, publication.key).len() > 0 {
        seq![
            OfferView {
                kind,
                key: publication.key,
                to: list_at(broker.alternatives, publication.key),
                data: publication.data,
            },
        ]
    } else {
        Seq::empty()
    }
}

/// `so_far`, and then what a publication asks for: a frame for each
/// subscriber with a stream, and an offer to the alternative subscribers.
pub open spec fn published(
    bus: BusView,
    kind: BrokerKind,
    publication: PublicationView,
    so_far: ReactionView,
) -> ReactionView {
    ReactionView {
        frames: so_far.frames + fanout(
            bus.entities,
            kind,
            list_at(broker_of(bus, kind).subscribers, publication.key),
            publication.key,
            publication.data,
        ),
        offers: so_far.offers + offers_of(broker_of(bus, kind), kind, publication),
        close: so_far.close,
    }
}

/// `so_far`, and then what a publication that may be missing asks for.
pub open spec fn published_if(
    bus: BusView,
    kind: BrokerKind,
    publication: Option<PublicationView>,
    so_far: ReactionView,
) -> ReactionView {
    match publication {
        Some(p) => published(bus, kind, p, so_far),
        None => so_far,
    }
}

/// What comes of a command of the entity `conn`: what the command does
/// where the entity is that of a connected client, and nothing but the
/// closing of the connection where it is not.
pub open spec fn for_client(bus: BusView, conn: EntityId, step: (BusView, ReactionView)) -> (
    BusView,
    ReactionView,
) {
    if bus.entities.contains_key(conn) {
        step
    } else {
        (bus, closing())
    }
}

/// The bus with `entity` as the state of the entity `id`.
pub open spec fn with_entity(bus: BusView, id: EntityId, entity: ExternalEntityView) -> BusView {
    BusView { entities: bus.entities.insert(id, entity), ..bus }
}

impl Bus {
    /// Adds to `reaction` what `publication` asks for, where there is one.
    fn publish_if(
        &self,
        kind: BrokerKind,
        publication: &Option<Publication>,
        reaction: &mut Reaction,
    )
        ensures
            final(reaction)@ == published_if(
                self@,
                kind,
                publication_view(*publication),
                old(reaction)@,
            ),
    {
        match publication {
            Some(p) => {
                self.publish(kind, p, reaction);
            },
            None => {},
        }
    }

    /// Adds to `reaction` what `publication` asks for.
    fn publish(&self, kind: BrokerKind, publication: &Publication, reaction: &mut Reaction)
        ensures
            final(reaction)@ == published(self@, kind, publication@, old(reaction)@),
    {
        let broker = match kind {
            BrokerKind::Event => &self.event_broker,
            BrokerKind::Notify => &self.notify_broker,
        };
        let plan = broker.send(&publication.key);
        let ghost to = plan.subscribers@;
        let ghost key = publication.key@;
        let ghost data = bytes_view(publication.data);
        let ghost entities = self@.entities;
        let mut i: usize = 0;
        while i < plan.subscribers.len()
            invariant
                i <= plan.subscribers@.len(),
                to == plan.subscribers@,
                key == publication.key@,
                data == bytes_view(publication.data),
                entities == self@.entities,
                reaction@ == (ReactionView {
                    frames: old(reaction)@.frames + fanout(entities, kind, to.take(i as int), key, data),
                    ..old(reaction)@
                }),
            decreases plan.subscribers@.len() - i,
        {
            let id = plan.subscribers[i];
            proof {
                assert(to.take(i + 1).drop_last() =~= to.take(i as int));
                assert(to.take(i + 1).last() == id);
            }
            match self.entities.get(&id) {
                Some(entity) => {
                    let data = match &publication.data {
                        Some(bytes) => Some(bytes.as_slice()),
                        None => None,
                    };
                    let frame = match kind {
                        BrokerKind::Event => entity.on_event(&publication.key, data),
                        BrokerKind::Notify => entity.on_notify(&publication.key, data),
                    };
                    match frame {
                        Some(frame) => {
                            reaction.frame(id, frame);
                        },
                        None => {},
                    }
                },
                None => {},
            }
            proof {
                assert(reaction@.frames =~= old(reaction)@.frames + fanout(
                    entities,
                    kind,
                    to.take(i + 1),
                    key,
                    data,
                ));
            }
            i += 1;
        }
        proof {
            assert(to.take(i as int) =~= to);
        }
        if plan.alternatives.len() > 0 {
            let data = match &publication.data {
                Some(bytes) => Some(vstd::slice::slice_to_vec(bytes.as_slice())),
                None => None,
            };
            reaction.offers.push(
                Offer { kind, key: publication.key, to: plan.alternatives, data },
            );
            proof {
                assert(reaction@.offers =~= old(reaction)@.offers + offers_of(
                    broker_of(self@, kind),
                    kind,
                    publication@,
                ));
            }
        } else {
            proof {
                assert(reaction@.offers =~= old(reaction)@.offers + offers_of(
                    broker_of(self@, kind),
                    kind,
                    publication@,
                ));
            }
        }
    }
}

/// What is installed in the registry of a bus: its own name and the name of
/// the shared bucket.
pub open spec fn first_names() -> Map<Seq<u8>, crate::registry::Binding> {
    installed(REGISTRY_ID, seq![(shared_name(), SHARED_ID)])
}

/// What `PING` does: the payload goes back.
pub open spec fn ping_step(bus: BusView, conn: EntityId, reqid: u32, payload: Seq<u8>) -> (
    BusView,
    ReactionView,
) {
    (bus, answered(quiet(), conn, reqid, ResponsePayloadView::SuccessWithData(payload)))
}

/// The keys of a store once `key` is in it.
pub open spec fn keys_with(entity: ExternalEntityView, key: Seq<u8>) -> Seq<Seq<u8>> {
    if entity.kvstore.contains_key(key) {
        entity.keys
    } else {
        entity.keys.push(key)
    }
}

/// What `SET PRIVATE` does: the key of the client's own entity gets the
/// value and becomes public, the change is published on the event broker
/// where the entity has a name, and the client is told of the success.
pub open spec fn set_private_step(
    bus: BusView,
    conn: EntityId,
    reqid: u32,
    key: Seq<u8>,
    value: Seq<u8>,
) -> (BusView, ReactionView) {
    let me = bus.entities[conn];
    let mine = ExternalEntityView {
        kvstore: me.kvstore.insert(key, (Some(value), AccessTag::Public)),
        keys: keys_with(me, key),
        ..me
    };
    let after = with_entity(bus, conn, mine);
    (
        after,
        answered(
            published_if(after, BrokerKind::Event, change_of(me.name, key, Some(value)), quiet()),
            conn,
            reqid,
            ResponsePayloadView::Success,
        ),
    )
}

/// The value that a client reads of its own entity at `key`.
pub open spec fn own_value(entity: ExternalEntityView, key: Seq<u8>) -> Option<Seq<u8>> {
    if entity.kvstore.contains_key(key) {
        entity.kvstore[key].0
    } else {
        None
    }
}

/// What `GET PRIVATE` does: the client is sent the value, or `not found`
/// where the key has none.
pub open spec fn get_private_step(bus: BusView, conn: EntityId, reqid: u32, key: Seq<u8>) -> (
    BusView,
    ReactionView,
) {
    (
        bus,
        answered(
            quiet(),
            conn,
            reqid,
            match own_value(bus.entities[conn], key) {
                Some(bytes) => ResponsePayloadView::SuccessWithData(bytes),
                None => failure(EntityError::NotFound),
            },
        ),
    )
}

/// What `DEL PRIVATE` does: the key of the client's own entity goes, the
/// deletion is published on the event broker where the entity has a name,
/// and the client is told of the success.
pub open spec fn del_private_step(bus: BusView, conn: EntityId, reqid: u32, key: Seq<u8>) -> (
    BusView,
    ReactionView,
) {
    let me = bus.entities[conn];
    let mine = ExternalEntityView {
        kvstore: me.kvstore.remove(key),
        keys: me.keys.filter(|k: Seq<u8>| k != key),
        ..me
    };
    let after = with_entity(bus, conn, mine);
    (
        after,
        answered(
            published_if(after, BrokerKind::Event, change_of(me.name, key, None), quiet()),
            conn,
            reqid,
            ResponsePayloadView::Success,
        ),
    )
}

/// What `ACL` does: the key of the client's own entity gets the tag, and is
/// made without a value where it is not there; the client is told of the
/// success.
pub open spec fn acl_step(bus: BusView, conn: EntityId, reqid: u32, key: Seq<u8>, tag: AccessTag) -> (
    BusView,
    ReactionView,
) {
    let me = bus.entities[conn];
    let mine = ExternalEntityView {
        kvstore: me.kvstore.insert(key, (own_value(me, key), tag)),
        keys: keys_with(me, key),
        ..me
    };
    (with_entity(bus, conn, mine), answered(quiet(), conn, reqid, ResponsePayloadView::Success))
}

/// What `NOTIFY` does: where the client's entity has a name, the value is
/// published on the notify broker under that name and `key`, and the client
/// is told of the success; where it has none, the client is told `no name`.
pub open spec fn notify_step(bus: BusView, conn: EntityId, reqid: u32, key: Seq<u8>, value: Seq<u8>) -> (
    BusView,
    ReactionView,
) {
    match bus.entities[conn].name {
        Some(name) => (
            bus,
            answered(
                published(
                    bus,
                    BrokerKind::Notify,
                    PublicationView { key: (name, key), data: Some(value) },
                    quiet(),
                ),
                conn,
                reqid,
                ResponsePayloadView::Success,
            ),
        ),
        None => (bus, answered(quiet(), conn, reqid, failure(EntityError::NoName))),
    }
}

/// A broker with `id` among the subscribers of the topic `key`.
pub open spec fn subscribed(broker: BrokerView, id: EntityId, key: (Seq<u8>, Seq<u8>)) -> BrokerView {
    BrokerView {
        subscribers: broker.subscribers.insert(
            key,
            with_subscriber(list_at(broker.subscribers, key), id),
        ),
        ..broker
    }
}

/// What `LISTEN` and `OBSERVE` do: the client's entity becomes a subscriber
/// of the topic on the broker of the kind, its stream on the topic goes
/// under the request id, and the client is told of the success.
pub open spec fn subscribe_step(
    bus: BusView,
    kind: BrokerKind,
    conn: EntityId,
    reqid: u32,
    target: Seq<u8>,
    key: Seq<u8>,
) -> (BusView, ReactionView) {
    let me = bus.entities[conn];
    let topic = (target, key);
    let after = match kind {
        BrokerKind::Event => BusView {
            events: subscribed(bus.events, conn, topic),
            entities: bus.entities.insert(
                conn,
                ExternalEntityView {
                    event_subscribe: me.event_subscribe.insert(topic, reqid),
                    ..me
                },
            ),
            ..bus
        },
        BrokerKind::Notify => BusView {
            notifies: subscribed(bus.notifies, conn, topic),
            entities: bus.entities.insert(
                conn,
                ExternalEntityView {
                    notify_subscribe: me.notify_subscribe.insert(topic, reqid),
                    ..me
                },
            ),
            ..bus
        },
    };
    (after, answered(quiet(), conn, reqid, ResponsePayloadView::Success))
}

/// What `RESPONSE` and `EXCEPTION` do: the call that the client's entity
/// knows under the request id is taken off its record, and where the entity
/// that made the call is there and waits for it, its client is sent the
/// answer under the request id of the call. The answering client is sent
/// nothing.
pub open spec fn answer_step(
    bus: BusView,
    conn: EntityId,
    reqid: u32,
    payload: ResponsePayloadView,
) -> (BusView, ReactionView) {
    let me = bus.entities[conn];
    if !me.call_record.contains_key(reqid) {
        (bus, quiet())
    } else {
        let caller = me.call_record[reqid];
        let mid = with_entity(
            bus,
            conn,
            ExternalEntityView { call_record: me.call_record.remove(reqid), ..me },
        );
        if !mid.entities.contains_key(caller) {
            (mid, quiet())
        } else {
            let them = mid.entities[caller];
            let after = with_entity(
                mid,
                caller,
                ExternalEntityView { pending_call: them.pending_call.remove(reqid), ..them },
            );
            if them.pending_call.contains_key(reqid) {
                (
                    after,
                    ReactionView {
                        frames: seq![
                            (
                                caller,
                                ResponseView {
                                    reqid: them.pending_call[reqid],
                                    kind: ResponseKind::RESP,
                                    payload,
                                },
                            ),
                        ],
                        ..quiet()
                    },
                )
            } else {
                (after, quiet())
            }
        }
    }
}

/// The bus once the client of the entity `conn` is let go: the entity is
/// gone, no name stands for it, and it is no subscriber any more.
pub open spec fn disconnect_step(bus: BusView, conn: EntityId) -> BusView {
    BusView {
        registry: forgotten(bus.registry, conn),
        events: BrokerView { subscribers: swept(bus.events.subscribers, seq![conn]), ..bus.events },
        notifies: BrokerView {
            subscribers: swept(bus.notifies.subscribers, seq![conn]),
            ..bus.notifies
        },
        entities: bus.entities.remove(conn),
        roster: without(bus.roster, conn),
        ..bus
    }
}

/// The bus once the clients of the entities `gone` are let go, one after
/// the other.
pub open spec fn let_go(bus: BusView, gone: Seq<EntityId>) -> BusView
    decreases gone.len(),
{
    if gone.len() == 0 {
        bus
    } else {
        disconnect_step(let_go(bus, gone.drop_last()), gone.last())
    }
}

/// `list` without `id`.
pub open spec fn without(list: Seq<u64>, id: u64) -> Seq<u64> {
    list.filter(|other: u64| other != id)
}

/// `list` without `id`.
pub fn without_id(list: &Vec<u64>, id: u64) -> (left: Vec<u64>)
    ensures
        left@ == without(list@, id),
{
    let mut left: Vec<u64> = Vec::new();
    let mut i: usize = 0;
    proof {
        assert(list@.take(0) =~= Seq::empty());
    }
    while i < list.len()
        invariant
            i <= list@.len(),
            left@ == without(list@.take(i as int), id),
        decreases list@.len() - i,
    {
        proof {
            reveal(Seq::filter);
            assert(list@.take(i + 1).drop_last() =~= list@.take(i as int));
        }
        if list[i] != id {
            left.push(list[i]);
        }
        i += 1;
    }
    proof {
        assert(list@.take(i as int) =~= list@);
    }
    left
}

impl Bus {
    /// A bus without clients: the registry holds its own name and the name
    /// of the shared bucket, the bucket is empty, nobody is subscribed.
    pub fn new() -> (bus: Bus)
        ensures
            bus@.registry.forward == first_names(),
            bus@.registry.names == installed_names(seq![(shared_name(), SHARED_ID)]),
            bus@.registry.reverse == Map::<EntityId, Seq<u8>>::empty(),
            bus@.events == (BrokerView { subscribers: Map::empty(), alternatives: Map::empty() }),
            bus@.notifies == (BrokerView { subscribers: Map::empty(), alternatives: Map::empty() }),
            bus@.shared == (SharedView { data: Map::empty(), keys: Seq::empty() }),
            bus@.entities == Map::<EntityId, ExternalEntityView>::empty(),
            bus@.roster == Seq::<EntityId>::empty(),
            bus@.next_id == 2,
    {
        let mut manifest: Vec<StaticRegistryItem> = Vec::new();
        manifest.push(StaticRegistryItem(bucket_name(), SHARED_ID));
        proof {
            assert(crate::registry::manifest_view(manifest@) =~= seq![(shared_name(), SHARED_ID)]);
        }
        let bus = Bus {
            registry: Registry::init(REGISTRY_ID, &manifest),
            event_broker: Broker::new(),
            notify_broker: Broker::new(),
            shared: SharedStorage::new(),
            entities: HashMap::new(),
            leases: leases_new(),
            roster: Vec::new(),
            next_id: 2,
        };
        assert(bus@.entities =~= Map::empty());
        bus
    }

    /// Whether the entity `id` is that of a connected client.
    pub fn is_connected(&self, id: EntityId) -> (connected: bool)
        ensures
            connected == self@.entities.contains_key(id),
    {
        self.entities.contains_key(&id)
    }

    /// Takes a client in: it gets an entity of its own, without a name, and
    /// the lease of that entity is handed out. Nobody is taken in once the
    /// entities have run out.
    pub fn connect(&mut self) -> (conn: Option<Arc<Lease>>)
        ensures
            conn is Some <==> old(self)@.next_id < u64::MAX && !old(self)@.entities.contains_key(
                old(self)@.next_id,
            ),
            conn is None ==> final(self)@ == old(self)@,
            conn matches Some(lease) ==> lease.id == old(self)@.next_id && final(self)@ == (
            BusView {
                entities: old(self)@.entities.insert(lease.id, fresh_entity()),
                roster: old(self)@.roster.push(lease.id),
                next_id: (lease.id + 1) as u64,
                ..old(self)@
            }),
    {
        let id = self.next_id;
        if id == u64::MAX || self.entities.contains_key(&id) {
            return None;
        }
        let lease = Arc::new(Lease { id });
        lease_insert(&mut self.leases, id, &lease);
        let entity = ExternalEntity::new();
        self.entities.insert(id, entity);
        self.roster.push(id);
        self.next_id = id + 1;
        proof {
            assert(final(self)@.entities =~= old(self)@.entities.insert(id, entity@));
        }
        Some(lease)
    }

    /// Lets a client go: its entity is gone, the names that stood for it are
    /// free, and it is no subscriber any more. Nothing is published.
    pub fn disconnect(&mut self, conn: EntityId)
        ensures
            final(self)@ == disconnect_step(old(self)@, conn),
            bidirectional(final(self)@.registry),
    {
        self.entities.remove(&conn);
        self.registry.forget(conn);
        let mut expired: Vec<u64> = Vec::new();
        expired.push(conn);
        proof {
            assert(expired@ =~= seq![conn]);
        }
        self.event_broker.cleanup(&expired);
        self.notify_broker.cleanup(&expired);
        self.roster = without_id(&self.roster, conn);
        proof {
            assert(self@.entities =~= old(self)@.entities.remove(conn));
        }
    }

    /// Lets go of every client whose lease nobody holds any more, as
    /// `disconnect` does, in the order in which the clients came. Returns
    /// who was let go.
    pub fn sweep(&mut self) -> (gone: Vec<EntityId>)
        ensures
            final(self)@ == let_go(old(self)@, gone@),
            forall|i: int| 0 <= i < gone@.len() ==> old(self)@.roster.contains(#[trigger] gone@[i]),
            bidirectional(final(self)@.registry),
    {
        let candidates = copy_ids(&self.roster);
        let mut gone: Vec<EntityId> = Vec::new();
        let mut i: usize = 0;
        while i < candidates.len()
            invariant
                i <= candidates@.len(),
                candidates@ == old(self)@.roster,
                self@ == let_go(old(self)@, gone@),
                forall|j: int|
                    0 <= j < gone@.len() ==> old(self)@.roster.contains(#[trigger] gone@[j]),
            decreases candidates@.len() - i,
        {
            let id = candidates[i];
            if !lease_held(&self.leases, id) {
                let ghost before = gone@;
                self.disconnect(id);
                gone.push(id);
                proof {
                    assert(gone@.drop_last() =~= before);
                    assert(candidates@.contains(candidates@[i as int]));
                }
            }
            i += 1;
        }
        self.registry.agrees_both_ways();
        gone
    }

    fn take(&mut self, conn: EntityId) -> (entity: ExternalEntity)
        requires
            old(self)@.entities.contains_key(conn),
        ensures
            entity@ == old(self)@.entities[conn],
            final(self).entities@ == old(self).entities@.remove(conn),
            final(self).registry == old(self).registry,
            final(self).event_broker == old(self).event_broker,
            final(self).notify_broker == old(self).notify_broker,
            final(self).shared == old(self).shared,
            final(self).roster == old(self).roster,
            final(self).next_id == old(self).next_id,
    {
        match self.entities.remove(&conn) {
            Some(entity) => entity,
            None => ExternalEntity::new(),
        }
    }

    fn put(&mut self, conn: EntityId, entity: ExternalEntity)
        ensures
            final(self)@ == (BusView {
                entities: old(self).entities@.map_values(|e: ExternalEntity| e@).insert(
                    conn,
                    entity@,
                ),
                ..old(self)@
            }),
            final(self).registry == old(self).registry,
            final(self).event_broker == old(self).event_broker,
            final(self).notify_broker == old(self).notify_broker,
            final(self).shared == old(self).shared,
    {
        self.entities.insert(conn, entity);
        proof {
            assert(final(self)@.entities =~= old(self).entities@.map_values(
                |e: ExternalEntity| e@,
            ).insert(conn, entity@));
        }
    }

    /// A `PING` of the entity `conn`: see `ping_step`.
    pub fn ping(&self, conn: EntityId, reqid: u32, payload: Vec<u8>) -> (reaction: Reaction)
        ensures
            (self@, reaction@) == for_client(
                self@,
                conn,
                ping_step(self@, conn, reqid, payload@),
            ),
    {
        let mut reaction = Reaction::new();
        if !self.entities.contains_key(&conn) {
            reaction.close = true;
            return reaction;
        }
        reaction.answer(conn, reqid, ResponsePayload::SuccessWithData(payload));
        reaction
    }

    /// A `SET PRIVATE` of the entity `conn`: see `set_private_step`.
    pub fn set_private(&mut self, conn: EntityId, reqid: u32, key: &ShortText, value: Vec<u8>) -> (reaction: Reaction)
        ensures
            (final(self)@, reaction@) == for_client(
                old(self)@,
                conn,
                set_private_step(old(self)@, conn, reqid, key@, value@),
            ),
    {
        if !self.entities.contains_key(&conn) {
            let mut reaction = Reaction::new();
            reaction.close = true;
            return reaction;
        }
        let mut me = self.take(conn);
        let publication = me.set_private(key, value);
        self.put(conn, me);
        proof {
            assert(final(self)@.entities =~= old(self)@.entities.insert(conn, me@));
        }
        let mut reaction = Reaction::new();
        match publication {
            Some(p) => {
                self.publish(BrokerKind::Event, &p, &mut reaction);
            },
            None => {},
        }
        reaction.answer(conn, reqid, ResponsePayload::Success);
        reaction
    }

    /// A `GET PRIVATE` of the entity `conn`: see `get_private_step`.
    pub fn get_private(&self, conn: EntityId, reqid: u32, key: &ShortText) -> (reaction: Reaction)
        ensures
            (self@, reaction@) == for_client(
                self@,
                conn,
                get_private_step(self@, conn, reqid, key@),
            ),
    {
        if !self.entities.contains_key(&conn) {
            let mut reaction = Reaction::new();
            reaction.close = true;
            return reaction;
        }
        let mut reaction = Reaction::new();
        let value = match self.entities.get(&conn) {
            Some(me) => me.get_private(key),
            None => None,
        };
        match value {
            Some(bytes) => {
                reaction.answer(conn, reqid, ResponsePayload::SuccessWithData(bytes));
            },
            None => {
                reaction.fail(conn, reqid, EntityError::NotFound);
            },
        }
        reaction
    }

    /// A `DEL PRIVATE` of the entity `conn`: see `del_private_step`.
    pub fn del_private(&mut self, conn: EntityId, reqid: u32, key: &ShortText) -> (reaction: Reaction)
        ensures
            (final(self)@, reaction@) == for_client(
                old(self)@,
                conn,
                del_private_step(old(self)@, conn, reqid, key@),
            ),
    {
        if !self.entities.contains_key(&conn) {
            let mut reaction = Reaction::new();
            reaction.close = true;
            return reaction;
        }
        let mut me = self.take(conn);
        let publication = me.del_private(key);
        self.put(conn, me);
        proof {
            assert(final(self)@.entities =~= old(self)@.entities.insert(conn, me@));
        }
        let mut reaction = Reaction::new();
        match publication {
            Some(p) => {
                self.publish(BrokerKind::Event, &p, &mut reaction);
            },
            None => {},
        }
        reaction.answer(conn, reqid, ResponsePayload::Success);
        reaction
    }

    /// An `ACL` of the entity `conn`: see `acl_step`.
    pub fn acl(&mut self, conn: EntityId, reqid: u32, key: &ShortText, tag: AccessTag) -> (reaction: Reaction)
        ensures
            (final(self)@, reaction@) == for_client(
                old(self)@,
                conn,
                acl_step(old(self)@, conn, reqid, key@, tag),
            ),
    {
        if !self.entities.contains_key(&conn) {
            let mut reaction = Reaction::new();
            reaction.close = true;
            return reaction;
        }
        let mut me = self.take(conn);
        me.set_acl(key, tag);
        self.put(conn, me);
        proof {
            assert(final(self)@.entities =~= old(self)@.entities.insert(conn, me@));
        }
        let mut reaction = Reaction::new();
        reaction.answer(conn, reqid, ResponsePayload::Success);
        reaction
    }

    /// A `NOTIFY` of the entity `conn`: see `notify_step`.
    pub fn notify(&self, conn: EntityId, reqid: u32, key: &ShortText, value: Vec<u8>) -> (reaction: Reaction)
        ensures
            (self@, reaction@) == for_client(
                self@,
                conn,
                notify_step(self@, conn, reqid, key@, value@),
            ),
    {
        if !self.entities.contains_key(&conn) {
            let mut reaction = Reaction::new();
            reaction.close = true;
            return reaction;
        }
        let mut reaction = Reaction::new();
        let name = match self.entities.get(&conn) {
            Some(me) => me.get_name(),
            None => None,
        };
        match name {
            Some(name) => {
                let publication = Publication { key: EventKey(name, *key), data: Some(value) };
                self.publish(BrokerKind::Notify, &publication, &mut reaction);
                reaction.answer(conn, reqid, ResponsePayload::Success);
            },
            None => {
                reaction.fail(conn, reqid, EntityError::NoName);
            },
        }
        reaction
    }

    /// A `LISTEN` (on the notify broker) or an `OBSERVE` (on the event
    /// broker) of the entity `conn`: see `subscribe_step`.
    pub fn subscribe(
        &mut self,
        kind: BrokerKind,
        conn: EntityId,
        reqid: u32,
        target: &ShortText,
        key: &ShortText,
    ) -> (reaction: Reaction)
        ensures
            (final(self)@, reaction@) == for_client(old(self)@, conn, subscribe_step(
                old(self)@,
                kind,
                conn,
                reqid,
                target@,
                key@,
            )),
    {
        if !self.entities.contains_key(&conn) {
            let mut reaction = Reaction::new();
            reaction.close = true;
            return reaction;
        }
        let topic = EventKey(*target, *key);
        let mut me = self.take(conn);
        match kind {
            BrokerKind::Event => {
                me.register_event(reqid, topic);
                self.event_broker.register(conn, topic);
            },
            BrokerKind::Notify => {
                me.register_notify(reqid, topic);
                self.notify_broker.register(conn, topic);
            },
        }
        self.put(conn, me);
        proof {
            assert(final(self)@.entities =~= old(self)@.entities.insert(conn, me@));
        }
        let mut reaction = Reaction::new();
        reaction.answer(conn, reqid, ResponsePayload::Success);
        reaction
    }

    /// A `RESPONSE` or an `EXCEPTION` of the entity `conn`, where `payload`
    /// is the answer to the call that its client knows under `reqid`: see
    /// `answer_step`.
    pub fn answer(&mut self, conn: EntityId, reqid: u32, payload: ResponsePayload) -> (reaction: Reaction)
        ensures
            (final(self)@, reaction@) == for_client(
                old(self)@,
                conn,
                answer_step(old(self)@, conn, reqid, payload@),
            ),
    {
        if !self.entities.contains_key(&conn) {
            let mut reaction = Reaction::new();
            reaction.close = true;
            return reaction;
        }
        let mut reaction = Reaction::new();
        let mut me = self.take(conn);
        let forward = me.recv_call_resp(reqid, payload);
        self.put(conn, me);
        let ghost mid = self@;
        proof {
            assert(mid.entities =~= old(self)@.entities.insert(conn, me@));
        }
        match forward {
            Some(forward) => {
                if self.entities.contains_key(&forward.to) {
                    let mut them = self.take(forward.to);
                    let frame = them.call_resp(forward.rid, forward.payload);
                    self.put(forward.to, them);
                    proof {
                        assert(self@.entities =~= mid.entities.insert(forward.to, them@));
                    }
                    match frame {
                        Some(frame) => {
                            reaction.frame(forward.to, frame);
                        },
                        None => {},
                    }
                }
            },
            None => {
                proof {
                    assert(me@.call_record =~= old(self)@.entities[conn].call_record);
                    assert(mid.entities =~= old(self)@.entities);
                }
            },
        }
        reaction
    }
}

/// What a name stands for in the bus.
pub enum Target {
    /// Nothing that is there.
    Missing,
    /// The registry.
    Registry,
    /// The shared bucket.
    Shared,
    /// The entity of a connected client.
    External(EntityId),
}

/// What `name` stands for.
pub open spec fn target_of(bus: BusView, name: Seq<u8>) -> Target {
    if !bus.registry.forward.contains_key(name) {
        Target::Missing
    } else {
        let id = bus.registry.forward[name].entity;
        if id == REGISTRY_ID {
            Target::Registry
        } else if id == SHARED_ID {
            Target::Shared
        } else if bus.entities.contains_key(id) {
            Target::External(id)
        } else {
            Target::Missing
        }
    }
}

/// What `SET` does. The name is looked up. On the registry, the client's
/// entity is bound to the name `key`, is told its name, and the binding is
/// published; on the shared bucket and on the entity of a client, the key
/// gets the value and the change is published. The client is told of the
/// success, or of the error that the target answered.
pub open spec fn set_step(
    bus: BusView,
    conn: EntityId,
    reqid: u32,
    target: Seq<u8>,
    key: Seq<u8>,
    value: Seq<u8>,
) -> (BusView, ReactionView) {
    match target_of(bus, target) {
        Target::Missing => (
            bus,
            answered(quiet(), conn, reqid, failure(EntityError::TargetNotFound)),
        ),
        Target::Registry => match binding_error(bus.registry, Some(conn), key) {
            Some(e) => (bus, answered(quiet(), conn, reqid, failure(e))),
            None => {
                let after = BusView {
                    registry: bound(bus.registry, conn, key),
                    entities: bus.entities.insert(
                        conn,
                        ExternalEntityView { name: Some(key), ..bus.entities[conn] },
                    ),
                    ..bus
                };
                (
                    after,
                    answered(
                        published(after, BrokerKind::Event, name_event(key, Some(value)), quiet()),
                        conn,
                        reqid,
                        ResponsePayloadView::Success,
                    ),
                )
            },
        },
        Target::Shared => {
            let after = BusView {
                shared: SharedView {
                    data: bus.shared.data.insert(key, value),
                    keys: if bus.shared.data.contains_key(key) {
                        bus.shared.keys
                    } else {
                        bus.shared.keys.push(key)
                    },
                },
                ..bus
            };
            (
                after,
                answered(
                    published(after, BrokerKind::Event, shared_event(key, Some(value)), quiet()),
                    conn,
                    reqid,
                    ResponsePayloadView::Success,
                ),
            )
        },
        Target::External(id) => {
            let them = bus.entities[id];
            match remote_write(them.kvstore, key) {
                Err(e) => (bus, answered(quiet(), conn, reqid, failure(e))),
                Ok(()) => {
                    let after = with_entity(
                        bus,
                        id,
                        ExternalEntityView {
                            kvstore: them.kvstore.insert(key, (Some(value), AccessTag::Public)),
                            ..them
                        },
                    );
                    (
                        after,
                        answered(
                            published_if(
                                after,
                                BrokerKind::Event,
                                change_of(them.name, key, Some(value)),
                                quiet(),
                            ),
                            conn,
                            reqid,
                            ResponsePayloadView::Success,
                        ),
                    )
                },
            }
        },
    }
}

/// What `GET` does. The name is looked up. The registry answers whether
/// `key` is a name that is bound, without a value; the shared bucket and
/// the entity of a client answer with the value. The client is sent the
/// value, or told that there is none, or of the error.
pub open spec fn get_step(bus: BusView, conn: EntityId, reqid: u32, target: Seq<u8>, key: Seq<u8>) -> (
    BusView,
    ReactionView,
) {
    let payload = match target_of(bus, target) {
        Target::Missing => failure(EntityError::TargetNotFound),
        Target::Registry => if bus.registry.forward.contains_key(key) {
            ResponsePayloadView::Success
        } else {
            failure(EntityError::NotFound)
        },
        Target::Shared => if bus.shared.data.contains_key(key) {
            ResponsePayloadView::SuccessWithData(bus.shared.data[key])
        } else {
            ResponsePayloadView::Success
        },
        Target::External(id) => match remote_get(bus.entities[id].kvstore, key) {
            Ok(value) => found(value),
            Err(e) => failure(e),
        },
    };
    (bus, answered(quiet(), conn, reqid, payload))
}

/// What `DEL` does. The name is looked up. On the registry, the name `key`
/// is released where it is the client's, and the release is published; on
/// the shared bucket the key goes; on the entity of a client the value of
/// the key goes; each change is published. The client is told of the
/// success, or of the error that the target answered.
pub open spec fn del_step(bus: BusView, conn: EntityId, reqid: u32, target: Seq<u8>, key: Seq<u8>) -> (
    BusView,
    ReactionView,
) {
    match target_of(bus, target) {
        Target::Missing => (
            bus,
            answered(quiet(), conn, reqid, failure(EntityError::TargetNotFound)),
        ),
        Target::Registry => match release_error(bus.registry, Some(conn), key) {
            Some(e) => (bus, answered(quiet(), conn, reqid, failure(e))),
            None => {
                let after = BusView { registry: released(bus.registry, conn, key), ..bus };
                (
                    after,
                    answered(
                        published(after, BrokerKind::Event, name_event(key, None), quiet()),
                        conn,
                        reqid,
                        ResponsePayloadView::Success,
                    ),
                )
            },
        },
        Target::Shared => {
            let after = BusView {
                shared: SharedView {
                    data: bus.shared.data.remove(key),
                    keys: bus.shared.keys.filter(|k: Seq<u8>| k != key),
                },
                ..bus
            };
            (
                after,
                answered(
                    published(after, BrokerKind::Event, shared_event(key, None), quiet()),
                    conn,
                    reqid,
                    ResponsePayloadView::Success,
                ),
            )
        },
        Target::External(id) => {
            let them = bus.entities[id];
            match remote_write(them.kvstore, key) {
                Err(e) => (bus, answered(quiet(), conn, reqid, failure(e))),
                Ok(()) => {
                    let after = with_entity(
                        bus,
                        id,
                        ExternalEntityView {
                            kvstore: them.kvstore.insert(key, (None, AccessTag::Public)),
                            ..them
                        },
                    );
                    (
                        after,
                        answered(
                            published_if(
                                after,
                                BrokerKind::Event,
                                change_of(them.name, key, None),
                                quiet(),
                            ),
                            conn,
                            reqid,
                            ResponsePayloadView::Success,
                        ),
                    )
                },
            }
        },
    }
}

/// A list of keys with their tags on the wire: for each key the tag, then
/// the key, both as short texts.
pub open spec fn listing_bytes(list: Seq<(Seq<u8>, AccessTag)>) -> Seq<u8>
    decreases list.len(),
{
    if list.len() == 0 {
        Seq::empty()
    } else {
        listing_bytes(list.drop_last()) + tag_bytes(list.last().1) + short_text_bytes(
            list.last().0,
        )
    }
}

/// The keys of what `target` stands for, as the entity `conn` is shown
/// them, or nothing where the target is not there.
pub open spec fn listing_of(bus: BusView, conn: EntityId, target: Seq<u8>) -> Option<
    Seq<(Seq<u8>, AccessTag)>,
> {
    match target_of(bus, target) {
        Target::Missing => None,
        Target::Registry => Some(registry_listing(bus.registry, Some(conn))),
        Target::Shared => Some(shared_listing(bus.shared)),
        Target::External(id) => Some(entity_listing(bus.entities[id])),
    }
}

/// What `KEYS` does: the client is sent the keys of the target with their
/// tags, or told that the target is not there.
pub open spec fn keys_step(bus: BusView, conn: EntityId, reqid: u32, target: Seq<u8>) -> (
    BusView,
    ReactionView,
) {
    let payload = match listing_of(bus, conn, target) {
        None => failure(EntityError::TargetNotFound),
        Some(list) => ResponsePayloadView::SuccessWithData(listing_bytes(list)),
    };
    (bus, answered(quiet(), conn, reqid, payload))
}

/// What `CALL` does, where `after` and `reaction` are what came of it. The
/// name is looked up. The registry and the shared bucket take no calls.
/// The entity of a client records the call under a responder id that it had
/// not in use, the calling entity notes its request id under that
/// responder id, and the called client is sent the `CALL` frame; the
/// calling client is sent nothing yet. The call fails only where the
/// target is not there, takes no calls, or has every responder id in use.
pub open spec fn call_done(
    bus: BusView,
    conn: EntityId,
    reqid: u32,
    target: Seq<u8>,
    key: Seq<u8>,
    payload: Seq<u8>,
    after: BusView,
    reaction: ReactionView,
) -> bool {
    if !bus.entities.contains_key(conn) {
        after == bus && reaction == closing()
    } else {
        call_routed(bus, conn, reqid, target, key, payload, after, reaction)
    }
}

/// Whether `after` and `reaction` are what comes of a `CALL` of the entity
/// `conn` of a connected client.
pub open spec fn call_routed(
    bus: BusView,
    conn: EntityId,
    reqid: u32,
    target: Seq<u8>,
    key: Seq<u8>,
    payload: Seq<u8>,
    after: BusView,
    reaction: ReactionView,
) -> bool {
    match target_of(bus, target) {
        Target::Missing => after == bus && reaction == answered(
            quiet(),
            conn,
            reqid,
            failure(EntityError::TargetNotFound),
        ),
        Target::Registry => after == bus && reaction == answered(
            quiet(),
            conn,
            reqid,
            failure(EntityError::NotSupported),
        ),
        Target::Shared => after == bus && reaction == answered(
            quiet(),
            conn,
            reqid,
            failure(EntityError::NotSupported),
        ),
        Target::External(id) => {
            if forall|rid: u32| bus.entities[id].call_record.contains_key(rid) {
                after == bus && reaction == answered(
                    quiet(),
                    conn,
                    reqid,
                    failure(EntityError::Exhausted),
                )
            } else {
                exists|rid: u32| #[trigger] called(bus, conn, reqid, id, rid, key, payload, after, reaction)
            }
        },
    }
}

/// Whether `after` and `reaction` are what comes of a call by the entity
/// `conn` on the entity `id` that was given the responder id `rid`.
pub open spec fn called(
    bus: BusView,
    conn: EntityId,
    reqid: u32,
    id: EntityId,
    rid: u32,
    key: Seq<u8>,
    payload: Seq<u8>,
    after: BusView,
    reaction: ReactionView,
) -> bool {
    let them = bus.entities[id];
    let mid = with_entity(
        bus,
        id,
        ExternalEntityView { call_record: them.call_record.insert(rid, conn), ..them },
    );
    let me = mid.entities[conn];
    &&& !them.call_record.contains_key(rid)
    &&& after == with_entity(
        mid,
        conn,
        ExternalEntityView { pending_call: me.pending_call.insert(rid, reqid), ..me },
    )
    &&& reaction == (ReactionView {
        frames: seq![
            (
                id,
                ResponseView {
                    reqid: rid,
                    kind: ResponseKind::CALL,
                    payload: ResponsePayloadView::SuccessWithData(call_payload(key, payload)),
                },
            ),
        ],
        ..quiet()
    })
}

/// Writes a list of keys with their tags.
pub fn encode_listing(list: &Vec<(ShortText, AccessTag)>) -> (bytes: Vec<u8>)
    ensures
        bytes@ == listing_bytes(listing_view(list@)),
{
    let mut bytes: Vec<u8> = Vec::new();
    let mut i: usize = 0;
    let ghost items = listing_view(list@);
    proof {
        assert(items.take(0) =~= Seq::empty());
    }
    while i < list.len()
        invariant
            i <= list@.len(),
            items == listing_view(list@),
            bytes@ == listing_bytes(items.take(i as int)),
        decreases list@.len() - i,
    {
        let (key, tag) = list[i];
        proof {
            assert(items.take(i + 1).drop_last() =~= items.take(i as int));
            assert(items.take(i + 1).last() == (key@, tag));
        }
        bytes.encode(tag);
        bytes.encode_short_text(&key);
        i += 1;
    }
    proof {
        assert(items.take(i as int) =~= items);
    }
    bytes
}

impl Bus {
    /// What `name` stands for.
    pub fn resolve(&self, name: &ShortText) -> (target: Target)
        ensures
            target == target_of(self@, name@),
    {
        match self.registry.find(name) {
            None => Target::Missing,
            Some(id) => {
                if id == REGISTRY_ID {
                    Target::Registry
                } else if id == SHARED_ID {
                    Target::Shared
                } else if self.entities.contains_key(&id) {
                    Target::External(id)
                } else {
                    Target::Missing
                }
            },
        }
    }

    /// A `SET` of the entity `conn`: see `set_step`.
    pub fn set_key(
        &mut self,
        conn: EntityId,
        reqid: u32,
        target: &ShortText,
        key: &ShortText,
        value: Vec<u8>,
    ) -> (reaction: Reaction)
        ensures
            (final(self)@, reaction@) == for_client(
                old(self)@,
                conn,
                set_step(old(self)@, conn, reqid, target@, key@, value@),
            ),
    {
        let mut reaction = Reaction::new();
        if !self.entities.contains_key(&conn) {
            reaction.close = true;
            return reaction;
        }
        let done = match self.resolve(target) {
            Target::Missing => Err(EntityError::TargetNotFound),
            Target::Registry => {
                let done = self.registry.set(Some(conn), key, value);
                if done.is_ok() {
                    let mut me = self.take(conn);
                    me.update_name(Some(key));
                    self.put(conn, me);
                    proof {
                        assert(self@.entities =~= old(self)@.entities.insert(conn, me@));
                    }
                }
                done
            },
            Target::Shared => self.shared.set(Some(conn), key, value),
            Target::External(id) => {
                let mut them = self.take(id);
                let done = them.set(Some(conn), key, value);
                self.put(id, them);
                proof {
                    assert(self@.entities =~= old(self)@.entities.insert(id, them@));
                    if done is Err {
                        assert(self@.entities =~= old(self)@.entities);
                    }
                }
                done
            },
        };
        match done {
            Ok(publication) => {
                self.publish_if(BrokerKind::Event, &publication, &mut reaction);
                reaction.answer(conn, reqid, ResponsePayload::Success);
            },
            Err(e) => {
                reaction.fail(conn, reqid, e);
            },
        }
        reaction
    }

    /// A `GET` of the entity `conn`: see `get_step`.
    pub fn get_key(&self, conn: EntityId, reqid: u32, target: &ShortText, key: &ShortText) -> (reaction: Reaction)
        ensures
            (self@, reaction@) == for_client(
                self@,
                conn,
                get_step(self@, conn, reqid, target@, key@),
            ),
    {
        let mut reaction = Reaction::new();
        if !self.entities.contains_key(&conn) {
            reaction.close = true;
            return reaction;
        }
        let value = match self.resolve(target) {
            Target::Missing => Err(EntityError::TargetNotFound),
            Target::Registry => self.registry.get(Some(conn), key),
            Target::Shared => self.shared.get(Some(conn), key),
            Target::External(id) => match self.entities.get(&id) {
                Some(them) => them.get(Some(conn), key),
                None => Err(EntityError::TargetNotFound),
            },
        };
        match value {
            Ok(Some(bytes)) => {
                reaction.answer(conn, reqid, ResponsePayload::SuccessWithData(bytes));
            },
            Ok(None) => {
                reaction.answer(conn, reqid, ResponsePayload::Success);
            },
            Err(e) => {
                reaction.fail(conn, reqid, e);
            },
        }
        reaction
    }

    /// A `DEL` of the entity `conn`: see `del_step`.
    pub fn del_key(&mut self, conn: EntityId, reqid: u32, target: &ShortText, key: &ShortText) -> (reaction: Reaction)
        ensures
            (final(self)@, reaction@) == for_client(
                old(self)@,
                conn,
                del_step(old(self)@, conn, reqid, target@, key@),
            ),
    {
        let mut reaction = Reaction::new();
        if !self.entities.contains_key(&conn) {
            reaction.close = true;
            return reaction;
        }
        let done = match self.resolve(target) {
            Target::Missing => Err(EntityError::TargetNotFound),
            Target::Registry => self.registry.del(Some(conn), key),
            Target::Shared => self.shared.del(Some(conn), key),
            Target::External(id) => {
                let mut them = self.take(id);
                let done = them.del(Some(conn), key);
                self.put(id, them);
                proof {
                    assert(self@.entities =~= old(self)@.entities.insert(id, them@));
                    if done is Err {
                        assert(self@.entities =~= old(self)@.entities);
                    }
                }
                done
            },
        };
        match done {
            Ok(publication) => {
                self.publish_if(BrokerKind::Event, &publication, &mut reaction);
                reaction.answer(conn, reqid, ResponsePayload::Success);
            },
            Err(e) => {
                reaction.fail(conn, reqid, e);
            },
        }
        reaction
    }

    /// The keys of what `target` stands for with their tags, as the entity
    /// `conn` is shown them, or nothing where the target is not there.
    pub fn listing(&self, conn: EntityId, target: &ShortText) -> (list: Option<
        Vec<(ShortText, AccessTag)>,
    >)
        ensures
            match listing_of(self@, conn, target@) {
                Some(shown) => list is Some && listing_view(list->Some_0@) == shown,
                None => list is None,
            },
    {
        let listed = match self.resolve(target) {
            Target::Missing => Err(EntityError::TargetNotFound),
            Target::Registry => self.registry.keys(Some(conn)),
            Target::Shared => self.shared.keys(Some(conn)),
            Target::External(id) => match self.entities.get(&id) {
                Some(them) => them.keys(Some(conn)),
                None => Err(EntityError::TargetNotFound),
            },
        };
        match listed {
            Ok(list) => Some(list),
            Err(_) => None,
        }
    }

    /// A `KEYS` of the entity `conn`: see `keys_step`.
    pub fn keys(&self, conn: EntityId, reqid: u32, target: &ShortText) -> (reaction: Reaction)
        ensures
            (self@, reaction@) == for_client(
                self@,
                conn,
                keys_step(self@, conn, reqid, target@),
            ),
    {
        if !self.entities.contains_key(&conn) {
            let mut reaction = Reaction::new();
            reaction.close = true;
            return reaction;
        }
        let mut reaction = Reaction::new();
        match self.listing(conn, target) {
            Some(list) => {
                reaction.answer(conn, reqid, ResponsePayload::SuccessWithData(encode_listing(&list)));
            },
            None => {
                reaction.fail(conn, reqid, EntityError::TargetNotFound);
            },
        }
        reaction
    }

    /// A `CALL` of the entity `conn`: see `call_done`.
    pub fn call(
        &mut self,
        conn: EntityId,
        reqid: u32,
        target: &ShortText,
        key: &ShortText,
        payload: &[u8],
    ) -> (reaction: Reaction)
        ensures
            call_done(old(self)@, conn, reqid, target@, key@, payload@, final(self)@, reaction@),
    {
        let mut reaction = Reaction::new();
        if !self.entities.contains_key(&conn) {
            reaction.close = true;
            return reaction;
        }
        match self.resolve(target) {
            Target::Missing => {
                reaction.fail(conn, reqid, EntityError::TargetNotFound);
            },
            Target::Registry => {
                match self.registry.call(conn, reqid, key, payload) {
                    Ok(_) => {},
                    Err(e) => {
                        reaction.fail(conn, reqid, e);
                    },
                }
            },
            Target::Shared => {
                match self.shared.call(conn, reqid, key, payload) {
                    Ok(_) => {},
                    Err(e) => {
                        reaction.fail(conn, reqid, e);
                    },
                }
            },
            Target::External(id) => {
                let mut them = self.take(id);
                let plan = them.call(conn, reqid, key, payload);
                self.put(id, them);
                let ghost mid = self@;
                proof {
                    assert(mid.entities =~= old(self)@.entities.insert(id, them@));
                }
                match plan {
                    Ok(plan) => {
                        let mut me = self.take(conn);
                        me.assign_call_ids(plan.reqid, plan.rid);
                        self.put(conn, me);
                        proof {
                            assert(self@.entities =~= mid.entities.insert(conn, me@));
                        }
                        reaction.frame(id, plan.frame);
                        proof {
                            assert(called(
                                old(self)@,
                                conn,
                                reqid,
                                id,
                                plan.rid,
                                key@,
                                payload@,
                                self@,
                                reaction@,
                            ));
                        }
                    },
                    Err(e) => {
                        proof {
                            assert(mid.entities =~= old(self)@.entities);
                        }
                        reaction.fail(conn, reqid, e);
                    },
                }
            },
        }
        reaction
    }
}

/// What an unknown command does: the client is told `Unknown command`,
/// and the connection is closed.
pub open spec fn unknown_step(bus: BusView, conn: EntityId, reqid: u32) -> (BusView, ReactionView) {
    (
        bus,
        ReactionView {
            close: true,
            ..answered(quiet(), conn, reqid, failure(EntityError::UnknownCommand))
        },
    )
}

/// Whether `after` and `reaction` are what comes of the request `request`
/// of the entity `conn` on the bus `before`. A request of an entity that is
/// not connected, a request whose payload cannot be read and `STOP` change
/// nothing and close the connection; every other request does what its
/// command does.
pub open spec fn handled(
    before: BusView,
    conn: EntityId,
    request: RequestView,
    after: BusView,
    reaction: ReactionView,
) -> bool {
    let reqid = request.reqid;
    if !before.entities.contains_key(conn) {
        after == before && reaction == closing()
    } else {
        match command_of(request) {
            Err(_) => after == before && reaction == closing(),
            Ok(CommandView::Stop) => after == before && reaction == closing(),
            Ok(CommandView::Ping(payload)) => (after, reaction) == ping_step(
                before,
                conn,
                reqid,
                payload,
            ),
            Ok(CommandView::SetPrivate { key, value }) => (after, reaction) == set_private_step(
                before,
                conn,
                reqid,
                key,
                value,
            ),
            Ok(CommandView::GetPrivate { key }) => (after, reaction) == get_private_step(
                before,
                conn,
                reqid,
                key,
            ),
            Ok(CommandView::DelPrivate { key }) => (after, reaction) == del_private_step(
                before,
                conn,
                reqid,
                key,
            ),
            Ok(CommandView::Acl { key, tag }) => (after, reaction) == acl_step(
                before,
                conn,
                reqid,
                key,
                tag,
            ),
            Ok(CommandView::SetKey { target, key, value }) => (after, reaction) == set_step(
                before,
                conn,
                reqid,
                target,
                key,
                value,
            ),
            Ok(CommandView::GetKey { target, key }) => (after, reaction) == get_step(
                before,
                conn,
                reqid,
                target,
                key,
            ),
            Ok(CommandView::DelKey { target, key }) => (after, reaction) == del_step(
                before,
                conn,
                reqid,
                target,
                key,
            ),
            Ok(CommandView::Keys { target }) => (after, reaction) == keys_step(
                before,
                conn,
                reqid,
                target,
            ),
            Ok(CommandView::Notify { key, value }) => (after, reaction) == notify_step(
                before,
                conn,
                reqid,
                key,
                value,
            ),
            Ok(CommandView::Listen { target, key }) => (after, reaction) == subscribe_step(
                before,
                BrokerKind::Notify,
                conn,
                reqid,
                target,
                key,
            ),
            Ok(CommandView::Observe { target, key }) => (after, reaction) == subscribe_step(
                before,
                BrokerKind::Event,
                conn,
                reqid,
                target,
                key,
            ),
            Ok(CommandView::Call { target, key, payload }) => call_done(
                before,
                conn,
                reqid,
                target,
                key,
                payload,
                after,
                reaction,
            ),
            Ok(CommandView::Response(bytes)) => (after, reaction) == answer_step(
                before,
                conn,
                reqid,
                ResponsePayloadView::SuccessWithData(bytes),
            ),
            Ok(CommandView::Exception(bytes)) => (after, reaction) == answer_step(
                before,
                conn,
                reqid,
                ResponsePayloadView::Failed(bytes),
            ),
            Ok(CommandView::Unknown) => (after, reaction) == unknown_step(before, conn, reqid),
        }
    }
}

/// What comes of a `CALL` frame that could not be written to the called
/// client: the calling entity forgets the call, and its client is told of
/// the failure under the request id of the call.
pub open spec fn call_failed_step(bus: BusView, caller: EntityId, rid: u32, reason: Seq<u8>) -> (
    BusView,
    ReactionView,
) {
    if bus.entities.contains_key(caller) && bus.entities[caller].pending_call.contains_key(rid) {
        let me = bus.entities[caller];
        (
            with_entity(
                bus,
                caller,
                ExternalEntityView { pending_call: me.pending_call.remove(rid), ..me },
            ),
            answered(quiet(), caller, me.pending_call[rid], ResponsePayloadView::Failed(reason)),
        )
    } else {
        (bus, quiet())
    }
}

impl Bus {
    /// The two directions of the registry of the bus agree, whatever was
    /// done to the bus.
    pub fn registry_agrees(&self)
        ensures
            bidirectional(self@.registry),
    {
        self.registry.agrees_both_ways();
    }

    /// Takes a request of the entity `conn` and says what is to be done.
    pub fn handle(&mut self, conn: EntityId, request: Request) -> (reaction: Reaction)
        ensures
            handled(old(self)@, conn, request@, final(self)@, reaction@),
            bidirectional(final(self)@.registry),
    {
        let reaction = self.react(conn, request);
        self.registry.agrees_both_ways();
        reaction
    }

    fn react(&mut self, conn: EntityId, request: Request) -> (reaction: Reaction)
        ensures
            handled(old(self)@, conn, request@, final(self)@, reaction@),
    {
        if !self.entities.contains_key(&conn) {
            let mut reaction = Reaction::new();
            reaction.close = true;
            return reaction;
        }
        let reqid = request.reqid;
        match parse_command(&request) {
            Err(_) => {
                let mut reaction = Reaction::new();
                reaction.close = true;
                reaction
            },
            Ok(command) => match command {
                Command::Stop => {
                    let mut reaction = Reaction::new();
                    reaction.close = true;
                    reaction
                },
                Command::Ping(payload) => self.ping(conn, reqid, payload),
                Command::SetPrivate { key, value } => self.set_private(conn, reqid, &key, value),
                Command::GetPrivate { key } => self.get_private(conn, reqid, &key),
                Command::DelPrivate { key } => self.del_private(conn, reqid, &key),
                Command::Acl { key, tag } => self.acl(conn, reqid, &key, tag),
                Command::SetKey { target, key, value } => self.set_key(
                    conn,
                    reqid,
                    &target,
                    &key,
                    value,
                ),
                Command::GetKey { target, key } => self.get_key(conn, reqid, &target, &key),
                Command::DelKey { target, key } => self.del_key(conn, reqid, &target, &key),
                Command::Keys { target } => self.keys(conn, reqid, &target),
                Command::Notify { key, value } => self.notify(conn, reqid, &key, value),
                Command::Listen { target, key } => self.subscribe(
                    BrokerKind::Notify,
                    conn,
                    reqid,
                    &target,
                    &key,
                ),
                Command::Observe { target, key } => self.subscribe(
                    BrokerKind::Event,
                    conn,
                    reqid,
                    &target,
                    &key,
                ),
                Command::Call { target, key, payload } => self.call(
                    conn,
                    reqid,
                    &target,
                    &key,
                    payload.as_slice(),
                ),
                Command::Response(bytes) => self.answer(
                    conn,
                    reqid,
                    ResponsePayload::SuccessWithData(bytes),
                ),
                Command::Exception(bytes) => self.answer(
                    conn,
                    reqid,
                    ResponsePayload::Failed(bytes),
                ),
                Command::Unknown => {
                    let mut reaction = Reaction::new();
                    reaction.fail(conn, reqid, EntityError::UnknownCommand);
                    reaction.close = true;
                    reaction
                },
            },
        }
    }

    /// Takes note that the `CALL` frame of the call that the called entity
    /// knows under `rid` could not be written, for the reason `reason`.
    pub fn call_failed(&mut self, caller: EntityId, rid: u32, reason: Vec<u8>) -> (reaction: Reaction)
        ensures
            (final(self)@, reaction@) == call_failed_step(old(self)@, caller, rid, reason@),
    {
        let mut reaction = Reaction::new();
        if self.entities.contains_key(&caller) {
            let mut me = self.take(caller);
            let frame = me.call_resp(rid, ResponsePayload::Failed(reason));
            self.put(caller, me);
            proof {
                assert(self@.entities =~= old(self)@.entities.insert(caller, me@));
            }
            match frame {
                Some(frame) => {
                    reaction.frame(caller, frame);
                },
                None => {
                    proof {
                        assert(me@.pending_call =~= old(self)@.entities[caller].pending_call);
                        assert(self@.entities =~= old(self)@.entities);
                    }
                },
            }
        }
        reaction
    }

    /// Registers `recv` as an alternative subscriber of the topic `key` on
    /// the broker of the kind.
    pub fn alternative_register(&mut self, kind: BrokerKind, recv: u64, key: EventKey)
        ensures
            final(self)@ == match kind {
                BrokerKind::Event => BusView {
                    events: BrokerView {
                        alternatives: old(self)@.events.alternatives.insert(
                            key@,
                            list_at(old(self)@.events.alternatives, key@).push(recv),
                        ),
                        ..old(self)@.events
                    },
                    ..old(self)@
                },
                BrokerKind::Notify => BusView {
                    notifies: BrokerView {
                        alternatives: old(self)@.notifies.alternatives.insert(
                            key@,
                            list_at(old(self)@.notifies.alternatives, key@).push(recv),
                        ),
                        ..old(self)@.notifies
                    },
                    ..old(self)@
                },
            },
    {
        match kind {
            BrokerKind::Event => self.event_broker.alternative_register(recv, key),
            BrokerKind::Notify => self.notify_broker.alternative_register(recv, key),
        }
    }

    /// Takes note of what the alternative subscribers of the topic `key`
    /// answered to an offer: `alive` holds the answers in the order of the
    /// offer, and who answered `false` is dropped.
    pub fn settle(&mut self, kind: BrokerKind, key: &EventKey, alive: &Vec<bool>)
        ensures
            final(self)@ == match kind {
                BrokerKind::Event => BusView {
                    events: BrokerView {
                        alternatives: settled(old(self)@.events.alternatives, key@, alive@),
                        ..old(self)@.events
                    },
                    ..old(self)@
                },
                BrokerKind::Notify => BusView {
                    notifies: BrokerView {
                        alternatives: settled(old(self)@.notifies.alternatives, key@, alive@),
                        ..old(self)@.notifies
                    },
                    ..old(self)@
                },
            },
    {
        match kind {
            BrokerKind::Event => self.event_broker.settle(key, alive),
            BrokerKind::Notify => self.notify_broker.settle(key, alive),
        }
    }
}

/// The frame that hands a publication to the subscriber `id`.
pub open spec fn stream_frame_of(
    entities: Map<EntityId, ExternalEntityView>,
    kind: BrokerKind,
    id: EntityId,
    key: (Seq<u8>, Seq<u8>),
    data: Option<Seq<u8>>,
) -> (EntityId, ResponseView) {
    (
        id,
        ResponseView {
            reqid: streams_of(entities[id], kind)[key],
            kind: ResponseKind::NEXT,
            payload: crate::entity::stream_item(data),
        },
    )
}

/// A publication reaches each subscriber that is connected and has a stream
/// open on the topic: its frame is among the frames, under the request id
/// of the stream and with what was published.
pub proof fn lemma_fanout_reaches(
    entities: Map<EntityId, ExternalEntityView>,
    kind: BrokerKind,
    to: Seq<u64>,
    key: (Seq<u8>, Seq<u8>),
    data: Option<Seq<u8>>,
    id: EntityId,
)
    requires
        to.contains(id),
        entities.contains_key(id),
        streams_of(entities[id], kind).contains_key(key),
    ensures
        fanout(entities, kind, to, key, data).contains(
            stream_frame_of(entities, kind, id, key, data),
        ),
    decreases to.len(),
{
    let frames = fanout(entities, kind, to, key, data);
    let before = fanout(entities, kind, to.drop_last(), key, data);
    let frame = stream_frame_of(entities, kind, id, key, data);
    if to.last() == id {
        assert(frames == before.push(frame));
        assert(frames[frames.len() - 1] == frame);
    } else {
        let i = choose|i: int| 0 <= i < to.len() && to[i] == id;
        assert(to.drop_last()[i] == id);
        lemma_fanout_reaches(entities, kind, to.drop_last(), key, data, id);
        let j = choose|j: int| 0 <= j < before.len() && before[j] == frame;
        assert(frames[j] == frame);
    }
}

/// A publication reaches a subscriber once where it is subscribed once:
/// each frame goes to a subscriber of the list, and a list without
/// duplicates gives no subscriber two frames.
pub proof fn lemma_fanout_once(
    entities: Map<EntityId, ExternalEntityView>,
    kind: BrokerKind,
    to: Seq<u64>,
    key: (Seq<u8>, Seq<u8>),
    data: Option<Seq<u8>>,
)
    requires
        to.no_duplicates(),
    ensures
        forall|i: int|
            0 <= i < fanout(entities, kind, to, key, data).len() ==> to.contains(
                (#[trigger] fanout(entities, kind, to, key, data)[i]).0,
            ),
        forall|i: int, j: int|
            0 <= i < j < fanout(entities, kind, to, key, data).len() ==> fanout(
                entities,
                kind,
                to,
                key,
                data,
            )[i].0 != fanout(entities, kind, to, key, data)[j].0,
    decreases to.len(),
{
    let frames = fanout(entities, kind, to, key, data);
    if to.len() > 0 {
        let front = to.drop_last();
        let before = fanout(entities, kind, front, key, data);
        lemma_fanout_once(entities, kind, front, key, data);
        assert forall|i: int| 0 <= i < frames.len() implies to.contains(
            (#[trigger] frames[i]).0,
        ) by {
            if i < before.len() {
                assert(front.contains(before[i].0));
                let k = choose|k: int| 0 <= k < front.len() && front[k] == before[i].0;
                assert(to[k] == before[i].0);
            } else {
                assert(to[to.len() - 1] == frames[i].0);
            }
        }
        assert forall|i: int, j: int| 0 <= i < j < frames.len() implies frames[i].0
            != frames[j].0 by {
            if j >= before.len() {
                assert(front.contains(before[i].0));
                let k = choose|k: int| 0 <= k < front.len() && front[k] == before[i].0;
                assert(to[k] != to[to.len() - 1]);
            }
        }
    }
}

/// Access tags are enforced against other entities and not against the
/// owner: a private key is not read, a key that is not public is not
/// written or deleted, and `SET PRIVATE` by the client of the entity
/// goes through whatever the tag of the key, and makes the key public.
pub proof fn lemma_access_enforcement(
    bus: BusView,
    conn: EntityId,
    reqid: u32,
    key: Seq<u8>,
    value: Seq<u8>,
)
    requires
        bus.entities.contains_key(conn),
    ensures
        bus.entities[conn].kvstore.contains_key(key) && bus.entities[conn].kvstore[key].1
            == AccessTag::Private ==> remote_get(bus.entities[conn].kvstore, key) == Err::<
            Option<Seq<u8>>,
            EntityError,
        >(EntityError::NotAllowed),
        bus.entities[conn].kvstore.contains_key(key) && bus.entities[conn].kvstore[key].1
            != AccessTag::Public ==> remote_write(bus.entities[conn].kvstore, key) == Err::<
            (),
            EntityError,
        >(EntityError::NotAllowned),
        set_private_step(bus, conn, reqid, key, value).1.frames.last() == (
            conn,
            ResponseView { reqid, kind: ResponseKind::RESP, payload: ResponsePayloadView::Success },
        ),
        set_private_step(bus, conn, reqid, key, value).0.entities[conn].kvstore[key] == (
            Some(value),
            AccessTag::Public,
        ),
{
}

/// Binding a name is seen by those who observe it: when `SET` on the
/// registry goes through, each connected subscriber of the topic of the
/// name with a stream on it is sent the value that came with the request.
pub proof fn lemma_binding_is_observed(
    bus: BusView,
    conn: EntityId,
    reqid: u32,
    target: Seq<u8>,
    name: Seq<u8>,
    value: Seq<u8>,
    observer: EntityId,
)
    requires
        bus.entities.contains_key(conn),
        target_of(bus, target) == Target::Registry,
        binding_error(bus.registry, Some(conn), name) is None,
        list_at(bus.events.subscribers, (crate::registry::registry_name(), name)).contains(
            observer,
        ),
        bus.entities.contains_key(observer),
        bus.entities[observer].event_subscribe.contains_key(
            (crate::registry::registry_name(), name),
        ),
    ensures
        set_step(bus, conn, reqid, target, name, value).1.frames.contains(
            (
                observer,
                ResponseView {
                    reqid: bus.entities[observer].event_subscribe[(
                        crate::registry::registry_name(),
                        name,
                    )],
                    kind: ResponseKind::NEXT,
                    payload: ResponsePayloadView::SuccessWithData(value),
                },
            ),
        ),
{
    let topic = (crate::registry::registry_name(), name);
    let (after, reaction) = set_step(bus, conn, reqid, target, name, value);
    let to = list_at(after.events.subscribers, topic);
    lemma_fanout_reaches(after.entities, BrokerKind::Event, to, topic, Some(value), observer);
    let frames = fanout(after.entities, BrokerKind::Event, to, topic, Some(value));
    let frame = stream_frame_of(after.entities, BrokerKind::Event, observer, topic, Some(value));
    let i = choose|i: int| 0 <= i < frames.len() && frames[i] == frame;
    assert(reaction.frames[i] == frame);
}

/// Releasing a name is seen by those who observe it: when `DEL` on the
/// registry goes through, each connected subscriber of the topic of the
/// name with a stream on it is sent a frame without data.
pub proof fn lemma_release_is_observed(
    bus: BusView,
    conn: EntityId,
    reqid: u32,
    target: Seq<u8>,
    name: Seq<u8>,
    observer: EntityId,
)
    requires
        bus.entities.contains_key(conn),
        target_of(bus, target) == Target::Registry,
        release_error(bus.registry, Some(conn), name) is None,
        list_at(bus.events.subscribers, (crate::registry::registry_name(), name)).contains(
            observer,
        ),
        bus.entities.contains_key(observer),
        bus.entities[observer].event_subscribe.contains_key(
            (crate::registry::registry_name(), name),
        ),
    ensures
        del_step(bus, conn, reqid, target, name).1.frames.contains(
            (
                observer,
                ResponseView {
                    reqid: bus.entities[observer].event_subscribe[(
                        crate::registry::registry_name(),
                        name,
                    )],
                    kind: ResponseKind::NEXT,
                    payload: ResponsePayloadView::Success,
                },
            ),
        ),
{
    let topic = (crate::registry::registry_name(), name);
    let (after, reaction) = del_step(bus, conn, reqid, target, name);
    let to = list_at(after.events.subscribers, topic);
    lemma_fanout_reaches(after.entities, BrokerKind::Event, to, topic, None, observer);
    let frames = fanout(after.entities, BrokerKind::Event, to, topic, None);
    let frame = stream_frame_of(after.entities, BrokerKind::Event, observer, topic, None);
    let i = choose|i: int| 0 <= i < frames.len() && frames[i] == frame;
    assert(reaction.frames[i] == frame);
}

/// A call is routed there and back. When the entity `caller` calls the
/// entity `callee` under its request id `reqid`, the client of `callee`
/// is sent one `CALL` frame, under some responder id, with the key and the
/// payload of the call; and when that client then answers under the
/// responder id with `RESPONSE`, the client of `caller` is sent the answer
/// under `reqid`.
pub proof fn lemma_call_is_routed(
    bus: BusView,
    caller: EntityId,
    callee: EntityId,
    reqid: u32,
    target: Seq<u8>,
    key: Seq<u8>,
    payload: Seq<u8>,
    after: BusView,
    reaction: ReactionView,
    result: Seq<u8>,
)
    requires
        bus.entities.contains_key(caller),
        target_of(bus, target) == Target::External(callee),
        exists|rid: u32| !bus.entities[callee].call_record.contains_key(rid),
        call_done(bus, caller, reqid, target, key, payload, after, reaction),
    ensures
        reaction.frames.len() == 1,
        reaction.frames[0].0 == callee,
        reaction.frames[0].1.kind == ResponseKind::CALL,
        reaction.frames[0].1.payload == ResponsePayloadView::SuccessWithData(
            call_payload(key, payload),
        ),
        after.entities.contains_key(callee),
        answer_step(
            after,
            callee,
            reaction.frames[0].1.reqid,
            ResponsePayloadView::SuccessWithData(result),
        ).1.frames == seq![
            (
                caller,
                ResponseView {
                    reqid,
                    kind: ResponseKind::RESP,
                    payload: ResponsePayloadView::SuccessWithData(result),
                },
            ),
        ],
{
    let rid = choose|rid: u32|
        #[trigger] called(bus, caller, reqid, callee, rid, key, payload, after, reaction);
    assert(called(bus, caller, reqid, callee, rid, key, payload, after, reaction));
}

/// A client that was let go is gone for good: once the clients of `gone`
/// are let go, the entity of each of them is not there, and no name stands
/// for it.
pub proof fn lemma_gone_is_gone(bus: BusView, gone: Seq<EntityId>, id: EntityId)
    requires
        gone.contains(id),
    ensures
        !let_go(bus, gone).entities.contains_key(id),
        forall|name: Seq<u8>|
            let_go(bus, gone).registry.forward.contains_key(name) ==> (#[trigger] let_go(
                bus,
                gone,
            ).registry.forward[name]).entity != id,
        forall|name: Seq<u8>|
            let_go(bus, gone).registry.forward.contains_key(name) ==> target_of(
                let_go(bus, gone),
                name,
            ) != Target::External(id),
    decreases gone.len(),
{
    let before = let_go(bus, gone.drop_last());
    if gone.last() != id {
        let i = choose|i: int| 0 <= i < gone.len() && gone[i] == id;
        assert(gone.drop_last()[i] == id);
        lemma_gone_is_gone(bus, gone.drop_last(), id);
    }
}

} // verus!
