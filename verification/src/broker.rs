//! Brokers: who listens to which topic.
//!
//! A broker keeps, for each topic, the set of subscribers that are held
//! weakly (they go when their owner goes, see `cleanup`) and a list of
//! alternative subscribers that are held strongly and go when they report
//! their own end. A broker does not deliver: `send` says whom a publication
//! goes to, and `settle` takes note of what the alternative subscribers
//! answered.

use crate::packet::Response;
use crate::short_text::{lex_compare, lex_sign, order_of, ShortText};
use crate::table::{Key, Table};
use multimap::MultiMap;
use vstd::prelude::*;
use std::cmp::Ordering;
use vstd::std_specs::cmp::{PartialEqSpecImpl, PartialOrdSpecImpl};

verus! {

/// A topic: the name of its owner and a key of that owner. Two topics are
/// the same where both names hold the same; their hashes then agree, since
/// a short text is zero past its length.
#[derive(Debug, Clone, Copy, Hash)]
pub struct EventKey(pub ShortText, pub ShortText);

impl View for EventKey {
    type V = (Seq<u8>, Seq<u8>);

    open spec fn view(&self) -> (Seq<u8>, Seq<u8>) {
        (self.0@, self.1@)
    }
}

impl PartialEq for EventKey {
    fn eq(&self, other: &EventKey) -> (same: bool) {
        self.0 == other.0 && self.1 == other.1
    }
}

impl PartialEqSpecImpl for EventKey {
    open spec fn obeys_eq_spec() -> bool {
        true
    }

    open spec fn eq_spec(&self, other: &EventKey) -> bool {
        self@ == other@
    }
}

impl Eq for EventKey {

}

/// The sign of the order of two topics: by owner, then by key.
pub open spec fn topic_sign(left: (Seq<u8>, Seq<u8>), right: (Seq<u8>, Seq<u8>)) -> int {
    if lex_sign(left.0, right.0) != 0 {
        lex_sign(left.0, right.0)
    } else {
        lex_sign(left.1, right.1)
    }
}

impl PartialOrd for EventKey {
    fn partial_cmp(&self, other: &EventKey) -> (order: Option<Ordering>) {
        let by_owner = lex_compare(self.0.as_bytes(), other.0.as_bytes());
        let sign = if by_owner != 0 {
            by_owner
        } else {
            lex_compare(self.1.as_bytes(), other.1.as_bytes())
        };
        if sign < 0 {
            Some(Ordering::Less)
        } else if sign > 0 {
            Some(Ordering::Greater)
        } else {
            Some(Ordering::Equal)
        }
    }
}

impl PartialOrdSpecImpl for EventKey {
    open spec fn obeys_partial_cmp_spec() -> bool {
        true
    }

    open spec fn partial_cmp_spec(&self, other: &EventKey) -> Option<Ordering> {
        order_of(topic_sign(self@, other@))
    }
}

impl Key for EventKey {
    fn same(&self, other: &EventKey) -> (same: bool) {
        self.0 == other.0 && self.1 == other.1
    }
}

/// A subscriber to notifications: it is handed each notification on a topic
/// and says what its client is to be sent, if anything.
pub trait NotifyReceiver {
    fn on_notify(&self, key: &EventKey, data: Option<&[u8]>) -> Option<Response>;
}

/// A subscriber to events: it is handed each event on a topic and says what
/// its client is to be sent, if anything.
pub trait EventReceiver {
    fn on_event(&self, key: &EventKey, data: Option<&[u8]>) -> Option<Response>;
}

/// `multimap::MultiMap`: a map from keys to lists of values. Nothing of a
/// value of this type is seen but through `alternative_lists`.
#[verifier::external_type_specification]
#[verifier::external_body]
#[verifier::reject_recursive_types(K)]
#[verifier::reject_recursive_types(V)]
#[verifier::reject_recursive_types(S)]
pub struct ExMultiMap<K, V, S>(MultiMap<K, V, S>);

/// The alternative subscribers of a broker, topic by topic.
pub type Alternatives = MultiMap<EventKey, u64>;

/// Lists of subscribers, topic by topic.
pub type Lists = Map<(Seq<u8>, Seq<u8>), Seq<u64>>;

/// What a multimap of alternative subscribers holds: for each topic that it
/// has, the subscribers in the order in which they were registered.
pub uninterp spec fn alternative_lists(map: Alternatives) -> Lists;

/// The list at `key`, empty where there is none.
pub open spec fn list_at(lists: Lists, key: (Seq<u8>, Seq<u8>)) -> Seq<u64> {
    if lists.contains_key(key) {
        lists[key]
    } else {
        Seq::empty()
    }
}

/// `MultiMap::new`: a multimap without topics.
#[verifier::external_body]
fn alternatives_new() -> (made: Alternatives)
    ensures
        alternative_lists(made) == Lists::empty(),
{
    MultiMap::new()
}

/// `MultiMap::insert`: `id` goes to the end of the list at `key`, which is
/// made where the multimap has none. Topics are told apart by `==` and found
/// by their hash, which both go by what the two names hold.
#[verifier::external_body]
fn alternatives_insert(map: &mut Alternatives, key: EventKey, id: u64)
    ensures
        alternative_lists(*final(map)) == alternative_lists(*old(map)).insert(
            key@,
            list_at(alternative_lists(*old(map)), key@).push(id),
        ),
{
    map.insert(key, id)
}

/// `MultiMap::get_vec`: a copy of the list at `key`, if the multimap has
/// the topic.
#[verifier::external_body]
fn alternatives_get(map: &Alternatives, key: &EventKey) -> (list: Option<Vec<u64>>)
    ensures
        list is Some == alternative_lists(*map).contains_key(key@),
        list matches Some(ids) ==> ids@ == alternative_lists(*map)[key@],
{
    map.get_vec(key).cloned()
}

/// `MultiMap::remove`: takes the topic `key` out and hands its list over, if
/// the multimap has the topic.
#[verifier::external_body]
fn alternatives_remove(map: &mut Alternatives, key: &EventKey) -> (list: Option<
    Vec<u64>,
>)
    ensures
        alternative_lists(*final(map)) == alternative_lists(*old(map)).remove(key@),
        list is Some == alternative_lists(*old(map)).contains_key(key@),
        list matches Some(ids) ==> ids@ == alternative_lists(*old(map))[key@],
{
    map.remove(key)
}

/// `MultiMap::insert_many`: `ids` go to the end of the list at `key`, in
/// their order; the list is made where the multimap has none.
#[verifier::external_body]
fn alternatives_insert_many(map: &mut Alternatives, key: EventKey, ids: Vec<u64>)
    ensures
        alternative_lists(*final(map)) == alternative_lists(*old(map)).insert(
            key@,
            list_at(alternative_lists(*old(map)), key@) + ids@,
        ),
{
    map.insert_many(key, ids)
}

/// `list` with `id` in it: as it is where it holds `id`, with `id` at the end
/// where it does not.
pub open spec fn with_subscriber(list: Seq<u64>, id: u64) -> Seq<u64> {
    if list.contains(id) {
        list
    } else {
        list.push(id)
    }
}

/// `list` without the subscribers that `expired` names.
pub open spec fn without_expired(list: Seq<u64>, expired: Seq<u64>) -> Seq<u64> {
    list.filter(|id: u64| !expired.contains(id))
}

/// `list` without the subscribers whose place in `alive` holds `false`. A
/// place that `alive` does not reach counts as alive.
pub open spec fn kept(list: Seq<u64>, alive: Seq<bool>) -> Seq<u64>
    decreases list.len(),
{
    if list.len() == 0 {
        list
    } else if list.len() <= alive.len() && !alive[list.len() - 1] {
        kept(list.drop_last(), alive)
    } else {
        kept(list.drop_last(), alive).push(list.last())
    }
}

/// Whether `list` holds `id`.
pub fn holds(list: &Vec<u64>, id: u64) -> (held: bool)
    ensures
        held == list@.contains(id),
{
    let mut i: usize = 0;
    while i < list.len()
        invariant
            i <= list@.len(),
            forall|j: int| 0 <= j < i ==> list@[j] != id,
        decreases list@.len() - i,
    {
        if list[i] == id {
            return true;
        }
        i += 1;
    }
    false
}

/// A set of subscribers, in the order in which they were registered.
pub struct IdSet {
    ids: Vec<u64>,
}

impl View for IdSet {
    type V = Seq<u64>;

    closed spec fn view(&self) -> Seq<u64> {
        self.ids@
    }
}

impl IdSet {
    #[verifier::type_invariant]
    closed spec fn distinct(&self) -> bool {
        self.ids@.no_duplicates()
    }

    /// The empty set.
    pub fn new() -> (set: IdSet)
        ensures
            set@ == Seq::<u64>::empty(),
    {
        IdSet { ids: Vec::new() }
    }

    /// The subscribers, each once.
    pub fn ids(&self) -> (ids: &Vec<u64>)
        ensures
            ids@ == self@,
            self@.no_duplicates(),
    {
        proof {
            use_type_invariant(self);
        }
        &self.ids
    }

    /// The set with `id` in it.
    pub fn insert(self, id: u64) -> (set: IdSet)
        ensures
            set@ == with_subscriber(self@, id),
    {
        proof {
            use_type_invariant(&self);
        }
        if holds(&self.ids, id) {
            self
        } else {
            let mut ids = self.ids;
            ids.push(id);
            IdSet { ids }
        }
    }

    /// The set without the subscribers that `expired` names.
    pub fn without(&self, expired: &Vec<u64>) -> (set: IdSet)
        ensures
            set@ == without_expired(self@, expired@),
    {
        proof {
            use_type_invariant(self);
        }
        let ghost live = |id: u64| !expired@.contains(id);
        let mut ids: Vec<u64> = Vec::new();
        let mut i: usize = 0;
        while i < self.ids.len()
            invariant
                i <= self.ids@.len(),
                live == (|id: u64| !expired@.contains(id)),
                ids@ == self.ids@.take(i as int).filter(live),
                self.ids@.no_duplicates(),
            decreases self.ids@.len() - i,
        {
            let id = self.ids[i];
            proof {
                reveal(Seq::filter);
                assert(self.ids@.take(i + 1).drop_last() =~= self.ids@.take(i as int));
            }
            if !holds(expired, id) {
                ids.push(id);
            }
            i += 1;
        }
        proof {
            assert(self.ids@.take(i as int) =~= self.ids@);
            lemma_filter_distinct(self.ids@, live);
        }
        IdSet { ids }
    }
}

/// What is left of a list without duplicates has none.
pub proof fn lemma_filter_distinct(list: Seq<u64>, keep: spec_fn(u64) -> bool)
    requires
        list.no_duplicates(),
    ensures
        list.filter(keep).no_duplicates(),
        forall|id: u64| list.filter(keep).contains(id) <==> list.contains(id) && keep(id),
    decreases list.len(),
{
    reveal(Seq::filter);
    if list.len() > 0 {
        let front = list.drop_last();
        lemma_filter_distinct(front, keep);
        assert forall|id: u64| list.filter(keep).contains(id) <==> list.contains(id) && keep(
            id,
        ) by {
            if list.contains(id) {
                let i = choose|i: int| 0 <= i < list.len() && list[i] == id;
                if i < list.len() - 1 {
                    assert(front[i] == id);
                }
            }
            if front.contains(id) {
                let i = choose|i: int| 0 <= i < front.len() && front[i] == id;
                assert(list[i] == id);
            }
            if keep(list.last()) {
                assert(list.filter(keep) == front.filter(keep).push(list.last()));
                assert(front.filter(keep).push(list.last()).last() == list.last());
                if list.filter(keep).contains(id) {
                    let i = choose|i: int|
                        0 <= i < list.filter(keep).len() && list.filter(keep)[i] == id;
                    if i < front.filter(keep).len() {
                        assert(front.filter(keep)[i] == id);
                    }
                }
                if front.filter(keep).contains(id) {
                    let i = choose|i: int|
                        0 <= i < front.filter(keep).len() && front.filter(keep)[i] == id;
                    assert(list.filter(keep)[i] == id);
                }
                if id == list.last() {
                    assert(list.filter(keep)[list.filter(keep).len() - 1] == id);
                }
            }
        }
        if keep(list.last()) {
            if front.contains(list.last()) {
                let i = choose|i: int| 0 <= i < front.len() && front[i] == list.last();
                assert(list[i] == list[list.len() - 1]);
            }
            assert(!front.filter(keep).contains(list.last()));
        }
    }
}

/// What a publication on a topic goes to.
pub struct Delivery {
    /// The weakly held subscribers, each once.
    pub subscribers: Vec<u64>,
    /// The alternative subscribers, in the order in which they are asked.
    pub alternatives: Vec<u64>,
}

/// The subscribers of the topics of one kind of publication.
pub struct Broker {
    map: Table<EventKey, IdSet>,
    alt_map: Alternatives,
}

/// What a `Broker` holds.
#[verifier::ext_equal]
pub struct BrokerView {
    /// The weakly held subscribers of each topic that has a set of them, in
    /// the order in which they were registered.
    pub subscribers: Lists,
    /// The alternative subscribers of each topic that has a list of them,
    /// in the order in which they were registered.
    pub alternatives: Lists,
}

impl View for Broker {
    type V = BrokerView;

    closed spec fn view(&self) -> BrokerView {
        BrokerView {
            subscribers: self.map@.map_values(|set: IdSet| set@),
            alternatives: alternative_lists(self.alt_map),
        }
    }
}

/// The sets of `subscribers` without the subscribers that `expired` names,
/// and without the topics whose set is then empty.
pub open spec fn swept(subscribers: Lists, expired: Seq<u64>) -> Lists {
    Map::new(
        |key: (Seq<u8>, Seq<u8>)|
            subscribers.contains_key(key) && without_expired(subscribers[key], expired).len() > 0,
        |key: (Seq<u8>, Seq<u8>)| without_expired(subscribers[key], expired),
    )
}

/// The lists of `alternatives` once the subscribers of the topic `key`
/// have answered `alive`.
pub open spec fn settled(alternatives: Lists, key: (Seq<u8>, Seq<u8>), alive: Seq<bool>) -> Lists {
    if alternatives.contains_key(key) {
        alternatives.insert(key, kept(alternatives[key], alive))
    } else {
        alternatives
    }
}

impl Broker {
    /// A broker without subscribers.
    pub fn new() -> (broker: Broker)
        ensures
            broker@ == (BrokerView { subscribers: Map::empty(), alternatives: Map::empty() }),
    {
        let broker = Broker { map: Table::new(), alt_map: alternatives_new() };
        assert(broker@.subscribers =~= Map::empty());
        broker
    }

    /// Whom a publication on the topic `key` goes to: every weakly held
    /// subscriber once, then the alternative subscribers in their order.
    pub fn send(&self, key: &EventKey) -> (plan: Delivery)
        ensures
            plan.subscribers@ == list_at(self@.subscribers, key@),
            plan.subscribers@.no_duplicates(),
            plan.alternatives@ == list_at(self@.alternatives, key@),
    {
        let subscribers = match self.map.get(key) {
            Some(set) => copy_ids(set.ids()),
            None => Vec::new(),
        };
        let alternatives = match alternatives_get(&self.alt_map, key) {
            Some(list) => list,
            None => Vec::new(),
        };
        Delivery { subscribers, alternatives }
    }

    /// Takes note of what the alternative subscribers of the topic `key`
    /// answered to a publication: `alive` holds the answers in the order of
    /// `send`, and who answered `false` is dropped.
    pub fn settle(&mut self, key: &EventKey, alive: &Vec<bool>)
        ensures
            final(self)@ == (BrokerView {
                alternatives: settled(old(self)@.alternatives, key@, alive@),
                ..old(self)@
            }),
    {
        match alternatives_remove(&mut self.alt_map, key) {
            Some(list) => {
                let left = retain_alive(&list, alive);
                alternatives_insert_many(&mut self.alt_map, *key, left);
                proof {
                    assert(Seq::<u64>::empty() + left@ =~= left@);
                    assert(final(self)@.alternatives =~= settled(
                        old(self)@.alternatives,
                        key@,
                        alive@,
                    ));
                }
            },
            None => {
                proof {
                    assert(final(self)@.alternatives =~= old(self)@.alternatives);
                }
            },
        }
    }

    /// Registers `sender` as a weakly held subscriber of the topic `key`.
    /// Registering a subscriber again changes nothing.
    pub fn register(&mut self, sender: u64, key: EventKey)
        ensures
            final(self)@ == (BrokerView {
                subscribers: old(self)@.subscribers.insert(
                    key@,
                    with_subscriber(list_at(old(self)@.subscribers, key@), sender),
                ),
                ..old(self)@
            }),
    {
        let set = match self.map.remove(&key) {
            Some(set) => set,
            None => IdSet::new(),
        };
        self.map.insert(key, set.insert(sender));
        proof {
            assert(final(self)@.subscribers =~= old(self)@.subscribers.insert(
                key@,
                with_subscriber(list_at(old(self)@.subscribers, key@), sender),
            ));
        }
    }

    /// Registers `recv` as an alternative subscriber of the topic `key`,
    /// behind those that the topic has.
    pub fn alternative_register(&mut self, recv: u64, key: EventKey)
        ensures
            final(self)@ == (BrokerView {
                alternatives: old(self)@.alternatives.insert(
                    key@,
                    list_at(old(self)@.alternatives, key@).push(recv),
                ),
                ..old(self)@
            }),
    {
        alternatives_insert(&mut self.alt_map, key, recv);
    }

    /// Drops the weakly held subscribers that `expired` names, and the
    /// topics that are left without one.
    pub fn cleanup(&mut self, expired: &Vec<u64>)
        ensures
            final(self)@ == (BrokerView {
                subscribers: swept(old(self)@.subscribers, expired@),
                ..old(self)@
            }),
    {
        let mut fresh: Table<EventKey, IdSet> = Table::new();
        let count = self.map.len();
        let mut i: usize = 0;
        proof {
            self.map.lemma_keys();
        }
        while i < count
            invariant
                i <= count,
                count == self.map.keys().len(),
                self.map.keys().no_duplicates(),
                forall|key: (Seq<u8>, Seq<u8>)|
                    #![trigger fresh@.contains_key(key)]
                    fresh@.contains_key(key) ==> self.map@.contains_key(key) && fresh@[key]@
                        == without_expired(self.map@[key]@, expired@) && fresh@[key]@.len() > 0,
                forall|j: int|
                    0 <= j < i && without_expired(
                        self.map@[#[trigger] self.map.keys()[j]]@,
                        expired@,
                    ).len() > 0 ==> fresh@.contains_key(self.map.keys()[j]),
            decreases count - i,
        {
            let (key, set) = self.map.entry_at(i);
            let left = set.without(expired);
            if left.ids().len() > 0 {
                fresh.insert(*key, left);
            }
            i += 1;
        }
        proof {
            self.map.lemma_keys();
            assert forall|key: (Seq<u8>, Seq<u8>)|
                self.map@.contains_key(key) && without_expired(self.map@[key]@, expired@).len()
                    > 0 implies fresh@.contains_key(key) by {
                assert(self.map.keys().contains(key));
                let j = choose|j: int| 0 <= j < self.map.keys().len() && self.map.keys()[j] == key;
                assert(self.map.keys()[j] == key);
            }
            assert(fresh@.map_values(|set: IdSet| set@) =~= swept(old(self)@.subscribers, expired@));
        }
        self.map = fresh;
    }
}

/// Registering a subscriber a second time changes nothing, and a
/// publication then goes to it once.
pub proof fn lemma_register_twice(list: Seq<u64>, id: u64)
    requires
        list.no_duplicates(),
    ensures
        with_subscriber(with_subscriber(list, id), id) == with_subscriber(list, id),
        with_subscriber(list, id).no_duplicates(),
        with_subscriber(list, id).filter(|other: u64| other == id).len() == 1,
{
    let once = with_subscriber(list, id);
    let same = |other: u64| other == id;
    if !list.contains(id) {
        assert(list.push(id)[list.len() as int] == id);
        assert(list.push(id).contains(id));
        assert forall|i: int, j: int| 0 <= i < j < once.len() implies once[i] != once[j] by {
            if j == list.len() {
                assert(list.contains(list[i]));
            }
        }
    }
    lemma_count_one(once, id);
}

/// A value of a list without duplicates occurs in it once.
pub proof fn lemma_count_one(list: Seq<u64>, id: u64)
    requires
        list.no_duplicates(),
    ensures
        list.filter(|other: u64| other == id).len() == if list.contains(id) {
            1nat
        } else {
            0nat
        },
    decreases list.len(),
{
    let same = |other: u64| other == id;
    reveal(Seq::filter);
    if list.len() > 0 {
        let front = list.drop_last();
        lemma_count_one(front, id);
        if front.contains(id) {
            let i = choose|i: int| 0 <= i < front.len() && front[i] == id;
            assert(list[i] == id);
            assert(list.last() != id);
        }
        if list.contains(id) && list.last() != id {
            let i = choose|i: int| 0 <= i < list.len() && list[i] == id;
            assert(front[i] == id);
        }
        if list.last() == id {
            assert(list[list.len() - 1] == id);
        }
    }
}

/// An alternative subscriber that answered `false` is not asked again: it
/// is not in what is kept of a list in which it stands once.
pub proof fn lemma_dead_is_dropped(list: Seq<u64>, alive: Seq<bool>, place: int)
    requires
        list.no_duplicates(),
        0 <= place < list.len(),
        place < alive.len(),
        !alive[place],
    ensures
        !kept(list, alive).contains(list[place]),
    decreases list.len(),
{
    lemma_kept_within(list, alive);
    let front = list.drop_last();
    if place < list.len() - 1 {
        lemma_dead_is_dropped(front, alive, place);
        lemma_kept_within(front, alive);
        assert(front[place] == list[place]);
        if kept(list, alive).contains(list[place]) {
            let i = choose|i: int| 0 <= i < kept(list, alive).len() && kept(list, alive)[i] == list[place];
            if i < kept(front, alive).len() {
                assert(kept(front, alive)[i] == list[place]);
            }
        }
    } else {
        lemma_kept_within(front, alive);
        if kept(front, alive).contains(list[place]) {
            assert(front.contains(list[place]));
            let i = choose|i: int| 0 <= i < front.len() && front[i] == list[place];
            assert(list[i] == list[place]);
        }
    }
}

/// What is kept of a list is of the list.
pub proof fn lemma_kept_within(list: Seq<u64>, alive: Seq<bool>)
    ensures
        forall|id: u64| kept(list, alive).contains(id) ==> list.contains(id),
    decreases list.len(),
{
    if list.len() > 0 {
        let front = list.drop_last();
        lemma_kept_within(front, alive);
        assert forall|id: u64| kept(list, alive).contains(id) implies list.contains(id) by {
            let i = choose|i: int| 0 <= i < kept(list, alive).len() && kept(list, alive)[i] == id;
            if i < kept(front, alive).len() {
                assert(kept(front, alive)[i] == id);
                assert(kept(front, alive).contains(id));
                assert(front.contains(id));
                let j = choose|j: int| 0 <= j < front.len() && front[j] == id;
                assert(list[j] == id);
            } else {
                assert(list[list.len() - 1] == id);
            }
        }
    }
}

/// A copy of `ids`.
pub fn copy_ids(ids: &Vec<u64>) -> (copy: Vec<u64>)
    ensures
        copy@ == ids@,
{
    let mut copy: Vec<u64> = Vec::new();
    let mut i: usize = 0;
    while i < ids.len()
        invariant
            i <= ids@.len(),
            copy@ == ids@.take(i as int),
        decreases ids@.len() - i,
    {
        copy.push(ids[i]);
        assert(copy@ =~= ids@.take(i + 1));
        i += 1;
    }
    assert(ids@.take(ids@.len() as int) =~= ids@);
    copy
}

/// `list` without the subscribers whose place in `alive` holds `false`.
pub fn retain_alive(list: &Vec<u64>, alive: &Vec<bool>) -> (left: Vec<u64>)
    ensures
        left@ == kept(list@, alive@),
{
    let mut left: Vec<u64> = Vec::new();
    let mut i: usize = 0;
    while i < list.len()
        invariant
            i <= list@.len(),
            left@ == kept(list@.take(i as int), alive@),
        decreases list@.len() - i,
    {
        proof {
            assert(list@.take(i + 1).drop_last() =~= list@.take(i as int));
        }
        if i < alive.len() && !alive[i] {
        } else {
            left.push(list[i]);
        }
        i += 1;
    }
    assert(list@.take(list@.len() as int) =~= list@);
    left
}

} // verus!
