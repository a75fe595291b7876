//! The registry: which name stands for which entity.
//!
//! Names are bound two ways. A client binds its own entity to a name with
//! `set`, once; the registry then also knows the name of that entity. Names
//! that are installed when the registry is made (its own name among them)
//! are pinned: they are found like the others, and the entity behind them
//! takes no part in the count of names.

use crate::broker::EventKey;
use crate::entity::{
    listing_view, AccessTag, CallPlan, Entity, EntityError, EntityId, Publication, PublicationView,
};
use crate::short_text::ShortText;
use crate::table::Table;
use crate::utils::{ascii, bytes_of};
use std::collections::HashMap;
use vstd::prelude::*;

verus! {

/// What a name is bound to.
#[derive(Clone, Copy, Debug, PartialEq, Eq, Structural)]
pub struct Binding {
    /// The entity that the name stands for.
    pub entity: EntityId,
    /// Whether the name was installed with the registry.
    pub pinned: bool,
}

/// The name of the registry itself, and the owner of the topics on which it
/// publishes what happens to names.
pub open spec fn registry_name() -> Seq<u8> {
    ascii("registry")
}

/// The two directions of the registry.
pub struct BidiMap {
    forward: Table<ShortText, Binding>,
    reverse: HashMap<u64, ShortText>,
}

/// What a `Registry` holds.
#[verifier::ext_equal]
pub struct RegistryView {
    /// What each name is bound to.
    pub forward: Map<Seq<u8>, Binding>,
    /// The names, in the order in which they were bound.
    pub names: Seq<Seq<u8>>,
    /// The name that each entity bound itself to.
    pub reverse: Map<EntityId, Seq<u8>>,
}

impl View for BidiMap {
    type V = RegistryView;

    closed spec fn view(&self) -> RegistryView {
        RegistryView {
            forward: self.forward@,
            names: self.forward.keys(),
            reverse: self.reverse@.map_values(|name: ShortText| name@),
        }
    }
}

impl BidiMap {
    fn new() -> (map: BidiMap)
        ensures
            map@ == (RegistryView {
                forward: Map::empty(),
                names: Seq::empty(),
                reverse: Map::empty(),
            }),
            map.forward@ == Map::<Seq<u8>, Binding>::empty(),
            map.reverse@ == Map::<u64, ShortText>::empty(),
    {
        let map = BidiMap { forward: Table::new(), reverse: HashMap::new() };
        assert(map@.reverse =~= Map::empty());
        map
    }
}

/// Whether the two directions agree: a name that an entity bound itself to
/// is the name that the registry knows of that entity, and the other way
/// round.
pub open spec fn bidirectional(view: RegistryView) -> bool {
    &&& forall|name: Seq<u8>|
        #![trigger view.forward[name]]
        view.forward.contains_key(name) && !view.forward[name].pinned ==> view.reverse.contains_key(
            view.forward[name].entity,
        ) && view.reverse[view.forward[name].entity] == name
    &&& forall|entity: EntityId|
        #![trigger view.reverse[entity]]
        view.reverse.contains_key(entity) ==> view.forward.contains_key(view.reverse[entity])
            && view.forward[view.reverse[entity]] == (Binding { entity, pinned: false })
}

/// What is installed in a registry that is made for the entity `own` with
/// the bindings of `manifest`: the name of the registry, then each binding
/// in turn, a later one in place of an earlier one of the same name.
pub open spec fn installed(own: EntityId, manifest: Seq<(Seq<u8>, EntityId)>) -> Map<
    Seq<u8>,
    Binding,
>
    decreases manifest.len(),
{
    if manifest.len() == 0 {
        Map::empty().insert(registry_name(), Binding { entity: own, pinned: true })
    } else {
        installed(own, manifest.drop_last()).insert(
            manifest.last().0,
            Binding { entity: manifest.last().1, pinned: true },
        )
    }
}

/// The names of a registry that is made with the bindings of `manifest`, in
/// their order: the name of the registry, then each name of the manifest
/// where it first occurs.
pub open spec fn installed_names(manifest: Seq<(Seq<u8>, EntityId)>) -> Seq<Seq<u8>>
    decreases manifest.len(),
{
    if manifest.len() == 0 {
        seq![registry_name()]
    } else {
        let before = installed_names(manifest.drop_last());
        if before.contains(manifest.last().0) {
            before
        } else {
            before.push(manifest.last().0)
        }
    }
}

/// A binding to install when the registry is made: a name and the entity
/// that it stands for.
#[derive(Clone, Copy, Debug)]
pub struct StaticRegistryItem(pub ShortText, pub EntityId);

/// What a manifest holds.
pub open spec fn manifest_view(manifest: Seq<StaticRegistryItem>) -> Seq<(Seq<u8>, EntityId)> {
    manifest.map_values(|item: StaticRegistryItem| (item.0@, item.1))
}

/// What the registry publishes when the name `name` is bound (with the
/// value that came with the request) or released (with nothing).
pub open spec fn name_event(name: Seq<u8>, data: Option<Seq<u8>>) -> PublicationView {
    PublicationView { key: (registry_name(), name), data }
}

/// The error for which `sender` is not bound to the name `name`, if there
/// is one: the name is taken, there is nobody to bind, or the sender has a
/// name.
pub open spec fn binding_error(view: RegistryView, sender: Option<EntityId>, name: Seq<u8>) -> Option<
    EntityError,
> {
    if view.forward.contains_key(name) {
        Some(EntityError::Duplicated)
    } else if sender is None {
        Some(EntityError::NotAllowned)
    } else if view.reverse.contains_key(sender->Some_0) {
        Some(EntityError::TooManyNames)
    } else {
        None
    }
}

/// The error for which `sender` does not release the name `name`, if there
/// is one: the name is not bound, or it stands for another.
pub open spec fn release_error(view: RegistryView, sender: Option<EntityId>, name: Seq<u8>) -> Option<
    EntityError,
> {
    if !view.forward.contains_key(name) {
        Some(EntityError::NotFound)
    } else if sender != Some(view.forward[name].entity) {
        Some(EntityError::NotAllowned)
    } else {
        None
    }
}

/// The registry once `sender` is bound to the name `name`.
pub open spec fn bound(view: RegistryView, sender: EntityId, name: Seq<u8>) -> RegistryView {
    RegistryView {
        forward: view.forward.insert(name, Binding { entity: sender, pinned: false }),
        names: view.names.push(name),
        reverse: view.reverse.insert(sender, name),
    }
}

/// The registry once `sender` has released its name `name`.
pub open spec fn released(view: RegistryView, sender: EntityId, name: Seq<u8>) -> RegistryView {
    RegistryView {
        forward: view.forward.remove(name),
        names: view.names.filter(|other: Seq<u8>| other != name),
        reverse: if view.forward[name].pinned {
            view.reverse
        } else {
            view.reverse.remove(sender)
        },
    }
}

/// The names of the registry as `sender` is shown them, in the order in
/// which they were bound: the name of the sender public, every other name
/// protected.
pub open spec fn registry_listing(registry: RegistryView, sender: Option<EntityId>) -> Seq<
    (Seq<u8>, AccessTag),
> {
    Seq::new(
        registry.names.len(),
        |i: int|
            (
                registry.names[i],
                if sender == Some(registry.forward[registry.names[i]].entity) {
                    AccessTag::Public
                } else {
                    AccessTag::Protected
                },
            ),
    )
}

/// The names of `names` without those that stand for the entity `entity`.
pub open spec fn names_without(
    names: Seq<Seq<u8>>,
    forward: Map<Seq<u8>, Binding>,
    entity: EntityId,
) -> Seq<Seq<u8>> {
    names.filter(|name: Seq<u8>| forward.contains_key(name) && forward[name].entity != entity)
}

/// The bindings of `forward` without those of the entity `entity`.
pub open spec fn without_entity(forward: Map<Seq<u8>, Binding>, entity: EntityId) -> Map<
    Seq<u8>,
    Binding,
> {
    forward.restrict(Set::new(|name: Seq<u8>| forward.contains_key(name) && forward[name].entity != entity))
}

/// The registry once the entity `entity` is forgotten: no name stands for
/// it, and it has none.
pub open spec fn forgotten(view: RegistryView, entity: EntityId) -> RegistryView {
    RegistryView {
        forward: without_entity(view.forward, entity),
        names: names_without(view.names, view.forward, entity),
        reverse: view.reverse.remove(entity),
    }
}

/// The registry of names.
pub struct Registry {
    entities: BidiMap,
}

impl View for Registry {
    type V = RegistryView;

    closed spec fn view(&self) -> RegistryView {
        self.entities@
    }
}

/// The name of the registry.
pub fn own_name() -> (name: ShortText)
    ensures
        name@ == registry_name(),
{
    proof {
        reveal_strlit("registry");
    }
    ShortText::build(bytes_of("registry").as_slice())
}

impl Registry {
    #[verifier::type_invariant]
    closed spec fn agrees(&self) -> bool {
        bidirectional(self.entities@)
    }

    /// A registry for the entity `own`, with its own name and the bindings
    /// of `manifest` installed.
    pub fn init(own: EntityId, manifest: &Vec<StaticRegistryItem>) -> (registry: Registry)
        ensures
            registry@.forward == installed(own, manifest_view(manifest@)),
            registry@.names == installed_names(manifest_view(manifest@)),
            registry@.reverse == Map::<EntityId, Seq<u8>>::empty(),
            bidirectional(registry@),
    {
        let mut map = BidiMap::new();
        map.forward.insert(own_name(), Binding { entity: own, pinned: true });
        let mut i: usize = 0;
        proof {
            assert(manifest_view(manifest@).take(0) =~= Seq::empty());
            assert(map.forward.keys() =~= seq![registry_name()]);
        }
        while i < manifest.len()
            invariant
                i <= manifest@.len(),
                map.forward@ == installed(own, manifest_view(manifest@).take(i as int)),
                map.forward.keys() == installed_names(manifest_view(manifest@).take(i as int)),
                map.reverse@ == Map::<u64, ShortText>::empty(),
                forall|name: Seq<u8>|
                    map.forward@.contains_key(name) ==> (#[trigger] map.forward@[name]).pinned,
            decreases manifest@.len() - i,
        {
            let StaticRegistryItem(name, entity) = manifest[i];
            proof {
                map.forward.lemma_keys();
            }
            map.forward.insert(name, Binding { entity, pinned: true });
            proof {
                let items = manifest_view(manifest@);
                assert(items.take(i + 1).drop_last() =~= items.take(i as int));
                assert(items.take(i + 1).last() == (name@, entity));
            }
            i += 1;
        }
        proof {
            assert(manifest_view(manifest@).take(i as int) =~= manifest_view(manifest@));
            assert(map@.reverse =~= Map::empty());
        }
        Registry { entities: map }
    }

    /// The two directions of the registry agree, whatever was done to it.
    pub fn agrees_both_ways(&self)
        ensures
            bidirectional(self@),
    {
        proof {
            use_type_invariant(self);
        }
    }

    /// The entity that `key` stands for.
    pub fn find(&self, key: &ShortText) -> (entity: Option<EntityId>)
        ensures
            entity == if self@.forward.contains_key(key@) {
                Some(self@.forward[key@].entity)
            } else {
                None
            },
    {
        match self.entities.forward.get(key) {
            Some(binding) => Some(binding.entity),
            None => None,
        }
    }

    /// Forgets the entity `entity`, which is gone: every name that stood
    /// for it is free again. Nothing is published.
    pub fn forget(&mut self, entity: EntityId)
        ensures
            bidirectional(final(self)@),
            final(self)@ == forgotten(old(self)@, entity),
            forall|name: Seq<u8>|
                final(self)@.names.contains(name) <==> final(self)@.forward.contains_key(name),
    {
        proof {
            use_type_invariant(&*self);
        }
        let mut map = BidiMap::new();
        core::mem::swap(&mut map, &mut self.entities);
        let ghost before = map@;
        let mut forward: Table<ShortText, Binding> = Table::new();
        let count = map.forward.len();
        let mut i: usize = 0;
        let ghost stays = |name: Seq<u8>|
            before.forward.contains_key(name) && before.forward[name].entity != entity;
        proof {
            map.forward.lemma_keys();
            assert(map.forward.keys().take(0) =~= Seq::empty());
        }
        while i < count
            invariant
                i <= count,
                count == map.forward.keys().len(),
                map.forward.keys().no_duplicates(),
                before == map@,
                stays == (|name: Seq<u8>|
                    before.forward.contains_key(name) && before.forward[name].entity != entity),
                forward.keys() == map.forward.keys().take(i as int).filter(stays),
                forall|name: Seq<u8>|
                    #![trigger forward@.contains_key(name)]
                    forward@.contains_key(name) ==> map.forward@.contains_key(name) && forward@[name]
                        == map.forward@[name] && map.forward@[name].entity != entity,
                forall|name: Seq<u8>|
                    #![trigger forward@.contains_key(name)]
                    forward@.contains_key(name) ==> exists|j: int|
                        0 <= j < i && map.forward.keys()[j] == name,
                forall|j: int|
                    0 <= j < i && map.forward@[#[trigger] map.forward.keys()[j]].entity != entity
                        ==> forward@.contains_key(map.forward.keys()[j]),
            decreases count - i,
        {
            let (name, binding) = map.forward.entry_at(i);
            proof {
                reveal(Seq::filter);
                let names = map.forward.keys();
                assert(names.take(i + 1).drop_last() =~= names.take(i as int));
                assert(names.take(i + 1).last() == name@);
                if forward@.contains_key(name@) {
                    let j = choose|j: int| 0 <= j < i && names[j] == name@;
                    assert(names[j] == names[i as int]);
                }
            }
            if binding.entity != entity {
                let ghost had = forward@;
                forward.insert(*name, *binding);
                assert forall|other: Seq<u8>| forward@.contains_key(other) implies map.forward@.contains_key(
                    other,
                ) && forward@[other] == map.forward@[other] && map.forward@[other].entity
                    != entity by {
                    if other != name@ {
                        assert(had.contains_key(other));
                    }
                }
                assert forall|other: Seq<u8>| forward@.contains_key(other) implies exists|j: int|
                    0 <= j < i + 1 && map.forward.keys()[j] == other by {
                    if other != name@ {
                        assert(had.contains_key(other));
                        let j = choose|j: int| 0 <= j < i && map.forward.keys()[j] == other;
                        assert(0 <= j < i + 1 && map.forward.keys()[j] == other);
                    } else {
                        assert(map.forward.keys()[i as int] == other);
                    }
                }
            }
            i += 1;
        }
        proof {
            map.forward.lemma_keys();
            assert(map.forward.keys().take(i as int) =~= map.forward.keys());
            assert forall|name: Seq<u8>|
                map.forward@.contains_key(name) && map.forward@[name].entity
                    != entity implies forward@.contains_key(name) by {
                assert(map.forward.keys().contains(name));
                let j = choose|j: int|
                    0 <= j < map.forward.keys().len() && map.forward.keys()[j] == name;
                assert(map.forward.keys()[j] == name);
            }
            assert(forward@ =~= without_entity(before.forward, entity));
            forward.lemma_keys();
        }
        map.forward = forward;
        map.reverse.remove(&entity);
        proof {
            let after = map@;
            assert(after.reverse =~= before.reverse.remove(entity));
            assert forall|other: EntityId| #![trigger after.reverse[other]]
                after.reverse.contains_key(other) implies after.forward.contains_key(
                after.reverse[other],
            ) && after.forward[after.reverse[other]] == (Binding { entity: other, pinned: false }) by {
                assert(before.reverse.contains_key(other));
                assert(before.forward[before.reverse[other]] == (Binding {
                    entity: other,
                    pinned: false,
                }));
            }
            assert forall|name: Seq<u8>| #![trigger after.forward[name]]
                after.forward.contains_key(name) && !after.forward[name].pinned
                implies after.reverse.contains_key(after.forward[name].entity)
                && after.reverse[after.forward[name].entity] == name by {
                assert(before.forward[name] == after.forward[name]);
                assert(before.reverse[before.forward[name].entity] == name);
            }
        }
        self.entities = map;
    }
}

impl Entity for Registry {
    /// The registry has no name to take note of.
    fn update_name(&mut self, _name: Option<&ShortText>)
        ensures
            final(self)@ == old(self)@,
    {
    }

    /// Whether the name `key` is bound. There is never a value.
    fn get(&self, _sender: Option<EntityId>, key: &ShortText) -> (value: Result<
        Option<Vec<u8>>,
        EntityError,
    >)
        ensures
            self@.forward.contains_key(key@) ==> value == Ok::<Option<Vec<u8>>, EntityError>(None),
            !self@.forward.contains_key(key@) ==> value == Err::<Option<Vec<u8>>, EntityError>(
                EntityError::NotFound,
            ),
    {
        if self.entities.forward.contains_key(key) {
            Ok(None)
        } else {
            Err(EntityError::NotFound)
        }
    }

    /// Binds the name `key` to the entity `sender`, where the name is free
    /// and the entity has none. What is returned is to be published on the
    /// event broker, and the entity is to be told its name.
    fn set(&mut self, sender: Option<EntityId>, key: &ShortText, val: Vec<u8>) -> (done: Result<
        Option<Publication>,
        EntityError,
    >)
        ensures
            bidirectional(old(self)@),
            bidirectional(final(self)@),
            match binding_error(old(self)@, sender, key@) {
                Some(e) => done == Err::<Option<Publication>, EntityError>(e) && final(self)@
                    == old(self)@,
                None => done is Ok && done->Ok_0 is Some && done->Ok_0->Some_0@ == name_event(
                    key@,
                    Some(val@),
                ) && final(self)@ == bound(old(self)@, sender->Some_0, key@),
            },
    {
        proof {
            use_type_invariant(&*self);
        }
        if self.entities.forward.contains_key(key) {
            return Err(EntityError::Duplicated);
        }
        let sender = match sender {
            Some(sender) => sender,
            None => {
                return Err(EntityError::NotAllowned);
            },
        };
        if self.entities.reverse.contains_key(&sender) {
            return Err(EntityError::TooManyNames);
        }
        let mut map = BidiMap::new();
        core::mem::swap(&mut map, &mut self.entities);
        map.forward.insert(*key, Binding { entity: sender, pinned: false });
        map.reverse.insert(sender, *key);
        proof {
            assert(map@.reverse =~= old(self)@.reverse.insert(sender, key@));
        }
        self.entities = map;
        Ok(Some(Publication { key: EventKey(own_name(), *key), data: Some(val) }))
    }

    /// Releases the name `key`, where it is bound to the entity `sender`.
    /// What is returned is to be published on the event broker.
    fn del(&mut self, sender: Option<EntityId>, key: &ShortText) -> (done: Result<
        Option<Publication>,
        EntityError,
    >)
        ensures
            bidirectional(old(self)@),
            bidirectional(final(self)@),
            match release_error(old(self)@, sender, key@) {
                Some(e) => done == Err::<Option<Publication>, EntityError>(e) && final(self)@
                    == old(self)@,
                None => done is Ok && done->Ok_0 is Some && done->Ok_0->Some_0@ == name_event(
                    key@,
                    None,
                ) && final(self)@ == released(old(self)@, sender->Some_0, key@),
            },
    {
        proof {
            use_type_invariant(&*self);
        }
        let binding = match self.entities.forward.get(key) {
            Some(binding) => *binding,
            None => {
                return Err(EntityError::NotFound);
            },
        };
        let sender = match sender {
            Some(sender) => sender,
            None => {
                return Err(EntityError::NotAllowned);
            },
        };
        if binding.entity != sender {
            return Err(EntityError::NotAllowned);
        }
        let mut map = BidiMap::new();
        core::mem::swap(&mut map, &mut self.entities);
        map.forward.remove(key);
        if !binding.pinned {
            map.reverse.remove(&sender);
            proof {
                assert(map@.reverse =~= old(self)@.reverse.remove(sender));
            }
        }
        proof {
            let before = old(self)@;
            let after = map@;
            assert forall|entity: EntityId| #![trigger after.reverse[entity]]
                after.reverse.contains_key(entity) implies after.forward.contains_key(
                after.reverse[entity],
            ) && after.forward[after.reverse[entity]] == (Binding { entity, pinned: false }) by {
                assert(before.reverse.contains_key(entity));
                assert(before.forward[before.reverse[entity]] == (Binding {
                    entity,
                    pinned: false,
                }));
            }
            assert forall|name: Seq<u8>| #![trigger after.forward[name]]
                after.forward.contains_key(name) && !after.forward[name].pinned
                implies after.reverse.contains_key(after.forward[name].entity)
                && after.reverse[after.forward[name].entity] == name by {
                assert(before.forward[name] == after.forward[name]);
                assert(before.reverse[before.forward[name].entity] == name);
            }
        }
        self.entities = map;
        Ok(Some(Publication { key: EventKey(own_name(), *key), data: None }))
    }

    /// Every name, in the order in which the names were bound. The name of
    /// `sender` is tagged public, every other name protected.
    fn keys(&self, sender: Option<EntityId>) -> (listed: Result<
        Vec<(ShortText, AccessTag)>,
        EntityError,
    >)
        ensures
            listed is Ok,
            listing_view(listed->Ok_0@) == registry_listing(self@, sender),
    {
        let mut list: Vec<(ShortText, AccessTag)> = Vec::new();
        let count = self.entities.forward.len();
        let mut i: usize = 0;
        while i < count
            invariant
                i <= count,
                count == self.entities.forward.keys().len(),
                list@.len() == i,
                forall|j: int|
                    0 <= j < i ==> (#[trigger] list@[j]).0@ == self@.names[j] && list@[j].1 == if sender
                        == Some(self@.forward[self@.names[j]].entity) {
                        AccessTag::Public
                    } else {
                        AccessTag::Protected
                    },
            decreases count - i,
        {
            let (name, binding) = self.entities.forward.entry_at(i);
            let tag = match sender {
                Some(id) => if binding.entity == id {
                    AccessTag::Public
                } else {
                    AccessTag::Protected
                },
                None => AccessTag::Protected,
            };
            list.push((*name, tag));
            i += 1;
        }
        proof {
            assert(listing_view(list@) =~= registry_listing(self@, sender));
        }
        Ok(list)
    }

    /// The registry takes no calls.
    fn call(&mut self, _sender: EntityId, _reqid: u32, _key: &ShortText, _val: &[u8]) -> (plan: Result<
        CallPlan,
        EntityError,
    >)
        ensures
            plan is Err,
            plan->Err_0 == EntityError::NotSupported,
            final(self)@ == old(self)@,
    {
        Err(EntityError::NotSupported)
    }
}

/// An entity that bound itself to a name has that one name: two names that
/// it bound itself to are the same, and the registry knows the entity by it.
pub proof fn lemma_one_name(view: RegistryView, entity: EntityId, first: Seq<u8>, second: Seq<u8>)
    requires
        bidirectional(view),
        view.forward.contains_key(first),
        view.forward[first] == (Binding { entity, pinned: false }),
        view.forward.contains_key(second),
        view.forward[second] == (Binding { entity, pinned: false }),
    ensures
        first == second,
        view.reverse.contains_key(entity),
        view.reverse[entity] == first,
{
}

/// An entity that has a name is refused another: after a first `set` went
/// through, a second by the same entity is answered `too many names`,
/// whatever free name it asks for.
pub proof fn lemma_second_name_refused(
    before: RegistryView,
    sender: EntityId,
    first: Seq<u8>,
    second: Seq<u8>,
)
    requires
        binding_error(before, Some(sender), first) is None,
        second != first,
        !before.forward.contains_key(second),
    ensures
        binding_error(bound(before, sender, first), Some(sender), second) == Some(
            EntityError::TooManyNames,
        ),
{
}

/// Once an entity is forgotten, a name that stood for it is neither found
/// nor listed.
pub proof fn lemma_forgotten_name_is_gone(
    before: RegistryView,
    after: RegistryView,
    entity: EntityId,
    name: Seq<u8>,
)
    requires
        after.forward == without_entity(before.forward, entity),
        forall|other: Seq<u8>| after.names.contains(other) <==> after.forward.contains_key(other),
        before.forward.contains_key(name),
        before.forward[name].entity == entity,
    ensures
        !after.forward.contains_key(name),
        !after.names.contains(name),
{
}

} // verus!
