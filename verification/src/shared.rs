//! The shared bucket: one key/value store that every client reads and
//! writes, and whose changes are published under the name `shared`.

use crate::broker::EventKey;
use crate::entity::{
    bytes_view, listing_view, AccessTag, CallPlan, Entity, EntityError, EntityId, Publication,
    PublicationView,
};
use crate::short_text::ShortText;
use crate::table::Table;
use crate::utils::{ascii, bytes_of};
use vstd::prelude::*;
use vstd::slice::slice_to_vec;

verus! {

/// The name of the shared bucket, and the owner of the topics on which its
/// changes are published.
pub open spec fn shared_name() -> Seq<u8> {
    ascii("shared")
}

/// The name of the shared bucket.
pub fn bucket_name() -> (name: ShortText)
    ensures
        name@ == shared_name(),
{
    proof {
        reveal_strlit("shared");
    }
    ShortText::build(bytes_of("shared").as_slice())
}

/// What the shared bucket publishes when `key` changes to `data`.
pub open spec fn shared_event(key: Seq<u8>, data: Option<Seq<u8>>) -> PublicationView {
    PublicationView { key: (shared_name(), key), data }
}

/// The shared bucket.
pub struct SharedStorage {
    data: Table<ShortText, Vec<u8>>,
}

/// What a `SharedStorage` holds.
#[verifier::ext_equal]
pub struct SharedView {
    /// The value of each key.
    pub data: Map<Seq<u8>, Seq<u8>>,
    /// The keys, in the order in which they came.
    pub keys: Seq<Seq<u8>>,
}

impl View for SharedStorage {
    type V = SharedView;

    closed spec fn view(&self) -> SharedView {
        SharedView { data: self.data@.map_values(|value: Vec<u8>| value@), keys: self.data.keys() }
    }
}

impl SharedStorage {
    /// An empty bucket.
    pub fn new() -> (bucket: SharedStorage)
        ensures
            bucket@ == (SharedView { data: Map::empty(), keys: Seq::empty() }),
    {
        let bucket = SharedStorage { data: Table::new() };
        assert(bucket@.data =~= Map::empty());
        bucket
    }

}

/// The keys of the shared bucket, each public, in the order in which the
/// keys came.
pub open spec fn shared_listing(shared: SharedView) -> Seq<(Seq<u8>, AccessTag)> {
    Seq::new(shared.keys.len(), |i: int| (shared.keys[i], AccessTag::Public))
}

impl Entity for SharedStorage {
    /// The bucket has no name to take note of.
    fn update_name(&mut self, _name: Option<&ShortText>)
        ensures
            final(self)@ == old(self)@,
    {
    }

    /// The value of `key`, if it has one. Nobody is refused.
    fn get(&self, _sender: Option<EntityId>, key: &ShortText) -> (value: Result<
        Option<Vec<u8>>,
        EntityError,
    >)
        ensures
            value is Ok,
            bytes_view(value->Ok_0) == if self@.data.contains_key(key@) {
                Some(self@.data[key@])
            } else {
                None
            },
    {
        match self.data.get(key) {
            Some(value) => Ok(Some(slice_to_vec(value.as_slice()))),
            None => Ok(None),
        }
    }

    /// Gives `key` the value `val`. Nobody is refused. The change is
    /// returned for publication.
    fn set(&mut self, _sender: Option<EntityId>, key: &ShortText, val: Vec<u8>) -> (done: Result<
        Option<Publication>,
        EntityError,
    >)
        ensures
            done is Ok,
            done->Ok_0 is Some,
            done->Ok_0->Some_0@ == shared_event(key@, Some(val@)),
            final(self)@ == (SharedView {
                data: old(self)@.data.insert(key@, val@),
                keys: if old(self)@.data.contains_key(key@) {
                    old(self)@.keys
                } else {
                    old(self)@.keys.push(key@)
                },
            }),
    {
        let data = Some(slice_to_vec(val.as_slice()));
        self.data.insert(*key, val);
        proof {
            assert(final(self)@.data =~= old(self)@.data.insert(key@, val@));
        }
        Ok(Some(Publication { key: EventKey(bucket_name(), *key), data }))
    }

    /// Takes `key` out of the bucket. Nobody is refused, and a key that is
    /// not there is no error. The change is returned for publication.
    fn del(&mut self, _sender: Option<EntityId>, key: &ShortText) -> (done: Result<
        Option<Publication>,
        EntityError,
    >)
        ensures
            done is Ok,
            done->Ok_0 is Some,
            done->Ok_0->Some_0@ == shared_event(key@, None),
            final(self)@ == (SharedView {
                data: old(self)@.data.remove(key@),
                keys: old(self)@.keys.filter(|k: Seq<u8>| k != key@),
            }),
    {
        self.data.remove(key);
        proof {
            assert(final(self)@.data =~= old(self)@.data.remove(key@));
        }
        Ok(Some(Publication { key: EventKey(bucket_name(), *key), data: None }))
    }

    /// Every key, in the order in which the keys came, each tagged public.
    fn keys(&self, _sender: Option<EntityId>) -> (listed: Result<
        Vec<(ShortText, AccessTag)>,
        EntityError,
    >)
        ensures
            listed is Ok,
            listing_view(listed->Ok_0@) == shared_listing(self@),
    {
        let mut list: Vec<(ShortText, AccessTag)> = Vec::new();
        let count = self.data.len();
        let mut i: usize = 0;
        while i < count
            invariant
                i <= count,
                count == self.data.keys().len(),
                list@.len() == i,
                forall|j: int|
                    0 <= j < i ==> (#[trigger] list@[j]).0@ == self@.keys[j] && list@[j].1
                        == AccessTag::Public,
            decreases count - i,
        {
            let (key, _value) = self.data.entry_at(i);
            list.push((*key, AccessTag::Public));
            i += 1;
        }
        proof {
            assert(listing_view(list@) =~= shared_listing(self@));
        }
        Ok(list)
    }

    /// The bucket takes no calls.
    fn call(&mut self, _sender: EntityId, _reqid: u32, _key: &ShortText, _val: &[u8]) -> (plan: Result<
        CallPlan,
        EntityError,
    >)
        ensures
            plan is Err,
            plan->Err_0 == EntityError::NotSupported,
            final(self)@ == old(self)@,
    {
        Err(EntityError::NotSupported)
    }

}

} // verus!
