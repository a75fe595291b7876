use minibus::broker::{copy_ids, holds, retain_alive, Broker, EventKey, IdSet};
use minibus::short_text::ShortText;

fn topic(owner: &[u8], key: &[u8]) -> EventKey {
    EventKey(ShortText::build(owner), ShortText::build(key))
}

#[test]
fn registering_twice_delivers_once() {
    let mut broker = Broker::new();
    broker.register(5, topic(b"a", b"k"));
    broker.register(5, topic(b"a", b"k"));
    broker.register(6, topic(b"a", b"k"));
    broker.register(5, topic(b"a", b"k"));
    let plan = broker.send(&topic(b"a", b"k"));
    assert_eq!(plan.subscribers, vec![5u64, 6]);
    assert!(plan.alternatives.is_empty());
}

#[test]
fn topics_are_kept_apart() {
    let mut broker = Broker::new();
    broker.register(5, topic(b"a", b"k"));
    broker.register(6, topic(b"a", b"l"));
    broker.register(7, topic(b"ak", b""));
    assert_eq!(broker.send(&topic(b"a", b"k")).subscribers, vec![5u64]);
    assert_eq!(broker.send(&topic(b"a", b"l")).subscribers, vec![6u64]);
    assert_eq!(broker.send(&topic(b"ak", b"")).subscribers, vec![7u64]);
    assert!(broker.send(&topic(b"", b"ak")).subscribers.is_empty());
}

#[test]
fn alternatives_keep_their_order_and_their_duplicates() {
    let mut broker = Broker::new();
    broker.alternative_register(9, topic(b"a", b"k"));
    broker.alternative_register(8, topic(b"a", b"k"));
    broker.alternative_register(9, topic(b"a", b"k"));
    broker.alternative_register(1, topic(b"b", b"k"));
    let plan = broker.send(&topic(b"a", b"k"));
    assert_eq!(plan.alternatives, vec![9u64, 8, 9]);
    assert!(plan.subscribers.is_empty());
    assert_eq!(broker.send(&topic(b"b", b"k")).alternatives, vec![1u64]);
}

#[test]
fn dead_alternative_is_not_asked_again() {
    let mut broker = Broker::new();
    for id in [1u64, 2, 3, 4] {
        broker.alternative_register(id, topic(b"a", b"k"));
    }
    broker.alternative_register(7, topic(b"b", b"k"));
    broker.settle(&topic(b"a", b"k"), &vec![true, false, true, false]);
    assert_eq!(broker.send(&topic(b"a", b"k")).alternatives, vec![1u64, 3]);
    assert_eq!(broker.send(&topic(b"b", b"k")).alternatives, vec![7u64]);
    broker.settle(&topic(b"a", b"k"), &vec![false]);
    assert_eq!(broker.send(&topic(b"a", b"k")).alternatives, vec![3u64]);
    broker.settle(&topic(b"a", b"k"), &vec![false, false, false]);
    assert!(broker.send(&topic(b"a", b"k")).alternatives.is_empty());
    broker.settle(&topic(b"zz", b"k"), &vec![false]);
    broker.alternative_register(5, topic(b"a", b"k"));
    assert_eq!(broker.send(&topic(b"a", b"k")).alternatives, vec![5u64]);
}

#[test]
fn cleanup_drops_the_expired() {
    let mut broker = Broker::new();
    broker.register(1, topic(b"a", b"k"));
    broker.register(2, topic(b"a", b"k"));
    broker.register(2, topic(b"b", b"k"));
    broker.alternative_register(2, topic(b"a", b"k"));
    broker.cleanup(&vec![2]);
    assert_eq!(broker.send(&topic(b"a", b"k")).subscribers, vec![1u64]);
    assert!(broker.send(&topic(b"b", b"k")).subscribers.is_empty());
    assert_eq!(broker.send(&topic(b"a", b"k")).alternatives, vec![2u64]);
    broker.cleanup(&vec![]);
    assert_eq!(broker.send(&topic(b"a", b"k")).subscribers, vec![1u64]);
    broker.register(2, topic(b"b", b"k"));
    assert_eq!(broker.send(&topic(b"b", b"k")).subscribers, vec![2u64]);
}

#[test]
fn id_sets_hold_each_id_once() {
    let set = IdSet::new().insert(3).insert(1).insert(3).insert(2);
    assert_eq!(set.ids(), &vec![3u64, 1, 2]);
    let left = set.without(&vec![1, 9]);
    assert_eq!(left.ids(), &vec![3u64, 2]);
    assert!(holds(&vec![1, 2, 3], 2));
    assert!(!holds(&vec![1, 2, 3], 4));
    assert_eq!(copy_ids(&vec![4, 5]), vec![4u64, 5]);
    assert_eq!(retain_alive(&vec![1, 2, 3], &vec![false, true]), vec![2u64, 3]);
}

#[test]
fn topics_are_ordered_by_owner_then_key() {
    assert!(topic(b"a", b"z") < topic(b"b", b"a"));
    assert!(topic(b"a", b"k") < topic(b"a", b"l"));
    assert!(topic(b"a", b"k") == topic(b"a", b"k"));
    assert!(topic(b"a", b"k") >= topic(b"a", b"k"));
    assert!(topic(b"ab", b"") > topic(b"a", b"b"));
}
