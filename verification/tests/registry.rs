use minibus::entity::{AccessTag, Entity, EntityError};
use minibus::registry::{own_name, Registry, StaticRegistryItem};
use minibus::short_text::ShortText;

fn name(text: &[u8]) -> ShortText {
    ShortText::build(text)
}

fn fresh() -> Registry {
    Registry::init(0, &vec![StaticRegistryItem(name(b"shared"), 1)])
}

#[test]
fn registry_knows_itself_and_the_manifest() {
    let registry = fresh();
    assert!(own_name().eq_bytes(b"registry"));
    assert_eq!(registry.find(&name(b"registry")), Some(0));
    assert_eq!(registry.find(&name(b"shared")), Some(1));
    assert_eq!(registry.find(&name(b"alice")), None);
    let later = Registry::init(
        0,
        &vec![
            StaticRegistryItem(name(b"a"), 5),
            StaticRegistryItem(name(b"a"), 6),
            StaticRegistryItem(name(b"registry"), 7),
        ],
    );
    assert_eq!(later.find(&name(b"a")), Some(6));
    assert_eq!(later.find(&name(b"registry")), Some(7));
}

#[test]
fn an_entity_has_one_name() {
    let mut registry = fresh();
    let bound = registry.set(Some(10), &name(b"alice"), b"v".to_vec()).unwrap().unwrap();
    assert!(bound.key.0.eq_bytes(b"registry"));
    assert!(bound.key.1.eq_bytes(b"alice"));
    assert_eq!(bound.data, Some(b"v".to_vec()));
    assert_eq!(registry.find(&name(b"alice")), Some(10));
    assert!(matches!(
        registry.set(Some(10), &name(b"alice2"), Vec::new()),
        Err(EntityError::TooManyNames)
    ));
    assert!(matches!(registry.set(Some(11), &name(b"alice"), Vec::new()), Err(EntityError::Duplicated)));
    assert!(matches!(registry.set(Some(10), &name(b"alice"), Vec::new()), Err(EntityError::Duplicated)));
    assert_eq!(registry.find(&name(b"alice2")), None);
}

#[test]
fn only_the_owner_releases_a_name() {
    let mut registry = fresh();
    registry.set(Some(10), &name(b"alice"), Vec::new()).unwrap();
    assert!(matches!(registry.del(Some(11), &name(b"alice")), Err(EntityError::NotAllowned)));
    assert!(matches!(registry.del(Some(10), &name(b"bob")), Err(EntityError::NotFound)));
    assert!(matches!(registry.del(Some(10), &name(b"shared")), Err(EntityError::NotAllowned)));
    let released = registry.del(Some(10), &name(b"alice")).unwrap().unwrap();
    assert!(released.key.1.eq_bytes(b"alice"));
    assert_eq!(released.data, None);
    assert_eq!(registry.find(&name(b"alice")), None);
    registry.set(Some(10), &name(b"carol"), Vec::new()).unwrap();
    assert_eq!(registry.find(&name(b"carol")), Some(10));
}

#[test]
fn get_tells_whether_a_name_is_bound() {
    let mut registry = fresh();
    registry.set(Some(10), &name(b"alice"), b"v".to_vec()).unwrap();
    assert!(matches!(registry.get(None, &name(b"alice")), Ok(None)));
    assert!(matches!(registry.get(Some(3), &name(b"registry")), Ok(None)));
    assert!(matches!(registry.get(None, &name(b"bob")), Err(EntityError::NotFound)));
}

#[test]
fn keys_tag_the_callers_name_public() {
    let mut registry = fresh();
    registry.set(Some(10), &name(b"alice"), Vec::new()).unwrap();
    registry.set(Some(11), &name(b"bob"), Vec::new()).unwrap();
    let list = registry.keys(Some(11)).unwrap();
    let shown: Vec<(Vec<u8>, AccessTag)> = list.iter().map(|(k, t)| (k.to_vec(), *t)).collect();
    assert_eq!(
        shown,
        vec![
            (b"registry".to_vec(), AccessTag::Protected),
            (b"shared".to_vec(), AccessTag::Protected),
            (b"alice".to_vec(), AccessTag::Protected),
            (b"bob".to_vec(), AccessTag::Public),
        ]
    );
    assert_eq!(registry.keys(Some(0)).unwrap()[0].1, AccessTag::Public);
}

#[test]
fn a_forgotten_entity_leaves_no_name() {
    let mut registry = fresh();
    registry.set(Some(10), &name(b"alice"), Vec::new()).unwrap();
    registry.set(Some(11), &name(b"bob"), Vec::new()).unwrap();
    registry.forget(10);
    assert_eq!(registry.find(&name(b"alice")), None);
    assert_eq!(registry.find(&name(b"bob")), Some(11));
    assert_eq!(registry.keys(Some(11)).unwrap().len(), 3);
    assert!(registry.keys(Some(11)).unwrap().iter().all(|(k, _)| !k.eq_bytes(b"alice")));
    registry.set(Some(12), &name(b"alice"), Vec::new()).unwrap();
    assert_eq!(registry.find(&name(b"alice")), Some(12));
    registry.forget(99);
    assert_eq!(registry.keys(Some(0)).unwrap().len(), 4);
}

#[test]
fn nobody_binds_or_releases_without_identity() {
    let mut registry = fresh();
    assert!(matches!(registry.set(None, &name(b"alice"), Vec::new()), Err(EntityError::NotAllowned)));
    assert!(matches!(registry.set(None, &name(b"shared"), Vec::new()), Err(EntityError::Duplicated)));
    registry.set(Some(10), &name(b"alice"), Vec::new()).unwrap();
    assert!(matches!(registry.del(None, &name(b"alice")), Err(EntityError::NotAllowned)));
    assert!(matches!(registry.del(None, &name(b"bob")), Err(EntityError::NotFound)));
    assert!(registry.keys(None).unwrap().iter().all(|(_, tag)| *tag == AccessTag::Protected));
    assert!(matches!(registry.call(10, 1, &name(b"m"), b""), Err(EntityError::NotSupported)));
    registry.update_name(Some(&name(b"other")));
    assert_eq!(registry.find(&name(b"registry")), Some(0));
}
