use lib::dtd::{
    attribute_id, defineAttribute, getAttributeId, getElementType, setElementTypePrefix, PrefixRef, ELEMENT_TYPE,
};
use lib::hashtable::HASH_TABLE;
use lib::namespaces::NsScope;

fn fresh_id() -> attribute_id {
    attribute_id { prefix: PrefixRef::NoPrefix, maybeTokenized: false, xmlns: false }
}

#[test]
fn test_attribute_ids_without_namespaces() {
    let mut ids: HASH_TABLE<attribute_id> = HASH_TABLE::hashTableInit(1);
    let mut ns = NsScope::new(false, 0, 1);
    let a = getAttributeId(&mut ids, &mut ns, false, b"p:a").unwrap();
    assert_eq!(*ids.value(a), fresh_id());
    assert_eq!(getAttributeId(&mut ids, &mut ns, false, b"p:a"), Some(a));
    assert_eq!(ids.len(), 1);
}

#[test]
fn test_attribute_ids_with_namespaces() {
    let mut ids: HASH_TABLE<attribute_id> = HASH_TABLE::hashTableInit(2);
    let mut ns = NsScope::new(true, b'!', 2);
    let x = getAttributeId(&mut ids, &mut ns, true, b"xmlns").unwrap();
    assert_eq!(ids.value(x).prefix, PrefixRef::Default);
    assert!(ids.value(x).xmlns);
    let xp = getAttributeId(&mut ids, &mut ns, true, b"xmlns:foo").unwrap();
    assert!(ids.value(xp).xmlns);
    match ids.value(xp).prefix {
        PrefixRef::Named(p) => assert_eq!(ns.name_of_prefix(p), b"foo"),
        other => panic!("unexpected prefix {:?}", other),
    }
    let q = getAttributeId(&mut ids, &mut ns, true, b"bar:attr").unwrap();
    assert!(!ids.value(q).xmlns);
    match ids.value(q).prefix {
        PrefixRef::Named(p) => assert_eq!(ns.name_of_prefix(p), b"bar"),
        other => panic!("unexpected prefix {:?}", other),
    }
    let plain = getAttributeId(&mut ids, &mut ns, true, b"plain").unwrap();
    assert_eq!(*ids.value(plain), fresh_id());
    let xmlnsish = getAttributeId(&mut ids, &mut ns, true, b"xmlnsx").unwrap();
    assert_eq!(*ids.value(xmlnsish), fresh_id());
}

#[test]
fn test_element_types_get_their_prefix() {
    let mut types: HASH_TABLE<ELEMENT_TYPE> = HASH_TABLE::hashTableInit(3);
    let mut ns = NsScope::new(true, b'!', 3);
    let e = getElementType(&mut types, &mut ns, b"svg:rect").unwrap();
    let p = types.value(e).prefix.unwrap();
    assert_eq!(ns.name_of_prefix(p), b"svg");
    let f = getElementType(&mut types, &mut ns, b"para").unwrap();
    assert_eq!(types.value(f).prefix, None);
    assert_eq!(getElementType(&mut types, &mut ns, b"svg:rect"), Some(e));
}

#[test]
fn test_set_element_type_prefix_uses_first_colon() {
    let mut ns = NsScope::new(true, 0, 0);
    let mut t = ELEMENT_TYPE { prefix: None, idAtt: None, defaultAtts: Vec::new() };
    assert!(setElementTypePrefix(&mut t, &mut ns, b"a:b:c"));
    assert_eq!(ns.name_of_prefix(t.prefix.unwrap()), b"a");
}

#[test]
fn test_define_attribute() {
    let mut t = ELEMENT_TYPE { prefix: None, idAtt: None, defaultAtts: Vec::new() };
    let mut id1 = fresh_id();
    let mut id2 = fresh_id();
    defineAttribute(&mut t, 1, &mut id1, false, true, None);
    assert_eq!(t.idAtt, Some(1));
    assert_eq!(t.defaultAtts.len(), 1);
    assert!(id1.maybeTokenized);
    // A second declaration of the same attribute is ignored.
    defineAttribute(&mut t, 1, &mut id1, true, false, Some(b"v"));
    assert_eq!(t.defaultAtts.len(), 1);
    defineAttribute(&mut t, 2, &mut id2, true, false, Some(b"dflt"));
    assert_eq!(t.defaultAtts.len(), 2);
    assert_eq!(t.defaultAtts[1].value.as_deref(), Some(&b"dflt"[..]));
    assert!(t.defaultAtts[1].isCdata);
    assert!(!id2.maybeTokenized);
    // Only the first ID attribute counts.
    let mut id3 = fresh_id();
    defineAttribute(&mut t, 3, &mut id3, false, true, None);
    assert_eq!(t.idAtt, Some(1));
}

#[test]
fn test_xmlns_attribute_is_never_the_id() {
    let mut t = ELEMENT_TYPE { prefix: None, idAtt: None, defaultAtts: Vec::new() };
    let mut id = attribute_id { prefix: PrefixRef::Default, maybeTokenized: false, xmlns: true };
    defineAttribute(&mut t, 4, &mut id, false, true, None);
    assert_eq!(t.idAtt, None);
    assert_eq!(t.defaultAtts.len(), 1);
}
