use lib::attvalue::AttPiece;
use lib::dtd::{attribute_id, defineAttribute, getAttributeId, getElementType, ELEMENT_TYPE};
use lib::errors::XmlError;
use lib::hashtable::HASH_TABLE;
use lib::namespaces::NsScope;
use lib::storeatts::{duplicateAttributeIndex, storeAtts, AttPair, StartAtt, StartTag};

struct Dtd {
    types: HASH_TABLE<ELEMENT_TYPE>,
    ids: HASH_TABLE<attribute_id>,
    ns: NsScope,
}

fn dtd(ns: bool) -> Dtd {
    Dtd { types: HASH_TABLE::hashTableInit(7), ids: HASH_TABLE::hashTableInit(7), ns: NsScope::new(ns, b'|', 7) }
}

fn att(name: &str, value: &str) -> StartAtt {
    StartAtt { name: name.as_bytes().to_vec(), value: vec![AttPiece::Data(value.as_bytes().to_vec())] }
}

fn pairs(t: &StartTag) -> Vec<(String, String)> {
    t.atts
        .atts
        .iter()
        .map(|p: &AttPair| (String::from_utf8(p.name.clone()).unwrap(), String::from_utf8(p.value.clone()).unwrap()))
        .collect()
}

fn pair(n: &str, v: &str) -> (String, String) {
    (n.to_string(), v.to_string())
}

/// Declare an attribute of an element type, as an ATTLIST declaration does.
fn declare(d: &mut Dtd, element: &str, name: &str, is_cdata: bool, is_id: bool, value: Option<&str>) {
    let e = getElementType(&mut d.types, &mut d.ns, element.as_bytes()).unwrap();
    let nsf = d.ns.namespace_aware();
    let a = getAttributeId(&mut d.ids, &mut d.ns, nsf, name.as_bytes()).unwrap();
    let old = d.types.value(e);
    let mut t = ELEMENT_TYPE {
        prefix: old.prefix,
        idAtt: old.idAtt,
        defaultAtts: old
            .defaultAtts
            .iter()
            .map(|x| lib::dtd::DEFAULT_ATTRIBUTE { id: x.id, value: x.value.clone(), isCdata: x.isCdata })
            .collect(),
    };
    let mut id = *d.ids.value(a);
    defineAttribute(&mut t, a, &mut id, is_cdata, is_id, value.map(|v| v.as_bytes()));
    d.types.set_value(e, t);
    d.ids.set_value(a, id);
}

#[test]
fn test_store_atts_plain() {
    let mut d = dtd(false);
    let atts = vec![att("a", "1"), att("b", " x  y ")];
    let t = storeAtts(&mut d.types, &mut d.ids, &mut d.ns, &mut 16, b"doc", &atts, false).unwrap();
    assert_eq!(pairs(&t), vec![pair("a", "1"), pair("b", " x  y ")]);
    assert_eq!(t.atts.nSpecified, 2);
    assert_eq!(t.atts.idAtt, None);
    assert_eq!(t.atts.XML_GetIdAttributeIndex(), -1);
    assert_eq!(t.atts.XML_GetSpecifiedAttributeCount(), 4);
    assert_eq!(t.name, None);
    assert_eq!(d.types.len(), 1);
    assert_eq!(d.ids.len(), 2);
}

#[test]
fn test_store_atts_duplicate() {
    let mut d = dtd(false);
    let atts = vec![att("a", "1"), att("b", "2"), att("a", "3")];
    let r = storeAtts(&mut d.types, &mut d.ids, &mut d.ns, &mut 16, b"doc", &atts, false);
    assert_eq!(r.err(), Some(XmlError::XML_ERROR_DUPLICATE_ATTRIBUTE));
}

#[test]
fn test_store_atts_bad_char_ref() {
    let mut d = dtd(false);
    let atts = vec![StartAtt { name: b"a".to_vec(), value: vec![AttPiece::CharRef(-1)] }, att("a", "x")];
    let r = storeAtts(&mut d.types, &mut d.ids, &mut d.ns, &mut 16, b"doc", &atts, false);
    assert_eq!(r.err(), Some(XmlError::XML_ERROR_BAD_CHAR_REF));
}

#[test]
fn test_store_atts_namespaces() {
    let mut d = dtd(true);
    let atts = vec![att("xmlns:p", "urn:x"), att("p:a", "v"), att("b", "w")];
    let t = storeAtts(&mut d.types, &mut d.ids, &mut d.ns, &mut 16, b"p:doc", &atts, false).unwrap();
    assert_eq!(pairs(&t), vec![pair("urn:x|a", "v"), pair("b", "w")]);
    assert_eq!(t.atts.nSpecified, 2);
    assert_eq!(t.name, Some(b"urn:x|doc".to_vec()));
    assert_eq!(d.ns.mark(), 1);
}

#[test]
fn test_store_atts_triplets() {
    let mut d = dtd(true);
    let atts = vec![att("xmlns:p", "urn:x"), att("p:a", "v")];
    let t = storeAtts(&mut d.types, &mut d.ids, &mut d.ns, &mut 16, b"p:doc", &atts, true).unwrap();
    assert_eq!(pairs(&t), vec![pair("urn:x|a|p", "v")]);
    assert_eq!(t.name, Some(b"urn:x|doc|p".to_vec()));
}

#[test]
fn test_store_atts_default_namespace() {
    let mut d = dtd(true);
    let atts = vec![att("xmlns", "urn:d"), att("a", "1")];
    let t = storeAtts(&mut d.types, &mut d.ids, &mut d.ns, &mut 16, b"doc", &atts, false).unwrap();
    assert_eq!(pairs(&t), vec![pair("a", "1")]);
    assert_eq!(t.name, Some(b"urn:d|doc".to_vec()));
}

#[test]
fn test_store_atts_unbound_prefix() {
    let mut d = dtd(true);
    let r = storeAtts(&mut d.types, &mut d.ids, &mut d.ns, &mut 16, b"q:doc", &vec![], false);
    assert_eq!(r.err(), Some(XmlError::XML_ERROR_UNBOUND_PREFIX));
    let mut d = dtd(true);
    let r = storeAtts(&mut d.types, &mut d.ids, &mut d.ns, &mut 16, b"doc", &vec![att("q:a", "1")], false);
    assert_eq!(r.err(), Some(XmlError::XML_ERROR_UNBOUND_PREFIX));
}

#[test]
fn test_store_atts_expanded_duplicate() {
    let mut d = dtd(true);
    let atts = vec![att("xmlns:p", "urn:x"), att("xmlns:q", "urn:x"), att("p:a", "1"), att("q:a", "2")];
    let r = storeAtts(&mut d.types, &mut d.ids, &mut d.ns, &mut 16, b"doc", &atts, false);
    assert_eq!(r.err(), Some(XmlError::XML_ERROR_DUPLICATE_ATTRIBUTE));
}

#[test]
fn test_store_atts_reserved_binding() {
    let mut d = dtd(true);
    let r = storeAtts(&mut d.types, &mut d.ids, &mut d.ns, &mut 16, b"doc", &vec![att("xmlns:p", "")], false);
    assert_eq!(r.err(), Some(XmlError::XML_ERROR_UNDECLARING_PREFIX));
}

#[test]
fn test_store_atts_defaults() {
    let mut d = dtd(false);
    declare(&mut d, "doc", "c", true, false, Some("dflt"));
    declare(&mut d, "doc", "e", true, false, None);
    let t = storeAtts(&mut d.types, &mut d.ids, &mut d.ns, &mut 16, b"doc", &vec![att("a", "1")], false).unwrap();
    assert_eq!(pairs(&t), vec![pair("a", "1"), pair("c", "dflt")]);
    assert_eq!(t.atts.nSpecified, 1);
    // A default is not added when the tag gives the attribute.
    let t = storeAtts(&mut d.types, &mut d.ids, &mut d.ns, &mut 16, b"doc", &vec![att("c", "mine")], false).unwrap();
    assert_eq!(pairs(&t), vec![pair("c", "mine")]);
    assert_eq!(t.atts.nSpecified, 1);
}

#[test]
fn test_store_atts_tokenized_value_and_id() {
    let mut d = dtd(false);
    declare(&mut d, "doc", "t", false, false, None);
    declare(&mut d, "doc", "id", false, true, None);
    let atts = vec![
        att("x", "1"),
        StartAtt {
            name: b"t".to_vec(),
            value: vec![
                AttPiece::Space,
                AttPiece::Data(b"a".to_vec()),
                AttPiece::Space,
                AttPiece::Space,
                AttPiece::Data(b"b".to_vec()),
                AttPiece::Space,
            ],
        },
        att("id", "k"),
    ];
    let t = storeAtts(&mut d.types, &mut d.ids, &mut d.ns, &mut 16, b"doc", &atts, false).unwrap();
    assert_eq!(pairs(&t), vec![pair("x", "1"), pair("t", "a b"), pair("id", "k")]);
    assert_eq!(t.atts.idAtt, Some(2));
    assert_eq!(t.atts.XML_GetIdAttributeIndex(), 4);
    assert_eq!(t.atts.XML_GetSpecifiedAttributeCount(), 6);
}

#[test]
fn test_store_atts_default_declares_namespace() {
    let mut d = dtd(true);
    declare(&mut d, "p:doc", "xmlns:p", true, false, Some("urn:fixed"));
    let t = storeAtts(&mut d.types, &mut d.ids, &mut d.ns, &mut 16, b"p:doc", &vec![att("p:a", "1")], false).unwrap();
    assert_eq!(pairs(&t), vec![pair("urn:fixed|a", "1")]);
    assert_eq!(t.name, Some(b"urn:fixed|doc".to_vec()));
}

#[test]
fn test_store_atts_grows_the_attribute_array() {
    let mut d = dtd(false);
    declare(&mut d, "doc", "c", true, false, Some("dflt"));
    let mut size: i32 = 16;
    let few: Vec<StartAtt> = (0..3).map(|i| att(&format!("a{}", i), "v")).collect();
    storeAtts(&mut d.types, &mut d.ids, &mut d.ns, &mut size, b"doc", &few, false).unwrap();
    assert_eq!(size, 16);
    let many: Vec<StartAtt> = (0..20).map(|i| att(&format!("a{}", i), "v")).collect();
    let t = storeAtts(&mut d.types, &mut d.ids, &mut d.ns, &mut size, b"doc", &many, false).unwrap();
    assert_eq!(size, 20 + 1 + 16);
    assert_eq!(t.atts.atts.len(), 21);
    assert_eq!(t.atts.nSpecified, 20);
}

#[test]
fn test_duplicate_attribute_index() {
    assert_eq!(duplicateAttributeIndex(&vec![att("a", "1"), att("b", "2"), att("a", "3")]), Some(2));
    assert_eq!(duplicateAttributeIndex(&vec![att("a", "1"), att("b", "2"), att("b", "3"), att("a", "4")]), Some(2));
    assert_eq!(duplicateAttributeIndex(&vec![att("a", "1"), att("b", "2")]), None);
    let mut d = dtd(false);
    let atts = vec![att("a", "1"), att("b", "2"), att("a", "3")];
    let r = storeAtts(&mut d.types, &mut d.ids, &mut d.ns, &mut 16, b"doc", &atts, false);
    assert!(matches!(r, Err(XmlError::XML_ERROR_DUPLICATE_ATTRIBUTE)));
}
