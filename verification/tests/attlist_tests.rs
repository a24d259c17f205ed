use lib::attlist::{AttType, AttlistDecl, AttlistEvent};
use lib::attvalue::AttPiece;
use lib::dtd::{attribute_id, ELEMENT_TYPE};
use lib::errors::XmlError;
use lib::hashtable::HASH_TABLE;
use lib::namespaces::NsScope;
use lib::storeatts::{storeAtts, StartAtt};

struct Dtd {
    types: HASH_TABLE<ELEMENT_TYPE>,
    ids: HASH_TABLE<attribute_id>,
    ns: NsScope,
}

fn dtd() -> Dtd {
    Dtd { types: HASH_TABLE::hashTableInit(11), ids: HASH_TABLE::hashTableInit(11), ns: NsScope::new(false, 0, 11) }
}

fn start(d: &mut Dtd, element: &str, att: &str) -> AttlistDecl {
    let mut decl = AttlistDecl::new();
    decl.roleAttlistElementName(&mut d.types, &d.ids, &mut d.ns, element.as_bytes()).unwrap();
    decl.roleAttributeName(&d.types, &mut d.ids, &mut d.ns, att.as_bytes()).unwrap();
    decl
}

fn data(s: &str) -> Vec<AttPiece> {
    vec![AttPiece::Data(s.as_bytes().to_vec())]
}

fn text(v: &[u8]) -> String {
    String::from_utf8(v.to_vec()).unwrap()
}

fn describe(ev: &AttlistEvent) -> (String, String, String, Option<String>, bool) {
    (
        text(&ev.elementName),
        text(&ev.attName),
        text(&ev.attType),
        ev.defaultValue.as_ref().map(|v| text(v)),
        ev.isRequired,
    )
}

#[test]
fn test_attlist_cdata_default() {
    let mut d = dtd();
    let mut decl = start(&mut d, "doc", "a");
    decl.roleAttributeType(AttType::CDATA);
    assert!(decl.isCdata);
    let ev = decl.roleAttributeDefault(false, &data(" x  y "), &mut d.types, &mut d.ids, &d.ns, true, true).unwrap().unwrap();
    assert_eq!(describe(&ev), ("doc".to_string(), "a".to_string(), "CDATA".to_string(), Some(" x  y ".to_string()), false));
    let e = decl.elementType.unwrap();
    let t = d.types.value(e);
    assert_eq!(t.defaultAtts.len(), 1);
    assert_eq!(t.defaultAtts[0].value.as_deref(), Some(&b" x  y "[..]));
}

#[test]
fn test_attlist_tokenized_default_is_normalized() {
    let mut d = dtd();
    let mut decl = start(&mut d, "doc", "a");
    decl.roleAttributeType(AttType::NMTOKENS);
    let pieces = vec![AttPiece::Space, AttPiece::Data(b"x".to_vec()), AttPiece::Space, AttPiece::Space];
    let ev = decl.roleAttributeDefault(true, &pieces, &mut d.types, &mut d.ids, &d.ns, true, true).unwrap().unwrap();
    assert_eq!(describe(&ev), ("doc".to_string(), "a".to_string(), "NMTOKENS".to_string(), Some("x".to_string()), true));
    let a = decl.attributeId.unwrap();
    assert!(d.ids.value(a).maybeTokenized);
}

#[test]
fn test_attlist_enumeration_required() {
    let mut d = dtd();
    let mut decl = start(&mut d, "doc", "a");
    decl.roleAttributeEnumValue(false, b"x", true, true);
    decl.roleAttributeEnumValue(false, b"y", true, true);
    let ev = decl.roleAttributeNoDefault(true, &mut d.types, &mut d.ids, &d.ns, true, true).unwrap();
    assert_eq!(describe(&ev), ("doc".to_string(), "a".to_string(), "(x|y)".to_string(), None, true));
}

#[test]
fn test_attlist_notation_implied() {
    let mut d = dtd();
    let mut decl = start(&mut d, "doc", "n");
    decl.roleAttributeEnumValue(true, b"gif", true, true);
    let ev = decl.roleAttributeNoDefault(false, &mut d.types, &mut d.ids, &d.ns, true, true).unwrap();
    assert_eq!(ev.attType, b"NOTATION(gif)".to_vec());
    assert!(!ev.isRequired);
}

#[test]
fn test_attlist_enumeration_without_handler() {
    let mut d = dtd();
    let mut decl = start(&mut d, "doc", "a");
    decl.roleAttributeEnumValue(false, b"x", true, false);
    assert!(decl.attType.is_none());
    assert!(decl.roleAttributeNoDefault(false, &mut d.types, &mut d.ids, &d.ns, true, false).is_none());
    assert_eq!(d.types.value(decl.elementType.unwrap()).defaultAtts.len(), 1);
}

#[test]
fn test_attlist_id_attribute() {
    let mut d = dtd();
    let mut decl = start(&mut d, "doc", "key");
    decl.roleAttributeType(AttType::ID);
    assert!(decl.isId);
    let ev = decl.roleAttributeNoDefault(false, &mut d.types, &mut d.ids, &d.ns, true, true).unwrap();
    assert_eq!(ev.attType, b"ID".to_vec());
    let e = decl.elementType.unwrap();
    assert_eq!(d.types.value(e).idAtt, decl.attributeId);
    let atts = vec![
        StartAtt { name: b"x".to_vec(), value: data("1") },
        StartAtt { name: b"key".to_vec(), value: data("k") },
    ];
    let t = storeAtts(&mut d.types, &mut d.ids, &mut d.ns, &mut 16, b"doc", &atts, false).unwrap();
    assert_eq!(t.atts.idAtt, Some(1));
}

#[test]
fn test_attlist_not_processed() {
    let mut d = dtd();
    let mut decl = start(&mut d, "doc", "a");
    decl.roleAttributeType(AttType::CDATA);
    let r = decl.roleAttributeDefault(false, &data("v"), &mut d.types, &mut d.ids, &d.ns, false, true);
    assert!(matches!(r, Ok(None)));
    assert_eq!(d.types.value(decl.elementType.unwrap()).defaultAtts.len(), 0);
}

#[test]
fn test_attlist_bad_default() {
    let mut d = dtd();
    let mut decl = start(&mut d, "doc", "a");
    decl.roleAttributeType(AttType::CDATA);
    let pieces = vec![AttPiece::Data(b"v".to_vec()), AttPiece::CharRef(-1)];
    let r = decl.roleAttributeDefault(false, &pieces, &mut d.types, &mut d.ids, &d.ns, true, true);
    assert_eq!(r.err(), Some((XmlError::XML_ERROR_BAD_CHAR_REF, 1)));
}

#[test]
fn test_attlist_first_declaration_binds() {
    let mut d = dtd();
    let mut decl = start(&mut d, "doc", "a");
    decl.roleAttributeType(AttType::CDATA);
    decl.roleAttributeDefault(false, &data("first"), &mut d.types, &mut d.ids, &d.ns, true, false).unwrap();
    let mut decl2 = start(&mut d, "doc", "a");
    decl2.roleAttributeType(AttType::CDATA);
    decl2.roleAttributeDefault(false, &data("second"), &mut d.types, &mut d.ids, &d.ns, true, false).unwrap();
    let t = d.types.value(decl.elementType.unwrap());
    assert_eq!(t.defaultAtts.len(), 1);
    assert_eq!(t.defaultAtts[0].value.as_deref(), Some(&b"first"[..]));
    let r = storeAtts(&mut d.types, &mut d.ids, &mut d.ns, &mut 16, b"doc", &vec![], false).unwrap();
    assert_eq!(r.atts.atts.len(), 1);
    assert_eq!(r.atts.atts[0].value, b"first".to_vec());
}
