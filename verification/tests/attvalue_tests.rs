use lib::accounting::entity_stats;
use lib::attvalue::{
    appendAttributeValue, attributeEntityRefAction, finishAttributeValue, storeAttributeValue, AttEntityAction,
    AttPiece, AttRefPiece, AttValueStop, XmlUtf8Encode,
};
use lib::openentities::OpenEntities;
use lib::entities::ENTITY;
use lib::hashtable::HASH_TABLE;
use lib::errors::XmlError;

fn data(s: &[u8]) -> AttPiece {
    AttPiece::Data(s.to_vec())
}

#[test]
fn test_utf8_encode() {
    assert_eq!(XmlUtf8Encode(0x41), vec![0x41]);
    assert_eq!(XmlUtf8Encode(0xe9), "é".as_bytes().to_vec());
    assert_eq!(XmlUtf8Encode(0x20ac), "€".as_bytes().to_vec());
    assert_eq!(XmlUtf8Encode(0x1f600), "😀".as_bytes().to_vec());
    assert_eq!(XmlUtf8Encode(-1), Vec::<u8>::new());
    assert_eq!(XmlUtf8Encode(0x110000), Vec::<u8>::new());
}

#[test]
fn test_cdata_value_keeps_spaces() {
    let pieces = vec![AttPiece::Space, data(b"a"), AttPiece::Space, AttPiece::Space, data(b"b"), AttPiece::Space];
    assert_eq!(storeAttributeValue(&pieces, true), Ok(b" a  b ".to_vec()));
}

#[test]
fn test_tokenized_value_is_normalized() {
    let pieces = vec![AttPiece::Space, data(b"a"), AttPiece::Space, AttPiece::Space, data(b"b"), AttPiece::Space];
    assert_eq!(storeAttributeValue(&pieces, false), Ok(b"a b".to_vec()));
    let refs = vec![AttPiece::CharRef(0x20), data(b"x"), AttPiece::CharRef(0x20), AttPiece::Space, data(b"y")];
    assert_eq!(storeAttributeValue(&refs, false), Ok(b"x y".to_vec()));
}

#[test]
fn test_references() {
    let pieces = vec![data(b"1"), AttPiece::Predefined(b'<'), AttPiece::CharRef(0xe9), AttPiece::Predefined(b'&')];
    assert_eq!(storeAttributeValue(&pieces, true), Ok("1<é&".as_bytes().to_vec()));
}

#[test]
fn test_bad_char_ref() {
    let pieces = vec![data(b"ok"), AttPiece::CharRef(-1), data(b"never")];
    assert_eq!(storeAttributeValue(&pieces, true), Err((XmlError::XML_ERROR_BAD_CHAR_REF, 1)));
}

#[test]
fn test_empty_value() {
    assert_eq!(storeAttributeValue(&Vec::new(), false), Ok(Vec::new()));
    assert_eq!(storeAttributeValue(&vec![AttPiece::Space, AttPiece::Space], false), Ok(Vec::new()));
}

fn entity_table() -> HASH_TABLE<ENTITY> {
    let mut t = HASH_TABLE::hashTableInit(1);
    let mut internal = ENTITY::empty();
    internal.text = Some(b"text".to_vec());
    internal.is_internal = true;
    t.lookup_create(b"int", internal).unwrap();
    let mut ext = ENTITY::empty();
    ext.systemId = Some(b"e.xml".to_vec());
    ext.is_internal = true;
    t.lookup_create(b"ext", ext).unwrap();
    let mut unparsed = ENTITY::empty();
    unparsed.systemId = Some(b"p.gif".to_vec());
    unparsed.notation = Some(b"gif".to_vec());
    unparsed.is_internal = true;
    t.lookup_create(b"pic", unparsed).unwrap();
    let mut open = ENTITY::empty();
    open.text = Some(b"x".to_vec());
    open.open = true;
    open.is_internal = true;
    t.lookup_create(b"loop", open).unwrap();
    let mut in_pe = ENTITY::empty();
    in_pe.text = Some(b"y".to_vec());
    t.lookup_create(b"inpe", in_pe).unwrap();
    t
}

#[test]
fn test_attribute_entity_references() {
    let t = entity_table();
    let act = |name: &[u8]| attributeEntityRefAction(&t, name, false, true, false, false, false);
    assert_eq!(act(b"int"), Ok(AttEntityAction::Expand { index: 0 }));
    assert_eq!(act(b"ext"), Err(XmlError::XML_ERROR_ATTRIBUTE_EXTERNAL_ENTITY_REF));
    assert_eq!(act(b"pic"), Err(XmlError::XML_ERROR_BINARY_ENTITY_REF));
    assert_eq!(act(b"loop"), Err(XmlError::XML_ERROR_RECURSIVE_ENTITY_REF));
    assert_eq!(act(b"nope"), Err(XmlError::XML_ERROR_UNDEFINED_ENTITY));
    assert_eq!(act(b"inpe"), Err(XmlError::XML_ERROR_ENTITY_DECLARED_IN_PE));
    // With parameter entity references in a document that is not standalone,
    // an undeclared entity is skipped.
    assert_eq!(attributeEntityRefAction(&t, b"nope", false, true, false, false, true), Ok(AttEntityAction::Skip));
    assert_eq!(attributeEntityRefAction(&t, b"inpe", false, true, false, false, true), Ok(AttEntityAction::Expand { index: 4 }));
}

#[test]
fn test_attribute_value_with_internal_entity() {
    let mut g: HASH_TABLE<ENTITY> = HASH_TABLE::hashTableInit(1);
    let mut p: HASH_TABLE<ENTITY> = HASH_TABLE::hashTableInit(1);
    let mut e = ENTITY::empty();
    e.text = Some(b" in ".to_vec());
    e.is_internal = true;
    g.lookup_create(b"e", e).unwrap();
    // Value "  a &e; b " of an attribute that is not CDATA.
    let outer = vec![
        AttRefPiece::Piece(AttPiece::Space),
        AttRefPiece::Piece(data(b"a")),
        AttRefPiece::Piece(AttPiece::Space),
        AttRefPiece::EntityRef(b"e".to_vec()),
        AttRefPiece::Piece(data(b"b")),
        AttRefPiece::Piece(AttPiece::Space),
    ];
    let mut acc = Vec::new();
    let r = appendAttributeValue(&outer, 0, &mut acc, false, &g, false, true, false, false, false);
    assert_eq!(r, Ok(AttValueStop::Expand { index: 0, next: 4 }));
    assert_eq!(acc, b"a ".to_vec());
    // The entity is opened and its text read into the value, then closed.
    let mut open = OpenEntities::new();
    let mut stats = entity_stats::new(0);
    open.processEntity(&mut g, &mut p, &mut stats, false, 0, false, 0);
    let inner = vec![
        AttRefPiece::Piece(AttPiece::Space),
        AttRefPiece::Piece(data(b"in")),
        AttRefPiece::Piece(AttPiece::Space),
        AttRefPiece::EntityRef(b"e".to_vec()),
    ];
    // A reference to the open entity itself is recursive.
    let mut acc2 = acc.clone();
    assert_eq!(
        appendAttributeValue(&inner, 0, &mut acc2, false, &g, false, true, false, false, false),
        Err((XmlError::XML_ERROR_RECURSIVE_ENTITY_REF, 3))
    );
    let inner = vec![
        AttRefPiece::Piece(AttPiece::Space),
        AttRefPiece::Piece(data(b"in")),
        AttRefPiece::Piece(AttPiece::Space),
    ];
    assert_eq!(
        appendAttributeValue(&inner, 0, &mut acc, false, &g, false, true, false, false, false),
        Ok(AttValueStop::Done)
    );
    open.closeEntity(&mut g, &mut p, &mut stats).unwrap();
    assert!(!g.value(0).open);
    assert_eq!(appendAttributeValue(&outer, 4, &mut acc, false, &g, false, true, false, false, false), Ok(AttValueStop::Done));
    finishAttributeValue(&mut acc, false);
    assert_eq!(acc, b"a in b".to_vec());
}
