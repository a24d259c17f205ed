use lib::attvalue::AttPiece;
use lib::dtd::{attribute_id, ELEMENT_TYPE};
use lib::elements::Step;
use lib::errors::XmlError;
use lib::hashtable::HASH_TABLE;
use lib::namespaces::NsScope;
use lib::opentags::OpenElements;
use lib::storeatts::{storeAtts, StartAtt};

fn att(name: &str, value: &str) -> StartAtt {
    StartAtt { name: name.as_bytes().to_vec(), value: vec![AttPiece::Data(value.as_bytes().to_vec())] }
}

#[test]
fn test_end_tag_pops_the_bindings_of_its_start_tag() {
    let mut types: HASH_TABLE<ELEMENT_TYPE> = HASH_TABLE::hashTableInit(1);
    let mut ids: HASH_TABLE<attribute_id> = HASH_TABLE::hashTableInit(1);
    let mut ns = NsScope::new(true, b'|', 1);
    let mut open = OpenElements::new();

    let mark = ns.mark();
    let t = storeAtts(&mut types, &mut ids, &mut ns, &mut 16, b"p:doc", &vec![att("xmlns:p", "urn:a")], false).unwrap();
    assert_eq!(t.name, Some(b"urn:a|doc".to_vec()));
    open.openElement(&ns, b"p:doc", mark);

    let mark2 = ns.mark();
    let t2 = storeAtts(&mut types, &mut ids, &mut ns, &mut 16, b"p:x", &vec![att("xmlns:p", "urn:b")], false).unwrap();
    assert_eq!(t2.name, Some(b"urn:b|x".to_vec()));
    open.openElement(&ns, b"p:x", mark2);
    assert_eq!(ns.mark(), 2);

    assert_eq!(open.endElement(&mut ns, b"p:doc", 0).err(), Some(XmlError::XML_ERROR_TAG_MISMATCH));
    let (step, popped) = open.endElement(&mut ns, b"p:x", 0).unwrap();
    assert_eq!(step, Step::Continue);
    assert_eq!(popped.len(), 1);
    assert_eq!(ns.mark(), 1);
    // The inner binding is gone: p is bound as before the inner start tag.
    let p = ns.prefix_id(b"p").unwrap();
    assert_eq!(ns.binding(Some(p)), Some(&b"urn:a|"[..]));

    let (step, _) = open.endElement(&mut ns, b"p:doc", 0).unwrap();
    assert_eq!(step, Step::Epilog);
    assert_eq!(ns.mark(), 0);
    assert_eq!(ns.binding(Some(p)), None);
    assert_eq!(open.endElement(&mut ns, b"p:doc", 0).err(), Some(XmlError::XML_ERROR_ASYNC_ENTITY));
}
