use lib::attlist::{AttType, AttlistDecl};
use lib::attvalue::AttPiece;
use lib::dtdcopy::{copyEntityTable, dtdCopy, DTD};
use lib::entities::{EntityDecl, ENTITY};
use lib::hashtable::HASH_TABLE;
use lib::namespaces::NsScope;

fn empty_dtd(salt: u64) -> DTD {
    DTD::dtdCreate(salt)
}

#[test]
fn test_dtd_copy_holds_the_same_declarations() {
    let mut old = empty_dtd(1);
    let mut ns = NsScope::new(true, b'|', 1);
    let mut decl = AttlistDecl::new();
    decl.roleAttlistElementName(&mut old.elementTypes, &old.attributeIds, &mut ns, b"p:doc").unwrap();
    decl.roleAttributeName(&old.elementTypes, &mut old.attributeIds, &mut ns, b"p:a").unwrap();
    decl.roleAttributeType(AttType::CDATA);
    decl.roleAttributeDefault(
        false,
        &vec![AttPiece::Data(b"v".to_vec())],
        &mut old.elementTypes,
        &mut old.attributeIds,
        &ns,
        true,
        false,
    )
    .unwrap();
    let mut e = EntityDecl::new();
    e.roleGeneralEntityName(&mut old.generalEntities, b"g", true, true).unwrap();
    e.roleEntityValue(&mut old.generalEntities, &mut old.paramEntities, b"text", None, true, false);
    e.roleParamEntityName(&mut old.paramEntities, b"pe", true, true).unwrap();
    e.roleEntitySystemId(&mut old.generalEntities, &mut old.paramEntities, b"pe.dtd", None, true);
    old.standalone = true;

    let mut new = empty_dtd(2);
    let mut new_ns = NsScope::new(true, b'|', 2);
    assert!(dtdCopy(&old, &ns, &mut new, &mut new_ns));
    assert_eq!(new_ns.name_of_prefix(0), b"p");
    assert_eq!(new.attributeIds.len(), 1);
    assert_eq!(new.attributeIds.name(0), b"p:a");
    assert_eq!(*new.attributeIds.value(0), *old.attributeIds.value(0));
    assert_eq!(new.elementTypes.name(0), b"p:doc");
    let t = new.elementTypes.value(0);
    assert_eq!(t.prefix, Some(0));
    assert_eq!(t.defaultAtts.len(), 1);
    assert_eq!(t.defaultAtts[0].value.as_deref(), Some(&b"v"[..]));
    assert_eq!(new.generalEntities.value(0).text.as_deref(), Some(&b"text"[..]));
    assert_eq!(new.paramEntities.value(0).systemId.as_deref(), Some(&b"pe.dtd"[..]));
    assert!(new.standalone);
    assert_eq!(new.elementTypes.lookup(b"p:doc"), Some(0));
}

#[test]
fn test_copied_entities_are_not_open() {
    let mut src: HASH_TABLE<ENTITY> = HASH_TABLE::hashTableInit(3);
    let mut x = ENTITY::empty();
    x.open = true;
    x.text = Some(b"t".to_vec());
    src.lookup_create(b"e", x).unwrap();
    let mut dst: HASH_TABLE<ENTITY> = HASH_TABLE::hashTableInit(4);
    assert!(copyEntityTable(&src, &mut dst));
    assert!(!dst.value(0).open);
    assert_eq!(dst.value(0).text.as_deref(), Some(&b"t"[..]));
    assert_eq!(dst.lookup(b"e"), Some(0));
}

#[test]
fn test_dtd_reset_forgets_declarations() {
    let mut d = empty_dtd(3);
    assert!(d.keepProcessing && !d.standalone && !d.hasParamEntityRefs && !d.paramEntityRead);
    let mut e = EntityDecl::new();
    e.roleGeneralEntityName(&mut d.generalEntities, b"g", true, true).unwrap();
    e.roleParamEntityName(&mut d.paramEntities, b"pe", true, true).unwrap();
    d.standalone = true;
    d.keepProcessing = false;
    d.paramEntityRead = true;
    d.hasParamEntityRefs = true;
    assert_eq!(d.generalEntities.len(), 1);
    d.dtdReset();
    assert_eq!(d.generalEntities.len(), 0);
    assert_eq!(d.paramEntities.len(), 0);
    assert_eq!(d.elementTypes.len(), 0);
    assert_eq!(d.attributeIds.len(), 0);
    assert!(d.keepProcessing && !d.standalone && !d.hasParamEntityRefs && !d.paramEntityRead);
    assert_eq!(d.generalEntities.lookup(b"g"), None);
}
