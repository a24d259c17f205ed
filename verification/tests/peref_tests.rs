use lib::dtdcopy::DTD;
use lib::entities::{EntityDecl, ENTITY};
use lib::errors::XmlError;
use lib::hashtable::HASH_TABLE;
use lib::peref::{
    afterDoctypeSubset, afterExternalParamEntity, afterExternalSubset, doctypeClose, doctypeStandaloneAnswer,
    externalSubsetAction, instanceStart, notStandaloneAnswer, paramEntityRefAction, roleDoctypePublicId,
    roleDoctypeSystemId, InstanceStart, PeRefAction,
};

fn dtd(standalone: bool) -> DTD {
    DTD {
        elementTypes: HASH_TABLE::hashTableInit(9),
        attributeIds: HASH_TABLE::hashTableInit(9),
        generalEntities: HASH_TABLE::hashTableInit(9),
        paramEntities: HASH_TABLE::hashTableInit(9),
        keepProcessing: true,
        hasParamEntityRefs: false,
        standalone,
        paramEntityRead: false,
    }
}

fn declare_internal(d: &mut DTD, name: &[u8], text: &[u8]) {
    let mut e = EntityDecl::new();
    e.roleParamEntityName(&mut d.paramEntities, name, true, true).unwrap();
    e.roleEntityValue(&mut d.generalEntities, &mut d.paramEntities, text, None, true, false);
}

fn declare_external(d: &mut DTD, name: &[u8], internal: bool) {
    let mut e = EntityDecl::new();
    e.roleParamEntityName(&mut d.paramEntities, name, true, internal).unwrap();
    e.roleEntitySystemId(&mut d.generalEntities, &mut d.paramEntities, b"x.ent", None, true);
}

#[test]
fn test_pe_ref_without_pe_parsing() {
    let mut d = dtd(false);
    let r = paramEntityRefAction(&mut d, b"x", false, false, true, false, true, true, true);
    assert_eq!(r, Ok(PeRefAction::CheckStandalone));
    assert!(d.hasParamEntityRefs);
    assert!(!d.keepProcessing);
    let mut d = dtd(true);
    let r = paramEntityRefAction(&mut d, b"x", false, false, true, false, true, true, true);
    assert_eq!(r, Ok(PeRefAction::Done));
    assert!(d.keepProcessing);
}

#[test]
fn test_pe_ref_undeclared() {
    let mut d = dtd(true);
    let r = paramEntityRefAction(&mut d, b"x", false, true, true, false, true, true, false);
    assert_eq!(r, Err(XmlError::XML_ERROR_UNDEFINED_ENTITY));
    let mut d = dtd(false);
    let r = paramEntityRefAction(&mut d, b"x", false, true, true, false, true, true, false);
    assert_eq!(r, Ok(PeRefAction::Skip { report: true }));
    assert!(!d.keepProcessing);
    let mut d = dtd(false);
    let r = paramEntityRefAction(&mut d, b"x", true, true, true, false, true, true, false);
    assert_eq!(r, Ok(PeRefAction::Skip { report: false }));
}

#[test]
fn test_pe_ref_internal() {
    let mut d = dtd(false);
    declare_internal(&mut d, b"p", b"<!ELEMENT a ANY>");
    let r = paramEntityRefAction(&mut d, b"p", false, true, true, false, false, false, false);
    assert_eq!(r, Ok(PeRefAction::ProcessInternal { index: 0, betweenDecl: true }));
    assert!(d.keepProcessing);
}

#[test]
fn test_pe_ref_declared_in_pe() {
    let mut d = dtd(true);
    declare_external(&mut d, b"p", false);
    let r = paramEntityRefAction(&mut d, b"p", false, true, true, false, false, true, false);
    assert_eq!(r, Err(XmlError::XML_ERROR_ENTITY_DECLARED_IN_PE));
}

#[test]
fn test_pe_ref_recursive() {
    let mut d = dtd(false);
    let mut x = ENTITY::empty();
    x.open = true;
    x.text = Some(b"t".to_vec());
    d.paramEntities.lookup_create(b"p", x).unwrap();
    let r = paramEntityRefAction(&mut d, b"p", false, true, false, false, false, false, false);
    assert_eq!(r, Err(XmlError::XML_ERROR_RECURSIVE_ENTITY_REF));
}

#[test]
fn test_pe_ref_external_read() {
    let mut d = dtd(false);
    declare_external(&mut d, b"p", true);
    d.paramEntityRead = true;
    let r = paramEntityRefAction(&mut d, b"p", false, true, true, false, false, true, true);
    assert_eq!(r, Ok(PeRefAction::LoadExternal { index: 0 }));
    assert!(d.paramEntities.value(0).open);
    assert!(!d.paramEntityRead);
    // The application read declarations from it.
    d.paramEntityRead = true;
    let r = afterExternalParamEntity(&mut d, 0, true, true);
    assert_eq!(r, Ok(PeRefAction::CheckStandalone));
    assert!(!d.paramEntities.value(0).open);
    assert_eq!(notStandaloneAnswer(false), Err(XmlError::XML_ERROR_NOT_STANDALONE));
    assert_eq!(notStandaloneAnswer(true), Ok(()));
}

#[test]
fn test_pe_ref_external_not_read_or_failed() {
    let mut d = dtd(false);
    declare_external(&mut d, b"p", true);
    paramEntityRefAction(&mut d, b"p", false, true, true, false, false, true, true).unwrap();
    let r = afterExternalParamEntity(&mut d, 0, true, true);
    assert_eq!(r, Ok(PeRefAction::Done));
    assert!(!d.keepProcessing);
    paramEntityRefAction(&mut d, b"p", false, true, true, false, false, true, true).unwrap();
    let r = afterExternalParamEntity(&mut d, 0, false, true);
    assert_eq!(r, Err(XmlError::XML_ERROR_EXTERNAL_ENTITY_HANDLING));
    assert!(!d.paramEntities.value(0).open);
}

#[test]
fn test_pe_ref_external_without_handler() {
    let mut d = dtd(false);
    declare_external(&mut d, b"p", true);
    let r = paramEntityRefAction(&mut d, b"p", false, true, true, false, false, false, true);
    assert_eq!(r, Ok(PeRefAction::Done));
    assert!(!d.keepProcessing);
}

#[test]
fn test_external_subset_loaded() {
    let mut d = dtd(false);
    let mut decl = EntityDecl::new();
    let a = roleDoctypeSystemId(&mut decl, &mut d, true, true).unwrap();
    assert_eq!(a, PeRefAction::Done);
    decl.roleEntitySystemId(&mut d.generalEntities, &mut d.paramEntities, b"doc.dtd", Some(b"base/"), true);
    assert_eq!(d.paramEntities.name(0), b"#");
    assert_eq!(d.paramEntities.value(0).systemId.as_deref(), Some(&b"doc.dtd"[..]));
    d.hasParamEntityRefs = false;
    let load = externalSubsetAction(&mut d, true, false, true, true, None).unwrap().unwrap();
    assert_eq!(load.index, 0);
    assert!(!load.hadParamEntityRefs);
    assert!(d.hasParamEntityRefs);
    assert_eq!(d.paramEntities.len(), 1);
    // The application read no declarations: a system identifier keeps the references.
    assert_eq!(afterExternalSubset(&mut d, load, true, true, true), Ok(PeRefAction::Done));
    assert!(d.hasParamEntityRefs);
    d.paramEntityRead = true;
    assert_eq!(afterExternalSubset(&mut d, load, true, true, true), Ok(PeRefAction::CheckStandalone));
    assert_eq!(afterExternalSubset(&mut d, load, true, false, true), Err(XmlError::XML_ERROR_EXTERNAL_ENTITY_HANDLING));
}

#[test]
fn test_foreign_dtd() {
    let mut d = dtd(false);
    assert_eq!(externalSubsetAction(&mut d, false, false, true, true, None), Ok(None));
    assert!(!d.hasParamEntityRefs);
    let load = externalSubsetAction(&mut d, false, true, true, true, Some(b"http://b/")).unwrap().unwrap();
    assert_eq!(d.paramEntities.name(load.index), b"#");
    assert_eq!(d.paramEntities.value(load.index).base.as_deref(), Some(&b"http://b/"[..]));
    // Nothing read from a foreign DTD: the references are as they were.
    assert_eq!(afterExternalSubset(&mut d, load, false, true, true), Ok(PeRefAction::Done));
    assert!(!d.hasParamEntityRefs);
    // Without parameter entity parsing nothing is read.
    let mut d = dtd(false);
    assert_eq!(externalSubsetAction(&mut d, true, false, false, true, None), Ok(None));
    assert!(d.hasParamEntityRefs);
    assert_eq!(d.paramEntities.len(), 0);
}

#[test]
fn test_doctype_ids_not_standalone() {
    let mut d = dtd(false);
    let mut decl = EntityDecl::new();
    roleDoctypePublicId(&mut decl, &mut d).unwrap();
    decl.roleEntityPublicId(&mut d.generalEntities, &mut d.paramEntities, b" -//X ", true);
    let a = roleDoctypeSystemId(&mut decl, &mut d, false, true).unwrap();
    assert_eq!(a, PeRefAction::CheckStandalone);
    assert_eq!(d.paramEntities.len(), 1);
    assert_eq!(d.paramEntities.value(0).publicId.as_deref(), Some(&b"-//X"[..]));
}

#[test]
fn test_doctype_close() {
    let mut d = dtd(false);
    let mut foreign = true;
    assert_eq!(doctypeClose(false, &mut d, &mut foreign, true, true, true, None), Err(XmlError::XML_ERROR_INVALID_TOKEN));
    assert!(foreign);
    assert_eq!(d.paramEntities.len(), 0);
    // No parameter entity parsing: nothing is read and the foreign DTD is spent.
    assert_eq!(doctypeClose(true, &mut d, &mut foreign, false, false, true, None), Ok(None));
    assert!(!foreign);
    assert!(d.hasParamEntityRefs);
    // The subset is handed to the application, then the request is spent.
    let mut d = dtd(false);
    let mut foreign = true;
    let load = doctypeClose(true, &mut d, &mut foreign, false, true, true, Some(b"b/")).unwrap().unwrap();
    assert!(foreign);
    assert_eq!(d.paramEntities.name(load.index), b"#");
    assert_eq!(
        afterDoctypeSubset(&mut d, &mut foreign, load, false, false, true),
        Err(XmlError::XML_ERROR_EXTERNAL_ENTITY_HANDLING)
    );
    assert!(foreign);
    d.paramEntityRead = true;
    assert_eq!(afterDoctypeSubset(&mut d, &mut foreign, load, false, true, true), Ok(PeRefAction::CheckStandalone));
    assert!(foreign);
    assert_eq!(doctypeStandaloneAnswer(false, &mut foreign), Err(XmlError::XML_ERROR_NOT_STANDALONE));
    assert!(foreign);
    assert_eq!(doctypeStandaloneAnswer(true, &mut foreign), Ok(()));
    assert!(!foreign);
    let mut foreign = true;
    d.paramEntityRead = false;
    assert_eq!(afterDoctypeSubset(&mut d, &mut foreign, load, false, true, true), Ok(PeRefAction::Done));
    assert!(!foreign);
}

#[test]
fn test_instance_start() {
    let mut d = dtd(false);
    assert_eq!(instanceStart(&mut d, false, true, true, None), Ok(InstanceStart::Content));
    assert!(!d.hasParamEntityRefs);
    assert_eq!(instanceStart(&mut d, true, false, true, None), Ok(InstanceStart::Content));
    assert!(d.hasParamEntityRefs);
    let mut d = dtd(false);
    match instanceStart(&mut d, true, true, true, Some(b"base/")) {
        Ok(InstanceStart::LoadForeignDtd(load)) => {
            assert_eq!(d.paramEntities.name(load.index), b"#");
            assert_eq!(d.paramEntities.value(load.index).base.as_deref(), Some(&b"base/"[..]));
            assert!(!d.paramEntityRead);
        }
        _ => panic!("the foreign DTD is read first"),
    }
}
