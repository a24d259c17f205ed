use lib::dtdcopy::DTD;
use lib::entities::EntityDecl;
use lib::entityvalue::{entityValueRefAction, storeEntityValue, ValuePiece, ValueRefAction, ValueStop};
use lib::errors::XmlError;

fn dtd_with_entities() -> DTD {
    let mut d = DTD::dtdCreate(7);
    let mut e = EntityDecl::new();
    e.roleParamEntityName(&mut d.paramEntities, b"int", true, true).unwrap();
    e.roleEntityValue(&mut d.generalEntities, &mut d.paramEntities, b"inner", None, true, false);
    let mut e = EntityDecl::new();
    e.roleParamEntityName(&mut d.paramEntities, b"ext", true, true).unwrap();
    e.roleEntitySystemId(&mut d.generalEntities, &mut d.paramEntities, b"ext.ent", None, true);
    d
}

fn data(s: &str) -> ValuePiece {
    ValuePiece::Data(s.as_bytes().to_vec())
}

#[test]
fn test_entity_value_plain_pieces() {
    let mut d = dtd_with_entities();
    let pieces = vec![data("a&amp;"), ValuePiece::Newline, ValuePiece::CharRef(0xe9), data("b")];
    let mut v = Vec::new();
    let r = storeEntityValue(&pieces, 0, &mut v, &mut d, None, false, true);
    assert_eq!(r, Ok(ValueStop::Done));
    assert_eq!(v, b"a&amp;\n\xc3\xa9b".to_vec());
    assert!(d.keepProcessing);
}

#[test]
fn test_entity_value_errors() {
    let mut d = dtd_with_entities();
    let mut v = Vec::new();
    let r = storeEntityValue(&vec![data("x"), ValuePiece::CharRef(-1), data("y")], 0, &mut v, &mut d, None, true, true);
    assert_eq!(r, Err((XmlError::XML_ERROR_BAD_CHAR_REF, 1)));
    let mut v = Vec::new();
    let r = storeEntityValue(&vec![ValuePiece::Invalid], 0, &mut v, &mut d, None, true, true);
    assert_eq!(r, Err((XmlError::XML_ERROR_INVALID_TOKEN, 0)));
    let mut v = Vec::new();
    let r = storeEntityValue(&vec![data("x"), ValuePiece::Partial], 0, &mut v, &mut d, None, true, true);
    assert_eq!(r, Err((XmlError::XML_ERROR_INVALID_TOKEN, 1)));
    let mut v = Vec::new();
    let r = storeEntityValue(&vec![ValuePiece::ParamRef(b"int".to_vec())], 0, &mut v, &mut d, None, false, true);
    assert_eq!(r, Err((XmlError::XML_ERROR_PARAM_ENTITY_REF, 0)));
}

#[test]
fn test_entity_value_param_refs() {
    let mut d = dtd_with_entities();
    let pieces = vec![
        data("a"),
        ValuePiece::ParamRef(b"nope".to_vec()),
        data("b"),
        ValuePiece::ParamRef(b"int".to_vec()),
        data("c"),
        ValuePiece::ParamRef(b"ext".to_vec()),
        data("d"),
    ];
    let mut v = Vec::new();
    let r = storeEntityValue(&pieces, 0, &mut v, &mut d, None, true, true);
    assert_eq!(r, Ok(ValueStop::ProcessInternal { index: 0, next: 4 }));
    assert_eq!(v, b"ab".to_vec());
    assert!(!d.keepProcessing);
    let r = storeEntityValue(&pieces, 4, &mut v, &mut d, None, true, true);
    assert_eq!(r, Ok(ValueStop::LoadExternal { index: 1, next: 6 }));
    assert_eq!(v, b"abc".to_vec());
    assert!(d.paramEntities.value(1).open);
    assert!(!d.paramEntityRead);
    let r = storeEntityValue(&pieces, 6, &mut v, &mut d, None, true, true);
    assert_eq!(r, Ok(ValueStop::Done));
    assert_eq!(v, b"abcd".to_vec());
}

#[test]
fn test_entity_value_ref_actions() {
    let mut d = dtd_with_entities();
    assert_eq!(entityValueRefAction(&mut d, b"int", Some(0), true, true), Err(XmlError::XML_ERROR_RECURSIVE_ENTITY_REF));
    assert_eq!(entityValueRefAction(&mut d, b"int", None, true, true), Ok(ValueRefAction::ProcessInternal { index: 0 }));
    d.standalone = true;
    d.keepProcessing = false;
    assert_eq!(entityValueRefAction(&mut d, b"ext", None, true, false), Ok(ValueRefAction::Unread));
    assert!(d.keepProcessing);
    assert!(!d.paramEntities.value(1).open);
    assert_eq!(entityValueRefAction(&mut d, b"zz", None, true, false), Ok(ValueRefAction::Undeclared));
    assert_eq!(entityValueRefAction(&mut d, b"ext", None, true, true), Ok(ValueRefAction::LoadExternal { index: 1 }));
    assert_eq!(entityValueRefAction(&mut d, b"ext", None, true, true), Err(XmlError::XML_ERROR_RECURSIVE_ENTITY_REF));
}
