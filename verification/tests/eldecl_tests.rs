use lib::content::{XML_Content_Quant, XML_Content_Type};
use lib::eldecl::ElementDecl;
use lib::errors::XmlError;

#[test]
fn test_declaration_with_sequence_and_choice() {
    // <!ELEMENT doc (head, (p | list)*, foot?)>
    let mut d = ElementDecl::new();
    d.roleElementName(true);
    d.roleGroupOpen(1);
    d.roleContentElement(XML_Content_Quant::XML_CQUANT_NONE, b"head").unwrap();
    d.roleGroupSequence(1).unwrap();
    d.roleGroupOpen(2);
    d.roleContentElement(XML_Content_Quant::XML_CQUANT_NONE, b"p").unwrap();
    d.roleGroupChoice(2).unwrap();
    d.roleContentElement(XML_Content_Quant::XML_CQUANT_NONE, b"list").unwrap();
    assert_eq!(d.roleGroupClose(XML_Content_Quant::XML_CQUANT_REP, true).unwrap().map(|m| m.len()), None);
    d.roleGroupSequence(1).unwrap();
    d.roleContentElement(XML_Content_Quant::XML_CQUANT_OPT, b"foot").unwrap();
    assert_eq!(d.contentStringLen, 5 + 2 + 5 + 5);
    let model = d.roleGroupClose(XML_Content_Quant::XML_CQUANT_NONE, true).unwrap().unwrap();
    assert!(!d.in_eldecl);
    assert_eq!(d.contentStringLen, 0);
    assert_eq!(model.len(), 6);
    assert_eq!(model[0].type_0, XML_Content_Type::XML_CTYPE_SEQ);
    assert_eq!((model[0].numchildren, model[0].children), (3, 1));
    assert_eq!(model[1].name.as_deref(), Some(&b"head"[..]));
    assert_eq!(model[2].type_0, XML_Content_Type::XML_CTYPE_CHOICE);
    assert_eq!(model[2].quant, XML_Content_Quant::XML_CQUANT_REP);
    assert_eq!(model[3].name.as_deref(), Some(&b"foot"[..]));
    assert_eq!(model[3].quant, XML_Content_Quant::XML_CQUANT_OPT);
    assert_eq!(model[4].name.as_deref(), Some(&b"p"[..]));
    assert_eq!(model[5].name.as_deref(), Some(&b"list"[..]));
}

#[test]
fn test_mixed_content_stays_mixed() {
    // <!ELEMENT p (#PCDATA | em)*>
    let mut d = ElementDecl::new();
    d.roleElementName(true);
    d.roleGroupOpen(1);
    d.roleContentPcdata();
    d.roleGroupChoice(1).unwrap();
    d.roleContentElement(XML_Content_Quant::XML_CQUANT_NONE, b"em").unwrap();
    let model = d.roleGroupClose(XML_Content_Quant::XML_CQUANT_REP, true).unwrap().unwrap();
    assert_eq!(model[0].type_0, XML_Content_Type::XML_CTYPE_MIXED);
    assert_eq!(model[0].quant, XML_Content_Quant::XML_CQUANT_REP);
    assert_eq!(model[0].numchildren, 1);
}

#[test]
fn test_mixing_connectors_is_a_syntax_error() {
    let mut d = ElementDecl::new();
    d.roleElementName(true);
    d.roleGroupOpen(1);
    d.roleGroupSequence(1).unwrap();
    assert_eq!(d.roleGroupChoice(1), Err(XmlError::XML_ERROR_SYNTAX));
    let mut e = ElementDecl::new();
    e.roleGroupOpen(0);
    e.roleGroupChoice(0).unwrap();
    assert_eq!(e.roleGroupSequence(0), Err(XmlError::XML_ERROR_SYNTAX));
}

#[test]
fn test_any_and_empty() {
    let mut d = ElementDecl::new();
    d.roleElementName(true);
    assert_eq!(d.roleContentAnyOrEmpty(true, true), Some(XML_Content_Type::XML_CTYPE_ANY));
    assert!(!d.in_eldecl);
    assert_eq!(d.roleContentAnyOrEmpty(false, true), None);
    d.roleElementName(true);
    assert_eq!(d.roleContentAnyOrEmpty(false, true), Some(XML_Content_Type::XML_CTYPE_EMPTY));
}

#[test]
fn test_without_handler_nothing_is_built() {
    let mut d = ElementDecl::new();
    d.roleElementName(false);
    assert!(!d.in_eldecl);
    d.roleGroupOpen(1);
    d.roleContentElement(XML_Content_Quant::XML_CQUANT_NONE, b"x").unwrap();
    assert_eq!(d.scaffold.scaffold.len(), 0);
    assert_eq!(d.roleGroupClose(XML_Content_Quant::XML_CQUANT_NONE, false).unwrap().map(|m| m.len()), None);
}
