use lib::dtdcopy::DTD;
use lib::errors::XmlError;
use lib::parser::XML_ParamEntityParsing;
use lib::xmldecl::{processXmlDecl, EncodingAction, KnownEncoding, XmlDecl};

fn decide(
    text: bool,
    d: Option<&XmlDecl>,
    dtd: &mut DTD,
    p: &mut XML_ParamEntityParsing,
    protocol: bool,
    width: i32,
) -> Result<EncodingAction, XmlError> {
    processXmlDecl(text, d, dtd, p, protocol, width, false).1
}

fn decl(encodingName: Option<&str>, newEncoding: Option<KnownEncoding>, standalone: i32) -> XmlDecl {
    XmlDecl {
        version: Some(b"1.0".to_vec()),
        encodingName: encodingName.map(|n| n.as_bytes().to_vec()),
        newEncoding,
        standalone,
    }
}

#[test]
fn test_xml_decl_that_does_not_parse() {
    let mut d = DTD::dtdCreate(0);
    let mut p = XML_ParamEntityParsing::XML_PARAM_ENTITY_PARSING_ALWAYS;
    let r = decide(false, None, &mut d, &mut p, false, 1);
    assert!(matches!(r, Err(XmlError::XML_ERROR_XML_DECL)));
    let r = decide(true, None, &mut d, &mut p, false, 1);
    assert!(matches!(r, Err(XmlError::XML_ERROR_TEXT_DECL)));
    assert!(!d.standalone);
}

#[test]
fn test_xml_decl_standalone_stops_param_entity_parsing() {
    let mut d = DTD::dtdCreate(0);
    let mut p = XML_ParamEntityParsing::XML_PARAM_ENTITY_PARSING_UNLESS_STANDALONE;
    let r = decide(false, Some(&decl(None, None, 1)), &mut d, &mut p, false, 1);
    assert!(matches!(r, Ok(EncodingAction::Keep)));
    assert!(d.standalone);
    assert_eq!(p, XML_ParamEntityParsing::XML_PARAM_ENTITY_PARSING_NEVER);

    let mut d = DTD::dtdCreate(0);
    let mut p = XML_ParamEntityParsing::XML_PARAM_ENTITY_PARSING_ALWAYS;
    decide(false, Some(&decl(None, None, 1)), &mut d, &mut p, false, 1).unwrap();
    assert!(d.standalone);
    assert_eq!(p, XML_ParamEntityParsing::XML_PARAM_ENTITY_PARSING_ALWAYS);
}

#[test]
fn test_text_decl_standalone_is_ignored() {
    let mut d = DTD::dtdCreate(0);
    let mut p = XML_ParamEntityParsing::XML_PARAM_ENTITY_PARSING_UNLESS_STANDALONE;
    decide(true, Some(&decl(None, None, 1)), &mut d, &mut p, false, 1).unwrap();
    assert!(!d.standalone);
    assert_eq!(p, XML_ParamEntityParsing::XML_PARAM_ENTITY_PARSING_UNLESS_STANDALONE);
    let mut d = DTD::dtdCreate(0);
    decide(false, Some(&decl(None, None, 0)), &mut d, &mut p, false, 1).unwrap();
    assert!(!d.standalone);
}

#[test]
fn test_xml_decl_encodings() {
    let mut d = DTD::dtdCreate(0);
    let mut p = XML_ParamEntityParsing::XML_PARAM_ENTITY_PARSING_NEVER;
    let same_width = KnownEncoding { minBytesPerChar: 1, isCurrent: false };
    let r = decide(false, Some(&decl(Some("ISO-8859-1"), Some(same_width), -1)), &mut d, &mut p, false, 1);
    assert!(matches!(r, Ok(EncodingAction::Switch)));
    let wide = KnownEncoding { minBytesPerChar: 2, isCurrent: false };
    let r = decide(false, Some(&decl(Some("UTF-16"), Some(wide), -1)), &mut d, &mut p, false, 1);
    assert!(matches!(r, Err(XmlError::XML_ERROR_INCORRECT_ENCODING)));
    let other16 = KnownEncoding { minBytesPerChar: 2, isCurrent: false };
    let r = decide(false, Some(&decl(Some("UTF-16BE"), Some(other16), -1)), &mut d, &mut p, false, 2);
    assert!(matches!(r, Err(XmlError::XML_ERROR_INCORRECT_ENCODING)));
    let this16 = KnownEncoding { minBytesPerChar: 2, isCurrent: true };
    let r = decide(false, Some(&decl(Some("UTF-16"), Some(this16), -1)), &mut d, &mut p, false, 2);
    assert!(matches!(r, Ok(EncodingAction::Switch)));
    let r = decide(false, Some(&decl(Some("x-custom"), None, -1)), &mut d, &mut p, false, 1);
    match r {
        Ok(EncodingAction::Unknown(n)) => assert_eq!(n, b"x-custom".to_vec()),
        _ => panic!("unknown encoding expected"),
    }
    let wide = KnownEncoding { minBytesPerChar: 2, isCurrent: false };
    let r = decide(false, Some(&decl(Some("UTF-16"), Some(wide), -1)), &mut d, &mut p, true, 1);
    assert!(matches!(r, Ok(EncodingAction::Keep)));
}

#[test]
fn test_xml_decl_reported() {
    let mut d = DTD::dtdCreate(0);
    let mut p = XML_ParamEntityParsing::XML_PARAM_ENTITY_PARSING_NEVER;
    let wide = KnownEncoding { minBytesPerChar: 2, isCurrent: false };
    let (ev, r) = processXmlDecl(false, Some(&decl(Some("UTF-16"), Some(wide), 0)), &mut d, &mut p, false, 1, true);
    let ev = ev.unwrap();
    assert_eq!(ev.version, Some(b"1.0".to_vec()));
    assert_eq!(ev.encoding, Some(b"UTF-16".to_vec()));
    assert_eq!(ev.standalone, 0);
    assert!(matches!(r, Err(XmlError::XML_ERROR_INCORRECT_ENCODING)));
    let (ev, _) = processXmlDecl(false, Some(&decl(None, None, -1)), &mut d, &mut p, false, 1, false);
    assert!(ev.is_none());
    let (ev, r) = processXmlDecl(true, None, &mut d, &mut p, false, 1, true);
    assert!(ev.is_none());
    assert!(matches!(r, Err(XmlError::XML_ERROR_TEXT_DECL)));
}
