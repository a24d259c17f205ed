use lib::errors::{
    xml_error_to_c, xml_status_to_c, XmlError, XmlStatus, XML_ErrorString, XML_ExpatVersion,
    XML_ExpatVersionInfo, XML_GetFeatureList, XML_CONTEXT_BYTES, XML_FEATURE_CONTEXT_BYTES, XML_FEATURE_END,
    XML_FEATURE_NS,
};

#[test]
fn test_error_strings() {
    assert_eq!(XML_ErrorString(0), None);
    assert_eq!(XML_ErrorString(1), Some("out of memory"));
    assert_eq!(XML_ErrorString(8), Some("duplicate attribute"));
    assert_eq!(XML_ErrorString(7), Some("mismatched tag"));
    assert_eq!(XML_ErrorString(1000), None);
}

#[test]
fn test_every_error_has_a_code_and_message() {
    for code in 0u32..=44 {
        let e = XmlError::from_code(code).unwrap();
        assert_eq!(e.code(), code);
        assert_eq!(xml_error_to_c(e), code);
        if code == 0 {
            assert!(XML_ErrorString(code).is_none());
        } else {
            assert!(XML_ErrorString(code).is_some(), "code {}", code);
        }
    }
    assert_eq!(XmlError::from_code(45), None);
}

#[test]
fn test_status_codes() {
    assert_eq!(xml_status_to_c(XmlStatus::XML_STATUS_ERROR), 0);
    assert_eq!(xml_status_to_c(XmlStatus::XML_STATUS_OK), 1);
    assert_eq!(xml_status_to_c(XmlStatus::XML_STATUS_SUSPENDED), 2);
}

#[test]
fn test_version() {
    assert_eq!(XML_ExpatVersion(), "expat_2.7.5");
    let v = XML_ExpatVersionInfo();
    assert_eq!((v.major, v.minor, v.micro), (2, 7, 5));
}

#[test]
fn test_feature_list() {
    let f = XML_GetFeatureList();
    assert!(!f.is_empty());
    assert_eq!(f.last().unwrap().feature, XML_FEATURE_END);
    let ctx = f.iter().find(|x| x.feature == XML_FEATURE_CONTEXT_BYTES).unwrap();
    assert_eq!(ctx.value, XML_CONTEXT_BYTES as i64);
    assert!(f.iter().any(|x| x.feature == XML_FEATURE_NS));
    assert_eq!(f.len(), 11);
    assert_eq!(f[0].name, Some("sizeof(XML_Char)"));
    assert_eq!(ctx.name, Some("XML_CONTEXT_BYTES"));
    assert_eq!(f[9].name, Some("XML_AT_ACT_THRES"));
    assert_eq!(f[10].name, None);
}
