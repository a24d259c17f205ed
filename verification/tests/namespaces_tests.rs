use lib::errors::XmlError;
use lib::namespaces::{NsScope, XMLNS_NAMESPACE, XML_NAMESPACE};

#[test]
fn test_bind_and_lookup_prefix() {
    let mut ns = NsScope::new(true, b'!', 5);
    let p = ns.prefix_id(b"a").unwrap();
    assert_eq!(ns.name_of_prefix(p), b"a");
    assert_eq!(ns.addBinding(Some(p), b"urn:x"), Ok(()));
    assert_eq!(ns.binding(Some(p)), Some(&b"urn:x!"[..]));
    assert_eq!(ns.binding(None), None);
    assert_eq!(ns.prefix_id(b"a"), Some(p));
}

#[test]
fn test_default_namespace_and_undeclaring_it() {
    let mut ns = NsScope::new(true, 0, 0);
    assert_eq!(ns.addBinding(None, b"urn:d"), Ok(()));
    assert_eq!(ns.binding(None), Some(&b"urn:d"[..]));
    assert_eq!(ns.addBinding(None, b""), Ok(()));
    assert_eq!(ns.binding(None), None);
}

#[test]
fn test_binding_errors() {
    let mut ns = NsScope::new(true, b'|', 0);
    let xml = ns.prefix_id(b"xml").unwrap();
    let xmlns = ns.prefix_id(b"xmlns").unwrap();
    let p = ns.prefix_id(b"p").unwrap();
    assert_eq!(ns.addBinding(Some(p), b""), Err(XmlError::XML_ERROR_UNDECLARING_PREFIX));
    assert_eq!(ns.addBinding(Some(xmlns), b"urn:x"), Err(XmlError::XML_ERROR_RESERVED_PREFIX_XMLNS));
    assert_eq!(ns.addBinding(Some(xml), b"urn:x"), Err(XmlError::XML_ERROR_RESERVED_PREFIX_XML));
    assert_eq!(ns.addBinding(Some(p), &XML_NAMESPACE), Err(XmlError::XML_ERROR_RESERVED_NAMESPACE_URI));
    assert_eq!(ns.addBinding(None, &XMLNS_NAMESPACE), Err(XmlError::XML_ERROR_RESERVED_NAMESPACE_URI));
    assert_eq!(ns.addBinding(Some(p), b"urn:a|b"), Err(XmlError::XML_ERROR_SYNTAX));
    assert_eq!(ns.addBinding(Some(xml), &XML_NAMESPACE), Ok(()));
    assert_eq!(ns.mark(), 1);
}

#[test]
fn test_separator_that_is_a_uri_char_is_allowed_in_names() {
    let mut ns = NsScope::new(true, b':', 0);
    let p = ns.prefix_id(b"p").unwrap();
    assert_eq!(ns.addBinding(Some(p), b"urn:a"), Ok(()));
    assert_eq!(ns.separator(), b':');
}

#[test]
fn test_pop_restores_earlier_binding() {
    let mut ns = NsScope::new(true, 0, 0);
    let p = ns.prefix_id(b"p").unwrap();
    ns.addBinding(Some(p), b"urn:outer").unwrap();
    let mark = ns.mark();
    ns.addBinding(Some(p), b"urn:inner").unwrap();
    ns.addBinding(None, b"urn:default").unwrap();
    assert_eq!(ns.binding(Some(p)), Some(&b"urn:inner"[..]));
    let popped = ns.pop_bindings(mark);
    assert_eq!(popped, vec![None, Some(p)]);
    assert_eq!(ns.binding(Some(p)), Some(&b"urn:outer"[..]));
    assert_eq!(ns.binding(None), None);
    assert_eq!(ns.mark(), mark);
}

#[test]
fn test_namespace_declaration_reported() {
    let mut ns = NsScope::new(true, b'|', 1);
    let p = ns.prefix_id(b"a").unwrap();
    let ev = ns.addBindingReported(Some(p), b"http://a/", true, true).unwrap().unwrap();
    assert_eq!(ev.prefix, Some(b"a".to_vec()));
    assert_eq!(ev.uri, Some(b"http://a/".to_vec()));
    assert_eq!(ns.binding(Some(p)), Some(&b"http://a/|"[..]));
    let ev = ns.addBindingReported(None, b"", true, true).unwrap().unwrap();
    assert_eq!(ev.prefix, None);
    assert_eq!(ev.uri, None);
    assert!(ns.addBindingReported(None, b"http://d/", false, true).unwrap().is_none());
    assert!(ns.addBindingReported(None, b"http://d/", true, false).unwrap().is_none());
    assert!(ns.addBindingReported(Some(p), b"", true, true).is_err());
}

#[test]
fn test_start_namespace_decls_since_mark() {
    let mut ns = NsScope::new(true, b'|', 1);
    let p = ns.prefix_id(b"p").unwrap();
    ns.addBinding(None, b"urn:outer").unwrap();
    let mark = ns.mark();
    ns.addBinding(Some(p), b"urn:p").unwrap();
    ns.addBinding(None, b"").unwrap();
    let evs = ns.startNamespaceDecls(mark);
    assert_eq!(evs.len(), 2);
    assert_eq!(evs[0].prefix, Some(b"p".to_vec()));
    assert_eq!(evs[0].uri, Some(b"urn:p".to_vec()));
    assert_eq!(evs[1].prefix, None);
    assert_eq!(evs[1].uri, None);
}
