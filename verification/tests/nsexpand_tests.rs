use lib::errors::XmlError;
use lib::namespaces::NsScope;
use lib::nsexpand::{expandAttributeNames, expandTagName, PrefixedAtt};

fn scope() -> (NsScope, usize, usize) {
    let mut ns = NsScope::new(true, b'|', 0);
    let a = ns.prefix_id(b"a").unwrap();
    let b = ns.prefix_id(b"b").unwrap();
    ns.addBinding(Some(a), b"urn:one").unwrap();
    ns.addBinding(Some(b), b"urn:one").unwrap();
    (ns, a, b)
}

#[test]
fn test_expand_prefixed_tag_name() {
    let (ns, a, _) = scope();
    assert_eq!(expandTagName(&ns, Some(a), b"a:doc", false), Ok(Some(b"urn:one|doc".to_vec())));
    assert_eq!(expandTagName(&ns, Some(a), b"a:doc", true), Ok(Some(b"urn:one|doc|a".to_vec())));
}

#[test]
fn test_expand_tag_name_in_default_namespace() {
    let (mut ns, _, _) = scope();
    assert_eq!(expandTagName(&ns, None, b"doc", true), Ok(None));
    ns.addBinding(None, b"urn:d").unwrap();
    assert_eq!(expandTagName(&ns, None, b"doc", true), Ok(Some(b"urn:d|doc".to_vec())));
}

#[test]
fn test_unbound_prefix() {
    let mut ns = NsScope::new(true, b'|', 0);
    let c = ns.prefix_id(b"c").unwrap();
    assert_eq!(expandTagName(&ns, Some(c), b"c:x", false), Err(XmlError::XML_ERROR_UNBOUND_PREFIX));
    let atts = vec![PrefixedAtt { name: b"c:x".to_vec(), prefix: c }];
    assert_eq!(expandAttributeNames(&atts, &ns, false), Err(XmlError::XML_ERROR_UNBOUND_PREFIX));
}

#[test]
fn test_expand_attribute_names() {
    let (ns, a, _) = scope();
    let atts = vec![
        PrefixedAtt { name: b"a:x".to_vec(), prefix: a },
        PrefixedAtt { name: b"a:y".to_vec(), prefix: a },
    ];
    assert_eq!(
        expandAttributeNames(&atts, &ns, false),
        Ok(vec![b"urn:one|x".to_vec(), b"urn:one|y".to_vec()])
    );
    assert_eq!(
        expandAttributeNames(&atts, &ns, true),
        Ok(vec![b"urn:one|x|a".to_vec(), b"urn:one|y|a".to_vec()])
    );
}

#[test]
fn test_two_prefixes_for_one_namespace_collide() {
    let (ns, a, b) = scope();
    let atts = vec![
        PrefixedAtt { name: b"a:x".to_vec(), prefix: a },
        PrefixedAtt { name: b"b:x".to_vec(), prefix: b },
    ];
    assert_eq!(expandAttributeNames(&atts, &ns, false), Err(XmlError::XML_ERROR_DUPLICATE_ATTRIBUTE));
    // With triplets the prefixes tell them apart.
    assert!(expandAttributeNames(&atts, &ns, true).is_ok());
}
