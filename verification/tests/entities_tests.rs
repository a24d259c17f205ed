use lib::entities::{DeclEntity, EntityDecl, EntityEvent, ENTITY};
use lib::hashtable::HASH_TABLE;

fn tables() -> (HASH_TABLE<ENTITY>, HASH_TABLE<ENTITY>) {
    (HASH_TABLE::hashTableInit(5), HASH_TABLE::hashTableInit(6))
}

fn text(v: &[u8]) -> String {
    String::from_utf8(v.to_vec()).unwrap()
}

fn opt(v: &Option<Vec<u8>>) -> Option<String> {
    v.as_ref().map(|x| text(x))
}

#[test]
fn test_internal_general_entity() {
    let (mut g, mut p) = tables();
    let mut d = EntityDecl::new();
    assert_eq!(d.roleGeneralEntityName(&mut g, b"greet", true, true), Ok(()));
    assert_eq!(d.declEntity, Some(DeclEntity { is_param: false, index: 0 }));
    let ev = d.roleEntityValue(&mut g, &mut p, b"hello", Some(b"base/"), true, true).unwrap();
    match ev {
        EntityEvent::EntityDecl { name, is_param, value, base, systemId, publicId, notation } => {
            assert_eq!(text(&name), "greet");
            assert!(!is_param);
            assert_eq!(opt(&value), Some("hello".to_string()));
            assert_eq!(opt(&base), Some("base/".to_string()));
            assert!(systemId.is_none() && publicId.is_none() && notation.is_none());
        },
        _ => panic!("expected an entity declaration"),
    }
    let e = g.value(0);
    assert_eq!(e.text.as_deref(), Some(&b"hello"[..]));
    assert!(e.is_internal);
    assert!(!e.open);
    assert_eq!(p.len(), 0);
}

#[test]
fn test_first_entity_declaration_binds() {
    let (mut g, mut p) = tables();
    let mut d = EntityDecl::new();
    d.roleGeneralEntityName(&mut g, b"e", true, true).unwrap();
    d.roleEntityValue(&mut g, &mut p, b"first", None, true, false);
    let mut d2 = EntityDecl::new();
    d2.roleGeneralEntityName(&mut g, b"e", true, true).unwrap();
    assert_eq!(d2.declEntity, None);
    assert!(d2.roleEntityValue(&mut g, &mut p, b"second", None, true, true).is_none());
    assert_eq!(g.len(), 1);
    assert_eq!(g.value(0).text.as_deref(), Some(&b"first"[..]));
}

#[test]
fn test_predefined_entity_names_are_ignored() {
    let (mut g, _) = tables();
    let mut d = EntityDecl::new();
    for name in [&b"amp"[..], b"lt", b"gt", b"quot", b"apos"] {
        assert_eq!(d.roleGeneralEntityName(&mut g, name, true, true), Ok(()));
        assert_eq!(d.declEntity, None);
    }
    assert_eq!(g.len(), 0);
    d.roleGeneralEntityName(&mut g, b"ampx", true, true).unwrap();
    assert_eq!(g.len(), 1);
}

#[test]
fn test_entities_not_declared_once_dtd_not_processed() {
    let (mut g, mut p) = tables();
    let mut d = EntityDecl::new();
    d.roleGeneralEntityName(&mut g, b"e", false, true).unwrap();
    d.roleParamEntityName(&mut p, b"pe", false, true).unwrap();
    assert_eq!(d.declEntity, None);
    assert_eq!(g.len(), 0);
    assert_eq!(p.len(), 0);
}

#[test]
fn test_external_parameter_entity() {
    let (mut g, mut p) = tables();
    let mut d = EntityDecl::new();
    d.roleParamEntityName(&mut p, b"ext", true, false).unwrap();
    assert_eq!(d.declEntity, Some(DeclEntity { is_param: true, index: 0 }));
    d.roleEntitySystemId(&mut g, &mut p, b"ext.dtd", Some(b"http://x/"), true);
    d.roleEntityPublicId(&mut g, &mut p, b"  -//A//B  C// ", true);
    let ev = d.roleEntityComplete(&g, &p, true, true).unwrap();
    match ev {
        EntityEvent::EntityDecl { name, is_param, value, base, systemId, publicId, notation } => {
            assert_eq!(text(&name), "ext");
            assert!(is_param);
            assert!(value.is_none() && notation.is_none());
            assert_eq!(opt(&base), Some("http://x/".to_string()));
            assert_eq!(opt(&systemId), Some("ext.dtd".to_string()));
            assert_eq!(opt(&publicId), Some("-//A//B C//".to_string()));
        },
        _ => panic!("expected an entity declaration"),
    }
    let e = p.value(0);
    assert!(e.is_param);
    assert!(!e.is_internal);
    assert_eq!(g.len(), 0);
}

#[test]
fn test_unparsed_entity() {
    let (mut g, mut p) = tables();
    let mut d = EntityDecl::new();
    d.roleGeneralEntityName(&mut g, b"pic", true, true).unwrap();
    d.roleEntitySystemId(&mut g, &mut p, b"pic.gif", None, true);
    let ev = d.roleEntityNotationName(&mut g, &mut p, b"gif", true, true, true).unwrap();
    match ev {
        EntityEvent::UnparsedEntityDecl { name, base, systemId, publicId, notationName } => {
            assert_eq!(text(&name), "pic");
            assert!(base.is_none() && publicId.is_none());
            assert_eq!(opt(&systemId), Some("pic.gif".to_string()));
            assert_eq!(text(&notationName), "gif");
        },
        _ => panic!("expected an unparsed entity declaration"),
    }
    // Without an unparsed entity handler, the entity handler hears of it.
    let ev = d.roleEntityNotationName(&mut g, &mut p, b"gif", true, false, true).unwrap();
    match ev {
        EntityEvent::EntityDecl { notation, is_param, .. } => {
            assert_eq!(opt(&notation), Some("gif".to_string()));
            assert!(!is_param);
        },
        _ => panic!("expected an entity declaration"),
    }
    assert_eq!(g.value(0).notation.as_deref(), Some(&b"gif"[..]));
    assert!(d.roleEntityNotationName(&mut g, &mut p, b"gif", true, false, false).is_none());
}
