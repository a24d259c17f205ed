use lib::context::{getContext, parse_context_string, setContext, write_context, ContextItem};
use lib::entities::ENTITY;
use lib::hashtable::HASH_TABLE;
use lib::namespaces::NsScope;

fn items_equal(a: &[ContextItem], b: &[ContextItem]) -> bool {
    a.len() == b.len()
        && a.iter().zip(b.iter()).all(|(x, y)| match (x, y) {
            (ContextItem::DefaultNamespace(u), ContextItem::DefaultNamespace(v)) => u == v,
            (ContextItem::Prefixed(p, u), ContextItem::Prefixed(q, v)) => p == q && u == v,
            (ContextItem::OpenEntity(n), ContextItem::OpenEntity(m)) => n == m,
            _ => false,
        })
}

#[test]
fn test_parse_context_string() {
    let items = parse_context_string(b"=urn:d\x0cp=urn:p\x0cent");
    let expected = vec![
        ContextItem::DefaultNamespace(b"urn:d".to_vec()),
        ContextItem::Prefixed(b"p".to_vec(), b"urn:p".to_vec()),
        ContextItem::OpenEntity(b"ent".to_vec()),
    ];
    assert!(items_equal(&items, &expected));
}

#[test]
fn test_write_then_parse_gives_items_back() {
    let items = vec![
        ContextItem::Prefixed(b"xml".to_vec(), b"http://www.w3.org/XML/1998/namespace".to_vec()),
        ContextItem::OpenEntity(b"e1".to_vec()),
        ContextItem::DefaultNamespace(b"urn:x".to_vec()),
    ];
    let s = write_context(&items);
    assert_eq!(s, b"xml=http://www.w3.org/XML/1998/namespace\x0ce1\x0c=urn:x".to_vec());
    assert!(items_equal(&parse_context_string(&s), &items));
}

#[test]
fn test_set_context_binds_and_opens() {
    let mut ns = NsScope::new(true, b'!', 11);
    let mut ents: HASH_TABLE<ENTITY> = HASH_TABLE::hashTableInit(11);
    let e = ents.lookup_create(b"ent", ENTITY::empty()).unwrap();
    assert!(setContext(&mut ns, &mut ents, b"=urn:d\x0cp=urn:p\x0cent"));
    let p = ns.prefix_id(b"p").unwrap();
    assert_eq!(ns.binding(Some(p)), Some(&b"urn:p!"[..]));
    assert_eq!(ns.binding(None), Some(&b"urn:d!"[..]));
    assert!(ents.value(e).open);
}

#[test]
fn test_set_context_refuses_reserved_prefix() {
    let mut ns = NsScope::new(true, 0, 0);
    let mut ents: HASH_TABLE<ENTITY> = HASH_TABLE::hashTableInit(0);
    assert!(!setContext(&mut ns, &mut ents, b"xmlns=urn:x"));
}

#[test]
fn test_get_context_round_trip() {
    let mut ns = NsScope::new(true, b'!', 3);
    let mut ents: HASH_TABLE<ENTITY> = HASH_TABLE::hashTableInit(3);
    ents.lookup_create(b"closed", ENTITY::empty()).unwrap();
    ents.lookup_create(b"open", ENTITY::empty()).unwrap();
    assert!(setContext(&mut ns, &mut ents, b"=urn:d\x0cq=urn:q\x0copen"));
    let ctx = getContext(&ns, &ents);
    assert_eq!(ctx, b"=urn:d\x0cq=urn:q\x0copen".to_vec());
}

#[test]
fn test_context_round_trip_into_new_parser() {
    let mut q = NsScope::new(true, b'|', 3);
    let a = q.prefix_id(b"a").unwrap();
    let b = q.prefix_id(b"b").unwrap();
    q.addBinding(None, b"urn:d").unwrap();
    q.addBinding(Some(a), b"urn:a1").unwrap();
    q.addBinding(Some(a), b"urn:a2").unwrap();
    let mut qe: HASH_TABLE<ENTITY> = HASH_TABLE::hashTableInit(3);
    let mut open = ENTITY::empty();
    open.open = true;
    qe.lookup_create(b"e", open).unwrap();
    qe.lookup_create(b"f", ENTITY::empty()).unwrap();
    let ctx = getContext(&q, &qe);
    let mut p = NsScope::new(true, b'|', 9);
    let mut pe: HASH_TABLE<ENTITY> = HASH_TABLE::hashTableInit(9);
    pe.lookup_create(b"f", ENTITY::empty()).unwrap();
    pe.lookup_create(b"e", ENTITY::empty()).unwrap();
    assert!(setContext(&mut p, &mut pe, &ctx));
    assert_eq!(p.binding(None), q.binding(None));
    let pa = p.prefixes().lookup(b"a").unwrap();
    assert_eq!(p.binding(Some(pa)), Some(&b"urn:a2|"[..]));
    assert_eq!(p.binding(Some(pa)), q.binding(Some(a)));
    assert!(p.prefixes().lookup(b"b").is_none() || q.binding(Some(b)).is_none());
    assert!(pe.value(pe.lookup(b"e").unwrap()).open);
    assert!(!pe.value(pe.lookup(b"f").unwrap()).open);
}
