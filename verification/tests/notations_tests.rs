use lib::notations::NotationDecl;

#[test]
fn test_notation_with_system_id() {
    let mut d = NotationDecl::new();
    d.roleNotationName(b"gif", true);
    d.roleNotationPublicId(b" image/gif  v1 ");
    let ev = d.roleNotationSystemId(b"viewer.exe", Some(b"base/"), true).unwrap();
    assert_eq!(ev.notationName, b"gif".to_vec());
    assert_eq!(ev.base, Some(b"base/".to_vec()));
    assert_eq!(ev.systemId, Some(b"viewer.exe".to_vec()));
    assert_eq!(ev.publicId, Some(b"image/gif v1".to_vec()));
}

#[test]
fn test_notation_public_only() {
    let mut d = NotationDecl::new();
    d.roleNotationName(b"n", true);
    assert!(d.roleNotationNoSystemId(None, true).is_none());
    d.roleNotationPublicId(b"-//P//N");
    let ev = d.roleNotationNoSystemId(None, true).unwrap();
    assert_eq!(ev.systemId, None);
    assert_eq!(ev.publicId, Some(b"-//P//N".to_vec()));
}

#[test]
fn test_notation_without_handler() {
    let mut d = NotationDecl::new();
    d.roleNotationName(b"n", false);
    assert_eq!(d.declNotationName, None);
    d.roleNotationPublicId(b"p");
    assert_eq!(d.declNotationPublicId, None);
    assert!(d.roleNotationSystemId(b"s", None, true).is_none());
    assert!(d.roleNotationNoSystemId(None, true).is_none());
}
