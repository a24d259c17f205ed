use lib::content::{build_model, ContentScaffold, XML_Content_Quant, XML_Content_Type, CONTENT_SCAFFOLD};

fn open_group(c: &mut ContentScaffold, t: XML_Content_Type) -> i32 {
    let i = c.nextScaffoldPart();
    c.scaffold[i as usize].type_0 = t;
    if c.scaffIndex.len() <= c.scaffLevel as usize {
        c.scaffIndex.push(0);
    }
    c.scaffIndex[c.scaffLevel as usize] = i;
    c.scaffLevel += 1;
    i
}

fn name(c: &mut ContentScaffold, n: &[u8], q: XML_Content_Quant) -> i32 {
    let i = c.nextScaffoldPart();
    c.scaffold[i as usize].type_0 = XML_Content_Type::XML_CTYPE_NAME;
    c.scaffold[i as usize].quant = q;
    c.scaffold[i as usize].name = n.to_vec();
    i
}

#[test]
fn test_next_scaffold_part_links_children() {
    let mut c = ContentScaffold::new();
    assert_eq!(open_group(&mut c, XML_Content_Type::XML_CTYPE_SEQ), 0);
    assert_eq!(name(&mut c, b"a", XML_Content_Quant::XML_CQUANT_NONE), 1);
    assert_eq!(name(&mut c, b"b", XML_Content_Quant::XML_CQUANT_OPT), 2);
    let root = &c.scaffold[0];
    assert_eq!((root.firstchild, root.lastchild, root.childcnt), (1, 2, 2));
    assert_eq!(c.scaffold[1].nextsib, 2);
    assert_eq!(c.scaffold[2].nextsib, 0);
}

#[test]
fn test_build_model_of_nested_groups() {
    // (a, (b | c)*, d+)
    let mut c = ContentScaffold::new();
    open_group(&mut c, XML_Content_Type::XML_CTYPE_SEQ);
    name(&mut c, b"a", XML_Content_Quant::XML_CQUANT_NONE);
    let g = open_group(&mut c, XML_Content_Type::XML_CTYPE_CHOICE);
    c.scaffold[g as usize].quant = XML_Content_Quant::XML_CQUANT_REP;
    name(&mut c, b"b", XML_Content_Quant::XML_CQUANT_NONE);
    name(&mut c, b"c", XML_Content_Quant::XML_CQUANT_NONE);
    c.scaffLevel -= 1;
    name(&mut c, b"d", XML_Content_Quant::XML_CQUANT_PLUS);
    let m = build_model(&c.scaffold).unwrap();
    assert_eq!(m.len(), 6);
    assert_eq!(m[0].type_0, XML_Content_Type::XML_CTYPE_SEQ);
    assert_eq!((m[0].numchildren, m[0].children), (3, 1));
    assert_eq!(m[1].name.as_deref(), Some(&b"a"[..]));
    assert_eq!(m[2].type_0, XML_Content_Type::XML_CTYPE_CHOICE);
    assert_eq!(m[2].quant, XML_Content_Quant::XML_CQUANT_REP);
    assert_eq!((m[2].numchildren, m[2].children), (2, 4));
    assert_eq!(m[3].name.as_deref(), Some(&b"d"[..]));
    assert_eq!(m[3].quant, XML_Content_Quant::XML_CQUANT_PLUS);
    assert_eq!(m[4].name.as_deref(), Some(&b"b"[..]));
    assert_eq!(m[5].name.as_deref(), Some(&b"c"[..]));
    assert_eq!(m[4].numchildren, 0);
}

#[test]
fn test_build_model_single_node() {
    let mut c = ContentScaffold::new();
    let i = c.nextScaffoldPart();
    c.scaffold[i as usize].type_0 = XML_Content_Type::XML_CTYPE_ANY;
    let m = build_model(&c.scaffold).unwrap();
    assert_eq!(m.len(), 1);
    assert_eq!(m[0].type_0, XML_Content_Type::XML_CTYPE_ANY);
    assert_eq!(m[0].numchildren, 0);
    assert!(m[0].name.is_none());
}

fn node(t: XML_Content_Type, first: i32, cnt: i32, next: i32) -> CONTENT_SCAFFOLD {
    CONTENT_SCAFFOLD {
        type_0: t,
        quant: XML_Content_Quant::XML_CQUANT_NONE,
        name: b"n".to_vec(),
        firstchild: first,
        lastchild: first,
        childcnt: cnt,
        nextsib: next,
    }
}

#[test]
fn test_build_model_refuses_a_scaffold_that_is_no_tree() {
    // The root claims three children but the scaffold has two nodes.
    let s = vec![node(XML_Content_Type::XML_CTYPE_SEQ, 1, 3, 0), node(XML_Content_Type::XML_CTYPE_NAME, 0, 0, 1)];
    assert!(build_model(&s).is_none());
    // Node 1 is never placed: the root has no children.
    let s = vec![node(XML_Content_Type::XML_CTYPE_SEQ, 0, 0, 0), node(XML_Content_Type::XML_CTYPE_NAME, 0, 0, 0)];
    assert!(build_model(&s).is_none());
}
