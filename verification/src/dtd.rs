//! The element types and attribute names that a DTD declares: the
//! namespace prefix of each, which attribute is an element's ID, and the
//! default attributes of each element type.
use vstd::prelude::*;
use crate::hashtable::HASH_TABLE;
use crate::namespaces::NsScope;

verus! {

/// The prefix of a name: none, the default namespace (the attribute
/// `xmlns`), or a prefix of the prefix table.
#[derive(PartialEq, Eq, Structural, Clone, Copy, Debug)]
pub enum PrefixRef {
    NoPrefix,
    Default,
    Named(usize),
}

/// What the parser knows of an attribute name, besides the name.
#[derive(PartialEq, Eq, Structural, Clone, Copy, Debug)]
#[allow(non_camel_case_types, non_snake_case)]
pub struct attribute_id {
    pub prefix: PrefixRef,
    pub maybeTokenized: bool,
    pub xmlns: bool,
}

/// A default attribute of an element type: the attribute (its index in the
/// attribute table), its default value if any, and whether it is CDATA.
#[allow(non_camel_case_types, non_snake_case)]
pub struct DEFAULT_ATTRIBUTE {
    pub id: usize,
    pub value: Option<Vec<u8>>,
    pub isCdata: bool,
}

/// What the parser knows of an element type, besides its name.
#[allow(non_camel_case_types, non_snake_case)]
pub struct ELEMENT_TYPE {
    pub prefix: Option<usize>,
    pub idAtt: Option<usize>,
    pub defaultAtts: Vec<DEFAULT_ATTRIBUTE>,
}

/// The bytes `xmlns`.
pub open spec fn xmlns_name() -> Seq<u8> {
    seq![0x78u8, 0x6du8, 0x6cu8, 0x6eu8, 0x73u8]
}

/// The colon at `i` is the first one of `name`.
pub open spec fn is_first_colon(name: Seq<u8>, i: int) -> bool {
    0 <= i < name.len() && name[i] == 0x3a && forall|k: int| 0 <= k < i ==> name[k] != 0x3a
}

/// Find the first colon of a name.
fn find_colon(name: &[u8]) -> (r: Option<usize>)
    ensures
        match r {
            Some(i) => is_first_colon(name@, i as int),
            None => forall|k: int| 0 <= k < name.len() ==> name@[k] != 0x3a,
        },
{
    let mut i: usize = 0;
    while i < name.len()
        invariant
            i <= name.len(),
            forall|k: int| 0 <= k < i ==> name@[k] != 0x3a,
        decreases name.len() - i,
    {
        if name[i] == 0x3a {
            return Some(i);
        }
        i = i + 1;
    }
    None
}

/// The bytes `name[from..to]`.
fn copy_part(name: &[u8], from: usize, to: usize) -> (r: Vec<u8>)
    requires
        from <= to <= name.len(),
    ensures
        r@ == name@.subrange(from as int, to as int),
{
    let mut r: Vec<u8> = Vec::new();
    let mut i: usize = from;
    while i < to
        invariant
            from <= i <= to <= name.len(),
            r@ == name@.subrange(from as int, i as int),
        decreases to - i,
    {
        r.push(name[i]);
        i = i + 1;
    }
    r
}

/// The prefix scope `after` is `before` with perhaps more prefixes known.
pub open spec fn prefixes_grown(before: NsScope, after: NsScope) -> bool {
    &&& after.wf()
    &&& after@ == before@
    &&& after.ns() == before.ns()
    &&& after.sep() == before.sep()
    &&& before.prefix_names().is_prefix_of(after.prefix_names())
    &&& before.prefix_table().growth_blocked() ==> after.prefix_table().growth_blocked()
}

/// The prefix that a new attribute named `name` is given, with the prefixes
/// `names` known: in a namespace-aware parser `xmlns` declares the default
/// namespace, `xmlns:p` the prefix `p`, and `p:local` has the prefix `p`.
/// `resolved` tells whether the prefix of a `p:local` name could be found
/// or created; `blocked` whether the prefix table could not grow, the one
/// case in which `xmlns:p` gets no prefix.
pub open spec fn attribute_id_fits(
    name: Seq<u8>,
    ns: bool,
    id: attribute_id,
    names: Seq<Seq<u8>>,
    resolved: bool,
    blocked: bool,
) -> bool {
    &&& !id.maybeTokenized
    &&& if !ns {
        id.prefix == PrefixRef::NoPrefix && !id.xmlns && resolved
    } else if name == xmlns_name() {
        id.prefix == PrefixRef::Default && id.xmlns && resolved
    } else if name.len() > 5 && name.take(5) == xmlns_name() && name[5] == 0x3a {
        &&& id.xmlns
        &&& resolved
        &&& match id.prefix {
            PrefixRef::Named(p) => p < names.len() && names[p as int] == name.skip(6),
            PrefixRef::NoPrefix => blocked,
            PrefixRef::Default => false,
        }
    } else if exists|i: int| is_first_colon(name, i) {
        &&& !id.xmlns
        &&& resolved ==> exists|i: int| is_first_colon(name, i) && match id.prefix {
            PrefixRef::Named(p) => p < names.len() && names[p as int] == name.take(i),
            _ => false,
        }
        &&& !resolved ==> id.prefix == PrefixRef::NoPrefix
    } else {
        id.prefix == PrefixRef::NoPrefix && !id.xmlns && resolved
    }
}

/// What the parser knows of the attribute `name` fits the name, with the
/// prefixes `names` known: its prefix and `xmlns` flag are those that
/// `attribute_id_fits` gives a new attribute (whether it is tokenized is
/// set by its declaration later).
pub open spec fn id_fits_name(name: Seq<u8>, ns: bool, id: attribute_id, names: Seq<Seq<u8>>) -> bool {
    exists|resolved: bool, blocked: bool|
        attribute_id_fits(name, ns, attribute_id { maybeTokenized: false, ..id }, names, resolved, blocked)
}

/// Every attribute of the table fits its name.
pub open spec fn ids_fit(table: Seq<(Seq<u8>, attribute_id)>, ns: bool, names: Seq<Seq<u8>>) -> bool {
    forall|e: int| 0 <= e < table.len() ==> id_fits_name((#[trigger] table[e]).0, ns, table[e].1, names)
}

/// An attribute that fits its name with some prefixes known still fits it
/// when more become known.
pub proof fn lemma_id_fits_grown(name: Seq<u8>, ns: bool, id: attribute_id, names: Seq<Seq<u8>>, more: Seq<Seq<u8>>)
    requires
        id_fits_name(name, ns, id, names),
        names.is_prefix_of(more),
    ensures
        id_fits_name(name, ns, id, more),
{
    let (resolved, blocked) = choose|resolved: bool, blocked: bool|
        attribute_id_fits(name, ns, attribute_id { maybeTokenized: false, ..id }, names, resolved, blocked);
    let id0 = attribute_id { maybeTokenized: false, ..id };
    match id0.prefix {
        PrefixRef::Named(p) => {
            if p < names.len() {
                assert(more[p as int] == names[p as int]);
            }
        },
        _ => {},
    }
    assert(attribute_id_fits(name, ns, id0, more, resolved, blocked));
}

/// The attribute named `name`, created when it is new, with its prefix
/// resolved in `prefixes` in a namespace-aware parser (`ns`). `None` when
/// the table cannot grow, or when the prefix of a new attribute cannot be
/// created (the attribute then stays, with no prefix).
#[allow(non_snake_case)]
pub fn getAttributeId(attributeIds: &mut HASH_TABLE<attribute_id>, prefixes: &mut NsScope, ns: bool, name: &[u8]) -> (r:
    Option<usize>)
    requires
        old(attributeIds).wf(),
        old(prefixes).wf(),
    ensures
        final(attributeIds).wf(),
        prefixes_grown(*old(prefixes), *final(prefixes)),
        (exists|e: int| 0 <= e < old(attributeIds)@.len() && old(attributeIds)@[e].0 == name@) ==> ({
            &&& r is Some
            &&& r.unwrap() < old(attributeIds)@.len()
            &&& old(attributeIds)@[r.unwrap() as int].0 == name@
            &&& final(attributeIds)@ == old(attributeIds)@
            &&& final(prefixes).prefix_names() == old(prefixes).prefix_names()
        }),
        !(exists|e: int| 0 <= e < old(attributeIds)@.len() && old(attributeIds)@[e].0 == name@) ==> ({
            ||| final(attributeIds)@ == old(attributeIds)@ && r is None && old(attributeIds).growth_blocked()
            ||| final(attributeIds)@.len() == old(attributeIds)@.len() + 1
                && final(attributeIds)@.take(old(attributeIds)@.len() as int) == old(attributeIds)@
                && final(attributeIds)@.last().0 == name@ && attribute_id_fits(
                name@,
                ns,
                final(attributeIds)@.last().1,
                final(prefixes).prefix_names(),
                r is Some,
                final(prefixes).prefix_table().growth_blocked(),
            ) && (r is Some ==> r.unwrap() == old(attributeIds)@.len())
        }),
        r is None ==> final(attributeIds).growth_blocked() || final(prefixes).prefix_table().growth_blocked(),
        ids_fit(old(attributeIds)@, ns, old(prefixes).prefix_names()) ==> ids_fit(
            final(attributeIds)@,
            ns,
            final(prefixes).prefix_names(),
        ),
        ids_fit(old(attributeIds)@, ns, old(prefixes).prefix_names()) ==> (r matches Some(e) ==> e
            < final(attributeIds)@.len() && final(attributeIds)@[e as int].0 == name@ && id_fits_name(
            name@,
            ns,
            final(attributeIds)@[e as int].1,
            final(prefixes).prefix_names(),
        )),
{
    let ghost t0 = attributeIds@;
    let ghost n0 = prefixes.prefix_names();
    let r = attribute_id_entry(attributeIds, prefixes, ns, name);
    proof {
        if ids_fit(t0, ns, n0) {
            let t1 = attributeIds@;
            let n1 = prefixes.prefix_names();
            assert forall|e: int| 0 <= e < t1.len() implies id_fits_name((#[trigger] t1[e]).0, ns, t1[e].1, n1) by {
                if e < t0.len() {
                    if t1 != t0 {
                        assert(t1.take(t0.len() as int)[e] == t1[e]);
                    }
                    assert(t1[e] == t0[e]);
                    assert(id_fits_name(t0[e].0, ns, t0[e].1, n0));
                    lemma_id_fits_grown(t0[e].0, ns, t0[e].1, n0, n1);
                } else {
                    let id = t1.last().1;
                    assert(t1[e] == t1.last());
                    assert(attribute_id { maybeTokenized: false, ..id } == id);
                    assert(attribute_id_fits(
                        name@,
                        ns,
                        attribute_id { maybeTokenized: false, ..id },
                        n1,
                        r is Some,
                        prefixes.prefix_table().growth_blocked(),
                    ));
                }
            }
            if let Some(e) = r {
                assert(t1[e as int].0 == name@);
                assert(id_fits_name(t1[e as int].0, ns, t1[e as int].1, n1));
            }
        }
    }
    r
}

/// `getAttributeId` without the statement on the whole table.
fn attribute_id_entry(attributeIds: &mut HASH_TABLE<attribute_id>, prefixes: &mut NsScope, ns: bool, name: &[u8]) -> (r:
    Option<usize>)
    requires
        old(attributeIds).wf(),
        old(prefixes).wf(),
    ensures
        final(attributeIds).wf(),
        prefixes_grown(*old(prefixes), *final(prefixes)),
        (exists|e: int| 0 <= e < old(attributeIds)@.len() && old(attributeIds)@[e].0 == name@) ==> ({
            &&& r is Some
            &&& r.unwrap() < old(attributeIds)@.len()
            &&& old(attributeIds)@[r.unwrap() as int].0 == name@
            &&& final(attributeIds)@ == old(attributeIds)@
            &&& final(prefixes).prefix_names() == old(prefixes).prefix_names()
        }),
        !(exists|e: int| 0 <= e < old(attributeIds)@.len() && old(attributeIds)@[e].0 == name@) ==> ({
            ||| final(attributeIds)@ == old(attributeIds)@ && r is None && old(attributeIds).growth_blocked()
            ||| final(attributeIds)@.len() == old(attributeIds)@.len() + 1
                && final(attributeIds)@.take(old(attributeIds)@.len() as int) == old(attributeIds)@
                && final(attributeIds)@.last().0 == name@ && attribute_id_fits(
                name@,
                ns,
                final(attributeIds)@.last().1,
                final(prefixes).prefix_names(),
                r is Some,
                final(prefixes).prefix_table().growth_blocked(),
            ) && (r is Some ==> r.unwrap() == old(attributeIds)@.len())
        }),
        r is None ==> final(attributeIds).growth_blocked() || final(prefixes).prefix_table().growth_blocked(),
{
    let fresh = attribute_id { prefix: PrefixRef::NoPrefix, maybeTokenized: false, xmlns: false };
    let n = attributeIds.len();
    let e = match attributeIds.lookup_create(name, fresh) {
        None => {
            return None;
        },
        Some(e) => e,
    };
    if e < n {
        proof {
            assert(old(attributeIds)@[e as int].0 == name@);
        }
        return Some(e);
    }
    proof {
        assert(attributeIds@.last() == (name@, fresh));
        assert(attributeIds@.take(n as int) =~= old(attributeIds)@);
    }
    if !ns {
        return Some(e);
    }
    let ghost table_before = attributeIds@;
    let is_xmlns_prefix = name.len() >= 5 && name[0] == 0x78 && name[1] == 0x6d && name[2] == 0x6c && name[3]
        == 0x6e && name[4] == 0x73;
    if is_xmlns_prefix && name.len() == 5 {
        assert(name@ =~= xmlns_name());
        attributeIds.set_value(e, attribute_id { prefix: PrefixRef::Default, maybeTokenized: false, xmlns: true });
        assert(attributeIds@.take(n as int) =~= table_before.take(n as int));
        return Some(e);
    }
    if is_xmlns_prefix && name[5] == 0x3a {
        assert(name@.take(5) =~= xmlns_name());
        let rest = copy_part(name, 6, name.len());
        assert(rest@ =~= name@.skip(6));
        let p = prefixes.prefix_id(rest.as_slice());
        let prefix = match p {
            Some(i) => PrefixRef::Named(i),
            None => PrefixRef::NoPrefix,
        };
        attributeIds.set_value(e, attribute_id { prefix, maybeTokenized: false, xmlns: true });
        assert(attributeIds@.take(n as int) =~= table_before.take(n as int));
        return Some(e);
    }
    proof {
        if name@ == xmlns_name() {
            assert(name@[0] == 0x78 && name@[4] == 0x73);
        }
        if name@.len() > 5 && name@.take(5) == xmlns_name() && name@[5] == 0x3a {
            assert(name@.take(5)[0] == name@[0]);
            assert(name@.take(5)[1] == name@[1]);
            assert(name@.take(5)[2] == name@[2]);
            assert(name@.take(5)[3] == name@[3]);
            assert(name@.take(5)[4] == name@[4]);
        }
    }
    match find_colon(name) {
        None => {
            assert(!exists|i: int| is_first_colon(name@, i));
            Some(e)
        },
        Some(i) => {
            let part = copy_part(name, 0, i);
            assert(part@ =~= name@.take(i as int));
            match prefixes.prefix_id(part.as_slice()) {
                None => None,
                Some(p) => {
                    attributeIds.set_value(
                        e,
                        attribute_id { prefix: PrefixRef::Named(p), maybeTokenized: false, xmlns: false },
                    );
                    assert(attributeIds@.take(n as int) =~= table_before.take(n as int));
                    assert(is_first_colon(name@, i as int));
                    Some(e)
                },
            }
        },
    }
}

/// The prefix of an element type named `name`: the part before its first
/// colon, if it has one, found or created in `prefixes`. False when the
/// prefix cannot be created.
#[allow(non_snake_case)]
pub fn setElementTypePrefix(elementType: &mut ELEMENT_TYPE, prefixes: &mut NsScope, name: &[u8]) -> (r: bool)
    requires
        old(prefixes).wf(),
    ensures
        prefixes_grown(*old(prefixes), *final(prefixes)),
        final(elementType).idAtt == old(elementType).idAtt,
        final(elementType).defaultAtts@ == old(elementType).defaultAtts@,
        match find_first_colon_spec(name@) {
            None => r && final(elementType).prefix == old(elementType).prefix,
            Some(i) => if r {
                final(elementType).prefix matches Some(p) && p < final(prefixes).prefix_names().len()
                    && final(prefixes).prefix_names()[p as int] == name@.take(i)
            } else {
                final(elementType).prefix == old(elementType).prefix
            },
        },
        !r ==> final(prefixes).prefix_table().growth_blocked(),
{
    match find_colon(name) {
        None => {
            proof {
                lemma_no_first_colon(name@);
            }
            true
        },
        Some(i) => {
            proof {
                lemma_first_colon_unique(name@, i as int);
            }
            let part = copy_part(name, 0, i);
            match prefixes.prefix_id(part.as_slice()) {
                None => false,
                Some(p) => {
                    elementType.prefix = Some(p);
                    true
                },
            }
        },
    }
}

/// The position of the first colon of `name`, if it has one.
pub open spec fn find_first_colon_spec(name: Seq<u8>) -> Option<int> {
    if exists|i: int| is_first_colon(name, i) {
        Some(choose|i: int| is_first_colon(name, i))
    } else {
        None
    }
}

proof fn lemma_first_colon_unique(name: Seq<u8>, i: int)
    requires
        is_first_colon(name, i),
    ensures
        find_first_colon_spec(name) == Some(i),
{
    let j = choose|j: int| is_first_colon(name, j);
    if j < i {
        assert(name[j] != 0x3a);
    } else if i < j {
        assert(name[i] != 0x3a);
    }
}

proof fn lemma_no_first_colon(name: Seq<u8>)
    requires
        forall|k: int| 0 <= k < name.len() ==> name[k] != 0x3a,
    ensures
        find_first_colon_spec(name) is None,
{
}

/// The element type named `name`, created (with its prefix) when it is new.
/// `None` when the table cannot grow or the prefix cannot be created.
#[allow(non_snake_case)]
pub fn getElementType(elementTypes: &mut HASH_TABLE<ELEMENT_TYPE>, prefixes: &mut NsScope, name: &[u8]) -> (r: Option<
    usize,
>)
    requires
        old(elementTypes).wf(),
        old(prefixes).wf(),
    ensures
        final(elementTypes).wf(),
        prefixes_grown(*old(prefixes), *final(prefixes)),
        r matches Some(e) ==> e < final(elementTypes)@.len() && final(elementTypes)@[e as int].0 == name@,
        r is None ==> final(elementTypes).growth_blocked() || final(prefixes).prefix_table().growth_blocked(),
        final(elementTypes)@.len() >= old(elementTypes)@.len(),
        forall|k: int| 0 <= k < old(elementTypes)@.len() ==> #[trigger] final(elementTypes)@[k].0 == old(elementTypes)@[k].0,
        (exists|e: int| 0 <= e < old(elementTypes)@.len() && old(elementTypes)@[e].0 == name@) ==> r is Some
            && final(elementTypes)@ == old(elementTypes)@,
        final(elementTypes)@.take(old(elementTypes)@.len() as int) == old(elementTypes)@,
        final(elementTypes)@.len() <= old(elementTypes)@.len() + 1,
        final(elementTypes)@.len() == old(elementTypes)@.len() + 1 ==> {
            let t = final(elementTypes)@.last().1;
            &&& t.idAtt is None
            &&& t.defaultAtts@.len() == 0
            &&& t.prefix matches Some(p) ==> p < final(prefixes).prefix_names().len()
        },
{
    let fresh = ELEMENT_TYPE { prefix: None, idAtt: None, defaultAtts: Vec::new() };
    let n = elementTypes.len();
    let e = match elementTypes.lookup_create(name, fresh) {
        None => {
            return None;
        },
        Some(e) => e,
    };
    if e < n {
        assert(elementTypes@.take(n as int) =~= old(elementTypes)@);
        return Some(e);
    }
    assert(elementTypes@.take(n as int) =~= old(elementTypes)@);
    let mut t = ELEMENT_TYPE { prefix: None, idAtt: None, defaultAtts: Vec::new() };
    if !setElementTypePrefix(&mut t, prefixes, name) {
        return None;
    }
    elementTypes.set_value(e, t);
    assert(elementTypes@.take(n as int) =~= old(elementTypes)@);
    Some(e)
}

/// Whether the attribute `attId` is among the default attributes `atts`.
pub open spec fn has_default_for(atts: Seq<DEFAULT_ATTRIBUTE>, attId: usize) -> bool {
    exists|i: int| 0 <= i < atts.len() && #[trigger] atts[i].id == attId
}

/// The element type `f` and the facts `fa` of attribute `attId` are `o`
/// and `oa` after the declaration of the attribute (CDATA or not, ID or
/// not, with the default `value` if any): an attribute that already has a
/// default is left alone when this declaration gives a default or an ID;
/// otherwise the declaration is appended to the defaults, the first ID
/// attribute that declares no namespace becomes the element's ID
/// attribute, and an attribute that is not CDATA may need its value
/// tokenized.
pub open spec fn attribute_defined(
    o: ELEMENT_TYPE,
    f: ELEMENT_TYPE,
    attId: usize,
    oa: attribute_id,
    fa: attribute_id,
    isCdata: bool,
    isId: bool,
    value: Option<Seq<u8>>,
) -> bool {
    &&& f.prefix == o.prefix
    &&& if (value is Some || isId) && has_default_for(o.defaultAtts@, attId) {
        &&& f.defaultAtts@ == o.defaultAtts@
        &&& f.idAtt == o.idAtt
        &&& fa == oa
    } else {
        &&& f.idAtt == if isId && o.idAtt is None && !oa.xmlns {
            Some(attId)
        } else {
            o.idAtt
        }
        &&& f.defaultAtts@.len() == o.defaultAtts@.len() + 1
        &&& f.defaultAtts@.take(o.defaultAtts@.len() as int) == o.defaultAtts@
        &&& f.defaultAtts@.last().id == attId
        &&& f.defaultAtts@.last().isCdata == isCdata
        &&& match value {
            Some(v) => f.defaultAtts@.last().value matches Some(w) && w@ == v,
            None => f.defaultAtts@.last().value is None,
        }
        &&& fa == attribute_id { maybeTokenized: oa.maybeTokenized || !isCdata, ..oa }
    }
}

/// Declare attribute `attId` (with the facts `att` about it) of an element
/// type, with its default `value` if any; `isCdata` tells whether it is
/// CDATA and `isId` whether it is an ID. An attribute that already has a
/// default is left alone when this declaration gives a default or an ID;
/// the first ID attribute that declares no namespace becomes the element's
/// ID attribute; an attribute that is not CDATA may need its value
/// tokenized.
#[allow(non_snake_case)]
pub fn defineAttribute(
    elementType: &mut ELEMENT_TYPE,
    attId: usize,
    att: &mut attribute_id,
    isCdata: bool,
    isId: bool,
    value: Option<&[u8]>,
)
    ensures
        attribute_defined(
            *old(elementType),
            *final(elementType),
            attId,
            *old(att),
            *final(att),
            isCdata,
            isId,
            match value {
                Some(v) => Some(v@),
                None => None,
            },
        ),
        final(elementType).prefix == old(elementType).prefix,
{
    let ghost atts0 = elementType.defaultAtts@;
    let has_value = match value {
        Some(_) => true,
        None => false,
    };
    if has_value || isId {
        let mut i: usize = 0;
        while i < elementType.defaultAtts.len()
            invariant
                i <= elementType.defaultAtts.len(),
                forall|k: int| 0 <= k < i ==> elementType.defaultAtts@[k].id != attId,
                elementType.defaultAtts@ == atts0,
                atts0 == old(elementType).defaultAtts@,
                has_value == (value is Some),
                has_value || isId,
                elementType.idAtt == old(elementType).idAtt,
                elementType.prefix == old(elementType).prefix,
                *att == *old(att),
            decreases elementType.defaultAtts.len() - i,
        {
            if elementType.defaultAtts[i].id == attId {
                assert(atts0[i as int].id == attId);
                assert(has_default_for(atts0, attId));
                return;
            }
            i = i + 1;
        }
        if isId && elementType.idAtt.is_none() && !att.xmlns {
            elementType.idAtt = Some(attId);
        }
    }
    let stored: Option<Vec<u8>> = match value {
        Some(v) => Some(crate::hashtable::copy_string(v)),
        None => None,
    };
    elementType.defaultAtts.push(DEFAULT_ATTRIBUTE { id: attId, value: stored, isCdata });
    assert(elementType.defaultAtts@.take(atts0.len() as int) =~= atts0);
    if !isCdata {
        att.maybeTokenized = true;
    }
}

/// The first declaration of an attribute's default binds: a later
/// declaration of a default for the same attribute of the same element
/// type changes nothing.
pub proof fn lemma_first_declaration_binds(
    o: ELEMENT_TYPE,
    m: ELEMENT_TYPE,
    f: ELEMENT_TYPE,
    attId: usize,
    oa: attribute_id,
    ma: attribute_id,
    fa: attribute_id,
    isCdata1: bool,
    isCdata2: bool,
    v1: Seq<u8>,
    v2: Seq<u8>,
)
    requires
        !has_default_for(o.defaultAtts@, attId),
        attribute_defined(o, m, attId, oa, ma, isCdata1, false, Some(v1)),
        attribute_defined(m, f, attId, ma, fa, isCdata2, false, Some(v2)),
    ensures
        f.defaultAtts@ == m.defaultAtts@,
        f.defaultAtts@.last().id == attId,
        f.defaultAtts@.last().value matches Some(w) && w@ == v1,
        fa == ma,
{
    assert(m.defaultAtts@[m.defaultAtts@.len() - 1].id == attId);
    assert(has_default_for(m.defaultAtts@, attId));
}

} // verus!
