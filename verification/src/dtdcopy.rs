//! The declarations of a DTD, and their copy for the parser of an external
//! entity: the same prefixes, attributes, element types and entities, in
//! tables of the new parser.
use vstd::prelude::*;
use crate::dtd::{attribute_id, DEFAULT_ATTRIBUTE, ELEMENT_TYPE};
use crate::entities::{opt_view, ENTITY};
use crate::hashtable::{copy_string, HASH_TABLE};
use crate::namespaces::NsScope;

verus! {

/// The declarations of a DTD (its prefixes are those of the parser's
/// namespace scope), and what the parser knows of it: whether it is still
/// processed, whether it refers to parameter entities, whether the document
/// is standalone, and whether an external parameter entity was read.
#[allow(non_snake_case)]
pub struct DTD {
    pub elementTypes: HASH_TABLE<ELEMENT_TYPE>,
    pub attributeIds: HASH_TABLE<attribute_id>,
    pub generalEntities: HASH_TABLE<ENTITY>,
    pub paramEntities: HASH_TABLE<ENTITY>,
    pub keepProcessing: bool,
    pub hasParamEntityRefs: bool,
    pub standalone: bool,
    pub paramEntityRead: bool,
}

impl DTD {
    /// The declarations are all empty.
    pub open spec fn is_empty(&self) -> bool {
        &&& self.elementTypes.wf()
        &&& self.attributeIds.wf()
        &&& self.generalEntities.wf()
        &&& self.paramEntities.wf()
        &&& self.elementTypes@.len() == 0
        &&& self.attributeIds@.len() == 0
        &&& self.generalEntities@.len() == 0
        &&& self.paramEntities@.len() == 0
    }

    /// What the parser knows of a DTD that it has not read yet: it is
    /// processed, refers to no parameter entity, is not standalone, and no
    /// external parameter entity was read.
    pub open spec fn is_unread(&self) -> bool {
        &&& self.keepProcessing
        &&& !self.hasParamEntityRefs
        &&& !self.standalone
        &&& !self.paramEntityRead
    }

    /// A DTD with no declarations, whose tables hash with `salt`.
    #[allow(non_snake_case)]
    pub fn dtdCreate(salt: u64) -> (d: Self)
        ensures
            d.is_empty(),
            d.is_unread(),
            d.elementTypes.salt() == salt,
            d.attributeIds.salt() == salt,
            d.generalEntities.salt() == salt,
            d.paramEntities.salt() == salt,
    {
        DTD {
            elementTypes: HASH_TABLE::hashTableInit(salt),
            attributeIds: HASH_TABLE::hashTableInit(salt),
            generalEntities: HASH_TABLE::hashTableInit(salt),
            paramEntities: HASH_TABLE::hashTableInit(salt),
            keepProcessing: true,
            hasParamEntityRefs: false,
            standalone: false,
            paramEntityRead: false,
        }
    }

    /// Forget every declaration, for a parser that starts again; the tables
    /// keep their salt.
    #[allow(non_snake_case)]
    pub fn dtdReset(&mut self)
        requires
            old(self).elementTypes.wf(),
            old(self).attributeIds.wf(),
            old(self).generalEntities.wf(),
            old(self).paramEntities.wf(),
        ensures
            final(self).is_empty(),
            final(self).is_unread(),
            final(self).elementTypes.salt() == old(self).elementTypes.salt(),
            final(self).attributeIds.salt() == old(self).attributeIds.salt(),
            final(self).generalEntities.salt() == old(self).generalEntities.salt(),
            final(self).paramEntities.salt() == old(self).paramEntities.salt(),
    {
        self.generalEntities.hashTableClear();
        self.paramEntityRead = false;
        self.paramEntities.hashTableClear();
        self.elementTypes.hashTableClear();
        self.attributeIds.hashTableClear();
        self.keepProcessing = true;
        self.hasParamEntityRefs = false;
        self.standalone = false;
    }
}

/// An element type as numbers and bytes: its prefix, its ID attribute and
/// its defaults.
pub open spec fn element_view(t: ELEMENT_TYPE) -> (Option<usize>, Option<usize>, Seq<(usize, Option<Seq<u8>>, bool)>) {
    (t.prefix, t.idAtt, t.defaultAtts@.map_values(|d: DEFAULT_ATTRIBUTE| (d.id, opt_view(d.value), d.isCdata)))
}

/// An entity as bytes and flags, leaving out whether it is open.
pub open spec fn entity_view(x: ENTITY) -> (
    Option<Seq<u8>>,
    Option<Seq<u8>>,
    Option<Seq<u8>>,
    Option<Seq<u8>>,
    Option<Seq<u8>>,
    bool,
    bool,
) {
    (opt_view(x.text), opt_view(x.systemId), opt_view(x.base), opt_view(x.publicId), opt_view(x.notation), x.is_param, x.is_internal)
}

/// The element type tables `a` and `b` hold the same records.
pub open spec fn same_types(a: Seq<(Seq<u8>, ELEMENT_TYPE)>, b: Seq<(Seq<u8>, ELEMENT_TYPE)>) -> bool {
    &&& a.len() == b.len()
    &&& forall|k: int| 0 <= k < a.len() ==> (#[trigger] a[k]).0 == b[k].0 && element_view(a[k].1) == element_view(b[k].1)
}

/// The entity table `c` holds the entities of `a`, none of them open.
pub open spec fn same_entities(c: Seq<(Seq<u8>, ENTITY)>, a: Seq<(Seq<u8>, ENTITY)>) -> bool {
    &&& c.len() == a.len()
    &&& forall|k: int|
        0 <= k < c.len() ==> (#[trigger] c[k]).0 == a[k].0 && entity_view(c[k].1) == entity_view(a[k].1) && !c[k].1.open
}

/// The name of record `i` of `src` is not among the first `i` records.
proof fn lemma_new_name<V>(src: HASH_TABLE<V>, i: int)
    requires
        src.wf(),
        0 <= i < src@.len(),
    ensures
        forall|k: int| 0 <= k < i ==> #[trigger] src@[k].0 != src@[i].0,
{
    assert forall|k: int| 0 <= k < i implies #[trigger] src@[k].0 != src@[i].0 by {
        src.lemma_names_distinct(k, i);
    }
}

/// Copy the prefixes of `src`, in order, into the scope `dst`, which knows
/// none; false when the prefix table cannot grow.
pub(crate) fn copy_prefixes(src: &NsScope, dst: &mut NsScope) -> (r: bool)
    requires
        src.wf(),
        old(dst).wf(),
        old(dst).prefix_names().len() == 0,
    ensures
        final(dst).wf(),
        final(dst)@ == old(dst)@,
        final(dst).ns() == old(dst).ns(),
        final(dst).sep() == old(dst).sep(),
        r ==> final(dst).prefix_names() == src.prefix_names(),
        !r ==> final(dst).prefix_table().growth_blocked(),
        final(dst).prefix_names().len() <= src.prefix_names().len(),
{
    let t = src.prefixes();
    let n = t.len();
    let mut i: usize = 0;
    while i < n
        invariant
            i <= n == t@.len() == src.prefix_names().len(),
            t.wf(),
            forall|k: int| 0 <= k < t@.len() ==> #[trigger] t@[k].0 == src.prefix_names()[k],
            dst.wf(),
            dst@ == old(dst)@,
            dst.ns() == old(dst).ns(),
            dst.sep() == old(dst).sep(),
            dst.prefix_names() == src.prefix_names().take(i as int),
        decreases n - i,
    {
        proof {
            lemma_new_name(*t, i as int);
            assert forall|k: int| 0 <= k < i implies dst.prefix_names()[k] != t@[i as int].0 by {
                assert(dst.prefix_names()[k] == t@[k].0);
            }
        }
        match dst.prefix_id(t.name(i)) {
            None => {
                return false;
            },
            Some(_) => {},
        }
        assert(dst.prefix_names() =~= src.prefix_names().take(i as int + 1));
        i = i + 1;
    }
    assert(src.prefix_names().take(n as int) =~= src.prefix_names());
    true
}

/// Copy the attribute table `src`, in order, into the empty table `dst`;
/// false when `dst` cannot grow.
fn copy_attribute_ids(src: &HASH_TABLE<attribute_id>, dst: &mut HASH_TABLE<attribute_id>) -> (r: bool)
    requires
        src.wf(),
        old(dst).wf(),
        old(dst)@.len() == 0,
    ensures
        final(dst).wf(),
        r ==> final(dst)@ == src@,
        !r ==> final(dst).growth_blocked(),
{
    let n = src.len();
    let mut i: usize = 0;
    while i < n
        invariant
            i <= n == src@.len(),
            src.wf(),
            dst.wf(),
            dst@ == src@.take(i as int),
        decreases n - i,
    {
        proof {
            lemma_new_name(*src, i as int);
        }
        match dst.lookup_create(src.name(i), *src.value(i)) {
            None => {
                return false;
            },
            Some(e) => {
                assert(e == i);
            },
        }
        assert(dst@ =~= src@.take(i as int + 1));
        i = i + 1;
    }
    assert(src@.take(n as int) =~= src@);
    true
}

/// A copy of an element type.
fn copy_element_type(t: &ELEMENT_TYPE) -> (r: ELEMENT_TYPE)
    ensures
        element_view(r) == element_view(*t),
{
    let mut atts: Vec<DEFAULT_ATTRIBUTE> = Vec::new();
    let mut k: usize = 0;
    while k < t.defaultAtts.len()
        invariant
            k <= t.defaultAtts@.len(),
            atts@.map_values(|d: DEFAULT_ATTRIBUTE| (d.id, opt_view(d.value), d.isCdata)) == t.defaultAtts@.take(
                k as int,
            ).map_values(|d: DEFAULT_ATTRIBUTE| (d.id, opt_view(d.value), d.isCdata)),
        decreases t.defaultAtts@.len() - k,
    {
        let d = &t.defaultAtts[k];
        let value = match &d.value {
            Some(v) => Some(copy_string(v.as_slice())),
            None => None,
        };
        let ghost before = atts@;
        atts.push(DEFAULT_ATTRIBUTE { id: d.id, value, isCdata: d.isCdata });
        proof {
            let lhs = atts@.map_values(|d: DEFAULT_ATTRIBUTE| (d.id, opt_view(d.value), d.isCdata));
            let rhs = t.defaultAtts@.take(k as int + 1).map_values(
                |d: DEFAULT_ATTRIBUTE| (d.id, opt_view(d.value), d.isCdata),
            );
            let prev = t.defaultAtts@.take(k as int).map_values(
                |d: DEFAULT_ATTRIBUTE| (d.id, opt_view(d.value), d.isCdata),
            );
            assert(before.map_values(|d: DEFAULT_ATTRIBUTE| (d.id, opt_view(d.value), d.isCdata)) == prev);
            assert forall|q: int| 0 <= q < k + 1 implies lhs[q] == rhs[q] by {
                if q < k {
                    assert(atts@[q] == before[q]);
                    assert(before.map_values(|d: DEFAULT_ATTRIBUTE| (d.id, opt_view(d.value), d.isCdata))[q] == prev[q]);
                    assert(t.defaultAtts@.take(k as int)[q] == t.defaultAtts@[q]);
                } else {
                    assert(t.defaultAtts@.take(k as int + 1)[q] == t.defaultAtts@[q]);
                }
            }
            assert(lhs =~= rhs);
        }
        k = k + 1;
    }
    assert(t.defaultAtts@.take(k as int) =~= t.defaultAtts@);
    ELEMENT_TYPE { prefix: t.prefix, idAtt: t.idAtt, defaultAtts: atts }
}

/// Copy the element type table `src`, in order, into the empty table
/// `dst`; false when `dst` cannot grow.
fn copy_element_types(src: &HASH_TABLE<ELEMENT_TYPE>, dst: &mut HASH_TABLE<ELEMENT_TYPE>) -> (r: bool)
    requires
        src.wf(),
        old(dst).wf(),
        old(dst)@.len() == 0,
    ensures
        final(dst).wf(),
        r ==> same_types(final(dst)@, src@),
        !r ==> final(dst).growth_blocked(),
{
    let n = src.len();
    let mut i: usize = 0;
    while i < n
        invariant
            i <= n == src@.len(),
            src.wf(),
            dst.wf(),
            same_types(dst@, src@.take(i as int)),
        decreases n - i,
    {
        proof {
            lemma_new_name(*src, i as int);
            assert forall|k: int| 0 <= k < i implies dst@[k].0 != src@[i as int].0 by {
                assert(dst@[k].0 == src@.take(i as int)[k].0);
            }
        }
        let t = copy_element_type(src.value(i));
        let ghost before = dst@;
        match dst.lookup_create(src.name(i), t) {
            None => {
                return false;
            },
            Some(e) => {
                assert(e == i);
            },
        }
        proof {
            assert forall|k: int| 0 <= k < i + 1 implies (#[trigger] dst@[k]).0 == src@.take(i as int + 1)[k].0
                && element_view(dst@[k].1) == element_view(src@.take(i as int + 1)[k].1) by {
                if k < i {
                    assert(dst@[k] == before[k]);
                    assert(before[k].0 == src@.take(i as int)[k].0);
                }
            }
        }
        i = i + 1;
    }
    assert(src@.take(n as int) =~= src@);
    true
}

/// A copy of an entity, not open.
fn copy_entity(x: &ENTITY) -> (r: ENTITY)
    ensures
        entity_view(r) == entity_view(*x),
        !r.open,
{
    let cp = |v: &Option<Vec<u8>>| -> (r: Option<Vec<u8>>)
        ensures
            opt_view(r) == opt_view(*v),
        {
            match v {
                Some(b) => Some(copy_string(b.as_slice())),
                None => None,
            }
        };
    ENTITY {
        text: cp(&x.text),
        systemId: cp(&x.systemId),
        base: cp(&x.base),
        publicId: cp(&x.publicId),
        notation: cp(&x.notation),
        is_param: x.is_param,
        is_internal: x.is_internal,
        open: false,
    }
}

/// Copy the entity table `src`, in order, into the empty table `dst`, no
/// entity open; false when `dst` cannot grow.
#[allow(non_snake_case)]
pub fn copyEntityTable(src: &HASH_TABLE<ENTITY>, dst: &mut HASH_TABLE<ENTITY>) -> (r: bool)
    requires
        src.wf(),
        old(dst).wf(),
        old(dst)@.len() == 0,
    ensures
        final(dst).wf(),
        r ==> same_entities(final(dst)@, src@),
        !r ==> final(dst).growth_blocked(),
        final(dst)@.len() <= src@.len(),
{
    let n = src.len();
    let mut i: usize = 0;
    while i < n
        invariant
            i <= n == src@.len(),
            src.wf(),
            dst.wf(),
            same_entities(dst@, src@.take(i as int)),
        decreases n - i,
    {
        proof {
            lemma_new_name(*src, i as int);
            assert forall|k: int| 0 <= k < i implies dst@[k].0 != src@[i as int].0 by {
                assert(dst@[k].0 == src@.take(i as int)[k].0);
            }
        }
        let x = copy_entity(src.value(i));
        let ghost before = dst@;
        match dst.lookup_create(src.name(i), x) {
            None => {
                return false;
            },
            Some(e) => {
                assert(e == i);
            },
        }
        proof {
            assert forall|k: int| 0 <= k < i + 1 implies (#[trigger] dst@[k]).0 == src@.take(i as int + 1)[k].0
                && entity_view(dst@[k].1) == entity_view(src@.take(i as int + 1)[k].1) && !dst@[k].1.open by {
                if k < i {
                    assert(dst@[k] == before[k]);
                    assert(before[k].0 == src@.take(i as int)[k].0);
                }
            }
        }
        i = i + 1;
    }
    assert(src@.take(n as int) =~= src@);
    true
}

/// Copy the declarations of `old_dtd` (with the prefixes of `old_ns`) into
/// the empty DTD `new_dtd` (and the scope `new_ns`, which knows no prefix),
/// for the parser of an external entity: the same prefixes, attributes,
/// element types and entities, none of the entities open, and the same
/// knowledge of the DTD. False when a table cannot grow.
#[allow(non_snake_case)]
pub fn dtdCopy(old_dtd: &DTD, old_ns: &NsScope, new_dtd: &mut DTD, new_ns: &mut NsScope) -> (r: bool)
    requires
        old_dtd.elementTypes.wf(),
        old_dtd.attributeIds.wf(),
        old_dtd.generalEntities.wf(),
        old_dtd.paramEntities.wf(),
        old_ns.wf(),
        old(new_dtd).elementTypes.wf(),
        old(new_dtd).attributeIds.wf(),
        old(new_dtd).generalEntities.wf(),
        old(new_dtd).paramEntities.wf(),
        old(new_dtd).elementTypes@.len() == 0,
        old(new_dtd).attributeIds@.len() == 0,
        old(new_dtd).generalEntities@.len() == 0,
        old(new_dtd).paramEntities@.len() == 0,
        old(new_ns).wf(),
        old(new_ns).prefix_names().len() == 0,
    ensures
        final(new_dtd).elementTypes.wf(),
        final(new_dtd).attributeIds.wf(),
        final(new_dtd).generalEntities.wf(),
        final(new_dtd).paramEntities.wf(),
        final(new_ns).wf(),
        final(new_ns)@ == old(new_ns)@,
        final(new_ns).ns() == old(new_ns).ns(),
        final(new_ns).sep() == old(new_ns).sep(),
        r ==> {
            &&& final(new_ns).prefix_names() == old_ns.prefix_names()
            &&& final(new_dtd).attributeIds@ == old_dtd.attributeIds@
            &&& same_types(final(new_dtd).elementTypes@, old_dtd.elementTypes@)
            &&& same_entities(final(new_dtd).generalEntities@, old_dtd.generalEntities@)
            &&& same_entities(final(new_dtd).paramEntities@, old_dtd.paramEntities@)
            &&& final(new_dtd).keepProcessing == old_dtd.keepProcessing
            &&& final(new_dtd).hasParamEntityRefs == old_dtd.hasParamEntityRefs
            &&& final(new_dtd).standalone == old_dtd.standalone
            &&& final(new_dtd).paramEntityRead == old_dtd.paramEntityRead
        },
        !r ==> final(new_ns).prefix_table().growth_blocked() || final(new_dtd).attributeIds.growth_blocked()
            || final(new_dtd).elementTypes.growth_blocked() || final(new_dtd).generalEntities.growth_blocked()
            || final(new_dtd).paramEntities.growth_blocked(),
{
    if !copy_prefixes(old_ns, new_ns) {
        return false;
    }
    if !copy_attribute_ids(&old_dtd.attributeIds, &mut new_dtd.attributeIds) {
        return false;
    }
    if !copy_element_types(&old_dtd.elementTypes, &mut new_dtd.elementTypes) {
        return false;
    }
    if !copyEntityTable(&old_dtd.generalEntities, &mut new_dtd.generalEntities) {
        return false;
    }
    if !copyEntityTable(&old_dtd.paramEntities, &mut new_dtd.paramEntities) {
        return false;
    }
    new_dtd.keepProcessing = old_dtd.keepProcessing;
    new_dtd.hasParamEntityRefs = old_dtd.hasParamEntityRefs;
    new_dtd.standalone = old_dtd.standalone;
    new_dtd.paramEntityRead = old_dtd.paramEntityRead;
    true
}

} // verus!
