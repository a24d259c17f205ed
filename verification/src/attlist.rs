//! The attribute-list declarations of a DTD, taken role by role as the
//! prolog gives them: the element type, each attribute's name and type, and
//! its default, which declares the attribute for the element type and is
//! reported to the application.
use vstd::prelude::*;
use crate::attvalue::{attribute_value, pieces_view, storeAttributeValue, AttPiece};
use crate::dtd::{
    attribute_defined, attribute_id, defineAttribute, getAttributeId, getElementType, PrefixRef, ELEMENT_TYPE,
};
use crate::errors::XmlError;
use crate::hashtable::{copy_string, HASH_TABLE};
use crate::namespaces::NsScope;
use crate::storeatts::{dtd_wf, element_type_ok, lemma_fits_grow, table_prefixes_known};
use crate::dtd::attribute_id_fits;

verus! {

/// The types an attribute can be declared with, besides enumerations.
#[derive(PartialEq, Eq, Structural, Clone, Copy, Debug)]
pub enum AttType {
    CDATA,
    ID,
    IDREF,
    IDREFS,
    ENTITY,
    ENTITIES,
    NMTOKEN,
    NMTOKENS,
}

/// The name of a declared type.
pub open spec fn att_type_name(t: AttType) -> Seq<u8> {
    match t {
        AttType::CDATA => seq![0x43u8, 0x44u8, 0x41u8, 0x54u8, 0x41u8],
        AttType::ID => seq![0x49u8, 0x44u8],
        AttType::IDREF => seq![0x49u8, 0x44u8, 0x52u8, 0x45u8, 0x46u8],
        AttType::IDREFS => seq![0x49u8, 0x44u8, 0x52u8, 0x45u8, 0x46u8, 0x53u8],
        AttType::ENTITY => seq![0x45u8, 0x4eu8, 0x54u8, 0x49u8, 0x54u8, 0x59u8],
        AttType::ENTITIES => seq![0x45u8, 0x4eu8, 0x54u8, 0x49u8, 0x54u8, 0x49u8, 0x45u8, 0x53u8],
        AttType::NMTOKEN => seq![0x4eu8, 0x4du8, 0x54u8, 0x4fu8, 0x4bu8, 0x45u8, 0x4eu8],
        AttType::NMTOKENS => seq![0x4eu8, 0x4du8, 0x54u8, 0x4fu8, 0x4bu8, 0x45u8, 0x4eu8, 0x53u8],
    }
}

/// `(`, which opens an enumeration.
pub open spec fn enum_start() -> Seq<u8> {
    seq![0x28u8]
}

/// `NOTATION(`, which opens an enumeration of notations.
pub open spec fn notation_start() -> Seq<u8> {
    seq![0x4eu8, 0x4fu8, 0x54u8, 0x41u8, 0x54u8, 0x49u8, 0x4fu8, 0x4eu8, 0x28u8]
}

/// `|`, between the values of an enumeration.
pub open spec fn enum_sep() -> Seq<u8> {
    seq![0x7cu8]
}

/// The type as reported: an enumeration is closed with `)`.
pub open spec fn closed_type(t: Seq<u8>) -> Seq<u8> {
    if (t.len() > 0 && t[0] == 0x28) || (t.len() > 1 && t[0] == 0x4e && t[1] == 0x4f) {
        t.push(0x29)
    } else {
        t
    }
}

/// A declared keyword type is reported exactly by its keyword: the name
/// is made of capital letters only (so it holds no `)`), and reporting
/// leaves it as it is.
pub proof fn lemma_keyword_type_reported_as_is(k: AttType)
    ensures
        closed_type(att_type_name(k)) == att_type_name(k),
        att_type_name(k).len() >= 2,
        forall|i: int| 0 <= i < att_type_name(k).len() ==> 0x41 <= #[trigger] att_type_name(k)[i] <= 0x5a,
{
}

/// Each keyword type is reported as the keyword the declaration spells:
/// `CDATA`, `ID`, `IDREF`, `IDREFS`, `ENTITY`, `ENTITIES`, `NMTOKEN`,
/// `NMTOKENS`.
pub proof fn lemma_keyword_type_spelling(k: AttType)
    ensures
        k == AttType::CDATA ==> closed_type(att_type_name(k)) == seq![0x43u8, 0x44u8, 0x41u8, 0x54u8, 0x41u8],
        k == AttType::ID ==> closed_type(att_type_name(k)) == seq![0x49u8, 0x44u8],
        k == AttType::IDREF ==> closed_type(att_type_name(k)) == seq![0x49u8, 0x44u8, 0x52u8, 0x45u8, 0x46u8],
        k == AttType::IDREFS ==> closed_type(att_type_name(k)) == seq![0x49u8, 0x44u8, 0x52u8, 0x45u8, 0x46u8, 0x53u8],
        k == AttType::ENTITY ==> closed_type(att_type_name(k)) == seq![0x45u8, 0x4eu8, 0x54u8, 0x49u8, 0x54u8, 0x59u8],
        k == AttType::ENTITIES ==> closed_type(att_type_name(k)) == seq![0x45u8, 0x4eu8, 0x54u8, 0x49u8, 0x54u8, 0x49u8, 0x45u8, 0x53u8],
        k == AttType::NMTOKEN ==> closed_type(att_type_name(k)) == seq![0x4eu8, 0x4du8, 0x54u8, 0x4fu8, 0x4bu8, 0x45u8, 0x4eu8],
        k == AttType::NMTOKENS ==> closed_type(att_type_name(k)) == seq![0x4eu8, 0x4du8, 0x54u8, 0x4fu8, 0x4bu8, 0x45u8, 0x4eu8, 0x53u8],
{
    assert(att_type_name(k) =~= closed_type(att_type_name(k)));
}

/// An enumeration, or an enumeration of notations, is reported closed:
/// with exactly one `)` added at its end.
pub proof fn lemma_enumeration_reported_closed(t: Seq<u8>)
    requires
        t.len() > 0 && t[0] == 0x28 || (t.len() >= 9 && t.take(9) == notation_start()),
    ensures
        closed_type(t) == t + seq![0x29u8],
        closed_type(t).len() == t.len() + 1,
        closed_type(t).last() == 0x29,
{
    if !(t.len() > 0 && t[0] == 0x28) {
        assert(t[0] == t.take(9)[0]);
        assert(t[1] == t.take(9)[1]);
    }
    assert(t.push(0x29) =~= t + seq![0x29u8]);
}

/// Reporting a type changes it at most by a closing `)`, and it adds one
/// only to a type that opens an enumeration (`(`) or an enumeration of
/// notations (`NO`TATION).
pub proof fn lemma_report_adds_close_only_to_enumerations(t: Seq<u8>)
    ensures
        closed_type(t) == t || closed_type(t) == t + seq![0x29u8],
        closed_type(t) != t ==> (t[0] == 0x28 || (t.len() > 1 && t[0] == 0x4e && t[1] == 0x4f)),
        (t.len() > 0 && t[0] == 0x45) ==> closed_type(t) == t,
{
    assert(t.push(0x29) =~= t + seq![0x29u8]);
}

/// The attribute declaration being read: its element type and attribute
/// (indices into their tables), whether it is CDATA, whether it is an ID,
/// and its type as reported.
#[allow(non_snake_case)]
pub struct AttlistDecl {
    pub elementType: Option<usize>,
    pub attributeId: Option<usize>,
    pub isCdata: bool,
    pub isId: bool,
    pub attType: Option<Vec<u8>>,
}

/// An attribute declaration as reported to the application: the element,
/// the attribute, its type, its default (if any), and whether it is
/// required (for a declaration without default) or fixed (with one).
#[allow(non_snake_case)]
pub struct AttlistEvent {
    pub elementName: Vec<u8>,
    pub attName: Vec<u8>,
    pub attType: Vec<u8>,
    pub defaultValue: Option<Vec<u8>>,
    pub isRequired: bool,
}

/// `ev` reports the declaration of the attribute named `att` of the element
/// named `element`, with the type `t`, the default `value` and the flag
/// `flag` (required, or fixed).
pub open spec fn event_is(
    ev: AttlistEvent,
    element: Seq<u8>,
    att: Seq<u8>,
    t: Seq<u8>,
    value: Option<Seq<u8>>,
    flag: bool,
) -> bool {
    &&& ev.elementName@ == element
    &&& ev.attName@ == att
    &&& ev.attType@ == t
    &&& match value {
        Some(v) => ev.defaultValue matches Some(w) && w@ == v,
        None => ev.defaultValue is None,
    }
    &&& ev.isRequired == flag
}

/// The type of a declaration, if any, as bytes.
pub open spec fn type_view(t: Option<Vec<u8>>) -> Option<Seq<u8>> {
    match t {
        Some(v) => Some(v@),
        None => None,
    }
}

/// The bytes of the name of a declared type.
fn type_bytes(t: AttType) -> (r: Vec<u8>)
    ensures
        r@ == att_type_name(t),
{
    let r = match t {
        AttType::CDATA => vec![0x43u8, 0x44u8, 0x41u8, 0x54u8, 0x41u8],
        AttType::ID => vec![0x49u8, 0x44u8],
        AttType::IDREF => vec![0x49u8, 0x44u8, 0x52u8, 0x45u8, 0x46u8],
        AttType::IDREFS => vec![0x49u8, 0x44u8, 0x52u8, 0x45u8, 0x46u8, 0x53u8],
        AttType::ENTITY => vec![0x45u8, 0x4eu8, 0x54u8, 0x49u8, 0x54u8, 0x59u8],
        AttType::ENTITIES => vec![0x45u8, 0x4eu8, 0x54u8, 0x49u8, 0x54u8, 0x49u8, 0x45u8, 0x53u8],
        AttType::NMTOKEN => vec![0x4eu8, 0x4du8, 0x54u8, 0x4fu8, 0x4bu8, 0x45u8, 0x4eu8],
        AttType::NMTOKENS => vec![0x4eu8, 0x4du8, 0x54u8, 0x4fu8, 0x4bu8, 0x45u8, 0x4eu8, 0x53u8],
    };
    assert(r@ =~= att_type_name(t));
    r
}

/// Append the bytes `b` to `v`.
fn append(v: &mut Vec<u8>, b: &[u8])
    ensures
        final(v)@ == old(v)@ + b@,
{
    let mut i: usize = 0;
    while i < b.len()
        invariant
            i <= b.len(),
            v@ == old(v)@ + b@.take(i as int),
        decreases b.len() - i,
    {
        v.push(b[i]);
        i = i + 1;
        assert(v@ =~= old(v)@ + b@.take(i as int));
    }
    assert(b@.take(b.len() as int) =~= b@);
}

/// The type as reported, as computed.
fn close_type(t: &[u8]) -> (r: Vec<u8>)
    ensures
        r@ == closed_type(t@),
{
    let mut r = copy_string(t);
    if (t.len() > 0 && t[0] == 0x28) || (t.len() > 1 && t[0] == 0x4e && t[1] == 0x4f) {
        r.push(0x29);
    }
    r
}

/// An element type with no prefix, no ID attribute and no defaults.
fn empty_type() -> (t: ELEMENT_TYPE)
    ensures
        t.prefix is None,
        t.idAtt is None,
        t.defaultAtts@.len() == 0,
{
    ELEMENT_TYPE { prefix: None, idAtt: None, defaultAtts: Vec::new() }
}

/// Declare attribute `a` of element type `e`, in their tables.
#[allow(non_snake_case)]
fn define_in_tables(
    elementTypes: &mut HASH_TABLE<ELEMENT_TYPE>,
    attributeIds: &mut HASH_TABLE<attribute_id>,
    ns: &NsScope,
    e: usize,
    a: usize,
    isCdata: bool,
    isId: bool,
    value: Option<&[u8]>,
)
    requires
        dtd_wf(*old(elementTypes), *old(attributeIds), *ns),
        e < old(elementTypes)@.len(),
        a < old(attributeIds)@.len(),
    ensures
        dtd_wf(*final(elementTypes), *final(attributeIds), *ns),
        final(elementTypes)@ == old(elementTypes)@.update(e as int, (old(elementTypes)@[e as int].0, final(elementTypes)@[e as int].1)),
        final(attributeIds)@ == old(attributeIds)@.update(a as int, (old(attributeIds)@[a as int].0, final(attributeIds)@[a as int].1)),
        attribute_defined(
            old(elementTypes)@[e as int].1,
            final(elementTypes)@[e as int].1,
            a,
            old(attributeIds)@[a as int].1,
            final(attributeIds)@[a as int].1,
            isCdata,
            isId,
            match value {
                Some(v) => Some(v@),
                None => None,
            },
        ),
{
    let ghost t0 = elementTypes@;
    let ghost i0 = attributeIds@;
    let mut t = elementTypes.take_value(e, empty_type());
    let mut id = *attributeIds.value(a);
    defineAttribute(&mut t, a, &mut id, isCdata, isId, value);
    elementTypes.set_value(e, t);
    attributeIds.set_value(a, id);
    proof {
        assert(elementTypes@ =~= t0.update(e as int, (t0[e as int].0, elementTypes@[e as int].1)));
        assert(attributeIds@ =~= i0.update(a as int, (i0[a as int].0, attributeIds@[a as int].1)));
        assert(element_type_ok(t0[e as int].1, i0.len(), ns.prefix_names().len()));
        assert forall|k: int| 0 <= k < elementTypes@.len() implies element_type_ok(
            (#[trigger] elementTypes@[k]).1,
            attributeIds@.len(),
            ns.prefix_names().len(),
        ) by {
            if k != e {
                assert(elementTypes@[k] == t0[k]);
                assert(element_type_ok(t0[k].1, i0.len(), ns.prefix_names().len()));
            } else {
                let o = t0[e as int].1;
                let f = elementTypes@[k].1;
                assert forall|q: int| 0 <= q < f.defaultAtts@.len() implies #[trigger] f.defaultAtts@[q].id
                    < attributeIds@.len() by {
                    if q < o.defaultAtts@.len() {
                        if f.defaultAtts@ != o.defaultAtts@ {
                            assert(f.defaultAtts@[q] == f.defaultAtts@.take(o.defaultAtts@.len() as int)[q]);
                        }
                    }
                }
            }
        }
        assert forall|k: int| 0 <= k < attributeIds@.len() implies ((#[trigger] attributeIds@[k]).1.prefix matches PrefixRef::Named(
            p,
        ) ==> p < ns.prefix_names().len()) by {
            assert(i0[k].1.prefix == attributeIds@[k].1.prefix);
        }
    }
}

impl AttlistDecl {
    /// No declaration read yet.
    pub fn new() -> (d: Self)
        ensures
            d.elementType is None,
            d.attributeId is None,
            !d.isCdata,
            !d.isId,
            d.attType is None,
    {
        AttlistDecl { elementType: None, attributeId: None, isCdata: false, isId: false, attType: None }
    }

    /// The declaration names its element type and attribute, both known.
    pub open spec fn ready(&self, elementTypes: HASH_TABLE<ELEMENT_TYPE>, attributeIds: HASH_TABLE<attribute_id>) -> bool {
        &&& self.elementType matches Some(e) && e < elementTypes@.len()
        &&& self.attributeId matches Some(a) && a < attributeIds@.len()
    }

    /// The element type of the declaration, found or created;
    /// `XML_ERROR_NO_MEMORY` when it cannot be created.
    #[allow(non_snake_case)]
    pub fn roleAttlistElementName(
        &mut self,
        elementTypes: &mut HASH_TABLE<ELEMENT_TYPE>,
        attributeIds: &HASH_TABLE<attribute_id>,
        ns: &mut NsScope,
        name: &[u8],
    ) -> (r: Result<(), XmlError>)
        requires
            dtd_wf(*old(elementTypes), *attributeIds, *old(ns)),
        ensures
            dtd_wf(*final(elementTypes), *attributeIds, *final(ns)),
            crate::dtd::prefixes_grown(*old(ns), *final(ns)),
            final(self).attributeId == old(self).attributeId,
            final(self).isCdata == old(self).isCdata,
            final(self).isId == old(self).isId,
            final(self).attType == old(self).attType,
            match r {
                Ok(()) => final(self).elementType matches Some(e) && e < final(elementTypes)@.len()
                    && final(elementTypes)@[e as int].0 == name@,
                Err(e) => e == XmlError::XML_ERROR_NO_MEMORY && final(self).elementType is None && (final(elementTypes).growth_blocked()
                    || final(ns).prefix_table().growth_blocked()),
            },
    {
        let ghost t0 = elementTypes@;
        let ghost n0 = *ns;
        let got = getElementType(elementTypes, ns, name);
        assert(n0.prefix_names().is_prefix_of(ns.prefix_names()));
        proof {
            assert forall|e: int| 0 <= e < elementTypes@.len() implies element_type_ok(
                (#[trigger] elementTypes@[e]).1,
                attributeIds@.len(),
                ns.prefix_names().len(),
            ) by {
                if e < t0.len() {
                    assert(elementTypes@[e] == elementTypes@.take(t0.len() as int)[e]);
                    assert(element_type_ok(t0[e].1, attributeIds@.len(), n0.prefix_names().len()));
                }
            }
        }
        match got {
            None => {
                self.elementType = None;
                Err(XmlError::XML_ERROR_NO_MEMORY)
            },
            Some(e) => {
                self.elementType = Some(e);
                Ok(())
            },
        }
    }

    /// The attribute of the declaration, found or created; its type and
    /// what it is are not known yet. `XML_ERROR_NO_MEMORY` when it cannot
    /// be created.
    #[allow(non_snake_case)]
    pub fn roleAttributeName(
        &mut self,
        elementTypes: &HASH_TABLE<ELEMENT_TYPE>,
        attributeIds: &mut HASH_TABLE<attribute_id>,
        ns: &mut NsScope,
        name: &[u8],
    ) -> (r: Result<(), XmlError>)
        requires
            dtd_wf(*elementTypes, *old(attributeIds), *old(ns)),
        ensures
            dtd_wf(*elementTypes, *final(attributeIds), *final(ns)),
            crate::dtd::prefixes_grown(*old(ns), *final(ns)),
            old(attributeIds)@.is_prefix_of(final(attributeIds)@),
            final(attributeIds)@.len() <= old(attributeIds)@.len() + 1,
            final(attributeIds)@.len() == old(attributeIds)@.len() + 1 ==> final(attributeIds)@.last().0 == name@
                && attribute_id_fits(
                    name@,
                    old(ns).ns(),
                    final(attributeIds)@.last().1,
                    final(ns).prefix_names(),
                    r is Ok,
                    final(ns).prefix_table().growth_blocked(),
                ),
            final(self).elementType == old(self).elementType,
            match r {
                Ok(()) => {
                    &&& final(self).attributeId matches Some(a) && a < final(attributeIds)@.len()
                        && final(attributeIds)@[a as int].0 == name@
                    &&& !final(self).isCdata
                    &&& !final(self).isId
                    &&& final(self).attType is None
                },
                Err(e) => e == XmlError::XML_ERROR_NO_MEMORY && final(self).attributeId is None && (final(
                    attributeIds).growth_blocked() || final(ns).prefix_table().growth_blocked()),
            },
    {
        let ghost i0 = attributeIds@;
        let ghost n0 = *ns;
        let nsf = ns.namespace_aware();
        let got = getAttributeId(attributeIds, ns, nsf, name);
        proof {
            let i1 = attributeIds@;
            if i1.len() > i0.len() {
                assert(i1.take(i0.len() as int) == i0);
                assert forall|k: int| 0 <= k < i0.len() implies i1[k] == i0[k] by {
                    assert(i1.take(i0.len() as int)[k] == i1[k]);
                }
                lemma_fits_grow(
                    name@,
                    nsf,
                    i1.last().1,
                    ns.prefix_names(),
                    ns.prefix_names(),
                    got is Some,
                    ns.prefix_table().growth_blocked(),
                    ns.prefix_table().growth_blocked(),
                );
            }
            assert(i0.is_prefix_of(i1));
            assert forall|k: int| 0 <= k < i1.len() implies ((#[trigger] i1[k]).1.prefix matches PrefixRef::Named(p)
                ==> p < ns.prefix_names().len()) by {
                if k < i0.len() {
                    assert(i1[k] == i0[k]);
                }
            }
            assert forall|k: int| 0 <= k < elementTypes@.len() implies element_type_ok(
                (#[trigger] elementTypes@[k]).1,
                i1.len(),
                ns.prefix_names().len(),
            ) by {
                assert(element_type_ok(elementTypes@[k].1, i0.len(), n0.prefix_names().len()));
            }
        }
        match got {
            None => {
                self.attributeId = None;
                Err(XmlError::XML_ERROR_NO_MEMORY)
            },
            Some(a) => {
                self.attributeId = Some(a);
                self.isCdata = false;
                self.isId = false;
                self.attType = None;
                Ok(())
            },
        }
    }

    /// The attribute is declared with the type `t`: CDATA makes it CDATA,
    /// ID makes it an ID.
    #[allow(non_snake_case)]
    pub fn roleAttributeType(&mut self, t: AttType)
        ensures
            final(self).elementType == old(self).elementType,
            final(self).attributeId == old(self).attributeId,
            final(self).isCdata == (old(self).isCdata || t == AttType::CDATA),
            final(self).isId == (old(self).isId || t == AttType::ID),
            type_view(final(self).attType) == Some(att_type_name(t)),
    {
        if t == AttType::CDATA {
            self.isCdata = true;
        }
        if t == AttType::ID {
            self.isId = true;
        }
        self.attType = Some(type_bytes(t));
    }

    /// A value of an enumeration (of notations, when `notation`) is added
    /// to the type as reported, when the DTD is still processed and the
    /// application takes attribute declarations.
    #[allow(non_snake_case)]
    pub fn roleAttributeEnumValue(&mut self, notation: bool, value: &[u8], keepProcessing: bool, hasHandler: bool)
        ensures
            final(self).elementType == old(self).elementType,
            final(self).attributeId == old(self).attributeId,
            final(self).isCdata == old(self).isCdata,
            final(self).isId == old(self).isId,
            type_view(final(self).attType) == if keepProcessing && hasHandler {
                Some(
                    match type_view(old(self).attType) {
                        Some(t) => t + enum_sep() + value@,
                        None => if notation {
                            notation_start() + value@
                        } else {
                            enum_start() + value@
                        },
                    },
                )
            } else {
                type_view(old(self).attType)
            },
    {
        if !(keepProcessing && hasHandler) {
            return;
        }
        let mut t: Vec<u8> = match &self.attType {
            Some(old_t) => {
                let mut t = copy_string(old_t.as_slice());
                t.push(0x7c);
                t
            },
            None => if notation {
                vec![0x4eu8, 0x4fu8, 0x54u8, 0x41u8, 0x54u8, 0x49u8, 0x4fu8, 0x4eu8, 0x28u8]
            } else {
                vec![0x28u8]
            },
        };
        let ghost start = t@;
        append(&mut t, value);
        proof {
            match type_view(old(self).attType) {
                Some(o) => {
                    assert(start =~= o + enum_sep());
                },
                None => {
                    if notation {
                        assert(start =~= notation_start());
                    } else {
                        assert(start =~= enum_start());
                    }
                },
            }
        }
        self.attType = Some(t);
    }

    /// The declaration gives no default (`#IMPLIED`, or `#REQUIRED` when
    /// `required`): the attribute is declared for the element type, and the
    /// declaration is reported when the application takes attribute
    /// declarations and the type is known.
    #[allow(non_snake_case)]
    pub fn roleAttributeNoDefault(
        &self,
        required: bool,
        elementTypes: &mut HASH_TABLE<ELEMENT_TYPE>,
        attributeIds: &mut HASH_TABLE<attribute_id>,
        ns: &NsScope,
        keepProcessing: bool,
        hasHandler: bool,
    ) -> (r: Option<AttlistEvent>)
        requires
            dtd_wf(*old(elementTypes), *old(attributeIds), *ns),
            self.ready(*old(elementTypes), *old(attributeIds)),
        ensures
            dtd_wf(*final(elementTypes), *final(attributeIds), *ns),
            ({
                let e = self.elementType.unwrap() as int;
                let a = self.attributeId.unwrap() as int;
                if !keepProcessing {
                    &&& final(elementTypes)@ == old(elementTypes)@
                    &&& final(attributeIds)@ == old(attributeIds)@
                    &&& r is None
                } else {
                    &&& final(elementTypes)@ == old(elementTypes)@.update(e, (old(elementTypes)@[e].0, final(elementTypes)@[e].1))
                    &&& final(attributeIds)@ == old(attributeIds)@.update(a, (old(attributeIds)@[a].0, final(attributeIds)@[a].1))
                    &&& attribute_defined(
                        old(elementTypes)@[e].1,
                        final(elementTypes)@[e].1,
                        a as usize,
                        old(attributeIds)@[a].1,
                        final(attributeIds)@[a].1,
                        self.isCdata,
                        self.isId,
                        None,
                    )
                    &&& match r {
                        None => !hasHandler || self.attType is None,
                        Some(ev) => hasHandler && (self.attType matches Some(t) && event_is(
                            ev,
                            old(elementTypes)@[e].0,
                            old(attributeIds)@[a].0,
                            closed_type(t@),
                            None,
                            required,
                        )),
                    }
                }
            }),
    {
        if !keepProcessing {
            return None;
        }
        let e = self.elementType.unwrap();
        let a = self.attributeId.unwrap();
        define_in_tables(elementTypes, attributeIds, ns, e, a, self.isCdata, self.isId, None);
        if !hasHandler {
            return None;
        }
        match &self.attType {
            None => None,
            Some(t) => Some(
                AttlistEvent {
                    elementName: copy_string(elementTypes.name(e)),
                    attName: copy_string(attributeIds.name(a)),
                    attType: close_type(t.as_slice()),
                    defaultValue: None,
                    isRequired: required,
                },
            ),
        }
    }

    /// The declaration gives a default (`#FIXED` when `fixed`), read from
    /// the pieces of its literal: the attribute is declared for the element
    /// type with it, and the declaration is reported when the application
    /// takes attribute declarations and the type is known. The error of
    /// reading the value names the piece that caused it.
    #[allow(non_snake_case)]
    pub fn roleAttributeDefault(
        &self,
        fixed: bool,
        pieces: &Vec<AttPiece>,
        elementTypes: &mut HASH_TABLE<ELEMENT_TYPE>,
        attributeIds: &mut HASH_TABLE<attribute_id>,
        ns: &NsScope,
        keepProcessing: bool,
        hasHandler: bool,
    ) -> (r: Result<Option<AttlistEvent>, (XmlError, usize)>)
        requires
            dtd_wf(*old(elementTypes), *old(attributeIds), *ns),
            self.ready(*old(elementTypes), *old(attributeIds)),
        ensures
            dtd_wf(*final(elementTypes), *final(attributeIds), *ns),
            ({
                let e = self.elementType.unwrap() as int;
                let a = self.attributeId.unwrap() as int;
                if !keepProcessing {
                    &&& final(elementTypes)@ == old(elementTypes)@
                    &&& final(attributeIds)@ == old(attributeIds)@
                    &&& r matches Ok(None)
                } else {
                    match attribute_value(pieces_view(pieces@), self.isCdata) {
                        Err((err, i)) => {
                            &&& r == Err::<Option<AttlistEvent>, (XmlError, usize)>((err, i as usize))
                            &&& final(elementTypes)@ == old(elementTypes)@
                            &&& final(attributeIds)@ == old(attributeIds)@
                        },
                        Ok(v) => {
                            &&& final(elementTypes)@ == old(elementTypes)@.update(e, (old(elementTypes)@[e].0, final(elementTypes)@[e].1))
                            &&& final(attributeIds)@ == old(attributeIds)@.update(a, (old(attributeIds)@[a].0, final(attributeIds)@[a].1))
                            &&& attribute_defined(
                                old(elementTypes)@[e].1,
                                final(elementTypes)@[e].1,
                                a as usize,
                                old(attributeIds)@[a].1,
                                final(attributeIds)@[a].1,
                                self.isCdata,
                                false,
                                Some(v),
                            )
                            &&& match r {
                                Err(_) => false,
                                Ok(None) => !hasHandler || self.attType is None,
                                Ok(Some(ev)) => hasHandler && (self.attType matches Some(t) && event_is(
                                    ev,
                                    old(elementTypes)@[e].0,
                                    old(attributeIds)@[a].0,
                                    closed_type(t@),
                                    Some(v),
                                    fixed,
                                )),
                            }
                        },
                    }
                }
            }),
    {
        if !keepProcessing {
            return Ok(None);
        }
        let value = match storeAttributeValue(pieces, self.isCdata) {
            Err(err) => {
                return Err(err);
            },
            Ok(v) => v,
        };
        let e = self.elementType.unwrap();
        let a = self.attributeId.unwrap();
        define_in_tables(elementTypes, attributeIds, ns, e, a, self.isCdata, false, Some(value.as_slice()));
        if !hasHandler {
            return Ok(None);
        }
        match &self.attType {
            None => Ok(None),
            Some(t) => Ok(
                Some(
                    AttlistEvent {
                        elementName: copy_string(elementTypes.name(e)),
                        attName: copy_string(attributeIds.name(a)),
                        attType: close_type(t.as_slice()),
                        defaultValue: Some(value),
                        isRequired: fixed,
                    },
                ),
            ),
        }
    }
}

} // verus!
