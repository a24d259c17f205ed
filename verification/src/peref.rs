//! The external entities of the prolog: a parameter entity reference,
//! which is an error, is skipped, has its replacement text parsed, or is
//! handed to the application to read; the external subset of the document
//! type declaration (or a foreign DTD), which is handed to the application;
//! and what the application's answers lead to.
use vstd::prelude::*;
use crate::dtdcopy::DTD;
use crate::entities::{opt_view, with_open, DeclEntity, EntityDecl, ENTITY};
use crate::errors::XmlError;
use crate::storeatts::{has_name, record_named};

verus! {

/// What a parameter entity reference leads to, besides the changes to the
/// DTD.
#[allow(non_snake_case)]
#[derive(PartialEq, Eq, Structural, Clone, Copy, Debug)]
pub enum PeRefAction {
    /// Nothing more.
    Done,
    /// The application is asked whether a document that is not standalone
    /// may refer to an external DTD (an answer of no is
    /// `XML_ERROR_NOT_STANDALONE`).
    CheckStandalone,
    /// The reference names no declared entity and is skipped; the
    /// application is told when `report`.
    Skip { report: bool },
    /// The replacement text of the internal entity `index` is parsed, as a
    /// whole declaration when `betweenDecl`.
    ProcessInternal { index: usize, betweenDecl: bool },
    /// The external entity `index`, now open, is handed to the application
    /// to read.
    LoadExternal { index: usize },
}

/// The check after an entity that may have brought external declarations:
/// the application is asked about a document that is not standalone, when
/// it takes that question.
pub open spec fn standalone_check(standalone: bool, hasNotStandaloneHandler: bool) -> PeRefAction {
    if !standalone && hasNotStandaloneHandler {
        PeRefAction::CheckStandalone
    } else {
        PeRefAction::Done
    }
}

/// `f` is `o` with only the flags of the DTD and the parameter entities
/// perhaps changed.
pub open spec fn same_declarations(o: DTD, f: DTD) -> bool {
    &&& f.elementTypes == o.elementTypes
    &&& f.attributeIds == o.attributeIds
    &&& f.generalEntities == o.generalEntities
    &&& f.standalone == o.standalone
}

/// Take a parameter entity reference to `name` in the prolog (inside a
/// declaration when `innerRef`): `paramEntityParsing` tells whether
/// parameter entities are parsed, `documentEntity` whether the reference
/// is in the document entity itself, `openInternalEntities` whether an
/// internal entity is being parsed; the `has...` flags tell which questions
/// the application takes. In a document entity that must declare every
/// entity it refers to, an undeclared entity is `XML_ERROR_UNDEFINED_ENTITY`
/// and one declared in a parameter entity `XML_ERROR_ENTITY_DECLARED_IN_PE`;
/// elsewhere an undeclared entity is skipped and stops the processing of a
/// document that is not standalone. An open entity is
/// `XML_ERROR_RECURSIVE_ENTITY_REF`.
#[allow(non_snake_case)]
pub fn paramEntityRefAction(
    dtd: &mut DTD,
    name: &[u8],
    innerRef: bool,
    paramEntityParsing: bool,
    documentEntity: bool,
    openInternalEntities: bool,
    hasSkippedHandler: bool,
    hasExternalHandler: bool,
    hasNotStandaloneHandler: bool,
) -> (r: Result<PeRefAction, XmlError>)
    requires
        old(dtd).paramEntities.wf(),
    ensures
        final(dtd).paramEntities.wf(),
        same_declarations(*old(dtd), *final(dtd)),
        final(dtd).hasParamEntityRefs,
        ({
            let o = *old(dtd);
            let f = *final(dtd);
            let t = o.paramEntities@;
            let found = has_name(t, name@);
            let e = record_named(t, name@);
            let checked = documentEntity && o.standalone && !openInternalEntities;
            if !paramEntityParsing {
                &&& r == Ok::<PeRefAction, XmlError>(standalone_check(o.standalone, hasNotStandaloneHandler))
                &&& f.keepProcessing == o.standalone
                &&& f.paramEntities@ == t
                &&& f.paramEntityRead == o.paramEntityRead
            } else if checked && !found {
                &&& r == Err::<PeRefAction, XmlError>(XmlError::XML_ERROR_UNDEFINED_ENTITY)
                &&& f.keepProcessing == o.keepProcessing
                &&& f.paramEntities@ == t
                &&& f.paramEntityRead == o.paramEntityRead
            } else if checked && !t[e].1.is_internal {
                &&& r == Err::<PeRefAction, XmlError>(XmlError::XML_ERROR_ENTITY_DECLARED_IN_PE)
                &&& f.keepProcessing == o.keepProcessing
                &&& f.paramEntities@ == t
                &&& f.paramEntityRead == o.paramEntityRead
            } else if !found {
                &&& r == Ok::<PeRefAction, XmlError>(PeRefAction::Skip { report: !innerRef && hasSkippedHandler })
                &&& f.keepProcessing == o.standalone
                &&& f.paramEntities@ == t
                &&& f.paramEntityRead == o.paramEntityRead
            } else if t[e].1.open {
                &&& r == Err::<PeRefAction, XmlError>(XmlError::XML_ERROR_RECURSIVE_ENTITY_REF)
                &&& f.keepProcessing == o.keepProcessing
                &&& f.paramEntities@ == t
                &&& f.paramEntityRead == o.paramEntityRead
            } else if t[e].1.text is Some {
                &&& r == Ok::<PeRefAction, XmlError>(
                    PeRefAction::ProcessInternal { index: e as usize, betweenDecl: !innerRef },
                )
                &&& f.keepProcessing == o.keepProcessing
                &&& f.paramEntities@ == t
                &&& f.paramEntityRead == o.paramEntityRead
            } else if hasExternalHandler {
                &&& r == Ok::<PeRefAction, XmlError>(PeRefAction::LoadExternal { index: e as usize })
                &&& f.keepProcessing == o.keepProcessing
                &&& f.paramEntities@ == t.update(e, (t[e].0, with_open(t[e].1, true)))
                &&& !f.paramEntityRead
            } else {
                &&& r == Ok::<PeRefAction, XmlError>(PeRefAction::Done)
                &&& f.keepProcessing == o.standalone
                &&& f.paramEntities@ == t
                &&& f.paramEntityRead == o.paramEntityRead
            }
        }),
{
    dtd.hasParamEntityRefs = true;
    if !paramEntityParsing {
        dtd.keepProcessing = dtd.standalone;
        return Ok(
            if !dtd.standalone && hasNotStandaloneHandler {
                PeRefAction::CheckStandalone
            } else {
                PeRefAction::Done
            },
        );
    }
    let ghost t = dtd.paramEntities@;
    let found = dtd.paramEntities.lookup(name);
    proof {
        match found {
            Some(e) => {
                crate::storeatts::lemma_record_named(dtd.paramEntities, e as int);
            },
            None => {
                assert(!has_name(t, name@));
            },
        }
    }
    let checked = documentEntity && dtd.standalone && !openInternalEntities;
    let e = match found {
        None => {
            if checked {
                return Err(XmlError::XML_ERROR_UNDEFINED_ENTITY);
            }
            dtd.keepProcessing = dtd.standalone;
            return Ok(PeRefAction::Skip { report: !innerRef && hasSkippedHandler });
        },
        Some(e) => e,
    };
    let x = dtd.paramEntities.value(e);
    if checked && !x.is_internal {
        return Err(XmlError::XML_ERROR_ENTITY_DECLARED_IN_PE);
    }
    if x.open {
        return Err(XmlError::XML_ERROR_RECURSIVE_ENTITY_REF);
    }
    if x.text.is_some() {
        return Ok(PeRefAction::ProcessInternal { index: e, betweenDecl: !innerRef });
    }
    if hasExternalHandler {
        dtd.paramEntityRead = false;
        let mut y = dtd.paramEntities.take_value(e, ENTITY::empty());
        y.open = true;
        let ghost yv = y;
        dtd.paramEntities.set_value(e, y);
        proof {
            assert(yv == with_open(t[e as int].1, true));
            assert(dtd.paramEntities@ =~= t.update(e as int, (t[e as int].0, with_open(t[e as int].1, true))));
        }
        return Ok(PeRefAction::LoadExternal { index: e });
    }
    dtd.keepProcessing = dtd.standalone;
    Ok(PeRefAction::Done)
}

/// The application has read the external parameter entity `index`
/// (`handlerOk` false: it failed, `XML_ERROR_EXTERNAL_ENTITY_HANDLING`):
/// the entity is closed; when it read no declarations the DTD is no longer
/// processed unless the document is standalone; when it did, a document
/// that is not standalone is checked.
#[allow(non_snake_case)]
pub fn afterExternalParamEntity(dtd: &mut DTD, index: usize, handlerOk: bool, hasNotStandaloneHandler: bool) -> (r:
    Result<PeRefAction, XmlError>)
    requires
        old(dtd).paramEntities.wf(),
        index < old(dtd).paramEntities@.len(),
    ensures
        final(dtd).paramEntities.wf(),
        same_declarations(*old(dtd), *final(dtd)),
        final(dtd).hasParamEntityRefs == old(dtd).hasParamEntityRefs,
        final(dtd).paramEntityRead == old(dtd).paramEntityRead,
        ({
            let t = old(dtd).paramEntities@;
            final(dtd).paramEntities@ == t.update(index as int, (t[index as int].0, with_open(t[index as int].1, false)))
        }),
        if !handlerOk {
            &&& r == Err::<PeRefAction, XmlError>(XmlError::XML_ERROR_EXTERNAL_ENTITY_HANDLING)
            &&& final(dtd).keepProcessing == old(dtd).keepProcessing
        } else if !old(dtd).paramEntityRead {
            &&& r == Ok::<PeRefAction, XmlError>(PeRefAction::Done)
            &&& final(dtd).keepProcessing == old(dtd).standalone
        } else {
            &&& r == Ok::<PeRefAction, XmlError>(standalone_check(old(dtd).standalone, hasNotStandaloneHandler))
            &&& final(dtd).keepProcessing == old(dtd).keepProcessing
        },
{
    let ghost t = dtd.paramEntities@;
    let mut y = dtd.paramEntities.take_value(index, ENTITY::empty());
    y.open = false;
    let ghost yv = y;
    dtd.paramEntities.set_value(index, y);
    proof {
        assert(yv == with_open(t[index as int].1, false));
        assert(dtd.paramEntities@ =~= t.update(index as int, (t[index as int].0, with_open(t[index as int].1, false))));
    }
    if !handlerOk {
        return Err(XmlError::XML_ERROR_EXTERNAL_ENTITY_HANDLING);
    }
    if !dtd.paramEntityRead {
        dtd.keepProcessing = dtd.standalone;
        return Ok(PeRefAction::Done);
    }
    Ok(
        if !dtd.standalone && hasNotStandaloneHandler {
            PeRefAction::CheckStandalone
        } else {
            PeRefAction::Done
        },
    )
}

/// The application's answer to whether a document that is not standalone
/// may go on.
#[allow(non_snake_case)]
pub fn notStandaloneAnswer(ok: bool) -> (r: Result<(), XmlError>)
    ensures
        r == if ok {
            Ok::<(), XmlError>(())
        } else {
            Err::<(), XmlError>(XmlError::XML_ERROR_NOT_STANDALONE)
        },
{
    if ok {
        Ok(())
    } else {
        Err(XmlError::XML_ERROR_NOT_STANDALONE)
    }
}

/// `#`, the name of the parameter entity that stands for the external
/// subset of the DTD.
pub open spec fn external_subset_name() -> Seq<u8> {
    seq![0x23u8]
}

/// The external subset is to be read: the index of its entity, and
/// whether the DTD referred to parameter entities before.
#[allow(non_snake_case)]
#[derive(PartialEq, Eq, Structural, Clone, Copy, Debug)]
pub struct SubsetLoad {
    pub index: usize,
    pub hadParamEntityRefs: bool,
}

/// The entity of the external subset after it is found (`o`) or created
/// (`None`): unchanged but for its base, which is `base` with a foreign
/// DTD.
pub open spec fn subset_entity(o: Option<ENTITY>, x: ENTITY, useForeignDTD: bool, base: Option<Seq<u8>>) -> bool {
    &&& match o {
        Some(y) => x == ENTITY { base: x.base, ..y },
        None => {
            &&& x.text is None
            &&& x.systemId is None
            &&& x.publicId is None
            &&& x.notation is None
            &&& !x.is_param
            &&& !x.is_internal
            &&& !x.open
        },
    }
    &&& if useForeignDTD {
        opt_view(x.base) == base
    } else {
        match o {
            Some(y) => x.base == y.base,
            None => x.base is None,
        }
    }
}

/// What `externalSubsetAction` does to the DTD `o` (giving `f`) and
/// returns (`r`).
pub open spec fn subset_outcome(
    o: DTD,
    f: DTD,
    sysidGiven: bool,
    useForeignDTD: bool,
    paramEntityParsing: bool,
    hasExternalHandler: bool,
    curBase: Option<&[u8]>,
    r: Result<Option<SubsetLoad>, XmlError>,
) -> bool {
    let t = o.paramEntities@;
    let base = match curBase {
        Some(b) => Some(b@),
        None => None::<Seq<u8>>,
    };
    &&& same_declarations(o, f)
    &&& f.keepProcessing == o.keepProcessing
    &&& if !(sysidGiven || useForeignDTD) {
        &&& r == Ok::<Option<SubsetLoad>, XmlError>(None)
        &&& f == o
    } else if !(paramEntityParsing && hasExternalHandler) {
        &&& r == Ok::<Option<SubsetLoad>, XmlError>(None)
        &&& f.hasParamEntityRefs
        &&& f.paramEntities@ == t
        &&& f.paramEntityRead == o.paramEntityRead
    } else {
        &&& f.hasParamEntityRefs
        &&& match r {
            Ok(Some(load)) => {
                let i = load.index as int;
                &&& load.hadParamEntityRefs == o.hasParamEntityRefs
                &&& !f.paramEntityRead
                &&& i <= t.len()
                &&& f.paramEntities@.len() == if i < t.len() {
                    t.len()
                } else {
                    t.len() + 1
                }
                &&& forall|k: int| 0 <= k < t.len() && k != i ==> #[trigger] f.paramEntities@[k] == t[k]
                &&& f.paramEntities@[i].0 == external_subset_name()
                &&& i == t.len() ==> !has_name(t, external_subset_name())
                &&& subset_entity(
                    if i < t.len() {
                        Some(t[i].1)
                    } else {
                        None
                    },
                    f.paramEntities@[i].1,
                    useForeignDTD,
                    base,
                )
            },
            Ok(None) => false,
            Err(e) => e == XmlError::XML_ERROR_NO_MEMORY && f.paramEntities@ == t && o.paramEntities.growth_blocked(),
        }
    }
}

/// What `afterExternalSubset` does to the DTD `o` (giving `f`) and returns
/// (`r`).
pub open spec fn after_subset_outcome(
    o: DTD,
    f: DTD,
    load: SubsetLoad,
    sysidGiven: bool,
    handlerOk: bool,
    hasNotStandaloneHandler: bool,
    r: Result<PeRefAction, XmlError>,
) -> bool {
    &&& same_declarations(o, f)
    &&& f.paramEntities == o.paramEntities
    &&& f.keepProcessing == o.keepProcessing
    &&& f.paramEntityRead == o.paramEntityRead
    &&& if !handlerOk {
        &&& r == Err::<PeRefAction, XmlError>(XmlError::XML_ERROR_EXTERNAL_ENTITY_HANDLING)
        &&& f.hasParamEntityRefs == o.hasParamEntityRefs
    } else if o.paramEntityRead {
        &&& r == Ok::<PeRefAction, XmlError>(standalone_check(o.standalone, hasNotStandaloneHandler))
        &&& f.hasParamEntityRefs == o.hasParamEntityRefs
    } else {
        &&& r == Ok::<PeRefAction, XmlError>(PeRefAction::Done)
        &&& f.hasParamEntityRefs == if sysidGiven {
            o.hasParamEntityRefs
        } else {
            load.hadParamEntityRefs
        }
    }
}

/// At the end of the document type declaration (or at the start of the
/// document, with a foreign DTD): when there is an external subset (the
/// declaration gave a system identifier, `sysidGiven`, or the application
/// asked for a foreign DTD), the DTD counts as referring to parameter
/// entities, and when parameter entities are parsed and the application
/// reads external entities, the entity of the external subset (`#`) is
/// found or created (with the base `curBase` for a foreign DTD) and handed
/// to the application. `XML_ERROR_NO_MEMORY` when it cannot be created.
#[allow(non_snake_case)]
pub fn externalSubsetAction(
    dtd: &mut DTD,
    sysidGiven: bool,
    useForeignDTD: bool,
    paramEntityParsing: bool,
    hasExternalHandler: bool,
    curBase: Option<&[u8]>,
) -> (r: Result<Option<SubsetLoad>, XmlError>)
    requires
        old(dtd).paramEntities.wf(),
    ensures
        final(dtd).paramEntities.wf(),
        subset_outcome(*old(dtd), *final(dtd), sysidGiven, useForeignDTD, paramEntityParsing, hasExternalHandler, curBase, r),
{
    if !(sysidGiven || useForeignDTD) {
        return Ok(None);
    }
    let had = dtd.hasParamEntityRefs;
    dtd.hasParamEntityRefs = true;
    if !(paramEntityParsing && hasExternalHandler) {
        return Ok(None);
    }
    let ghost t = dtd.paramEntities@;
    let name: [u8; 1] = [0x23];
    let e = match dtd.paramEntities.lookup_create(&name, ENTITY::empty()) {
        None => {
            return Err(XmlError::XML_ERROR_NO_MEMORY);
        },
        Some(e) => e,
    };
    assert(name@ =~= external_subset_name());
    let ghost t1 = dtd.paramEntities@;
    if useForeignDTD {
        let mut y = dtd.paramEntities.take_value(e, ENTITY::empty());
        y.base = match curBase {
            Some(b) => Some(crate::hashtable::copy_string(b)),
            None => None,
        };
        dtd.paramEntities.set_value(e, y);
        assert(dtd.paramEntities@ =~= t1.update(e as int, (t1[e as int].0, dtd.paramEntities@[e as int].1)));
    }
    dtd.paramEntityRead = false;
    Ok(Some(SubsetLoad { index: e, hadParamEntityRefs: had }))
}

/// The application has read the external subset (`handlerOk` false: it
/// failed, `XML_ERROR_EXTERNAL_ENTITY_HANDLING`): when it read declarations
/// a document that is not standalone is checked; when it read none and
/// there was no system identifier, the DTD counts as referring to
/// parameter entities only if it did before.
#[allow(non_snake_case)]
pub fn afterExternalSubset(
    dtd: &mut DTD,
    load: SubsetLoad,
    sysidGiven: bool,
    handlerOk: bool,
    hasNotStandaloneHandler: bool,
) -> (r: Result<PeRefAction, XmlError>)
    ensures
        after_subset_outcome(*old(dtd), *final(dtd), load, sysidGiven, handlerOk, hasNotStandaloneHandler, r),
{
    if !handlerOk {
        return Err(XmlError::XML_ERROR_EXTERNAL_ENTITY_HANDLING);
    }
    if dtd.paramEntityRead {
        return Ok(
            if !dtd.standalone && hasNotStandaloneHandler {
                PeRefAction::CheckStandalone
            } else {
                PeRefAction::Done
            },
        );
    }
    if !sysidGiven {
        dtd.hasParamEntityRefs = load.hadParamEntityRefs;
    }
    Ok(PeRefAction::Done)
}


/// What the prolog does at the end of the document type declaration, with
/// `allowClosingDoctype` telling whether the declaration may close at this
/// point (it may not inside a parameter entity): where it may not, the
/// token is `XML_ERROR_INVALID_TOKEN` and nothing changes. Otherwise the
/// external subset is handled as `externalSubsetAction` says; where there
/// is one (a system identifier, or a foreign DTD) and it is not handed to
/// the application, the request for a foreign DTD is spent.
#[allow(non_snake_case)]
pub fn doctypeClose(
    allowClosingDoctype: bool,
    dtd: &mut DTD,
    useForeignDTD: &mut bool,
    sysidGiven: bool,
    paramEntityParsing: bool,
    hasExternalHandler: bool,
    curBase: Option<&[u8]>,
) -> (r: Result<Option<SubsetLoad>, XmlError>)
    requires
        old(dtd).paramEntities.wf(),
    ensures
        final(dtd).paramEntities.wf(),
        !allowClosingDoctype ==> {
            &&& r == Err::<Option<SubsetLoad>, XmlError>(XmlError::XML_ERROR_INVALID_TOKEN)
            &&& *final(dtd) == *old(dtd)
            &&& *final(useForeignDTD) == *old(useForeignDTD)
        },
        allowClosingDoctype ==> {
            &&& subset_outcome(*old(dtd), *final(dtd), sysidGiven, *old(useForeignDTD), paramEntityParsing, hasExternalHandler, curBase, r)
            &&& *final(useForeignDTD) == if (sysidGiven || *old(useForeignDTD)) && r == Ok::<Option<SubsetLoad>, XmlError>(None) {
                false
            } else {
                *old(useForeignDTD)
            }
        },
{
    if !allowClosingDoctype {
        return Err(XmlError::XML_ERROR_INVALID_TOKEN);
    }
    let r = externalSubsetAction(dtd, sysidGiven, *useForeignDTD, paramEntityParsing, hasExternalHandler, curBase);
    if sysidGiven || *useForeignDTD {
        if let Ok(None) = r {
            *useForeignDTD = false;
        }
    }
    r
}

/// The application has read the external subset named at the end of the
/// document type declaration: as `afterExternalSubset` says, and where
/// nothing more is asked (`Done`), the request for a foreign DTD is spent.
#[allow(non_snake_case)]
pub fn afterDoctypeSubset(
    dtd: &mut DTD,
    useForeignDTD: &mut bool,
    load: SubsetLoad,
    sysidGiven: bool,
    handlerOk: bool,
    hasNotStandaloneHandler: bool,
) -> (r: Result<PeRefAction, XmlError>)
    ensures
        after_subset_outcome(*old(dtd), *final(dtd), load, sysidGiven, handlerOk, hasNotStandaloneHandler, r),
        *final(useForeignDTD) == if r == Ok::<PeRefAction, XmlError>(PeRefAction::Done) {
            false
        } else {
            *old(useForeignDTD)
        },
{
    let r = afterExternalSubset(dtd, load, sysidGiven, handlerOk, hasNotStandaloneHandler);
    if let Ok(PeRefAction::Done) = r {
        *useForeignDTD = false;
    }
    r
}

/// The application's answer on a document that is not standalone, after
/// the external subset of the document type declaration: no is
/// `XML_ERROR_NOT_STANDALONE`; yes spends the request for a foreign DTD.
#[allow(non_snake_case)]
pub fn doctypeStandaloneAnswer(ok: bool, useForeignDTD: &mut bool) -> (r: Result<(), XmlError>)
    ensures
        r == if ok {
            Ok::<(), XmlError>(())
        } else {
            Err::<(), XmlError>(XmlError::XML_ERROR_NOT_STANDALONE)
        },
        *final(useForeignDTD) == (*old(useForeignDTD) && !ok),
{
    let r = notStandaloneAnswer(ok);
    if ok {
        *useForeignDTD = false;
    }
    r
}

/// What the prolog does with the first start tag of the document: the
/// document element is read by the content processor, from that tag on.
/// Before that, with a foreign DTD asked for, it counts as the external
/// subset (`externalSubsetAction` with no system identifier): it may be
/// handed to the application to read, then `afterExternalSubset` and, where
/// it asks, the standalone question come first.
#[derive(PartialEq, Eq, Structural, Clone, Copy, Debug)]
pub enum InstanceStart {
    /// Content processing starts with this tag.
    Content,
    /// The foreign DTD is read first; content processing starts with this
    /// tag after it.
    LoadForeignDtd(SubsetLoad),
}

/// Take the first start tag of the document (`useForeignDTD`: the
/// application asked for a foreign DTD and no document type declaration
/// read it).
#[allow(non_snake_case)]
pub fn instanceStart(
    dtd: &mut DTD,
    useForeignDTD: bool,
    paramEntityParsing: bool,
    hasExternalHandler: bool,
    curBase: Option<&[u8]>,
) -> (r: Result<InstanceStart, XmlError>)
    requires
        old(dtd).paramEntities.wf(),
    ensures
        final(dtd).paramEntities.wf(),
        subset_outcome(
            *old(dtd),
            *final(dtd),
            false,
            useForeignDTD,
            paramEntityParsing,
            hasExternalHandler,
            curBase,
            match r {
                Ok(InstanceStart::Content) => Ok::<Option<SubsetLoad>, XmlError>(None),
                Ok(InstanceStart::LoadForeignDtd(l)) => Ok::<Option<SubsetLoad>, XmlError>(Some(l)),
                Err(e) => Err::<Option<SubsetLoad>, XmlError>(e),
            },
        ),
        (useForeignDTD && paramEntityParsing && hasExternalHandler) <==> !(r matches Ok(InstanceStart::Content)),
{
    match externalSubsetAction(dtd, false, useForeignDTD, paramEntityParsing, hasExternalHandler, curBase) {
        Ok(None) => Ok(InstanceStart::Content),
        Ok(Some(l)) => Ok(InstanceStart::LoadForeignDtd(l)),
        Err(e) => Err(e),
    }
}

/// The entity of the external subset, `#`, found or created in `dtd`'s
/// parameter entities.
fn subset_entity_index(dtd: &mut DTD) -> (r: Option<usize>)
    requires
        old(dtd).paramEntities.wf(),
    ensures
        final(dtd).paramEntities.wf(),
        same_declarations(*old(dtd), *final(dtd)),
        final(dtd).keepProcessing == old(dtd).keepProcessing,
        final(dtd).hasParamEntityRefs == old(dtd).hasParamEntityRefs,
        final(dtd).paramEntityRead == old(dtd).paramEntityRead,
        match r {
            Some(e) => {
                &&& e < final(dtd).paramEntities@.len()
                &&& final(dtd).paramEntities@[e as int].0 == external_subset_name()
                &&& if e < old(dtd).paramEntities@.len() {
                    final(dtd).paramEntities@ == old(dtd).paramEntities@
                } else {
                    &&& !has_name(old(dtd).paramEntities@, external_subset_name())
                    &&& final(dtd).paramEntities@.len() == old(dtd).paramEntities@.len() + 1
                    &&& final(dtd).paramEntities@.take(old(dtd).paramEntities@.len() as int) == old(dtd).paramEntities@
                    &&& subset_entity(None, final(dtd).paramEntities@[e as int].1, false, None)
                }
            },
            None => final(dtd).paramEntities@ == old(dtd).paramEntities@ && old(dtd).paramEntities.growth_blocked(),
        },
{
    let name: [u8; 1] = [0x23];
    assert(name@ =~= external_subset_name());
    let n = dtd.paramEntities.len();
    let r = dtd.paramEntities.lookup_create(&name, ENTITY::empty());
    match r {
        Some(e) => {
            if e >= n {
                assert(dtd.paramEntities@.take(n as int) =~= old(dtd).paramEntities@);
            }
        },
        None => {},
    }
    r
}

/// The document type declaration gives a public identifier: the DTD
/// counts as referring to parameter entities, and the entity of the
/// external subset, `#`, found or created, is the entity being declared
/// (its public identifier follows). `XML_ERROR_NO_MEMORY` when it cannot be
/// created.
#[allow(non_snake_case)]
pub fn roleDoctypePublicId(decl: &mut EntityDecl, dtd: &mut DTD) -> (r: Result<(), XmlError>)
    requires
        old(dtd).paramEntities.wf(),
    ensures
        final(dtd).paramEntities.wf(),
        same_declarations(*old(dtd), *final(dtd)),
        final(dtd).keepProcessing == old(dtd).keepProcessing,
        final(dtd).paramEntityRead == old(dtd).paramEntityRead,
        final(dtd).hasParamEntityRefs || r is Err,
        match r {
            Ok(()) => final(decl).declEntity matches Some(d) && d.is_param && d.index < final(dtd).paramEntities@.len()
                && final(dtd).paramEntities@[d.index as int].0 == external_subset_name()
                && old(dtd).paramEntities@.is_prefix_of(final(dtd).paramEntities@),
            Err(e) => e == XmlError::XML_ERROR_NO_MEMORY && final(dtd).paramEntities@ == old(dtd).paramEntities@
                && old(dtd).paramEntities.growth_blocked(),
        },
{
    match subset_entity_index(dtd) {
        None => Err(XmlError::XML_ERROR_NO_MEMORY),
        Some(e) => {
            decl.declEntity = Some(DeclEntity { is_param: true, index: e });
            dtd.hasParamEntityRefs = true;
            Ok(())
        },
    }
}

/// The document type declaration gives a system identifier: the DTD counts
/// as referring to parameter entities; when no entity is being declared
/// yet, the entity of the external subset, `#`, found or created (with no
/// public identifier), is (its system identifier follows). A document that
/// is not standalone and whose parameter entities are not parsed is
/// checked with the application. `XML_ERROR_NO_MEMORY` when the entity
/// cannot be created.
#[allow(non_snake_case)]
pub fn roleDoctypeSystemId(
    decl: &mut EntityDecl,
    dtd: &mut DTD,
    paramEntityParsing: bool,
    hasNotStandaloneHandler: bool,
) -> (r: Result<PeRefAction, XmlError>)
    requires
        old(dtd).paramEntities.wf(),
        old(decl).declEntity matches Some(d) ==> d.is_param && d.index < old(dtd).paramEntities@.len(),
    ensures
        final(dtd).paramEntities.wf(),
        same_declarations(*old(dtd), *final(dtd)),
        final(dtd).keepProcessing == old(dtd).keepProcessing,
        final(dtd).paramEntityRead == old(dtd).paramEntityRead,
        final(dtd).hasParamEntityRefs,
        old(decl).declEntity is Some ==> final(decl).declEntity == old(decl).declEntity && final(dtd).paramEntities@ == old(dtd).paramEntities@ && r == Ok::<PeRefAction, XmlError>(
            standalone_check(old(dtd).standalone || paramEntityParsing, hasNotStandaloneHandler),
        ),
        old(decl).declEntity is None ==> match r {
            Ok(a) => {
                &&& a == standalone_check(old(dtd).standalone || paramEntityParsing, hasNotStandaloneHandler)
                &&& final(decl).declEntity matches Some(d) && d.is_param && d.index < final(dtd).paramEntities@.len()
                    && final(dtd).paramEntities@[d.index as int].0 == external_subset_name()
                    && final(dtd).paramEntities@[d.index as int].1.publicId is None
                &&& final(dtd).paramEntities@.len() <= old(dtd).paramEntities@.len() + 1
                &&& forall|k: int|
                    0 <= k < old(dtd).paramEntities@.len() && k != final(decl).declEntity.unwrap().index ==> #[trigger] final(dtd).paramEntities@[k] == old(dtd).paramEntities@[k]
            },
            Err(e) => e == XmlError::XML_ERROR_NO_MEMORY && final(dtd).paramEntities@ == old(dtd).paramEntities@
                && old(dtd).paramEntities.growth_blocked(),
        },
{
    dtd.hasParamEntityRefs = true;
    if decl.declEntity.is_none() {
        let e = match subset_entity_index(dtd) {
            None => {
                return Err(XmlError::XML_ERROR_NO_MEMORY);
            },
            Some(e) => e,
        };
        let ghost t1 = dtd.paramEntities@;
        let mut y = dtd.paramEntities.take_value(e, ENTITY::empty());
        y.publicId = None;
        dtd.paramEntities.set_value(e, y);
        assert(dtd.paramEntities@ =~= t1.update(e as int, (t1[e as int].0, dtd.paramEntities@[e as int].1)));
        decl.declEntity = Some(DeclEntity { is_param: true, index: e });
    }
    Ok(
        if !dtd.standalone && !paramEntityParsing && hasNotStandaloneHandler {
            PeRefAction::CheckStandalone
        } else {
            PeRefAction::Done
        },
    )
}

} // verus!
