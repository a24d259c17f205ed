//! The entities a DTD declares: general and parameter entities, internal
//! (with their replacement text) or external (with their system and public
//! identifiers, and a notation when unparsed), and whether each is open.
use vstd::prelude::*;
use crate::errors::XmlError;
use crate::hashtable::{copy_string, HASH_TABLE};
use crate::text::{normalizePublicId, normalized_public_id};

verus! {

/// An entity: its replacement text (internal entities), its system
/// identifier, the base against which that resolves, its public identifier
/// and its notation (external entities); whether it is a parameter entity,
/// whether it was declared in the internal subset of the document, and
/// whether it is being expanded.
#[allow(non_camel_case_types)]
pub struct ENTITY {
    pub text: Option<Vec<u8>>,
    pub systemId: Option<Vec<u8>>,
    pub base: Option<Vec<u8>>,
    pub publicId: Option<Vec<u8>>,
    pub notation: Option<Vec<u8>>,
    pub is_param: bool,
    pub is_internal: bool,
    pub open: bool,
}

impl ENTITY {
    /// An entity with nothing declared yet.
    pub fn empty() -> (e: Self)
        ensures
            e.text is None,
            e.systemId is None,
            e.base is None,
            e.publicId is None,
            e.notation is None,
            !e.is_param,
            !e.is_internal,
            !e.open,
    {
        ENTITY {
            text: None,
            systemId: None,
            base: None,
            publicId: None,
            notation: None,
            is_param: false,
            is_internal: false,
            open: false,
        }
    }
}

/// The entity `x` with its open flag set to `b`.
pub open spec fn with_open(x: ENTITY, b: bool) -> ENTITY {
    ENTITY { open: b, ..x }
}

/// Bytes, if any, as a sequence.
pub open spec fn opt_view(v: Option<Vec<u8>>) -> Option<Seq<u8>> {
    match v {
        Some(x) => Some(x@),
        None => None,
    }
}

/// The names of the predefined entities: `amp`, `lt`, `gt`, `quot`,
/// `apos`.
pub open spec fn is_predefined(name: Seq<u8>) -> bool {
    ||| name == seq![0x61u8, 0x6du8, 0x70u8]
    ||| name == seq![0x6cu8, 0x74u8]
    ||| name == seq![0x67u8, 0x74u8]
    ||| name == seq![0x71u8, 0x75u8, 0x6fu8, 0x74u8]
    ||| name == seq![0x61u8, 0x70u8, 0x6fu8, 0x73u8]
}

fn predefined(name: &[u8]) -> (r: bool)
    ensures
        r == is_predefined(name@),
{
    let r = (name.len() == 3 && name[0] == 0x61 && name[1] == 0x6d && name[2] == 0x70) || (name.len() == 2
        && name[0] == 0x6c && name[1] == 0x74) || (name.len() == 2 && name[0] == 0x67 && name[1] == 0x74) || (
    name.len() == 4 && name[0] == 0x71 && name[1] == 0x75 && name[2] == 0x6f && name[3] == 0x74) || (name.len()
        == 4 && name[0] == 0x61 && name[1] == 0x70 && name[2] == 0x6f && name[3] == 0x73);
    proof {
        if name@ == seq![0x61u8, 0x6du8, 0x70u8] || name@ == seq![0x6cu8, 0x74u8] || name@ == seq![0x67u8, 0x74u8]
            || name@ == seq![0x71u8, 0x75u8, 0x6fu8, 0x74u8] || name@ == seq![0x61u8, 0x70u8, 0x6fu8, 0x73u8] {
            assert(name@.len() > 0);
        }
        if r {
            if name.len() == 3 {
                assert(name@ =~= seq![0x61u8, 0x6du8, 0x70u8]);
            } else if name.len() == 4 && name[0] == 0x71 {
                assert(name@ =~= seq![0x71u8, 0x75u8, 0x6fu8, 0x74u8]);
            } else if name.len() == 4 {
                assert(name@ =~= seq![0x61u8, 0x70u8, 0x6fu8, 0x73u8]);
            } else if name[0] == 0x6c {
                assert(name@ =~= seq![0x6cu8, 0x74u8]);
            } else {
                assert(name@ =~= seq![0x67u8, 0x74u8]);
            }
        }
    }
    r
}

fn copy_opt(v: &Option<Vec<u8>>) -> (r: Option<Vec<u8>>)
    ensures
        opt_view(r) == opt_view(*v),
{
    match v {
        Some(x) => Some(copy_string(x.as_slice())),
        None => None,
    }
}

/// The entity being declared: a parameter entity or a general one, by its
/// index in its table.
#[derive(PartialEq, Eq, Structural, Clone, Copy, Debug)]
pub struct DeclEntity {
    pub is_param: bool,
    pub index: usize,
}

/// The entity declaration being read; `None` when there is no entity to
/// fill in (a predefined or already declared name, or a DTD that is no
/// longer processed).
#[allow(non_snake_case)]
pub struct EntityDecl {
    pub declEntity: Option<DeclEntity>,
}

/// An entity declaration as reported to the application.
#[allow(non_snake_case)]
pub enum EntityEvent {
    /// A parsed entity: internal with its value, or external.
    EntityDecl {
        name: Vec<u8>,
        is_param: bool,
        value: Option<Vec<u8>>,
        base: Option<Vec<u8>>,
        systemId: Option<Vec<u8>>,
        publicId: Option<Vec<u8>>,
        notation: Option<Vec<u8>>,
    },
    /// An unparsed entity, with its notation.
    UnparsedEntityDecl {
        name: Vec<u8>,
        base: Option<Vec<u8>>,
        systemId: Option<Vec<u8>>,
        publicId: Option<Vec<u8>>,
        notationName: Vec<u8>,
    },
}

/// `ev` reports the entity `x` named `name` as a parsed entity, with the
/// value `value`.
pub open spec fn entity_decl_is(ev: EntityEvent, name: Seq<u8>, x: ENTITY, value: Option<Seq<u8>>) -> bool {
    match ev {
        EntityEvent::EntityDecl { name: n, is_param, value: v, base, systemId, publicId, notation } => {
            &&& n@ == name
            &&& is_param == x.is_param
            &&& opt_view(v) == value
            &&& opt_view(base) == opt_view(x.base)
            &&& opt_view(systemId) == opt_view(x.systemId)
            &&& opt_view(publicId) == opt_view(x.publicId)
            &&& opt_view(notation) == opt_view(x.notation)
        },
        _ => false,
    }
}

/// The entity table `f` is `o` with the record `i` (if any) changed to what
/// `f` holds, its name kept.
pub open spec fn changed_at(o: Seq<(Seq<u8>, ENTITY)>, f: Seq<(Seq<u8>, ENTITY)>, i: int) -> bool {
    &&& f.len() == o.len()
    &&& forall|k: int| 0 <= k < o.len() && k != i ==> #[trigger] f[k] == o[k]
    &&& 0 <= i < o.len() ==> f[i].0 == o[i].0
}

impl EntityDecl {
    /// No entity being declared.
    pub fn new() -> (d: Self)
        ensures
            d.declEntity is None,
    {
        EntityDecl { declEntity: None }
    }

    /// The name of a general entity being declared: a predefined name is
    /// ignored; a name already declared keeps its first declaration; a new
    /// name is added to `general` (declared in the document's internal
    /// subset when `inInternalSubset`). Nothing is declared once the DTD is
    /// no longer processed. `XML_ERROR_NO_MEMORY` when the table cannot
    /// grow.
    #[allow(non_snake_case)]
    pub fn roleGeneralEntityName(
        &mut self,
        general: &mut HASH_TABLE<ENTITY>,
        name: &[u8],
        keepProcessing: bool,
        inInternalSubset: bool,
    ) -> (r: Result<(), XmlError>)
        requires
            old(general).wf(),
        ensures
            final(general).wf(),
            name_role_outcome(
                old(general)@,
                final(general)@,
                name@,
                is_predefined(name@) || !keepProcessing,
                false,
                inInternalSubset,
                final(self).declEntity,
                r,
                old(general).growth_blocked(),
            ),
    {
        if predefined(name) || !keepProcessing {
            self.declEntity = None;
            return Ok(());
        }
        self.declare(general, name, false, inInternalSubset)
    }

    /// The name of a parameter entity being declared: a name already
    /// declared keeps its first declaration; a new name is added to
    /// `params`. Nothing is declared once the DTD is no longer processed.
    /// `XML_ERROR_NO_MEMORY` when the table cannot grow.
    #[allow(non_snake_case)]
    pub fn roleParamEntityName(
        &mut self,
        params: &mut HASH_TABLE<ENTITY>,
        name: &[u8],
        keepProcessing: bool,
        inInternalSubset: bool,
    ) -> (r: Result<(), XmlError>)
        requires
            old(params).wf(),
        ensures
            final(params).wf(),
            name_role_outcome(
                old(params)@,
                final(params)@,
                name@,
                !keepProcessing,
                true,
                inInternalSubset,
                final(self).declEntity,
                r,
                old(params).growth_blocked(),
            ),
    {
        if !keepProcessing {
            self.declEntity = None;
            return Ok(());
        }
        self.declare(params, name, true, inInternalSubset)
    }

    fn declare(&mut self, table: &mut HASH_TABLE<ENTITY>, name: &[u8], is_param: bool, inInternalSubset: bool) -> (r:
        Result<(), XmlError>)
        requires
            old(table).wf(),
        ensures
            final(table).wf(),
            name_role_outcome(
                old(table)@,
                final(table)@,
                name@,
                false,
                is_param,
                inInternalSubset,
                final(self).declEntity,
                r,
                old(table).growth_blocked(),
            ),
    {
        let n = table.len();
        let mut fresh = ENTITY::empty();
        fresh.is_param = is_param;
        fresh.is_internal = inInternalSubset;
        match table.lookup_create(name, fresh) {
            None => {
                self.declEntity = None;
                Err(XmlError::XML_ERROR_NO_MEMORY)
            },
            Some(e) => {
                if e < n {
                    proof {
                        assert(old(table)@[e as int].0 == name@);
                    }
                    self.declEntity = None;
                } else {
                    assert(table@.take(n as int) =~= old(table)@);
                    self.declEntity = Some(DeclEntity { is_param, index: e });
                }
                Ok(())
            },
        }
    }
}

/// What the name of an entity declaration does to the table `o` (giving
/// `f`), to the entity being declared `d` and to the result `r`: nothing
/// when the name is `ignored` or already declared (the first declaration
/// binds); else a new entity of the kind `is_param`, declared in the
/// internal subset when `internal`; `XML_ERROR_NO_MEMORY` only when the
/// table cannot grow (`blocked`).
pub open spec fn name_role_outcome(
    o: Seq<(Seq<u8>, ENTITY)>,
    f: Seq<(Seq<u8>, ENTITY)>,
    name: Seq<u8>,
    ignored: bool,
    is_param: bool,
    internal: bool,
    d: Option<DeclEntity>,
    r: Result<(), XmlError>,
    blocked: bool,
) -> bool {
    if ignored || (exists|e: int| 0 <= e < o.len() && #[trigger] o[e].0 == name) {
        &&& r is Ok
        &&& f == o
        &&& d is None
    } else {
        match r {
            Ok(()) => {
                &&& f.len() == o.len() + 1
                &&& f.take(o.len() as int) == o
                &&& f.last().0 == name
                &&& new_entity(f.last().1, is_param, internal)
                &&& d == Some(DeclEntity { is_param, index: o.len() as usize })
            },
            Err(e) => e == XmlError::XML_ERROR_NO_MEMORY && f == o && blocked,
        }
    }
}

/// The first declaration of a general entity binds: declaring a name that
/// is already declared fills in no entity, so what follows in the
/// declaration changes neither entity table.
pub proof fn lemma_entity_redeclaration_ignored(
    og: Seq<(Seq<u8>, ENTITY)>,
    g1: Seq<(Seq<u8>, ENTITY)>,
    g2: Seq<(Seq<u8>, ENTITY)>,
    op: Seq<(Seq<u8>, ENTITY)>,
    p2: Seq<(Seq<u8>, ENTITY)>,
    name: Seq<u8>,
    ignored: bool,
    internal: bool,
    d: Option<DeclEntity>,
    r: Result<(), XmlError>,
    blocked: bool,
    keep: bool,
    eff: spec_fn(ENTITY, ENTITY) -> bool,
)
    requires
        exists|e: int| 0 <= e < og.len() && #[trigger] og[e].0 == name,
        name_role_outcome(og, g1, name, ignored, false, internal, d, r, blocked),
        decl_updated(g1, g2, op, p2, d, keep, eff),
    ensures
        r is Ok,
        g2 == og,
        p2 == op,
{
}

/// A newly declared entity: nothing but its kind and where it was declared.
pub open spec fn new_entity(x: ENTITY, is_param: bool, is_internal: bool) -> bool {
    &&& x.text is None
    &&& x.systemId is None
    &&& x.base is None
    &&& x.publicId is None
    &&& x.notation is None
    &&& x.is_param == is_param
    &&& x.is_internal == is_internal
    &&& !x.open
}

/// The entity tables `fg` (general) and `fp` (parameter) are `og` and `op`
/// with the entity being declared, `d`, changed as `eff` says, when the DTD
/// is still processed (`keep`); otherwise they are unchanged.
pub open spec fn decl_updated(
    og: Seq<(Seq<u8>, ENTITY)>,
    fg: Seq<(Seq<u8>, ENTITY)>,
    op: Seq<(Seq<u8>, ENTITY)>,
    fp: Seq<(Seq<u8>, ENTITY)>,
    d: Option<DeclEntity>,
    keep: bool,
    eff: spec_fn(ENTITY, ENTITY) -> bool,
) -> bool {
    match d {
        Some(de) => if !keep {
            fg == og && fp == op
        } else if de.is_param {
            &&& fg == og
            &&& changed_at(op, fp, de.index as int)
            &&& eff(op[de.index as int].1, fp[de.index as int].1)
        } else {
            &&& fp == op
            &&& changed_at(og, fg, de.index as int)
            &&& eff(og[de.index as int].1, fg[de.index as int].1)
        },
        None => fg == og && fp == op,
    }
}

/// The entity being declared, if any, names a record of its table.
pub open spec fn decl_valid(d: Option<DeclEntity>, general: HASH_TABLE<ENTITY>, params: HASH_TABLE<ENTITY>) -> bool {
    d matches Some(de) ==> if de.is_param {
        de.index < params@.len()
    } else {
        de.index < general@.len()
    }
}

/// The record `i` of the table `t` after `x` is put back in it.
proof fn lemma_put_back(o: Seq<(Seq<u8>, ENTITY)>, f: Seq<(Seq<u8>, ENTITY)>, i: int, x: ENTITY)
    requires
        0 <= i < o.len(),
        f == o.update(i, (o[i].0, x)),
    ensures
        changed_at(o, f, i),
        f[i].1 == x,
{
}

impl EntityDecl {
    /// The declaration gives the replacement text `value` of an internal
    /// entity: it is stored in the entity being declared, and reported when
    /// the application takes entity declarations (with the base `curBase`).
    #[allow(non_snake_case)]
    pub fn roleEntityValue(
        &self,
        general: &mut HASH_TABLE<ENTITY>,
        params: &mut HASH_TABLE<ENTITY>,
        value: &[u8],
        curBase: Option<&[u8]>,
        keepProcessing: bool,
        hasHandler: bool,
    ) -> (r: Option<EntityEvent>)
        requires
            old(general).wf(),
            old(params).wf(),
            decl_valid(self.declEntity, *old(general), *old(params)),
        ensures
            final(general).wf(),
            final(params).wf(),
            decl_updated(
                old(general)@,
                final(general)@,
                old(params)@,
                final(params)@,
                self.declEntity,
                keepProcessing,
                |o: ENTITY, f: ENTITY| f == ENTITY { text: f.text, ..o } && opt_view(f.text) == Some(value@),
            ),
            match r {
                None => !(keepProcessing && hasHandler && self.declEntity is Some),
                Some(ev) => keepProcessing && hasHandler && (self.declEntity matches Some(de) && ({
                    let name = if de.is_param {
                        old(params)@[de.index as int].0
                    } else {
                        old(general)@[de.index as int].0
                    };
                    &&& ev is EntityDecl
                    &&& ev->EntityDecl_name@ == name
                    &&& ev->EntityDecl_is_param == de.is_param
                    &&& opt_view(ev->EntityDecl_value) == Some(value@)
                    &&& opt_view(ev->EntityDecl_base) == match curBase {
                        Some(b) => Some(b@),
                        None => None,
                    }
                    &&& ev->EntityDecl_systemId is None
                    &&& ev->EntityDecl_publicId is None
                    &&& ev->EntityDecl_notation is None
                })),
            },
    {
        if !keepProcessing {
            return None;
        }
        let d = match self.declEntity {
            None => {
                return None;
            },
            Some(d) => d,
        };
        let ghost og = general@;
        let ghost op = params@;
        let name = if d.is_param {
            let mut x = params.take_value(d.index, ENTITY::empty());
            x.text = Some(copy_string(value));
            let ghost xv = x;
            params.set_value(d.index, x);
            proof {
                assert(params@ =~= op.update(d.index as int, (op[d.index as int].0, xv)));
                lemma_put_back(op, params@, d.index as int, xv);
            }
            copy_string(params.name(d.index))
        } else {
            let mut x = general.take_value(d.index, ENTITY::empty());
            x.text = Some(copy_string(value));
            let ghost xv = x;
            general.set_value(d.index, x);
            proof {
                assert(general@ =~= og.update(d.index as int, (og[d.index as int].0, xv)));
                lemma_put_back(og, general@, d.index as int, xv);
            }
            copy_string(general.name(d.index))
        };
        if !hasHandler {
            return None;
        }
        let base = match curBase {
            Some(b) => Some(copy_string(b)),
            None => None,
        };
        Some(
            EntityEvent::EntityDecl {
                name,
                is_param: d.is_param,
                value: Some(copy_string(value)),
                base,
                systemId: None,
                publicId: None,
                notation: None,
            },
        )
    }

    /// The declaration gives the system identifier of an external entity:
    /// it is stored in the entity being declared, with the base `curBase`
    /// against which it resolves.
    #[allow(non_snake_case)]
    pub fn roleEntitySystemId(
        &self,
        general: &mut HASH_TABLE<ENTITY>,
        params: &mut HASH_TABLE<ENTITY>,
        systemId: &[u8],
        curBase: Option<&[u8]>,
        keepProcessing: bool,
    )
        requires
            old(general).wf(),
            old(params).wf(),
            decl_valid(self.declEntity, *old(general), *old(params)),
        ensures
            final(general).wf(),
            final(params).wf(),
            decl_updated(
                old(general)@,
                final(general)@,
                old(params)@,
                final(params)@,
                self.declEntity,
                keepProcessing,
                |o: ENTITY, f: ENTITY|
                    f == ENTITY { systemId: f.systemId, base: f.base, ..o } && opt_view(f.systemId) == Some(
                        systemId@,
                    ) && opt_view(f.base) == match curBase {
                        Some(b) => Some(b@),
                        None => None,
                    },
            ),
    {
        if !keepProcessing {
            return;
        }
        let d = match self.declEntity {
            None => {
                return;
            },
            Some(d) => d,
        };
        let ghost og = general@;
        let ghost op = params@;
        let base = match curBase {
            Some(b) => Some(copy_string(b)),
            None => None,
        };
        if d.is_param {
            let mut x = params.take_value(d.index, ENTITY::empty());
            x.systemId = Some(copy_string(systemId));
            x.base = base;
            let ghost xv = x;
            params.set_value(d.index, x);
            proof {
                assert(params@ =~= op.update(d.index as int, (op[d.index as int].0, xv)));
                lemma_put_back(op, params@, d.index as int, xv);
            }
        } else {
            let mut x = general.take_value(d.index, ENTITY::empty());
            x.systemId = Some(copy_string(systemId));
            x.base = base;
            let ghost xv = x;
            general.set_value(d.index, x);
            proof {
                assert(general@ =~= og.update(d.index as int, (og[d.index as int].0, xv)));
                lemma_put_back(og, general@, d.index as int, xv);
            }
        }
    }

    /// The declaration gives the public identifier of an external entity:
    /// it is stored, normalised, in the entity being declared.
    #[allow(non_snake_case)]
    pub fn roleEntityPublicId(
        &self,
        general: &mut HASH_TABLE<ENTITY>,
        params: &mut HASH_TABLE<ENTITY>,
        publicId: &[u8],
        keepProcessing: bool,
    )
        requires
            old(general).wf(),
            old(params).wf(),
            decl_valid(self.declEntity, *old(general), *old(params)),
        ensures
            final(general).wf(),
            final(params).wf(),
            decl_updated(
                old(general)@,
                final(general)@,
                old(params)@,
                final(params)@,
                self.declEntity,
                keepProcessing,
                |o: ENTITY, f: ENTITY|
                    f == ENTITY { publicId: f.publicId, ..o } && opt_view(f.publicId) == Some(
                        normalized_public_id(publicId@),
                    ),
            ),
    {
        if !keepProcessing {
            return;
        }
        let d = match self.declEntity {
            None => {
                return;
            },
            Some(d) => d,
        };
        let ghost og = general@;
        let ghost op = params@;
        let mut p = copy_string(publicId);
        normalizePublicId(&mut p);
        if d.is_param {
            let mut x = params.take_value(d.index, ENTITY::empty());
            x.publicId = Some(p);
            let ghost xv = x;
            params.set_value(d.index, x);
            proof {
                assert(params@ =~= op.update(d.index as int, (op[d.index as int].0, xv)));
                lemma_put_back(op, params@, d.index as int, xv);
            }
        } else {
            let mut x = general.take_value(d.index, ENTITY::empty());
            x.publicId = Some(p);
            let ghost xv = x;
            general.set_value(d.index, x);
            proof {
                assert(general@ =~= og.update(d.index as int, (og[d.index as int].0, xv)));
                lemma_put_back(og, general@, d.index as int, xv);
            }
        }
    }

    /// The declaration gives the notation of an unparsed entity: it is
    /// stored in the entity being declared, which is reported as unparsed
    /// when the application takes unparsed entity declarations, else as an
    /// entity with a notation when it takes entity declarations.
    #[allow(non_snake_case)]
    pub fn roleEntityNotationName(
        &self,
        general: &mut HASH_TABLE<ENTITY>,
        params: &mut HASH_TABLE<ENTITY>,
        notation: &[u8],
        keepProcessing: bool,
        hasUnparsedHandler: bool,
        hasHandler: bool,
    ) -> (r: Option<EntityEvent>)
        requires
            old(general).wf(),
            old(params).wf(),
            decl_valid(self.declEntity, *old(general), *old(params)),
        ensures
            final(general).wf(),
            final(params).wf(),
            decl_updated(
                old(general)@,
                final(general)@,
                old(params)@,
                final(params)@,
                self.declEntity,
                keepProcessing,
                |o: ENTITY, f: ENTITY| f == ENTITY { notation: f.notation, ..o } && opt_view(f.notation) == Some(notation@),
            ),
            match r {
                None => !(keepProcessing && (hasUnparsedHandler || hasHandler) && self.declEntity is Some),
                Some(ev) => keepProcessing && (hasUnparsedHandler || hasHandler) && (self.declEntity matches Some(
                    de,
                ) && ({
                    let (name, x) = if de.is_param {
                        final(params)@[de.index as int]
                    } else {
                        final(general)@[de.index as int]
                    };
                    if hasUnparsedHandler {
                        &&& ev is UnparsedEntityDecl
                        &&& ev->UnparsedEntityDecl_name@ == name
                        &&& opt_view(ev->UnparsedEntityDecl_base) == opt_view(x.base)
                        &&& opt_view(ev->UnparsedEntityDecl_systemId) == opt_view(x.systemId)
                        &&& opt_view(ev->UnparsedEntityDecl_publicId) == opt_view(x.publicId)
                        &&& ev->UnparsedEntityDecl_notationName@ == notation@
                    } else {
                        &&& ev is EntityDecl
                        &&& ev->EntityDecl_name@ == name
                        &&& !ev->EntityDecl_is_param
                        &&& ev->EntityDecl_value is None
                        &&& opt_view(ev->EntityDecl_base) == opt_view(x.base)
                        &&& opt_view(ev->EntityDecl_systemId) == opt_view(x.systemId)
                        &&& opt_view(ev->EntityDecl_publicId) == opt_view(x.publicId)
                        &&& opt_view(ev->EntityDecl_notation) == Some(notation@)
                    }
                })),
            },
    {
        if !keepProcessing {
            return None;
        }
        let d = match self.declEntity {
            None => {
                return None;
            },
            Some(d) => d,
        };
        let ghost og = general@;
        let ghost op = params@;
        if d.is_param {
            let mut x = params.take_value(d.index, ENTITY::empty());
            x.notation = Some(copy_string(notation));
            let ghost xv = x;
            params.set_value(d.index, x);
            proof {
                assert(params@ =~= op.update(d.index as int, (op[d.index as int].0, xv)));
                lemma_put_back(op, params@, d.index as int, xv);
            }
        } else {
            let mut x = general.take_value(d.index, ENTITY::empty());
            x.notation = Some(copy_string(notation));
            let ghost xv = x;
            general.set_value(d.index, x);
            proof {
                assert(general@ =~= og.update(d.index as int, (og[d.index as int].0, xv)));
                lemma_put_back(og, general@, d.index as int, xv);
            }
        }
        if !hasUnparsedHandler && !hasHandler {
            return None;
        }
        let (name, x) = if d.is_param {
            (params.name(d.index), params.value(d.index))
        } else {
            (general.name(d.index), general.value(d.index))
        };
        if hasUnparsedHandler {
            Some(
                EntityEvent::UnparsedEntityDecl {
                    name: copy_string(name),
                    base: copy_opt(&x.base),
                    systemId: copy_opt(&x.systemId),
                    publicId: copy_opt(&x.publicId),
                    notationName: copy_string(notation),
                },
            )
        } else {
            Some(
                EntityEvent::EntityDecl {
                    name: copy_string(name),
                    is_param: false,
                    value: None,
                    base: copy_opt(&x.base),
                    systemId: copy_opt(&x.systemId),
                    publicId: copy_opt(&x.publicId),
                    notation: Some(copy_string(notation)),
                },
            )
        }
    }

    /// The declaration of an external parsed entity is complete: it is
    /// reported when the application takes entity declarations.
    #[allow(non_snake_case)]
    pub fn roleEntityComplete(
        &self,
        general: &HASH_TABLE<ENTITY>,
        params: &HASH_TABLE<ENTITY>,
        keepProcessing: bool,
        hasHandler: bool,
    ) -> (r: Option<EntityEvent>)
        requires
            general.wf(),
            params.wf(),
            decl_valid(self.declEntity, *general, *params),
        ensures
            match r {
                None => !(keepProcessing && hasHandler && self.declEntity is Some),
                Some(ev) => keepProcessing && hasHandler && (self.declEntity matches Some(de) && ({
                    let (name, x) = if de.is_param {
                        params@[de.index as int]
                    } else {
                        general@[de.index as int]
                    };
                    &&& ev is EntityDecl
                    &&& ev->EntityDecl_name@ == name
                    &&& ev->EntityDecl_is_param == x.is_param
                    &&& ev->EntityDecl_value is None
                    &&& opt_view(ev->EntityDecl_base) == opt_view(x.base)
                    &&& opt_view(ev->EntityDecl_systemId) == opt_view(x.systemId)
                    &&& opt_view(ev->EntityDecl_publicId) == opt_view(x.publicId)
                    &&& ev->EntityDecl_notation is None
                })),
            },
    {
        if !keepProcessing || !hasHandler {
            return None;
        }
        let d = match self.declEntity {
            None => {
                return None;
            },
            Some(d) => d,
        };
        let (name, x) = if d.is_param {
            (params.name(d.index), params.value(d.index))
        } else {
            (general.name(d.index), general.value(d.index))
        };
        Some(
            EntityEvent::EntityDecl {
                name: copy_string(name),
                is_param: x.is_param,
                value: None,
                base: copy_opt(&x.base),
                systemId: copy_opt(&x.systemId),
                publicId: copy_opt(&x.publicId),
                notation: None,
            },
        )
    }
}

} // verus!
