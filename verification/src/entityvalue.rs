//! The replacement text of an internal entity, from the pieces that the
//! tokenizer reads in its literal: character data and general entity
//! references are kept as they stand, line ends become line feeds,
//! character references are encoded in UTF-8, and references to parameter
//! entities are expanded, skipped or refused.
use vstd::prelude::*;
use crate::attvalue::{utf8_encode, XmlUtf8Encode};
use crate::dtdcopy::DTD;
use crate::entities::{with_open, ENTITY};
use crate::errors::XmlError;
use crate::storeatts::{has_name, record_named};

verus! {

/// The line feed character.
pub const LINE_FEED: u8 = 0x0a;

/// A piece of an entity value literal.
pub enum ValuePiece {
    /// Characters, or a reference to a general entity, kept as they stand
    /// (UTF-8).
    Data(Vec<u8>),
    /// A line end.
    Newline,
    /// A character reference, by the number it names (negative when it
    /// names no character).
    CharRef(i32),
    /// A reference to the parameter entity of that name.
    ParamRef(Vec<u8>),
    /// A token that the literal ends in the middle of.
    Partial,
    /// Bytes that are no token.
    Invalid,
}

/// A piece as bytes and numbers.
pub enum ValuePieceV {
    Data(Seq<u8>),
    Newline,
    CharRef(i32),
    ParamRef(Seq<u8>),
    Partial,
    Invalid,
}

impl ValuePiece {
    pub open spec fn view(&self) -> ValuePieceV {
        match self {
            ValuePiece::Data(d) => ValuePieceV::Data(d@),
            ValuePiece::Newline => ValuePieceV::Newline,
            ValuePiece::CharRef(n) => ValuePieceV::CharRef(*n),
            ValuePiece::ParamRef(n) => ValuePieceV::ParamRef(n@),
            ValuePiece::Partial => ValuePieceV::Partial,
            ValuePiece::Invalid => ValuePieceV::Invalid,
        }
    }
}

/// The pieces as bytes and numbers.
pub open spec fn value_pieces_view(p: Seq<ValuePiece>) -> Seq<ValuePieceV> {
    Seq::new(p.len(), |i: int| p[i]@)
}

/// What a reference to a parameter entity in an entity value leads to.
#[derive(PartialEq, Eq, Structural, Clone, Copy, Debug)]
pub enum ValueRefAction {
    /// The entity is not declared: it is skipped, and the DTD is no longer
    /// processed unless the document is standalone.
    Undeclared,
    /// The entity is external and the application reads no external
    /// entities: it is skipped, and the DTD is no longer processed unless
    /// the document is standalone.
    Unread,
    /// The replacement text of the internal entity `index` is read into the
    /// value.
    ProcessInternal { index: usize },
    /// The external entity `index`, now open, is handed to the application
    /// to read.
    LoadExternal { index: usize },
}

/// What a reference to the parameter entity `name` in an entity value
/// leads to, in the parameter entity table `t`, where `declParam` is the
/// parameter entity being declared, and references are allowed only in an
/// external entity (`peRefsAllowed`).
pub open spec fn pe_ref_outcome(
    t: Seq<(Seq<u8>, ENTITY)>,
    name: Seq<u8>,
    declParam: Option<usize>,
    peRefsAllowed: bool,
    hasExternalHandler: bool,
) -> Result<ValueRefAction, XmlError> {
    let e = record_named(t, name);
    if !peRefsAllowed {
        Err(XmlError::XML_ERROR_PARAM_ENTITY_REF)
    } else if !has_name(t, name) {
        Ok(ValueRefAction::Undeclared)
    } else if t[e].1.open || declParam == Some(e as usize) {
        Err(XmlError::XML_ERROR_RECURSIVE_ENTITY_REF)
    } else if t[e].1.systemId is None {
        Ok(ValueRefAction::ProcessInternal { index: e as usize })
    } else if hasExternalHandler {
        Ok(ValueRefAction::LoadExternal { index: e as usize })
    } else {
        Ok(ValueRefAction::Unread)
    }
}

/// `f` is `o` with at most the flags of the DTD and the parameter entities
/// changed.
pub open spec fn same_tables(o: DTD, f: DTD) -> bool {
    &&& f.elementTypes == o.elementTypes
    &&& f.attributeIds == o.attributeIds
    &&& f.generalEntities == o.generalEntities
    &&& f.standalone == o.standalone
    &&& f.hasParamEntityRefs == o.hasParamEntityRefs
}

/// What taking the reference with outcome `r` does to the DTD `o`.
pub open spec fn after_pe_ref(o: DTD, f: DTD, r: Result<ValueRefAction, XmlError>) -> bool {
    &&& same_tables(o, f)
    &&& match r {
        Ok(ValueRefAction::Undeclared) | Ok(ValueRefAction::Unread) => {
            &&& f.keepProcessing == o.standalone
            &&& f.paramEntities@ == o.paramEntities@
            &&& f.paramEntityRead == o.paramEntityRead
        },
        Ok(ValueRefAction::LoadExternal { index }) => {
            let t = o.paramEntities@;
            &&& f.keepProcessing == o.keepProcessing
            &&& f.paramEntities@ == t.update(index as int, (t[index as int].0, with_open(t[index as int].1, true)))
            &&& !f.paramEntityRead
        },
        _ => {
            &&& f.keepProcessing == o.keepProcessing
            &&& f.paramEntities@ == o.paramEntities@
            &&& f.paramEntityRead == o.paramEntityRead
        },
    }
}

/// Take a reference to the parameter entity `name` in an entity value. In
/// the document entity's internal subset (`peRefsAllowed` false) it is
/// `XML_ERROR_PARAM_ENTITY_REF`; an entity that is open, or that is being
/// declared, is `XML_ERROR_RECURSIVE_ENTITY_REF`; an undeclared one is
/// skipped, an internal one is expanded, and an external one is read by the
/// application or skipped.
#[allow(non_snake_case)]
pub fn entityValueRefAction(
    dtd: &mut DTD,
    name: &[u8],
    declParam: Option<usize>,
    peRefsAllowed: bool,
    hasExternalHandler: bool,
) -> (r: Result<ValueRefAction, XmlError>)
    requires
        old(dtd).paramEntities.wf(),
    ensures
        final(dtd).paramEntities.wf(),
        r == pe_ref_outcome(old(dtd).paramEntities@, name@, declParam, peRefsAllowed, hasExternalHandler),
        after_pe_ref(*old(dtd), *final(dtd), r),
{
    if !peRefsAllowed {
        return Err(XmlError::XML_ERROR_PARAM_ENTITY_REF);
    }
    let ghost t = dtd.paramEntities@;
    let found = dtd.paramEntities.lookup(name);
    proof {
        match found {
            Some(e) => {
                crate::storeatts::lemma_record_named(dtd.paramEntities, e as int);
            },
            None => {
                assert(!has_name(t, name@));
            },
        }
    }
    let e = match found {
        None => {
            dtd.keepProcessing = dtd.standalone;
            return Ok(ValueRefAction::Undeclared);
        },
        Some(e) => e,
    };
    let x = dtd.paramEntities.value(e);
    if x.open || declParam == Some(e) {
        return Err(XmlError::XML_ERROR_RECURSIVE_ENTITY_REF);
    }
    if x.systemId.is_none() {
        return Ok(ValueRefAction::ProcessInternal { index: e });
    }
    if hasExternalHandler {
        dtd.paramEntityRead = false;
        let mut y = dtd.paramEntities.take_value(e, ENTITY::empty());
        y.open = true;
        let ghost yv = y;
        dtd.paramEntities.set_value(e, y);
        proof {
            assert(yv == with_open(t[e as int].1, true));
            assert(dtd.paramEntities@ =~= t.update(e as int, (t[e as int].0, with_open(t[e as int].1, true))));
        }
        return Ok(ValueRefAction::LoadExternal { index: e });
    }
    dtd.keepProcessing = dtd.standalone;
    Ok(ValueRefAction::Unread)
}

/// Where reading the pieces of an entity value stopped without an error.
#[derive(PartialEq, Eq, Structural, Clone, Copy, Debug)]
pub enum ValueStop {
    /// Every piece was read.
    Done,
    /// The internal parameter entity `index` is to be expanded; reading
    /// goes on at piece `next` afterwards.
    ProcessInternal { index: usize, next: usize },
    /// The external parameter entity `index`, now open, is to be read by
    /// the application; reading goes on at piece `next` afterwards.
    LoadExternal { index: usize, next: usize },
}

/// What reading pieces has given so far: the bytes of the value, whether a
/// parameter entity was skipped, and where reading stopped, if it did (an
/// error with the piece that caused it).
pub struct ScanState {
    pub acc: Seq<u8>,
    pub skipped: bool,
    pub end: Option<Result<ValueStop, (XmlError, usize)>>,
}

/// The state after reading the pieces `start..n` of `pv`, with the
/// parameter entity table `t`.
pub open spec fn value_scan(
    pv: Seq<ValuePieceV>,
    t: Seq<(Seq<u8>, ENTITY)>,
    declParam: Option<usize>,
    peRefsAllowed: bool,
    hasExternalHandler: bool,
    start: int,
    n: int,
) -> ScanState
    decreases n - start,
{
    if n <= start {
        ScanState { acc: Seq::empty(), skipped: false, end: None }
    } else {
        let s = value_scan(pv, t, declParam, peRefsAllowed, hasExternalHandler, start, n - 1);
        if s.end is Some {
            s
        } else {
            match pv[n - 1] {
                ValuePieceV::Data(d) => ScanState { acc: s.acc + d, ..s },
                ValuePieceV::Newline => ScanState { acc: s.acc.push(LINE_FEED), ..s },
                ValuePieceV::CharRef(c) => if c < 0 {
                    ScanState { end: Some(Err((XmlError::XML_ERROR_BAD_CHAR_REF, (n - 1) as usize))), ..s }
                } else {
                    ScanState { acc: s.acc + utf8_encode(c as int), ..s }
                },
                ValuePieceV::ParamRef(name) => match pe_ref_outcome(t, name, declParam, peRefsAllowed, hasExternalHandler) {
                    Err(e) => ScanState { end: Some(Err((e, (n - 1) as usize))), ..s },
                    Ok(ValueRefAction::ProcessInternal { index }) => ScanState {
                        end: Some(Ok(ValueStop::ProcessInternal { index, next: n as usize })),
                        ..s
                    },
                    Ok(ValueRefAction::LoadExternal { index }) => ScanState {
                        end: Some(Ok(ValueStop::LoadExternal { index, next: n as usize })),
                        ..s
                    },
                    Ok(_) => ScanState { skipped: true, ..s },
                },
                _ => ScanState { end: Some(Err((XmlError::XML_ERROR_INVALID_TOKEN, (n - 1) as usize))), ..s },
            }
        }
    }
}

/// Once reading has stopped, later pieces change nothing.
proof fn lemma_scan_stops(
    pv: Seq<ValuePieceV>,
    t: Seq<(Seq<u8>, ENTITY)>,
    declParam: Option<usize>,
    peRefsAllowed: bool,
    hasExternalHandler: bool,
    start: int,
    m: int,
    n: int,
)
    requires
        start <= m <= n,
        value_scan(pv, t, declParam, peRefsAllowed, hasExternalHandler, start, m).end is Some,
    ensures
        value_scan(pv, t, declParam, peRefsAllowed, hasExternalHandler, start, n) == value_scan(
            pv,
            t,
            declParam,
            peRefsAllowed,
            hasExternalHandler,
            start,
            m,
        ),
    decreases n - m,
{
    if n > m {
        lemma_scan_stops(pv, t, declParam, peRefsAllowed, hasExternalHandler, start, m, n - 1);
    }
}

/// Read the pieces of an entity value literal from piece `start` on,
/// appending the replacement text to `value`: characters and general
/// entity references as they stand, a line feed for each line end, the
/// UTF-8 encoding of each character reference (one that names no character
/// is `XML_ERROR_BAD_CHAR_REF`, with its piece), and for each reference to
/// a parameter entity what `entityValueRefAction` decides. Reading stops at
/// an error, a token that is cut or invalid (`XML_ERROR_INVALID_TOKEN`), or
/// an entity that is to be read first.
#[allow(non_snake_case)]
pub fn storeEntityValue(
    pieces: &Vec<ValuePiece>,
    start: usize,
    value: &mut Vec<u8>,
    dtd: &mut DTD,
    declParam: Option<usize>,
    peRefsAllowed: bool,
    hasExternalHandler: bool,
) -> (r: Result<ValueStop, (XmlError, usize)>)
    requires
        start <= pieces@.len(),
        old(dtd).paramEntities.wf(),
    ensures
        final(dtd).paramEntities.wf(),
        ({
            let o = *old(dtd);
            let f = *final(dtd);
            let s = value_scan(
                value_pieces_view(pieces@),
                o.paramEntities@,
                declParam,
                peRefsAllowed,
                hasExternalHandler,
                start as int,
                pieces@.len() as int,
            );
            &&& final(value)@ == old(value)@ + s.acc
            &&& match s.end {
                None => r == Ok::<ValueStop, (XmlError, usize)>(ValueStop::Done),
                Some(x) => r == x,
            }
            &&& same_tables(o, f)
            &&& f.keepProcessing == if s.skipped {
                o.standalone
            } else {
                o.keepProcessing
            }
            &&& match r {
                Ok(ValueStop::LoadExternal { index, next: _ }) => {
                    let t = o.paramEntities@;
                    &&& f.paramEntities@ == t.update(index as int, (t[index as int].0, with_open(t[index as int].1, true)))
                    &&& !f.paramEntityRead
                },
                _ => {
                    &&& f.paramEntities@ == o.paramEntities@
                    &&& f.paramEntityRead == o.paramEntityRead
                },
            }
        }),
{
    let ghost pv = value_pieces_view(pieces@);
    let ghost o = *dtd;
    let ghost t = dtd.paramEntities@;
    let ghost v0 = value@;
    let n = pieces.len();
    let mut i: usize = start;
    while i < n
        invariant
            start <= i <= n == pieces@.len(),
            v0 == old(value)@,
            o == *old(dtd),
            pv == value_pieces_view(pieces@),
            t == o.paramEntities@,
            dtd.paramEntities.wf(),
            dtd.paramEntities@ == t,
            same_tables(o, *dtd),
            dtd.paramEntityRead == o.paramEntityRead,
            value_scan(pv, t, declParam, peRefsAllowed, hasExternalHandler, start as int, i as int).end is None,
            value@ == v0 + value_scan(pv, t, declParam, peRefsAllowed, hasExternalHandler, start as int, i as int).acc,
            dtd.keepProcessing == if value_scan(
                pv,
                t,
                declParam,
                peRefsAllowed,
                hasExternalHandler,
                start as int,
                i as int,
            ).skipped {
                o.standalone
            } else {
                o.keepProcessing
            },
        decreases n - i,
    {
        let ghost s = value_scan(pv, t, declParam, peRefsAllowed, hasExternalHandler, start as int, i as int);
        let ghost s1 = value_scan(pv, t, declParam, peRefsAllowed, hasExternalHandler, start as int, i as int + 1);
        assert(pv[i as int] == pieces@[i as int]@);
        match &pieces[i] {
            ValuePiece::Data(d) => {
                let mut k: usize = 0;
                let ghost before = value@;
                while k < d.len()
                    invariant
                        k <= d.len(),
                        value@ == before + d@.take(k as int),
                    decreases d.len() - k,
                {
                    value.push(d[k]);
                    k = k + 1;
                    assert(value@ =~= before + d@.take(k as int));
                }
                assert(d@.take(d.len() as int) =~= d@);
                assert(value@ =~= v0 + s1.acc);
            },
            ValuePiece::Newline => {
                value.push(LINE_FEED);
                assert(value@ =~= v0 + s1.acc);
            },
            ValuePiece::CharRef(c) => {
                if *c < 0 {
                    proof {
                        assert(s1.acc == s.acc && s1.skipped == s.skipped);
                        lemma_scan_stops(pv, t, declParam, peRefsAllowed, hasExternalHandler, start as int, i as int + 1, n as int);
                    }
                    return Err((XmlError::XML_ERROR_BAD_CHAR_REF, i));
                }
                let bytes = XmlUtf8Encode(*c);
                let ghost before = value@;
                let mut k: usize = 0;
                while k < bytes.len()
                    invariant
                        k <= bytes.len(),
                        value@ == before + bytes@.take(k as int),
                    decreases bytes.len() - k,
                {
                    value.push(bytes[k]);
                    k = k + 1;
                    assert(value@ =~= before + bytes@.take(k as int));
                }
                assert(bytes@.take(bytes.len() as int) =~= bytes@);
                assert(value@ =~= v0 + s1.acc);
            },
            ValuePiece::ParamRef(name) => {
                let a = entityValueRefAction(dtd, name.as_slice(), declParam, peRefsAllowed, hasExternalHandler);
                match a {
                    Err(e) => {
                        proof {
                            lemma_scan_stops(pv, t, declParam, peRefsAllowed, hasExternalHandler, start as int, i as int + 1, n as int);
                        }
                        return Err((e, i));
                    },
                    Ok(ValueRefAction::ProcessInternal { index }) => {
                        proof {
                            lemma_scan_stops(pv, t, declParam, peRefsAllowed, hasExternalHandler, start as int, i as int + 1, n as int);
                        }
                        return Ok(ValueStop::ProcessInternal { index, next: i + 1 });
                    },
                    Ok(ValueRefAction::LoadExternal { index }) => {
                        proof {
                            lemma_scan_stops(pv, t, declParam, peRefsAllowed, hasExternalHandler, start as int, i as int + 1, n as int);
                        }
                        return Ok(ValueStop::LoadExternal { index, next: i + 1 });
                    },
                    Ok(_) => {},
                }
            },
            _ => {
                proof {
                    assert(pv[i as int] is Partial || pv[i as int] is Invalid);
                    assert(s1.acc == s.acc && s1.skipped == s.skipped);
                    lemma_scan_stops(pv, t, declParam, peRefsAllowed, hasExternalHandler, start as int, i as int + 1, n as int);
                }
                return Err((XmlError::XML_ERROR_INVALID_TOKEN, i));
            },
        }
        i = i + 1;
    }
    Ok(ValueStop::Done)
}

} // verus!
