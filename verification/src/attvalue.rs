//! The value of an attribute, from the pieces the tokenizer reads in its
//! literal: character data, white space, character references and the
//! predefined entities. Values of attributes that are not CDATA are
//! normalised: no space at either end and single spaces between words. A
//! reference to another general entity is an error, skipped, or expanded.
use vstd::prelude::*;
use crate::errors::XmlError;
use crate::entities::ENTITY;
use crate::hashtable::HASH_TABLE;
use crate::storeatts::{has_name, record_named};

verus! {

/// The space character.
pub const SPACE: u8 = 0x20;

/// A piece of an attribute value literal.
pub enum AttPiece {
    /// Characters, in the parser's encoding (UTF-8).
    Data(Vec<u8>),
    /// White space: a space, a tab, or a line end.
    Space,
    /// A character reference, by the number it names (negative when it
    /// names no character).
    CharRef(i32),
    /// A reference to a predefined entity, by the character it stands for.
    Predefined(u8),
}

/// A piece as bytes and numbers.
pub enum AttPieceV {
    Data(Seq<u8>),
    Space,
    CharRef(i32),
    Predefined(u8),
}

impl AttPiece {
    pub open spec fn view(&self) -> AttPieceV {
        match self {
            AttPiece::Data(d) => AttPieceV::Data(d@),
            AttPiece::Space => AttPieceV::Space,
            AttPiece::CharRef(n) => AttPieceV::CharRef(*n),
            AttPiece::Predefined(c) => AttPieceV::Predefined(*c),
        }
    }
}

/// The UTF-8 encoding of the code point `n` (nothing when `n` is not one).
pub open spec fn utf8_encode(n: int) -> Seq<u8> {
    if n < 0 {
        Seq::empty()
    } else if n < 0x80 {
        seq![n as u8]
    } else if n < 0x800 {
        seq![(0xc0 + n / 64) as u8, (0x80 + n % 64) as u8]
    } else if n < 0x10000 {
        seq![(0xe0 + n / 4096) as u8, (0x80 + (n / 64) % 64) as u8, (0x80 + n % 64) as u8]
    } else if n < 0x110000 {
        seq![
            (0xf0 + n / 262144) as u8,
            (0x80 + (n / 4096) % 64) as u8,
            (0x80 + (n / 64) % 64) as u8,
            (0x80 + n % 64) as u8,
        ]
    } else {
        Seq::empty()
    }
}

/// Encode the code point `n` in UTF-8.
#[allow(non_snake_case)]
pub fn XmlUtf8Encode(n: i32) -> (r: Vec<u8>)
    ensures
        r@ == utf8_encode(n as int),
{
    let mut r: Vec<u8> = Vec::new();
    if n < 0 {
    } else if n < 0x80 {
        r.push(n as u8);
    } else if n < 0x800 {
        r.push((0xc0 + n / 64) as u8);
        r.push((0x80 + n % 64) as u8);
    } else if n < 0x10000 {
        r.push((0xe0 + n / 4096) as u8);
        r.push((0x80 + (n / 64) % 64) as u8);
        r.push((0x80 + n % 64) as u8);
    } else if n < 0x110000 {
        r.push((0xf0 + n / 262144) as u8);
        r.push((0x80 + (n / 4096) % 64) as u8);
        r.push((0x80 + (n / 64) % 64) as u8);
        r.push((0x80 + n % 64) as u8);
    }
    proof {
        assert(r@ =~= utf8_encode(n as int));
    }
    r
}

/// Whether a space after `acc` is dropped: in a value that is not CDATA, at
/// the start and after another space.
pub open spec fn space_dropped(acc: Seq<u8>, isCdata: bool) -> bool {
    !isCdata && (acc.len() == 0 || acc.last() == SPACE)
}

/// The value read from the first `n` pieces, or the error and the index of
/// the piece that caused it.
pub open spec fn value_prefix(pieces: Seq<AttPieceV>, isCdata: bool, n: int) -> Result<Seq<u8>, (XmlError, int)>
    decreases n,
{
    if n <= 0 {
        Ok(Seq::empty())
    } else {
        match value_prefix(pieces, isCdata, n - 1) {
            Err(e) => Err(e),
            Ok(acc) => match pieces[n - 1] {
                AttPieceV::Data(d) => Ok(acc + d),
                AttPieceV::Space => if space_dropped(acc, isCdata) {
                    Ok(acc)
                } else {
                    Ok(acc.push(SPACE))
                },
                AttPieceV::CharRef(c) => if c < 0 {
                    Err((XmlError::XML_ERROR_BAD_CHAR_REF, n - 1))
                } else if c == SPACE && space_dropped(acc, isCdata) {
                    Ok(acc)
                } else {
                    Ok(acc + utf8_encode(c as int))
                },
                AttPieceV::Predefined(c) => Ok(acc.push(c)),
            },
        }
    }
}

/// The value of an attribute read from all its pieces: a value that is not
/// CDATA loses a space at its end.
pub open spec fn attribute_value(pieces: Seq<AttPieceV>, isCdata: bool) -> Result<Seq<u8>, (XmlError, int)> {
    match value_prefix(pieces, isCdata, pieces.len() as int) {
        Err(e) => Err(e),
        Ok(acc) => if !isCdata && acc.len() > 0 && acc.last() == SPACE {
            Ok(acc.drop_last())
        } else {
            Ok(acc)
        },
    }
}

/// The pieces as bytes and numbers.
pub open spec fn pieces_view(pieces: Seq<AttPiece>) -> Seq<AttPieceV> {
    pieces.map_values(|p: AttPiece| p@)
}

/// Read the value of an attribute from its pieces; `isCdata` tells whether
/// the attribute is CDATA. The error names the piece that caused it.
#[allow(non_snake_case)]
pub fn storeAttributeValue(pieces: &Vec<AttPiece>, isCdata: bool) -> (r: Result<Vec<u8>, (XmlError, usize)>)
    ensures
        match attribute_value(pieces_view(pieces@), isCdata) {
            Ok(v) => r matches Ok(w) && w@ == v,
            Err((e, i)) => r == Err::<Vec<u8>, (XmlError, usize)>((e, i as usize)),
        },
{
    let ghost pv = pieces_view(pieces@);
    let mut acc: Vec<u8> = Vec::new();
    let mut i: usize = 0;
    while i < pieces.len()
        invariant
            i <= pieces.len(),
            pv == pieces_view(pieces@),
            value_prefix(pv, isCdata, i as int) == Ok::<Seq<u8>, (XmlError, int)>(acc@),
        decreases pieces.len() - i,
    {
        assert(pv[i as int] == pieces@[i as int]@);
        let dropped = !isCdata && (acc.len() == 0 || acc[acc.len() - 1] == SPACE);
        match &pieces[i] {
            AttPiece::Data(d) => {
                let mut k: usize = 0;
                let ghost before = acc@;
                while k < d.len()
                    invariant
                        k <= d.len(),
                        acc@ == before + d@.take(k as int),
                    decreases d.len() - k,
                {
                    acc.push(d[k]);
                    k = k + 1;
                    assert(acc@ =~= before + d@.take(k as int));
                }
                assert(d@.take(d.len() as int) =~= d@);
            },
            AttPiece::Space => {
                if !dropped {
                    acc.push(SPACE);
                }
            },
            AttPiece::CharRef(n) => {
                if *n < 0 {
                    proof {
                        lemma_error_stays(pv, isCdata, i as int + 1, pv.len() as int);
                    }
                    return Err((XmlError::XML_ERROR_BAD_CHAR_REF, i));
                }
                if !(*n == SPACE as i32 && dropped) {
                    let bytes = XmlUtf8Encode(*n);
                    let ghost before = acc@;
                    let mut k: usize = 0;
                    while k < bytes.len()
                        invariant
                            k <= bytes.len(),
                            acc@ == before + bytes@.take(k as int),
                        decreases bytes.len() - k,
                    {
                        acc.push(bytes[k]);
                        k = k + 1;
                        assert(acc@ =~= before + bytes@.take(k as int));
                    }
                    assert(bytes@.take(bytes.len() as int) =~= bytes@);
                }
            },
            AttPiece::Predefined(c) => {
                acc.push(*c);
            },
        }
        i = i + 1;
    }
    assert(pieces.len() == pv.len());
    if !isCdata && acc.len() > 0 && acc[acc.len() - 1] == SPACE {
        acc.pop();
    }
    Ok(acc)
}

/// Once reading a value met an error it keeps it.
proof fn lemma_error_stays(pieces: Seq<AttPieceV>, isCdata: bool, m: int, n: int)
    requires
        0 <= m <= n,
        value_prefix(pieces, isCdata, m) is Err,
    ensures
        value_prefix(pieces, isCdata, n) == value_prefix(pieces, isCdata, m),
    decreases n - m,
{
    if m < n {
        lemma_error_stays(pieces, isCdata, m, n - 1);
    }
}

/// No space at the start of `s` and no two spaces in a row.
pub open spec fn spaces_collapsed(s: Seq<u8>) -> bool {
    &&& (s.len() > 0 ==> s[0] != SPACE)
    &&& forall|i: int| 0 <= i < s.len() - 1 ==> !(#[trigger] s[i] == SPACE && s[i + 1] == SPACE)
}

/// The pieces hold no space but as white space or a reference to the space
/// character, and no reference names a character out of range.
pub open spec fn spaces_only_as_pieces(pieces: Seq<AttPieceV>) -> bool {
    forall|i: int|
        0 <= i < pieces.len() ==> match #[trigger] pieces[i] {
            AttPieceV::Data(d) => !d.contains(SPACE),
            AttPieceV::CharRef(c) => c < 0x110000,
            AttPieceV::Predefined(c) => c != SPACE,
            AttPieceV::Space => true,
        }
}

proof fn lemma_utf8_no_space(n: int)
    requires
        0 <= n < 0x110000,
        n != 0x20,
    ensures
        !utf8_encode(n).contains(SPACE),
{
    let e = utf8_encode(n);
    assert forall|i: int| 0 <= i < e.len() implies e[i] != SPACE by {
        if n >= 0x80 {
            assert(e[i] >= 0x80);
        }
    }
}

proof fn lemma_collapsed_prefix(pieces: Seq<AttPieceV>, n: int)
    requires
        0 <= n <= pieces.len(),
        spaces_only_as_pieces(pieces),
    ensures
        value_prefix(pieces, false, n) matches Ok(acc) ==> spaces_collapsed(acc),
    decreases n,
{
    if n > 0 {
        lemma_collapsed_prefix(pieces, n - 1);
        match value_prefix(pieces, false, n - 1) {
            Err(_) => {},
            Ok(acc) => {
                match pieces[n - 1] {
                    AttPieceV::Data(d) => {
                        let r = acc + d;
                        assert forall|i: int| 0 <= i < r.len() - 1 implies !(#[trigger] r[i] == SPACE && r[i + 1]
                            == SPACE) by {
                            if i + 1 >= acc.len() {
                                assert(r[i + 1] == d[i + 1 - acc.len()]);
                            }
                        }
                        if r.len() > 0 && acc.len() == 0 {
                            assert(r[0] == d[0]);
                        }
                    },
                    AttPieceV::CharRef(c) => {
                        if c >= 0 && !(c == SPACE && space_dropped(acc, false)) {
                            let e = utf8_encode(c as int);
                            let r = acc + e;
                            if c != SPACE {
                                lemma_utf8_no_space(c as int);
                                assert forall|i: int| 0 <= i < r.len() - 1 implies !(#[trigger] r[i] == SPACE && r[i + 1]
                                    == SPACE) by {
                                    if i + 1 >= acc.len() {
                                        assert(r[i + 1] == e[i + 1 - acc.len()]);
                                    }
                                }
                                if r.len() > 0 && acc.len() == 0 {
                                    assert(r[0] == e[0]);
                                }
                            } else {
                                assert(e =~= seq![SPACE]);
                                assert(r =~= acc.push(SPACE));
                            }
                        }
                    },
                    _ => {},
                }
            },
        }
    }
}

/// The value of an attribute that is not CDATA has no space at either end
/// and no two spaces in a row, when its pieces hold spaces only as white
/// space or references to the space character.
pub proof fn lemma_normalized_value(pieces: Seq<AttPieceV>)
    requires
        spaces_only_as_pieces(pieces),
    ensures
        attribute_value(pieces, false) matches Ok(v) ==> spaces_collapsed(v) && (v.len() > 0 ==> v.last()
            != SPACE),
{
    lemma_collapsed_prefix(pieces, pieces.len() as int);
    match value_prefix(pieces, false, pieces.len() as int) {
        Err(_) => {},
        Ok(acc) => {
            if acc.len() > 0 && acc.last() == SPACE {
                let v = acc.drop_last();
                assert forall|i: int| 0 <= i < v.len() - 1 implies !(#[trigger] v[i] == SPACE && v[i + 1] == SPACE) by {
                    assert(v[i] == acc[i] && v[i + 1] == acc[i + 1]);
                }
                if v.len() > 0 {
                    assert(v.last() == acc[acc.len() - 2]);
                    assert(!(acc[acc.len() - 2] == SPACE && acc[acc.len() - 1] == SPACE));
                    assert(v[0] == acc[0]);
                }
            }
        },
    }
}

/// What a reference to a general entity in an attribute value leads to.
#[derive(PartialEq, Eq, Structural, Clone, Copy, Debug)]
pub enum AttEntityAction {
    /// The entity is not declared, and need not be: nothing is added.
    Skip,
    /// The replacement text of the internal entity `index` is read into the
    /// value.
    Expand { index: usize },
}

/// Whether a reference to an undeclared entity in an attribute value is an
/// error: in a default value of the DTD (`inDtd`), in the document entity
/// when it must declare its entities; in a start tag, when the document
/// has no parameter entity references or is standalone.
pub open spec fn entity_decl_required(
    inDtd: bool,
    documentEntity: bool,
    standalone: bool,
    openInternalEntities: bool,
    hasParamEntityRefs: bool,
) -> bool {
    if inDtd {
        documentEntity && if standalone {
            !openInternalEntities
        } else {
            !hasParamEntityRefs
        }
    } else {
        !hasParamEntityRefs || standalone
    }
}

/// Take a reference to the general entity `name` (not a predefined one) in
/// an attribute value: an undeclared entity that must be declared is
/// `XML_ERROR_UNDEFINED_ENTITY`, and one declared in a parameter entity
/// `XML_ERROR_ENTITY_DECLARED_IN_PE`; an undeclared entity is otherwise
/// skipped. An open entity is `XML_ERROR_RECURSIVE_ENTITY_REF`, an unparsed
/// one `XML_ERROR_BINARY_ENTITY_REF`, an external one
/// `XML_ERROR_ATTRIBUTE_EXTERNAL_ENTITY_REF`; an internal one is expanded.
#[allow(non_snake_case)]
pub fn attributeEntityRefAction(
    general: &HASH_TABLE<ENTITY>,
    name: &[u8],
    inDtd: bool,
    documentEntity: bool,
    standalone: bool,
    openInternalEntities: bool,
    hasParamEntityRefs: bool,
) -> (r: Result<AttEntityAction, XmlError>)
    requires
        general.wf(),
    ensures
        ({
            let t = general@;
            let found = has_name(t, name@);
            let e = record_named(t, name@);
            let check = entity_decl_required(inDtd, documentEntity, standalone, openInternalEntities, hasParamEntityRefs);
            if check && !found {
                r == Err::<AttEntityAction, XmlError>(XmlError::XML_ERROR_UNDEFINED_ENTITY)
            } else if check && !t[e].1.is_internal {
                r == Err::<AttEntityAction, XmlError>(XmlError::XML_ERROR_ENTITY_DECLARED_IN_PE)
            } else if !found {
                r == Ok::<AttEntityAction, XmlError>(AttEntityAction::Skip)
            } else if t[e].1.open {
                r == Err::<AttEntityAction, XmlError>(XmlError::XML_ERROR_RECURSIVE_ENTITY_REF)
            } else if t[e].1.notation is Some {
                r == Err::<AttEntityAction, XmlError>(XmlError::XML_ERROR_BINARY_ENTITY_REF)
            } else if t[e].1.text is None {
                r == Err::<AttEntityAction, XmlError>(XmlError::XML_ERROR_ATTRIBUTE_EXTERNAL_ENTITY_REF)
            } else {
                r == Ok::<AttEntityAction, XmlError>(AttEntityAction::Expand { index: e as usize })
            }
        }),
{
    let found = general.lookup(name);
    proof {
        match found {
            Some(e) => {
                crate::storeatts::lemma_record_named(*general, e as int);
            },
            None => {
                assert(!has_name(general@, name@));
            },
        }
    }
    let check = if inDtd {
        documentEntity && if standalone {
            !openInternalEntities
        } else {
            !hasParamEntityRefs
        }
    } else {
        !hasParamEntityRefs || standalone
    };
    let e = match found {
        None => {
            if check {
                return Err(XmlError::XML_ERROR_UNDEFINED_ENTITY);
            }
            return Ok(AttEntityAction::Skip);
        },
        Some(e) => e,
    };
    let x = general.value(e);
    if check && !x.is_internal {
        return Err(XmlError::XML_ERROR_ENTITY_DECLARED_IN_PE);
    }
    if x.open {
        return Err(XmlError::XML_ERROR_RECURSIVE_ENTITY_REF);
    }
    if x.notation.is_some() {
        return Err(XmlError::XML_ERROR_BINARY_ENTITY_REF);
    }
    if x.text.is_none() {
        return Err(XmlError::XML_ERROR_ATTRIBUTE_EXTERNAL_ENTITY_REF);
    }
    Ok(AttEntityAction::Expand { index: e })
}

/// A piece of an attribute value literal, or of the replacement text of an
/// entity read into one: a piece of text, or a reference to a general
/// entity that is not predefined.
pub enum AttRefPiece {
    Piece(AttPiece),
    EntityRef(Vec<u8>),
}

/// Such a piece as bytes and numbers.
pub enum AttRefPieceV {
    Piece(AttPieceV),
    EntityRef(Seq<u8>),
}

impl AttRefPiece {
    pub open spec fn view(&self) -> AttRefPieceV {
        match self {
            AttRefPiece::Piece(p) => AttRefPieceV::Piece(p@),
            AttRefPiece::EntityRef(n) => AttRefPieceV::EntityRef(n@),
        }
    }
}

/// The pieces as bytes and numbers.
pub open spec fn ref_pieces_view(pieces: Seq<AttRefPiece>) -> Seq<AttRefPieceV> {
    Seq::new(pieces.len(), |i: int| pieces[i]@)
}

/// The value so far, `acc`, after one more piece of text: as
/// `value_prefix` reads it.
pub open spec fn piece_append(acc: Seq<u8>, p: AttPieceV, isCdata: bool) -> Result<Seq<u8>, XmlError> {
    match p {
        AttPieceV::Data(d) => Ok(acc + d),
        AttPieceV::Space => if space_dropped(acc, isCdata) {
            Ok(acc)
        } else {
            Ok(acc.push(SPACE))
        },
        AttPieceV::CharRef(c) => if c < 0 {
            Err(XmlError::XML_ERROR_BAD_CHAR_REF)
        } else if c == SPACE && space_dropped(acc, isCdata) {
            Ok(acc)
        } else {
            Ok(acc + utf8_encode(c as int))
        },
        AttPieceV::Predefined(c) => Ok(acc.push(c)),
    }
}

/// Where reading the pieces of a value stopped without an error.
#[derive(PartialEq, Eq, Structural, Clone, Copy, Debug)]
pub enum AttValueStop {
    /// Every piece was read.
    Done,
    /// The replacement text of the internal entity `index` is to be read
    /// into the value first (the entity opened, then closed after it);
    /// reading goes on at piece `next` afterwards.
    Expand { index: usize, next: usize },
}

/// The value, and where reading stopped (`None`: not yet), after the pieces
/// `start..n` of `pv` were read onto `acc0`, with the general entities `t`
/// and what decides whether an entity must be declared; or the error and
/// the piece that caused it.
pub open spec fn att_scan(
    acc0: Seq<u8>,
    pv: Seq<AttRefPieceV>,
    isCdata: bool,
    t: Seq<(Seq<u8>, ENTITY)>,
    check: bool,
    start: int,
    n: int,
) -> Result<(Seq<u8>, Option<AttValueStop>), (XmlError, usize)>
    decreases n - start,
{
    if n <= start {
        Ok((acc0, None))
    } else {
        match att_scan(acc0, pv, isCdata, t, check, start, n - 1) {
            Err(e) => Err(e),
            Ok((acc, Some(st))) => Ok((acc, Some(st))),
            Ok((acc, None)) => match pv[n - 1] {
                AttRefPieceV::Piece(p) => match piece_append(acc, p, isCdata) {
                    Err(e) => Err((e, (n - 1) as usize)),
                    Ok(a) => Ok((a, None)),
                },
                AttRefPieceV::EntityRef(name) => match entity_ref_outcome(t, name, check) {
                    Err(e) => Err((e, (n - 1) as usize)),
                    Ok(AttEntityAction::Skip) => Ok((acc, None)),
                    Ok(AttEntityAction::Expand { index }) => Ok(
                        (acc, Some(AttValueStop::Expand { index, next: n as usize })),
                    ),
                },
            },
        }
    }
}

/// What `attributeEntityRefAction` decides for a reference to `name` in
/// the general entities `t`, where `check` tells whether an entity must be
/// declared (`entity_decl_required`).
pub open spec fn entity_ref_outcome(t: Seq<(Seq<u8>, ENTITY)>, name: Seq<u8>, check: bool) -> Result<
    AttEntityAction,
    XmlError,
> {
    let found = has_name(t, name);
    let e = record_named(t, name);
    if check && !found {
        Err(XmlError::XML_ERROR_UNDEFINED_ENTITY)
    } else if check && !t[e].1.is_internal {
        Err(XmlError::XML_ERROR_ENTITY_DECLARED_IN_PE)
    } else if !found {
        Ok(AttEntityAction::Skip)
    } else if t[e].1.open {
        Err(XmlError::XML_ERROR_RECURSIVE_ENTITY_REF)
    } else if t[e].1.notation is Some {
        Err(XmlError::XML_ERROR_BINARY_ENTITY_REF)
    } else if t[e].1.text is None {
        Err(XmlError::XML_ERROR_ATTRIBUTE_EXTERNAL_ENTITY_REF)
    } else {
        Ok(AttEntityAction::Expand { index: e as usize })
    }
}

proof fn lemma_att_scan_stops(
    acc0: Seq<u8>,
    pv: Seq<AttRefPieceV>,
    isCdata: bool,
    t: Seq<(Seq<u8>, ENTITY)>,
    check: bool,
    start: int,
    m: int,
    n: int,
)
    requires
        start <= m <= n,
        !(att_scan(acc0, pv, isCdata, t, check, start, m) matches Ok((_, None))),
    ensures
        att_scan(acc0, pv, isCdata, t, check, start, n) == att_scan(acc0, pv, isCdata, t, check, start, m),
    decreases n - m,
{
    if n > m {
        lemma_att_scan_stops(acc0, pv, isCdata, t, check, start, m, n - 1);
    }
}

/// Read the pieces of an attribute value from piece `start` on, appending
/// to `acc` (the value so far): text as `storeAttributeValue` reads it, and
/// for a reference to a general entity what `attributeEntityRefAction`
/// decides. Reading stops at an error, with the piece that caused it, or
/// at an internal entity whose text is to be read first.
#[allow(non_snake_case)]
pub fn appendAttributeValue(
    pieces: &Vec<AttRefPiece>,
    start: usize,
    acc: &mut Vec<u8>,
    isCdata: bool,
    general: &HASH_TABLE<ENTITY>,
    inDtd: bool,
    documentEntity: bool,
    standalone: bool,
    openInternalEntities: bool,
    hasParamEntityRefs: bool,
) -> (r: Result<AttValueStop, (XmlError, usize)>)
    requires
        start <= pieces@.len(),
        general.wf(),
    ensures
        match att_scan(
            old(acc)@,
            ref_pieces_view(pieces@),
            isCdata,
            general@,
            entity_decl_required(inDtd, documentEntity, standalone, openInternalEntities, hasParamEntityRefs),
            start as int,
            pieces@.len() as int,
        ) {
            Err(e) => r == Err::<AttValueStop, (XmlError, usize)>(e),
            Ok((v, st)) => final(acc)@ == v && r == Ok::<AttValueStop, (XmlError, usize)>(
                match st {
                    Some(x) => x,
                    None => AttValueStop::Done,
                },
            ),
        },
{
    let ghost pv = ref_pieces_view(pieces@);
    let ghost check = entity_decl_required(inDtd, documentEntity, standalone, openInternalEntities, hasParamEntityRefs);
    let ghost acc0 = acc@;
    let n = pieces.len();
    let mut i: usize = start;
    while i < n
        invariant
            start <= i <= n == pieces@.len(),
            pv == ref_pieces_view(pieces@),
            acc0 == old(acc)@,
            general.wf(),
            check == entity_decl_required(inDtd, documentEntity, standalone, openInternalEntities, hasParamEntityRefs),
            att_scan(acc0, pv, isCdata, general@, check, start as int, i as int) == Ok::<
                (Seq<u8>, Option<AttValueStop>),
                (XmlError, usize),
            >((acc@, None)),
        decreases n - i,
    {
        assert(pv[i as int] == pieces@[i as int]@);
        let dropped = !isCdata && (acc.len() == 0 || acc[acc.len() - 1] == SPACE);
        match &pieces[i] {
            AttRefPiece::Piece(p) => {
                match p {
                    AttPiece::Data(d) => {
                        let mut k: usize = 0;
                        let ghost before = acc@;
                        while k < d.len()
                            invariant
                                k <= d.len(),
                                acc@ == before + d@.take(k as int),
                            decreases d.len() - k,
                        {
                            acc.push(d[k]);
                            k = k + 1;
                            assert(acc@ =~= before + d@.take(k as int));
                        }
                        assert(d@.take(d.len() as int) =~= d@);
                    },
                    AttPiece::Space => {
                        if !dropped {
                            acc.push(SPACE);
                        }
                    },
                    AttPiece::CharRef(c) => {
                        if *c < 0 {
                            proof {
                                lemma_att_scan_stops(acc0, pv, isCdata, general@, check, start as int, i as int + 1, n as int);
                            }
                            return Err((XmlError::XML_ERROR_BAD_CHAR_REF, i));
                        }
                        if !(*c == SPACE as i32 && dropped) {
                            let bytes = XmlUtf8Encode(*c);
                            let ghost before = acc@;
                            let mut k: usize = 0;
                            while k < bytes.len()
                                invariant
                                    k <= bytes.len(),
                                    acc@ == before + bytes@.take(k as int),
                                decreases bytes.len() - k,
                            {
                                acc.push(bytes[k]);
                                k = k + 1;
                                assert(acc@ =~= before + bytes@.take(k as int));
                            }
                            assert(bytes@.take(bytes.len() as int) =~= bytes@);
                        }
                    },
                    AttPiece::Predefined(c) => {
                        acc.push(*c);
                    },
                }
            },
            AttRefPiece::EntityRef(name) => {
                let a = attributeEntityRefAction(
                    general,
                    name.as_slice(),
                    inDtd,
                    documentEntity,
                    standalone,
                    openInternalEntities,
                    hasParamEntityRefs,
                );
                match a {
                    Err(e) => {
                        proof {
                            lemma_att_scan_stops(acc0, pv, isCdata, general@, check, start as int, i as int + 1, n as int);
                        }
                        return Err((e, i));
                    },
                    Ok(AttEntityAction::Expand { index }) => {
                        proof {
                            lemma_att_scan_stops(acc0, pv, isCdata, general@, check, start as int, i as int + 1, n as int);
                        }
                        return Ok(AttValueStop::Expand { index, next: i + 1 });
                    },
                    Ok(AttEntityAction::Skip) => {},
                }
            },
        }
        i = i + 1;
    }
    Ok(AttValueStop::Done)
}

/// The end of an attribute value: a value that is not CDATA loses a space
/// at its end.
#[allow(non_snake_case)]
pub fn finishAttributeValue(acc: &mut Vec<u8>, isCdata: bool)
    ensures
        final(acc)@ == if !isCdata && old(acc)@.len() > 0 && old(acc)@.last() == SPACE {
            old(acc)@.drop_last()
        } else {
            old(acc)@
        },
{
    if !isCdata && acc.len() > 0 && acc[acc.len() - 1] == SPACE {
        acc.pop();
    }
}

/// Pieces of text only, as pieces that may hold references.
pub open spec fn plain_pieces(pieces: Seq<AttPieceV>) -> Seq<AttRefPieceV> {
    Seq::new(pieces.len(), |i: int| AttRefPieceV::Piece(pieces[i]))
}

/// A value with no entity reference reads the same piece by piece as
/// `storeAttributeValue` reads it whole: the same bytes, or the same error
/// at the same piece.
pub proof fn lemma_append_matches_store(
    pieces: Seq<AttPieceV>,
    isCdata: bool,
    t: Seq<(Seq<u8>, ENTITY)>,
    check: bool,
    n: int,
)
    requires
        0 <= n <= pieces.len(),
    ensures
        att_scan(Seq::empty(), plain_pieces(pieces), isCdata, t, check, 0, n) == match value_prefix(
            pieces,
            isCdata,
            n,
        ) {
            Ok(a) => Ok::<(Seq<u8>, Option<AttValueStop>), (XmlError, usize)>((a, None)),
            Err((e, i)) => Err::<(Seq<u8>, Option<AttValueStop>), (XmlError, usize)>((e, i as usize)),
        },
    decreases n,
{
    if n > 0 {
        lemma_append_matches_store(pieces, isCdata, t, check, n - 1);
        assert(plain_pieces(pieces)[n - 1] == AttRefPieceV::Piece(pieces[n - 1]));
    }
}

} // verus!
