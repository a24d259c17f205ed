//! The decisions that the content and epilog processors take on each token
//! the tokenizer reports: the stack of open elements, the end of the input,
//! the end of the root element, and the references to general entities.
use vstd::prelude::*;
use crate::errors::XmlError;
use crate::hashtable::{copy_string, keyeq};
use crate::parser::{XML_Parsing, XML_ParserStruct};
use crate::attvalue::{utf8_encode, XmlUtf8Encode};

verus! {

/// The kind of a token that the tokenizer reports, with the number of a
/// character reference (negative when it names no character).
#[derive(PartialEq, Eq, Structural, Clone, Copy, Debug)]
pub enum Tok {
    TrailingCr,
    TrailingRsqb,
    TokNone,
    Invalid,
    Partial,
    PartialChar,
    StartTag,
    EmptyElement,
    EndTag,
    CharRef(i32),
    XmlDecl,
    DataChars,
    DataNewline,
    CdataSectOpen,
    EntityRef,
    Pi,
    Comment,
    PrologS,
    CdataSectClose,
    IgnoreSect,
}

/// What a processor does after a token.
#[derive(PartialEq, Eq, Structural, Clone, Copy, Debug)]
pub enum Step {
    /// Go on with the next token.
    Continue,
    /// Stop before the token: the input ends there for now.
    Stop,
    /// Stop after the token: it ends what is being read (the input, or the
    /// section).
    Done,
    /// The root element is closed: the epilog follows the token.
    Epilog,
    /// Stop with an error.
    Fail(XmlError),
}

/// The elements open in the content, innermost last, by raw name.
pub struct TagStack {
    pub rawNames: Vec<Vec<u8>>,
}

impl TagStack {
    /// The raw names of the open elements.
    pub open spec fn view(&self) -> Seq<Seq<u8>> {
        self.rawNames@.map_values(|v: Vec<u8>| v@)
    }
}

/// Where the input ends inside content that began at nesting depth
/// `start`: content that opened no element is an error at the document's
/// top level, and content must close the elements it opened.
pub open spec fn content_end(stack: Seq<Seq<u8>>, start: nat, atEnd: Step) -> Step {
    if start == 0 {
        Step::Fail(XmlError::XML_ERROR_NO_ELEMENTS)
    } else if stack.len() != start {
        Step::Fail(XmlError::XML_ERROR_ASYNC_ENTITY)
    } else {
        atEnd
    }
}

/// What the content processor does with token `tok` (whose raw name is
/// `name` for tags) when the open elements are `stack`, the content began at
/// depth `start`, and `haveMore` tells whether more input is to come: the
/// open elements after it and the step.
pub open spec fn content_step(stack: Seq<Seq<u8>>, tok: Tok, name: Seq<u8>, haveMore: bool, start: nat) -> (
    Seq<Seq<u8>>,
    Step,
) {
    match tok {
        Tok::TrailingCr | Tok::TrailingRsqb => if haveMore {
            (stack, Step::Stop)
        } else if start == 0 {
            (stack, Step::Fail(XmlError::XML_ERROR_NO_ELEMENTS))
        } else if stack.len() != start {
            (stack, Step::Fail(XmlError::XML_ERROR_ASYNC_ENTITY))
        } else {
            (stack, Step::Done)
        },
        Tok::TokNone => if haveMore {
            (stack, Step::Stop)
        } else {
            (stack, content_end(stack, start, Step::Stop))
        },
        Tok::Invalid => (stack, Step::Fail(XmlError::XML_ERROR_INVALID_TOKEN)),
        Tok::Partial => if haveMore {
            (stack, Step::Stop)
        } else {
            (stack, Step::Fail(XmlError::XML_ERROR_UNCLOSED_TOKEN))
        },
        Tok::PartialChar => if haveMore {
            (stack, Step::Stop)
        } else {
            (stack, Step::Fail(XmlError::XML_ERROR_PARTIAL_CHAR))
        },
        Tok::StartTag => (stack.push(name), Step::Continue),
        Tok::EmptyElement => (stack, if stack.len() == 0 { Step::Epilog } else { Step::Continue }),
        Tok::EndTag => if stack.len() == start {
            (stack, Step::Fail(XmlError::XML_ERROR_ASYNC_ENTITY))
        } else if stack.last() != name {
            (stack, Step::Fail(XmlError::XML_ERROR_TAG_MISMATCH))
        } else {
            (stack.drop_last(), if stack.len() == 1 { Step::Epilog } else { Step::Continue })
        },
        Tok::CharRef(n) => (stack, if n < 0 { Step::Fail(XmlError::XML_ERROR_BAD_CHAR_REF) } else { Step::Continue }),
        Tok::XmlDecl => (stack, Step::Fail(XmlError::XML_ERROR_MISPLACED_XML_PI)),
        _ => (stack, Step::Continue),
    }
}

/// What the epilog processor (after the root element) does with token
/// `tok`; `finalBuffer` tells whether the input given is the last.
pub open spec fn epilog_step(tok: Tok, finalBuffer: bool) -> Step {
    match tok {
        Tok::TrailingCr => Step::Done,
        Tok::TokNone => Step::Stop,
        Tok::PrologS | Tok::Pi | Tok::Comment => Step::Continue,
        Tok::Invalid => Step::Fail(XmlError::XML_ERROR_INVALID_TOKEN),
        Tok::Partial => if !finalBuffer {
            Step::Stop
        } else {
            Step::Fail(XmlError::XML_ERROR_UNCLOSED_TOKEN)
        },
        Tok::PartialChar => if !finalBuffer {
            Step::Stop
        } else {
            Step::Fail(XmlError::XML_ERROR_PARTIAL_CHAR)
        },
        _ => Step::Fail(XmlError::XML_ERROR_JUNK_AFTER_DOC_ELEMENT),
    }
}

impl TagStack {
    /// No element open.
    pub fn new() -> (t: Self)
        ensures
            t@ == Seq::<Seq<u8>>::empty(),
    {
        let t = TagStack { rawNames: Vec::new() };
        assert(t@ =~= Seq::<Seq<u8>>::empty());
        t
    }

    /// The nesting depth: the number of open elements.
    #[allow(non_snake_case)]
    pub fn tagLevel(&self) -> (n: usize)
        ensures
            n == self@.len(),
    {
        self.rawNames.len()
    }

    /// Take the token `tok` (with raw name `rawName` for a tag) in content
    /// that began at depth `startTagLevel`.
    #[allow(non_snake_case)]
    pub fn contentToken(&mut self, tok: Tok, rawName: &[u8], haveMore: bool, startTagLevel: usize) -> (r: Step)
        requires
            startTagLevel <= old(self)@.len(),
        ensures
            (final(self)@, r) == content_step(old(self)@, tok, rawName@, haveMore, startTagLevel as nat),
            startTagLevel <= final(self)@.len(),
    {
        let level = self.rawNames.len();
        match tok {
            Tok::TrailingCr | Tok::TrailingRsqb => {
                if haveMore {
                    Step::Stop
                } else if startTagLevel == 0 {
                    Step::Fail(XmlError::XML_ERROR_NO_ELEMENTS)
                } else if level != startTagLevel {
                    Step::Fail(XmlError::XML_ERROR_ASYNC_ENTITY)
                } else {
                    Step::Done
                }
            },
            Tok::TokNone => {
                if haveMore {
                    Step::Stop
                } else if startTagLevel == 0 {
                    Step::Fail(XmlError::XML_ERROR_NO_ELEMENTS)
                } else if level != startTagLevel {
                    Step::Fail(XmlError::XML_ERROR_ASYNC_ENTITY)
                } else {
                    Step::Stop
                }
            },
            Tok::Invalid => Step::Fail(XmlError::XML_ERROR_INVALID_TOKEN),
            Tok::Partial => {
                if haveMore {
                    Step::Stop
                } else {
                    Step::Fail(XmlError::XML_ERROR_UNCLOSED_TOKEN)
                }
            },
            Tok::PartialChar => {
                if haveMore {
                    Step::Stop
                } else {
                    Step::Fail(XmlError::XML_ERROR_PARTIAL_CHAR)
                }
            },
            Tok::StartTag => {
                self.rawNames.push(copy_string(rawName));
                proof {
                    assert(self@ =~= old(self)@.push(rawName@));
                }
                Step::Continue
            },
            Tok::EmptyElement => {
                if level == 0 {
                    Step::Epilog
                } else {
                    Step::Continue
                }
            },
            Tok::EndTag => {
                if level == startTagLevel {
                    return Step::Fail(XmlError::XML_ERROR_ASYNC_ENTITY);
                }
                if !keyeq(self.rawNames[level - 1].as_slice(), rawName) {
                    return Step::Fail(XmlError::XML_ERROR_TAG_MISMATCH);
                }
                self.rawNames.pop();
                proof {
                    assert(self@ =~= old(self)@.drop_last());
                }
                if level == 1 {
                    Step::Epilog
                } else {
                    Step::Continue
                }
            },
            Tok::CharRef(n) => {
                if n < 0 {
                    Step::Fail(XmlError::XML_ERROR_BAD_CHAR_REF)
                } else {
                    Step::Continue
                }
            },
            Tok::XmlDecl => Step::Fail(XmlError::XML_ERROR_MISPLACED_XML_PI),
            _ => Step::Continue,
        }
    }
}

/// Take the token `tok` after the root element.
#[allow(non_snake_case)]
pub fn epilogToken(tok: Tok, finalBuffer: bool) -> (r: Step)
    ensures
        r == epilog_step(tok, finalBuffer),
{
    match tok {
        Tok::TrailingCr => Step::Done,
        Tok::TokNone => Step::Stop,
        Tok::PrologS | Tok::Pi | Tok::Comment => Step::Continue,
        Tok::Invalid => Step::Fail(XmlError::XML_ERROR_INVALID_TOKEN),
        Tok::Partial => {
            if !finalBuffer {
                Step::Stop
            } else {
                Step::Fail(XmlError::XML_ERROR_UNCLOSED_TOKEN)
            }
        },
        Tok::PartialChar => {
            if !finalBuffer {
                Step::Stop
            } else {
                Step::Fail(XmlError::XML_ERROR_PARTIAL_CHAR)
            }
        },
        _ => Step::Fail(XmlError::XML_ERROR_JUNK_AFTER_DOC_ELEMENT),
    }
}

/// What the reader of a CDATA section does with token `tok`.
pub open spec fn cdata_step(tok: Tok, haveMore: bool) -> Step {
    match tok {
        Tok::CdataSectClose => Step::Done,
        Tok::DataNewline | Tok::DataChars => Step::Continue,
        Tok::Invalid => Step::Fail(XmlError::XML_ERROR_INVALID_TOKEN),
        Tok::PartialChar => if haveMore {
            Step::Stop
        } else {
            Step::Fail(XmlError::XML_ERROR_PARTIAL_CHAR)
        },
        Tok::Partial | Tok::TokNone => if haveMore {
            Step::Stop
        } else {
            Step::Fail(XmlError::XML_ERROR_UNCLOSED_CDATA_SECTION)
        },
        _ => Step::Fail(XmlError::XML_ERROR_UNEXPECTED_STATE),
    }
}

/// Take token `tok` inside a CDATA section.
#[allow(non_snake_case)]
pub fn cdataSectionToken(tok: Tok, haveMore: bool) -> (r: Step)
    ensures
        r == cdata_step(tok, haveMore),
{
    match tok {
        Tok::CdataSectClose => Step::Done,
        Tok::DataNewline | Tok::DataChars => Step::Continue,
        Tok::Invalid => Step::Fail(XmlError::XML_ERROR_INVALID_TOKEN),
        Tok::PartialChar => {
            if haveMore {
                Step::Stop
            } else {
                Step::Fail(XmlError::XML_ERROR_PARTIAL_CHAR)
            }
        },
        Tok::Partial | Tok::TokNone => {
            if haveMore {
                Step::Stop
            } else {
                Step::Fail(XmlError::XML_ERROR_UNCLOSED_CDATA_SECTION)
            }
        },
        _ => Step::Fail(XmlError::XML_ERROR_UNEXPECTED_STATE),
    }
}

/// What the reader of an ignored section of the DTD does with token `tok`.
pub open spec fn ignore_step(tok: Tok, haveMore: bool) -> Step {
    match tok {
        Tok::IgnoreSect => Step::Done,
        Tok::Invalid => Step::Fail(XmlError::XML_ERROR_INVALID_TOKEN),
        Tok::PartialChar => if haveMore {
            Step::Stop
        } else {
            Step::Fail(XmlError::XML_ERROR_PARTIAL_CHAR)
        },
        Tok::Partial | Tok::TokNone => if haveMore {
            Step::Stop
        } else {
            Step::Fail(XmlError::XML_ERROR_SYNTAX)
        },
        _ => Step::Fail(XmlError::XML_ERROR_UNEXPECTED_STATE),
    }
}

/// Take token `tok` at the start of an ignored section.
#[allow(non_snake_case)]
pub fn ignoreSectionToken(tok: Tok, haveMore: bool) -> (r: Step)
    ensures
        r == ignore_step(tok, haveMore),
{
    match tok {
        Tok::IgnoreSect => Step::Done,
        Tok::Invalid => Step::Fail(XmlError::XML_ERROR_INVALID_TOKEN),
        Tok::PartialChar => {
            if haveMore {
                Step::Stop
            } else {
                Step::Fail(XmlError::XML_ERROR_PARTIAL_CHAR)
            }
        },
        Tok::Partial | Tok::TokNone => {
            if haveMore {
                Step::Stop
            } else {
                Step::Fail(XmlError::XML_ERROR_SYNTAX)
            }
        },
        _ => Step::Fail(XmlError::XML_ERROR_UNEXPECTED_STATE),
    }
}

/// What the parser knows of a declared general entity when it is referred to.
#[derive(PartialEq, Eq, Structural, Clone, Copy, Debug)]
#[allow(non_snake_case)]
pub struct EntityInfo {
    pub is_internal: bool,
    pub open: bool,
    pub hasNotation: bool,
    pub hasText: bool,
}

/// What a reference to a general entity in content leads to.
#[derive(PartialEq, Eq, Structural, Clone, Copy, Debug)]
pub enum EntityRefAction {
    /// The reference is an error.
    Fail(XmlError),
    /// The entity is not expanded; the reference is reported as skipped.
    Skipped,
    /// The replacement text of the internal entity is parsed in place.
    ExpandInternal,
    /// The external entity is handed to the external entity handler.
    External,
}

/// The decision on a reference to the general entity `entity` (`None` when
/// it is not declared). Undeclared entities are errors unless the DTD refers
/// to parameter entities and the document is not standalone; an entity in
/// use, or one with a notation, cannot be referred to; internal entities are
/// expanded when `expandInternal`.
pub open spec fn entity_ref_action(
    hasParamEntityRefs: bool,
    standalone: bool,
    entity: Option<EntityInfo>,
    expandInternal: bool,
) -> EntityRefAction {
    if (!hasParamEntityRefs || standalone) && entity.is_none() {
        EntityRefAction::Fail(XmlError::XML_ERROR_UNDEFINED_ENTITY)
    } else if (!hasParamEntityRefs || standalone) && !entity.unwrap().is_internal {
        EntityRefAction::Fail(XmlError::XML_ERROR_ENTITY_DECLARED_IN_PE)
    } else if entity.is_none() {
        EntityRefAction::Skipped
    } else if entity.unwrap().open {
        EntityRefAction::Fail(XmlError::XML_ERROR_RECURSIVE_ENTITY_REF)
    } else if entity.unwrap().hasNotation {
        EntityRefAction::Fail(XmlError::XML_ERROR_BINARY_ENTITY_REF)
    } else if entity.unwrap().hasText {
        if expandInternal {
            EntityRefAction::ExpandInternal
        } else {
            EntityRefAction::Skipped
        }
    } else {
        EntityRefAction::External
    }
}

/// Decide on a reference to a general entity in content.
#[allow(non_snake_case)]
pub fn entityRefAction(
    hasParamEntityRefs: bool,
    standalone: bool,
    entity: Option<EntityInfo>,
    defaultExpandInternalEntities: bool,
) -> (r: EntityRefAction)
    ensures
        r == entity_ref_action(hasParamEntityRefs, standalone, entity, defaultExpandInternalEntities),
{
    let e = match entity {
        None => {
            if !hasParamEntityRefs || standalone {
                return EntityRefAction::Fail(XmlError::XML_ERROR_UNDEFINED_ENTITY);
            }
            return EntityRefAction::Skipped;
        },
        Some(e) => e,
    };
    if (!hasParamEntityRefs || standalone) && !e.is_internal {
        return EntityRefAction::Fail(XmlError::XML_ERROR_ENTITY_DECLARED_IN_PE);
    }
    if e.open {
        return EntityRefAction::Fail(XmlError::XML_ERROR_RECURSIVE_ENTITY_REF);
    }
    if e.hasNotation {
        return EntityRefAction::Fail(XmlError::XML_ERROR_BINARY_ENTITY_REF);
    }
    if e.hasText {
        if defaultExpandInternalEntities {
            EntityRefAction::ExpandInternal
        } else {
            EntityRefAction::Skipped
        }
    } else {
        EntityRefAction::External
    }
}

/// A reference in content to a declared entity that is closed, has no
/// notation and no replacement text (a parsed external entity) and passes
/// the declaration check is handed to the external entity handler,
/// whatever the DTD's parameter entity references, the standalone flag or
/// the expansion of internal entities.
pub proof fn lemma_external_entity_handed_over(
    hasParamEntityRefs: bool,
    standalone: bool,
    info: EntityInfo,
    expandInternal: bool,
)
    requires
        !info.open,
        !info.hasNotation,
        !info.hasText,
        info.is_internal || (hasParamEntityRefs && !standalone),
    ensures
        entity_ref_action(hasParamEntityRefs, standalone, Some(info), expandInternal) == EntityRefAction::External,
{
}

/// The decision on a reference to an entity declared in the document
/// itself does not depend on whether the DTD refers to parameter entities.
pub proof fn lemma_entity_ref_independent_of_param_refs(
    standalone: bool,
    info: EntityInfo,
    expandInternal: bool,
)
    requires
        info.is_internal,
    ensures
        entity_ref_action(true, standalone, Some(info), expandInternal) == entity_ref_action(
            false,
            standalone,
            Some(info),
            expandInternal,
        ),
{
}

/// Only an entity that is not declared is skipped (or an internal one that
/// is not expanded); a declared entity with no replacement text is never
/// skipped.
pub proof fn lemma_skipped_only_undeclared_or_unexpanded(
    hasParamEntityRefs: bool,
    standalone: bool,
    entity: Option<EntityInfo>,
    expandInternal: bool,
)
    ensures
        entity_ref_action(hasParamEntityRefs, standalone, entity, expandInternal) == EntityRefAction::Skipped
            ==> entity is None || (entity.unwrap().hasText && !expandInternal),
{
}

/// An entity that is open, or that has a notation, is never parsed where
/// it is referred to; an internal entity is expanded only when internal
/// entities are expanded, and then only one with replacement text.
pub proof fn lemma_entity_ref_never_parses_open_or_unparsed(
    hasParamEntityRefs: bool,
    standalone: bool,
    entity: Option<EntityInfo>,
    expandInternal: bool,
)
    ensures
        entity matches Some(info) && (info.open || info.hasNotation) ==> !(entity_ref_action(
            hasParamEntityRefs,
            standalone,
            entity,
            expandInternal,
        ) is ExpandInternal || entity_ref_action(hasParamEntityRefs, standalone, entity, expandInternal) is External),
        entity_ref_action(hasParamEntityRefs, standalone, entity, expandInternal) is ExpandInternal ==> expandInternal
            && (entity matches Some(info) && info.hasText && !info.open && !info.hasNotation),
        entity_ref_action(hasParamEntityRefs, standalone, entity, expandInternal) is External ==> (entity matches Some(
            info,
        ) && !info.hasText && !info.open && !info.hasNotation),
        entity matches Some(info) && info.open && (info.is_internal || (hasParamEntityRefs && !standalone))
            ==> entity_ref_action(hasParamEntityRefs, standalone, entity, expandInternal) == EntityRefAction::Fail(
            XmlError::XML_ERROR_RECURSIVE_ENTITY_REF,
        ),
        entity is None && (!hasParamEntityRefs || standalone) ==> entity_ref_action(
            hasParamEntityRefs,
            standalone,
            entity,
            expandInternal,
        ) == EntityRefAction::Fail(XmlError::XML_ERROR_UNDEFINED_ENTITY),
        entity is None && hasParamEntityRefs && !standalone ==> entity_ref_action(
            hasParamEntityRefs,
            standalone,
            entity,
            expandInternal,
        ) == EntityRefAction::Skipped,
{
}

/// A token that the end of the input cuts inside a CDATA section waits for
/// more input when some is to come, and is an error at the end of the
/// document; an invalid token is always an error.
pub proof fn lemma_cdata_cut_tokens(tok: Tok, haveMore: bool)
    requires
        tok == Tok::Partial || tok == Tok::PartialChar || tok == Tok::TokNone || tok == Tok::Invalid,
    ensures
        tok == Tok::Invalid ==> cdata_step(tok, haveMore) == Step::Fail(XmlError::XML_ERROR_INVALID_TOKEN),
        tok != Tok::Invalid && haveMore ==> cdata_step(tok, haveMore) == Step::Stop,
        tok == Tok::PartialChar && !haveMore ==> cdata_step(tok, haveMore) == Step::Fail(
            XmlError::XML_ERROR_PARTIAL_CHAR,
        ),
        (tok == Tok::Partial || tok == Tok::TokNone) && !haveMore ==> cdata_step(tok, haveMore) == Step::Fail(
            XmlError::XML_ERROR_UNCLOSED_CDATA_SECTION,
        ),
{
}

/// In content, character data, line ends, character references that name
/// a character, comments, processing instructions, entity references and
/// the start of a CDATA section leave the open elements as they are and go
/// on with the next token.
pub proof fn lemma_content_data_continues(stack: Seq<Seq<u8>>, tok: Tok, name: Seq<u8>, haveMore: bool, start: nat)
    requires
        tok == Tok::DataChars || tok == Tok::DataNewline || tok == Tok::Pi || tok == Tok::Comment || tok
            == Tok::EntityRef || tok == Tok::CdataSectOpen || (tok matches Tok::CharRef(n) && n >= 0),
    ensures
        content_step(stack, tok, name, haveMore, start) == (stack, Step::Continue),
{
}

/// After the root element, white space, comments and processing
/// instructions go on, and the end of the input stops reading.
pub proof fn lemma_epilog_misc_continues(tok: Tok, finalBuffer: bool)
    ensures
        (tok == Tok::PrologS || tok == Tok::Pi || tok == Tok::Comment) ==> epilog_step(tok, finalBuffer)
            == Step::Continue,
        tok == Tok::TokNone ==> epilog_step(tok, finalBuffer) == Step::Stop,
        epilog_step(tok, finalBuffer) != Step::Epilog,
{
}

/// An ignored section ends at its closing token; a token that the end of
/// the input cuts waits for more input when some is to come, and is an
/// error at the end of the document.
pub proof fn lemma_ignore_section_steps(tok: Tok, haveMore: bool)
    ensures
        ignore_step(tok, haveMore) == Step::Done <==> tok == Tok::IgnoreSect,
        tok == Tok::Invalid ==> ignore_step(tok, haveMore) == Step::Fail(XmlError::XML_ERROR_INVALID_TOKEN),
        (tok == Tok::Partial || tok == Tok::PartialChar || tok == Tok::TokNone) && haveMore ==> ignore_step(
            tok,
            haveMore,
        ) == Step::Stop,
        (tok == Tok::Partial || tok == Tok::TokNone) && !haveMore ==> ignore_step(tok, haveMore) == Step::Fail(
            XmlError::XML_ERROR_SYNTAX,
        ),
        tok == Tok::PartialChar && !haveMore ==> ignore_step(tok, haveMore) == Step::Fail(
            XmlError::XML_ERROR_PARTIAL_CHAR,
        ),
{
}

/// Inside a CDATA section every token of character data, line ends
/// included, continues the section, whether more input is to come or not.
pub proof fn lemma_cdata_data_continues(tok: Tok, haveMore: bool)
    requires
        tok == Tok::DataChars || tok == Tok::DataNewline,
    ensures
        cdata_step(tok, haveMore) == Step::Continue,
{
}

/// Only the end of the section ends it, and a CDATA section never starts
/// the epilog; it fails only on a token that is invalid, cut by the end of
/// the input, or cannot stand in it.
pub proof fn lemma_cdata_ends_only_at_close(tok: Tok, haveMore: bool)
    ensures
        cdata_step(tok, haveMore) == Step::Done <==> tok == Tok::CdataSectClose,
        cdata_step(tok, haveMore) != Step::Epilog,
        cdata_step(tok, haveMore) is Fail ==> !(tok == Tok::DataChars || tok == Tok::DataNewline
            || tok == Tok::CdataSectClose),
        cdata_step(tok, haveMore) == Step::Fail(XmlError::XML_ERROR_UNEXPECTED_STATE) ==> !(tok == Tok::Invalid
            || tok == Tok::Partial || tok == Tok::PartialChar || tok == Tok::TokNone || tok == Tok::DataChars
            || tok == Tok::DataNewline || tok == Tok::CdataSectClose),
{
}

/// An element that is opened and then closed by an end tag of the same raw
/// name leaves the open elements as they were; closing the root element
/// starts the epilog.
pub proof fn lemma_start_end_balanced(stack: Seq<Seq<u8>>, name: Seq<u8>, haveMore: bool, start: nat)
    requires
        start <= stack.len(),
    ensures
        ({
            let (opened, s1) = content_step(stack, Tok::StartTag, name, haveMore, start);
            let (closed, s2) = content_step(opened, Tok::EndTag, name, haveMore, start);
            &&& s1 == Step::Continue
            &&& closed == stack
            &&& s2 == if stack.len() == 0 { Step::Epilog } else { Step::Continue }
        }),
{
    assert(stack.push(name).drop_last() =~= stack);
}

/// An end tag that does not name the innermost open element is a mismatch
/// and closes nothing.
pub proof fn lemma_mismatched_end_tag(stack: Seq<Seq<u8>>, name: Seq<u8>, haveMore: bool, start: nat)
    requires
        start < stack.len(),
        stack.last() != name,
    ensures
        content_step(stack, Tok::EndTag, name, haveMore, start) == (
            stack,
            Step::Fail(XmlError::XML_ERROR_TAG_MISMATCH),
        ),
{
}

/// Content at the top of a document that ends before any element was
/// opened is an error: a document has a root element.
pub proof fn lemma_no_root_element(tok: Tok, name: Seq<u8>)
    requires
        tok == Tok::TokNone || tok == Tok::TrailingCr || tok == Tok::TrailingRsqb,
    ensures
        content_step(Seq::empty(), tok, name, false, 0).1 == Step::Fail(XmlError::XML_ERROR_NO_ELEMENTS),
{
}

/// After the root element only white space, comments and processing
/// instructions may follow: another element is junk.
pub proof fn lemma_one_root_element(finalBuffer: bool)
    ensures
        epilog_step(Tok::StartTag, finalBuffer) == Step::Fail(XmlError::XML_ERROR_JUNK_AFTER_DOC_ELEMENT),
        epilog_step(Tok::EmptyElement, finalBuffer) == Step::Fail(XmlError::XML_ERROR_JUNK_AFTER_DOC_ELEMENT),
        epilog_step(Tok::DataChars, finalBuffer) == Step::Fail(XmlError::XML_ERROR_JUNK_AFTER_DOC_ELEMENT),
{
}

/// An element event reported to the application, by raw name: a start
/// tag, or an end tag (an empty element reports both).
#[derive(PartialEq, Eq, Debug)]
pub enum ElementEvent {
    Start(Vec<u8>),
    End(Vec<u8>),
}

/// An element event as bytes.
pub enum ElementEventV {
    Start(Seq<u8>),
    End(Seq<u8>),
}

impl ElementEvent {
    pub open spec fn view(&self) -> ElementEventV {
        match self {
            ElementEvent::Start(n) => ElementEventV::Start(n@),
            ElementEvent::End(n) => ElementEventV::End(n@),
        }
    }
}

/// The events that token `tok` (raw name `name`) reports with the open
/// elements `stack`: a start tag starts an element, an empty element
/// starts and ends one, an end tag that is taken ends one.
pub open spec fn content_events(stack: Seq<Seq<u8>>, tok: Tok, name: Seq<u8>, haveMore: bool, start: nat) -> Seq<
    ElementEventV,
> {
    match tok {
        Tok::StartTag => seq![ElementEventV::Start(name)],
        Tok::EmptyElement => seq![ElementEventV::Start(name), ElementEventV::End(name)],
        Tok::EndTag => if content_step(stack, tok, name, haveMore, start).1 is Fail {
            Seq::empty()
        } else {
            seq![ElementEventV::End(name)]
        },
        _ => Seq::empty(),
    }
}

/// The open elements after the events `evs`, starting from `stack`, where
/// each end event must name the innermost open element (`None` where one
/// does not).
pub open spec fn replay(stack: Seq<Seq<u8>>, evs: Seq<ElementEventV>) -> Option<Seq<Seq<u8>>>
    decreases evs.len(),
{
    if evs.len() == 0 {
        Some(stack)
    } else {
        match evs[0] {
            ElementEventV::Start(n) => replay(stack.push(n), evs.drop_first()),
            ElementEventV::End(n) => if stack.len() > 0 && stack.last() == n {
                replay(stack.drop_last(), evs.drop_first())
            } else {
                None
            },
        }
    }
}

/// The open elements, the events and whether an error came, after the
/// tokens `toks` (each with its raw name) from the open elements `stack`.
pub open spec fn run_content(stack: Seq<Seq<u8>>, toks: Seq<(Tok, Seq<u8>)>, haveMore: bool, start: nat) -> (
    Seq<Seq<u8>>,
    Seq<ElementEventV>,
    bool,
)
    decreases toks.len(),
{
    if toks.len() == 0 {
        (stack, Seq::empty(), false)
    } else {
        let (s1, st) = content_step(stack, toks[0].0, toks[0].1, haveMore, start);
        if st is Fail {
            (stack, Seq::empty(), true)
        } else {
            let (s2, evs, failed) = run_content(s1, toks.drop_first(), haveMore, start);
            (s2, content_events(stack, toks[0].0, toks[0].1, haveMore, start) + evs, failed)
        }
    }
}

impl TagStack {
    /// Take the token `tok` as `contentToken` does, and give the element
    /// events that it reports.
    #[allow(non_snake_case)]
    pub fn contentTokenEvents(&mut self, tok: Tok, rawName: &[u8], haveMore: bool, startTagLevel: usize) -> (r: (
        Step,
        Vec<ElementEvent>,
    ))
        requires
            startTagLevel <= old(self)@.len(),
        ensures
            (final(self)@, r.0) == content_step(old(self)@, tok, rawName@, haveMore, startTagLevel as nat),
            startTagLevel <= final(self)@.len(),
            r.1@.map_values(|e: ElementEvent| e@) == content_events(
                old(self)@,
                tok,
                rawName@,
                haveMore,
                startTagLevel as nat,
            ),
    {
        let step = self.contentToken(tok, rawName, haveMore, startTagLevel);
        let mut evs: Vec<ElementEvent> = Vec::new();
        match tok {
            Tok::StartTag => {
                evs.push(ElementEvent::Start(copy_string(rawName)));
            },
            Tok::EmptyElement => {
                evs.push(ElementEvent::Start(copy_string(rawName)));
                evs.push(ElementEvent::End(copy_string(rawName)));
            },
            Tok::EndTag => {
                if let Step::Fail(_) = step {
                } else {
                    evs.push(ElementEvent::End(copy_string(rawName)));
                }
            },
            _ => {},
        }
        proof {
            assert(evs@.map_values(|e: ElementEvent| e@) =~= content_events(
                old(self)@,
                tok,
                rawName@,
                haveMore,
                startTagLevel as nat,
            ));
        }
        (step, evs)
    }
}

proof fn lemma_replay_append(stack: Seq<Seq<u8>>, a: Seq<ElementEventV>, b: Seq<ElementEventV>)
    ensures
        replay(stack, a + b) == match replay(stack, a) {
            Some(s) => replay(s, b),
            None => None,
        },
    decreases a.len(),
{
    if a.len() > 0 {
        assert((a + b).drop_first() =~= a.drop_first() + b);
        assert((a + b)[0] == a[0]);
        match a[0] {
            ElementEventV::Start(n) => lemma_replay_append(stack.push(n), a.drop_first(), b),
            ElementEventV::End(n) => if stack.len() > 0 && stack.last() == n {
                lemma_replay_append(stack.drop_last(), a.drop_first(), b);
            },
        }
    } else {
        assert(a + b =~= b);
    }
}

proof fn lemma_step_events(stack: Seq<Seq<u8>>, tok: Tok, name: Seq<u8>, haveMore: bool, start: nat)
    requires
        start <= stack.len(),
        !(content_step(stack, tok, name, haveMore, start).1 is Fail),
    ensures
        replay(stack, content_events(stack, tok, name, haveMore, start)) == Some(
            content_step(stack, tok, name, haveMore, start).0,
        ),
{
    let evs = content_events(stack, tok, name, haveMore, start);
    let after = content_step(stack, tok, name, haveMore, start).0;
    if tok == Tok::StartTag {
        assert(evs[0] == ElementEventV::Start(name));
        assert(evs.drop_first().len() == 0);
        assert(replay(stack.push(name), evs.drop_first()) == Some(stack.push(name)));
        assert(replay(stack, evs) == Some(after));
    } else if tok == Tok::EmptyElement {
        assert(evs[0] == ElementEventV::Start(name));
        assert(evs.drop_first() =~= seq![ElementEventV::End(name)]);
        assert(evs.drop_first().drop_first().len() == 0);
        assert(stack.push(name).drop_last() =~= stack);
        assert(replay(stack.push(name).drop_last(), evs.drop_first().drop_first()) == Some(stack));
        assert(replay(stack.push(name), evs.drop_first()) == Some(stack));
        assert(replay(stack, evs) == Some(after));
    } else if tok == Tok::EndTag {
        assert(evs[0] == ElementEventV::End(name));
        assert(evs.drop_first().len() == 0);
        assert(replay(stack.drop_last(), evs.drop_first()) == Some(stack.drop_last()));
        assert(replay(stack, evs) == Some(after));
    } else {
        assert(evs.len() == 0);
        assert(replay(stack, evs) == Some(after));
    }
}

/// End tags close elements innermost first: over any run of content tokens
/// without an error, each end event names the innermost element still open
/// (an empty element reports its start and then its end), and replaying the
/// events on the open elements gives the open elements after the run.
pub proof fn lemma_end_events_innermost_first(
    stack: Seq<Seq<u8>>,
    toks: Seq<(Tok, Seq<u8>)>,
    haveMore: bool,
    start: nat,
)
    requires
        start <= stack.len(),
        !run_content(stack, toks, haveMore, start).2,
    ensures
        replay(stack, run_content(stack, toks, haveMore, start).1) == Some(run_content(stack, toks, haveMore, start).0),
    decreases toks.len(),
{
    if toks.len() > 0 {
        let (s1, st) = content_step(stack, toks[0].0, toks[0].1, haveMore, start);
        lemma_step_events(stack, toks[0].0, toks[0].1, haveMore, start);
        lemma_step_start_kept(stack, toks[0].0, toks[0].1, haveMore, start);
        lemma_end_events_innermost_first(s1, toks.drop_first(), haveMore, start);
        lemma_replay_append(
            stack,
            content_events(stack, toks[0].0, toks[0].1, haveMore, start),
            run_content(s1, toks.drop_first(), haveMore, start).1,
        );
    }
}

proof fn lemma_step_start_kept(stack: Seq<Seq<u8>>, tok: Tok, name: Seq<u8>, haveMore: bool, start: nat)
    requires
        start <= stack.len(),
    ensures
        start <= content_step(stack, tok, name, haveMore, start).0.len(),
{
}

/// What content processing does after the handlers of a token ran:
/// suspended by a handler, it stops after the token; stopped by one, it is
/// `XML_ERROR_ABORTED`; asked to run again, it stops after the token.
pub open spec fn after_content_token(parsing: XML_Parsing, reenter: bool) -> Step {
    match parsing {
        XML_Parsing::XML_SUSPENDED => Step::Done,
        XML_Parsing::XML_FINISHED => Step::Fail(XmlError::XML_ERROR_ABORTED),
        XML_Parsing::XML_PARSING => if reenter {
            Step::Done
        } else {
            Step::Continue
        },
        _ => Step::Continue,
    }
}

impl XML_ParserStruct {
    /// Decide, after the handlers of a content token that ends at `next`
    /// ran, whether content processing goes on. Where a handler suspended or
    /// stopped the parser, the event position moves to the token's end.
    #[allow(non_snake_case)]
    pub fn contentAfterToken(&mut self, next: usize) -> (r: Step)
        requires
            old(self).wf(),
            next <= old(self).m_buffer.len(),
        ensures
            final(self).wf(),
            r == after_content_token(old(self).m_parsingStatus.parsing, old(self).m_reenter),
            *final(self) == if old(self).m_parsingStatus.parsing == XML_Parsing::XML_SUSPENDED
                || old(self).m_parsingStatus.parsing == XML_Parsing::XML_FINISHED {
                XML_ParserStruct { m_eventPtr: Some(next), ..*old(self) }
            } else {
                *old(self)
            },
    {
        match self.m_parsingStatus.parsing {
            XML_Parsing::XML_SUSPENDED => {
                self.m_eventPtr = Some(next);
                Step::Done
            },
            XML_Parsing::XML_FINISHED => {
                self.m_eventPtr = Some(next);
                Step::Fail(XmlError::XML_ERROR_ABORTED)
            },
            XML_Parsing::XML_PARSING => if self.m_reenter {
                Step::Done
            } else {
                Step::Continue
            },
            _ => Step::Continue,
        }
    }
}

/// What a CDATA section reports to the application for a token: its end,
/// or character data (a line end as a line feed).
#[derive(PartialEq, Eq, Debug)]
pub enum CdataEvent {
    EndSection,
    Data(Vec<u8>),
}

/// Decide what follows a token of a CDATA section (`data`: its characters)
/// once its step was `step`: the event to report, and the step after the
/// handlers ran. The end of the section ends reading, or is
/// `XML_ERROR_ABORTED` when a handler stopped the parser; after data, a
/// handler that suspended the parser stops reading after the token, one
/// that stopped it is `XML_ERROR_ABORTED`, and a request to run again is
/// `XML_ERROR_UNEXPECTED_STATE`.
#[allow(non_snake_case)]
pub fn cdataTokenReport(tok: Tok, data: &[u8], parsing: XML_Parsing, reenter: bool) -> (r: (Option<CdataEvent>, Step))
    requires
        tok == Tok::CdataSectClose || tok == Tok::DataChars || tok == Tok::DataNewline,
    ensures
        tok == Tok::CdataSectClose ==> r.0 == Some(CdataEvent::EndSection) && r.1 == if parsing
            == XML_Parsing::XML_FINISHED {
            Step::Fail(XmlError::XML_ERROR_ABORTED)
        } else {
            Step::Done
        },
        tok == Tok::DataNewline ==> (r.0 matches Some(CdataEvent::Data(d)) && d@ == seq![0x0au8]),
        tok == Tok::DataChars ==> (r.0 matches Some(CdataEvent::Data(d)) && d@ == data@),
        tok != Tok::CdataSectClose ==> r.1 == match parsing {
            XML_Parsing::XML_SUSPENDED => Step::Done,
            XML_Parsing::XML_FINISHED => Step::Fail(XmlError::XML_ERROR_ABORTED),
            XML_Parsing::XML_PARSING => if reenter {
                Step::Fail(XmlError::XML_ERROR_UNEXPECTED_STATE)
            } else {
                Step::Continue
            },
            _ => Step::Continue,
        },
{
    if tok == Tok::CdataSectClose {
        let st = if parsing == XML_Parsing::XML_FINISHED {
            Step::Fail(XmlError::XML_ERROR_ABORTED)
        } else {
            Step::Done
        };
        return (Some(CdataEvent::EndSection), st);
    }
    let ev = if tok == Tok::DataNewline {
        let mut v: Vec<u8> = Vec::new();
        v.push(0x0a);
        proof {
            assert(v@ =~= seq![0x0au8]);
        }
        CdataEvent::Data(v)
    } else {
        CdataEvent::Data(copy_string(data))
    };
    let st = match parsing {
        XML_Parsing::XML_SUSPENDED => Step::Done,
        XML_Parsing::XML_FINISHED => Step::Fail(XmlError::XML_ERROR_ABORTED),
        XML_Parsing::XML_PARSING => if reenter {
            Step::Fail(XmlError::XML_ERROR_UNEXPECTED_STATE)
        } else {
            Step::Continue
        },
        _ => Step::Continue,
    };
    (Some(ev), st)
}

/// Character data in content as reported to the application: to the
/// character data handler (the characters), or else to the default handler
/// (the bytes of the token as they stand).
#[derive(PartialEq, Eq, Debug)]
pub enum DataEvent {
    CharacterData(Vec<u8>),
    Default(Vec<u8>),
}

/// A data event as bytes.
pub enum DataEventV {
    CharacterData(Seq<u8>),
    Default(Seq<u8>),
}

impl DataEvent {
    pub open spec fn view(&self) -> DataEventV {
        match self {
            DataEvent::CharacterData(d) => DataEventV::CharacterData(d@),
            DataEvent::Default(d) => DataEventV::Default(d@),
        }
    }
}

/// The characters that a token of character data stands for: its bytes,
/// a line feed for a line end, the UTF-8 encoding of a character reference.
pub open spec fn data_chars(tok: Tok, raw: Seq<u8>) -> Seq<u8> {
    match tok {
        Tok::DataNewline => seq![0x0au8],
        Tok::CharRef(n) => utf8_encode(n as int),
        _ => raw,
    }
}

/// What the token `tok` of character data (with the bytes `raw`) reports:
/// its characters to the character data handler when there is one, else
/// its bytes to the default handler when there is one, else nothing.
pub open spec fn data_event(tok: Tok, raw: Seq<u8>, hasCharacterDataHandler: bool, hasDefaultHandler: bool) -> Option<
    DataEventV,
> {
    if hasCharacterDataHandler {
        Some(DataEventV::CharacterData(data_chars(tok, raw)))
    } else if hasDefaultHandler {
        Some(DataEventV::Default(raw))
    } else {
        None
    }
}

/// Report a token of character data in content (characters, a line end,
/// or a character reference that names a character).
#[allow(non_snake_case)]
pub fn contentDataEvent(tok: Tok, raw: &[u8], hasCharacterDataHandler: bool, hasDefaultHandler: bool) -> (r: Option<
    DataEvent,
>)
    requires
        tok == Tok::DataChars || tok == Tok::DataNewline || (tok matches Tok::CharRef(n) && n >= 0),
    ensures
        match r {
            Some(e) => data_event(tok, raw@, hasCharacterDataHandler, hasDefaultHandler) == Some(e@),
            None => data_event(tok, raw@, hasCharacterDataHandler, hasDefaultHandler) is None,
        },
{
    if hasCharacterDataHandler {
        let chars = match tok {
            Tok::DataNewline => {
                let mut v: Vec<u8> = Vec::new();
                v.push(0x0a);
                assert(v@ =~= seq![0x0au8]);
                v
            },
            Tok::CharRef(n) => XmlUtf8Encode(n),
            _ => copy_string(raw),
        };
        Some(DataEvent::CharacterData(chars))
    } else if hasDefaultHandler {
        Some(DataEvent::Default(copy_string(raw)))
    } else {
        None
    }
}

/// Where in its token an error of content, of the epilog or of a CDATA
/// section is reported (the parser's event position): at the token's
/// start, after its end, or at the raw name of a tag.
#[derive(PartialEq, Eq, Structural, Clone, Copy, Debug)]
pub enum ErrorPlace {
    TokenStart,
    TokenEnd,
    TagName,
}

/// The place of the error `e` that the token `tok` caused (`inCdata`: in a
/// CDATA section): a mismatched end tag at its name, an invalid token (and,
/// in a CDATA section, a token that cannot stand there) after its end, any
/// other at the token's start.
#[allow(non_snake_case)]
pub fn errorPlace(tok: Tok, e: XmlError, inCdata: bool) -> (r: ErrorPlace)
    ensures
        r == if !inCdata && e == XmlError::XML_ERROR_TAG_MISMATCH {
            ErrorPlace::TagName
        } else if tok == Tok::Invalid || (inCdata && e == XmlError::XML_ERROR_UNEXPECTED_STATE) {
            ErrorPlace::TokenEnd
        } else {
            ErrorPlace::TokenStart
        },
{
    if !inCdata && e == XmlError::XML_ERROR_TAG_MISMATCH {
        ErrorPlace::TagName
    } else if tok == Tok::Invalid || (inCdata && e == XmlError::XML_ERROR_UNEXPECTED_STATE) {
        ErrorPlace::TokenEnd
    } else {
        ErrorPlace::TokenStart
    }
}

} // verus!
