//! The decisions that the prolog processor takes before a token reaches
//! the role machine: the end of the input, tokens cut by it, and the
//! errors reported for a token that no role admits.
use vstd::prelude::*;
use crate::errors::XmlError;

verus! {

/// How the tokenizer ended a token of the prolog.
#[derive(PartialEq, Eq, Structural, Clone, Copy, Debug)]
pub enum PrologTok {
    /// A whole token.
    Token,
    /// A token that the end of the input may have cut; it counts as whole
    /// when no more input comes.
    Trailing,
    /// No token: the input is used up.
    TokNone,
    /// Bytes that are no token.
    Invalid,
    /// A token cut by the end of the input.
    Partial,
    /// A character cut by the end of the input.
    PartialChar,
}

/// What the prolog processor does with a token before the role machine.
#[derive(PartialEq, Eq, Structural, Clone, Copy, Debug)]
pub enum PrologStep {
    /// Hand the token to the role machine.
    Go,
    /// Stop before the token: the input ends there for now.
    Stop,
    /// The text of a parameter entity ends: the role machine is asked
    /// whether a declaration is left open (`XML_ERROR_INCOMPLETE_PE`).
    CheckIncompletePe,
    /// Stop with an error.
    Fail(XmlError),
}

/// Decide what the prolog processor does with a token of kind `tok`: an
/// invalid token is an error at once; any other token that is not whole
/// waits for more input when some is to come. At the end of the input a
/// cut token or character is an error, the document entity without an
/// element is `XML_ERROR_NO_ELEMENTS`, and the text of a parameter entity
/// is checked for an open declaration. `haveMore` tells whether more input
/// is to come, `inInternalEntity` whether the text is that of an internal
/// entity (which stands between declarations when `betweenDecl`), and
/// `isParamEntity` whether the parser reads an external parameter entity.
#[allow(non_snake_case)]
pub fn prologToken(
    tok: PrologTok,
    haveMore: bool,
    inInternalEntity: bool,
    betweenDecl: bool,
    isParamEntity: bool,
) -> (r: PrologStep)
    ensures
        tok == PrologTok::Token ==> r == PrologStep::Go,
        tok == PrologTok::Invalid ==> r == PrologStep::Fail(XmlError::XML_ERROR_INVALID_TOKEN),
        tok != PrologTok::Token && tok != PrologTok::Invalid && haveMore ==> r == PrologStep::Stop,
        !haveMore ==> {
            &&& tok == PrologTok::Trailing ==> r == PrologStep::Go
            &&& tok == PrologTok::Partial ==> r == PrologStep::Fail(XmlError::XML_ERROR_UNCLOSED_TOKEN)
            &&& tok == PrologTok::PartialChar ==> r == PrologStep::Fail(XmlError::XML_ERROR_PARTIAL_CHAR)
            &&& tok == PrologTok::TokNone ==> r == if inInternalEntity && !betweenDecl {
                PrologStep::Stop
            } else if isParamEntity || inInternalEntity {
                PrologStep::CheckIncompletePe
            } else {
                PrologStep::Fail(XmlError::XML_ERROR_NO_ELEMENTS)
            }
        },
{
    match tok {
        PrologTok::Token => PrologStep::Go,
        PrologTok::Invalid => PrologStep::Fail(XmlError::XML_ERROR_INVALID_TOKEN),
        _ => if haveMore {
            PrologStep::Stop
        } else {
            match tok {
                PrologTok::Partial => PrologStep::Fail(XmlError::XML_ERROR_UNCLOSED_TOKEN),
                PrologTok::PartialChar => PrologStep::Fail(XmlError::XML_ERROR_PARTIAL_CHAR),
                PrologTok::TokNone => if inInternalEntity && !betweenDecl {
                    PrologStep::Stop
                } else if isParamEntity || inInternalEntity {
                    PrologStep::CheckIncompletePe
                } else {
                    PrologStep::Fail(XmlError::XML_ERROR_NO_ELEMENTS)
                },
                _ => PrologStep::Go,
            }
        },
    }
}

/// The kind of a token that the role machine refused.
#[derive(PartialEq, Eq, Structural, Clone, Copy, Debug)]
pub enum RefusedTok {
    /// A parameter entity reference.
    ParamEntityRef,
    /// An XML declaration.
    XmlDecl,
    /// Any other token.
    Other,
}

/// The error for a token that the role machine refused: a parameter entity
/// reference where none may stand is `XML_ERROR_PARAM_ENTITY_REF`, an XML
/// declaration after the start `XML_ERROR_MISPLACED_XML_PI`, and any other
/// token `XML_ERROR_SYNTAX`.
#[allow(non_snake_case)]
pub fn roleError(tok: RefusedTok) -> (r: XmlError)
    ensures
        r == match tok {
            RefusedTok::ParamEntityRef => XmlError::XML_ERROR_PARAM_ENTITY_REF,
            RefusedTok::XmlDecl => XmlError::XML_ERROR_MISPLACED_XML_PI,
            RefusedTok::Other => XmlError::XML_ERROR_SYNTAX,
        },
{
    match tok {
        RefusedTok::ParamEntityRef => XmlError::XML_ERROR_PARAM_ENTITY_REF,
        RefusedTok::XmlDecl => XmlError::XML_ERROR_MISPLACED_XML_PI,
        RefusedTok::Other => XmlError::XML_ERROR_SYNTAX,
    }
}

} // verus!
