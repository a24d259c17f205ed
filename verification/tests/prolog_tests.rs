use lib::errors::XmlError;
use lib::prolog::{prologToken, roleError, PrologStep, PrologTok, RefusedTok};

#[test]
fn test_prolog_token_waits_for_more_input() {
    assert_eq!(prologToken(PrologTok::Token, true, false, false, false), PrologStep::Go);
    assert_eq!(prologToken(PrologTok::Partial, true, false, false, false), PrologStep::Stop);
    assert_eq!(prologToken(PrologTok::PartialChar, true, false, false, false), PrologStep::Stop);
    assert_eq!(prologToken(PrologTok::TokNone, true, false, false, false), PrologStep::Stop);
    assert_eq!(prologToken(PrologTok::Trailing, true, false, false, false), PrologStep::Stop);
    assert_eq!(
        prologToken(PrologTok::Invalid, true, false, false, false),
        PrologStep::Fail(XmlError::XML_ERROR_INVALID_TOKEN)
    );
}

#[test]
fn test_prolog_token_at_end_of_input() {
    assert_eq!(prologToken(PrologTok::Trailing, false, false, false, false), PrologStep::Go);
    assert_eq!(
        prologToken(PrologTok::Partial, false, false, false, false),
        PrologStep::Fail(XmlError::XML_ERROR_UNCLOSED_TOKEN)
    );
    assert_eq!(
        prologToken(PrologTok::PartialChar, false, false, false, false),
        PrologStep::Fail(XmlError::XML_ERROR_PARTIAL_CHAR)
    );
    assert_eq!(
        prologToken(PrologTok::TokNone, false, false, false, false),
        PrologStep::Fail(XmlError::XML_ERROR_NO_ELEMENTS)
    );
    assert_eq!(prologToken(PrologTok::TokNone, false, false, false, true), PrologStep::CheckIncompletePe);
    assert_eq!(prologToken(PrologTok::TokNone, false, true, true, false), PrologStep::CheckIncompletePe);
    assert_eq!(prologToken(PrologTok::TokNone, false, true, false, false), PrologStep::Stop);
}

#[test]
fn test_role_errors() {
    assert_eq!(roleError(RefusedTok::ParamEntityRef), XmlError::XML_ERROR_PARAM_ENTITY_REF);
    assert_eq!(roleError(RefusedTok::XmlDecl), XmlError::XML_ERROR_MISPLACED_XML_PI);
    assert_eq!(roleError(RefusedTok::Other), XmlError::XML_ERROR_SYNTAX);
}
