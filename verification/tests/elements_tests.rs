use lib::elements::{
    cdataSectionToken, entityRefAction, epilogToken, ignoreSectionToken, EntityInfo, EntityRefAction, Step, TagStack, Tok,
};
use lib::elements::{errorPlace, ErrorPlace, cdataTokenReport, contentDataEvent, CdataEvent, DataEvent, ElementEvent};
use lib::errors::XmlError;
use lib::parser::{XML_ParserStruct, XML_Parsing};

fn run(tokens: &[(Tok, &[u8])], have_more: bool) -> (Vec<Step>, usize) {
    let mut t = TagStack::new();
    let mut steps = Vec::new();
    for (tok, name) in tokens {
        steps.push(t.contentToken(*tok, name, have_more, 0));
    }
    (steps, t.tagLevel())
}

#[test]
fn test_nested_elements_close_in_order() {
    let (steps, level) = run(
        &[(Tok::StartTag, b"a"), (Tok::StartTag, b"b"), (Tok::DataChars, b""), (Tok::EndTag, b"b"), (Tok::EndTag, b"a")],
        true,
    );
    assert_eq!(steps, vec![Step::Continue, Step::Continue, Step::Continue, Step::Continue, Step::Epilog]);
    assert_eq!(level, 0);
}

#[test]
fn test_mismatched_end_tag() {
    let mut t = TagStack::new();
    t.contentToken(Tok::StartTag, b"a", true, 0);
    t.contentToken(Tok::StartTag, b"b", true, 0);
    assert_eq!(t.contentToken(Tok::EndTag, b"a", true, 0), Step::Fail(XmlError::XML_ERROR_TAG_MISMATCH));
    assert_eq!(t.tagLevel(), 2);
}

#[test]
fn test_empty_root_element_starts_epilog() {
    let mut t = TagStack::new();
    assert_eq!(t.contentToken(Tok::EmptyElement, b"", true, 0), Step::Epilog);
    t.contentToken(Tok::StartTag, b"r", true, 0);
    assert_eq!(t.contentToken(Tok::EmptyElement, b"", true, 0), Step::Continue);
}

#[test]
fn test_end_of_input() {
    let mut t = TagStack::new();
    assert_eq!(t.contentToken(Tok::TokNone, b"", true, 0), Step::Stop);
    assert_eq!(t.contentToken(Tok::TokNone, b"", false, 0), Step::Fail(XmlError::XML_ERROR_NO_ELEMENTS));
    assert_eq!(t.contentToken(Tok::TrailingCr, b"", false, 0), Step::Fail(XmlError::XML_ERROR_NO_ELEMENTS));
    assert_eq!(t.contentToken(Tok::Partial, b"", false, 0), Step::Fail(XmlError::XML_ERROR_UNCLOSED_TOKEN));
    assert_eq!(t.contentToken(Tok::PartialChar, b"", false, 0), Step::Fail(XmlError::XML_ERROR_PARTIAL_CHAR));
    assert_eq!(t.contentToken(Tok::Partial, b"", true, 0), Step::Stop);
    assert_eq!(t.contentToken(Tok::Invalid, b"", true, 0), Step::Fail(XmlError::XML_ERROR_INVALID_TOKEN));
}

#[test]
fn test_entity_content_must_be_balanced() {
    let mut t = TagStack::new();
    t.contentToken(Tok::StartTag, b"doc", true, 0);
    // The replacement text of an entity starts at depth 1.
    assert_eq!(t.contentToken(Tok::EndTag, b"doc", false, 1), Step::Fail(XmlError::XML_ERROR_ASYNC_ENTITY));
    t.contentToken(Tok::StartTag, b"x", false, 1);
    assert_eq!(t.contentToken(Tok::TokNone, b"", false, 1), Step::Fail(XmlError::XML_ERROR_ASYNC_ENTITY));
    t.contentToken(Tok::EndTag, b"x", false, 1);
    assert_eq!(t.contentToken(Tok::TokNone, b"", false, 1), Step::Stop);
    assert_eq!(t.contentToken(Tok::TrailingRsqb, b"", false, 1), Step::Done);
}

#[test]
fn test_char_refs_and_xml_decl() {
    let mut t = TagStack::new();
    t.contentToken(Tok::StartTag, b"r", true, 0);
    assert_eq!(t.contentToken(Tok::CharRef(65), b"", true, 0), Step::Continue);
    assert_eq!(t.contentToken(Tok::CharRef(-1), b"", true, 0), Step::Fail(XmlError::XML_ERROR_BAD_CHAR_REF));
    assert_eq!(t.contentToken(Tok::XmlDecl, b"", true, 0), Step::Fail(XmlError::XML_ERROR_MISPLACED_XML_PI));
}

#[test]
fn test_epilog() {
    assert_eq!(epilogToken(Tok::PrologS, true), Step::Continue);
    assert_eq!(epilogToken(Tok::Comment, true), Step::Continue);
    assert_eq!(epilogToken(Tok::Pi, false), Step::Continue);
    assert_eq!(epilogToken(Tok::TokNone, true), Step::Stop);
    assert_eq!(epilogToken(Tok::TrailingCr, true), Step::Done);
    assert_eq!(epilogToken(Tok::Partial, false), Step::Stop);
    assert_eq!(epilogToken(Tok::Partial, true), Step::Fail(XmlError::XML_ERROR_UNCLOSED_TOKEN));
    assert_eq!(epilogToken(Tok::PartialChar, true), Step::Fail(XmlError::XML_ERROR_PARTIAL_CHAR));
    assert_eq!(epilogToken(Tok::Invalid, false), Step::Fail(XmlError::XML_ERROR_INVALID_TOKEN));
    assert_eq!(epilogToken(Tok::StartTag, false), Step::Fail(XmlError::XML_ERROR_JUNK_AFTER_DOC_ELEMENT));
}

#[test]
fn test_entity_references() {
    let internal = EntityInfo { is_internal: true, open: false, hasNotation: false, hasText: true };
    let external = EntityInfo { is_internal: false, open: false, hasNotation: false, hasText: false };
    assert_eq!(entityRefAction(false, false, None, true), EntityRefAction::Fail(XmlError::XML_ERROR_UNDEFINED_ENTITY));
    assert_eq!(entityRefAction(true, false, None, true), EntityRefAction::Skipped);
    assert_eq!(entityRefAction(true, true, None, true), EntityRefAction::Fail(XmlError::XML_ERROR_UNDEFINED_ENTITY));
    assert_eq!(entityRefAction(false, false, Some(internal), true), EntityRefAction::ExpandInternal);
    assert_eq!(entityRefAction(false, false, Some(internal), false), EntityRefAction::Skipped);
    assert_eq!(
        entityRefAction(false, false, Some(external), true),
        EntityRefAction::Fail(XmlError::XML_ERROR_ENTITY_DECLARED_IN_PE)
    );
    assert_eq!(entityRefAction(true, false, Some(external), true), EntityRefAction::External);
    let open = EntityInfo { open: true, ..internal };
    assert_eq!(entityRefAction(false, false, Some(open), true), EntityRefAction::Fail(XmlError::XML_ERROR_RECURSIVE_ENTITY_REF));
    let unparsed = EntityInfo { hasNotation: true, hasText: false, ..external };
    assert_eq!(entityRefAction(true, false, Some(unparsed), true), EntityRefAction::Fail(XmlError::XML_ERROR_BINARY_ENTITY_REF));
}

#[test]
fn test_cdata_and_ignored_sections() {
    assert_eq!(cdataSectionToken(Tok::DataChars, true), Step::Continue);
    assert_eq!(cdataSectionToken(Tok::CdataSectClose, true), Step::Done);
    assert_eq!(cdataSectionToken(Tok::TokNone, true), Step::Stop);
    assert_eq!(cdataSectionToken(Tok::TokNone, false), Step::Fail(XmlError::XML_ERROR_UNCLOSED_CDATA_SECTION));
    assert_eq!(cdataSectionToken(Tok::PartialChar, false), Step::Fail(XmlError::XML_ERROR_PARTIAL_CHAR));
    assert_eq!(cdataSectionToken(Tok::StartTag, false), Step::Fail(XmlError::XML_ERROR_UNEXPECTED_STATE));
    assert_eq!(ignoreSectionToken(Tok::IgnoreSect, false), Step::Done);
    assert_eq!(ignoreSectionToken(Tok::Partial, true), Step::Stop);
    assert_eq!(ignoreSectionToken(Tok::Partial, false), Step::Fail(XmlError::XML_ERROR_SYNTAX));
    assert_eq!(ignoreSectionToken(Tok::Invalid, false), Step::Fail(XmlError::XML_ERROR_INVALID_TOKEN));
}

#[test]
fn test_content_events_nest() {
    let mut t = TagStack::new();
    let (s, e) = t.contentTokenEvents(Tok::StartTag, b"a", true, 0);
    assert_eq!(s, Step::Continue);
    assert_eq!(e, vec![ElementEvent::Start(b"a".to_vec())]);
    let (_, e) = t.contentTokenEvents(Tok::StartTag, b"b", true, 0);
    assert_eq!(e, vec![ElementEvent::Start(b"b".to_vec())]);
    let (s, e) = t.contentTokenEvents(Tok::EmptyElement, b"c", true, 0);
    assert_eq!(s, Step::Continue);
    assert_eq!(e, vec![ElementEvent::Start(b"c".to_vec()), ElementEvent::End(b"c".to_vec())]);
    assert_eq!(t.tagLevel(), 2);
    let (s, e) = t.contentTokenEvents(Tok::EndTag, b"a", true, 0);
    assert_eq!(s, Step::Fail(XmlError::XML_ERROR_TAG_MISMATCH));
    assert!(e.is_empty());
    let (_, e) = t.contentTokenEvents(Tok::EndTag, b"b", true, 0);
    assert_eq!(e, vec![ElementEvent::End(b"b".to_vec())]);
    let (s, e) = t.contentTokenEvents(Tok::EndTag, b"a", true, 0);
    assert_eq!(s, Step::Epilog);
    assert_eq!(e, vec![ElementEvent::End(b"a".to_vec())]);
    assert_eq!(t.tagLevel(), 0);
}

#[test]
fn test_content_after_token() {
    let mut p = XML_ParserStruct::XML_ParserCreate_MM(None, None, 0, 0, 0);
    p.XML_Parse(b"<a>x</a>", 8, false, 1).unwrap();
    p.m_eventPtr = Some(3);
    assert_eq!(p.contentAfterToken(4), Step::Continue);
    assert_eq!(p.m_eventPtr, Some(3));
    p.m_reenter = true;
    assert_eq!(p.contentAfterToken(4), Step::Done);
    assert_eq!(p.m_eventPtr, Some(3));
    p.m_reenter = false;
    p.m_parsingStatus.parsing = XML_Parsing::XML_SUSPENDED;
    assert_eq!(p.contentAfterToken(4), Step::Done);
    assert_eq!(p.m_eventPtr, Some(4));
    p.m_parsingStatus.parsing = XML_Parsing::XML_FINISHED;
    assert_eq!(p.contentAfterToken(8), Step::Fail(XmlError::XML_ERROR_ABORTED));
    assert_eq!(p.m_eventPtr, Some(8));
}

#[test]
fn test_cdata_token_report() {
    let (e, s) = cdataTokenReport(Tok::CdataSectClose, b"", XML_Parsing::XML_PARSING, false);
    assert_eq!(e, Some(CdataEvent::EndSection));
    assert_eq!(s, Step::Done);
    let (_, s) = cdataTokenReport(Tok::CdataSectClose, b"", XML_Parsing::XML_FINISHED, false);
    assert_eq!(s, Step::Fail(XmlError::XML_ERROR_ABORTED));
    let (e, s) = cdataTokenReport(Tok::DataChars, b"x<y", XML_Parsing::XML_PARSING, false);
    assert_eq!(e, Some(CdataEvent::Data(b"x<y".to_vec())));
    assert_eq!(s, Step::Continue);
    let (e, s) = cdataTokenReport(Tok::DataNewline, b"\r\n", XML_Parsing::XML_SUSPENDED, false);
    assert_eq!(e, Some(CdataEvent::Data(b"\n".to_vec())));
    assert_eq!(s, Step::Done);
    let (_, s) = cdataTokenReport(Tok::DataChars, b"z", XML_Parsing::XML_PARSING, true);
    assert_eq!(s, Step::Fail(XmlError::XML_ERROR_UNEXPECTED_STATE));
}

#[test]
fn test_content_data_events() {
    assert_eq!(
        contentDataEvent(Tok::DataChars, b"abc", true, true),
        Some(DataEvent::CharacterData(b"abc".to_vec()))
    );
    assert_eq!(contentDataEvent(Tok::DataNewline, b"\r\n", true, false), Some(DataEvent::CharacterData(b"\n".to_vec())));
    assert_eq!(contentDataEvent(Tok::DataNewline, b"\r\n", false, true), Some(DataEvent::Default(b"\r\n".to_vec())));
    assert_eq!(
        contentDataEvent(Tok::CharRef(0xe9), b"&#233;", true, true),
        Some(DataEvent::CharacterData(vec![0xc3, 0xa9]))
    );
    assert_eq!(contentDataEvent(Tok::CharRef(0xe9), b"&#233;", false, true), Some(DataEvent::Default(b"&#233;".to_vec())));
    assert_eq!(contentDataEvent(Tok::DataChars, b"abc", false, false), None);
}

#[test]
fn test_error_places() {
    assert_eq!(errorPlace(Tok::EndTag, XmlError::XML_ERROR_TAG_MISMATCH, false), ErrorPlace::TagName);
    assert_eq!(errorPlace(Tok::Invalid, XmlError::XML_ERROR_INVALID_TOKEN, false), ErrorPlace::TokenEnd);
    assert_eq!(errorPlace(Tok::CharRef(-1), XmlError::XML_ERROR_BAD_CHAR_REF, false), ErrorPlace::TokenStart);
    assert_eq!(errorPlace(Tok::StartTag, XmlError::XML_ERROR_UNEXPECTED_STATE, true), ErrorPlace::TokenEnd);
    assert_eq!(errorPlace(Tok::Partial, XmlError::XML_ERROR_UNCLOSED_CDATA_SECTION, true), ErrorPlace::TokenStart);
}
