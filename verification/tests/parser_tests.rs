use lib::errors::{XmlError, XmlStatus};
use lib::parser::{
    param_entity_parsing_from_c, parsing_to_c, ProcessorRun, XML_ParamEntityParsing, XML_ParserStruct, XML_Parsing,
};

fn plain_parser() -> XML_ParserStruct {
    XML_ParserStruct::XML_ParserCreate_MM(None, None, 0, 0, 0)
}

fn feed(p: &mut XML_ParserStruct, data: &[u8], is_final: bool) -> (usize, usize) {
    p.XML_Parse(data, data.len() as i32, is_final, 0x1234).unwrap()
}

#[test]
fn test_new_parser_state() {
    let p = XML_ParserStruct::XML_ParserCreate_MM(Some(b"UTF-8"), None, 1, 2, 3);
    assert_eq!(p.XML_GetParsingStatus().parsing, XML_Parsing::XML_INITIALIZED);
    assert_eq!(p.XML_GetErrorCode(), XmlError::XML_ERROR_NONE);
    assert_eq!(p.m_protocolEncodingName.as_deref(), Some(&b"UTF-8"[..]));
    assert_eq!(p.m_buffer.len(), 0);
    assert_eq!(p.m_accounting.debugLevel, 1);
    assert_eq!(p.m_alloc_tracker.debugLevel, 2);
    assert_eq!(p.m_entity_stats.debugLevel, 3);
    assert!(!p.parserBusy());
    assert!(p.m_reparseDeferralEnabled);
    assert!(!p.m_ns);
    assert_eq!(p.m_namespaceSeparator, b'!');
    let q = XML_ParserStruct::XML_ParserCreate_MM(None, Some(b'|'), 0, 0, 0);
    assert!(q.m_ns);
    assert_eq!(q.m_namespaceSeparator, b'|');
}

#[test]
fn test_get_buffer_allocates_first_buffer() {
    let mut p = plain_parser();
    assert_eq!(p.XML_GetBuffer(10), Ok(0));
    assert_eq!(p.m_buffer.len(), 2048);
    assert_eq!(p.m_lastBufferRequestSize, 10);
    assert_eq!(p.XML_GetBuffer(2048), Ok(0));
    assert_eq!(p.m_buffer.len(), 2048);
}

#[test]
fn test_get_buffer_refusals() {
    let mut p = plain_parser();
    assert_eq!(p.XML_GetBuffer(-1), Err(XmlError::XML_ERROR_NO_MEMORY));
    assert_eq!(p.XML_GetErrorCode(), XmlError::XML_ERROR_NO_MEMORY);
    assert_eq!(p.XML_GetBuffer(i32::MAX), Err(XmlError::XML_ERROR_NO_MEMORY));
    assert_eq!(p.m_lastBufferRequestSize, i32::MAX);
    assert_eq!(p.m_buffer.len(), 0);
}

#[test]
fn test_parse_buffer_without_buffer() {
    let mut p = plain_parser();
    assert_eq!(p.XML_ParseBuffer(0, false, 1), Err(XmlError::XML_ERROR_NO_BUFFER));
    assert_eq!(p.XML_ParseBuffer(-1, false, 1), Err(XmlError::XML_ERROR_INVALID_ARGUMENT));
}

#[test]
fn test_get_buffer_then_parse_buffer() {
    let mut p = plain_parser();
    let at = p.XML_GetBuffer(5).unwrap();
    p.m_buffer[at..at + 5].copy_from_slice(b"<doc>");
    assert_eq!(p.XML_ParseBuffer(5, false, 77), Ok((0, 5)));
    assert_eq!(p.XML_GetParsingStatus().parsing, XML_Parsing::XML_PARSING);
    assert!(!p.XML_GetParsingStatus().finalBuffer);
    assert_eq!(p.m_hash_secret_salt, 77);
    assert_eq!(p.m_parseEndByteIndex, 5);
    assert_eq!(p.m_positionPtr, Some(0));
}

#[test]
fn test_salt_set_before_parse_is_kept() {
    let mut p = plain_parser();
    assert_eq!(p.XML_SetHashSalt(99), 1);
    feed(&mut p, b"<a/>", false);
    assert_eq!(p.m_hash_secret_salt, 99);
    assert_eq!(p.XML_SetHashSalt(5), 0);
    assert_eq!(p.get_hash_secret_salt(), 99);
}

#[test]
fn test_parse_copies_input_after_unparsed_bytes() {
    let mut p = plain_parser();
    assert_eq!(feed(&mut p, b"<root>", false), (0, 6));
    p.callProcessor_done(0, 6, 4, XmlError::XML_ERROR_NONE);
    assert_eq!(p.m_partialTokenBytesBefore, 0);
    assert_eq!(p.finishProcessing(XmlError::XML_ERROR_NONE), XmlStatus::XML_STATUS_OK);
    let (start, end) = feed(&mut p, b"text", false);
    assert_eq!((start, end), (4, 10));
    assert_eq!(&p.m_buffer[start..end], b"t>text");
    assert_eq!(p.m_parseEndByteIndex, 10);
}

#[test]
fn test_buffer_moves_keeping_context() {
    let mut p = plain_parser();
    let first: Vec<u8> = (0..2000u32).map(|i| b'a' + (i % 26) as u8).collect();
    let (s, e) = feed(&mut p, &first, false);
    assert_eq!((s, e), (0, 2000));
    p.callProcessor_done(0, 2000, 1990, XmlError::XML_ERROR_NONE);
    p.finishProcessing(XmlError::XML_ERROR_NONE);
    let more = vec![b'#'; 100];
    let (s2, e2) = feed(&mut p, &more, false);
    assert_eq!(s2, 1024);
    assert_eq!(e2, 1024 + 10 + 100);
    assert_eq!(&p.m_buffer[s2 - 1024..s2], &first[1990 - 1024..1990]);
    assert_eq!(&p.m_buffer[s2..s2 + 10], &first[1990..2000]);
    assert_eq!(&p.m_buffer[s2 + 10..e2], &more[..]);
    assert_eq!(p.m_buffer.len(), 2048);
    assert_eq!(p.m_eventPtr, None);
}

#[test]
fn test_buffer_grows_by_doubling() {
    let mut p = plain_parser();
    feed(&mut p, b"abc", false);
    p.callProcessor_done(0, 3, 0, XmlError::XML_ERROR_NONE);
    p.finishProcessing(XmlError::XML_ERROR_NONE);
    assert_eq!(p.m_partialTokenBytesBefore, 3);
    let big = vec![b'x'; 5000];
    let (s, e) = feed(&mut p, &big, false);
    assert_eq!((s, e), (0, 5003));
    assert_eq!(p.m_buffer.len(), 8192);
    assert_eq!(&p.m_buffer[0..3], b"abc");
}

#[test]
fn test_stop_and_resume() {
    let mut p = plain_parser();
    assert_eq!(p.XML_StopParser(true), XmlStatus::XML_STATUS_ERROR);
    assert_eq!(p.XML_GetErrorCode(), XmlError::XML_ERROR_NOT_STARTED);
    feed(&mut p, b"<a>", false);
    assert_eq!(p.XML_StopParser(true), XmlStatus::XML_STATUS_OK);
    assert_eq!(p.XML_GetParsingStatus().parsing, XML_Parsing::XML_SUSPENDED);
    assert_eq!(p.finishProcessing(XmlError::XML_ERROR_NONE), XmlStatus::XML_STATUS_SUSPENDED);
    assert_eq!(p.XML_StopParser(true), XmlStatus::XML_STATUS_ERROR);
    assert_eq!(p.XML_GetErrorCode(), XmlError::XML_ERROR_SUSPENDED);
    assert_eq!(p.XML_GetBuffer(4), Err(XmlError::XML_ERROR_SUSPENDED));
    assert_eq!(p.XML_Parse(b"x", 1, false, 0), Err(XmlError::XML_ERROR_SUSPENDED));
    assert_eq!(p.XML_ParseBuffer(0, false, 0), Err(XmlError::XML_ERROR_SUSPENDED));
    assert_eq!(p.XML_ResumeParser(), Ok((0, 3)));
    assert_eq!(p.XML_GetParsingStatus().parsing, XML_Parsing::XML_PARSING);
    assert_eq!(p.XML_ResumeParser(), Err(XmlError::XML_ERROR_NOT_SUSPENDED));
}

#[test]
fn test_suspend_refused_in_param_entity() {
    let mut p = plain_parser();
    feed(&mut p, b"<a>", false);
    p.m_isParamEntity = true;
    assert_eq!(p.XML_StopParser(true), XmlStatus::XML_STATUS_ERROR);
    assert_eq!(p.XML_GetErrorCode(), XmlError::XML_ERROR_SUSPEND_PE);
    assert_eq!(p.XML_StopParser(false), XmlStatus::XML_STATUS_OK);
    assert_eq!(p.XML_GetParsingStatus().parsing, XML_Parsing::XML_FINISHED);
}

#[test]
fn test_final_buffer_finishes_and_finished_is_final() {
    let mut p = plain_parser();
    feed(&mut p, b"<a/>", true);
    assert!(p.XML_GetParsingStatus().finalBuffer);
    assert_eq!(p.finishProcessing(XmlError::XML_ERROR_NONE), XmlStatus::XML_STATUS_OK);
    assert_eq!(p.XML_GetParsingStatus().parsing, XML_Parsing::XML_FINISHED);
    assert_eq!(p.XML_Parse(b"x", 1, false, 0), Err(XmlError::XML_ERROR_FINISHED));
    assert_eq!(p.XML_GetBuffer(1), Err(XmlError::XML_ERROR_FINISHED));
    assert_eq!(p.XML_ParseBuffer(0, true, 0), Err(XmlError::XML_ERROR_FINISHED));
    assert_eq!(p.XML_StopParser(false), XmlStatus::XML_STATUS_ERROR);
    assert_eq!(p.XML_GetErrorCode(), XmlError::XML_ERROR_FINISHED);
    assert_eq!(p.XML_GetParsingStatus().parsing, XML_Parsing::XML_FINISHED);
}

#[test]
fn test_processor_error_is_kept() {
    let mut p = plain_parser();
    feed(&mut p, b"<a></b>", false);
    p.m_eventPtr = Some(3);
    assert_eq!(p.finishProcessing(XmlError::XML_ERROR_TAG_MISMATCH), XmlStatus::XML_STATUS_ERROR);
    assert_eq!(p.XML_GetErrorCode(), XmlError::XML_ERROR_TAG_MISMATCH);
    assert!(p.m_errorProcessor);
    assert_eq!(p.m_eventEndPtr, Some(3));
    // The next call takes its input, and the processor repeats the error.
    assert!(p.XML_Parse(b"<c/>", 4, true, 1).is_ok());
    assert_eq!(p.errorProcessor(), Some(XmlError::XML_ERROR_TAG_MISMATCH));
    let e = p.errorProcessor().unwrap();
    assert_eq!(p.finishProcessing(e), XmlStatus::XML_STATUS_ERROR);
    assert_eq!(p.XML_GetErrorCode(), XmlError::XML_ERROR_TAG_MISMATCH);
}

#[test]
fn test_error_processor_only_after_error() {
    let p = plain_parser();
    assert_eq!(p.errorProcessor(), None);
}

#[test]
fn test_processor_reruns_on_request() {
    let mut p = plain_parser();
    feed(&mut p, b"<a>&e;</a>", false);
    assert_eq!(p.callProcessor_rerun(XmlError::XML_ERROR_NONE), ProcessorRun::Done);
    p.triggerReenter();
    assert!(p.m_reenter);
    assert_eq!(p.callProcessor_rerun(XmlError::XML_ERROR_NONE), ProcessorRun::Again);
    assert!(!p.m_reenter);
    p.triggerReenter();
    assert_eq!(p.callProcessor_rerun(XmlError::XML_ERROR_SYNTAX), ProcessorRun::Return);
    p.triggerReenter();
    p.m_parsingStatus.parsing = XML_Parsing::XML_SUSPENDED;
    assert_eq!(p.callProcessor_rerun(XmlError::XML_ERROR_NONE), ProcessorRun::Done);
    assert!(!p.m_reenter);
}

#[test]
fn test_settings_frozen_while_parsing() {
    let mut p = plain_parser();
    assert_eq!(p.XML_UseForeignDTD(true), XmlError::XML_ERROR_NONE);
    assert!(p.m_useForeignDTD);
    assert_eq!(p.XML_SetParamEntityParsing(XML_ParamEntityParsing::XML_PARAM_ENTITY_PARSING_ALWAYS), 1);
    p.XML_SetReturnNSTriplet(1);
    assert!(p.m_ns_triplets);
    assert_eq!(p.XML_SetEncoding(Some(b"ISO-8859-1")), XmlStatus::XML_STATUS_OK);
    feed(&mut p, b"<a>", false);
    assert!(p.parserBusy());
    assert_eq!(p.XML_UseForeignDTD(false), XmlError::XML_ERROR_CANT_CHANGE_FEATURE_ONCE_PARSING);
    assert!(p.m_useForeignDTD);
    assert_eq!(p.XML_SetParamEntityParsing(XML_ParamEntityParsing::XML_PARAM_ENTITY_PARSING_NEVER), 0);
    assert_eq!(p.m_paramEntityParsing, XML_ParamEntityParsing::XML_PARAM_ENTITY_PARSING_ALWAYS);
    p.XML_SetReturnNSTriplet(0);
    assert!(p.m_ns_triplets);
    assert_eq!(p.XML_SetEncoding(None), XmlStatus::XML_STATUS_ERROR);
    assert_eq!(p.m_protocolEncodingName.as_deref(), Some(&b"ISO-8859-1"[..]));
}

#[test]
fn test_base() {
    let mut p = plain_parser();
    assert_eq!(p.XML_GetBase(), None);
    assert_eq!(p.XML_SetBase(Some(b"http://example.org/")), XmlStatus::XML_STATUS_OK);
    assert_eq!(p.XML_GetBase(), Some(&b"http://example.org/"[..]));
    p.XML_SetBase(None);
    assert_eq!(p.XML_GetBase(), None);
}

#[test]
fn test_thresholds_and_deferral_switch() {
    let mut p = plain_parser();
    assert!(p.XML_SetBillionLaughsAttackProtectionActivationThreshold(1000));
    assert_eq!(p.m_accounting.activationThresholdBytes, 1000);
    assert!(p.XML_SetAllocTrackerActivationThreshold(2000));
    assert_eq!(p.m_alloc_tracker.activationThresholdBytes, 2000);
    assert!(p.XML_SetReparseDeferralEnabled(0));
    assert!(!p.m_reparseDeferralEnabled);
    assert!(!p.XML_SetReparseDeferralEnabled(2));
    assert!(!p.m_reparseDeferralEnabled);
    p.m_parentParser = true;
    assert!(!p.XML_SetBillionLaughsAttackProtectionActivationThreshold(5));
    assert!(!p.XML_SetAllocTrackerActivationThreshold(5));
    assert_eq!(p.m_accounting.activationThresholdBytes, 1000);
}

#[test]
fn test_reparse_deferral_decision() {
    let mut p = plain_parser();
    feed(&mut p, b"<aaaaaaaa", false);
    p.callProcessor_done(0, 9, 0, XmlError::XML_ERROR_NONE);
    assert_eq!(p.m_partialTokenBytesBefore, 9);
    p.finishProcessing(XmlError::XML_ERROR_NONE);
    let (s, e) = feed(&mut p, b"b", false);
    assert_eq!((s, e), (0, 10));
    assert!(p.callProcessor_defers(s, e));
    let mut q = plain_parser();
    feed(&mut q, b"<aaaaaaaa", false);
    q.callProcessor_done(0, 9, 0, XmlError::XML_ERROR_NONE);
    q.finishProcessing(XmlError::XML_ERROR_NONE);
    let more = vec![b'b'; 9];
    let (s2, e2) = feed(&mut q, &more, false);
    assert!(!q.callProcessor_defers(s2, e2));
    q.XML_SetReparseDeferralEnabled(0);
    assert!(!q.callProcessor_defers(s2, s2 + 1));
}

#[test]
fn test_byte_index_count_and_input_context() {
    let mut p = plain_parser();
    assert_eq!(p.XML_GetCurrentByteIndex(), -1);
    assert_eq!(p.XML_GetCurrentByteCount(), 0);
    assert!(p.XML_GetInputContext().is_none());
    feed(&mut p, b"<doc>hello</doc>", false);
    p.m_eventPtr = Some(5);
    p.m_eventEndPtr = Some(10);
    assert_eq!(p.XML_GetCurrentByteIndex(), 5);
    assert_eq!(p.XML_GetCurrentByteCount(), 5);
    let (buf, offset, size) = p.XML_GetInputContext().unwrap();
    assert_eq!((offset, size), (5, 16));
    assert_eq!(&buf[offset as usize..size as usize], b"hello</doc>");
}

#[test]
fn test_namespace_parser_starts_with_xml_prefix() {
    let mut p = XML_ParserStruct::XML_ParserCreate_MM(None, Some(b'!'), 0, 0, 0);
    feed(&mut p, b"<a/>", true);
    let xml = p.m_namespaces.prefix_id(b"xml").unwrap();
    let mut expected = b"http://www.w3.org/XML/1998/namespace".to_vec();
    expected.push(b'!');
    assert_eq!(p.m_namespaces.binding(Some(xml)), Some(&expected[..]));
    assert_eq!(p.m_hash_secret_salt, 0x1234);
}

#[test]
fn test_parser_reset() {
    let mut p = plain_parser();
    feed(&mut p, b"<a>", false);
    p.XML_UseForeignDTD(true);
    assert!(p.XML_ParserReset(Some(b"UTF-16"), 0, 0));
    assert_eq!(p.XML_GetParsingStatus().parsing, XML_Parsing::XML_INITIALIZED);
    assert_eq!(p.m_buffer.len(), 2048);
    assert_eq!((p.m_bufferPtr, p.m_bufferEnd, p.m_parseEndByteIndex), (0, 0, 0));
    assert_eq!(p.m_hash_secret_salt, 0);
    assert_eq!(p.m_protocolEncodingName.as_deref(), Some(&b"UTF-16"[..]));
    assert_eq!(p.XML_ParseBuffer(0, true, 3), Ok((0, 0)));
    p.m_parentParser = true;
    assert!(!p.XML_ParserReset(None, 0, 0));
}

#[test]
fn test_c_numbers() {
    assert_eq!(parsing_to_c(XML_Parsing::XML_INITIALIZED), 0);
    assert_eq!(parsing_to_c(XML_Parsing::XML_PARSING), 1);
    assert_eq!(parsing_to_c(XML_Parsing::XML_FINISHED), 2);
    assert_eq!(parsing_to_c(XML_Parsing::XML_SUSPENDED), 3);
    assert_eq!(param_entity_parsing_from_c(2), Some(XML_ParamEntityParsing::XML_PARAM_ENTITY_PARSING_ALWAYS));
    assert_eq!(param_entity_parsing_from_c(3), None);
}

#[test]
fn test_external_entity_parser() {
    let mut p = XML_ParserStruct::XML_ParserCreate_MM(None, Some(b'|'), 4, 5, 6);
    assert_eq!(p.XML_SetHashSalt(77), 1);
    p.XML_SetReturnNSTriplet(1);
    p.XML_SetParamEntityParsing(XML_ParamEntityParsing::XML_PARAM_ENTITY_PARSING_ALWAYS);
    let mut e = lib::entities::ENTITY::empty();
    e.text = Some(b"t".to_vec());
    p.m_generalEntities.lookup_create(b"g", e).unwrap();
    let c = p.XML_ExternalEntityParserCreate(Some(b"g\x0ca=http://a/"), Some(b"UTF-8"), true).unwrap();
    assert!(c.m_parentParser && !c.m_isParamEntity);
    assert!(c.m_ns && c.m_ns_triplets);
    assert_eq!(c.m_namespaceSeparator, b'|');
    assert_eq!(c.m_hash_secret_salt, 77);
    assert_eq!(c.m_paramEntityParsing, XML_ParamEntityParsing::XML_PARAM_ENTITY_PARSING_ALWAYS);
    assert_eq!(c.m_protocolEncodingName.as_deref(), Some(&b"UTF-8"[..]));
    assert_eq!(c.m_accounting.debugLevel, 4);
    assert_eq!(c.m_generalEntities.len(), 1);
    assert!(c.m_generalEntities.value(0).open);
    assert!(!p.m_generalEntities.value(0).open);
    let a = c.m_namespaces.prefixes().lookup(b"a").unwrap();
    assert_eq!(c.m_namespaces.binding(Some(a)), Some(&b"http://a/|"[..]));
    let q = p.XML_ExternalEntityParserCreate(None, None, true).unwrap();
    assert!(q.m_isParamEntity && q.m_parentParser);
    assert_eq!(q.m_generalEntities.len(), 0);
    assert!(p.XML_ExternalEntityParserCreate(Some(b"xmlns=http://www.w3.org/2000/xmlns/"), None, true).is_none());
    assert!(p.XML_ExternalEntityParserCreate(None, None, false).is_none());
    assert!(p.XML_ExternalEntityParserCreate(Some(b"g"), None, false).is_none());
}
