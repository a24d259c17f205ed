use lib::accounting::entity_stats;
use lib::entities::ENTITY;
use lib::hashtable::HASH_TABLE;
use lib::errors::XmlError;
use lib::openentities::{afterEntityText, EntityTextStep, NextProcessor, OpenEntities, OpenEntity};
use lib::parser::XML_Parsing;

fn internal(text: &[u8]) -> ENTITY {
    let mut x = ENTITY::empty();
    x.text = Some(text.to_vec());
    x
}

#[test]
fn test_open_and_close_entities() {
    let mut g: HASH_TABLE<ENTITY> = HASH_TABLE::hashTableInit(2);
    let mut p: HASH_TABLE<ENTITY> = HASH_TABLE::hashTableInit(3);
    g.lookup_create(b"a", internal(b"&b;")).unwrap();
    g.lookup_create(b"b", internal(b"text")).unwrap();
    p.lookup_create(b"pe", internal(b"<!ELEMENT e ANY>")).unwrap();
    let mut stats = entity_stats::new(0);
    let mut open = OpenEntities::new();
    open.processEntity(&mut g, &mut p, &mut stats, false, 0, false, 1);
    open.processEntity(&mut g, &mut p, &mut stats, false, 1, false, 1);
    open.processEntity(&mut g, &mut p, &mut stats, true, 0, true, 0);
    assert!(g.value(0).open && g.value(1).open && p.value(0).open);
    assert_eq!(stats.currentDepth, 3);
    assert_eq!(stats.maximumDepthSeen, 3);
    let o = open.closeEntity(&mut g, &mut p, &mut stats).unwrap();
    assert_eq!(o, OpenEntity { is_param: true, index: 0, startTagLevel: 0, betweenDecl: true });
    assert!(!p.value(0).open);
    let o = open.closeEntity(&mut g, &mut p, &mut stats).unwrap();
    assert_eq!(o.index, 1);
    assert!(!g.value(1).open && g.value(0).open);
    open.closeEntity(&mut g, &mut p, &mut stats).unwrap();
    assert!(open.closeEntity(&mut g, &mut p, &mut stats).is_none());
    assert_eq!(stats.currentDepth, 0);
    assert_eq!(stats.countEverOpened, 3);
    assert_eq!(g.value(0).text.as_deref(), Some(&b"&b;"[..]));
}

#[test]
fn test_after_entity_text() {
    let general = OpenEntity { is_param: false, index: 0, startTagLevel: 2, betweenDecl: false };
    let param = OpenEntity { is_param: true, index: 0, startTagLevel: 0, betweenDecl: true };
    assert_eq!(afterEntityText(general, false, XML_Parsing::XML_SUSPENDED, false, 5), Ok(EntityTextStep::Pause));
    assert_eq!(afterEntityText(general, false, XML_Parsing::XML_PARSING, true, 5), Ok(EntityTextStep::Pause));
    assert_eq!(afterEntityText(general, true, XML_Parsing::XML_PARSING, false, 2), Ok(EntityTextStep::Finished));
    assert_eq!(afterEntityText(general, true, XML_Parsing::XML_PARSING, false, 3), Err(XmlError::XML_ERROR_ASYNC_ENTITY));
    assert_eq!(afterEntityText(general, false, XML_Parsing::XML_PARSING, false, 3), Err(XmlError::XML_ERROR_ASYNC_ENTITY));
    assert_eq!(afterEntityText(param, true, XML_Parsing::XML_PARSING, false, 3), Ok(EntityTextStep::Finished));
}

#[test]
fn test_next_processor_after_close() {
    let mut g: HASH_TABLE<ENTITY> = HASH_TABLE::hashTableInit(2);
    let mut p: HASH_TABLE<ENTITY> = HASH_TABLE::hashTableInit(3);
    g.lookup_create(b"a", internal(b"x")).unwrap();
    g.lookup_create(b"b", internal(b"y")).unwrap();
    p.lookup_create(b"pe", internal(b"")).unwrap();
    let mut stats = entity_stats::new(0);
    let mut open = OpenEntities::new();
    open.processEntity(&mut g, &mut p, &mut stats, false, 0, false, 1);
    open.processEntity(&mut g, &mut p, &mut stats, false, 1, false, 1);
    let o = open.closeEntity(&mut g, &mut p, &mut stats).unwrap();
    assert_eq!(open.nextProcessor(o), NextProcessor::Internal);
    let o = open.closeEntity(&mut g, &mut p, &mut stats).unwrap();
    assert_eq!(open.nextProcessor(o), NextProcessor::Content);
    open.processEntity(&mut g, &mut p, &mut stats, true, 0, true, 0);
    let o = open.closeEntity(&mut g, &mut p, &mut stats).unwrap();
    assert_eq!(open.nextProcessor(o), NextProcessor::Prolog);
}
