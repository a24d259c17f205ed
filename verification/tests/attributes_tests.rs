use lib::attributes::{attsSizeFor, firstDuplicateAttribute, ATTRIBUTE, INIT_ATTS_SIZE};
use lib::errors::XmlError;

#[test]
fn test_atts_size() {
    assert_eq!(attsSizeFor(3, 2, 16), Ok(16));
    assert_eq!(attsSizeFor(10, 7, 16), Ok(10 + 7 + INIT_ATTS_SIZE));
    assert_eq!(attsSizeFor(i32::MAX, 1, 16), Err(XmlError::XML_ERROR_NO_MEMORY));
    assert_eq!(attsSizeFor(i32::MAX - 10, 0, 16), Err(XmlError::XML_ERROR_NO_MEMORY));
    assert_eq!(attsSizeFor(i32::MAX - 16, 0, 16), Ok(i32::MAX));
}

#[test]
fn test_first_duplicate_attribute() {
    let names: Vec<Vec<u8>> = vec![b"a".to_vec(), b"b".to_vec(), b"c".to_vec(), b"b".to_vec(), b"a".to_vec()];
    assert_eq!(firstDuplicateAttribute(&names), Some(3));
    let unique: Vec<Vec<u8>> = vec![b"x".to_vec(), b"y".to_vec()];
    assert_eq!(firstDuplicateAttribute(&unique), None);
    assert_eq!(firstDuplicateAttribute(&Vec::new()), None);
}

#[test]
fn test_attribute_record() {
    let a = ATTRIBUTE { name: 1, valuePtr: 4, valueEnd: 7, normalized: 1 };
    assert_eq!(a.valueEnd - a.valuePtr, 3);
}
