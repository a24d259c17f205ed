//! The parser's error codes and their messages, the status codes of the
//! parsing calls, and the library's version and feature list.
use vstd::prelude::*;

verus! {

/// The error codes of the parser, in the order of their numbers.
#[derive(PartialEq, Eq, Structural, Clone, Copy, Debug)]
#[allow(non_camel_case_types)]
pub enum XmlError {
    XML_ERROR_NONE,
    XML_ERROR_NO_MEMORY,
    XML_ERROR_SYNTAX,
    XML_ERROR_NO_ELEMENTS,
    XML_ERROR_INVALID_TOKEN,
    XML_ERROR_UNCLOSED_TOKEN,
    XML_ERROR_PARTIAL_CHAR,
    XML_ERROR_TAG_MISMATCH,
    XML_ERROR_DUPLICATE_ATTRIBUTE,
    XML_ERROR_JUNK_AFTER_DOC_ELEMENT,
    XML_ERROR_PARAM_ENTITY_REF,
    XML_ERROR_UNDEFINED_ENTITY,
    XML_ERROR_RECURSIVE_ENTITY_REF,
    XML_ERROR_ASYNC_ENTITY,
    XML_ERROR_BAD_CHAR_REF,
    XML_ERROR_BINARY_ENTITY_REF,
    XML_ERROR_ATTRIBUTE_EXTERNAL_ENTITY_REF,
    XML_ERROR_MISPLACED_XML_PI,
    XML_ERROR_UNKNOWN_ENCODING,
    XML_ERROR_INCORRECT_ENCODING,
    XML_ERROR_UNCLOSED_CDATA_SECTION,
    XML_ERROR_EXTERNAL_ENTITY_HANDLING,
    XML_ERROR_NOT_STANDALONE,
    XML_ERROR_UNEXPECTED_STATE,
    XML_ERROR_ENTITY_DECLARED_IN_PE,
    XML_ERROR_FEATURE_REQUIRES_XML_DTD,
    XML_ERROR_CANT_CHANGE_FEATURE_ONCE_PARSING,
    XML_ERROR_UNBOUND_PREFIX,
    XML_ERROR_UNDECLARING_PREFIX,
    XML_ERROR_INCOMPLETE_PE,
    XML_ERROR_XML_DECL,
    XML_ERROR_TEXT_DECL,
    XML_ERROR_PUBLICID,
    XML_ERROR_SUSPENDED,
    XML_ERROR_NOT_SUSPENDED,
    XML_ERROR_ABORTED,
    XML_ERROR_FINISHED,
    XML_ERROR_SUSPEND_PE,
    XML_ERROR_RESERVED_PREFIX_XML,
    XML_ERROR_RESERVED_PREFIX_XMLNS,
    XML_ERROR_RESERVED_NAMESPACE_URI,
    XML_ERROR_INVALID_ARGUMENT,
    XML_ERROR_NO_BUFFER,
    XML_ERROR_AMPLIFICATION_LIMIT_BREACH,
    XML_ERROR_NOT_STARTED,
}

impl XmlError {
    /// The number of the error in Expat's C interface.
    pub open spec fn spec_code(self) -> u32 {
        match self {
            XmlError::XML_ERROR_NONE => 0,
            XmlError::XML_ERROR_NO_MEMORY => 1,
            XmlError::XML_ERROR_SYNTAX => 2,
            XmlError::XML_ERROR_NO_ELEMENTS => 3,
            XmlError::XML_ERROR_INVALID_TOKEN => 4,
            XmlError::XML_ERROR_UNCLOSED_TOKEN => 5,
            XmlError::XML_ERROR_PARTIAL_CHAR => 6,
            XmlError::XML_ERROR_TAG_MISMATCH => 7,
            XmlError::XML_ERROR_DUPLICATE_ATTRIBUTE => 8,
            XmlError::XML_ERROR_JUNK_AFTER_DOC_ELEMENT => 9,
            XmlError::XML_ERROR_PARAM_ENTITY_REF => 10,
            XmlError::XML_ERROR_UNDEFINED_ENTITY => 11,
            XmlError::XML_ERROR_RECURSIVE_ENTITY_REF => 12,
            XmlError::XML_ERROR_ASYNC_ENTITY => 13,
            XmlError::XML_ERROR_BAD_CHAR_REF => 14,
            XmlError::XML_ERROR_BINARY_ENTITY_REF => 15,
            XmlError::XML_ERROR_ATTRIBUTE_EXTERNAL_ENTITY_REF => 16,
            XmlError::XML_ERROR_MISPLACED_XML_PI => 17,
            XmlError::XML_ERROR_UNKNOWN_ENCODING => 18,
            XmlError::XML_ERROR_INCORRECT_ENCODING => 19,
            XmlError::XML_ERROR_UNCLOSED_CDATA_SECTION => 20,
            XmlError::XML_ERROR_EXTERNAL_ENTITY_HANDLING => 21,
            XmlError::XML_ERROR_NOT_STANDALONE => 22,
            XmlError::XML_ERROR_UNEXPECTED_STATE => 23,
            XmlError::XML_ERROR_ENTITY_DECLARED_IN_PE => 24,
            XmlError::XML_ERROR_FEATURE_REQUIRES_XML_DTD => 25,
            XmlError::XML_ERROR_CANT_CHANGE_FEATURE_ONCE_PARSING => 26,
            XmlError::XML_ERROR_UNBOUND_PREFIX => 27,
            XmlError::XML_ERROR_UNDECLARING_PREFIX => 28,
            XmlError::XML_ERROR_INCOMPLETE_PE => 29,
            XmlError::XML_ERROR_XML_DECL => 30,
            XmlError::XML_ERROR_TEXT_DECL => 31,
            XmlError::XML_ERROR_PUBLICID => 32,
            XmlError::XML_ERROR_SUSPENDED => 33,
            XmlError::XML_ERROR_NOT_SUSPENDED => 34,
            XmlError::XML_ERROR_ABORTED => 35,
            XmlError::XML_ERROR_FINISHED => 36,
            XmlError::XML_ERROR_SUSPEND_PE => 37,
            XmlError::XML_ERROR_RESERVED_PREFIX_XML => 38,
            XmlError::XML_ERROR_RESERVED_PREFIX_XMLNS => 39,
            XmlError::XML_ERROR_RESERVED_NAMESPACE_URI => 40,
            XmlError::XML_ERROR_INVALID_ARGUMENT => 41,
            XmlError::XML_ERROR_NO_BUFFER => 42,
            XmlError::XML_ERROR_AMPLIFICATION_LIMIT_BREACH => 43,
            XmlError::XML_ERROR_NOT_STARTED => 44,
        }
    }

    /// The number of the error in Expat's C interface.
    pub fn code(self) -> (r: u32)
        ensures
            r == self.spec_code(),
    {
        match self {
            XmlError::XML_ERROR_NONE => 0,
            XmlError::XML_ERROR_NO_MEMORY => 1,
            XmlError::XML_ERROR_SYNTAX => 2,
            XmlError::XML_ERROR_NO_ELEMENTS => 3,
            XmlError::XML_ERROR_INVALID_TOKEN => 4,
            XmlError::XML_ERROR_UNCLOSED_TOKEN => 5,
            XmlError::XML_ERROR_PARTIAL_CHAR => 6,
            XmlError::XML_ERROR_TAG_MISMATCH => 7,
            XmlError::XML_ERROR_DUPLICATE_ATTRIBUTE => 8,
            XmlError::XML_ERROR_JUNK_AFTER_DOC_ELEMENT => 9,
            XmlError::XML_ERROR_PARAM_ENTITY_REF => 10,
            XmlError::XML_ERROR_UNDEFINED_ENTITY => 11,
            XmlError::XML_ERROR_RECURSIVE_ENTITY_REF => 12,
            XmlError::XML_ERROR_ASYNC_ENTITY => 13,
            XmlError::XML_ERROR_BAD_CHAR_REF => 14,
            XmlError::XML_ERROR_BINARY_ENTITY_REF => 15,
            XmlError::XML_ERROR_ATTRIBUTE_EXTERNAL_ENTITY_REF => 16,
            XmlError::XML_ERROR_MISPLACED_XML_PI => 17,
            XmlError::XML_ERROR_UNKNOWN_ENCODING => 18,
            XmlError::XML_ERROR_INCORRECT_ENCODING => 19,
            XmlError::XML_ERROR_UNCLOSED_CDATA_SECTION => 20,
            XmlError::XML_ERROR_EXTERNAL_ENTITY_HANDLING => 21,
            XmlError::XML_ERROR_NOT_STANDALONE => 22,
            XmlError::XML_ERROR_UNEXPECTED_STATE => 23,
            XmlError::XML_ERROR_ENTITY_DECLARED_IN_PE => 24,
            XmlError::XML_ERROR_FEATURE_REQUIRES_XML_DTD => 25,
            XmlError::XML_ERROR_CANT_CHANGE_FEATURE_ONCE_PARSING => 26,
            XmlError::XML_ERROR_UNBOUND_PREFIX => 27,
            XmlError::XML_ERROR_UNDECLARING_PREFIX => 28,
            XmlError::XML_ERROR_INCOMPLETE_PE => 29,
            XmlError::XML_ERROR_XML_DECL => 30,
            XmlError::XML_ERROR_TEXT_DECL => 31,
            XmlError::XML_ERROR_PUBLICID => 32,
            XmlError::XML_ERROR_SUSPENDED => 33,
            XmlError::XML_ERROR_NOT_SUSPENDED => 34,
            XmlError::XML_ERROR_ABORTED => 35,
            XmlError::XML_ERROR_FINISHED => 36,
            XmlError::XML_ERROR_SUSPEND_PE => 37,
            XmlError::XML_ERROR_RESERVED_PREFIX_XML => 38,
            XmlError::XML_ERROR_RESERVED_PREFIX_XMLNS => 39,
            XmlError::XML_ERROR_RESERVED_NAMESPACE_URI => 40,
            XmlError::XML_ERROR_INVALID_ARGUMENT => 41,
            XmlError::XML_ERROR_NO_BUFFER => 42,
            XmlError::XML_ERROR_AMPLIFICATION_LIMIT_BREACH => 43,
            XmlError::XML_ERROR_NOT_STARTED => 44,
        }
    }

    /// The error with number `code`, if there is one.
    pub fn from_code(code: u32) -> (r: Option<XmlError>)
        ensures
            r matches Some(e) ==> e.spec_code() == code,
            r is None <==> code > 44,
    {
        match code {
            0 => Some(XmlError::XML_ERROR_NONE),
            1 => Some(XmlError::XML_ERROR_NO_MEMORY),
            2 => Some(XmlError::XML_ERROR_SYNTAX),
            3 => Some(XmlError::XML_ERROR_NO_ELEMENTS),
            4 => Some(XmlError::XML_ERROR_INVALID_TOKEN),
            5 => Some(XmlError::XML_ERROR_UNCLOSED_TOKEN),
            6 => Some(XmlError::XML_ERROR_PARTIAL_CHAR),
            7 => Some(XmlError::XML_ERROR_TAG_MISMATCH),
            8 => Some(XmlError::XML_ERROR_DUPLICATE_ATTRIBUTE),
            9 => Some(XmlError::XML_ERROR_JUNK_AFTER_DOC_ELEMENT),
            10 => Some(XmlError::XML_ERROR_PARAM_ENTITY_REF),
            11 => Some(XmlError::XML_ERROR_UNDEFINED_ENTITY),
            12 => Some(XmlError::XML_ERROR_RECURSIVE_ENTITY_REF),
            13 => Some(XmlError::XML_ERROR_ASYNC_ENTITY),
            14 => Some(XmlError::XML_ERROR_BAD_CHAR_REF),
            15 => Some(XmlError::XML_ERROR_BINARY_ENTITY_REF),
            16 => Some(XmlError::XML_ERROR_ATTRIBUTE_EXTERNAL_ENTITY_REF),
            17 => Some(XmlError::XML_ERROR_MISPLACED_XML_PI),
            18 => Some(XmlError::XML_ERROR_UNKNOWN_ENCODING),
            19 => Some(XmlError::XML_ERROR_INCORRECT_ENCODING),
            20 => Some(XmlError::XML_ERROR_UNCLOSED_CDATA_SECTION),
            21 => Some(XmlError::XML_ERROR_EXTERNAL_ENTITY_HANDLING),
            22 => Some(XmlError::XML_ERROR_NOT_STANDALONE),
            23 => Some(XmlError::XML_ERROR_UNEXPECTED_STATE),
            24 => Some(XmlError::XML_ERROR_ENTITY_DECLARED_IN_PE),
            25 => Some(XmlError::XML_ERROR_FEATURE_REQUIRES_XML_DTD),
            26 => Some(XmlError::XML_ERROR_CANT_CHANGE_FEATURE_ONCE_PARSING),
            27 => Some(XmlError::XML_ERROR_UNBOUND_PREFIX),
            28 => Some(XmlError::XML_ERROR_UNDECLARING_PREFIX),
            29 => Some(XmlError::XML_ERROR_INCOMPLETE_PE),
            30 => Some(XmlError::XML_ERROR_XML_DECL),
            31 => Some(XmlError::XML_ERROR_TEXT_DECL),
            32 => Some(XmlError::XML_ERROR_PUBLICID),
            33 => Some(XmlError::XML_ERROR_SUSPENDED),
            34 => Some(XmlError::XML_ERROR_NOT_SUSPENDED),
            35 => Some(XmlError::XML_ERROR_ABORTED),
            36 => Some(XmlError::XML_ERROR_FINISHED),
            37 => Some(XmlError::XML_ERROR_SUSPEND_PE),
            38 => Some(XmlError::XML_ERROR_RESERVED_PREFIX_XML),
            39 => Some(XmlError::XML_ERROR_RESERVED_PREFIX_XMLNS),
            40 => Some(XmlError::XML_ERROR_RESERVED_NAMESPACE_URI),
            41 => Some(XmlError::XML_ERROR_INVALID_ARGUMENT),
            42 => Some(XmlError::XML_ERROR_NO_BUFFER),
            43 => Some(XmlError::XML_ERROR_AMPLIFICATION_LIMIT_BREACH),
            44 => Some(XmlError::XML_ERROR_NOT_STARTED),
            _ => None,
        }
    }
}

/// The message of each error number; none for `0` and unknown numbers.
pub open spec fn error_message(code: u32) -> Option<Seq<char>> {
    if code == 0 {
        None
    } else if code == 1 {
        Some("out of memory"@)
    } else if code == 2 {
        Some("syntax error"@)
    } else if code == 3 {
        Some("no element found"@)
    } else if code == 4 {
        Some("not well-formed (invalid token)"@)
    } else if code == 5 {
        Some("unclosed token"@)
    } else if code == 6 {
        Some("partial character"@)
    } else if code == 7 {
        Some("mismatched tag"@)
    } else if code == 8 {
        Some("duplicate attribute"@)
    } else if code == 9 {
        Some("junk after document element"@)
    } else if code == 10 {
        Some("illegal parameter entity reference"@)
    } else if code == 11 {
        Some("undefined entity"@)
    } else if code == 12 {
        Some("recursive entity reference"@)
    } else if code == 13 {
        Some("asynchronous entity"@)
    } else if code == 14 {
        Some("reference to invalid character number"@)
    } else if code == 15 {
        Some("reference to binary entity"@)
    } else if code == 16 {
        Some("reference to external entity in attribute"@)
    } else if code == 17 {
        Some("XML or text declaration not at start of entity"@)
    } else if code == 18 {
        Some("unknown encoding"@)
    } else if code == 19 {
        Some("encoding specified in XML declaration is incorrect"@)
    } else if code == 20 {
        Some("unclosed CDATA section"@)
    } else if code == 21 {
        Some("error in processing external entity reference"@)
    } else if code == 22 {
        Some("document is not standalone"@)
    } else if code == 23 {
        Some("unexpected parser state - please send a bug report"@)
    } else if code == 24 {
        Some("entity declared in parameter entity"@)
    } else if code == 25 {
        Some("requested feature requires XML_DTD support in Expat"@)
    } else if code == 26 {
        Some("cannot change setting once parsing has begun"@)
    } else if code == 27 {
        Some("unbound prefix"@)
    } else if code == 28 {
        Some("must not undeclare prefix"@)
    } else if code == 29 {
        Some("incomplete markup in parameter entity"@)
    } else if code == 30 {
        Some("XML declaration not well-formed"@)
    } else if code == 31 {
        Some("text declaration not well-formed"@)
    } else if code == 32 {
        Some("illegal character(s) in public id"@)
    } else if code == 33 {
        Some("parser suspended"@)
    } else if code == 34 {
        Some("parser not suspended"@)
    } else if code == 35 {
        Some("parsing aborted"@)
    } else if code == 36 {
        Some("parsing finished"@)
    } else if code == 37 {
        Some("cannot suspend in external parameter entity"@)
    } else if code == 38 {
        Some("reserved prefix (xml) must not be undeclared or bound to another namespace name"@)
    } else if code == 39 {
        Some("reserved prefix (xmlns) must not be declared or undeclared"@)
    } else if code == 40 {
        Some("prefix must not be bound to one of the reserved namespace names"@)
    } else if code == 41 {
        Some("invalid argument"@)
    } else if code == 42 {
        Some("a successful prior call to function XML_GetBuffer is required"@)
    } else if code == 43 {
        Some("limit on input amplification factor (from DTD and entities) breached"@)
    } else if code == 44 {
        Some("parser not started"@)
    } else {
        None
    }
}

/// The message describing an error number.
pub fn XML_ErrorString(code: u32) -> (r: Option<&'static str>)
    ensures
        r is None <==> error_message(code) is None,
        r matches Some(s) ==> s@ == error_message(code).unwrap(),
{
    match code {
        1 => Some("out of memory"),
        2 => Some("syntax error"),
        3 => Some("no element found"),
        4 => Some("not well-formed (invalid token)"),
        5 => Some("unclosed token"),
        6 => Some("partial character"),
        7 => Some("mismatched tag"),
        8 => Some("duplicate attribute"),
        9 => Some("junk after document element"),
        10 => Some("illegal parameter entity reference"),
        11 => Some("undefined entity"),
        12 => Some("recursive entity reference"),
        13 => Some("asynchronous entity"),
        14 => Some("reference to invalid character number"),
        15 => Some("reference to binary entity"),
        16 => Some("reference to external entity in attribute"),
        17 => Some("XML or text declaration not at start of entity"),
        18 => Some("unknown encoding"),
        19 => Some("encoding specified in XML declaration is incorrect"),
        20 => Some("unclosed CDATA section"),
        21 => Some("error in processing external entity reference"),
        22 => Some("document is not standalone"),
        23 => Some("unexpected parser state - please send a bug report"),
        24 => Some("entity declared in parameter entity"),
        25 => Some("requested feature requires XML_DTD support in Expat"),
        26 => Some("cannot change setting once parsing has begun"),
        27 => Some("unbound prefix"),
        28 => Some("must not undeclare prefix"),
        29 => Some("incomplete markup in parameter entity"),
        30 => Some("XML declaration not well-formed"),
        31 => Some("text declaration not well-formed"),
        32 => Some("illegal character(s) in public id"),
        33 => Some("parser suspended"),
        34 => Some("parser not suspended"),
        35 => Some("parsing aborted"),
        36 => Some("parsing finished"),
        37 => Some("cannot suspend in external parameter entity"),
        38 => Some("reserved prefix (xml) must not be undeclared or bound to another namespace name"),
        39 => Some("reserved prefix (xmlns) must not be declared or undeclared"),
        40 => Some("prefix must not be bound to one of the reserved namespace names"),
        41 => Some("invalid argument"),
        42 => Some("a successful prior call to function XML_GetBuffer is required"),
        43 => Some("limit on input amplification factor (from DTD and entities) breached"),
        44 => Some("parser not started"),
        _ => None,
    }
}

/// The result of a parsing call.
#[derive(PartialEq, Eq, Structural, Clone, Copy, Debug)]
#[allow(non_camel_case_types)]
pub enum XmlStatus {
    XML_STATUS_ERROR,
    XML_STATUS_OK,
    XML_STATUS_SUSPENDED,
}

/// The number of a status in Expat's C interface.
pub fn xml_status_to_c(s: XmlStatus) -> (r: u32)
    ensures
        r == match s {
            XmlStatus::XML_STATUS_ERROR => 0u32,
            XmlStatus::XML_STATUS_OK => 1u32,
            XmlStatus::XML_STATUS_SUSPENDED => 2u32,
        },
{
    match s {
        XmlStatus::XML_STATUS_ERROR => 0,
        XmlStatus::XML_STATUS_OK => 1,
        XmlStatus::XML_STATUS_SUSPENDED => 2,
    }
}

/// The number of an error in Expat's C interface.
pub fn xml_error_to_c(e: XmlError) -> (r: u32)
    ensures
        r == e.spec_code(),
{
    e.code()
}

pub const XML_MAJOR_VERSION: i32 = 2;
pub const XML_MINOR_VERSION: i32 = 7;
pub const XML_MICRO_VERSION: i32 = 5;

/// The version of the library, as three numbers.
#[allow(non_camel_case_types)]
pub struct XML_Expat_Version {
    pub major: i32,
    pub minor: i32,
    pub micro: i32,
}

/// The version of the library, as a string.
pub fn XML_ExpatVersion() -> (r: &'static str)
    ensures
        r@ == "expat_2.7.5"@,
{
    "expat_2.7.5"
}

/// The version of the library, as three numbers.
pub fn XML_ExpatVersionInfo() -> (v: XML_Expat_Version)
    ensures
        v.major == XML_MAJOR_VERSION,
        v.minor == XML_MINOR_VERSION,
        v.micro == XML_MICRO_VERSION,
{
    XML_Expat_Version { major: XML_MAJOR_VERSION, minor: XML_MINOR_VERSION, micro: XML_MICRO_VERSION }
}

pub const XML_FEATURE_END: i32 = 0;
pub const XML_FEATURE_DTD: i32 = 3;
pub const XML_FEATURE_CONTEXT_BYTES: i32 = 4;
pub const XML_FEATURE_SIZEOF_XML_CHAR: i32 = 6;
pub const XML_FEATURE_SIZEOF_XML_LCHAR: i32 = 7;
pub const XML_FEATURE_NS: i32 = 8;
pub const XML_FEATURE_BILLION_LAUGHS_ATTACK_PROTECTION_MAXIMUM_AMPLIFICATION_DEFAULT: i32 = 11;
pub const XML_FEATURE_BILLION_LAUGHS_ATTACK_PROTECTION_ACTIVATION_THRESHOLD_DEFAULT: i32 = 12;
pub const XML_FEATURE_GE: i32 = 13;
pub const XML_FEATURE_ALLOC_TRACKER_MAXIMUM_AMPLIFICATION_DEFAULT: i32 = 14;
pub const XML_FEATURE_ALLOC_TRACKER_ACTIVATION_THRESHOLD_DEFAULT: i32 = 15;

/// How many bytes of already parsed input the buffer keeps.
pub const XML_CONTEXT_BYTES: i32 = 1024;

/// One entry of the feature list: its number, its name (none for the
/// entry that ends the list) and its value.
#[allow(non_camel_case_types)]
pub struct XML_Feature {
    pub feature: i32,
    pub name: Option<&'static str>,
    pub value: i64,
}

/// The feature numbers, names and values of this build, in the order
/// listed.
pub open spec fn feature_table() -> Seq<(i32, &'static str, i64)> {
    seq![
        (XML_FEATURE_SIZEOF_XML_CHAR, "sizeof(XML_Char)", 1i64),
        (XML_FEATURE_SIZEOF_XML_LCHAR, "sizeof(XML_LChar)", 1i64),
        (XML_FEATURE_DTD, "XML_DTD", 0i64),
        (XML_FEATURE_CONTEXT_BYTES, "XML_CONTEXT_BYTES", 1024i64),
        (XML_FEATURE_NS, "XML_NS", 0i64),
        (XML_FEATURE_BILLION_LAUGHS_ATTACK_PROTECTION_MAXIMUM_AMPLIFICATION_DEFAULT, "XML_BLAP_MAX_AMP", 100i64),
        (XML_FEATURE_BILLION_LAUGHS_ATTACK_PROTECTION_ACTIVATION_THRESHOLD_DEFAULT, "XML_BLAP_ACT_THRES", 8388608i64),
        (XML_FEATURE_GE, "XML_GE", 0i64),
        (XML_FEATURE_ALLOC_TRACKER_MAXIMUM_AMPLIFICATION_DEFAULT, "XML_AT_MAX_AMP", 100i64),
        (XML_FEATURE_ALLOC_TRACKER_ACTIVATION_THRESHOLD_DEFAULT, "XML_AT_ACT_THRES", 67108864i64),
    ]
}

/// The features of this build; the list ends with an `XML_FEATURE_END`
/// entry that has no name.
pub fn XML_GetFeatureList() -> (r: Vec<XML_Feature>)
    ensures
        r.len() == feature_table().len() + 1,
        forall|i: int|
            0 <= i < feature_table().len() ==> (#[trigger] r@[i]).feature == feature_table()[i].0
                && r@[i].name == Some(feature_table()[i].1) && r@[i].value == feature_table()[i].2,
        r@[feature_table().len() as int].feature == XML_FEATURE_END,
        r@[feature_table().len() as int].name is None,
        r@[feature_table().len() as int].value == 0,
{
    let r = vec![
        XML_Feature { feature: XML_FEATURE_SIZEOF_XML_CHAR, name: Some("sizeof(XML_Char)"), value: 1 },
        XML_Feature { feature: XML_FEATURE_SIZEOF_XML_LCHAR, name: Some("sizeof(XML_LChar)"), value: 1 },
        XML_Feature { feature: XML_FEATURE_DTD, name: Some("XML_DTD"), value: 0 },
        XML_Feature { feature: XML_FEATURE_CONTEXT_BYTES, name: Some("XML_CONTEXT_BYTES"), value: 1024 },
        XML_Feature { feature: XML_FEATURE_NS, name: Some("XML_NS"), value: 0 },
        XML_Feature {
            feature: XML_FEATURE_BILLION_LAUGHS_ATTACK_PROTECTION_MAXIMUM_AMPLIFICATION_DEFAULT,
            name: Some("XML_BLAP_MAX_AMP"),
            value: 100,
        },
        XML_Feature {
            feature: XML_FEATURE_BILLION_LAUGHS_ATTACK_PROTECTION_ACTIVATION_THRESHOLD_DEFAULT,
            name: Some("XML_BLAP_ACT_THRES"),
            value: 8388608,
        },
        XML_Feature { feature: XML_FEATURE_GE, name: Some("XML_GE"), value: 0 },
        XML_Feature {
            feature: XML_FEATURE_ALLOC_TRACKER_MAXIMUM_AMPLIFICATION_DEFAULT,
            name: Some("XML_AT_MAX_AMP"),
            value: 100,
        },
        XML_Feature {
            feature: XML_FEATURE_ALLOC_TRACKER_ACTIVATION_THRESHOLD_DEFAULT,
            name: Some("XML_AT_ACT_THRES"),
            value: 67108864,
        },
        XML_Feature { feature: XML_FEATURE_END, name: None, value: 0 },
    ];
    assert(r@.len() == 11);
    r
}

} // verus!
