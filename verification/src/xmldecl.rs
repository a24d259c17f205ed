//! What the parser does with an XML declaration or a text declaration once
//! the tokenizer has read it: the document's standalone flag, parameter
//! entity parsing, and whether the declared encoding replaces the one in use.
use vstd::prelude::*;
use crate::dtdcopy::DTD;
use crate::errors::XmlError;
use crate::parser::XML_ParamEntityParsing;

verus! {

/// An encoding that the tokenizer knows by the declared name: the fewest
/// bytes that one of its characters takes, and whether it is the encoding
/// already in use.
#[allow(non_snake_case)]
pub struct KnownEncoding {
    pub minBytesPerChar: i32,
    pub isCurrent: bool,
}

/// What the tokenizer read in a declaration: the version, the encoding's
/// name and the encoding it names where it knows it, and the standalone
/// pseudo-attribute (1 for "yes", 0 for "no", -1 where it is absent).
#[allow(non_snake_case)]
pub struct XmlDecl {
    pub version: Option<Vec<u8>>,
    pub encodingName: Option<Vec<u8>>,
    pub newEncoding: Option<KnownEncoding>,
    pub standalone: i32,
}

/// The declaration as reported to the application: its version, its
/// encoding's name and its standalone pseudo-attribute (-1 where absent).
pub struct XmlDeclEvent {
    pub version: Option<Vec<u8>>,
    pub encoding: Option<Vec<u8>>,
    pub standalone: i32,
}

/// The bytes of an optional string.
pub open spec fn opt_bytes(v: Option<Vec<u8>>) -> Option<Seq<u8>> {
    match v {
        Some(b) => Some(b@),
        None => None,
    }
}

/// What becomes of the encoding in use after a declaration.
pub enum EncodingAction {
    /// The encoding in use stays.
    Keep,
    /// The encoding that the declaration names replaces it.
    Switch,
    /// The name is unknown to the tokenizer: the unknown-encoding handler is
    /// asked for it.
    Unknown(Vec<u8>),
}

/// The error for a declaration that does not parse: of a text declaration
/// in an external general entity, or of the document's XML declaration.
pub open spec fn decl_error(isGeneralTextEntity: bool) -> XmlError {
    if isGeneralTextEntity {
        XmlError::XML_ERROR_TEXT_DECL
    } else {
        XmlError::XML_ERROR_XML_DECL
    }
}

/// The declaration makes the document standalone.
pub open spec fn declares_standalone(isGeneralTextEntity: bool, decl: XmlDecl) -> bool {
    !isGeneralTextEntity && decl.standalone == 1
}

/// Parameter entity parsing after a declaration of a standalone document:
/// "unless standalone" becomes "never".
pub open spec fn parsing_after_standalone(p: XML_ParamEntityParsing) -> XML_ParamEntityParsing {
    if p == XML_ParamEntityParsing::XML_PARAM_ENTITY_PARSING_UNLESS_STANDALONE {
        XML_ParamEntityParsing::XML_PARAM_ENTITY_PARSING_NEVER
    } else {
        p
    }
}

/// The known encoding `e` cannot replace the one in use, whose characters
/// take at least `curMinBytesPerChar` bytes: the widths differ, or both are
/// of two bytes and they are not the same encoding.
pub open spec fn incorrect_encoding(e: KnownEncoding, curMinBytesPerChar: i32) -> bool {
    e.minBytesPerChar != curMinBytesPerChar || (e.minBytesPerChar == 2 && !e.isCurrent)
}

/// Act on the declaration that the tokenizer read (`None` where it did not
/// parse). A document declared standalone marks the DTD standalone and turns
/// parameter entity parsing "unless standalone" into "never". Where the
/// encoding was given by the application (`protocolEncodingKnown`) it stays;
/// else a known encoding replaces the one in use, unless their widths make
/// that impossible (an incorrect encoding), and an unknown name is handed on.
/// A declaration that parses is reported first (`ev`) when the application
/// takes declarations (`hasXmlDeclHandler`), whatever follows.
#[allow(non_snake_case)]
pub fn processXmlDecl(
    isGeneralTextEntity: bool,
    decl: Option<&XmlDecl>,
    dtd: &mut DTD,
    paramEntityParsing: &mut XML_ParamEntityParsing,
    protocolEncodingKnown: bool,
    curMinBytesPerChar: i32,
    hasXmlDeclHandler: bool,
) -> (out: (Option<XmlDeclEvent>, Result<EncodingAction, XmlError>))
    ensures
        ({
            let ev = out.0;
            match decl {
                Some(d) if hasXmlDeclHandler => ev matches Some(e) && opt_bytes(e.version) == opt_bytes(d.version)
                    && opt_bytes(e.encoding) == opt_bytes(d.encodingName) && e.standalone == d.standalone,
                _ => ev is None,
            }
        }),
        final(dtd).elementTypes == old(dtd).elementTypes,
        final(dtd).attributeIds == old(dtd).attributeIds,
        final(dtd).generalEntities == old(dtd).generalEntities,
        final(dtd).paramEntities == old(dtd).paramEntities,
        final(dtd).keepProcessing == old(dtd).keepProcessing,
        final(dtd).hasParamEntityRefs == old(dtd).hasParamEntityRefs,
        final(dtd).paramEntityRead == old(dtd).paramEntityRead,
        match decl {
            None => {
                &&& out.1 == Err::<EncodingAction, XmlError>(decl_error(isGeneralTextEntity))
                &&& final(dtd).standalone == old(dtd).standalone
                &&& *final(paramEntityParsing) == *old(paramEntityParsing)
            },
            Some(d) => {
                &&& final(dtd).standalone == (old(dtd).standalone || declares_standalone(isGeneralTextEntity, *d))
                &&& *final(paramEntityParsing) == if declares_standalone(isGeneralTextEntity, *d) {
                    parsing_after_standalone(*old(paramEntityParsing))
                } else {
                    *old(paramEntityParsing)
                }
                &&& if protocolEncodingKnown {
                    out.1 matches Ok(EncodingAction::Keep)
                } else {
                    match d.newEncoding {
                        Some(e) => if incorrect_encoding(e, curMinBytesPerChar) {
                            out.1 == Err::<EncodingAction, XmlError>(XmlError::XML_ERROR_INCORRECT_ENCODING)
                        } else {
                            out.1 matches Ok(EncodingAction::Switch)
                        },
                        None => match d.encodingName {
                            Some(n) => out.1 matches Ok(EncodingAction::Unknown(m)) && m@ == n@,
                            None => out.1 matches Ok(EncodingAction::Keep),
                        },
                    }
                }
            },
        },
{
    let d = match decl {
        None => {
            return (
                None,
                Err(if isGeneralTextEntity {
                    XmlError::XML_ERROR_TEXT_DECL
                } else {
                    XmlError::XML_ERROR_XML_DECL
                }),
            );
        },
        Some(d) => d,
    };
    if !isGeneralTextEntity && d.standalone == 1 {
        dtd.standalone = true;
        if *paramEntityParsing == XML_ParamEntityParsing::XML_PARAM_ENTITY_PARSING_UNLESS_STANDALONE {
            *paramEntityParsing = XML_ParamEntityParsing::XML_PARAM_ENTITY_PARSING_NEVER;
        }
    }
    let ev = if hasXmlDeclHandler {
        Some(XmlDeclEvent { version: copy_opt(&d.version), encoding: copy_opt(&d.encodingName), standalone: d.standalone })
    } else {
        None
    };
    if protocolEncodingKnown {
        return (ev, Ok(EncodingAction::Keep));
    }
    let r = match &d.newEncoding {
        Some(e) => {
            if e.minBytesPerChar != curMinBytesPerChar || (e.minBytesPerChar == 2 && !e.isCurrent) {
                Err(XmlError::XML_ERROR_INCORRECT_ENCODING)
            } else {
                Ok(EncodingAction::Switch)
            }
        },
        None => match &d.encodingName {
            Some(n) => Ok(EncodingAction::Unknown(n.clone())),
            None => Ok(EncodingAction::Keep),
        },
    };
    (ev, r)
}

fn copy_opt(v: &Option<Vec<u8>>) -> (r: Option<Vec<u8>>)
    ensures
        opt_bytes(r) == opt_bytes(*v),
{
    match v {
        Some(b) => Some(crate::hashtable::copy_string(b.as_slice())),
        None => None,
    }
}

} // verus!
