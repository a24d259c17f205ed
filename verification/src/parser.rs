//! The parser object: its parsing status, its input buffer and the rules of
//! the calls that feed it, stop it and resume it. The tokenizer and the
//! processors that read the buffer run outside; each parsing call is split in
//! a part that checks and prepares the input, and a part that takes what the
//! processor returned and decides the call's result.
use vstd::prelude::*;
use crate::errors::{XmlError, XmlStatus};
use crate::accounting::{accounting, MALLOC_TRACKER, entity_stats};
use crate::namespaces::NsScope;
use crate::hashtable::HASH_TABLE;
use crate::entities::ENTITY;
use crate::dtdcopy::{copyEntityTable, copy_prefixes, same_entities};
use crate::context::{setContext, named_bindings, context_bindings, parse_context, entities_opened, context_has_bad_binding};

verus! {

/// The size of the first buffer, before its first doubling.
pub const INIT_BUFFER_SIZE: i32 = 1024;

/// How many bytes before the current position a buffer keeps when it moves.
pub const XML_CONTEXT_BYTES: i32 = 1024;

/// The largest `int` of the C interface, the limit of a buffer's size.
pub const INT_MAX: i32 = 0x7fff_ffff;

/// Whether reparse deferral is on for a new parser.
pub const g_reparseDeferralEnabledDefault: bool = true;

/// The context that a namespace-aware parser starts with: the `xml` prefix
/// bound to its namespace.
pub const implicitContext: [u8; 40] = [
    0x78, 0x6d, 0x6c, 0x3d, 0x68, 0x74, 0x74, 0x70, 0x3a, 0x2f, 0x2f, 0x77, 0x77, 0x77, 0x2e, 0x77,
    0x33, 0x2e, 0x6f, 0x72, 0x67, 0x2f, 0x58, 0x4d, 0x4c, 0x2f, 0x31, 0x39, 0x39, 0x38, 0x2f, 0x6e,
    0x61, 0x6d, 0x65, 0x73, 0x70, 0x61, 0x63, 0x65,
];

/// Where a parser stands.
#[derive(PartialEq, Eq, Structural, Clone, Copy, Debug)]
#[allow(non_camel_case_types)]
pub enum XML_Parsing {
    XML_INITIALIZED,
    XML_PARSING,
    XML_FINISHED,
    XML_SUSPENDED,
}

/// The parsing status: where the parser stands, and whether the input it
/// was last given is the end of the document.
#[derive(PartialEq, Eq, Structural, Clone, Copy, Debug)]
#[allow(non_camel_case_types, non_snake_case)]
pub struct XML_ParsingStatus {
    pub parsing: XML_Parsing,
    pub finalBuffer: bool,
}

/// Whether parameter entities and the external DTD subset are read.
#[derive(PartialEq, Eq, Structural, Clone, Copy, Debug)]
#[allow(non_camel_case_types)]
pub enum XML_ParamEntityParsing {
    XML_PARAM_ENTITY_PARSING_NEVER,
    XML_PARAM_ENTITY_PARSING_UNLESS_STANDALONE,
    XML_PARAM_ENTITY_PARSING_ALWAYS,
}

/// The number of a parsing state in the C interface.
pub fn parsing_to_c(p: XML_Parsing) -> (r: u32)
    ensures
        r == match p {
            XML_Parsing::XML_INITIALIZED => 0u32,
            XML_Parsing::XML_PARSING => 1u32,
            XML_Parsing::XML_FINISHED => 2u32,
            XML_Parsing::XML_SUSPENDED => 3u32,
        },
{
    match p {
        XML_Parsing::XML_INITIALIZED => 0,
        XML_Parsing::XML_PARSING => 1,
        XML_Parsing::XML_FINISHED => 2,
        XML_Parsing::XML_SUSPENDED => 3,
    }
}

/// The parameter-entity setting of a number of the C interface, if it names one.
pub fn param_entity_parsing_from_c(n: u32) -> (r: Option<XML_ParamEntityParsing>)
    ensures
        n == 0 ==> r == Some(XML_ParamEntityParsing::XML_PARAM_ENTITY_PARSING_NEVER),
        n == 1 ==> r == Some(XML_ParamEntityParsing::XML_PARAM_ENTITY_PARSING_UNLESS_STANDALONE),
        n == 2 ==> r == Some(XML_ParamEntityParsing::XML_PARAM_ENTITY_PARSING_ALWAYS),
        n > 2 ==> r.is_none(),
{
    if n == 0 {
        Some(XML_ParamEntityParsing::XML_PARAM_ENTITY_PARSING_NEVER)
    } else if n == 1 {
        Some(XML_ParamEntityParsing::XML_PARAM_ENTITY_PARSING_UNLESS_STANDALONE)
    } else if n == 2 {
        Some(XML_ParamEntityParsing::XML_PARAM_ENTITY_PARSING_ALWAYS)
    } else {
        None
    }
}

/// Whether a parser in status `p` is in the middle of a document.
pub open spec fn busy(p: XML_Parsing) -> bool {
    p == XML_Parsing::XML_PARSING || p == XML_Parsing::XML_SUSPENDED
}

/// A parser. Positions in the buffer are indices: `m_bufferPtr` is where
/// parsing stands, `m_bufferEnd` the end of the bytes given so far, and the
/// buffer's length its allocated size (no buffer: length 0).
#[allow(non_camel_case_types, non_snake_case)]
pub struct XML_ParserStruct {
    pub m_parsingStatus: XML_ParsingStatus,
    pub m_errorCode: XmlError,
    /// The processor has been replaced by one that reports `m_errorCode`.
    pub m_errorProcessor: bool,
    /// The processor is to run again on the same input (an entity's text
    /// ended and what follows it is to be taken up).
    pub m_reenter: bool,
    pub m_buffer: Vec<u8>,
    pub m_bufferPtr: usize,
    pub m_bufferEnd: usize,
    pub m_parseEndPtr: usize,
    pub m_parseEndByteIndex: i64,
    pub m_positionPtr: Option<usize>,
    pub m_eventPtr: Option<usize>,
    pub m_eventEndPtr: Option<usize>,
    pub m_lastBufferRequestSize: i32,
    pub m_partialTokenBytesBefore: usize,
    pub m_reparseDeferralEnabled: bool,
    pub m_isParamEntity: bool,
    /// The parser was created for an external entity of another parser.
    pub m_parentParser: bool,
    pub m_hash_secret_salt: u64,
    pub m_ns: bool,
    pub m_namespaceSeparator: u8,
    pub m_ns_triplets: bool,
    pub m_useForeignDTD: bool,
    pub m_paramEntityParsing: XML_ParamEntityParsing,
    pub m_protocolEncodingName: Option<Vec<u8>>,
    pub m_curBase: Option<Vec<u8>>,
    pub m_accounting: accounting,
    pub m_alloc_tracker: MALLOC_TRACKER,
    pub m_entity_stats: entity_stats,
    pub m_namespaces: NsScope,
    pub m_generalEntities: HASH_TABLE<ENTITY>,
}

/// A position that lies in a buffer of `len` bytes, where it is set.
pub open spec fn within(p: Option<usize>, len: int) -> bool {
    match p {
        Some(q) => q <= len,
        None => true,
    }
}

impl XML_ParserStruct {
    /// The parser's positions lie in its buffer, and its counts are in range.
    pub open spec fn wf(&self) -> bool {
        &&& self.m_buffer.len() <= INT_MAX
        &&& self.m_bufferPtr <= self.m_bufferEnd <= self.m_buffer.len()
        &&& self.m_bufferPtr <= self.m_parseEndPtr <= self.m_buffer.len()
        &&& within(self.m_positionPtr, self.m_buffer.len() as int)
        &&& within(self.m_eventPtr, self.m_buffer.len() as int)
        &&& within(self.m_eventEndPtr, self.m_buffer.len() as int)
        &&& 0 <= self.m_parseEndByteIndex <= i64::MAX - INT_MAX
        &&& 0 <= self.m_lastBufferRequestSize
        &&& self.m_partialTokenBytesBefore <= self.m_buffer.len()
        &&& self.m_namespaces.wf()
        &&& self.m_generalEntities.wf()
        &&& self.m_namespaces.ns() == self.m_ns
        &&& self.m_namespaces.sep() == self.m_namespaceSeparator
    }

    /// A parser in its first state. `nameSep` is the namespace separator of a
    /// namespace-aware parser (without one the separator is `!`); the debug levels are those of the accounting,
    /// the allocation tracker and the entity tracking.
    #[allow(non_snake_case)]
    pub fn XML_ParserCreate_MM(
        encodingName: Option<&[u8]>,
        nameSep: Option<u8>,
        accountingDebug: u64,
        allocDebug: u64,
        entityDebug: u64,
    ) -> (p: Self)
        ensures
            p.wf(),
            p.m_parsingStatus.parsing == XML_Parsing::XML_INITIALIZED,
            !p.m_parsingStatus.finalBuffer,
            p.m_errorCode == XmlError::XML_ERROR_NONE,
            !p.m_errorProcessor,
            !p.m_reenter,
            p.m_buffer@.len() == 0,
            p.m_bufferPtr == 0 && p.m_bufferEnd == 0 && p.m_parseEndPtr == 0,
            p.m_parseEndByteIndex == 0,
            p.m_positionPtr.is_none() && p.m_eventPtr.is_none() && p.m_eventEndPtr.is_none(),
            p.m_lastBufferRequestSize == 0,
            p.m_partialTokenBytesBefore == 0,
            p.m_reparseDeferralEnabled == g_reparseDeferralEnabledDefault,
            !p.m_isParamEntity,
            !p.m_parentParser,
            p.m_hash_secret_salt == 0,
            p.m_ns == nameSep.is_some(),
            p.m_namespaceSeparator == match nameSep { Some(c) => c, None => 0x21u8 },
            !p.m_ns_triplets,
            !p.m_useForeignDTD,
            p.m_paramEntityParsing == XML_ParamEntityParsing::XML_PARAM_ENTITY_PARSING_NEVER,
            match encodingName {
                Some(n) => p.m_protocolEncodingName.is_some() && p.m_protocolEncodingName.unwrap()@ == n@,
                None => p.m_protocolEncodingName.is_none(),
            },
            p.m_curBase.is_none(),
            p.m_accounting.countBytesDirect == 0 && p.m_accounting.countBytesIndirect == 0,
            p.m_accounting.debugLevel == accountingDebug,
            p.m_alloc_tracker.bytesAllocated == 0 && p.m_alloc_tracker.peakBytesAllocated == 0,
            p.m_alloc_tracker.debugLevel == allocDebug,
            p.m_entity_stats.debugLevel == entityDebug,
            p.m_namespaces@.len() == 0,
            p.m_namespaces.ns() == nameSep.is_some(),
            p.m_generalEntities@.len() == 0,
    {
        let sep: u8 = match nameSep {
            Some(c) => c,
            None => 0x21,
        };
        let name: Option<Vec<u8>> = match encodingName {
            Some(n) => Some(crate::hashtable::copy_string(n)),
            None => None,
        };
        XML_ParserStruct {
            m_parsingStatus: XML_ParsingStatus { parsing: XML_Parsing::XML_INITIALIZED, finalBuffer: false },
            m_errorCode: XmlError::XML_ERROR_NONE,
            m_errorProcessor: false,
            m_reenter: false,
            m_buffer: Vec::new(),
            m_bufferPtr: 0,
            m_bufferEnd: 0,
            m_parseEndPtr: 0,
            m_parseEndByteIndex: 0,
            m_positionPtr: None,
            m_eventPtr: None,
            m_eventEndPtr: None,
            m_lastBufferRequestSize: 0,
            m_partialTokenBytesBefore: 0,
            m_reparseDeferralEnabled: g_reparseDeferralEnabledDefault,
            m_isParamEntity: false,
            m_parentParser: false,
            m_hash_secret_salt: 0,
            m_ns: nameSep.is_some(),
            m_namespaceSeparator: sep,
            m_ns_triplets: false,
            m_useForeignDTD: false,
            m_paramEntityParsing: XML_ParamEntityParsing::XML_PARAM_ENTITY_PARSING_NEVER,
            m_protocolEncodingName: name,
            m_curBase: None,
            m_accounting: accounting::new(accountingDebug),
            m_alloc_tracker: MALLOC_TRACKER::new(allocDebug),
            m_entity_stats: entity_stats::new(entityDebug),
            m_namespaces: NsScope::new(nameSep.is_some(), sep, 0),
            m_generalEntities: HASH_TABLE::hashTableInit(0),
        }
    }
}


/// `c` is a parser created for an external entity of `o`: a new parser
/// with `o`'s namespace processing and separator, encoding `encodingName`,
/// `o`'s debug levels, triplet setting, salt, reparse deferral and
/// parameter entity parsing, whose parent is `o`; it reads a parameter
/// entity when `isParamEntity`.
pub open spec fn child_parser(o: XML_ParserStruct, c: XML_ParserStruct, encodingName: Option<&[u8]>, isParamEntity: bool) -> bool {
    &&& c.m_parsingStatus.parsing == XML_Parsing::XML_INITIALIZED
    &&& !c.m_parsingStatus.finalBuffer
    &&& c.m_errorCode == XmlError::XML_ERROR_NONE
    &&& !c.m_errorProcessor
    &&& !c.m_reenter
    &&& c.m_buffer@.len() == 0
    &&& c.m_bufferPtr == 0 && c.m_bufferEnd == 0 && c.m_parseEndPtr == 0
    &&& c.m_parseEndByteIndex == 0
    &&& c.m_positionPtr.is_none() && c.m_eventPtr.is_none() && c.m_eventEndPtr.is_none()
    &&& c.m_lastBufferRequestSize == 0
    &&& c.m_partialTokenBytesBefore == 0
    &&& c.m_reparseDeferralEnabled == o.m_reparseDeferralEnabled
    &&& c.m_isParamEntity == isParamEntity
    &&& c.m_parentParser
    &&& c.m_hash_secret_salt == o.m_hash_secret_salt
    &&& c.m_ns == o.m_ns
    &&& c.m_namespaceSeparator == if o.m_ns { o.m_namespaceSeparator } else { 0x21u8 }
    &&& c.m_ns_triplets == o.m_ns_triplets
    &&& !c.m_useForeignDTD
    &&& c.m_paramEntityParsing == o.m_paramEntityParsing
    &&& match encodingName {
        Some(n) => c.m_protocolEncodingName.is_some() && c.m_protocolEncodingName.unwrap()@ == n@,
        None => c.m_protocolEncodingName.is_none(),
    }
    &&& c.m_curBase.is_none()
    &&& c.m_accounting.countBytesDirect == 0 && c.m_accounting.countBytesIndirect == 0
    &&& c.m_accounting.debugLevel == o.m_accounting.debugLevel
    &&& c.m_alloc_tracker.bytesAllocated == 0 && c.m_alloc_tracker.peakBytesAllocated == 0
    &&& c.m_alloc_tracker.debugLevel == o.m_alloc_tracker.debugLevel
    &&& c.m_entity_stats.debugLevel == o.m_entity_stats.debugLevel
    &&& c.m_namespaces.ns() == o.m_ns
    &&& c.m_namespaces.sep() == c.m_namespaceSeparator
}

impl XML_ParserStruct {
    /// A parser for an external entity that this parser refers to. With a
    /// `context` (a general entity), it has a copy of this parser's entities
    /// (none of them open) and prefixes, and applies `context`; `None` when
    /// a binding of the context is refused or a table cannot grow, which
    /// takes more records than memory holds. Without a context it reads a
    /// parameter entity: it holds no tables of its own (they stay empty),
    /// and the declarations it reads go to this parser's DTD, which the
    /// prolog functions take as an argument. `heapTolerated` is the root
    /// parser's answer on the memory of the new parser (its allocation
    /// tracker's `expat_heap_increase_tolerable`, with the amplification
    /// limit applied by the caller): where it refuses, no parser is made.
    #[allow(non_snake_case)]
    pub fn XML_ExternalEntityParserCreate(
        &self,
        context: Option<&[u8]>,
        encodingName: Option<&[u8]>,
        heapTolerated: bool,
    ) -> (r: Option<XML_ParserStruct>)
        requires
            self.wf(),
        ensures
            !heapTolerated ==> r is None,
            match r {
                Some(c) => {
                    &&& c.wf()
                    &&& child_parser(*self, c, encodingName, context is None)
                    &&& match context {
                        None => c.m_namespaces@.len() == 0 && c.m_namespaces.prefix_names().len() == 0
                            && c.m_generalEntities@.len() == 0,
                        Some(ctx) => {
                            &&& named_bindings(c.m_namespaces) == context_bindings(parse_context(ctx@), c.m_namespaceSeparator)
                            &&& exists|m: HASH_TABLE<ENTITY>|
                                same_entities(m@, self.m_generalEntities@) && entities_opened(
                                    c.m_generalEntities,
                                    parse_context(ctx@),
                                    m,
                                )
                        },
                    }
                },
                None => !heapTolerated || (context matches Some(ctx) && (context_has_bad_binding(
                    parse_context(ctx@),
                    self.m_ns,
                    if self.m_ns { self.m_namespaceSeparator } else { 0x21u8 },
                ) || self.m_generalEntities@.len() >= usize::MAX / 64 || self.m_namespaces.prefix_names().len()
                    + parse_context(ctx@).len() >= usize::MAX / 64)),
            },
    {
        if !heapTolerated {
            return None;
        }
        let sep: Option<u8> = if self.m_ns {
            Some(self.m_namespaceSeparator)
        } else {
            None
        };
        let mut c = XML_ParserStruct::XML_ParserCreate_MM(
            encodingName,
            sep,
            self.m_accounting.debugLevel,
            self.m_alloc_tracker.debugLevel,
            self.m_entity_stats.debugLevel,
        );
        let salt = self.m_hash_secret_salt;
        c.m_namespaces = NsScope::new(c.m_ns, c.m_namespaceSeparator, salt);
        c.m_generalEntities = HASH_TABLE::hashTableInit(salt);
        c.m_ns_triplets = self.m_ns_triplets;
        c.m_hash_secret_salt = salt;
        c.m_reparseDeferralEnabled = self.m_reparseDeferralEnabled;
        c.m_parentParser = true;
        c.m_paramEntityParsing = self.m_paramEntityParsing;
        match context {
            None => {
                c.m_isParamEntity = true;
                proof {
                    assert(c.m_namespaces@.len() == 0);
                }
                Some(c)
            },
            Some(ctx) => {
                if !copy_prefixes(&self.m_namespaces, &mut c.m_namespaces) {
                    proof {
                        c.m_namespaces.lemma_prefix_count();
                        c.m_namespaces.prefix_table().lemma_blocked_is_huge();
                    }
                    return None;
                }
                if !copyEntityTable(&self.m_generalEntities, &mut c.m_generalEntities) {
                    proof {
                        c.m_generalEntities.lemma_blocked_is_huge();
                    }
                    return None;
                }
                let ghost copied = c.m_generalEntities;
                let ghost before_ns = c.m_namespaces;
                if !setContext(&mut c.m_namespaces, &mut c.m_generalEntities, ctx) {
                    proof {
                        if !context_has_bad_binding(parse_context(ctx@), c.m_ns, c.m_namespaceSeparator) {
                            c.m_namespaces.lemma_prefix_count();
                            c.m_namespaces.prefix_table().lemma_blocked_is_huge();
                        }
                    }
                    return None;
                }
                proof {
                    assert(before_ns@ == Seq::<(Option<usize>, Option<Seq<u8>>)>::empty());
                    assert(named_bindings(before_ns) =~= Seq::<(Option<Seq<u8>>, Option<Seq<u8>>)>::empty());
                    assert(named_bindings(c.m_namespaces) =~= context_bindings(parse_context(ctx@), c.m_namespaceSeparator));
                    assert(same_entities(copied@, self.m_generalEntities@) && entities_opened(
                        c.m_generalEntities,
                        parse_context(ctx@),
                        copied,
                    ));
                }
                Some(c)
            },
        }
    }
}

/// The bytes a buffer keeps before the parse position `start` when it moves.
pub open spec fn keep_bytes(start: int) -> int {
    if start > XML_CONTEXT_BYTES { XML_CONTEXT_BYTES as int } else { start }
}

/// The size a buffer of `size` bytes grows to so that it holds `needed`
/// bytes: doubled until it does, at least once; -1 when that passes the
/// largest `int`.
pub open spec fn grown_size(size: int, needed: int) -> int
    decreases 0x8000_0000 - size,
{
    if size <= 0 || 2 * size >= 0x8000_0000 {
        -1
    } else if 2 * size < needed {
        grown_size(2 * size, needed)
    } else {
        2 * size
    }
}

/// A grown size holds what it was grown for and stays an `int`.
pub proof fn lemma_grown_size(size: int, needed: int)
    ensures
        grown_size(size, needed) == -1 || (needed <= grown_size(size, needed)
            && 2 * size <= grown_size(size, needed) < 0x8000_0000),
    decreases 0x8000_0000 - size,
{
    if size > 0 && 2 * size < 0x8000_0000 && 2 * size < needed {
        lemma_grown_size(2 * size, needed);
    }
}

/// The size of the buffer that holds `needed` bytes, when the buffer has
/// `cap` bytes: the same buffer when they fit, else a grown one (from the
/// initial size when there is none); -1 when no size is possible.
pub open spec fn new_buffer_size(cap: int, needed: int) -> int {
    if cap > 0 && needed <= cap {
        cap
    } else if cap == 0 {
        grown_size(INIT_BUFFER_SIZE as int, needed)
    } else {
        grown_size(cap, needed)
    }
}

/// The error that refuses a request for `len` bytes of buffer space before
/// anything is looked at.
pub open spec fn get_buffer_refusal(o: XML_ParserStruct, len: int) -> Option<XmlError> {
    if len < 0 {
        Some(XmlError::XML_ERROR_NO_MEMORY)
    } else if o.m_parsingStatus.parsing == XML_Parsing::XML_SUSPENDED {
        Some(XmlError::XML_ERROR_SUSPENDED)
    } else if o.m_parsingStatus.parsing == XML_Parsing::XML_FINISHED {
        Some(XmlError::XML_ERROR_FINISHED)
    } else {
        None
    }
}

/// Whether `len` more bytes fit after the input given so far.
pub open spec fn room_fits(o: XML_ParserStruct, len: int) -> bool {
    o.m_buffer.len() > 0 && len <= o.m_buffer.len() - o.m_bufferEnd
}

/// The bytes needed when the buffer is rearranged for `len` more bytes: the
/// kept context, the unparsed input and the new bytes.
pub open spec fn room_needed(o: XML_ParserStruct, len: int) -> int {
    keep_bytes(o.m_bufferPtr as int) + (o.m_bufferEnd - o.m_bufferPtr) + len
}

/// Whether the buffer cannot be rearranged for `len` more bytes: the bytes
/// needed pass the largest `int`, or no buffer size holds them.
pub open spec fn room_impossible(o: XML_ParserStruct, len: int) -> bool {
    ||| len + (o.m_bufferEnd - o.m_bufferPtr) > INT_MAX
    ||| room_needed(o, len) > INT_MAX
    ||| new_buffer_size(o.m_buffer.len() as int, room_needed(o, len)) < 0
}

/// The parser after its buffer was rearranged for `len` more bytes: the kept
/// context and the unparsed input at the front of a buffer of the new size,
/// the event positions forgotten.
pub open spec fn room_made(o: XML_ParserStruct, f: XML_ParserStruct, len: int) -> bool {
    let keep = keep_bytes(o.m_bufferPtr as int);
    let pending = o.m_bufferEnd - o.m_bufferPtr;
    &&& f.m_buffer.len() == new_buffer_size(o.m_buffer.len() as int, room_needed(o, len))
    &&& f.m_buffer@.take(keep + pending) == o.m_buffer@.subrange(o.m_bufferPtr - keep, o.m_bufferEnd as int)
    &&& f == (XML_ParserStruct {
        m_buffer: f.m_buffer,
        m_bufferPtr: keep as usize,
        m_bufferEnd: (keep + pending) as usize,
        m_eventPtr: None,
        m_eventEndPtr: None,
        m_positionPtr: None,
        ..o
    })
}

/// A rearranged buffer is well formed and holds the bytes it was
/// rearranged for.
proof fn lemma_room_made_wf(o: XML_ParserStruct, f: XML_ParserStruct, len: int)
    requires
        o.wf(),
        0 <= len,
        !room_impossible(o, len),
        room_made(o, f, len),
    ensures
        f.wf(),
        f.m_bufferEnd + len <= f.m_buffer.len(),
{
    let cap = o.m_buffer.len() as int;
    let needed = room_needed(o, len);
    if cap > 0 && needed <= cap {
    } else if cap == 0 {
        lemma_grown_size(INIT_BUFFER_SIZE as int, needed);
    } else {
        lemma_grown_size(cap, needed);
    }
}

/// Grow a buffer size as `grown_size` says.
fn grow_buffer_size(size: u64, needed: u64) -> (r: Option<u64>)
    requires
        0 < size < 0x8000_0000,
    ensures
        match r {
            Some(s) => s == grown_size(size as int, needed as int) && 0 < s,
            None => grown_size(size as int, needed as int) == -1,
        },
{
    let mut s: u64 = size;
    while s < 0x4000_0000
        invariant
            0 < s < 0x8000_0000,
            grown_size(size as int, needed as int) == grown_size(s as int, needed as int),
        decreases 0x8000_0000 - s,
    {
        let d: u64 = 2 * s;
        if d >= needed {
            return Some(d);
        }
        s = d;
    }
    None
}

/// The size of the buffer that holds `needed` bytes when the buffer has
/// `cap` bytes, as `new_buffer_size` says; none when no size is possible.
fn buffer_size_for(cap: usize, needed: usize) -> (r: Option<usize>)
    requires
        cap <= INT_MAX,
    ensures
        match r {
            Some(n) => n == new_buffer_size(cap as int, needed as int) && cap <= n <= INT_MAX
                && needed <= n,
            None => new_buffer_size(cap as int, needed as int) < 0,
        },
{
    if cap > 0 && needed <= cap {
        return Some(cap);
    }
    let base: u64 = if cap == 0 { INIT_BUFFER_SIZE as u64 } else { cap as u64 };
    proof {
        lemma_grown_size(base as int, needed as int);
    }
    match grow_buffer_size(base, needed as u64) {
        None => None,
        Some(n) => Some(n as usize),
    }
}

/// A buffer of `size` bytes that starts with `src[from..to]`.
fn copy_with_room(src: &Vec<u8>, from: usize, to: usize, size: usize) -> (r: Vec<u8>)
    requires
        from <= to <= src.len(),
        to - from <= size,
    ensures
        r.len() == size,
        r@.take(to - from) == src@.subrange(from as int, to as int),
{
    let mut r: Vec<u8> = Vec::new();
    let mut i: usize = from;
    while i < to
        invariant
            from <= i <= to <= src.len(),
            r@ == src@.subrange(from as int, i as int),
        decreases to - i,
    {
        r.push(src[i]);
        i = i + 1;
    }
    while r.len() < size
        invariant
            to - from <= r.len() <= size,
            from <= to <= src.len(),
            forall|j: int| 0 <= j < to - from ==> r@[j] == src@[from + j],
        decreases size - r.len(),
    {
        r.push(0);
    }
    assert(r@.take(to - from) =~= src@.subrange(from as int, to as int));
    r
}

/// Move `buf[offset..offset + n]` to the start of `buf`.
fn shift_down(buf: &mut Vec<u8>, offset: usize, n: usize)
    requires
        offset + n <= old(buf).len(),
    ensures
        final(buf).len() == old(buf).len(),
        final(buf)@.take(n as int) == old(buf)@.subrange(offset as int, offset + n),
{
    let ghost orig = buf@;
    let mut i: usize = 0;
    while i < n
        invariant
            i <= n,
            offset + n <= buf.len(),
            buf.len() == orig.len(),
            forall|j: int| 0 <= j < i ==> buf@[j] == orig[offset + j],
            forall|j: int| i <= j < orig.len() ==> buf@[j] == orig[j],
        decreases n - i,
    {
        let b: u8 = buf[offset + i];
        buf.set(i, b);
        i = i + 1;
    }
    assert(buf@.take(n as int) =~= orig.subrange(offset as int, offset + n));
}

impl XML_ParserStruct {
    /// Whether the parser is in the middle of a document.
    #[allow(non_snake_case)]
    pub fn parserBusy(&self) -> (r: bool)
        ensures
            r == busy(self.m_parsingStatus.parsing),
    {
        match self.m_parsingStatus.parsing {
            XML_Parsing::XML_PARSING | XML_Parsing::XML_SUSPENDED => true,
            _ => false,
        }
    }

    /// Name the encoding the document is written in (none: read it from the
    /// document). Refused while the parser is busy.
    #[allow(non_snake_case)]
    pub fn XML_SetEncoding(&mut self, encodingName: Option<&[u8]>) -> (r: XmlStatus)
        ensures
            busy(old(self).m_parsingStatus.parsing) ==> r == XmlStatus::XML_STATUS_ERROR
                && *final(self) == *old(self),
            !busy(old(self).m_parsingStatus.parsing) ==> r == XmlStatus::XML_STATUS_OK
                && *final(self) == (XML_ParserStruct {
                    m_protocolEncodingName: final(self).m_protocolEncodingName,
                    ..*old(self)
                })
                && match encodingName {
                    Some(n) => final(self).m_protocolEncodingName.is_some()
                        && final(self).m_protocolEncodingName.unwrap()@ == n@,
                    None => final(self).m_protocolEncodingName.is_none(),
                },
    {
        if self.parserBusy() {
            return XmlStatus::XML_STATUS_ERROR;
        }
        self.m_protocolEncodingName = match encodingName {
            Some(n) => Some(crate::hashtable::copy_string(n)),
            None => None,
        };
        XmlStatus::XML_STATUS_OK
    }

    /// Read an external DTD subset even when the document names none.
    /// Refused while the parser is busy.
    #[allow(non_snake_case)]
    pub fn XML_UseForeignDTD(&mut self, useDTD: bool) -> (r: XmlError)
        ensures
            busy(old(self).m_parsingStatus.parsing) ==> r == XmlError::XML_ERROR_CANT_CHANGE_FEATURE_ONCE_PARSING
                && *final(self) == *old(self),
            !busy(old(self).m_parsingStatus.parsing) ==> r == XmlError::XML_ERROR_NONE
                && *final(self) == (XML_ParserStruct { m_useForeignDTD: useDTD, ..*old(self) }),
    {
        if self.parserBusy() {
            return XmlError::XML_ERROR_CANT_CHANGE_FEATURE_ONCE_PARSING;
        }
        self.m_useForeignDTD = useDTD;
        XmlError::XML_ERROR_NONE
    }

    /// Report names with their namespace prefix too (`do_nst` not zero).
    /// Ignored while the parser is busy.
    #[allow(non_snake_case)]
    pub fn XML_SetReturnNSTriplet(&mut self, do_nst: i32)
        ensures
            busy(old(self).m_parsingStatus.parsing) ==> *final(self) == *old(self),
            !busy(old(self).m_parsingStatus.parsing) ==> *final(self) == (XML_ParserStruct {
                m_ns_triplets: do_nst != 0,
                ..*old(self)
            }),
    {
        if self.parserBusy() {
            return;
        }
        self.m_ns_triplets = do_nst != 0;
    }

    /// Choose when parameter entities are read: 1 when set, 0 when refused
    /// because the parser is busy.
    #[allow(non_snake_case)]
    pub fn XML_SetParamEntityParsing(&mut self, peParsing: XML_ParamEntityParsing) -> (r: i32)
        ensures
            busy(old(self).m_parsingStatus.parsing) ==> r == 0 && *final(self) == *old(self),
            !busy(old(self).m_parsingStatus.parsing) ==> r == 1 && *final(self) == (XML_ParserStruct {
                m_paramEntityParsing: peParsing,
                ..*old(self)
            }),
    {
        if self.parserBusy() {
            return 0;
        }
        self.m_paramEntityParsing = peParsing;
        1
    }

    /// Set the salt of the name hashes. The salt belongs to the root parser,
    /// which this is called on: 1 when set, 0 when refused because the
    /// parser is busy.
    #[allow(non_snake_case)]
    pub fn XML_SetHashSalt(&mut self, hash_salt: u64) -> (r: i32)
        requires
            !old(self).m_parentParser,
        ensures
            busy(old(self).m_parsingStatus.parsing) ==> r == 0 && *final(self) == *old(self),
            !busy(old(self).m_parsingStatus.parsing) ==> r == 1 && *final(self) == (XML_ParserStruct {
                m_hash_secret_salt: hash_salt,
                ..*old(self)
            }),
    {
        if self.parserBusy() {
            return 0;
        }
        self.m_hash_secret_salt = hash_salt;
        1
    }

    /// Set the base for relative system identifiers (none: no base).
    #[allow(non_snake_case)]
    pub fn XML_SetBase(&mut self, p: Option<&[u8]>) -> (r: XmlStatus)
        ensures
            r == XmlStatus::XML_STATUS_OK,
            *final(self) == (XML_ParserStruct { m_curBase: final(self).m_curBase, ..*old(self) }),
            match p {
                Some(b) => final(self).m_curBase.is_some() && final(self).m_curBase.unwrap()@ == b@,
                None => final(self).m_curBase.is_none(),
            },
    {
        self.m_curBase = match p {
            Some(b) => Some(crate::hashtable::copy_string(b)),
            None => None,
        };
        XmlStatus::XML_STATUS_OK
    }

    /// The base for relative system identifiers.
    #[allow(non_snake_case)]
    pub fn XML_GetBase(&self) -> (r: Option<&[u8]>)
        ensures
            match self.m_curBase {
                Some(b) => r.is_some() && r.unwrap()@ == b@,
                None => r.is_none(),
            },
    {
        match &self.m_curBase {
            Some(b) => Some(b.as_slice()),
            None => None,
        }
    }

    /// Set the output size from which the amplification limit applies.
    /// Refused (false) for a parser of an external entity.
    #[allow(non_snake_case)]
    pub fn XML_SetBillionLaughsAttackProtectionActivationThreshold(&mut self, activationThresholdBytes: u64) -> (r:
        bool)
        ensures
            r == !old(self).m_parentParser,
            old(self).m_parentParser ==> *final(self) == *old(self),
            !old(self).m_parentParser ==> final(self).m_accounting.activationThresholdBytes
                == activationThresholdBytes
                && final(self).m_accounting.countBytesDirect == old(self).m_accounting.countBytesDirect
                && final(self).m_accounting.countBytesIndirect == old(self).m_accounting.countBytesIndirect
                && final(self).m_accounting.debugLevel == old(self).m_accounting.debugLevel
                && *final(self) == (XML_ParserStruct { m_accounting: final(self).m_accounting, ..*old(self) }),
    {
        if self.m_parentParser {
            return false;
        }
        self.m_accounting.activationThresholdBytes = activationThresholdBytes;
        true
    }

    /// Set the heap size from which the allocation limit applies.
    /// Refused (false) for a parser of an external entity.
    #[allow(non_snake_case)]
    pub fn XML_SetAllocTrackerActivationThreshold(&mut self, activationThresholdBytes: u64) -> (r: bool)
        ensures
            r == !old(self).m_parentParser,
            old(self).m_parentParser ==> *final(self) == *old(self),
            !old(self).m_parentParser ==> final(self).m_alloc_tracker.activationThresholdBytes
                == activationThresholdBytes
                && final(self).m_alloc_tracker.bytesAllocated == old(self).m_alloc_tracker.bytesAllocated
                && final(self).m_alloc_tracker.peakBytesAllocated
                == old(self).m_alloc_tracker.peakBytesAllocated
                && final(self).m_alloc_tracker.debugLevel == old(self).m_alloc_tracker.debugLevel
                && *final(self) == (XML_ParserStruct {
                    m_alloc_tracker: final(self).m_alloc_tracker,
                    ..*old(self)
                }),
    {
        if self.m_parentParser {
            return false;
        }
        self.m_alloc_tracker.activationThresholdBytes = activationThresholdBytes;
        true
    }

    /// Turn reparse deferral on (1) or off (0); any other value is refused.
    #[allow(non_snake_case)]
    pub fn XML_SetReparseDeferralEnabled(&mut self, enabled: u8) -> (r: bool)
        ensures
            r == (enabled == 0 || enabled == 1),
            r ==> *final(self) == (XML_ParserStruct { m_reparseDeferralEnabled: enabled == 1, ..*old(self) }),
            !r ==> *final(self) == *old(self),
    {
        if enabled == 1 || enabled == 0 {
            self.m_reparseDeferralEnabled = enabled == 1;
            return true;
        }
        false
    }

    /// The error of the last failed call.
    #[allow(non_snake_case)]
    pub fn XML_GetErrorCode(&self) -> (r: XmlError)
        ensures
            r == self.m_errorCode,
    {
        self.m_errorCode
    }

    /// The parsing status.
    #[allow(non_snake_case)]
    pub fn XML_GetParsingStatus(&self) -> (r: XML_ParsingStatus)
        ensures
            r == self.m_parsingStatus,
    {
        self.m_parsingStatus
    }
}


/// What `XML_StopParser` does in status `p`: the new status, or the error.
pub open spec fn stop_outcome(p: XML_Parsing, resumable: bool, isParamEntity: bool) -> Result<XML_Parsing, XmlError> {
    match p {
        XML_Parsing::XML_INITIALIZED => Err(XmlError::XML_ERROR_NOT_STARTED),
        XML_Parsing::XML_SUSPENDED => if resumable {
            Err(XmlError::XML_ERROR_SUSPENDED)
        } else {
            Ok(XML_Parsing::XML_FINISHED)
        },
        XML_Parsing::XML_FINISHED => Err(XmlError::XML_ERROR_FINISHED),
        XML_Parsing::XML_PARSING => if !resumable {
            Ok(XML_Parsing::XML_FINISHED)
        } else if isParamEntity {
            Err(XmlError::XML_ERROR_SUSPEND_PE)
        } else {
            Ok(XML_Parsing::XML_SUSPENDED)
        },
    }
}

impl XML_ParserStruct {
    /// Put the kept context and the unparsed input at the front of a buffer
    /// of `size` bytes (the same one when that is its size), and forget the
    /// event positions.
    fn move_input(&mut self, want: usize, keep: usize, size: usize)
        requires
            old(self).wf(),
            keep == keep_bytes(old(self).m_bufferPtr as int),
            size == new_buffer_size(old(self).m_buffer.len() as int, room_needed(*old(self), want as int)),
            room_needed(*old(self), want as int) <= size <= INT_MAX,
            old(self).m_buffer.len() <= size,
        ensures
            room_made(*old(self), *final(self), want as int),
    {
        let pending: usize = self.m_bufferEnd - self.m_bufferPtr;
        if size == self.m_buffer.len() {
            let offset: usize = self.m_bufferPtr - keep;
            shift_down(&mut self.m_buffer, offset, pending + keep);
        } else {
            let fresh = copy_with_room(&self.m_buffer, self.m_bufferPtr - keep, self.m_bufferEnd, size);
            self.m_buffer = fresh;
        }
        self.m_bufferEnd = keep + pending;
        self.m_bufferPtr = keep;
        self.m_eventPtr = None;
        self.m_eventEndPtr = None;
        self.m_positionPtr = None;
    }

    /// Rearrange the buffer so that `want` more bytes fit after the input.
    fn make_room(&mut self, want: usize) -> (r: Result<(), XmlError>)
        requires
            old(self).wf(),
            want <= INT_MAX,
            !room_fits(*old(self), want as int),
        ensures
            r.is_err() == room_impossible(*old(self), want as int),
            r.is_err() ==> r == Err::<(), XmlError>(XmlError::XML_ERROR_NO_MEMORY) && *final(self) == *old(self),
            r.is_ok() ==> room_made(*old(self), *final(self), want as int) && final(self).wf()
                && final(self).m_bufferEnd + want <= final(self).m_buffer.len(),
    {
        let cap: usize = self.m_buffer.len();
        let pending: usize = self.m_bufferEnd - self.m_bufferPtr;
        if pending > INT_MAX as usize - want {
            return Err(XmlError::XML_ERROR_NO_MEMORY);
        }
        let needed0: usize = want + pending;
        let keep: usize = if self.m_bufferPtr > XML_CONTEXT_BYTES as usize {
            XML_CONTEXT_BYTES as usize
        } else {
            self.m_bufferPtr
        };
        if keep > INT_MAX as usize - needed0 {
            return Err(XmlError::XML_ERROR_NO_MEMORY);
        }
        let needed: usize = needed0 + keep;
        assert(needed == room_needed(*old(self), want as int));
        let size: usize = match buffer_size_for(cap, needed) {
            None => {
                return Err(XmlError::XML_ERROR_NO_MEMORY);
            },
            Some(n) => n,
        };
        self.move_input(want, keep, size);
        proof {
            lemma_room_made_wf(*old(self), *self, want as int);
        }
        Ok(())
    }

    /// Make room for `len` more bytes after the input given so far, and
    /// return where they go. When they do not fit, the unparsed input moves
    /// to the front of the buffer with up to `XML_CONTEXT_BYTES` bytes
    /// before it, into a bigger buffer if need be; the event positions are
    /// then forgotten.
    #[allow(non_snake_case)]
    pub fn XML_GetBuffer(&mut self, len: i32) -> (r: Result<usize, XmlError>)
        requires
            old(self).wf(),
        ensures
            final(self).wf(),
            match get_buffer_refusal(*old(self), len as int) {
                Some(e) => r == Err::<usize, XmlError>(e)
                    && *final(self) == (XML_ParserStruct { m_errorCode: e, ..*old(self) }),
                None => if room_fits(*old(self), len as int) {
                    r == Ok::<usize, XmlError>(old(self).m_bufferEnd)
                        && *final(self) == (XML_ParserStruct { m_lastBufferRequestSize: len, ..*old(self) })
                } else if room_impossible(*old(self), len as int) {
                    r == Err::<usize, XmlError>(XmlError::XML_ERROR_NO_MEMORY)
                        && *final(self) == (XML_ParserStruct {
                            m_errorCode: XmlError::XML_ERROR_NO_MEMORY,
                            m_lastBufferRequestSize: len,
                            ..*old(self)
                        })
                } else {
                    r == Ok::<usize, XmlError>(final(self).m_bufferEnd)
                        && room_made(
                            XML_ParserStruct { m_lastBufferRequestSize: len, ..*old(self) },
                            *final(self),
                            len as int,
                        )
                },
            },
            match r {
                Ok(e) => e == final(self).m_bufferEnd && e + len <= final(self).m_buffer.len(),
                Err(_) => true,
            },
    {
        if len < 0 {
            self.m_errorCode = XmlError::XML_ERROR_NO_MEMORY;
            return Err(XmlError::XML_ERROR_NO_MEMORY);
        }
        match self.m_parsingStatus.parsing {
            XML_Parsing::XML_SUSPENDED => {
                self.m_errorCode = XmlError::XML_ERROR_SUSPENDED;
                return Err(XmlError::XML_ERROR_SUSPENDED);
            },
            XML_Parsing::XML_FINISHED => {
                self.m_errorCode = XmlError::XML_ERROR_FINISHED;
                return Err(XmlError::XML_ERROR_FINISHED);
            },
            _ => {},
        }
        self.m_lastBufferRequestSize = len;
        let cap: usize = self.m_buffer.len();
        let want: usize = len as usize;
        if want > cap - self.m_bufferEnd || cap == 0 {
            match self.make_room(want) {
                Err(e) => {
                    self.m_errorCode = e;
                    return Err(e);
                },
                Ok(()) => {},
            }
        }
        Ok(self.m_bufferEnd)
    }

    /// Stop parsing, for good or (`resumable`) until `XML_ResumeParser`.
    /// Meant to be called from a handler while a parsing call runs.
    #[allow(non_snake_case)]
    #[verifier::rlimit(40)]
    pub fn XML_StopParser(&mut self, resumable: bool) -> (r: XmlStatus)
        requires
            old(self).wf(),
        ensures
            final(self).wf(),
            match stop_outcome(old(self).m_parsingStatus.parsing, resumable, old(self).m_isParamEntity) {
                Ok(q) => r == XmlStatus::XML_STATUS_OK && *final(self) == (XML_ParserStruct {
                    m_parsingStatus: XML_ParsingStatus { parsing: q, ..old(self).m_parsingStatus },
                    ..*old(self)
                }),
                Err(e) => r == XmlStatus::XML_STATUS_ERROR && *final(self) == (XML_ParserStruct {
                    m_errorCode: e,
                    ..*old(self)
                }),
            },
    {
        match self.m_parsingStatus.parsing {
            XML_Parsing::XML_INITIALIZED => {
                self.m_errorCode = XmlError::XML_ERROR_NOT_STARTED;
                return XmlStatus::XML_STATUS_ERROR;
            },
            XML_Parsing::XML_SUSPENDED => {
                if resumable {
                    self.m_errorCode = XmlError::XML_ERROR_SUSPENDED;
                    return XmlStatus::XML_STATUS_ERROR;
                }
                self.m_parsingStatus.parsing = XML_Parsing::XML_FINISHED;
            },
            XML_Parsing::XML_FINISHED => {
                self.m_errorCode = XmlError::XML_ERROR_FINISHED;
                return XmlStatus::XML_STATUS_ERROR;
            },
            XML_Parsing::XML_PARSING => {
                if resumable {
                    if self.m_isParamEntity {
                        self.m_errorCode = XmlError::XML_ERROR_SUSPEND_PE;
                        return XmlStatus::XML_STATUS_ERROR;
                    }
                    self.m_parsingStatus.parsing = XML_Parsing::XML_SUSPENDED;
                } else {
                    self.m_parsingStatus.parsing = XML_Parsing::XML_FINISHED;
                }
            },
        }
        XmlStatus::XML_STATUS_OK
    }
}


/// The salt the parse uses: the one set, or the generated one when none was.
pub open spec fn parse_salt(o: XML_ParserStruct, generated: u64) -> u64 {
    if o.m_hash_secret_salt == 0 { generated } else { o.m_hash_secret_salt }
}

/// Two scopes hold the same bindings and prefixes.
pub open spec fn scope_kept(a: NsScope, b: NsScope) -> bool {
    &&& a@ == b@
    &&& a.prefix_names() == b.prefix_names()
    &&& a.ns() == b.ns()
    &&& a.sep() == b.sep()
}

/// What starting a parse did to the salt, the bindings and the entity table
/// of `o`, giving those of `f`; `ok` tells whether it succeeded. A
/// namespace-aware parser applies `implicitContext`.
pub open spec fn start_effect(o: XML_ParserStruct, f: XML_ParserStruct, generated: u64, ok: bool) -> bool {
    &&& f.m_hash_secret_salt == parse_salt(o, generated)
    &&& f.m_namespaces.wf()
    &&& f.m_generalEntities.wf()
    &&& f.m_namespaces.ns() == o.m_namespaces.ns()
    &&& f.m_namespaces.sep() == o.m_namespaces.sep()
    &&& !o.m_ns ==> ok && scope_kept(f.m_namespaces, o.m_namespaces) && f.m_generalEntities@
        == o.m_generalEntities@
    &&& o.m_ns && ok ==> named_bindings(f.m_namespaces) == named_bindings(o.m_namespaces) + context_bindings(
        parse_context(implicitContext@),
        o.m_namespaceSeparator,
    ) && entities_opened(f.m_generalEntities, parse_context(implicitContext@), o.m_generalEntities)
    &&& o.m_ns && !ok ==> context_has_bad_binding(parse_context(implicitContext@), true, o.m_namespaceSeparator)
        || f.m_namespaces.prefix_table().growth_blocked()
}

/// `f` is `o` but for the salt, the bindings and the entity table.
pub open spec fn only_start_changed(o: XML_ParserStruct, f: XML_ParserStruct) -> bool {
    f == (XML_ParserStruct {
        m_hash_secret_salt: f.m_hash_secret_salt,
        m_namespaces: f.m_namespaces,
        m_generalEntities: f.m_generalEntities,
        ..o
    })
}

/// Whether a parse call on `o` starts the parse: the parser has not started
/// and is no parser of an external entity.
pub open spec fn starts_parse(o: XML_ParserStruct) -> bool {
    o.m_parsingStatus.parsing == XML_Parsing::XML_INITIALIZED && !o.m_parentParser
}

/// The error that refuses `XML_ParseBuffer` for `len` bytes before the parse
/// starts.
pub open spec fn parse_buffer_refusal(o: XML_ParserStruct, len: int) -> Option<XmlError> {
    if len < 0 {
        Some(XmlError::XML_ERROR_INVALID_ARGUMENT)
    } else if o.m_parsingStatus.parsing == XML_Parsing::XML_SUSPENDED {
        Some(XmlError::XML_ERROR_SUSPENDED)
    } else if o.m_parsingStatus.parsing == XML_Parsing::XML_FINISHED {
        Some(XmlError::XML_ERROR_FINISHED)
    } else if o.m_parsingStatus.parsing == XML_Parsing::XML_INITIALIZED && o.m_buffer.len() == 0 {
        Some(XmlError::XML_ERROR_NO_BUFFER)
    } else {
        None
    }
}

/// `f` is `s` after `len` bytes written at the end of its input were
/// handed to the parse, the last of the document when `isFinal`.
pub open spec fn input_fed(s: XML_ParserStruct, f: XML_ParserStruct, len: int, isFinal: bool) -> bool {
    f == (XML_ParserStruct {
        m_parsingStatus: XML_ParsingStatus { parsing: XML_Parsing::XML_PARSING, finalBuffer: isFinal },
        m_positionPtr: Some(s.m_bufferPtr),
        m_bufferEnd: (s.m_bufferEnd + len) as usize,
        m_parseEndPtr: (s.m_bufferEnd + len) as usize,
        m_parseEndByteIndex: (s.m_parseEndByteIndex + len) as i64,
        ..s
    })
}

/// Whether the processor is to wait for more input before it reparses the
/// bytes from `start` to `end`: deferral is on, more input is to come, the
/// bytes are fewer than twice those of the last try, and the last buffer
/// request fits in what the buffer has to spare.
pub open spec fn deferral_applies(o: XML_ParserStruct, start: int, end: int) -> bool {
    let before = o.m_bufferPtr as int;
    let spare = before - (if before < XML_CONTEXT_BYTES { before } else { XML_CONTEXT_BYTES as int }) + (
    o.m_buffer.len() - o.m_bufferEnd);
    &&& o.m_reparseDeferralEnabled
    &&& !o.m_parsingStatus.finalBuffer
    &&& end - start < 2 * o.m_partialTokenBytesBefore
    &&& o.m_lastBufferRequestSize <= spare
}

impl XML_ParserStruct {
    /// Start the parse: fix the salt (`generatedSalt` when none was set) and,
    /// for a namespace-aware parser, apply `implicitContext`. False when the
    /// context could not be applied.
    #[allow(non_snake_case)]
    #[verifier::rlimit(40)]
    pub fn startParsing(&mut self, generatedSalt: u64) -> (r: bool)
        requires
            old(self).wf(),
        ensures
            final(self).wf(),
            only_start_changed(*old(self), *final(self)),
            start_effect(*old(self), *final(self), generatedSalt, r),
    {
        if self.m_hash_secret_salt == 0 {
            self.m_hash_secret_salt = generatedSalt;
        }
        let salt: u64 = self.m_hash_secret_salt;
        if self.m_generalEntities.len() == 0 && self.m_namespaces.mark() == 0
            && self.m_namespaces.prefixes().len() == 0 {
            let fresh_ns = NsScope::new(self.m_ns, self.m_namespaceSeparator, salt);
            let fresh_entities: HASH_TABLE<ENTITY> = HASH_TABLE::hashTableInit(salt);
            proof {
                assert(fresh_ns@ =~= old(self).m_namespaces@);
                assert(fresh_ns.prefix_names() =~= old(self).m_namespaces.prefix_names());
                assert(fresh_entities@ =~= old(self).m_generalEntities@);
                assert(named_bindings(fresh_ns) =~= named_bindings(old(self).m_namespaces));
            }
            self.m_namespaces = fresh_ns;
            self.m_generalEntities = fresh_entities;
        }
        let ghost before = *self;
        if self.m_ns {
            let ok = setContext(&mut self.m_namespaces, &mut self.m_generalEntities, &implicitContext);
            proof {
                if ok {
                    assert(entities_opened(self.m_generalEntities, parse_context(implicitContext@), before.m_generalEntities));
                }
            }
            return ok;
        }
        true
    }
}


impl XML_ParserStruct {
    /// Hand the `len` bytes written after the input (at the place that
    /// `XML_GetBuffer` returned) to the parse, the last of the document when
    /// `isFinal`; a parse that has not started starts, with `generatedSalt`
    /// as its salt when none was set. Returns the bytes the processor is to
    /// read, from the parse position to the end of the input.
    #[allow(non_snake_case)]
    pub fn XML_ParseBuffer(&mut self, len: i32, isFinal: bool, generatedSalt: u64) -> (r: Result<
        (usize, usize),
        XmlError,
    >)
        requires
            old(self).wf(),
            len < 0 || old(self).m_bufferEnd + len <= old(self).m_buffer.len() || (old(self).m_buffer.len() == 0
                && old(self).m_parsingStatus.parsing == XML_Parsing::XML_INITIALIZED),
            len < 0 || old(self).m_parseEndByteIndex + len <= i64::MAX - INT_MAX,
        ensures
            final(self).wf(),
            match parse_buffer_refusal(*old(self), len as int) {
                Some(e) => r == Err::<(usize, usize), XmlError>(e) && *final(self) == (XML_ParserStruct {
                    m_errorCode: e,
                    ..*old(self)
                }),
                None => {
                    &&& starts_parse(*old(self)) ==> start_effect(*old(self), *final(self), generatedSalt, r.is_ok())
                    &&& !starts_parse(*old(self)) ==> r.is_ok() && final(self).m_hash_secret_salt
                        == old(self).m_hash_secret_salt && final(self).m_namespaces == old(self).m_namespaces
                        && final(self).m_generalEntities == old(self).m_generalEntities
                    &&& r.is_err() ==> r == Err::<(usize, usize), XmlError>(XmlError::XML_ERROR_NO_MEMORY)
                        && only_start_changed(
                        XML_ParserStruct { m_errorCode: XmlError::XML_ERROR_NO_MEMORY, ..*old(self) },
                        *final(self),
                    )
                    &&& r.is_ok() ==> r == Ok::<(usize, usize), XmlError>(
                        (old(self).m_bufferPtr, (old(self).m_bufferEnd + len) as usize),
                    ) && input_fed(
                        XML_ParserStruct {
                            m_hash_secret_salt: final(self).m_hash_secret_salt,
                            m_namespaces: final(self).m_namespaces,
                            m_generalEntities: final(self).m_generalEntities,
                            ..*old(self)
                        },
                        *final(self),
                        len as int,
                        isFinal,
                    )
                },
            },
    {
        if len < 0 {
            self.m_errorCode = XmlError::XML_ERROR_INVALID_ARGUMENT;
            return Err(XmlError::XML_ERROR_INVALID_ARGUMENT);
        }
        match self.m_parsingStatus.parsing {
            XML_Parsing::XML_SUSPENDED => {
                self.m_errorCode = XmlError::XML_ERROR_SUSPENDED;
                return Err(XmlError::XML_ERROR_SUSPENDED);
            },
            XML_Parsing::XML_FINISHED => {
                self.m_errorCode = XmlError::XML_ERROR_FINISHED;
                return Err(XmlError::XML_ERROR_FINISHED);
            },
            XML_Parsing::XML_INITIALIZED => {
                if self.m_buffer.len() == 0 {
                    self.m_errorCode = XmlError::XML_ERROR_NO_BUFFER;
                    return Err(XmlError::XML_ERROR_NO_BUFFER);
                }
                if !self.m_parentParser && !self.startParsing(generatedSalt) {
                    self.m_errorCode = XmlError::XML_ERROR_NO_MEMORY;
                    return Err(XmlError::XML_ERROR_NO_MEMORY);
                }
            },
            XML_Parsing::XML_PARSING => {},
        }
        let ghost started = *self;
        let add: usize = len as usize;
        let start: usize = self.m_bufferPtr;
        self.m_parsingStatus = XML_ParsingStatus { parsing: XML_Parsing::XML_PARSING, finalBuffer: isFinal };
        self.m_positionPtr = Some(start);
        self.m_bufferEnd = self.m_bufferEnd + add;
        self.m_parseEndPtr = self.m_bufferEnd;
        self.m_parseEndByteIndex = self.m_parseEndByteIndex + len as i64;
        assert(input_fed(started, *self, len as int, isFinal));
        Ok((start, self.m_parseEndPtr))
    }
}


/// The error that refuses `XML_Parse` for `len` bytes before the parse
/// starts.
pub open spec fn parse_refusal(o: XML_ParserStruct, len: int) -> Option<XmlError> {
    if len < 0 {
        Some(XmlError::XML_ERROR_INVALID_ARGUMENT)
    } else if o.m_parsingStatus.parsing == XML_Parsing::XML_SUSPENDED {
        Some(XmlError::XML_ERROR_SUSPENDED)
    } else if o.m_parsingStatus.parsing == XML_Parsing::XML_FINISHED {
        Some(XmlError::XML_ERROR_FINISHED)
    } else {
        None
    }
}

/// `o` once its parse runs, with the salt, bindings and entity table of `f`.
pub open spec fn parse_running(o: XML_ParserStruct, f: XML_ParserStruct) -> XML_ParserStruct {
    XML_ParserStruct {
        m_parsingStatus: XML_ParsingStatus { parsing: XML_Parsing::XML_PARSING, ..o.m_parsingStatus },
        m_hash_secret_salt: f.m_hash_secret_salt,
        m_namespaces: f.m_namespaces,
        m_generalEntities: f.m_generalEntities,
        ..o
    }
}

/// What feeding `len` bytes of `s` to the running parse `o` gives: room is
/// made as `XML_GetBuffer` makes it, the bytes are written after the
/// unparsed input and handed to the parse, and `r` names the bytes the
/// processor is to read.
#[verifier::opaque]
pub open spec fn feed_outcome(
    o: XML_ParserStruct,
    f: XML_ParserStruct,
    s: Seq<u8>,
    len: int,
    isFinal: bool,
    r: Result<(usize, usize), XmlError>,
) -> bool {
    let m = XML_ParserStruct { m_lastBufferRequestSize: len as i32, ..o };
    let keep = keep_bytes(o.m_bufferPtr as int);
    let pending = o.m_bufferEnd - o.m_bufferPtr;
    if room_fits(m, len) {
        &&& r == Ok::<(usize, usize), XmlError>((o.m_bufferPtr, (o.m_bufferEnd + len) as usize))
        &&& f.m_buffer.len() == o.m_buffer.len()
        &&& f.m_buffer@.take(o.m_bufferEnd as int) == o.m_buffer@.take(o.m_bufferEnd as int)
        &&& f.m_buffer@.subrange(o.m_bufferEnd as int, o.m_bufferEnd + len) == s.take(len)
        &&& input_fed(XML_ParserStruct { m_buffer: f.m_buffer, ..m }, f, len, isFinal)
    } else if room_impossible(m, len) {
        r == Err::<(usize, usize), XmlError>(XmlError::XML_ERROR_NO_MEMORY) && f == (XML_ParserStruct {
            m_errorCode: XmlError::XML_ERROR_NO_MEMORY,
            ..m
        })
    } else {
        &&& r == Ok::<(usize, usize), XmlError>((keep as usize, (keep + pending + len) as usize))
        &&& f.m_buffer.len() == new_buffer_size(o.m_buffer.len() as int, room_needed(m, len))
        &&& f.m_buffer@.take(keep + pending) == o.m_buffer@.subrange(o.m_bufferPtr - keep, o.m_bufferEnd as int)
        &&& f.m_buffer@.subrange(keep + pending, keep + pending + len) == s.take(len)
        &&& input_fed(
            XML_ParserStruct {
                m_buffer: f.m_buffer,
                m_bufferPtr: keep as usize,
                m_bufferEnd: (keep + pending) as usize,
                m_eventPtr: None,
                m_eventEndPtr: None,
                m_positionPtr: None,
                ..m
            },
            f,
            len,
            isFinal,
        )
    }
}

/// What `XML_Parse` of `len` bytes of `s` does to the parser `o`, giving
/// `f`, and returns (`r`).
pub open spec fn parse_call(
    o: XML_ParserStruct,
    f: XML_ParserStruct,
    s: Seq<u8>,
    len: int,
    isFinal: bool,
    generatedSalt: u64,
    r: Result<(usize, usize), XmlError>,
) -> bool {
    match parse_refusal(o, len) {
        Some(e) => r == Err::<(usize, usize), XmlError>(e) && f == (XML_ParserStruct { m_errorCode: e, ..o }),
        None => {
            &&& starts_parse(o) ==> start_effect(o, f, generatedSalt, f.m_parsingStatus.parsing != XML_Parsing::XML_INITIALIZED)
            &&& f.m_parsingStatus.parsing == XML_Parsing::XML_INITIALIZED ==> starts_parse(o) && r == Err::<
                (usize, usize),
                XmlError,
            >(XmlError::XML_ERROR_NO_MEMORY) && only_start_changed(
                XML_ParserStruct { m_errorCode: XmlError::XML_ERROR_NO_MEMORY, ..o },
                f,
            )
            &&& f.m_parsingStatus.parsing != XML_Parsing::XML_INITIALIZED ==> feed_outcome(
                parse_running(o, f),
                f,
                s,
                len,
                isFinal,
                r,
            )
        },
    }
}

/// Write `s[0..len]` into the buffer at `at`.
fn write_input(buf: &mut Vec<u8>, at: usize, s: &[u8], len: usize)
    requires
        at + len <= old(buf).len(),
        len <= s.len(),
    ensures
        final(buf).len() == old(buf).len(),
        final(buf)@.take(at as int) == old(buf)@.take(at as int),
        final(buf)@.subrange(at as int, at + len) == s@.take(len as int),
{
    let ghost orig = buf@;
    let mut i: usize = 0;
    while i < len
        invariant
            i <= len <= s.len(),
            at + len <= buf.len(),
            buf.len() == orig.len(),
            forall|j: int| 0 <= j < at ==> buf@[j] == orig[j],
            forall|j: int| 0 <= j < i ==> buf@[at + j] == s@[j],
        decreases len - i,
    {
        buf.set(at + i, s[i]);
        i = i + 1;
    }
    assert(buf@.take(at as int) =~= orig.take(at as int));
    assert(buf@.subrange(at as int, at + len) =~= s@.take(len as int));
}

impl XML_ParserStruct {
    /// Feed `len` bytes of `s` to the running parse.
    #[verifier::rlimit(40)]
    fn feed(&mut self, s: &[u8], len: i32, isFinal: bool) -> (r: Result<(usize, usize), XmlError>)
        requires
            old(self).wf(),
            old(self).m_parsingStatus.parsing == XML_Parsing::XML_PARSING,
            0 <= len <= s.len(),
            old(self).m_parseEndByteIndex + len <= i64::MAX - INT_MAX,
        ensures
            final(self).wf(),
            feed_outcome(*old(self), *final(self), s@, len as int, isFinal, r),
            final(self).m_parsingStatus.parsing == XML_Parsing::XML_PARSING,
            final(self).m_hash_secret_salt == old(self).m_hash_secret_salt,
            final(self).m_namespaces == old(self).m_namespaces,
            final(self).m_generalEntities == old(self).m_generalEntities,
    {
        self.m_lastBufferRequestSize = len;
        let ghost m = *self;
        let want: usize = len as usize;
        let cap: usize = self.m_buffer.len();
        if want > cap - self.m_bufferEnd || cap == 0 {
            match self.make_room(want) {
                Err(e) => {
                    self.m_errorCode = e;
                    proof {
                        reveal(feed_outcome);
                    }
                    return Err(e);
                },
                Ok(()) => {},
            }
        }
        let ghost roomy = *self;
        let at: usize = self.m_bufferEnd;
        write_input(&mut self.m_buffer, at, s, want);
        let ghost written = *self;
        let start: usize = self.m_bufferPtr;
        self.m_parsingStatus = XML_ParsingStatus { parsing: XML_Parsing::XML_PARSING, finalBuffer: isFinal };
        self.m_positionPtr = Some(start);
        self.m_bufferEnd = self.m_bufferEnd + want;
        self.m_parseEndPtr = self.m_bufferEnd;
        self.m_parseEndByteIndex = self.m_parseEndByteIndex + len as i64;
        proof {
            reveal(feed_outcome);
            assert(input_fed(written, *self, len as int, isFinal));
            if room_fits(m, len as int) {
                assert(written.m_buffer@.take(old(self).m_bufferEnd as int) =~= roomy.m_buffer@.take(
                    old(self).m_bufferEnd as int,
                ));
                assert(written == XML_ParserStruct { m_buffer: self.m_buffer, ..m });
            } else {
                let keep = keep_bytes(old(self).m_bufferPtr as int);
                let pending = old(self).m_bufferEnd - old(self).m_bufferPtr;
                assert(written.m_buffer@.take(keep + pending) =~= roomy.m_buffer@.take(keep + pending));
            }
        }
        Ok((start, self.m_parseEndPtr))
    }

    /// Parse `len` bytes of `s`, the last of the document when `isFinal`: a
    /// parse that has not started starts (with `generatedSalt` as its salt
    /// when none was set), the bytes are copied after the unparsed input, and
    /// the bytes the processor is to read are returned, from the parse
    /// position to the end of the input.
    #[allow(non_snake_case)]
    pub fn XML_Parse(&mut self, s: &[u8], len: i32, isFinal: bool, generatedSalt: u64) -> (r: Result<
        (usize, usize),
        XmlError,
    >)
        requires
            old(self).wf(),
            len < 0 || len <= s.len(),
            len < 0 || old(self).m_parseEndByteIndex + len <= i64::MAX - INT_MAX,
        ensures
            final(self).wf(),
            parse_call(*old(self), *final(self), s@, len as int, isFinal, generatedSalt, r),
    {
        if len < 0 {
            self.m_errorCode = XmlError::XML_ERROR_INVALID_ARGUMENT;
            return Err(XmlError::XML_ERROR_INVALID_ARGUMENT);
        }
        match self.m_parsingStatus.parsing {
            XML_Parsing::XML_SUSPENDED => {
                self.m_errorCode = XmlError::XML_ERROR_SUSPENDED;
                return Err(XmlError::XML_ERROR_SUSPENDED);
            },
            XML_Parsing::XML_FINISHED => {
                self.m_errorCode = XmlError::XML_ERROR_FINISHED;
                return Err(XmlError::XML_ERROR_FINISHED);
            },
            XML_Parsing::XML_INITIALIZED => {
                if !self.m_parentParser && !self.startParsing(generatedSalt) {
                    self.m_errorCode = XmlError::XML_ERROR_NO_MEMORY;
                    return Err(XmlError::XML_ERROR_NO_MEMORY);
                }
            },
            XML_Parsing::XML_PARSING => {},
        }
        self.m_parsingStatus.parsing = XML_Parsing::XML_PARSING;
        let ghost running = *self;
        let r = self.feed(s, len, isFinal);
        proof {
            assert(running == parse_running(*old(self), *self));
        }
        r
    }
}


/// What follows a run of the processor.
#[derive(PartialEq, Eq, Structural, Clone, Copy, Debug)]
pub enum ProcessorRun {
    /// Run it again, from where it stopped.
    Again,
    /// Return its error at once.
    Return,
    /// The run is done: take where it stopped.
    Done,
}

/// What a parsing call decides once the processor returned `ret`: the
/// call's status, and the parsing state after it.
pub open spec fn finish_outcome(o: XML_ParserStruct, ret: XmlError) -> (XmlStatus, XML_ParserStruct) {
    if ret != XmlError::XML_ERROR_NONE {
        (
            XmlStatus::XML_STATUS_ERROR,
            XML_ParserStruct {
                m_errorCode: ret,
                m_eventEndPtr: o.m_eventPtr,
                m_errorProcessor: true,
                ..o
            },
        )
    } else if o.m_parsingStatus.parsing == XML_Parsing::XML_SUSPENDED {
        (
            XmlStatus::XML_STATUS_SUSPENDED,
            XML_ParserStruct { m_errorCode: ret, m_positionPtr: Some(o.m_bufferPtr), ..o },
        )
    } else if o.m_parsingStatus.parsing != XML_Parsing::XML_FINISHED && o.m_parsingStatus.finalBuffer {
        (
            XmlStatus::XML_STATUS_OK,
            XML_ParserStruct {
                m_errorCode: ret,
                m_parsingStatus: XML_ParsingStatus { parsing: XML_Parsing::XML_FINISHED, ..o.m_parsingStatus },
                ..o
            },
        )
    } else {
        (XmlStatus::XML_STATUS_OK, XML_ParserStruct { m_errorCode: ret, m_positionPtr: Some(o.m_bufferPtr), ..o })
    }
}

impl XML_ParserStruct {
    /// Resume a suspended parse. Returns the bytes the processor is to read,
    /// from the parse position to the end of the input given.
    #[allow(non_snake_case)]
    pub fn XML_ResumeParser(&mut self) -> (r: Result<(usize, usize), XmlError>)
        requires
            old(self).wf(),
        ensures
            final(self).wf(),
            old(self).m_parsingStatus.parsing != XML_Parsing::XML_SUSPENDED ==> r == Err::<(usize, usize), XmlError>(
                XmlError::XML_ERROR_NOT_SUSPENDED,
            ) && *final(self) == (XML_ParserStruct {
                m_errorCode: XmlError::XML_ERROR_NOT_SUSPENDED,
                ..*old(self)
            }),
            old(self).m_parsingStatus.parsing == XML_Parsing::XML_SUSPENDED ==> r == Ok::<(usize, usize), XmlError>(
                (old(self).m_bufferPtr, old(self).m_parseEndPtr),
            ) && *final(self) == (XML_ParserStruct {
                m_parsingStatus: XML_ParsingStatus {
                    parsing: XML_Parsing::XML_PARSING,
                    ..old(self).m_parsingStatus
                },
                ..*old(self)
            }),
    {
        if self.m_parsingStatus.parsing != XML_Parsing::XML_SUSPENDED {
            self.m_errorCode = XmlError::XML_ERROR_NOT_SUSPENDED;
            return Err(XmlError::XML_ERROR_NOT_SUSPENDED);
        }
        self.m_parsingStatus.parsing = XML_Parsing::XML_PARSING;
        Ok((self.m_bufferPtr, self.m_parseEndPtr))
    }

    /// Whether the processor is to wait for more input instead of
    /// reparsing the bytes from `start` to `end` now.
    #[allow(non_snake_case)]
    pub fn callProcessor_defers(&self, start: usize, end: usize) -> (r: bool)
        requires
            self.wf(),
            start <= end <= self.m_buffer.len(),
        ensures
            r == deferral_applies(*self, start as int, end as int),
    {
        if self.m_reparseDeferralEnabled && !self.m_parsingStatus.finalBuffer {
            let have_now: usize = end - start;
            let had_before: usize = self.m_partialTokenBytesBefore;
            let mut available: usize = self.m_bufferPtr;
            available = available - if available < XML_CONTEXT_BYTES as usize {
                available
            } else {
                XML_CONTEXT_BYTES as usize
            };
            available = available + (self.m_buffer.len() - self.m_bufferEnd);
            let enough: bool = have_now >= 2 * had_before || self.m_lastBufferRequestSize as usize > available;
            return !enough;
        }
        false
    }

    /// Take what the processor did with the bytes from `start` to `end`: it
    /// stopped at `endPtr` and returned `ret`. A parse that made no progress
    /// remembers how many bytes it tried.
    #[allow(non_snake_case)]
    pub fn callProcessor_done(&mut self, start: usize, end: usize, endPtr: usize, ret: XmlError)
        requires
            old(self).wf(),
            start <= endPtr <= end,
            end <= old(self).m_bufferEnd,
            end <= old(self).m_parseEndPtr,
        ensures
            final(self).wf(),
            *final(self) == (XML_ParserStruct {
                m_bufferPtr: endPtr,
                m_partialTokenBytesBefore: if ret != XmlError::XML_ERROR_NONE {
                    old(self).m_partialTokenBytesBefore
                } else if endPtr == start {
                    (end - start) as usize
                } else {
                    0
                },
                ..*old(self)
            }),
    {
        self.m_bufferPtr = endPtr;
        if ret == XmlError::XML_ERROR_NONE {
            if endPtr == start {
                self.m_partialTokenBytesBefore = end - start;
            } else {
                self.m_partialTokenBytesBefore = 0;
            }
        }
    }

    /// The error that the processor repeats once an error was reported: the
    /// error processor reads nothing and returns the stored error; `None`
    /// while the parse has met no error.
    #[allow(non_snake_case)]
    pub fn errorProcessor(&self) -> (r: Option<XmlError>)
        ensures
            r == if self.m_errorProcessor {
                Some(self.m_errorCode)
            } else {
                None::<XmlError>
            },
    {
        if self.m_errorProcessor {
            Some(self.m_errorCode)
        } else {
            None
        }
    }

    /// Ask that the processor run again on the same input.
    #[allow(non_snake_case)]
    pub fn triggerReenter(&mut self)
        ensures
            *final(self) == (XML_ParserStruct { m_reenter: true, ..*old(self) }),
    {
        self.m_reenter = true;
    }

    /// Decide what follows a run of the processor that returned `ret`: the
    /// request to run again is taken back (and dropped when the parse is no
    /// longer running). Where it was made, an error is returned at once and
    /// no error runs the processor again from where it stopped; else the
    /// run is done (`callProcessor_done`).
    #[allow(non_snake_case)]
    pub fn callProcessor_rerun(&mut self, ret: XmlError) -> (r: ProcessorRun)
        ensures
            *final(self) == (XML_ParserStruct { m_reenter: false, ..*old(self) }),
            r == if !(old(self).m_reenter && old(self).m_parsingStatus.parsing == XML_Parsing::XML_PARSING) {
                ProcessorRun::Done
            } else if ret != XmlError::XML_ERROR_NONE {
                ProcessorRun::Return
            } else {
                ProcessorRun::Again
            },
    {
        if self.m_parsingStatus.parsing != XML_Parsing::XML_PARSING {
            self.m_reenter = false;
        }
        if !self.m_reenter {
            return ProcessorRun::Done;
        }
        self.m_reenter = false;
        if ret != XmlError::XML_ERROR_NONE {
            return ProcessorRun::Return;
        }
        ProcessorRun::Again
    }

    /// Decide the result of a parsing call once the processor returned
    /// `ret`: an error is kept and repeated by all later calls; a parse that
    /// was given the end of the document finishes.
    #[allow(non_snake_case)]
    pub fn finishProcessing(&mut self, ret: XmlError) -> (r: XmlStatus)
        requires
            old(self).wf(),
        ensures
            final(self).wf(),
            (r, *final(self)) == finish_outcome(*old(self), ret),
    {
        self.m_errorCode = ret;
        if ret != XmlError::XML_ERROR_NONE {
            self.m_eventEndPtr = self.m_eventPtr;
            self.m_errorProcessor = true;
            return XmlStatus::XML_STATUS_ERROR;
        }
        let mut result = XmlStatus::XML_STATUS_OK;
        match self.m_parsingStatus.parsing {
            XML_Parsing::XML_SUSPENDED => {
                result = XmlStatus::XML_STATUS_SUSPENDED;
            },
            XML_Parsing::XML_INITIALIZED | XML_Parsing::XML_PARSING => {
                if self.m_parsingStatus.finalBuffer {
                    self.m_parsingStatus.parsing = XML_Parsing::XML_FINISHED;
                    return result;
                }
            },
            XML_Parsing::XML_FINISHED => {},
        }
        self.m_positionPtr = Some(self.m_bufferPtr);
        result
    }

    /// The byte offset in the document of the event being reported, -1
    /// when there is none.
    #[allow(non_snake_case)]
    pub fn XML_GetCurrentByteIndex(&self) -> (r: i64)
        requires
            self.wf(),
        ensures
            r == match self.m_eventPtr {
                Some(e) => self.m_parseEndByteIndex - (self.m_parseEndPtr - e),
                None => -1,
            },
    {
        match self.m_eventPtr {
            Some(e) => self.m_parseEndByteIndex - (self.m_parseEndPtr as i64 - e as i64),
            None => -1,
        }
    }

    /// The number of bytes of the event being reported, 0 when there is
    /// none.
    #[allow(non_snake_case)]
    pub fn XML_GetCurrentByteCount(&self) -> (r: i32)
        requires
            self.wf(),
        ensures
            r == match (self.m_eventPtr, self.m_eventEndPtr) {
                (Some(e), Some(f)) => f - e,
                _ => 0,
            },
    {
        match (self.m_eventPtr, self.m_eventEndPtr) {
            (Some(e), Some(f)) => (f as i64 - e as i64) as i32,
            _ => 0,
        }
    }

    /// The buffer around the event being reported, with the offset of the
    /// event in it and the size of the input in it.
    #[allow(non_snake_case)]
    pub fn XML_GetInputContext(&self) -> (r: Option<(&[u8], i32, i32)>)
        requires
            self.wf(),
        ensures
            match self.m_eventPtr {
                Some(e) => if self.m_buffer.len() > 0 {
                    r.is_some() && r.unwrap().0@ == self.m_buffer@ && r.unwrap().1 == e && r.unwrap().2
                        == self.m_bufferEnd
                } else {
                    r.is_none()
                },
                None => r.is_none(),
            },
    {
        match self.m_eventPtr {
            Some(e) => {
                if self.m_buffer.len() > 0 {
                    Some((self.m_buffer.as_slice(), e as i32, self.m_bufferEnd as i32))
                } else {
                    None
                }
            },
            None => None,
        }
    }
}


impl XML_ParserStruct {
    /// Bring a parser back to its first state, to parse another document
    /// with the same handlers; its buffer stays. The debug levels are read
    /// again by the caller. Refused (false) for a parser of an external
    /// entity.
    #[allow(non_snake_case)]
    pub fn XML_ParserReset(&mut self, encodingName: Option<&[u8]>, accountingDebug: u64, entityDebug: u64) -> (r:
        bool)
        requires
            old(self).wf(),
        ensures
            final(self).wf(),
            r == !old(self).m_parentParser,
            !r ==> *final(self) == *old(self),
            r ==> *final(self) == (XML_ParserStruct {
                m_parsingStatus: XML_ParsingStatus {
                    parsing: XML_Parsing::XML_INITIALIZED,
                    ..old(self).m_parsingStatus
                },
                m_errorCode: XmlError::XML_ERROR_NONE,
                m_errorProcessor: false,
                m_reenter: false,
                m_bufferPtr: 0,
                m_bufferEnd: 0,
                m_parseEndPtr: 0,
                m_parseEndByteIndex: 0,
                m_positionPtr: None,
                m_eventPtr: None,
                m_eventEndPtr: None,
                m_lastBufferRequestSize: 0,
                m_partialTokenBytesBefore: 0,
                m_reparseDeferralEnabled: g_reparseDeferralEnabledDefault,
                m_isParamEntity: false,
                m_hash_secret_salt: 0,
                m_useForeignDTD: false,
                m_paramEntityParsing: XML_ParamEntityParsing::XML_PARAM_ENTITY_PARSING_NEVER,
                m_protocolEncodingName: final(self).m_protocolEncodingName,
                m_curBase: None,
                m_accounting: final(self).m_accounting,
                m_entity_stats: final(self).m_entity_stats,
                m_namespaces: final(self).m_namespaces,
                m_generalEntities: final(self).m_generalEntities,
                ..*old(self)
            }),
            r ==> match encodingName {
                Some(n) => final(self).m_protocolEncodingName.is_some()
                    && final(self).m_protocolEncodingName.unwrap()@ == n@,
                None => final(self).m_protocolEncodingName.is_none(),
            },
            r ==> final(self).m_accounting.countBytesDirect == 0 && final(self).m_accounting.countBytesIndirect == 0
                && final(self).m_accounting.debugLevel == accountingDebug,
            r ==> final(self).m_entity_stats.countEverOpened == 0 && final(self).m_entity_stats.currentDepth == 0
                && final(self).m_entity_stats.maximumDepthSeen == 0 && final(self).m_entity_stats.debugLevel
                == entityDebug,
            r ==> final(self).m_namespaces@.len() == 0 && final(self).m_namespaces.prefix_names().len() == 0
                && final(self).m_generalEntities@.len() == 0,
    {
        if self.m_parentParser {
            return false;
        }
        self.m_protocolEncodingName = match encodingName {
            Some(n) => Some(crate::hashtable::copy_string(n)),
            None => None,
        };
        self.m_curBase = None;
        self.m_bufferPtr = 0;
        self.m_bufferEnd = 0;
        self.m_parseEndByteIndex = 0;
        self.m_parseEndPtr = 0;
        self.m_partialTokenBytesBefore = 0;
        self.m_reparseDeferralEnabled = g_reparseDeferralEnabledDefault;
        self.m_lastBufferRequestSize = 0;
        self.m_errorCode = XmlError::XML_ERROR_NONE;
        self.m_errorProcessor = false;
        self.m_reenter = false;
        self.m_eventPtr = None;
        self.m_eventEndPtr = None;
        self.m_positionPtr = None;
        self.m_parsingStatus.parsing = XML_Parsing::XML_INITIALIZED;
        self.m_isParamEntity = false;
        self.m_useForeignDTD = false;
        self.m_paramEntityParsing = XML_ParamEntityParsing::XML_PARAM_ENTITY_PARSING_NEVER;
        self.m_hash_secret_salt = 0;
        self.m_accounting = accounting::new(accountingDebug);
        self.m_entity_stats = entity_stats::new(entityDebug);
        self.m_namespaces = NsScope::new(self.m_ns, self.m_namespaceSeparator, 0);
        self.m_generalEntities = HASH_TABLE::hashTableInit(0);
        true
    }

    /// The salt of the name hashes, which belongs to the root parser: a
    /// parser of an external entity holds the root's salt, copied when it
    /// was made (`child_parser`).
    #[allow(non_snake_case)]
    pub fn get_hash_secret_salt(&self) -> (r: u64)
        ensures
            r == self.m_hash_secret_salt,
    {
        self.m_hash_secret_salt
    }
}

/// A finished parse stays finished: every call that gives input, stops or
/// resumes is refused with `XML_ERROR_FINISHED` (resuming with
/// `XML_ERROR_NOT_SUSPENDED`), and a refusal leaves the status as it was.
pub proof fn lemma_finished_is_final(o: XML_ParserStruct, len: int, resumable: bool)
    requires
        o.m_parsingStatus.parsing == XML_Parsing::XML_FINISHED,
        0 <= len,
    ensures
        get_buffer_refusal(o, len) == Some(XmlError::XML_ERROR_FINISHED),
        parse_buffer_refusal(o, len) == Some(XmlError::XML_ERROR_FINISHED),
        parse_refusal(o, len) == Some(XmlError::XML_ERROR_FINISHED),
        stop_outcome(o.m_parsingStatus.parsing, resumable, o.m_isParamEntity) == Err::<XML_Parsing, XmlError>(
            XmlError::XML_ERROR_FINISHED,
        ),
        o.m_parsingStatus.parsing != XML_Parsing::XML_SUSPENDED,
        !busy(o.m_parsingStatus.parsing),
{
}

/// A suspended parse takes no input: giving input is refused with
/// `XML_ERROR_SUSPENDED`, and so is a second resumable stop; stopping for
/// good finishes it.
pub proof fn lemma_suspended_takes_no_input(o: XML_ParserStruct, len: int)
    requires
        o.m_parsingStatus.parsing == XML_Parsing::XML_SUSPENDED,
        0 <= len,
    ensures
        get_buffer_refusal(o, len) == Some(XmlError::XML_ERROR_SUSPENDED),
        parse_buffer_refusal(o, len) == Some(XmlError::XML_ERROR_SUSPENDED),
        parse_refusal(o, len) == Some(XmlError::XML_ERROR_SUSPENDED),
        stop_outcome(o.m_parsingStatus.parsing, true, o.m_isParamEntity) == Err::<XML_Parsing, XmlError>(
            XmlError::XML_ERROR_SUSPENDED,
        ),
        stop_outcome(o.m_parsingStatus.parsing, false, o.m_isParamEntity) == Ok::<XML_Parsing, XmlError>(
            XML_Parsing::XML_FINISHED,
        ),
        busy(o.m_parsingStatus.parsing),
{
}

/// A running parse that is not in a parameter entity can be suspended, and
/// a call that then returns reports the suspension and keeps it, so that
/// `XML_ResumeParser` can go on.
pub proof fn lemma_suspend_reported(o: XML_ParserStruct)
    requires
        o.m_parsingStatus.parsing == XML_Parsing::XML_PARSING,
        !o.m_isParamEntity,
    ensures
        stop_outcome(o.m_parsingStatus.parsing, true, o.m_isParamEntity) == Ok::<XML_Parsing, XmlError>(
            XML_Parsing::XML_SUSPENDED,
        ),
        ({
            let s = XML_ParserStruct {
                m_parsingStatus: XML_ParsingStatus { parsing: XML_Parsing::XML_SUSPENDED, ..o.m_parsingStatus },
                ..o
            };
            finish_outcome(s, XmlError::XML_ERROR_NONE).0 == XmlStatus::XML_STATUS_SUSPENDED
                && finish_outcome(s, XmlError::XML_ERROR_NONE).1.m_parsingStatus.parsing
                == XML_Parsing::XML_SUSPENDED
        }),
{
}

/// A parse that is given the end of the document and whose processor
/// returns without error finishes; one whose processor fails reports the
/// failure and repeats it.
pub proof fn lemma_final_buffer_finishes(o: XML_ParserStruct, ret: XmlError)
    requires
        o.m_parsingStatus.parsing == XML_Parsing::XML_PARSING,
        o.m_parsingStatus.finalBuffer,
    ensures
        ret == XmlError::XML_ERROR_NONE ==> finish_outcome(o, ret).0 == XmlStatus::XML_STATUS_OK
            && finish_outcome(o, ret).1.m_parsingStatus.parsing == XML_Parsing::XML_FINISHED,
        ret != XmlError::XML_ERROR_NONE ==> finish_outcome(o, ret).0 == XmlStatus::XML_STATUS_ERROR
            && finish_outcome(o, ret).1.m_errorCode == ret && finish_outcome(o, ret).1.m_errorProcessor,
{
}

/// Errors stick: once a running parse reported the error `e`, a later
/// `XML_Parse` with valid arguments either runs out of memory or takes its
/// input with the error processor in place, which repeats `e`; the call
/// then reports `e` again, and, when it gives the last input or reparse
/// deferral is off, it is not deferred. An invalid length is refused with
/// `XML_ERROR_INVALID_ARGUMENT`.
pub proof fn lemma_errors_stick(
    o: XML_ParserStruct,
    e: XmlError,
    g: XML_ParserStruct,
    s: Seq<u8>,
    len: int,
    isFinal: bool,
    generatedSalt: u64,
    r: Result<(usize, usize), XmlError>,
)
    requires
        o.m_parsingStatus.parsing == XML_Parsing::XML_PARSING,
        e != XmlError::XML_ERROR_NONE,
        parse_call(finish_outcome(o, e).1, g, s, len, isFinal, generatedSalt, r),
    ensures
        finish_outcome(o, e).0 == XmlStatus::XML_STATUS_ERROR,
        len < 0 ==> r == Err::<(usize, usize), XmlError>(XmlError::XML_ERROR_INVALID_ARGUMENT),
        len >= 0 ==> r == Err::<(usize, usize), XmlError>(XmlError::XML_ERROR_NO_MEMORY) || ({
            &&& r is Ok
            &&& g.m_errorProcessor
            &&& g.m_errorCode == e
            &&& finish_outcome(g, e) == (XmlStatus::XML_STATUS_ERROR, XML_ParserStruct { m_eventEndPtr: g.m_eventPtr, ..g })
            &&& (isFinal || !g.m_reparseDeferralEnabled) ==> (r matches Ok((start, end)) && !deferral_applies(
                g,
                start as int,
                end as int,
            ))
        }),
{
    reveal(feed_outcome);
}

} // verus!
