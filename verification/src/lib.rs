//! A verified core of the Expat XML parser: the name hashing, hash tables,
//! string pools, namespace bindings and expanded names, parser context
//! strings, the parser object's buffer and parsing-status rules, the
//! decisions taken on each token of the prolog and the content, the namespace scope of each
//! open element, the attributes of a start tag as they are reported, the
//! DTD's element types, attribute lists, content models, entities and
//! notations, the external entities of the prolog, entity values and the
//! entities being expanded, XML and text declarations, the copy of a DTD
//! for the parser of an external entity, attribute values, and the smaller
//! tables and text utilities of the parser.
pub mod siphash;
pub mod probe;
pub mod hashtable;
pub mod pool;
pub mod errors;
pub mod text;
pub mod namespaces;
pub mod context;
pub mod accounting;
pub mod parser;
pub mod content;
pub mod attributes;
pub mod debug;
pub mod elements;
pub mod dtd;
pub mod eldecl;
pub mod nsexpand;
pub mod attvalue;
pub mod storeatts;
pub mod attlist;
pub mod entities;
pub mod notations;
pub mod dtdcopy;
pub mod peref;
pub mod opentags;
pub mod openentities;
pub mod xmldecl;
pub mod entityvalue;
pub mod prolog;
