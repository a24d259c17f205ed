# lib — a verified core of the Expat XML parser

The library in `src/` holds the logic of the parser that stands apart from
the byte-level tokenizer, each function with a contract proved by Verus:

- `siphash`, `probe`, `hashtable`, `pool`: the keyed hash of names, the
  open-addressing tables of named records, and the string pools.
- `namespaces`, `nsexpand`, `context`: namespace bindings and their scopes,
  expanded element and attribute names, and the context string handed to
  the parser of an external entity.
- `parser`, `accounting`, `errors`, `debug`, `text`: the parser object's
  buffer and parsing status, the amplification and allocation counters,
  error codes and messages, and small text utilities.
- `elements`, `opentags`, `prolog`: the decisions on each token of
  content, of the prolog and of the epilog, and the open elements with the
  bindings of each.
- `attvalue`, `attributes`, `storeatts`: attribute values, and the
  attributes of a start tag as they are reported.
- `dtd`, `attlist`, `eldecl`, `content`, `entities`, `notations`, `peref`,
  `openentities`, `entityvalue`, `xmldecl`, `dtdcopy`: element types,
  attribute-list declarations, content models, entity and notation
  declarations, parameter entity references and the external subset, the
  entities being expanded, entity values, XML and text declarations, and
  the copy of a DTD.

`app/` is a small program around it: it reads the environment's debug
levels, draws the random salt, checks the floating-point amplification
limits (of the bytes read and of the memory the allocation tracker counts),
and runs the library's parsing call with a reader of element markup
(tags, character data, comments and processing instructions; no DTD,
references or CDATA sections) that lets the library decide on each token
and prints the element events. `tests/` holds the
tests.
