//! Namespace bindings: which namespace name each prefix stands for.
//!
//! Every binding made by a start tag (or inherited from a parent parser) is
//! pushed on a stack; the binding of a prefix is the latest one for it, and
//! an end tag pops the bindings its start tag made, which brings back the
//! bindings that were in force before. Prefixes are records of a hash table;
//! the default namespace has no prefix.
use vstd::prelude::*;
use crate::errors::XmlError;
use crate::hashtable::{HASH_TABLE, keyeq};
use crate::text::{is_rfc3986_uri_char, spec_is_rfc3986_uri_char};

verus! {

/// The start of a namespace declaration as reported to the application:
/// the prefix's name (`None`: the default namespace) and the namespace name
/// (`None`: the default namespace is undeclared).
pub struct NamespaceDeclEvent {
    pub prefix: Option<Vec<u8>>,
    pub uri: Option<Vec<u8>>,
}

/// `http://www.w3.org/XML/1998/namespace`
pub const XML_NAMESPACE: [u8; 36] = [
    0x68, 0x74, 0x74, 0x70, 0x3a, 0x2f, 0x2f, 0x77, 0x77, 0x77, 0x2e, 0x77, 0x33, 0x2e, 0x6f, 0x72,
    0x67, 0x2f, 0x58, 0x4d, 0x4c, 0x2f, 0x31, 0x39, 0x39, 0x38, 0x2f, 0x6e, 0x61, 0x6d, 0x65, 0x73,
    0x70, 0x61, 0x63, 0x65,
];

/// `http://www.w3.org/2000/xmlns/`
pub const XMLNS_NAMESPACE: [u8; 29] = [
    0x68, 0x74, 0x74, 0x70, 0x3a, 0x2f, 0x2f, 0x77, 0x77, 0x77, 0x2e, 0x77, 0x33, 0x2e, 0x6f, 0x72,
    0x67, 0x2f, 0x32, 0x30, 0x30, 0x30, 0x2f, 0x78, 0x6d, 0x6c, 0x6e, 0x73, 0x2f,
];

/// The reserved prefix `xml`.
pub const XML_PREFIX: [u8; 3] = [0x78, 0x6d, 0x6c];

/// The reserved prefix `xmlns`.
pub const XMLNS_PREFIX: [u8; 5] = [0x78, 0x6d, 0x6c, 0x6e, 0x73];

/// Room kept spare when a binding's namespace name is stored.
pub const EXPAND_SPARE: i32 = 24;

/// The error of binding `prefix` (`None`: the default namespace) to the
/// namespace name `uri`, if the binding is not allowed.
pub open spec fn binding_error(prefix: Option<Seq<u8>>, uri: Seq<u8>, ns: bool, sep: u8) -> Option<
    XmlError,
> {
    let must_be_xml = prefix == Some(XML_PREFIX@);
    let is_xml = uri == XML_NAMESPACE@;
    if uri.len() == 0 && prefix is Some {
        Some(XmlError::XML_ERROR_UNDECLARING_PREFIX)
    } else if prefix == Some(XMLNS_PREFIX@) {
        Some(XmlError::XML_ERROR_RESERVED_PREFIX_XMLNS)
    } else if ns && uri.contains(sep) && !spec_is_rfc3986_uri_char(sep) {
        Some(XmlError::XML_ERROR_SYNTAX)
    } else if must_be_xml && !is_xml {
        Some(XmlError::XML_ERROR_RESERVED_PREFIX_XML)
    } else if !must_be_xml && is_xml {
        Some(XmlError::XML_ERROR_RESERVED_NAMESPACE_URI)
    } else if uri == XMLNS_NAMESPACE@ {
        Some(XmlError::XML_ERROR_RESERVED_NAMESPACE_URI)
    } else if uri.len() + (if sep != 0 {
        1int
    } else {
        0int
    }) > i32::MAX - EXPAND_SPARE {
        Some(XmlError::XML_ERROR_NO_MEMORY)
    } else {
        None
    }
}

/// The namespace name as stored: followed by the separator when there is one.
pub open spec fn stored_uri(uri: Seq<u8>, sep: u8) -> Seq<u8> {
    if sep != 0 {
        uri.push(sep)
    } else {
        uri
    }
}

/// A stored namespace name: not empty, and, with a separator, ending in
/// it after at least one byte.
pub open spec fn well_stored(u: Seq<u8>, sep: u8) -> bool {
    &&& u.len() > 0
    &&& sep != 0 ==> u.len() >= 2 && u.last() == sep
}

/// A namespace name as given, from its stored form.
pub open spec fn given_uri(stored: Seq<u8>, sep: u8) -> Seq<u8> {
    if sep != 0 && stored.len() > 0 {
        stored.drop_last()
    } else {
        stored
    }
}

/// The bytes of an optional string.
pub open spec fn opt_seq(v: Option<Vec<u8>>) -> Option<Seq<u8>> {
    match v {
        Some(b) => Some(b@),
        None => None,
    }
}

/// The binding of `prefix` on a stack of bindings: the latest one for it,
/// `None` when there is none or the latest one undeclares it.
pub open spec fn binding_of(stack: Seq<(Option<usize>, Option<Seq<u8>>)>, prefix: Option<usize>) -> Option<
    Seq<u8>,
>
    decreases stack.len(),
{
    if stack.len() == 0 {
        None
    } else if stack.last().0 == prefix {
        stack.last().1
    } else {
        binding_of(stack.drop_last(), prefix)
    }
}

/// A binding on the stack: the prefix (an index into the prefix table, or
/// `None` for the default namespace) and the stored namespace name; `bound`
/// is false when the binding undeclares the default namespace.
#[allow(non_camel_case_types)]
pub struct BINDING {
    pub prefix: Option<usize>,
    pub uri: Vec<u8>,
    pub bound: bool,
}

/// The namespace bindings of a parser.
pub struct NsScope {
    prefixes: HASH_TABLE<()>,
    stack: Vec<BINDING>,
    ns: bool,
    sep: u8,
}

impl NsScope {
    /// The stack of bindings: prefix and bound name (`None` when unbound).
    pub closed spec fn view(&self) -> Seq<(Option<usize>, Option<Seq<u8>>)> {
        Seq::new(
            self.stack.len() as nat,
            |i: int|
                (
                    self.stack@[i].prefix,
                    if self.stack@[i].bound {
                        Some(self.stack@[i].uri@)
                    } else {
                        None
                    },
                ),
        )
    }

    /// The names of the known prefixes, by index.
    pub closed spec fn prefix_names(&self) -> Seq<Seq<u8>> {
        self.prefixes@.map_values(|p: (Seq<u8>, ())| p.0)
    }

    /// Whether namespace processing is on.
    pub closed spec fn ns(&self) -> bool {
        self.ns
    }

    /// The namespace separator (0: none).
    pub closed spec fn sep(&self) -> u8 {
        self.sep
    }

    /// The prefix table.
    pub closed spec fn prefix_table(&self) -> HASH_TABLE<()> {
        self.prefixes
    }

    /// The name of a prefix, `None` for the default namespace.
    pub open spec fn prefix_name(&self, prefix: Option<usize>) -> Option<Seq<u8>> {
        match prefix {
            Some(i) => Some(self.prefix_names()[i as int]),
            None => None,
        }
    }

    pub closed spec fn wf(&self) -> bool {
        &&& self.prefixes.wf()
        &&& forall|i: int|
            0 <= i < self.stack.len() ==> match (#[trigger] self.stack@[i]).prefix {
                Some(p) => p < self.prefixes@.len(),
                None => true,
            }
        &&& forall|i: int|
            0 <= i < self.stack.len() && (#[trigger] self.stack@[i]).bound ==> well_stored(
                self.stack@[i].uri@,
                self.sep,
            )
    }

    /// Every bound namespace name on the stack is stored as `addBinding`
    /// stores a name that is not empty.
    pub proof fn lemma_bound_well_stored(&self)
        requires
            self.wf(),
        ensures
            forall|k: int|
                0 <= k < self@.len() ==> ((#[trigger] self@[k]).1 matches Some(u) ==> well_stored(u, self.sep())),
    {
        assert forall|k: int| 0 <= k < self@.len() implies ((#[trigger] self@[k]).1 matches Some(u) ==> well_stored(
            u,
            self.sep(),
        )) by {
            if self.stack@[k].bound {
                assert(self@[k].1 == Some(self.stack@[k].uri@));
            }
        }
    }

    /// The prefix names are those of the prefix table's records.
    pub proof fn lemma_prefix_count(&self)
        ensures
            self.prefix_names().len() == self.prefix_table()@.len(),
            self.wf() ==> self.prefix_table().wf(),
            forall|i: int| 0 <= i < self.prefix_names().len() ==> #[trigger] self.prefix_names()[i] == self.prefix_table()@[i].0,
    {
    }

    /// Every binding on the stack names a known prefix.
    pub proof fn lemma_prefixes_known(&self)
        requires
            self.wf(),
        ensures
            forall|k: int|
                0 <= k < self@.len() ==> match (#[trigger] self@[k]).0 {
                    Some(p) => p < self.prefix_names().len(),
                    None => true,
                },
    {
        assert forall|k: int| 0 <= k < self@.len() implies match (#[trigger] self@[k]).0 {
            Some(p) => p < self.prefix_names().len(),
            None => true,
        } by {
            assert(self@[k].0 == self.stack@[k].prefix);
        }
    }

    /// No bindings yet; names are hashed under `salt`.
    pub fn new(ns: bool, sep: u8, salt: u64) -> (s: Self)
        ensures
            s.wf(),
            s@ == Seq::<(Option<usize>, Option<Seq<u8>>)>::empty(),
            s.prefix_names() == Seq::<Seq<u8>>::empty(),
            s.ns() == ns,
            s.sep() == sep,
    {
        let s = NsScope { prefixes: HASH_TABLE::hashTableInit(salt), stack: Vec::new(), ns, sep };
        assert(s@ =~= Seq::<(Option<usize>, Option<Seq<u8>>)>::empty());
        assert(s.prefix_names() =~= Seq::<Seq<u8>>::empty());
        s
    }

    /// The prefix table.
    pub fn prefixes(&self) -> (r: &HASH_TABLE<()>)
        requires
            self.wf(),
        ensures
            *r == self.prefix_table(),
            r.wf(),
            r@.len() == self.prefix_names().len(),
            forall|i: int| 0 <= i < r@.len() ==> #[trigger] r@[i].0 == self.prefix_names()[i],
    {
        &self.prefixes
    }

    /// Whether namespace processing is on.
    pub fn namespace_aware(&self) -> (r: bool)
        ensures
            r == self.ns(),
    {
        self.ns
    }

    /// The namespace separator (0: none).
    pub fn separator(&self) -> (r: u8)
        ensures
            r == self.sep(),
    {
        self.sep
    }

    /// The number of bindings on the stack; an end tag pops back to it.
    pub fn mark(&self) -> (n: usize)
        requires
            self.wf(),
        ensures
            n == self@.len(),
    {
        self.stack.len()
    }

    /// The index of the prefix named `name`, created when it is new; `None`
    /// when the prefix table cannot grow.
    pub fn prefix_id(&mut self, name: &[u8]) -> (r: Option<usize>)
        requires
            old(self).wf(),
        ensures
            final(self).wf(),
            final(self)@ == old(self)@,
            final(self).ns() == old(self).ns(),
            final(self).sep() == old(self).sep(),
            old(self).prefix_names().is_prefix_of(final(self).prefix_names()),
            r matches Some(i) ==> i < final(self).prefix_names().len() && final(self).prefix_names()[i as int]
                == name@,
            (exists|i: int| 0 <= i < old(self).prefix_names().len() && old(self).prefix_names()[i] == name@)
                ==> r is Some,
            r is None ==> final(self).prefix_table().growth_blocked(),
            old(self).prefix_table().growth_blocked() ==> final(self).prefix_table() == old(self).prefix_table(),
            match r {
                Some(i) => if i < old(self).prefix_names().len() {
                    final(self).prefix_names() == old(self).prefix_names()
                } else {
                    i == old(self).prefix_names().len() && final(self).prefix_names() == old(
                        self,
                    ).prefix_names().push(name@)
                },
                None => final(self).prefix_names() == old(self).prefix_names(),
            },
    {
        let ghost old_names = self.prefix_names();
        let r = self.prefixes.lookup_create(name, ());
        proof {
            match r {
                Some(i) => {
                    if i >= old_names.len() {
                        assert(self.prefix_names() =~= old_names.push(name@));
                    }
                },
                None => {},
            }
            assert(old_names.is_prefix_of(self.prefix_names()));
            if exists|i: int| 0 <= i < old_names.len() && old_names[i] == name@ {
                let i = choose|i: int| 0 <= i < old_names.len() && old_names[i] == name@;
                assert(old(self).prefixes@[i].0 == name@);
            }
        }
        r
    }

    /// The name of a known prefix.
    pub fn name_of_prefix(&self, prefix: usize) -> (r: &[u8])
        requires
            self.wf(),
            prefix < self.prefix_names().len(),
        ensures
            r@ == self.prefix_names()[prefix as int],
    {
        self.prefixes.name(prefix)
    }

    /// Check and push a binding of `prefix` to the namespace name `uri`.
    /// Binding the default namespace to the empty name undeclares it.
    pub fn addBinding(&mut self, prefix: Option<usize>, uri: &[u8]) -> (r: Result<(), XmlError>)
        requires
            old(self).wf(),
            prefix matches Some(p) ==> p < old(self).prefix_names().len(),
        ensures
            final(self).wf(),
            final(self).prefix_names() == old(self).prefix_names(),
            final(self).prefix_table() == old(self).prefix_table(),
            final(self).ns() == old(self).ns(),
            final(self).sep() == old(self).sep(),
            match binding_error(old(self).prefix_name(prefix), uri@, old(self).ns(), old(self).sep()) {
                Some(e) => r == Err::<(), XmlError>(e) && final(self)@ == old(self)@,
                None => r is Ok && final(self)@ == old(self)@.push(
                    (
                        prefix,
                        if uri@.len() == 0 {
                            None
                        } else {
                            Some(stored_uri(uri@, old(self).sep()))
                        },
                    ),
                ),
            },
    {
        let ghost pname = self.prefix_name(prefix);
        let mut must_be_xml = false;
        match prefix {
            Some(p) => {
                if uri.len() == 0 {
                    return Err(XmlError::XML_ERROR_UNDECLARING_PREFIX);
                }
                let name = self.prefixes.name(p);
                if keyeq(name, &XMLNS_PREFIX) {
                    return Err(XmlError::XML_ERROR_RESERVED_PREFIX_XMLNS);
                }
                if keyeq(name, &XML_PREFIX) {
                    must_be_xml = true;
                }
            },
            None => {},
        }
        if self.ns && !is_rfc3986_uri_char(self.sep) {
            let sep = self.sep;
            let mut i: usize = 0;
            #[verifier::loop_isolation(false)]
            while i < uri.len()
                invariant
                    i <= uri.len(),
                    forall|j: int| 0 <= j < i ==> uri@[j] != sep,
                decreases uri.len() - i,
            {
                if uri[i] == sep {
                    assert(uri@.contains(sep));
                    return Err(XmlError::XML_ERROR_SYNTAX);
                }
                i = i + 1;
            }
            assert(!uri@.contains(sep));
        }
        let is_xml = keyeq(uri, &XML_NAMESPACE);
        if must_be_xml != is_xml {
            if must_be_xml {
                return Err(XmlError::XML_ERROR_RESERVED_PREFIX_XML);
            } else {
                return Err(XmlError::XML_ERROR_RESERVED_NAMESPACE_URI);
            }
        }
        if keyeq(uri, &XMLNS_NAMESPACE) {
            return Err(XmlError::XML_ERROR_RESERVED_NAMESPACE_URI);
        }
        let len: usize = if self.sep != 0 {
            if uri.len() >= 0x7fff_ffff {
                return Err(XmlError::XML_ERROR_NO_MEMORY);
            }
            uri.len() + 1
        } else {
            uri.len()
        };
        if len > (i32::MAX - EXPAND_SPARE) as usize {
            return Err(XmlError::XML_ERROR_NO_MEMORY);
        }
        let mut stored = crate::hashtable::copy_string(uri);
        if self.sep != 0 {
            stored.push(self.sep);
        }
        let bound = uri.len() > 0;
        let ghost before = self@;
        self.stack.push(BINDING { prefix, uri: stored, bound });
        assert(self@ =~= before.push(
            (
                prefix,
                if uri@.len() == 0 {
                    None
                } else {
                    Some(stored_uri(uri@, self.sep))
                },
            ),
        ));
        Ok(())
    }

    /// Push a binding as `addBinding` does, and give the start of the
    /// namespace declaration to report: only for a binding that an
    /// attribute declared (`fromAttribute`) when the application takes such
    /// declarations (`hasHandler`). It names the prefix (`None`: the default
    /// namespace) and the namespace name, `None` where the binding
    /// undeclares the default namespace.
    #[allow(non_snake_case)]
    pub fn addBindingReported(
        &mut self,
        prefix: Option<usize>,
        uri: &[u8],
        fromAttribute: bool,
        hasHandler: bool,
    ) -> (r: Result<Option<NamespaceDeclEvent>, XmlError>)
        requires
            old(self).wf(),
            prefix matches Some(p) ==> p < old(self).prefix_names().len(),
        ensures
            final(self).wf(),
            final(self).prefix_names() == old(self).prefix_names(),
            final(self).prefix_table() == old(self).prefix_table(),
            final(self).ns() == old(self).ns(),
            final(self).sep() == old(self).sep(),
            match binding_error(old(self).prefix_name(prefix), uri@, old(self).ns(), old(self).sep()) {
                Some(e) => r == Err::<Option<NamespaceDeclEvent>, XmlError>(e) && final(self)@ == old(self)@,
                None => {
                    &&& final(self)@ == old(self)@.push(
                        (
                            prefix,
                            if uri@.len() == 0 {
                                None
                            } else {
                                Some(stored_uri(uri@, old(self).sep()))
                            },
                        ),
                    )
                    &&& match r {
                        Ok(Some(ev)) => {
                            &&& fromAttribute && hasHandler
                            &&& match ev.prefix {
                                Some(n) => old(self).prefix_name(prefix) == Some(n@),
                                None => prefix is None,
                            }
                            &&& match ev.uri {
                                Some(u) => uri@.len() > 0 && u@ == uri@,
                                None => uri@.len() == 0,
                            }
                        },
                        Ok(None) => !(fromAttribute && hasHandler),
                        Err(_) => false,
                    }
                },
            },
    {
        match self.addBinding(prefix, uri) {
            Err(e) => Err(e),
            Ok(()) => {
                if !(fromAttribute && hasHandler) {
                    return Ok(None);
                }
                let name = match prefix {
                    Some(p) => Some(crate::hashtable::copy_string(self.prefixes.name(p))),
                    None => None,
                };
                let u = if uri.len() == 0 {
                    None
                } else {
                    Some(crate::hashtable::copy_string(uri))
                };
                Ok(Some(NamespaceDeclEvent { prefix: name, uri: u }))
            },
        }
    }

    /// The starts of the namespace declarations to report for the bindings
    /// pushed since the stack held `mark` of them (those a start tag's
    /// attributes declared), in the order they were pushed: each names its
    /// prefix and the namespace name as given (`None` where it undeclares
    /// the default namespace).
    #[allow(non_snake_case)]
    pub fn startNamespaceDecls(&self, mark: usize) -> (r: Vec<NamespaceDeclEvent>)
        requires
            self.wf(),
            mark <= self@.len(),
        ensures
            r@.len() == self@.len() - mark,
            forall|k: int|
                0 <= k < r@.len() ==> {
                    let b = self@[mark + k];
                    &&& opt_seq((#[trigger] r@[k]).prefix) == self.prefix_name(b.0)
                    &&& opt_seq(r@[k].uri) == match b.1 {
                        Some(u) => Some(given_uri(u, self.sep())),
                        None => None,
                    }
                },
    {
        let mut r: Vec<NamespaceDeclEvent> = Vec::new();
        let mut i: usize = mark;
        while i < self.stack.len()
            invariant
                self.wf(),
                mark <= i <= self.stack.len(),
                r@.len() == i - mark,
                forall|k: int|
                    0 <= k < r@.len() ==> {
                        let b = self@[mark + k];
                        &&& opt_seq((#[trigger] r@[k]).prefix) == self.prefix_name(b.0)
                        &&& opt_seq(r@[k].uri) == match b.1 {
                            Some(u) => Some(given_uri(u, self.sep())),
                            None => None,
                        }
                    },
            decreases self.stack.len() - i,
        {
            let b = &self.stack[i];
            let prefix = match b.prefix {
                Some(p) => {
                    assert(self@[i as int].0 == Some(p));
                    Some(crate::hashtable::copy_string(self.prefixes.name(p)))
                },
                None => None,
            };
            let uri = if b.bound {
                let n = b.uri.len();
                let keep = if self.sep != 0 && n > 0 {
                    n - 1
                } else {
                    n
                };
                let mut v: Vec<u8> = Vec::new();
                let mut j: usize = 0;
                while j < keep
                    invariant
                        j <= keep <= b.uri.len(),
                        v@ == b.uri@.take(j as int),
                    decreases keep - j,
                {
                    v.push(b.uri[j]);
                    j = j + 1;
                    assert(v@ =~= b.uri@.take(j as int));
                }
                Some(v)
            } else {
                None
            };
            let ghost before = r@;
            r.push(NamespaceDeclEvent { prefix, uri });
            proof {
                let k = i - mark;
                assert(r@[k as int] == NamespaceDeclEvent { prefix, uri });
                assert forall|q: int| 0 <= q < k implies r@[q] == before[q] by {}
                if b.bound {
                    assert(b.uri@.take(b.uri@.len() - 1) =~= b.uri@.drop_last());
                    assert(b.uri@.take(b.uri@.len() as int) =~= b.uri@);
                }
            }
            i = i + 1;
        }
        r
    }

    /// Pop the bindings pushed since the stack held `mark` of them, and
    /// return their prefixes, the latest first.
    pub fn pop_bindings(&mut self, mark: usize) -> (popped: Vec<Option<usize>>)
        requires
            old(self).wf(),
            mark <= old(self)@.len(),
        ensures
            final(self).wf(),
            final(self)@ == old(self)@.take(mark as int),
            final(self).prefix_names() == old(self).prefix_names(),
            final(self).prefix_table() == old(self).prefix_table(),
            final(self).ns() == old(self).ns(),
            final(self).sep() == old(self).sep(),
            popped@.len() == old(self)@.len() - mark,
            forall|k: int|
                0 <= k < popped@.len() ==> #[trigger] popped@[k] == old(self)@[old(self)@.len() - 1 - k].0,
    {
        let mut popped: Vec<Option<usize>> = Vec::new();
        while self.stack.len() > mark
            invariant
                self.wf(),
                mark <= self.stack.len() <= old(self).stack.len(),
                self@ == old(self)@.take(self.stack.len() as int),
                self.prefixes == old(self).prefixes,
                self.ns == old(self).ns,
                self.sep == old(self).sep,
                popped@.len() == old(self)@.len() - self.stack.len(),
                forall|k: int|
                    0 <= k < popped@.len() ==> #[trigger] popped@[k] == old(self)@[old(self)@.len() - 1 - k].0,
            decreases self.stack.len(),
        {
            let ghost pre = self@;
            let b = self.stack.pop().unwrap();
            assert(pre[self.stack.len() as int].0 == b.prefix);
            assert(old(self)@[self.stack.len() as int].0 == b.prefix);
            popped.push(b.prefix);
            assert(self@ =~= old(self)@.take(self.stack.len() as int));
        }
        popped
    }

    /// The stored namespace name that `prefix` is bound to, if any.
    pub fn binding(&self, prefix: Option<usize>) -> (r: Option<&[u8]>)
        requires
            self.wf(),
        ensures
            match binding_of(self@, prefix) {
                Some(u) => r matches Some(s) && s@ == u,
                None => r is None,
            },
    {
        let mut k = self.stack.len();
        assert(self@.take(k as int) =~= self@);
        while k > 0
            invariant
                k <= self.stack.len(),
                binding_of(self@, prefix) == binding_of(self@.take(k as int), prefix),
            decreases k,
        {
            let ghost part = self@.take(k as int);
            k = k - 1;
            assert(part.drop_last() =~= self@.take(k as int));
            if self.stack[k].prefix == prefix {
                if self.stack[k].bound {
                    return Some(self.stack[k].uri.as_slice());
                } else {
                    return None;
                }
            }
        }
        assert(self@.take(0) =~= Seq::<(Option<usize>, Option<Seq<u8>>)>::empty());
        None
    }
}

/// A binding just pushed is the binding of its prefix.
pub proof fn lemma_binding_of_push(
    stack: Seq<(Option<usize>, Option<Seq<u8>>)>,
    prefix: Option<usize>,
    uri: Option<Seq<u8>>,
)
    ensures
        binding_of(stack.push((prefix, uri)), prefix) == uri,
{
    assert(stack.push((prefix, uri)).drop_last() =~= stack);
}

/// Pushing a binding leaves the other prefixes' bindings alone.
pub proof fn lemma_binding_of_push_other(
    stack: Seq<(Option<usize>, Option<Seq<u8>>)>,
    prefix: Option<usize>,
    uri: Option<Seq<u8>>,
    other: Option<usize>,
)
    requires
        other != prefix,
    ensures
        binding_of(stack.push((prefix, uri)), other) == binding_of(stack, other),
{
    assert(stack.push((prefix, uri)).drop_last() =~= stack);
}

/// The bindings in force after an end tag are those in force before its
/// start tag: popping back to a mark undoes every binding pushed since.
pub proof fn lemma_pop_restores(
    stack: Seq<(Option<usize>, Option<Seq<u8>>)>,
    pushed: Seq<(Option<usize>, Option<Seq<u8>>)>,
    prefix: Option<usize>,
)
    ensures
        binding_of((stack + pushed).take(stack.len() as int), prefix) == binding_of(stack, prefix),
{
    assert((stack + pushed).take(stack.len() as int) =~= stack);
}

/// A namespace name reported for a binding is the name that was bound.
pub proof fn lemma_given_uri(uri: Seq<u8>, sep: u8)
    ensures
        given_uri(stored_uri(uri, sep), sep) == uri,
{
    if sep != 0 {
        assert(uri.push(sep).drop_last() =~= uri);
    }
}
} // verus!
