//! The names that a namespace-aware parser reports: an element or attribute
//! name with a prefix becomes the namespace name it is bound to, the
//! separator and the local part (and, when asked for, the separator and the
//! prefix again); two attributes of a tag may not expand to the same name.
use vstd::prelude::*;
use crate::errors::XmlError;
use crate::hashtable::keyeq;
use crate::namespaces::{binding_of, NsScope, EXPAND_SPARE};

verus! {

/// The expanded name of `local` in the namespace whose stored name (the
/// namespace name followed by the separator) is `stored`; with `triplet`,
/// the separator and the prefix `prefix` follow.
pub open spec fn expanded_name(stored: Seq<u8>, local: Seq<u8>, triplet: Option<Seq<u8>>, sep: u8) -> Seq<u8> {
    match triplet {
        Some(p) => stored + local + seq![sep] + p,
        None => stored + local,
    }
}

/// The part of `name` after its first colon (all of it when there is none).
pub open spec fn local_part(name: Seq<u8>) -> Seq<u8> {
    if exists|i: int| 0 <= i < name.len() && name[i] == 0x3a {
        name.skip(
            (choose|i: int| 0 <= i < name.len() && name[i] == 0x3a && forall|k: int| 0 <= k < i ==> name[k] != 0x3a)
                + 1,
        )
    } else {
        name
    }
}

/// Whether the bytes of an expanded name (with its terminator) pass what an
/// `int` can count with room to spare.
pub open spec fn too_long(n: int) -> bool {
    n > 0x7fff_ffff - EXPAND_SPARE
}

fn find_local(name: &[u8]) -> (r: usize)
    ensures
        r <= name.len(),
        name@.skip(r as int) == local_part(name@),
{
    let mut i: usize = 0;
    while i < name.len()
        invariant
            i <= name.len(),
            forall|k: int| 0 <= k < i ==> name@[k] != 0x3a,
        decreases name.len() - i,
    {
        if name[i] == 0x3a {
            proof {
                let j = choose|j: int| 0 <= j < name@.len() && name@[j] == 0x3a && forall|k: int| 0 <= k < j ==> name@[k] != 0x3a;
                if j < i {
                    assert(name@[j] != 0x3a);
                } else if i < j {
                    assert(name@[i as int] != 0x3a);
                }
            }
            return i + 1;
        }
        i = i + 1;
    }
    assert(name@.skip(0) =~= name@);
    0
}

fn copy_from(s: &[u8], start: usize) -> (r: Vec<u8>)
    requires
        start <= s.len(),
    ensures
        r@ == s@.skip(start as int),
{
    let mut r: Vec<u8> = Vec::new();
    let mut i: usize = start;
    while i < s.len()
        invariant
            start <= i <= s.len(),
            r@ == s@.subrange(start as int, i as int),
        decreases s.len() - i,
    {
        r.push(s[i]);
        i = i + 1;
    }
    assert(r@ =~= s@.skip(start as int));
    r
}

fn concat(a: &[u8], b: &[u8]) -> (r: Vec<u8>)
    ensures
        r@ == a@ + b@,
{
    let mut r: Vec<u8> = Vec::new();
    let mut i: usize = 0;
    while i < a.len()
        invariant
            i <= a.len(),
            r@ == a@.take(i as int),
        decreases a.len() - i,
    {
        r.push(a[i]);
        i = i + 1;
        assert(r@ =~= a@.take(i as int));
    }
    let mut j: usize = 0;
    while j < b.len()
        invariant
            j <= b.len(),
            i == a.len(),
            r@ == a@ + b@.take(j as int),
        decreases b.len() - j,
    {
        r.push(b[j]);
        j = j + 1;
        assert(r@ =~= a@ + b@.take(j as int));
    }
    assert(a@.take(a@.len() as int) =~= a@);
    assert(b@.take(b@.len() as int) =~= b@);
    r
}

/// Build an expanded name.
fn build_expanded(stored: &[u8], local: &[u8], triplet: Option<&[u8]>, sep: u8) -> (r: Vec<u8>)
    ensures
        r@ == expanded_name(
            stored@,
            local@,
            match triplet {
                Some(p) => Some(p@),
                None => None,
            },
            sep,
        ),
{
    let mut r = concat(stored, local);
    match triplet {
        Some(p) => {
            let mut tail: Vec<u8> = Vec::new();
            tail.push(sep);
            let t = concat(tail.as_slice(), p);
            let ghost before = r@;
            let all = concat(r.as_slice(), t.as_slice());
            assert(all@ =~= before + seq![sep] + p@);
            all
        },
        None => r,
    }
}

/// The length, with its terminator, of the expanded name of `local` in the
/// namespace stored as `stored`, with the prefix `p` in a triplet.
pub open spec fn expanded_size(stored: Seq<u8>, local: Seq<u8>, triplet: Option<Seq<u8>>) -> int {
    let t: int = match triplet {
        Some(p) => p.len() + 1int,
        None => 0,
    };
    stored.len() + local.len() + 1int + t
}

/// The name reported for an element named `name` whose element type has
/// the prefix `elementPrefix`, with the bindings of `ns`: with a prefix, its
/// namespace name, the separator and the local part (and the prefix, in
/// triplets); without one, in the default namespace when one is bound;
/// `None` when the name is reported as it is.
pub open spec fn tag_name_outcome(ns: NsScope, elementPrefix: Option<usize>, name: Seq<u8>, triplets: bool) -> Result<
    Option<Seq<u8>>,
    XmlError,
> {
    match elementPrefix {
        Some(p) => match binding_of(ns@, Some(p)) {
            None => Err(XmlError::XML_ERROR_UNBOUND_PREFIX),
            Some(u) => {
                let t = if triplets {
                    Some(ns.prefix_names()[p as int])
                } else {
                    None
                };
                if too_long(expanded_size(u, local_part(name), t)) {
                    Err(XmlError::XML_ERROR_NO_MEMORY)
                } else {
                    Ok(Some(expanded_name(u, local_part(name), t, ns.sep())))
                }
            },
        },
        None => match binding_of(ns@, None) {
            None => Ok(None),
            Some(u) => if too_long(expanded_size(u, name, None)) {
                Err(XmlError::XML_ERROR_NO_MEMORY)
            } else {
                Ok(Some(expanded_name(u, name, None, ns.sep())))
            },
        },
    }
}

/// The name reported for an element named `name` whose element type has
/// the prefix `elementPrefix`: with a prefix, its namespace name, the
/// separator and the local part (and the prefix, in triplets); without one,
/// in the default namespace when one is bound; `None` when the name is
/// reported as it is. `XML_ERROR_UNBOUND_PREFIX` when the prefix is not
/// bound; `XML_ERROR_NO_MEMORY` when the name is too long.
#[allow(non_snake_case)]
pub fn expandTagName(ns: &NsScope, elementPrefix: Option<usize>, name: &[u8], triplets: bool) -> (r: Result<
    Option<Vec<u8>>,
    XmlError,
>)
    requires
        ns.wf(),
        elementPrefix matches Some(p) ==> p < ns.prefix_names().len(),
    ensures
        match tag_name_outcome(*ns, elementPrefix, name@, triplets) {
            Err(e) => r == Err::<Option<Vec<u8>>, XmlError>(e),
            Ok(None) => r matches Ok(None),
            Ok(Some(n)) => r matches Ok(Some(e)) && e@ == n,
        },
{
    match elementPrefix {
        Some(p) => {
            let u = match ns.binding(Some(p)) {
                None => {
                    return Err(XmlError::XML_ERROR_UNBOUND_PREFIX);
                },
                Some(u) => u,
            };
            let start = find_local(name);
            let local_v = copy_from(name, start);
            let local = local_v.as_slice();
            let pname = ns.name_of_prefix(p);
            if u.len() > 0x7fff_ffff || local.len() > 0x7fff_ffff || (triplets && pname.len() > 0x7fff_ffff) {
                return Err(XmlError::XML_ERROR_NO_MEMORY);
            }
            let extra: u64 = if triplets { pname.len() as u64 + 1 } else { 0 };
            if u.len() as u64 + local.len() as u64 + 1 + extra > (0x7fff_ffff - EXPAND_SPARE) as u64 {
                return Err(XmlError::XML_ERROR_NO_MEMORY);
            }
            let t = if triplets { Some(pname) } else { None };
            Ok(Some(build_expanded(u, local, t, ns.separator())))
        },
        None => {
            match ns.binding(None) {
                None => Ok(None),
                Some(u) => {
                    if u.len() > 0x7fff_ffff || name.len() > 0x7fff_ffff || u.len() as u64 + name.len() as u64 + 1
                        > (0x7fff_ffff - EXPAND_SPARE) as u64 {
                        return Err(XmlError::XML_ERROR_NO_MEMORY);
                    }
                    Ok(Some(build_expanded(u, name, None, ns.separator())))
                },
            }
        },
    }
}

/// An attribute with a prefix (one that declares no namespace): its name
/// and the index of its prefix.
pub struct PrefixedAtt {
    pub name: Vec<u8>,
    pub prefix: usize,
}

/// The prefixed attributes as names and prefix indices.
pub open spec fn prefixed_view(atts: Seq<PrefixedAtt>) -> Seq<(Seq<u8>, usize)> {
    atts.map_values(|a: PrefixedAtt| (a.name@, a.prefix))
}

/// The expanded names of the first `n` prefixed attributes `atts`, each
/// stored in the namespace bound to its prefix; `None` if one of them has
/// no binding.
pub open spec fn expanded_atts(atts: Seq<(Seq<u8>, usize)>, ns: NsScope, triplets: bool, n: int) -> Option<Seq<Seq<u8>>>
    decreases n,
{
    if n <= 0 {
        Some(Seq::empty())
    } else {
        match expanded_atts(atts, ns, triplets, n - 1) {
            None => None,
            Some(before) => match binding_of(ns@, Some(atts[n - 1].1)) {
                None => None,
                Some(u) => Some(
                    before.push(
                        expanded_name(
                            u,
                            local_part(atts[n - 1].0),
                            if triplets { Some(ns.prefix_names()[atts[n - 1].1 as int]) } else { None },
                            ns.sep(),
                        ),
                    ),
                ),
            },
        }
    }
}

/// Whether the `k`-th of `names` repeats one before it.
pub open spec fn repeats_before(names: Seq<Seq<u8>>, k: int) -> bool {
    exists|j: int| 0 <= j < k && #[trigger] names[j] == names[k]
}

/// The first error in the expansion of the attribute names: at the first
/// attribute whose prefix is unbound or whose expanded name repeats an
/// earlier one.
pub open spec fn expansion_error(atts: Seq<(Seq<u8>, usize)>, ns: NsScope, triplets: bool, n: int) -> Option<XmlError>
    decreases n,
{
    if n <= 0 {
        None
    } else {
        match expansion_error(atts, ns, triplets, n - 1) {
            Some(e) => Some(e),
            None => match expanded_atts(atts, ns, triplets, n) {
                None => Some(XmlError::XML_ERROR_UNBOUND_PREFIX),
                Some(names) => if too_long(names.last().len() + 1int) {
                    Some(XmlError::XML_ERROR_NO_MEMORY)
                } else if repeats_before(names, n - 1) {
                    Some(XmlError::XML_ERROR_DUPLICATE_ATTRIBUTE)
                } else {
                    None
                },
            },
        }
    }
}

/// Expand the names of the prefixed attributes of a tag, in order:
/// `XML_ERROR_UNBOUND_PREFIX` at the first one whose prefix is not bound,
/// `XML_ERROR_DUPLICATE_ATTRIBUTE` at the first one that expands to the
/// name of one before it.
#[allow(non_snake_case)]
pub fn expandAttributeNames(atts: &Vec<PrefixedAtt>, ns: &NsScope, triplets: bool) -> (r: Result<Vec<Vec<u8>>, XmlError>)
    requires
        ns.wf(),
        forall|k: int| 0 <= k < atts.len() ==> #[trigger] atts@[k].prefix < ns.prefix_names().len(),
    ensures
        match expansion_error(prefixed_view(atts@), *ns, triplets, atts.len() as int) {
            Some(e) => r == Err::<Vec<Vec<u8>>, XmlError>(e),
            None => r matches Ok(v) && expanded_atts(prefixed_view(atts@), *ns, triplets, atts.len() as int) == Some(
                v@.map_values(|x: Vec<u8>| x@),
            ),
        },
{
    let mut out: Vec<Vec<u8>> = Vec::new();
    let mut i: usize = 0;
    assert(out@.map_values(|x: Vec<u8>| x@) =~= Seq::<Seq<u8>>::empty());
    while i < atts.len()
        invariant
            ns.wf(),
            forall|k: int| 0 <= k < atts.len() ==> #[trigger] atts@[k].prefix < ns.prefix_names().len(),
            i <= atts.len(),
            expansion_error(prefixed_view(atts@), *ns, triplets, i as int) is None,
            expanded_atts(prefixed_view(atts@), *ns, triplets, i as int) == Some(out@.map_values(|x: Vec<u8>| x@)),
        decreases atts.len() - i,
    {
        let a = &atts[i];
        let u = match ns.binding(Some(a.prefix)) {
            None => {
                proof {
                    lemma_error_stays(prefixed_view(atts@), *ns, triplets, i as int + 1, atts.len() as int);
                }
                return Err(XmlError::XML_ERROR_UNBOUND_PREFIX);
            },
            Some(u) => u,
        };
        let start = find_local(a.name.as_slice());
        let local_v = copy_from(a.name.as_slice(), start);
        let local = local_v.as_slice();
        let pname = ns.name_of_prefix(a.prefix);
        proof {
            lemma_expanded_len(prefixed_view(atts@), *ns, triplets, i as int);
        }
        let too_big: bool = if u.len() > 0x7fff_ffff || local.len() > 0x7fff_ffff || (triplets && pname.len()
            > 0x7fff_ffff) {
            true
        } else {
            let extra: u64 = if triplets { pname.len() as u64 + 1 } else { 0 };
            u.len() as u64 + local.len() as u64 + 1 + extra > (0x7fff_ffff - EXPAND_SPARE) as u64
        };
        if too_big {
            proof {
                let t = if triplets { Some(ns.prefix_names()[a.prefix as int]) } else { None::<Seq<u8>> };
                let e = expanded_name(u@, local_part(a.name@), t, ns.sep());
                let names = expanded_atts(prefixed_view(atts@), *ns, triplets, i as int + 1).unwrap();
                assert(names.last() == e);
                let extra: int = if triplets { pname@.len() + 1int } else { 0int };
                assert(e.len() + 1 == u@.len() + local@.len() + 1 + extra);
                assert(too_long(e.len() + 1int));
                lemma_error_stays(prefixed_view(atts@), *ns, triplets, i as int + 1, atts.len() as int);
            }
            return Err(XmlError::XML_ERROR_NO_MEMORY);
        }
        let t = if triplets { Some(pname) } else { None };
        let e = build_expanded(u, local, t, ns.separator());
        proof {
            let extra: int = if triplets { pname@.len() + 1int } else { 0int };
            assert(e@.len() + 1 == u@.len() + local@.len() + 1 + extra);
            assert(!too_long(e@.len() + 1int));
        }
        let mut j: usize = 0;
        let ghost names = out@.map_values(|x: Vec<u8>| x@).push(e@);
        proof {
            let t = if triplets { Some(ns.prefix_names()[a.prefix as int]) } else { None::<Seq<u8>> };
            assert(expanded_atts(prefixed_view(atts@), *ns, triplets, i as int + 1) == Some(names));
        }
        while j < out.len()
            invariant
                j <= out.len() == i,
                names == out@.map_values(|x: Vec<u8>| x@).push(e@),
                !too_long(e@.len() + 1int),
                expanded_atts(prefixed_view(atts@), *ns, triplets, i as int + 1) == Some(names),
                expansion_error(prefixed_view(atts@), *ns, triplets, i as int) is None,
                i < atts.len(),
                forall|k: int| 0 <= k < j ==> out@[k]@ != e@,
            decreases out.len() - j,
        {
            if keyeq(out[j].as_slice(), e.as_slice()) {
                proof {
                    assert(names[j as int] == names[i as int]);
                    assert(repeats_before(names, i as int));
                    lemma_error_stays(prefixed_view(atts@), *ns, triplets, i as int + 1, atts.len() as int);
                }
                return Err(XmlError::XML_ERROR_DUPLICATE_ATTRIBUTE);
            }
            j = j + 1;
        }
        proof {
            assert(!repeats_before(names, i as int)) by {
                if repeats_before(names, i as int) {
                    let j = choose|j: int| 0 <= j < i && #[trigger] names[j] == names[i as int];
                    assert(out@[j]@ == e@);
                }
            }
        }
        out.push(e);
        proof {
            assert(out@.map_values(|x: Vec<u8>| x@) =~= names);
        }
        i = i + 1;
    }
    Ok(out)
}

/// The expansion of `n` names has `n` names.
pub proof fn lemma_expanded_len(atts: Seq<(Seq<u8>, usize)>, ns: NsScope, triplets: bool, n: int)
    requires
        0 <= n,
    ensures
        expanded_atts(atts, ns, triplets, n) matches Some(v) ==> v.len() == n,
    decreases n,
{
    if n > 0 {
        lemma_expanded_len(atts, ns, triplets, n - 1);
    }
}

/// Once the expansion found an error it keeps it.
proof fn lemma_error_stays(atts: Seq<(Seq<u8>, usize)>, ns: NsScope, triplets: bool, m: int, n: int)
    requires
        0 <= m <= n,
        expansion_error(atts, ns, triplets, m) is Some,
    ensures
        expansion_error(atts, ns, triplets, n) == expansion_error(atts, ns, triplets, m),
    decreases n - m,
{
    if m < n {
        lemma_error_stays(atts, ns, triplets, m, n - 1);
    }
}

} // verus!
