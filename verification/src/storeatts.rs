//! The attributes of a start tag as they are reported: each value read and
//! normalised, the `xmlns` attributes turned into namespace bindings, the
//! defaults of the element type added, and the names with a prefix
//! expanded; an attribute given twice is an error.
use vstd::prelude::*;
use crate::attributes::{atts_size_for, attsSizeFor};
use crate::attvalue::{AttPiece, AttPieceV, attribute_value, pieces_view, storeAttributeValue};
use crate::dtd::{
    attribute_id, attribute_id_fits, find_first_colon_spec, getAttributeId, is_first_colon, prefixes_grown,
    setElementTypePrefix, PrefixRef, ELEMENT_TYPE,
};
use crate::hashtable::HASH_TABLE;
use crate::errors::XmlError;
use crate::hashtable::keyeq;
use crate::namespaces::{binding_error, stored_uri, NsScope};
use crate::nsexpand::{expandTagName, tag_name_outcome, expandAttributeNames, expanded_atts, expansion_error, lemma_expanded_len, prefixed_view, PrefixedAtt};

verus! {

/// An attribute as a start tag gives it: its name and the pieces of its
/// value.
pub struct StartAtt {
    pub name: Vec<u8>,
    pub value: Vec<AttPiece>,
}

/// A default attribute of an element type, with the name of the attribute
/// and what is known of it.
#[allow(non_snake_case)]
pub struct ResolvedDefault {
    pub name: Vec<u8>,
    pub id: attribute_id,
    pub value: Option<Vec<u8>>,
    pub isCdata: bool,
}

/// An attribute on its way to being reported: its name, its value, and the
/// prefix by which its name is to be expanded, if any.
pub struct OutAtt {
    pub name: Vec<u8>,
    pub value: Vec<u8>,
    pub prefix: Option<usize>,
}

/// The bindings on a stack: prefix and bound name.
pub type Stack = Seq<(Option<usize>, Option<Seq<u8>>)>;

/// An attribute on its way to being reported, as bytes.
pub type OutAttV = (Seq<u8>, Seq<u8>, Option<usize>);

/// A default attribute as bytes.
pub type DefaultV = (Seq<u8>, attribute_id, Option<Seq<u8>>, bool);

/// The attributes of a start tag as names and pieces.
pub open spec fn start_view(atts: Seq<StartAtt>) -> Seq<(Seq<u8>, Seq<AttPieceV>)> {
    atts.map_values(|a: StartAtt| (a.name@, pieces_view(a.value@)))
}

/// The defaults of an element type as bytes.
pub open spec fn defaults_view(defaults: Seq<ResolvedDefault>) -> Seq<DefaultV> {
    defaults.map_values(
        |d: ResolvedDefault|
            (
                d.name@,
                d.id,
                match d.value {
                    Some(v) => Some(v@),
                    None => None,
                },
                d.isCdata,
            ),
    )
}

/// The attributes to report as bytes.
pub open spec fn out_view(out: Seq<OutAtt>) -> Seq<OutAttV> {
    out.map_values(|a: OutAtt| (a.name@, a.value@, a.prefix))
}

/// The prefix that an attribute declares a namespace for: `Some(None)` for
/// the default namespace (`xmlns`), `Some(Some(p))` for `xmlns:p`.
pub open spec fn declared_prefix(id: attribute_id) -> Option<Option<usize>> {
    if !id.xmlns {
        None
    } else {
        match id.prefix {
            PrefixRef::NoPrefix => None,
            PrefixRef::Default => Some(None),
            PrefixRef::Named(p) => Some(Some(p)),
        }
    }
}

/// The prefix by which the name of an attribute is expanded, if any.
pub open spec fn expand_prefix(id: attribute_id) -> Option<usize> {
    match id.prefix {
        PrefixRef::Named(p) => if id.xmlns {
            None
        } else {
            Some(p)
        },
        _ => None,
    }
}

/// Whether the value of the attribute named `name` is read as CDATA: unless
/// the attribute may need tokenizing and the first default declared for it
/// says otherwise.
pub open spec fn cdata_from(defaults: Seq<DefaultV>, name: Seq<u8>, k: int) -> bool
    decreases defaults.len() - k,
{
    if k < 0 || k >= defaults.len() {
        true
    } else if defaults[k].0 == name {
        defaults[k].3
    } else {
        cdata_from(defaults, name, k + 1)
    }
}

/// Whether the value of the attribute named `name`, with the facts `id`, is
/// read as CDATA.
pub open spec fn value_is_cdata(defaults: Seq<DefaultV>, name: Seq<u8>, id: attribute_id) -> bool {
    if id.maybeTokenized {
        cdata_from(defaults, name, 0)
    } else {
        true
    }
}

/// The binding that declaring `prefix` with the value `v` pushes.
pub open spec fn pushed(prefix: Option<usize>, v: Seq<u8>, sep: u8) -> (Option<usize>, Option<Seq<u8>>) {
    (prefix, if v.len() == 0 {
        None
    } else {
        Some(stored_uri(v, sep))
    })
}

/// A scope of bindings as data: the stack of bindings, the prefix names,
/// whether namespace processing is on, and the separator.
pub struct ScopeV {
    pub stack: Stack,
    pub names: Seq<Seq<u8>>,
    pub nsf: bool,
    pub sep: u8,
}

/// The scope of `ns` as data.
pub open spec fn scope_of(ns: NsScope) -> ScopeV {
    ScopeV { stack: ns@, names: ns.prefix_names(), nsf: ns.ns(), sep: ns.sep() }
}

/// The name of a prefix among the prefix names `names`.
pub open spec fn prefix_name_in(names: Seq<Seq<u8>>, prefix: Option<usize>) -> Option<Seq<u8>> {
    match prefix {
        Some(i) => Some(names[i as int]),
        None => None,
    }
}

/// Whether the name of the `k`-th attribute was given before it.
pub open spec fn given_before(atts: Seq<(Seq<u8>, Seq<AttPieceV>)>, k: int) -> bool {
    exists|j: int| 0 <= j < k && #[trigger] atts[j].0 == atts[k].0
}

/// The first `n` attributes given in the start tag, each with what is
/// known of its name (`ids`), taken in order: the bindings on the stack and
/// the attributes to report, or the first error.
pub open spec fn specified_fold(
    atts: Seq<(Seq<u8>, Seq<AttPieceV>)>,
    ids: Seq<attribute_id>,
    defaults: Seq<DefaultV>,
    scope: ScopeV,
    n: int,
) -> Result<(Stack, Seq<OutAttV>), XmlError>
    decreases n,
{
    if n <= 0 {
        Ok((scope.stack, Seq::empty()))
    } else {
        match specified_fold(atts, ids, defaults, scope, n - 1) {
            Err(e) => Err(e),
            Ok((st, out)) => if given_before(atts, n - 1) {
                Err(XmlError::XML_ERROR_DUPLICATE_ATTRIBUTE)
            } else {
                match attribute_value(atts[n - 1].1, value_is_cdata(defaults, atts[n - 1].0, ids[n - 1])) {
                    Err((e, _)) => Err(e),
                    Ok(v) => match declared_prefix(ids[n - 1]) {
                        Some(p) => match binding_error(prefix_name_in(scope.names, p), v, scope.nsf, scope.sep) {
                            Some(e) => Err(e),
                            None => Ok((st.push(pushed(p, v, scope.sep)), out)),
                        },
                        None => Ok((st, out.push((atts[n - 1].0, v, expand_prefix(ids[n - 1]))))),
                    },
                }
            },
        }
    }
}

/// Every prefix named by the facts `ids` is a known prefix.
pub open spec fn prefixes_known(ids: Seq<attribute_id>, count: nat) -> bool {
    forall|k: int| 0 <= k < ids.len() ==> (#[trigger] ids[k].prefix matches PrefixRef::Named(p) ==> p < count)
}

proof fn lemma_specified_error_stays(
    atts: Seq<(Seq<u8>, Seq<AttPieceV>)>,
    ids: Seq<attribute_id>,
    defaults: Seq<DefaultV>,
    scope: ScopeV,
    m: int,
    n: int,
)
    requires
        0 <= m <= n,
        specified_fold(atts, ids, defaults, scope, m) is Err,
    ensures
        specified_fold(atts, ids, defaults, scope, n) == specified_fold(atts, ids, defaults, scope, m),
    decreases n - m,
{
    if m < n {
        lemma_specified_error_stays(atts, ids, defaults, scope, m, n - 1);
    }
}

/// Whether the attribute read as CDATA, from the defaults of the element
/// type.
fn cdata_scan(defaults: &Vec<ResolvedDefault>, name: &[u8], id: attribute_id) -> (r: bool)
    ensures
        r == value_is_cdata(defaults_view(defaults@), name@, id),
{
    if !id.maybeTokenized {
        return true;
    }
    let ghost dv = defaults_view(defaults@);
    let mut k: usize = 0;
    while k < defaults.len()
        invariant
            k <= defaults.len(),
            dv == defaults_view(defaults@),
            id.maybeTokenized,
            cdata_from(dv, name@, 0) == cdata_from(dv, name@, k as int),
        decreases defaults.len() - k,
    {
        assert(dv[k as int].0 == defaults@[k as int].name@);
        assert(dv[k as int].3 == defaults@[k as int].isCdata);
        assert(dv.len() == defaults.len());
        if keyeq(defaults[k].name.as_slice(), name) {
            assert(cdata_from(dv, name@, k as int) == dv[k as int].3);
            return defaults[k].isCdata;
        }
        k = k + 1;
    }
    true
}

/// The prefix that an attribute declares, as computed.
fn declared_of(id: attribute_id) -> (r: Option<Option<usize>>)
    ensures
        r == declared_prefix(id),
{
    if !id.xmlns {
        None
    } else {
        match id.prefix {
            PrefixRef::NoPrefix => None,
            PrefixRef::Default => Some(None),
            PrefixRef::Named(p) => Some(Some(p)),
        }
    }
}

/// The prefix by which an attribute's name is expanded, as computed.
fn expand_of(id: attribute_id) -> (r: Option<usize>)
    ensures
        r == expand_prefix(id),
{
    match id.prefix {
        PrefixRef::Named(p) => if id.xmlns {
            None
        } else {
            Some(p)
        },
        _ => None,
    }
}

/// Take the first `n` attributes of a start tag in order, each with what
/// is known of its name (`ids[k]` for `atts[k]`): an attribute given twice
/// is `XML_ERROR_DUPLICATE_ATTRIBUTE`; each value is read (as CDATA unless
/// the defaults say otherwise); an attribute that declares a namespace
/// pushes its binding; the others are returned, in order, to be reported.
#[allow(non_snake_case)]
pub fn storeSpecifiedAtts(
    atts: &Vec<StartAtt>,
    ids: &Vec<attribute_id>,
    n: usize,
    defaults: &Vec<ResolvedDefault>,
    ns: &mut NsScope,
) -> (r: Result<Vec<OutAtt>, XmlError>)
    requires
        old(ns).wf(),
        n <= atts.len(),
        n <= ids.len(),
        prefixes_known(ids@, old(ns).prefix_names().len()),
    ensures
        final(ns).wf(),
        final(ns).prefix_names() == old(ns).prefix_names(),
        final(ns).prefix_table() == old(ns).prefix_table(),
        final(ns).ns() == old(ns).ns(),
        final(ns).sep() == old(ns).sep(),
        old(ns)@.is_prefix_of(final(ns)@),
        match specified_fold(start_view(atts@), ids@, defaults_view(defaults@), scope_of(*old(ns)), n as int) {
            Err(e) => r == Err::<Vec<OutAtt>, XmlError>(e),
            Ok((st, out)) => r matches Ok(v) && out_view(v@) == out && final(ns)@ == st,
        },
        r matches Ok(v) ==> out_prefixes_known(v@, old(ns).prefix_names().len()),
{
    let ghost av = start_view(atts@);
    let ghost dv = defaults_view(defaults@);
    let ghost scope = *ns;
    let mut out: Vec<OutAtt> = Vec::new();
    let mut i: usize = 0;
    assert(out_view(out@) =~= Seq::<OutAttV>::empty());
    while i < n
        invariant
            i <= n <= atts.len(),
            n <= ids.len(),
            av == start_view(atts@),
            dv == defaults_view(defaults@),
            ns.wf(),
            ns.prefix_names() == scope.prefix_names(),
            ns.prefix_table() == scope.prefix_table(),
            ns.ns() == scope.ns(),
            ns.sep() == scope.sep(),
            scope == *old(ns),
            scope@.is_prefix_of(ns@),
            prefixes_known(ids@, scope.prefix_names().len()),
            out_prefixes_known(out@, scope.prefix_names().len()),
            specified_fold(av, ids@, dv, scope_of(scope), i as int) == Ok::<(Stack, Seq<OutAttV>), XmlError>(
                (ns@, out_view(out@)),
            ),
        decreases n - i,
    {
        let a = &atts[i];
        assert(av[i as int].0 == a.name@);
        assert(av[i as int].1 == pieces_view(a.value@));
        let mut j: usize = 0;
        while j < i
            invariant
                j <= i < n <= atts.len(),
                av == start_view(atts@),
                a == &atts@[i as int],
                forall|k: int| 0 <= k < j ==> av[k].0 != av[i as int].0,
                n <= ids.len(),
                dv == defaults_view(defaults@),
                ns.wf(),
                ns.prefix_names() == scope.prefix_names(),
                ns.prefix_table() == scope.prefix_table(),
                ns.ns() == scope.ns(),
                ns.sep() == scope.sep(),
                scope == *old(ns),
                scope@.is_prefix_of(ns@),
                specified_fold(av, ids@, dv, scope_of(scope), i as int) == Ok::<(Stack, Seq<OutAttV>), XmlError>(
                    (ns@, out_view(out@)),
                ),
            decreases i - j,
        {
            assert(av[j as int].0 == atts@[j as int].name@);
            if keyeq(atts[j].name.as_slice(), a.name.as_slice()) {
                proof {
                    assert(given_before(av, i as int));
                    lemma_specified_error_stays(av, ids@, dv, scope_of(scope), i as int + 1, n as int);
                }
                return Err(XmlError::XML_ERROR_DUPLICATE_ATTRIBUTE);
            }
            j = j + 1;
        }
        assert(!given_before(av, i as int));
        let id = ids[i];
        let isCdata = cdata_scan(defaults, a.name.as_slice(), id);
        let v = match storeAttributeValue(&a.value, isCdata) {
            Err((e, _)) => {
                proof {
                    lemma_specified_error_stays(av, ids@, dv, scope_of(scope), i as int + 1, n as int);
                }
                return Err(e);
            },
            Ok(v) => v,
        };
        match declared_of(id) {
            Some(p) => {
                proof {
                    assert(prefixes_known(ids@, scope.prefix_names().len()));
                    assert(ids@[i as int].prefix == id.prefix);
                }
                let ghost before = ns@;
                match ns.addBinding(p, v.as_slice()) {
                    Err(e) => {
                        proof {
                            lemma_specified_error_stays(av, ids@, dv, scope_of(scope), i as int + 1, n as int);
                        }
                        return Err(e);
                    },
                    Ok(()) => {
                        proof {
                            assert(scope@.is_prefix_of(ns@)) by {
                                assert forall|k: int| 0 <= k < scope@.len() implies ns@[k] == scope@[k] by {
                                    assert(before[k] == scope@[k]);
                                }
                            }
                        }
                    },
                }
            },
            None => {
                let e = expand_of(id);
                proof {
                    assert(ids@[i as int].prefix == id.prefix);
                }
                let ghost out_before = out@;
                let ghost vv = v@;
                out.push(OutAtt { name: crate::hashtable::copy_string(a.name.as_slice()), value: v, prefix: e });
                proof {
                    assert(out_view(out@) =~= out_view(out_before).push((av[i as int].0, vv, e)));
                }
            },
        }
        i = i + 1;
    }
    Ok(out)
}

/// Whether the `j`-th default attribute is added to a start tag that gives
/// the attributes `atts`: it has a value, the tag does not give it, and no
/// default before it was added under its name.
pub open spec fn default_applies(atts: Seq<(Seq<u8>, Seq<AttPieceV>)>, defaults: Seq<DefaultV>, j: int) -> bool {
    &&& defaults[j].2 is Some
    &&& !(exists|i: int| 0 <= i < atts.len() && #[trigger] atts[i].0 == defaults[j].0)
    &&& !(exists|k: int|
        0 <= k < j && #[trigger] defaults[k].0 == defaults[j].0 && defaults[k].2 is Some && declared_prefix(
            defaults[k].1,
        ) is None)
}

/// The first `m` defaults of the element type, taken in order after the
/// attributes that the tag gives: from the bindings `st0` and the
/// attributes to report `out0`, those with more bindings and attributes,
/// or the first error. `names`, `nsf` and `sep` are the prefix names, the
/// namespace flag and the separator.
pub open spec fn defaults_fold(
    atts: Seq<(Seq<u8>, Seq<AttPieceV>)>,
    defaults: Seq<DefaultV>,
    names: Seq<Seq<u8>>,
    nsf: bool,
    sep: u8,
    st0: Stack,
    out0: Seq<OutAttV>,
    m: int,
) -> Result<(Stack, Seq<OutAttV>), XmlError>
    decreases m,
{
    if m <= 0 {
        Ok((st0, out0))
    } else {
        match defaults_fold(atts, defaults, names, nsf, sep, st0, out0, m - 1) {
            Err(e) => Err(e),
            Ok((st, out)) => if !default_applies(atts, defaults, m - 1) {
                Ok((st, out))
            } else {
                let d = defaults[m - 1];
                let v = d.2.unwrap();
                match declared_prefix(d.1) {
                    Some(p) => match binding_error(prefix_name_in(names, p), v, nsf, sep) {
                        Some(e) => Err(e),
                        None => Ok((st.push(pushed(p, v, sep)), out)),
                    },
                    None => Ok((st, out.push((d.0, v, expand_prefix(d.1))))),
                }
            },
        }
    }
}

/// Every prefix named by a default's facts is a known prefix.
pub open spec fn default_prefixes_known(defaults: Seq<DefaultV>, count: nat) -> bool {
    forall|k: int| 0 <= k < defaults.len() ==> (#[trigger] defaults[k].1.prefix matches PrefixRef::Named(p) ==> p < count)
}

proof fn lemma_defaults_error_stays(
    atts: Seq<(Seq<u8>, Seq<AttPieceV>)>,
    defaults: Seq<DefaultV>,
    names: Seq<Seq<u8>>,
    nsf: bool,
    sep: u8,
    st0: Stack,
    out0: Seq<OutAttV>,
    m: int,
    n: int,
)
    requires
        0 <= m <= n,
        defaults_fold(atts, defaults, names, nsf, sep, st0, out0, m) is Err,
    ensures
        defaults_fold(atts, defaults, names, nsf, sep, st0, out0, n) == defaults_fold(
            atts,
            defaults,
            names,
            nsf,
            sep,
            st0,
            out0,
            m,
        ),
    decreases n - m,
{
    if m < n {
        lemma_defaults_error_stays(atts, defaults, names, nsf, sep, st0, out0, m, n - 1);
    }
}

/// Whether a start tag gives an attribute named `name`.
fn given_in(atts: &Vec<StartAtt>, name: &[u8]) -> (r: bool)
    ensures
        r == exists|i: int| 0 <= i < atts.len() && #[trigger] start_view(atts@)[i].0 == name@,
{
    let ghost av = start_view(atts@);
    let mut i: usize = 0;
    while i < atts.len()
        invariant
            i <= atts.len(),
            av == start_view(atts@),
            forall|k: int| 0 <= k < i ==> av[k].0 != name@,
        decreases atts.len() - i,
    {
        assert(av[i as int].0 == atts@[i as int].name@);
        if keyeq(atts[i].name.as_slice(), name) {
            return true;
        }
        i = i + 1;
    }
    false
}

/// Whether a default before the `j`-th one was added under its name.
fn added_before(defaults: &Vec<ResolvedDefault>, j: usize) -> (r: bool)
    requires
        j < defaults.len(),
    ensures
        r == exists|k: int|
            0 <= k < j && #[trigger] defaults_view(defaults@)[k].0 == defaults_view(defaults@)[j as int].0
                && defaults_view(defaults@)[k].2 is Some && declared_prefix(defaults_view(defaults@)[k].1) is None,
{
    let ghost dv = defaults_view(defaults@);
    let mut k: usize = 0;
    assert(dv[j as int].0 == defaults@[j as int].name@);
    while k < j
        invariant
            k <= j < defaults.len(),
            dv == defaults_view(defaults@),
            dv[j as int].0 == defaults@[j as int].name@,
            forall|q: int|
                0 <= q < k ==> !(dv[q].0 == dv[j as int].0 && dv[q].2 is Some && declared_prefix(dv[q].1) is None),
        decreases j - k,
    {
        let d = &defaults[k];
        assert(dv[k as int] == (d.name@, d.id, match d.value {
            Some(v) => Some(v@),
            None => None,
        }, d.isCdata));
        let has_value = match &d.value {
            Some(_) => true,
            None => false,
        };
        if has_value && declared_of(d.id).is_none() && keyeq(d.name.as_slice(), defaults[j].name.as_slice()) {
            assert(dv[k as int].0 == dv[j as int].0 && dv[k as int].2 is Some && declared_prefix(dv[k as int].1) is None);
            assert(defaults_view(defaults@)[k as int].0 == defaults_view(defaults@)[j as int].0);
            return true;
        }
        k = k + 1;
    }
    false
}

/// Add the defaults of the element type to a start tag that gives the
/// attributes `atts`, in order: each default with a value that the tag
/// does not give, and that no default before it gave, either pushes the
/// binding it declares or is appended to `out`.
#[allow(non_snake_case)]
pub fn addDefaultAtts(
    atts: &Vec<StartAtt>,
    defaults: &Vec<ResolvedDefault>,
    out: &mut Vec<OutAtt>,
    ns: &mut NsScope,
) -> (r: Result<(), XmlError>)
    requires
        old(ns).wf(),
        default_prefixes_known(defaults_view(defaults@), old(ns).prefix_names().len()),
    ensures
        final(ns).wf(),
        final(ns).prefix_names() == old(ns).prefix_names(),
        final(ns).prefix_table() == old(ns).prefix_table(),
        final(ns).ns() == old(ns).ns(),
        final(ns).sep() == old(ns).sep(),
        old(ns)@.is_prefix_of(final(ns)@),
        match defaults_fold(
            start_view(atts@),
            defaults_view(defaults@),
            old(ns).prefix_names(),
            old(ns).ns(),
            old(ns).sep(),
            old(ns)@,
            out_view(old(out)@),
            defaults@.len() as int,
        ) {
            Err(e) => r == Err::<(), XmlError>(e),
            Ok((st, o)) => r is Ok && final(ns)@ == st && out_view(final(out)@) == o,
        },
        out_prefixes_known(old(out)@, old(ns).prefix_names().len()) ==> out_prefixes_known(
            final(out)@,
            old(ns).prefix_names().len(),
        ),
        final(out)@.len() >= old(out)@.len(),
{
    let ghost av = start_view(atts@);
    let ghost dv = defaults_view(defaults@);
    let ghost scope = *ns;
    let ghost out0 = out_view(out@);
    let mut j: usize = 0;
    while j < defaults.len()
        invariant
            j <= defaults.len(),
            av == start_view(atts@),
            dv == defaults_view(defaults@),
            ns.wf(),
            ns.prefix_names() == scope.prefix_names(),
            ns.prefix_table() == scope.prefix_table(),
            ns.ns() == scope.ns(),
            ns.sep() == scope.sep(),
            scope == *old(ns),
            out0 == out_view(old(out)@),
            scope@.is_prefix_of(ns@),
            default_prefixes_known(dv, scope.prefix_names().len()),
            out_prefixes_known(old(out)@, scope.prefix_names().len()) ==> out_prefixes_known(
                out@,
                scope.prefix_names().len(),
            ),
            out@.len() >= old(out)@.len(),
            defaults_fold(av, dv, scope.prefix_names(), scope.ns(), scope.sep(), scope@, out0, j as int) == Ok::<
                (Stack, Seq<OutAttV>),
                XmlError,
            >((ns@, out_view(out@))),
        decreases defaults.len() - j,
    {
        let d = &defaults[j];
        assert(dv[j as int] == (d.name@, d.id, match d.value {
            Some(v) => Some(v@),
            None => None,
        }, d.isCdata));
        let value: &[u8] = match &d.value {
            None => {
                j = j + 1;
                continue;
            },
            Some(v) => v.as_slice(),
        };
        if given_in(atts, d.name.as_slice()) || added_before(defaults, j) {
            j = j + 1;
            continue;
        }
        assert(default_applies(av, dv, j as int));
        match declared_of(d.id) {
            Some(p) => {
                proof {
                    assert(default_prefixes_known(dv, scope.prefix_names().len()));
                    assert(dv[j as int].1.prefix == d.id.prefix);
                }
                let ghost before = ns@;
                match ns.addBinding(p, value) {
                    Err(e) => {
                        proof {
                            lemma_defaults_error_stays(
                                av,
                                dv,
                                scope.prefix_names(),
                                scope.ns(),
                                scope.sep(),
                                scope@,
                                out0,
                                j as int + 1,
                                defaults@.len() as int,
                            );
                        }
                        return Err(e);
                    },
                    Ok(()) => {
                        proof {
                            assert(scope@.is_prefix_of(ns@)) by {
                                assert forall|k: int| 0 <= k < scope@.len() implies ns@[k] == scope@[k] by {
                                    assert(before[k] == scope@[k]);
                                }
                            }
                        }
                    },
                }
            },
            None => {
                let e = expand_of(d.id);
                proof {
                    assert(dv[j as int].1.prefix == d.id.prefix);
                }
                let ghost out_before = out@;
                out.push(
                    OutAtt {
                        name: crate::hashtable::copy_string(d.name.as_slice()),
                        value: crate::hashtable::copy_string(value),
                        prefix: e,
                    },
                );
                proof {
                    assert(out_view(out@) =~= out_view(out_before).push((dv[j as int].0, value@, e)));
                }
            },
        }
        j = j + 1;
    }
    Ok(())
}

/// An attribute name and value as reported.
pub struct AttPair {
    pub name: Vec<u8>,
    pub value: Vec<u8>,
}

/// The attributes reported for a start tag: the pairs in order (those that
/// the tag gives first, then the defaults), how many of them the tag gives,
/// and which of those is the element type's ID attribute.
#[allow(non_snake_case)]
pub struct StoredAtts {
    pub atts: Vec<AttPair>,
    pub nSpecified: usize,
    pub idAtt: Option<usize>,
}

impl StoredAtts {
    /// The number of name and value strings that the start tag itself
    /// gives: twice the number of its attributes.
    #[allow(non_snake_case)]
    pub fn XML_GetSpecifiedAttributeCount(&self) -> (r: usize)
        requires
            self.nSpecified <= usize::MAX / 2,
        ensures
            r == 2 * self.nSpecified,
    {
        2 * self.nSpecified
    }

    /// The place of the ID attribute's name among the name and value
    /// strings reported, or -1 where the tag gives no ID attribute.
    #[allow(non_snake_case)]
    pub fn XML_GetIdAttributeIndex(&self) -> (r: i64)
        requires
            self.idAtt matches Some(k) ==> k <= i64::MAX / 2,
        ensures
            self.idAtt matches Some(k) ==> r == 2 * k,
            self.idAtt is None ==> r == -1,
    {
        match self.idAtt {
            Some(k) => 2 * (k as i64),
            None => -1,
        }
    }
}

/// The names and prefixes of the first `n` attributes to report whose
/// names are expanded.
pub open spec fn prefixed_of(out: Seq<OutAttV>, n: int) -> Seq<(Seq<u8>, usize)>
    decreases n,
{
    if n <= 0 {
        Seq::empty()
    } else {
        match out[n - 1].2 {
            Some(p) => prefixed_of(out, n - 1).push((out[n - 1].0, p)),
            None => prefixed_of(out, n - 1),
        }
    }
}

/// The name reported for the `k`-th attribute, given the expanded names
/// `exp` of those with a prefix.
pub open spec fn reported_name(out: Seq<OutAttV>, exp: Seq<Seq<u8>>, k: int) -> Seq<u8> {
    match out[k].2 {
        Some(_) => exp[prefixed_of(out, k).len() as int],
        None => out[k].0,
    }
}

/// `r` is the first of the `nSpecified` attributes that the tag gives whose
/// name is `idName`.
pub open spec fn id_index_is(out: Seq<OutAttV>, nSpecified: int, idName: Option<Seq<u8>>, r: Option<usize>) -> bool {
    match r {
        Some(k) => idName matches Some(n) && k < nSpecified && out[k as int].0 == n && forall|j: int|
            0 <= j < k ==> #[trigger] out[j].0 != n,
        None => idName matches Some(n) ==> forall|j: int| 0 <= j < nSpecified ==> #[trigger] out[j].0 != n,
    }
}

/// `s` reports the attributes `out`, the first `nSpecified` of them given
/// by the tag, with the expanded names `exp` for those with a prefix.
pub open spec fn stored_as(s: StoredAtts, out: Seq<OutAttV>, nSpecified: int, idName: Option<Seq<u8>>, exp: Seq<Seq<u8>>) -> bool {
    &&& s.nSpecified == nSpecified
    &&& id_index_is(out, nSpecified, idName, s.idAtt)
    &&& s.atts@.len() == out.len()
    &&& forall|k: int|
        0 <= k < out.len() ==> (#[trigger] s.atts@[k]).name@ == reported_name(out, exp, k) && s.atts@[k].value@
            == out[k].1
}

/// The prefixes of the attributes to report are known prefixes.
pub open spec fn out_prefixes_known(out: Seq<OutAtt>, count: nat) -> bool {
    forall|k: int| 0 <= k < out.len() ==> (#[trigger] out[k].prefix matches Some(p) ==> p < count)
}

proof fn lemma_prefixed_len(out: Seq<OutAttV>, k: int, n: int)
    requires
        0 <= k <= n,
    ensures
        prefixed_of(out, k).len() <= prefixed_of(out, n).len(),
        k < n && out[k].2 is Some ==> prefixed_of(out, k).len() < prefixed_of(out, n).len(),
    decreases n - k,
{
    if k < n {
        lemma_prefixed_len(out, k, n - 1);
        if k == n - 1 {
        }
    }
}

/// The first of the first `n` attributes to report named `idn`.
fn find_id(out: &Vec<OutAtt>, n: usize, idn: &[u8]) -> (r: Option<usize>)
    requires
        n <= out.len(),
    ensures
        id_index_is(out_view(out@), n as int, Some(idn@), r),
{
    let ghost ov = out_view(out@);
    let mut q: usize = 0;
    while q < n
        invariant
            q <= n <= out.len(),
            ov == out_view(out@),
            forall|j: int| 0 <= j < q ==> #[trigger] ov[j].0 != idn@,
        decreases n - q,
    {
        assert(ov[q as int].0 == out@[q as int].name@);
        if keyeq(out[q].name.as_slice(), idn) {
            return Some(q);
        }
        q = q + 1;
    }
    None
}

/// Expand the names of the attributes to report that have a prefix, in the
/// namespaces bound in `ns`, and find the ID attribute (named `idAttName`)
/// among the first `nSpecified`, which the tag gives.
#[allow(non_snake_case)]
pub fn reportAtts(
    out: &Vec<OutAtt>,
    nSpecified: usize,
    idAttName: Option<&[u8]>,
    ns: &NsScope,
    triplets: bool,
) -> (r: Result<StoredAtts, XmlError>)
    requires
        ns.wf(),
        nSpecified <= out.len(),
        out_prefixes_known(out@, ns.prefix_names().len()),
    ensures
        ({
            let ov = out_view(out@);
            let pa = prefixed_of(ov, ov.len() as int);
            let idName = match idAttName {
                Some(n) => Some(n@),
                None => None,
            };
            match expansion_error(pa, *ns, triplets, pa.len() as int) {
                Some(e) => r == Err::<StoredAtts, XmlError>(e),
                None => r matches Ok(s) && stored_as(
                    s,
                    ov,
                    nSpecified as int,
                    idName,
                    expanded_atts(pa, *ns, triplets, pa.len() as int).unwrap(),
                ),
            }
        }),
{
    let ghost ov = out_view(out@);
    let mut pas: Vec<PrefixedAtt> = Vec::new();
    let mut i: usize = 0;
    assert(prefixed_view(pas@) =~= prefixed_of(ov, 0));
    while i < out.len()
        invariant
            i <= out.len(),
            ov == out_view(out@),
            prefixed_view(pas@) == prefixed_of(ov, i as int),
            forall|k: int| 0 <= k < pas.len() ==> #[trigger] pas@[k].prefix < ns.prefix_names().len(),
            out_prefixes_known(out@, ns.prefix_names().len()),
        decreases out.len() - i,
    {
        assert(ov[i as int] == (out@[i as int].name@, out@[i as int].value@, out@[i as int].prefix));
        match out[i].prefix {
            Some(p) => {
                let ghost before = pas@;
                pas.push(PrefixedAtt { name: crate::hashtable::copy_string(out[i].name.as_slice()), prefix: p });
                assert(prefixed_view(pas@) =~= prefixed_view(before).push((ov[i as int].0, p)));
            },
            None => {},
        }
        i = i + 1;
    }
    let ghost pa = prefixed_of(ov, ov.len() as int);
    assert(ov.len() == out.len());
    let exp = match expandAttributeNames(&pas, ns, triplets) {
        Err(e) => {
            return Err(e);
        },
        Ok(v) => v,
    };
    let ghost expv = expanded_atts(pa, *ns, triplets, pa.len() as int).unwrap();
    proof {
        lemma_expanded_len(pa, *ns, triplets, pa.len() as int);
        assert(exp@.map_values(|x: Vec<u8>| x@) == expv);
        assert(exp@.len() == pa.len());
    }
    let elen = exp.len();
    let mut atts: Vec<AttPair> = Vec::new();
    let mut c: usize = 0;
    let mut k: usize = 0;
    while k < out.len()
        invariant
            k <= out.len(),
            ov == out_view(out@),
            ov.len() == out.len(),
            pa == prefixed_of(ov, ov.len() as int),
            exp@.map_values(|x: Vec<u8>| x@) == expv,
            exp@.len() == pa.len(),
            elen == exp@.len(),
            c == prefixed_of(ov, k as int).len(),
            atts@.len() == k,
            forall|q: int|
                0 <= q < k ==> (#[trigger] atts@[q]).name@ == reported_name(ov, expv, q) && atts@[q].value@ == ov[q].1,
        decreases out.len() - k,
    {
        assert(ov[k as int] == (out@[k as int].name@, out@[k as int].value@, out@[k as int].prefix));
        proof {
            lemma_prefixed_len(ov, k as int, ov.len() as int);
        }
        let name = match out[k].prefix {
            Some(_) => {
                assert(c < pa.len());
                assert(c < elen);
                assert(expv[c as int] == exp@[c as int]@);
                let n = crate::hashtable::copy_string(exp[c].as_slice());
                c = c + 1;
                n
            },
            None => crate::hashtable::copy_string(out[k].name.as_slice()),
        };
        atts.push(AttPair { name, value: crate::hashtable::copy_string(out[k].value.as_slice()) });
        k = k + 1;
    }
    let idAtt = match idAttName {
        Some(idn) => find_id(out, nSpecified, idn),
        None => None,
    };
    Ok(StoredAtts { atts, nSpecified, idAtt })
}

/// The bindings in force once the attributes of a start tag (each with
/// what is known of its name, `ids`) and the defaults `defaults` of its
/// element type are taken in the scope `before`, if neither fails.
pub open spec fn bindings_after(
    atts: Seq<(Seq<u8>, Seq<AttPieceV>)>,
    ids: Seq<attribute_id>,
    defaults: Seq<DefaultV>,
    before: ScopeV,
) -> Option<Stack> {
    match specified_fold(atts, ids, defaults, before, atts.len() as int) {
        Err(_) => None,
        Ok((st1, out1)) => match defaults_fold(
            atts,
            defaults,
            before.names,
            before.nsf,
            before.sep,
            st1,
            out1,
            defaults.len() as int,
        ) {
            Err(_) => None,
            Ok((st2, _)) => Some(st2),
        },
    }
}

/// What the attributes of a start tag come to, in the scope `before`, with
/// the names expanded in the scope `after` (whose bindings are those of
/// `bindings_after`): the attributes to report, how many of them the tag
/// gives, and the expanded names of those with a prefix; or the first
/// error.
pub open spec fn atts_stage(
    atts: Seq<(Seq<u8>, Seq<AttPieceV>)>,
    ids: Seq<attribute_id>,
    defaults: Seq<DefaultV>,
    before: ScopeV,
    after: NsScope,
    triplets: bool,
) -> Result<(Seq<OutAttV>, int, Seq<Seq<u8>>), XmlError> {
    match specified_fold(atts, ids, defaults, before, atts.len() as int) {
        Err(e) => Err(e),
        Ok((st1, out1)) => match defaults_fold(
            atts,
            defaults,
            before.names,
            before.nsf,
            before.sep,
            st1,
            out1,
            defaults.len() as int,
        ) {
            Err(e) => Err(e),
            Ok((_, out2)) => {
                let pa = prefixed_of(out2, out2.len() as int);
                match expansion_error(pa, after, triplets, pa.len() as int) {
                    Some(e) => Err(e),
                    None => Ok((out2, out1.len() as int, expanded_atts(pa, after, triplets, pa.len() as int).unwrap())),
                }
            },
        },
    }
}

/// `r` is the outcome of the attributes of a start tag, each with what is
/// known of its name (`ids`), with the defaults `defaults` of the element
/// type and its ID attribute named `idName`, in the scope `before`; `after`
/// is the scope afterwards.
pub open spec fn atts_outcome(
    atts: Seq<(Seq<u8>, Seq<AttPieceV>)>,
    ids: Seq<attribute_id>,
    defaults: Seq<DefaultV>,
    idName: Option<Seq<u8>>,
    before: ScopeV,
    after: NsScope,
    triplets: bool,
    r: Result<StoredAtts, XmlError>,
) -> bool {
    &&& bindings_after(atts, ids, defaults, before) matches Some(st) ==> after@ == st
    &&& match atts_stage(atts, ids, defaults, before, after, triplets) {
        Err(e) => r == Err::<StoredAtts, XmlError>(e),
        Ok((out, n, exp)) => r matches Ok(s) && stored_as(s, out, n, idName, exp),
    }
}

/// The attributes reported for a start tag that gives `atts`, each with
/// what is known of its name (`ids[k]` for `atts[k]`), whose element type
/// has the defaults `defaults` and the ID attribute named `idAttName`: the
/// attributes given, then the defaults, with the bindings they declare
/// pushed on `ns` and the names with a prefix expanded in the namespaces
/// then bound; or the first error.
#[allow(non_snake_case)]
pub fn storeResolvedAtts(
    atts: &Vec<StartAtt>,
    ids: &Vec<attribute_id>,
    defaults: &Vec<ResolvedDefault>,
    idAttName: Option<&[u8]>,
    ns: &mut NsScope,
    triplets: bool,
) -> (r: Result<StoredAtts, XmlError>)
    requires
        old(ns).wf(),
        ids.len() == atts.len(),
        prefixes_known(ids@, old(ns).prefix_names().len()),
        default_prefixes_known(defaults_view(defaults@), old(ns).prefix_names().len()),
    ensures
        final(ns).wf(),
        final(ns).prefix_names() == old(ns).prefix_names(),
        final(ns).prefix_table() == old(ns).prefix_table(),
        final(ns).ns() == old(ns).ns(),
        final(ns).sep() == old(ns).sep(),
        old(ns)@.is_prefix_of(final(ns)@),
        atts_outcome(
            start_view(atts@),
            ids@,
            defaults_view(defaults@),
            match idAttName {
                Some(n) => Some(n@),
                None => None,
            },
            scope_of(*old(ns)),
            *final(ns),
            triplets,
            r,
        ),
{
    let ghost scope0 = *ns;
    let mut out = match storeSpecifiedAtts(atts, ids, atts.len(), defaults, ns) {
        Err(e) => {
            return Err(e);
        },
        Ok(v) => v,
    };
    let nSpecified = out.len();
    let ghost scope1 = *ns;
    let ghost out1 = out_view(out@);
    proof {
        assert(start_view(atts@).len() == atts.len());
    }
    match addDefaultAtts(atts, defaults, &mut out, ns) {
        Err(e) => {
            proof {
                assert(scope0@.is_prefix_of(ns@)) by {
                    assert forall|k: int| 0 <= k < scope0@.len() implies ns@[k] == scope0@[k] by {
                        assert(scope1@[k] == scope0@[k]);
                    }
                }
            }
            return Err(e);
        },
        Ok(()) => {},
    }
    proof {
        assert(scope0@.is_prefix_of(ns@)) by {
            assert forall|k: int| 0 <= k < scope0@.len() implies ns@[k] == scope0@[k] by {
                assert(scope1@[k] == scope0@[k]);
            }
        }
        assert(out1.len() == nSpecified);
    }
    reportAtts(&out, nSpecified, idAttName, ns, triplets)
}

/// Every attribute of the table names a known prefix.
pub open spec fn table_prefixes_known(table: Seq<(Seq<u8>, attribute_id)>, count: nat) -> bool {
    forall|e: int| 0 <= e < table.len() ==> ((#[trigger] table[e]).1.prefix matches PrefixRef::Named(p) ==> p < count)
}

/// Whether the table has a record named `name`.
pub open spec fn has_name<V>(table: Seq<(Seq<u8>, V)>, name: Seq<u8>) -> bool {
    exists|e: int| 0 <= e < table.len() && #[trigger] table[e].0 == name
}

/// What the table knows of the attribute named `name`.
pub open spec fn id_named(table: Seq<(Seq<u8>, attribute_id)>, name: Seq<u8>) -> attribute_id {
    table[record_named(table, name)].1
}

/// The index of the record named `name`.
pub open spec fn record_named<V>(table: Seq<(Seq<u8>, V)>, name: Seq<u8>) -> int {
    choose|e: int| 0 <= e < table.len() && #[trigger] table[e].0 == name
}

/// What the table knows of the attributes that a start tag gives.
pub open spec fn ids_named(table: Seq<(Seq<u8>, attribute_id)>, atts: Seq<(Seq<u8>, Seq<AttPieceV>)>) -> Seq<
    attribute_id,
> {
    Seq::new(atts.len(), |k: int| id_named(table, atts[k].0))
}

/// A record that a start tag added to the table: named like one of the
/// attributes `atts`, with its prefix resolved (or, when `partial`, perhaps
/// left unresolved).
pub open spec fn new_entry_ok(
    entry: (Seq<u8>, attribute_id),
    nsf: bool,
    names: Seq<Seq<u8>>,
    atts: Seq<(Seq<u8>, Seq<AttPieceV>)>,
    partial: bool,
    blocked: bool,
) -> bool {
    &&& exists|k: int| 0 <= k < atts.len() && #[trigger] atts[k].0 == entry.0
    &&& attribute_id_fits(entry.0, nsf, entry.1, names, true, blocked) || (partial && attribute_id_fits(
        entry.0,
        nsf,
        entry.1,
        names,
        false,
        blocked,
    ))
}

/// The record named like record `e` of a table is record `e`: names are
/// distinct.
pub proof fn lemma_record_named<V>(t: HASH_TABLE<V>, e: int)
    requires
        t.wf(),
        0 <= e < t@.len(),
    ensures
        record_named(t@, t@[e].0) == e,
        has_name(t@, t@[e].0),
{
    let name = t@[e].0;
    assert(t@[e].0 == name);
    assert(has_name(t@, name));
    let c = record_named(t@, name);
    assert(0 <= c < t@.len() && t@[c].0 == name);
    if c != e {
        t.lemma_names_distinct(c, e);
    }
}

proof fn lemma_id_named(t: HASH_TABLE<attribute_id>, e: int)
    requires
        t.wf(),
        0 <= e < t@.len(),
    ensures
        id_named(t@, t@[e].0) == t@[e].1,
        has_name(t@, t@[e].0),
{
    lemma_record_named(t, e);
}

proof fn lemma_id_named_grow(t1: Seq<(Seq<u8>, attribute_id)>, t2: HASH_TABLE<attribute_id>, name: Seq<u8>)
    requires
        t2.wf(),
        t1.is_prefix_of(t2@),
        has_name(t1, name),
    ensures
        has_name(t2@, name),
        id_named(t2@, name) == id_named(t1, name),
{
    let e = record_named(t1, name);
    assert(0 <= e < t1.len() && t1[e].0 == name);
    assert(t2@[e] == t1[e]);
    lemma_id_named(t2, e);
}

/// What a record of the attribute table says of its prefix stays true as
/// more prefixes become known.
pub proof fn lemma_fits_grow(
    name: Seq<u8>,
    nsf: bool,
    id: attribute_id,
    n1: Seq<Seq<u8>>,
    n2: Seq<Seq<u8>>,
    res: bool,
    b1: bool,
    b2: bool,
)
    requires
        attribute_id_fits(name, nsf, id, n1, res, b1),
        n1.is_prefix_of(n2),
        b1 ==> b2,
    ensures
        attribute_id_fits(name, nsf, id, n2, res, b2),
        id.prefix matches PrefixRef::Named(p) ==> p < n2.len(),
{
    if nsf && name != crate::dtd::xmlns_name() && !(name.len() > 5 && name.take(5) == crate::dtd::xmlns_name()
        && name[5] == 0x3a) && (exists|i: int| is_first_colon(name, i)) && res {
        let i = choose|i: int|
            is_first_colon(name, i) && match id.prefix {
                PrefixRef::Named(p) => p < n1.len() && n1[p as int] == name.take(i),
                _ => false,
            };
        match id.prefix {
            PrefixRef::Named(p) => {
                assert(n2[p as int] == n1[p as int]);
            },
            _ => {},
        }
    }
    match id.prefix {
        PrefixRef::Named(p) => {
            if p < n1.len() {
                assert(n2[p as int] == n1[p as int]);
            }
        },
        _ => {},
    }
}

/// Find or create, in order, what the table knows of each attribute that a
/// start tag gives; stop at the first that cannot be had.
fn resolve_ids(attributeIds: &mut HASH_TABLE<attribute_id>, ns: &mut NsScope, atts: &Vec<StartAtt>) -> (r: Vec<
    attribute_id,
>)
    requires
        old(attributeIds).wf(),
        old(ns).wf(),
        table_prefixes_known(old(attributeIds)@, old(ns).prefix_names().len()),
    ensures
        final(attributeIds).wf(),
        prefixes_grown(*old(ns), *final(ns)),
        old(attributeIds)@.is_prefix_of(final(attributeIds)@),
        table_prefixes_known(final(attributeIds)@, final(ns).prefix_names().len()),
        r@.len() <= atts.len(),
        forall|k: int|
            0 <= k < r@.len() ==> has_name(final(attributeIds)@, start_view(atts@)[k].0) && #[trigger] r@[k]
                == id_named(final(attributeIds)@, start_view(atts@)[k].0),
        forall|e: int|
            old(attributeIds)@.len() <= e < final(attributeIds)@.len() ==> new_entry_ok(
                #[trigger] final(attributeIds)@[e],
                old(ns).ns(),
                final(ns).prefix_names(),
                start_view(atts@),
                r@.len() < atts.len(),
                final(ns).prefix_table().growth_blocked(),
            ),
        r@.len() < atts.len() ==> final(attributeIds).growth_blocked() || final(ns).prefix_table().growth_blocked(),
{
    let ghost av = start_view(atts@);
    let ghost t0 = attributeIds@;
    let ghost s0 = *ns;
    let nsf = ns.namespace_aware();
    let mut ids: Vec<attribute_id> = Vec::new();
    let mut i: usize = 0;
    while i < atts.len()
        invariant
            i <= atts.len(),
            av == start_view(atts@),
            ids@.len() == i,
            nsf == s0.ns(),
            s0 == *old(ns),
            t0 == old(attributeIds)@,
            attributeIds.wf(),
            prefixes_grown(s0, *ns),
            t0.is_prefix_of(attributeIds@),
            table_prefixes_known(attributeIds@, ns.prefix_names().len()),
            forall|k: int|
                0 <= k < i ==> has_name(attributeIds@, av[k].0) && #[trigger] ids@[k] == id_named(
                    attributeIds@,
                    av[k].0,
                ),
            forall|e: int|
                t0.len() <= e < attributeIds@.len() ==> new_entry_ok(
                    #[trigger] attributeIds@[e],
                    nsf,
                    ns.prefix_names(),
                    av,
                    false,
                    ns.prefix_table().growth_blocked(),
                ),
        decreases atts.len() - i,
    {
        let ghost t1 = attributeIds@;
        let ghost s1 = *ns;
        assert(av[i as int].0 == atts@[i as int].name@);
        let got = getAttributeId(attributeIds, ns, nsf, atts[i].name.as_slice());
        let ghost t2 = attributeIds@;
        proof {
            let n1 = s1.prefix_names();
            let n2 = ns.prefix_names();
            assert(t1.is_prefix_of(t2)) by {
                if t2.len() > t1.len() {
                    assert(t2.take(t1.len() as int) == t1);
                    assert forall|k: int| 0 <= k < t1.len() implies t2[k] == t1[k] by {
                        assert(t2.take(t1.len() as int)[k] == t2[k]);
                    }
                }
            }
            assert(t0.is_prefix_of(t2)) by {
                assert forall|k: int| 0 <= k < t0.len() implies t2[k] == t0[k] by {
                    assert(t1[k] == t0[k]);
                }
            }
            assert forall|e: int| 0 <= e < t2.len() implies ((#[trigger] t2[e]).1.prefix matches PrefixRef::Named(p)
                ==> p < n2.len()) by {
                if e < t1.len() {
                    assert(t2[e] == t1[e]);
                } else {
                    assert(e == t2.len() - 1);
                    lemma_fits_grow(
                        t2[e].0,
                        nsf,
                        t2[e].1,
                        n2,
                        n2,
                        got is Some,
                        ns.prefix_table().growth_blocked(),
                        ns.prefix_table().growth_blocked(),
                    );
                }
            }
            let b1 = s1.prefix_table().growth_blocked();
            let b2 = ns.prefix_table().growth_blocked();
            assert forall|e: int| t0.len() <= e < t2.len() implies new_entry_ok(
                #[trigger] t2[e],
                nsf,
                n2,
                av,
                got is None,
                b2,
            ) by {
                if e < t1.len() {
                    assert(t2[e] == t1[e]);
                    assert(new_entry_ok(t1[e], nsf, n1, av, false, b1));
                    if attribute_id_fits(t1[e].0, nsf, t1[e].1, n1, true, b1) {
                        lemma_fits_grow(t1[e].0, nsf, t1[e].1, n1, n2, true, b1, b2);
                    }
                } else {
                    assert(av[i as int].0 == t2[e].0);
                }
            }
            assert forall|k: int| 0 <= k < i implies has_name(t2, av[k].0) && #[trigger] ids@[k] == id_named(
                t2,
                av[k].0,
            ) by {
                lemma_id_named_grow(t1, *attributeIds, av[k].0);
            }
        }
        match got {
            None => {
                return ids;
            },
            Some(e) => {
                let id = *attributeIds.value(e);
                proof {
                    lemma_id_named(*attributeIds, e as int);
                }
                ids.push(id);
            },
        }
        i = i + 1;
    }
    ids
}

/// A start tag as reported: its attributes, and the name of its element
/// (`None` when the name is reported as the tag gives it).
pub struct StartTag {
    pub atts: StoredAtts,
    pub name: Option<Vec<u8>>,
}

/// The element type names known prefixes, and known attributes as its ID
/// attribute and its defaults.
pub open spec fn element_type_ok(t: ELEMENT_TYPE, nIds: nat, nPrefixes: nat) -> bool {
    &&& t.prefix matches Some(p) ==> p < nPrefixes
    &&& t.idAtt matches Some(i) ==> i < nIds
    &&& forall|k: int| 0 <= k < t.defaultAtts@.len() ==> #[trigger] t.defaultAtts@[k].id < nIds
}

/// The tables of the DTD agree with each other: the attributes and
/// element types name known prefixes, and the element types name known
/// attributes.
pub open spec fn dtd_wf(elementTypes: HASH_TABLE<ELEMENT_TYPE>, attributeIds: HASH_TABLE<attribute_id>, ns: NsScope) -> bool {
    &&& elementTypes.wf()
    &&& attributeIds.wf()
    &&& ns.wf()
    &&& table_prefixes_known(attributeIds@, ns.prefix_names().len())
    &&& forall|e: int|
        0 <= e < elementTypes@.len() ==> element_type_ok(
            (#[trigger] elementTypes@[e]).1,
            attributeIds@.len(),
            ns.prefix_names().len(),
        )
}

/// The element type named `name`.
pub open spec fn type_named(table: Seq<(Seq<u8>, ELEMENT_TYPE)>, name: Seq<u8>) -> ELEMENT_TYPE {
    table[record_named(table, name)].1
}

/// The defaults of an element type, with the names and facts of their
/// attributes from the table.
pub open spec fn resolved_defaults(t: ELEMENT_TYPE, table: Seq<(Seq<u8>, attribute_id)>) -> Seq<DefaultV> {
    Seq::new(
        t.defaultAtts@.len(),
        |k: int|
            (
                table[t.defaultAtts@[k].id as int].0,
                table[t.defaultAtts@[k].id as int].1,
                match t.defaultAtts@[k].value {
                    Some(v) => Some(v@),
                    None => None,
                },
                t.defaultAtts@[k].isCdata,
            ),
    )
}

/// The name of the ID attribute of an element type.
pub open spec fn id_att_name(t: ELEMENT_TYPE, table: Seq<(Seq<u8>, attribute_id)>) -> Option<Seq<u8>> {
    match t.idAtt {
        Some(i) => Some(table[i as int].0),
        None => None,
    }
}

/// `r` reports a start tag named `tagName` whose attributes come to
/// `atts_stage`: with namespace processing the element's name is expanded by
/// its prefix `elementPrefix` in the scope `after`.
pub open spec fn start_tag_outcome(
    atts: Seq<(Seq<u8>, Seq<AttPieceV>)>,
    ids: Seq<attribute_id>,
    defaults: Seq<DefaultV>,
    idName: Option<Seq<u8>>,
    before: ScopeV,
    after: NsScope,
    triplets: bool,
    elementPrefix: Option<usize>,
    tagName: Seq<u8>,
    r: Result<StartTag, XmlError>,
) -> bool {
    &&& bindings_after(atts, ids, defaults, before) matches Some(st) ==> after@ == st
    &&& match atts_stage(atts, ids, defaults, before, after, triplets) {
        Err(e) => r == Err::<StartTag, XmlError>(e),
        Ok((out, n, exp)) => if !before.nsf {
            r matches Ok(t) && stored_as(t.atts, out, n, idName, exp) && t.name is None
        } else {
            match tag_name_outcome(after, elementPrefix, tagName, triplets) {
                Err(e) => r == Err::<StartTag, XmlError>(e),
                Ok(nm) => r matches Ok(t) && stored_as(t.atts, out, n, idName, exp) && match nm {
                    None => t.name is None,
                    Some(x) => t.name matches Some(v) && v@ == x,
                },
            }
        },
    }
}

proof fn lemma_specified_fold_ext(
    atts: Seq<(Seq<u8>, Seq<AttPieceV>)>,
    ids1: Seq<attribute_id>,
    ids2: Seq<attribute_id>,
    defaults: Seq<DefaultV>,
    scope: ScopeV,
    n: int,
)
    requires
        forall|k: int| 0 <= k < n ==> ids1[k] == ids2[k],
    ensures
        specified_fold(atts, ids1, defaults, scope, n) == specified_fold(atts, ids2, defaults, scope, n),
    decreases n,
{
    if n > 0 {
        lemma_specified_fold_ext(atts, ids1, ids2, defaults, scope, n - 1);
    }
}

/// The defaults of an element type with the names and facts of their
/// attributes.
fn resolve_defaults(t: &ELEMENT_TYPE, attributeIds: &HASH_TABLE<attribute_id>) -> (r: Vec<ResolvedDefault>)
    requires
        attributeIds.wf(),
        forall|k: int| 0 <= k < t.defaultAtts@.len() ==> #[trigger] t.defaultAtts@[k].id < attributeIds@.len(),
    ensures
        defaults_view(r@) == resolved_defaults(*t, attributeIds@),
{
    let mut r: Vec<ResolvedDefault> = Vec::new();
    let mut k: usize = 0;
    while k < t.defaultAtts.len()
        invariant
            k <= t.defaultAtts@.len(),
            attributeIds.wf(),
            forall|q: int| 0 <= q < t.defaultAtts@.len() ==> #[trigger] t.defaultAtts@[q].id < attributeIds@.len(),
            defaults_view(r@) == resolved_defaults(*t, attributeIds@).take(k as int),
        decreases t.defaultAtts@.len() - k,
    {
        let d = &t.defaultAtts[k];
        let value = match &d.value {
            Some(v) => Some(crate::hashtable::copy_string(v.as_slice())),
            None => None,
        };
        let ghost before = r@;
        assert(defaults_view(before).len() == before.len());
        assert(before.len() == k);
        r.push(
            ResolvedDefault {
                name: crate::hashtable::copy_string(attributeIds.name(d.id)),
                id: *attributeIds.value(d.id),
                value,
                isCdata: d.isCdata,
            },
        );
        proof {
            let dvr = defaults_view(r@);
            let want = resolved_defaults(*t, attributeIds@).take(k as int + 1);
            assert forall|q: int| 0 <= q < k + 1 implies dvr[q] == want[q] by {
                if q < k {
                    assert(r@[q] == before[q]);
                    assert(dvr[q] == defaults_view(before)[q]);
                } else {
                    assert(r@[q] == r@.last());
                }
            }
            assert(dvr =~= want);
        }
        k = k + 1;
    }
    assert(resolved_defaults(*t, attributeIds@).take(k as int) =~= resolved_defaults(*t, attributeIds@));
    r
}

/// `r` is what a start tag that gives `atts` comes to when the `i`-th of
/// them cannot be found or created in the table `tbl`: the first error
/// among the attributes before it, or `XML_ERROR_NO_MEMORY`.
pub open spec fn failed_at(
    atts: Seq<(Seq<u8>, Seq<AttPieceV>)>,
    tbl: Seq<(Seq<u8>, attribute_id)>,
    defaults: Seq<DefaultV>,
    before: ScopeV,
    i: int,
    r: Result<StartTag, XmlError>,
) -> bool {
    &&& 0 <= i < atts.len()
    &&& forall|k: int| 0 <= k < i ==> has_name(tbl, #[trigger] atts[k].0)
    &&& r == match specified_fold(atts, ids_named(tbl, atts), defaults, before, i) {
        Err(e) => Err::<StartTag, XmlError>(e),
        Ok(_) => Err::<StartTag, XmlError>(XmlError::XML_ERROR_NO_MEMORY),
    }
}

/// The attributes and the element's name of a start tag whose attributes
/// are each known (`ids`), and whose element type has the defaults
/// `defaults`, the ID attribute named `idAttName` and the prefix
/// `elementPrefix`.
fn finish_start_tag(
    atts: &Vec<StartAtt>,
    ids: &Vec<attribute_id>,
    defaults: &Vec<ResolvedDefault>,
    idAttName: Option<&[u8]>,
    elementPrefix: Option<usize>,
    tagName: &[u8],
    ns: &mut NsScope,
    triplets: bool,
) -> (r: Result<StartTag, XmlError>)
    requires
        old(ns).wf(),
        ids.len() == atts.len(),
        prefixes_known(ids@, old(ns).prefix_names().len()),
        default_prefixes_known(defaults_view(defaults@), old(ns).prefix_names().len()),
        elementPrefix matches Some(p) ==> p < old(ns).prefix_names().len(),
    ensures
        final(ns).wf(),
        final(ns).prefix_names() == old(ns).prefix_names(),
        final(ns).prefix_table() == old(ns).prefix_table(),
        final(ns).ns() == old(ns).ns(),
        final(ns).sep() == old(ns).sep(),
        old(ns)@.is_prefix_of(final(ns)@),
        start_tag_outcome(
            start_view(atts@),
            ids@,
            defaults_view(defaults@),
            match idAttName {
                Some(n) => Some(n@),
                None => None,
            },
            scope_of(*old(ns)),
            *final(ns),
            triplets,
            elementPrefix,
            tagName@,
            r,
        ),
{
    let stored = match storeResolvedAtts(atts, ids, defaults, idAttName, ns, triplets) {
        Err(e) => {
            return Err(e);
        },
        Ok(s) => s,
    };
    if !ns.namespace_aware() {
        return Ok(StartTag { atts: stored, name: None });
    }
    match expandTagName(ns, elementPrefix, tagName, triplets) {
        Err(e) => Err(e),
        Ok(nm) => Ok(StartTag { atts: stored, name: nm }),
    }
}

/// The table `fin` is `old` with a new element type named `name`: no ID
/// attribute, no defaults, and, when namespaces are processed and the name
/// has a colon, the prefix before it (left out only when `failed`).
pub open spec fn new_type_ok(
    old: Seq<(Seq<u8>, ELEMENT_TYPE)>,
    fin: Seq<(Seq<u8>, ELEMENT_TYPE)>,
    name: Seq<u8>,
    nsf: bool,
    names: Seq<Seq<u8>>,
    failed: bool,
) -> bool {
    &&& fin.len() == old.len() + 1
    &&& fin.take(old.len() as int) == old
    &&& fin.last().0 == name
    &&& fin.last().1.idAtt is None
    &&& fin.last().1.defaultAtts@.len() == 0
    &&& fin.last().1.prefix matches Some(p) ==> (nsf && (find_first_colon_spec(name) matches Some(i) && p
        < names.len() && names[p as int] == name.take(i)))
    &&& nsf && find_first_colon_spec(name) is Some && fin.last().1.prefix is None ==> failed
}

/// Report a start tag named `tagName` that gives the attributes `atts`:
/// its element type is found or created (with its prefix, when namespaces
/// are processed); the array of attributes, of `attsSize` slots, grows to
/// hold those given and the element's defaults (`XML_ERROR_NO_MEMORY` when
/// their count passes the largest `int`); the attributes are found or
/// created in `attributeIds`, and the attributes and the element's name
/// come out as `start_tag_outcome` says. When a table cannot grow the
/// result is `XML_ERROR_NO_MEMORY`; for an attribute, after the attributes
/// before it were taken (an error among them comes first).
#[allow(non_snake_case)]
pub fn storeAtts(
    elementTypes: &mut HASH_TABLE<ELEMENT_TYPE>,
    attributeIds: &mut HASH_TABLE<attribute_id>,
    ns: &mut NsScope,
    attsSize: &mut i32,
    tagName: &[u8],
    atts: &Vec<StartAtt>,
    triplets: bool,
) -> (r: Result<StartTag, XmlError>)
    requires
        dtd_wf(*old(elementTypes), *old(attributeIds), *old(ns)),
        0 <= *old(attsSize),
    ensures
        dtd_wf(*final(elementTypes), *final(attributeIds), *final(ns)),
        old(ns).prefix_names().is_prefix_of(final(ns).prefix_names()),
        final(ns).ns() == old(ns).ns(),
        final(ns).sep() == old(ns).sep(),
        old(ns)@.is_prefix_of(final(ns)@),
        old(attributeIds)@.is_prefix_of(final(attributeIds)@),
        forall|e: int|
            old(attributeIds)@.len() <= e < final(attributeIds)@.len() ==> new_entry_ok(
                #[trigger] final(attributeIds)@[e],
                old(ns).ns(),
                final(ns).prefix_names(),
                start_view(atts@),
                true,
                final(ns).prefix_table().growth_blocked(),
            ),
        has_name(old(elementTypes)@, tagName@) ==> final(elementTypes)@ == old(elementTypes)@,
        !has_name(old(elementTypes)@, tagName@) ==> if final(elementTypes)@ == old(elementTypes)@ {
            r == Err::<StartTag, XmlError>(XmlError::XML_ERROR_NO_MEMORY) && final(elementTypes).growth_blocked()
        } else {
            new_type_ok(
                old(elementTypes)@,
                final(elementTypes)@,
                tagName@,
                old(ns).ns(),
                final(ns).prefix_names(),
                r == Err::<StartTag, XmlError>(XmlError::XML_ERROR_NO_MEMORY),
            )
        },
        ({
            let tbl = final(attributeIds)@;
            let av = start_view(atts@);
            let blocked = final(elementTypes).growth_blocked() || final(attributeIds).growth_blocked()
                || final(ns).prefix_table().growth_blocked();
            let before = ScopeV {
                stack: old(ns)@,
                names: final(ns).prefix_names(),
                nsf: old(ns).ns(),
                sep: old(ns).sep(),
            };
            let et = type_named(final(elementTypes)@, tagName@);
            let dv = resolved_defaults(et, tbl);
            let sz = atts_size_for(av.len() as int, et.defaultAtts@.len() as int, *old(attsSize) as int);
            &&& *final(attsSize) == *old(attsSize) || sz == Some(*final(attsSize) as int)
            &&& has_name(final(elementTypes)@, tagName@) && sz is Some && r != Err::<StartTag, XmlError>(
                XmlError::XML_ERROR_NO_MEMORY,
            ) ==> sz == Some(*final(attsSize) as int)
            &&& {
                ||| has_name(final(elementTypes)@, tagName@) && sz is Some && (forall|k: int|
                    0 <= k < av.len() ==> has_name(tbl, #[trigger] av[k].0)) && start_tag_outcome(
                    av,
                    ids_named(tbl, av),
                    dv,
                    id_att_name(et, tbl),
                    before,
                    *final(ns),
                    triplets,
                    et.prefix,
                    tagName@,
                    r,
                )
                ||| blocked && r == Err::<StartTag, XmlError>(XmlError::XML_ERROR_NO_MEMORY) && final(ns)@ == old(ns)@
                ||| has_name(final(elementTypes)@, tagName@) && sz is None && r == Err::<StartTag, XmlError>(
                    XmlError::XML_ERROR_NO_MEMORY,
                ) && final(attributeIds)@ == old(attributeIds)@ && final(ns)@ == old(ns)@
                ||| blocked && has_name(final(elementTypes)@, tagName@) && sz is Some && exists|i: int|
                    #[trigger] failed_at(av, tbl, dv, before, i, r)
            }
        }),
{
    let ghost av = start_view(atts@);
    let ghost et0 = elementTypes@;
    let ghost ids0 = attributeIds@;
    let ghost ns0 = *ns;
    let nsf = ns.namespace_aware();
    let n0 = elementTypes.len();
    let fresh = ELEMENT_TYPE { prefix: None, idAtt: None, defaultAtts: Vec::new() };
    let et_index = match elementTypes.lookup_create(tagName, fresh) {
        None => {
            return Err(XmlError::XML_ERROR_NO_MEMORY);
        },
        Some(e) => e,
    };
    proof {
        if has_name(et0, tagName@) {
            let c = record_named(et0, tagName@);
            assert(0 <= c < et0.len() && et0[c].0 == tagName@);
        }
    }
    if et_index >= n0 && nsf {
        let mut t = ELEMENT_TYPE { prefix: None, idAtt: None, defaultAtts: Vec::new() };
        let ok = setElementTypePrefix(&mut t, ns, tagName);
        elementTypes.set_value(et_index, t);
        proof {
            assert(elementTypes@.take(n0 as int) =~= et0);
        }
        if !ok {
            proof {
                assert forall|e: int| 0 <= e < elementTypes@.len() implies element_type_ok(
                    (#[trigger] elementTypes@[e]).1,
                    attributeIds@.len(),
                    ns.prefix_names().len(),
                ) by {
                    if e < n0 {
                        assert(elementTypes@[e] == et0[e]);
                        assert(element_type_ok(et0[e].1, ids0.len(), ns0.prefix_names().len()));
                    }
                }
            }
            return Err(XmlError::XML_ERROR_NO_MEMORY);
        }
    }
    let ghost et1 = elementTypes@;
    let ghost ns1 = *ns;
    proof {
        assert(et1[et_index as int].0 == tagName@);
        assert(et_index >= n0 ==> et1.take(n0 as int) =~= et0);
        assert forall|e: int| 0 <= e < et1.len() implies element_type_ok(
            (#[trigger] et1[e]).1,
            ids0.len(),
            ns1.prefix_names().len(),
        ) by {
            if e < n0 {
                assert(et1[e] == et0[e]);
                assert(element_type_ok(et0[e].1, ids0.len(), ns0.prefix_names().len()));
            }
        }
        assert(table_prefixes_known(ids0, ns1.prefix_names().len())) by {
            assert forall|e: int| 0 <= e < ids0.len() implies ((#[trigger] ids0[e]).1.prefix matches PrefixRef::Named(p)
                ==> p < ns1.prefix_names().len()) by {
            }
        }
    }
    proof {
        crate::storeatts::lemma_record_named(*elementTypes, et_index as int);
    }
    let nd = elementTypes.value(et_index).defaultAtts.len();
    if atts.len() > 0x7fff_ffff || nd > 0x7fff_ffff {
        return Err(XmlError::XML_ERROR_NO_MEMORY);
    }
    match attsSizeFor(atts.len() as i32, nd as i32, *attsSize) {
        Err(e) => {
            return Err(e);
        },
        Ok(size) => {
            *attsSize = size;
        },
    }
    let ids = resolve_ids(attributeIds, ns, atts);
    let ghost tbl = attributeIds@;
    let ghost ns2 = *ns;
    proof {
        assert forall|e: int| 0 <= e < et1.len() implies element_type_ok(
            (#[trigger] et1[e]).1,
            tbl.len(),
            ns2.prefix_names().len(),
        ) by {
            assert(element_type_ok(et1[e].1, ids0.len(), ns1.prefix_names().len()));
        }
        lemma_record_named(*elementTypes, et_index as int);
    }
    let et = elementTypes.value(et_index);
    let defaults = resolve_defaults(et, attributeIds);
    let idName: Option<&[u8]> = match et.idAtt {
        Some(a) => Some(attributeIds.name(a)),
        None => None,
    };
    let elementPrefix = et.prefix;
    let ghost before = ScopeV { stack: ns0@, names: ns2.prefix_names(), nsf: ns0.ns(), sep: ns0.sep() };
    proof {
        assert(scope_of(ns2) == before);
        assert forall|k: int| 0 <= k < defaults_view(defaults@).len() implies (#[trigger] defaults_view(
            defaults@,
        )[k].1.prefix matches PrefixRef::Named(p) ==> p < ns2.prefix_names().len()) by {
            let d = et.defaultAtts@[k];
            assert(d.id < tbl.len());
            assert(defaults_view(defaults@)[k].1 == tbl[d.id as int].1);
        }
        assert forall|k: int| 0 <= k < ids@.len() implies (#[trigger] ids@[k].prefix matches PrefixRef::Named(p) ==> p
            < ns2.prefix_names().len()) by {
            let c = record_named(tbl, av[k].0);
            assert(0 <= c < tbl.len() && tbl[c].0 == av[k].0);
            assert(ids@[k] == tbl[c].1);
        }
    }
    if ids.len() < atts.len() {
        let got = storeSpecifiedAtts(atts, &ids, ids.len(), &defaults, ns);
        proof {
            lemma_specified_fold_ext(av, ids@, ids_named(tbl, av), defaults_view(defaults@), before, ids@.len() as int);
        }
        let r = match got {
            Err(e) => Err(e),
            Ok(_) => Err(XmlError::XML_ERROR_NO_MEMORY),
        };
        proof {
            let i = ids@.len() as int;
            assert forall|k: int| 0 <= k < i implies has_name(tbl, #[trigger] av[k].0) by {
                assert(ids@[k] == id_named(tbl, av[k].0));
            }
            assert(type_named(elementTypes@, tagName@) == *et);
            assert(defaults_view(defaults@) == resolved_defaults(type_named(elementTypes@, tagName@), tbl));
            assert(failed_at(av, tbl, defaults_view(defaults@), before, i, r));
        }
        return r;
    }
    proof {
        assert(ids@ =~= ids_named(tbl, av));
    }
    let r = finish_start_tag(atts, &ids, &defaults, idName, elementPrefix, tagName, ns, triplets);
    proof {
        let etn = type_named(elementTypes@, tagName@);
        assert(etn == *et);
        assert(has_name(elementTypes@, tagName@));
        assert(defaults_view(defaults@) == resolved_defaults(etn, tbl));
        assert(id_att_name(etn, tbl) == match idName {
            Some(n) => Some(n@),
            None => None::<Seq<u8>>,
        });
        assert(etn.prefix == elementPrefix);
        assert forall|k: int| 0 <= k < av.len() implies has_name(tbl, #[trigger] av[k].0) by {
            assert(ids@[k] == id_named(tbl, av[k].0));
        }
    }
    r
}

/// A start tag that gives the same attribute twice is refused: taking its
/// attributes ends in an error, whatever else it gives.
pub proof fn lemma_duplicate_rejected(
    atts: Seq<(Seq<u8>, Seq<AttPieceV>)>,
    ids: Seq<attribute_id>,
    defaults: Seq<DefaultV>,
    before: ScopeV,
    after: NsScope,
    triplets: bool,
    i: int,
    j: int,
)
    requires
        0 <= i < j < atts.len(),
        atts[i].0 == atts[j].0,
    ensures
        specified_fold(atts, ids, defaults, before, atts.len() as int) is Err,
        atts_stage(atts, ids, defaults, before, after, triplets) is Err,
        bindings_after(atts, ids, defaults, before) is None,
{
    if specified_fold(atts, ids, defaults, before, j) is Err {
        lemma_specified_error_stays(atts, ids, defaults, before, j, atts.len() as int);
    } else {
        assert(given_before(atts, j));
        lemma_specified_error_stays(atts, ids, defaults, before, j + 1, atts.len() as int);
    }
}

/// Reading a value fails only on a character reference that names no
/// character.
proof fn lemma_value_error_code(pieces: Seq<AttPieceV>, isCdata: bool, n: int)
    ensures
        crate::attvalue::value_prefix(pieces, isCdata, n) matches Err((e, _)) ==> e == XmlError::XML_ERROR_BAD_CHAR_REF,
    decreases n,
{
    if n > 0 {
        lemma_value_error_code(pieces, isCdata, n - 1);
    }
}

/// Taking attributes that succeeds has met no repeated name.
proof fn lemma_specified_ok_no_repeat(
    atts: Seq<(Seq<u8>, Seq<AttPieceV>)>,
    ids: Seq<attribute_id>,
    defaults: Seq<DefaultV>,
    scope: ScopeV,
    n: int,
)
    requires
        specified_fold(atts, ids, defaults, scope, n) is Ok,
    ensures
        forall|j: int| 0 <= j < n ==> !given_before(atts, j),
    decreases n,
{
    if n > 0 {
        lemma_specified_ok_no_repeat(atts, ids, defaults, scope, n - 1);
    }
}

/// The attribute at which a start tag's attributes are refused as a
/// duplicate: the first whose name an attribute before it gave.
pub open spec fn is_first_repeat(atts: Seq<(Seq<u8>, Seq<AttPieceV>)>, k: int) -> bool {
    &&& 0 <= k < atts.len()
    &&& given_before(atts, k)
    &&& forall|j: int| 0 <= j < k ==> !given_before(atts, j)
}

/// `XML_ERROR_DUPLICATE_ATTRIBUTE` from the attributes a start tag gives
/// comes at the first attribute that repeats a name given before it (the
/// one whose name the error is reported at).
pub proof fn lemma_duplicate_at_first_repeat(
    atts: Seq<(Seq<u8>, Seq<AttPieceV>)>,
    ids: Seq<attribute_id>,
    defaults: Seq<DefaultV>,
    scope: ScopeV,
    n: int,
)
    requires
        n <= atts.len(),
        specified_fold(atts, ids, defaults, scope, n) == Err::<(Stack, Seq<OutAttV>), XmlError>(
            XmlError::XML_ERROR_DUPLICATE_ATTRIBUTE,
        ),
    ensures
        exists|k: int| 0 <= k < n && is_first_repeat(atts, k),
    decreases n,
{
    if n > 0 {
        if specified_fold(atts, ids, defaults, scope, n - 1) is Err {
            lemma_duplicate_at_first_repeat(atts, ids, defaults, scope, n - 1);
            let k = choose|k: int| 0 <= k < n - 1 && is_first_repeat(atts, k);
            assert(0 <= k < n && is_first_repeat(atts, k));
        } else {
            lemma_specified_ok_no_repeat(atts, ids, defaults, scope, n - 1);
            if !given_before(atts, n - 1) {
                lemma_value_error_code(
                    atts[n - 1].1,
                    value_is_cdata(defaults, atts[n - 1].0, ids[n - 1]),
                    atts[n - 1].1.len() as int,
                );
                assert(false);
            }
            assert(is_first_repeat(atts, n - 1));
        }
    }
}

/// The attribute of a start tag at which a duplicate is reported: the
/// first whose name an attribute before it gave; none when all differ.
#[allow(non_snake_case)]
pub fn duplicateAttributeIndex(atts: &Vec<StartAtt>) -> (r: Option<usize>)
    ensures
        match r {
            Some(k) => is_first_repeat(start_view(atts@), k as int),
            None => forall|k: int| 0 <= k < atts.len() ==> !given_before(start_view(atts@), k),
        },
{
    let ghost av = start_view(atts@);
    let mut i: usize = 0;
    while i < atts.len()
        invariant
            i <= atts.len(),
            av == start_view(atts@),
            forall|k: int| 0 <= k < i ==> !given_before(av, k),
        decreases atts.len() - i,
    {
        let mut j: usize = 0;
        while j < i
            invariant
                j <= i < atts.len(),
                av == start_view(atts@),
                forall|k: int| 0 <= k < j ==> av[k].0 != av[i as int].0,
                forall|k: int| 0 <= k < i ==> !given_before(av, k),
            decreases i - j,
        {
            assert(av[j as int].0 == atts@[j as int].name@);
            assert(av[i as int].0 == atts@[i as int].name@);
            if crate::hashtable::keyeq(atts[j].name.as_slice(), atts[i].name.as_slice()) {
                assert(given_before(av, i as int));
                return Some(i);
            }
            j = j + 1;
        }
        assert(!given_before(av, i as int));
        i = i + 1;
    }
    None
}

} // verus!
