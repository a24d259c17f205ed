//! The context string that a parser hands to the parser of an external
//! entity: the namespace bindings in force and the general entities open at
//! the reference, so that the entity is parsed in the same context.
//!
//! The string is a list of items separated by form feeds (0x0C):
//! `=uri` binds the default namespace, `prefix=uri` binds a prefix and a
//! bare `name` marks the general entity `name` as open.
use vstd::prelude::*;
use crate::errors::XmlError;
use crate::hashtable::{HASH_TABLE, HASH_TABLE_ITER, copy_string};
use crate::namespaces::{NsScope, binding_error, binding_of, stored_uri, well_stored};
use crate::entities::{with_open, ENTITY};

verus! {

pub const ASCII_FF: u8 = 0x0c;
pub const ASCII_EQUALS: u8 = 0x3d;

/// One item of a context string.
pub enum CtxItem {
    DefaultNamespace(Seq<u8>),
    Prefixed(Seq<u8>, Seq<u8>),
    OpenEntity(Seq<u8>),
}

/// One item of a context string, as the parser holds it.
pub enum ContextItem {
    DefaultNamespace(Vec<u8>),
    Prefixed(Vec<u8>, Vec<u8>),
    OpenEntity(Vec<u8>),
}

impl ContextItem {
    pub open spec fn view(&self) -> CtxItem {
        match self {
            ContextItem::DefaultNamespace(u) => CtxItem::DefaultNamespace(u@),
            ContextItem::Prefixed(p, u) => CtxItem::Prefixed(p@, u@),
            ContextItem::OpenEntity(n) => CtxItem::OpenEntity(n@),
        }
    }
}

/// The position of the first `c` in `s`.
pub open spec fn find_byte(s: Seq<u8>, c: u8) -> Option<int>
    decreases s.len(),
{
    if s.len() == 0 {
        None
    } else if s[0] == c {
        Some(0)
    } else {
        match find_byte(s.skip(1), c) {
            Some(k) => Some(k + 1),
            None => None,
        }
    }
}

/// The item written as `seg`.
pub open spec fn segment_item(seg: Seq<u8>) -> CtxItem {
    match find_byte(seg, ASCII_EQUALS) {
        Some(k) => if k == 0 {
            CtxItem::DefaultNamespace(seg.skip(1))
        } else {
            CtxItem::Prefixed(seg.take(k), seg.skip(k + 1))
        },
        None => CtxItem::OpenEntity(seg),
    }
}

/// The items of a context string; an empty last item is no item.
pub open spec fn parse_context(s: Seq<u8>) -> Seq<CtxItem>
    decreases s.len(),
{
    if s.len() == 0 {
        Seq::empty()
    } else {
        match find_byte(s, ASCII_FF) {
            Some(k) => {
                proof {
                    lemma_find_byte_bound(s, ASCII_FF);
                }
                seq![segment_item(s.take(k))] + parse_context(s.skip(k + 1))
            },
            None => seq![segment_item(s)],
        }
    }
}

/// The first `c` found is a `c` with none before it.
pub proof fn lemma_find_byte_bound(s: Seq<u8>, c: u8)
    ensures
        find_byte(s, c) matches Some(k) ==> 0 <= k < s.len() && s[k] == c && forall|j: int|
            0 <= j < k ==> s[j] != c,
    decreases s.len(),
{
    if s.len() > 0 && s[0] != c {
        lemma_find_byte_bound(s.skip(1), c);
        if let Some(k) = find_byte(s, c) {
            assert forall|j: int| 0 <= j < k implies s[j] != c by {
                if j > 0 {
                    assert(s[j] == s.skip(1)[j - 1]);
                }
            }
        }
    }
}

/// How an item is written.
pub open spec fn item_bytes(it: CtxItem) -> Seq<u8> {
    match it {
        CtxItem::DefaultNamespace(u) => seq![ASCII_EQUALS] + u,
        CtxItem::Prefixed(p, u) => p + seq![ASCII_EQUALS] + u,
        CtxItem::OpenEntity(n) => n,
    }
}

/// A list of items written one after the other with form feeds between.
pub open spec fn context_string(items: Seq<CtxItem>) -> Seq<u8>
    decreases items.len(),
{
    if items.len() == 0 {
        Seq::empty()
    } else if items.len() == 1 {
        item_bytes(items[0])
    } else {
        item_bytes(items[0]) + seq![ASCII_FF] + context_string(items.drop_first())
    }
}

/// An item that survives being written and read back: names hold neither
/// `=` nor a form feed and are not empty, namespace names hold no form feed.
pub open spec fn item_writable(it: CtxItem) -> bool {
    match it {
        CtxItem::DefaultNamespace(u) => !u.contains(ASCII_FF),
        CtxItem::Prefixed(p, u) => p.len() > 0 && !p.contains(ASCII_EQUALS) && !p.contains(ASCII_FF)
            && !u.contains(ASCII_FF),
        CtxItem::OpenEntity(n) => n.len() > 0 && !n.contains(ASCII_EQUALS) && !n.contains(ASCII_FF),
    }
}

proof fn lemma_find_none(s: Seq<u8>, c: u8)
    requires
        !s.contains(c),
    ensures
        find_byte(s, c) is None,
    decreases s.len(),
{
    if s.len() > 0 {
        assert(!s.skip(1).contains(c)) by {
            if s.skip(1).contains(c) {
                let i = choose|i: int| 0 <= i < s.skip(1).len() && s.skip(1)[i] == c;
                assert(s[i + 1] == c);
            }
        }
        lemma_find_none(s.skip(1), c);
    }
}

proof fn lemma_find_after(a: Seq<u8>, c: u8, rest: Seq<u8>)
    requires
        !a.contains(c),
    ensures
        find_byte(a + seq![c] + rest, c) == Some(a.len() as int),
    decreases a.len(),
{
    let s = a + seq![c] + rest;
    if a.len() == 0 {
        assert(s[0] == c);
    } else {
        assert(a[0] != c);
        assert(!a.skip(1).contains(c)) by {
            if a.skip(1).contains(c) {
                let i = choose|i: int| 0 <= i < a.skip(1).len() && a.skip(1)[i] == c;
                assert(a[i + 1] == c);
            }
        }
        lemma_find_after(a.skip(1), c, rest);
        assert(s.skip(1) =~= a.skip(1) + seq![c] + rest);
        assert(s[0] == a[0]);
    }
}

proof fn lemma_no_byte_concat(a: Seq<u8>, b: Seq<u8>, c: u8)
    requires
        !a.contains(c),
        !b.contains(c),
    ensures
        !(a + b).contains(c),
{
    if (a + b).contains(c) {
        let i = choose|i: int| 0 <= i < (a + b).len() && (a + b)[i] == c;
        if i < a.len() {
            assert(a[i] == c);
        } else {
            assert(b[i - a.len()] == c);
        }
    }
}

proof fn lemma_item_roundtrip(it: CtxItem)
    requires
        item_writable(it),
    ensures
        segment_item(item_bytes(it)) == it,
        !item_bytes(it).contains(ASCII_FF),
        item_bytes(it).len() > 0,
{
    match it {
        CtxItem::DefaultNamespace(u) => {
            let b = seq![ASCII_EQUALS] + u;
            assert(b[0] == ASCII_EQUALS);
            assert(b.skip(1) =~= u);
            lemma_no_byte_concat(seq![ASCII_EQUALS], u, ASCII_FF);
        },
        CtxItem::Prefixed(p, u) => {
            lemma_find_after(p, ASCII_EQUALS, u);
            let b = p + seq![ASCII_EQUALS] + u;
            assert(b.take(p.len() as int) =~= p);
            assert(b.skip(p.len() as int + 1) =~= u);
            lemma_no_byte_concat(p, seq![ASCII_EQUALS], ASCII_FF);
            lemma_no_byte_concat(p + seq![ASCII_EQUALS], u, ASCII_FF);
        },
        CtxItem::OpenEntity(n) => {
            lemma_find_none(n, ASCII_EQUALS);
        },
    }
}

/// Reading back a written context gives the same items: the items that a
/// parser writes for an external entity are the items its parser reads.
pub proof fn lemma_context_roundtrip(items: Seq<CtxItem>)
    requires
        forall|i: int| 0 <= i < items.len() ==> item_writable(#[trigger] items[i]),
    ensures
        parse_context(context_string(items)) == items,
    decreases items.len(),
{
    if items.len() == 0 {
    } else if items.len() == 1 {
        lemma_item_roundtrip(items[0]);
        lemma_find_none(item_bytes(items[0]), ASCII_FF);
        assert(seq![segment_item(item_bytes(items[0]))] =~= items);
    } else {
        let b0 = item_bytes(items[0]);
        let rest = context_string(items.drop_first());
        lemma_item_roundtrip(items[0]);
        lemma_find_after(b0, ASCII_FF, rest);
        let s = b0 + seq![ASCII_FF] + rest;
        assert(s.take(b0.len() as int) =~= b0);
        assert(s.skip(b0.len() as int + 1) =~= rest);
        assert forall|i: int| 0 <= i < items.drop_first().len() implies item_writable(
            #[trigger] items.drop_first()[i],
        ) by {
            assert(items.drop_first()[i] == items[i + 1]);
        }
        lemma_context_roundtrip(items.drop_first());
        assert(seq![items[0]] + items.drop_first() =~= items);
    }
}

/// The position of the first `c` in `s` from `from` on, or `s.len()`.
fn find_from(s: &[u8], from: usize, c: u8) -> (r: usize)
    requires
        from <= s.len(),
    ensures
        from <= r <= s.len(),
        match find_byte(s@.skip(from as int), c) {
            Some(k) => r == from + k,
            None => r == s.len(),
        },
{
    let mut i = from;
    while i < s.len() && s[i] != c
        invariant
            from <= i <= s.len(),
            forall|j: int| from <= j < i ==> s@[j] != c,
        decreases s.len() - i,
    {
        i = i + 1;
    }
    proof {
        lemma_find_prefix(s@.skip(from as int), c, i - from);
    }
    i
}

proof fn lemma_find_prefix(s: Seq<u8>, c: u8, k: int)
    requires
        0 <= k <= s.len(),
        forall|j: int| 0 <= j < k ==> s[j] != c,
        k < s.len() ==> s[k] == c,
    ensures
        match find_byte(s, c) {
            Some(m) => m == k,
            None => k == s.len(),
        },
    decreases k,
{
    if k > 0 {
        lemma_find_prefix(s.skip(1), c, k - 1);
    }
}

fn copy_range(s: &[u8], lo: usize, hi: usize) -> (r: Vec<u8>)
    requires
        lo <= hi <= s.len(),
    ensures
        r@ == s@.subrange(lo as int, hi as int),
{
    let mut r: Vec<u8> = Vec::new();
    let mut i = lo;
    while i < hi
        invariant
            lo <= i <= hi,
            hi <= s.len(),
            r@ == s@.subrange(lo as int, i as int),
        decreases hi - i,
    {
        r.push(s[i]);
        i = i + 1;
        assert(r@ =~= s@.subrange(lo as int, i as int));
    }
    r
}

/// Split a context string into its items.
pub fn parse_context_string(context: &[u8]) -> (items: Vec<ContextItem>)
    ensures
        items@.map_values(|it: ContextItem| it@) == parse_context(context@),
{
    let mut items: Vec<ContextItem> = Vec::new();
    let mut pos: usize = 0;
    assert(context@.skip(0) =~= context@);
    while pos < context.len()
        invariant
            pos <= context.len(),
            items@.map_values(|it: ContextItem| it@) + parse_context(context@.skip(pos as int))
                == parse_context(context@),
        decreases context.len() - pos,
    {
        let ghost rest = context@.skip(pos as int);
        let end = find_from(context, pos, ASCII_FF);
        let eq = find_from(context, pos, ASCII_EQUALS);
        let ghost seg = context@.subrange(pos as int, end as int);
        proof {
            assert(seg =~= match find_byte(rest, ASCII_FF) {
                Some(k) => rest.take(k),
                None => rest,
            });
            lemma_find_in_segment(rest, end - pos);
            assert(seg =~= rest.take(end - pos));
        }
        let item = if eq < end {
            if eq == pos {
                ContextItem::DefaultNamespace(copy_range(context, pos + 1, end))
            } else {
                ContextItem::Prefixed(copy_range(context, pos, eq), copy_range(context, eq + 1, end))
            }
        } else {
            ContextItem::OpenEntity(copy_range(context, pos, end))
        };
        proof {
            if eq < end {
                assert(find_byte(seg, ASCII_EQUALS) == Some(eq - pos));
                assert(seg.skip(1) =~= context@.subrange(pos + 1, end as int));
                assert(seg.take(eq - pos) =~= context@.subrange(pos as int, eq as int));
                assert(seg.skip(eq - pos + 1) =~= context@.subrange(eq + 1, end as int));
            } else {
                assert(find_byte(seg, ASCII_EQUALS) is None);
            }
            assert(item@ == segment_item(seg));
        }
        let ghost old_items = items@;
        items.push(item);
        let next = if end < context.len() {
            end + 1
        } else {
            end
        };
        proof {
            assert(items@.map_values(|it: ContextItem| it@) =~= old_items.map_values(
                |it: ContextItem| it@,
            ).push(segment_item(seg)));
            if end < context.len() {
                assert(rest.skip(end - pos + 1) =~= context@.skip(next as int));
                assert(parse_context(rest) == seq![segment_item(seg)] + parse_context(
                    context@.skip(next as int),
                ));
            } else {
                assert(context@.skip(next as int) =~= Seq::<u8>::empty());
                assert(seg =~= rest);
                lemma_find_byte_bound(rest, ASCII_FF);
                assert(find_byte(rest, ASCII_FF) is None);
                assert(parse_context(rest) == seq![segment_item(seg)]);
            }
            assert(old_items.map_values(|it: ContextItem| it@).push(segment_item(seg)) + parse_context(
                context@.skip(next as int),
            ) =~= old_items.map_values(|it: ContextItem| it@) + parse_context(rest));
        }
        pos = next;
    }
    assert(context@.skip(pos as int) =~= Seq::<u8>::empty());
    assert(items@.map_values(|it: ContextItem| it@) + Seq::<CtxItem>::empty() =~= items@.map_values(
        |it: ContextItem| it@,
    ));
    items
}

/// The first `=` of a segment is found by a search of the whole rest of the
/// string when it comes before the segment's end.
proof fn lemma_find_in_segment(rest: Seq<u8>, len: int)
    requires
        0 < rest.len(),
        0 <= len <= rest.len(),
        match find_byte(rest, ASCII_FF) {
            Some(k) => len == k,
            None => len == rest.len(),
        },
    ensures
        forall|m: int|
            find_byte(rest, ASCII_EQUALS) == Some(m) && m < len ==> find_byte(rest.take(len), ASCII_EQUALS)
                == Some(m),
        (find_byte(rest, ASCII_EQUALS) is None || find_byte(rest, ASCII_EQUALS).unwrap() >= len)
            ==> find_byte(rest.take(len), ASCII_EQUALS) is None,
{
    lemma_find_take(rest, ASCII_EQUALS, len);
}

proof fn lemma_find_take(s: Seq<u8>, c: u8, len: int)
    requires
        0 <= len <= s.len(),
    ensures
        match find_byte(s, c) {
            Some(m) => if m < len {
                find_byte(s.take(len), c) == Some(m)
            } else {
                find_byte(s.take(len), c) is None
            },
            None => find_byte(s.take(len), c) is None,
        },
    decreases len,
{
    lemma_find_byte_bound(s, c);
    if len > 0 {
        lemma_find_take(s.skip(1), c, len - 1);
        assert(s.take(len).skip(1) =~= s.skip(1).take(len - 1));
        assert(s.take(len)[0] == s[0]);
    }
}

/// The namespace name of a stored binding, without the separator.
pub open spec fn unstored_uri(stored: Seq<u8>, sep: u8) -> Seq<u8> {
    if sep != 0 && stored.len() > 0 {
        stored.drop_last()
    } else {
        stored
    }
}

/// Write a list of items as a context string.
pub fn write_context(items: &Vec<ContextItem>) -> (r: Vec<u8>)
    ensures
        r@ == context_string(items@.map_values(|it: ContextItem| it@)),
{
    let ghost all = items@.map_values(|it: ContextItem| it@);
    let mut r: Vec<u8> = Vec::new();
    let mut k = items.len();
    // Build the string from the back: the tail after item k is written.
    while k > 0
        invariant
            k <= items.len(),
            all == items@.map_values(|it: ContextItem| it@),
            k < items.len() ==> r@ == context_string(all.skip(k as int)),
            k == items.len() ==> r@.len() == 0,
        decreases k,
    {
        k = k - 1;
        let mut piece: Vec<u8> = Vec::new();
        match &items[k] {
            ContextItem::DefaultNamespace(u) => {
                piece.push(ASCII_EQUALS);
                append(&mut piece, u.as_slice());
            },
            ContextItem::Prefixed(p, u) => {
                append(&mut piece, p.as_slice());
                piece.push(ASCII_EQUALS);
                append(&mut piece, u.as_slice());
            },
            ContextItem::OpenEntity(n) => {
                append(&mut piece, n.as_slice());
            },
        }
        assert(piece@ =~= item_bytes(all[k as int]));
        if k + 1 < items.len() {
            piece.push(ASCII_FF);
        }
        let ghost tail = r@;
        append(&mut piece, r.as_slice());
        r = piece;
        proof {
            let sk = all.skip(k as int);
            assert(sk[0] == all[k as int]);
            assert(sk.drop_first() =~= all.skip(k + 1));
            if k + 1 < items.len() {
                assert(r@ =~= item_bytes(sk[0]) + seq![ASCII_FF] + context_string(sk.drop_first()));
            } else {
                assert(sk.len() == 1);
                assert(r@ =~= item_bytes(sk[0]));
            }
        }
    }
    if items.len() == 0 {
        assert(all.len() == 0);
    } else {
        assert(all.skip(0) =~= all);
    }
    r
}

/// Append `s` to `v`.
pub fn append(v: &mut Vec<u8>, s: &[u8])
    ensures
        final(v)@ == old(v)@ + s@,
{
    let mut i: usize = 0;
    while i < s.len()
        invariant
            i <= s.len(),
            v@ == old(v)@ + s@.take(i as int),
        decreases s.len() - i,
    {
        v.push(s[i]);
        i = i + 1;
        assert(v@ =~= old(v)@ + s@.take(i as int));
    }
    assert(s@.take(s.len() as int) =~= s@);
}

/// The binding that an item makes, with the prefix by its name.
pub open spec fn item_binding(it: CtxItem, sep: u8) -> Option<(Option<Seq<u8>>, Option<Seq<u8>>)> {
    match it {
        CtxItem::DefaultNamespace(u) => Some(
            (
                None,
                if u.len() == 0 {
                    None
                } else {
                    Some(stored_uri(u, sep))
                },
            ),
        ),
        CtxItem::Prefixed(p, u) => Some(
            (
                Some(p),
                if u.len() == 0 {
                    None
                } else {
                    Some(stored_uri(u, sep))
                },
            ),
        ),
        CtxItem::OpenEntity(_) => None,
    }
}

/// The bindings that a list of items makes, in order.
pub open spec fn context_bindings(items: Seq<CtxItem>, sep: u8) -> Seq<
    (Option<Seq<u8>>, Option<Seq<u8>>),
>
    decreases items.len(),
{
    if items.len() == 0 {
        Seq::empty()
    } else {
        let before = context_bindings(items.drop_last(), sep);
        match item_binding(items.last(), sep) {
            Some(b) => before.push(b),
            None => before,
        }
    }
}

/// Whether the binding an item makes is not allowed.
pub open spec fn item_bad(it: CtxItem, ns: bool, sep: u8) -> bool {
    match it {
        CtxItem::DefaultNamespace(u) => binding_error(None, u, ns, sep) is Some,
        CtxItem::Prefixed(p, u) => binding_error(Some(p), u, ns, sep) is Some,
        CtxItem::OpenEntity(_) => false,
    }
}

/// Whether some binding of the items is not allowed.
pub open spec fn context_has_bad_binding(items: Seq<CtxItem>, ns: bool, sep: u8) -> bool {
    exists|k: int| 0 <= k < items.len() && item_bad(#[trigger] items[k], ns, sep)
}

/// Whether the items name the entity `name`.
pub open spec fn context_opens(items: Seq<CtxItem>, name: Seq<u8>) -> bool {
    exists|k: int| 0 <= k < items.len() && #[trigger] items[k] == CtxItem::OpenEntity(name)
}

/// The bindings of a scope with each prefix given by its name.
pub open spec fn named_bindings(ns: NsScope) -> Seq<(Option<Seq<u8>>, Option<Seq<u8>>)> {
    ns@.map_values(|b: (Option<usize>, Option<Seq<u8>>)| (ns.prefix_name(b.0), b.1))
}

/// The entity table `t` is `before` with the entities named by `items`
/// marked open.
pub open spec fn entities_opened(t: HASH_TABLE<ENTITY>, items: Seq<CtxItem>, before: HASH_TABLE<ENTITY>) -> bool {
    &&& t@.len() == before@.len()
    &&& forall|e: int|
        0 <= e < t@.len() ==> (#[trigger] t@[e]).0 == before@[e].0 && t@[e].1 == with_open(
            before@[e].1,
            before@[e].1.open || context_opens(items, before@[e].0),
        )
}

proof fn lemma_take_step(all: Seq<CtxItem>, i: int, ns: bool, sep: u8)
    requires
        0 <= i < all.len(),
    ensures
        context_has_bad_binding(all.take(i + 1), ns, sep) == (context_has_bad_binding(all.take(i), ns, sep)
            || item_bad(all[i], ns, sep)),
        forall|name: Seq<u8>|
            #[trigger] context_opens(all.take(i + 1), name) == (context_opens(all.take(i), name) || all[i]
                == CtxItem::OpenEntity(name)),
        context_bindings(all.take(i + 1), sep) == match item_binding(all[i], sep) {
            Some(b) => context_bindings(all.take(i), sep).push(b),
            None => context_bindings(all.take(i), sep),
        },
{
    let a = all.take(i + 1);
    let b = all.take(i);
    assert(a.drop_last() =~= b);
    assert(a.last() == all[i]);
    assert forall|k: int| 0 <= k < i implies a[k] == b[k] by {}
    if context_has_bad_binding(a, ns, sep) {
        let k = choose|k: int| 0 <= k < a.len() && item_bad(#[trigger] a[k], ns, sep);
        if k < i {
            assert(b[k] == a[k]);
        }
    }
    if context_has_bad_binding(b, ns, sep) {
        let k = choose|k: int| 0 <= k < b.len() && item_bad(#[trigger] b[k], ns, sep);
        assert(a[k] == b[k]);
    }
    if item_bad(all[i], ns, sep) {
        assert(item_bad(a[i], ns, sep));
    }
    assert forall|name: Seq<u8>| #[trigger] context_opens(a, name) == (context_opens(b, name) || all[i]
        == CtxItem::OpenEntity(name)) by {
        if context_opens(a, name) {
            let k = choose|k: int| 0 <= k < a.len() && #[trigger] a[k] == CtxItem::OpenEntity(name);
            if k < i {
                assert(b[k] == a[k]);
            }
        }
        if context_opens(b, name) {
            let k = choose|k: int| 0 <= k < b.len() && #[trigger] b[k] == CtxItem::OpenEntity(name);
            assert(a[k] == b[k]);
        }
        if all[i] == CtxItem::OpenEntity(name) {
            assert(a[i] == CtxItem::OpenEntity(name));
        }
    }
}

proof fn lemma_named_push(before: NsScope, after: NsScope, b: (Option<usize>, Option<Seq<u8>>))
    requires
        after@ == before@.push(b),
        after.prefix_names() == before.prefix_names(),
    ensures
        named_bindings(after) == named_bindings(before).push((before.prefix_name(b.0), b.1)),
{
    assert(named_bindings(after) =~= named_bindings(before).push((before.prefix_name(b.0), b.1)));
}

proof fn lemma_named_grow(before: NsScope, after: NsScope)
    requires
        before.wf(),
        after@ == before@,
        before.prefix_names().is_prefix_of(after.prefix_names()),
        forall|k: int|
            0 <= k < before@.len() ==> match (#[trigger] before@[k]).0 {
                Some(p) => p < before.prefix_names().len(),
                None => true,
            },
    ensures
        named_bindings(after) == named_bindings(before),
{
    assert forall|k: int| 0 <= k < before@.len() implies #[trigger] named_bindings(after)[k]
        == named_bindings(before)[k] by {
        match before@[k].0 {
            Some(p) => {
                assert(after.prefix_names()[p as int] == before.prefix_names()[p as int]);
            },
            None => {},
        }
    }
    assert(named_bindings(after) =~= named_bindings(before));
}

/// Apply a context string: bind the namespaces it lists and mark the
/// entities it names as open. False when a binding is not allowed (or the
/// prefix table cannot grow); what was applied before then stays.
pub fn setContext(ns: &mut NsScope, entities: &mut HASH_TABLE<ENTITY>, context: &[u8]) -> (r: bool)
    requires
        old(ns).wf(),
        old(entities).wf(),
    ensures
        final(ns).wf(),
        final(entities).wf(),
        final(ns).ns() == old(ns).ns(),
        final(ns).sep() == old(ns).sep(),
        r ==> named_bindings(*final(ns)) == named_bindings(*old(ns)) + context_bindings(
            parse_context(context@),
            old(ns).sep(),
        ),
        r ==> entities_opened(*final(entities), parse_context(context@), *old(entities)),
        r ==> !context_has_bad_binding(parse_context(context@), old(ns).ns(), old(ns).sep()),
        !r ==> context_has_bad_binding(parse_context(context@), old(ns).ns(), old(ns).sep())
            || final(ns).prefix_table().growth_blocked(),
        final(ns).prefix_names().len() <= old(ns).prefix_names().len() + parse_context(context@).len(),
{
    let items = parse_context_string(context);
    let ghost all = parse_context(context@);
    let ghost sep = ns.sep();
    let ghost nsf = ns.ns();
    let mut i: usize = 0;
    assert(all.take(0) =~= Seq::<CtxItem>::empty());
    assert(named_bindings(*ns) + context_bindings(all.take(0), sep) =~= named_bindings(*ns));
    while i < items.len()
        invariant
            ns.wf(),
            entities.wf(),
            ns.ns() == nsf,
            ns.sep() == sep,
            nsf == old(ns).ns(),
            sep == old(ns).sep(),
            i <= items.len(),
            all == items@.map_values(|it: ContextItem| it@),
            all == parse_context(context@),
            named_bindings(*ns) == named_bindings(*old(ns)) + context_bindings(all.take(i as int), sep),
            entities_opened(*entities, all.take(i as int), *old(entities)),
            !context_has_bad_binding(all.take(i as int), nsf, sep),
            ns.prefix_names().len() <= old(ns).prefix_names().len() + i,
        decreases items.len() - i,
    {
        let ghost it = all[i as int];
        assert(items@[i as int]@ == it);
        let ghost before_ns = *ns;
        let ghost before_ent = *entities;
        proof {
            lemma_take_step(all, i as int, nsf, sep);
        }
        match &items[i] {
            ContextItem::OpenEntity(name) => {
                let found = entities.lookup(name.as_slice());
                match found {
                    Some(e) => {
                        let mut ent = entities.take_value(e, ENTITY::empty());
                        ent.open = true;
                        entities.set_value(e, ent);
                    },
                    None => {},
                }
                proof {
                    assert(it == CtxItem::OpenEntity(name@));
                    assert forall|e: int| 0 <= e < entities@.len() implies entities@[e].1 == with_open(
                        before_ent@[e].1,
                        before_ent@[e].1.open || before_ent@[e].0 == name@,
                    ) by {
                        match found {
                            Some(e0) => {
                                if e != e0 as int {
                                    before_ent.lemma_names_distinct(e, e0 as int);
                                }
                            },
                            None => {},
                        }
                    }
                    assert forall|e: int| 0 <= e < entities@.len() implies (#[trigger] entities@[e]).0
                        == old(entities)@[e].0 && entities@[e].1 == with_open(
                        old(entities)@[e].1,
                        old(entities)@[e].1.open || context_opens(all.take(i + 1), old(entities)@[e].0),
                    ) by {
                        assert(before_ent@[e].0 == old(entities)@[e].0);
                        assert(context_opens(all.take(i + 1), old(entities)@[e].0) == (context_opens(
                            all.take(i as int),
                            old(entities)@[e].0,
                        ) || it == CtxItem::OpenEntity(old(entities)@[e].0)));
                    }
                }
            },
            ContextItem::DefaultNamespace(u) => {
                match ns.addBinding(None, u.as_slice()) {
                    Err(_) => {
                        proof {
                            assert(it == CtxItem::DefaultNamespace(u@));
                            assert(item_bad(all[i as int], nsf, sep));
                            assert(context_has_bad_binding(all, nsf, sep));
                        }
                        return false;
                    },
                    Ok(()) => {},
                }
                proof {
                    lemma_named_push(before_ns, *ns, ns@.last());
                    assert(ns@.last() == (None::<usize>, item_binding(it, sep).unwrap().1));
                    assert(named_bindings(*ns) =~= named_bindings(*old(ns)) + context_bindings(
                        all.take(i + 1),
                        sep,
                    ));
                    assert forall|e: int| 0 <= e < entities@.len() implies (#[trigger] entities@[e]).0
                        == old(entities)@[e].0 && entities@[e].1 == with_open(
                        old(entities)@[e].1,
                        old(entities)@[e].1.open || context_opens(all.take(i + 1), old(entities)@[e].0),
                    ) by {
                        assert(context_opens(all.take(i + 1), old(entities)@[e].0) == context_opens(
                            all.take(i as int),
                            old(entities)@[e].0,
                        ));
                    }
                }
            },
            ContextItem::Prefixed(p, u) => {
                let pid = match ns.prefix_id(p.as_slice()) {
                    Some(pid) => pid,
                    None => {
                        return false;
                    },
                };
                let ghost mid_ns = *ns;
                proof {
                    before_ns.lemma_prefixes_known();
                    lemma_named_grow(before_ns, mid_ns);
                }
                match ns.addBinding(Some(pid), u.as_slice()) {
                    Err(_) => {
                        proof {
                            assert(it == CtxItem::Prefixed(p@, u@));
                            assert(mid_ns.prefix_name(Some(pid)) == Some(p@));
                            assert(item_bad(all[i as int], nsf, sep));
                            assert(context_has_bad_binding(all, nsf, sep));
                        }
                        return false;
                    },
                    Ok(()) => {},
                }
                proof {
                    lemma_named_push(mid_ns, *ns, ns@.last());
                    assert(mid_ns.prefix_name(Some(pid)) == Some(p@));
                    assert(named_bindings(*ns) =~= named_bindings(*old(ns)) + context_bindings(
                        all.take(i + 1),
                        sep,
                    ));
                    assert forall|e: int| 0 <= e < entities@.len() implies (#[trigger] entities@[e]).0
                        == old(entities)@[e].0 && entities@[e].1 == with_open(
                        old(entities)@[e].1,
                        old(entities)@[e].1.open || context_opens(all.take(i + 1), old(entities)@[e].0),
                    ) by {
                        assert(context_opens(all.take(i + 1), old(entities)@[e].0) == context_opens(
                            all.take(i as int),
                            old(entities)@[e].0,
                        ));
                    }
                }
            },
        }
        i = i + 1;
    }
    assert(all.take(items.len() as int) =~= all);
    true
}

/// The items for the prefixes bound in a scope, in the order of the
/// prefix table's first `j` slots.
pub open spec fn prefix_items(ns: NsScope, j: int) -> Seq<CtxItem>
    decreases j,
{
    if j <= 0 {
        Seq::empty()
    } else {
        let before = prefix_items(ns, j - 1);
        match ns.prefix_table().slot(j - 1) {
            Some(i) => match binding_of(ns@, Some(i)) {
                Some(u) => before.push(
                    CtxItem::Prefixed(ns.prefix_names()[i as int], unstored_uri(u, ns.sep())),
                ),
                None => before,
            },
            None => before,
        }
    }
}

/// The items for the open entities, in the order of the first `j` slots of
/// the entity table.
pub open spec fn entity_items(t: HASH_TABLE<ENTITY>, j: int) -> Seq<CtxItem>
    decreases j,
{
    if j <= 0 {
        Seq::empty()
    } else {
        let before = entity_items(t, j - 1);
        match t.slot(j - 1) {
            Some(e) => if t@[e as int].1.open {
                before.push(CtxItem::OpenEntity(t@[e as int].0))
            } else {
                before
            },
            None => before,
        }
    }
}

/// The item for the default namespace, if it is bound.
pub open spec fn default_items(ns: NsScope) -> Seq<CtxItem> {
    match binding_of(ns@, None) {
        Some(u) => seq![CtxItem::DefaultNamespace(unstored_uri(u, ns.sep()))],
        None => Seq::empty(),
    }
}

/// The items of the context of a parser: the default namespace, the bound
/// prefixes and the open entities.
pub open spec fn context_items(ns: NsScope, entities: HASH_TABLE<ENTITY>) -> Seq<CtxItem> {
    default_items(ns) + prefix_items(ns, ns.prefix_table().slot_count() as int) + entity_items(
        entities,
        entities.slot_count() as int,
    )
}

proof fn lemma_prefix_items_skip(ns: NsScope, p: int, k: int)
    requires
        0 <= p <= k,
        forall|j: int| p <= j < k ==> (#[trigger] ns.prefix_table().slot(j)) is None,
    ensures
        prefix_items(ns, k) == prefix_items(ns, p),
    decreases k - p,
{
    if k > p {
        lemma_prefix_items_skip(ns, p, k - 1);
        assert(ns.prefix_table().slot(k - 1) is None);
    }
}

proof fn lemma_entity_items_skip(t: HASH_TABLE<ENTITY>, p: int, k: int)
    requires
        0 <= p <= k,
        forall|j: int| p <= j < k ==> (#[trigger] t.slot(j)) is None,
    ensures
        entity_items(t, k) == entity_items(t, p),
    decreases k - p,
{
    if k > p {
        lemma_entity_items_skip(t, p, k - 1);
        assert(t.slot(k - 1) is None);
    }
}

fn unstore(stored: &[u8], sep: u8) -> (r: Vec<u8>)
    ensures
        r@ == unstored_uri(stored@, sep),
{
    if sep != 0 && stored.len() > 0 {
        let r = copy_range(stored, 0, stored.len() - 1);
        assert(r@ =~= stored@.drop_last());
        r
    } else {
        let r = copy_string(stored);
        r
    }
}

/// The context of a parser, for the parser of an external entity.
pub fn getContext(ns: &NsScope, entities: &HASH_TABLE<ENTITY>) -> (r: Vec<u8>)
    requires
        ns.wf(),
        entities.wf(),
    ensures
        r@ == context_string(context_items(*ns, *entities)),
{
    let mut items: Vec<ContextItem> = Vec::new();
    let sep = ns.separator();
    match ns.binding(None) {
        Some(stored) => {
            items.push(ContextItem::DefaultNamespace(unstore(stored, sep)));
        },
        None => {},
    }
    assert(items@.map_values(|it: ContextItem| it@) =~= default_items(*ns));
    let table = ns.prefixes();
    proof {
        table.lemma_slots();
    }
    let mut it = HASH_TABLE_ITER::hashTableIterInit(table);
    loop
        invariant
            ns.wf(),
            table.wf(),
            *table == ns.prefix_table(),
            table@.len() == ns.prefix_names().len(),
            forall|i: int| 0 <= i < table@.len() ==> #[trigger] table@[i].0 == ns.prefix_names()[i],
            sep == ns.sep(),
            it.end == table.slot_count(),
            it.p <= it.end,
            items@.map_values(|x: ContextItem| x@) == default_items(*ns) + prefix_items(*ns, it.p as int),
        ensures
            items@.map_values(|x: ContextItem| x@) == default_items(*ns) + prefix_items(
                *ns,
                ns.prefix_table().slot_count() as int,
            ),
        decreases it.end - it.p,
    {
        let ghost p0 = it.p as int;
        let ghost before = items@.map_values(|x: ContextItem| x@);
        match it.hashTableIterNext(table) {
            None => {
                proof {
                    lemma_prefix_items_skip(*ns, p0, it.end as int);
                }
                break;
            },
            Some(e) => {
                proof {
                    table.lemma_slots();
                    lemma_prefix_items_skip(*ns, p0, table.slot_of(e as int));
                    assert(table.slot(table.slot_of(e as int)) == Some(e));
                }
                match ns.binding(Some(e)) {
                    Some(stored) => {
                        let name = copy_string(table.name(e));
                        items.push(ContextItem::Prefixed(name, unstore(stored, sep)));
                        assert(items@.map_values(|x: ContextItem| x@) =~= before.push(
                            CtxItem::Prefixed(ns.prefix_names()[e as int], unstored_uri(stored@, sep)),
                        ));
                    },
                    None => {},
                }
            },
        }
    }
    proof {
        entities.lemma_slots();
    }
    let ghost prefix_part = items@.map_values(|x: ContextItem| x@);
    let mut it2 = HASH_TABLE_ITER::hashTableIterInit(entities);
    assert(entity_items(*entities, 0) =~= Seq::<CtxItem>::empty());
    loop
        invariant
            entities.wf(),
            it2.end == entities.slot_count(),
            it2.p <= it2.end,
            items@.map_values(|x: ContextItem| x@) == prefix_part + entity_items(*entities, it2.p as int),
        ensures
            items@.map_values(|x: ContextItem| x@) == prefix_part + entity_items(
                *entities,
                entities.slot_count() as int,
            ),
        decreases it2.end - it2.p,
    {
        let ghost p0 = it2.p as int;
        let ghost before = items@.map_values(|x: ContextItem| x@);
        match it2.hashTableIterNext(entities) {
            None => {
                proof {
                    lemma_entity_items_skip(*entities, p0, it2.end as int);
                }
                break;
            },
            Some(e) => {
                proof {
                    entities.lemma_slots();
                    lemma_entity_items_skip(*entities, p0, entities.slot_of(e as int));
                    assert(entities.slot(entities.slot_of(e as int)) == Some(e));
                }
                if entities.value(e).open {
                    let name = copy_string(entities.name(e));
                    items.push(ContextItem::OpenEntity(name));
                    assert(items@.map_values(|x: ContextItem| x@) =~= before.push(
                        CtxItem::OpenEntity(entities@[e as int].0),
                    ));
                }
            },
        }
    }
    assert(items@.map_values(|x: ContextItem| x@) =~= context_items(*ns, *entities));
    write_context(&items)
}

/// What `getContext` writes of a scope and an entity table, `setContext`
/// reads back item for item: the default namespace, each bound prefix with
/// its namespace name, and each open entity, when no name or namespace name
/// holds a byte that the context string uses as a delimiter. Applied to a
/// parser, `setContext` then binds `context_bindings` of those items.
pub proof fn lemma_get_set_context(ns: NsScope, entities: HASH_TABLE<ENTITY>)
    requires
        ns.wf(),
        entities.wf(),
        forall|i: int|
            0 <= i < context_items(ns, entities).len() ==> item_writable(#[trigger] context_items(ns, entities)[i]),
    ensures
        parse_context(context_string(context_items(ns, entities))) == context_items(ns, entities),
{
    lemma_context_roundtrip(context_items(ns, entities));
}

/// The namespace name that a list of bindings by name gives the prefix
/// named `name` (`None`: the default namespace): that of the latest binding
/// for it, `None` when there is none or it undeclares the name.
pub open spec fn named_binding_of(bs: Seq<(Option<Seq<u8>>, Option<Seq<u8>>)>, name: Option<Seq<u8>>) -> Option<
    Seq<u8>,
>
    decreases bs.len(),
{
    if bs.len() == 0 {
        None
    } else if bs.last().0 == name {
        bs.last().1
    } else {
        named_binding_of(bs.drop_last(), name)
    }
}

/// Whether a list of bindings binds the prefix named `name`.
pub open spec fn names_bound(bs: Seq<(Option<Seq<u8>>, Option<Seq<u8>>)>, name: Option<Seq<u8>>) -> bool {
    exists|k: int| 0 <= k < bs.len() && #[trigger] bs[k].0 == name
}

proof fn lemma_named_append(
    x: Seq<(Option<Seq<u8>>, Option<Seq<u8>>)>,
    y: Seq<(Option<Seq<u8>>, Option<Seq<u8>>)>,
    name: Option<Seq<u8>>,
)
    ensures
        named_binding_of(x + y, name) == if names_bound(y, name) {
            named_binding_of(y, name)
        } else {
            named_binding_of(x, name)
        },
    decreases y.len(),
{
    if y.len() == 0 {
        assert(x + y =~= x);
    } else {
        assert((x + y).drop_last() =~= x + y.drop_last());
        assert((x + y).last() == y.last());
        lemma_named_append(x, y.drop_last(), name);
        if y.last().0 != name {
            assert(names_bound(y, name) == names_bound(y.drop_last(), name)) by {
                if names_bound(y, name) {
                    let k = choose|k: int| 0 <= k < y.len() && #[trigger] y[k].0 == name;
                    assert(y.drop_last()[k].0 == name);
                }
                if names_bound(y.drop_last(), name) {
                    let k = choose|k: int| 0 <= k < y.drop_last().len() && #[trigger] y.drop_last()[k].0 == name;
                    assert(y[k].0 == name);
                }
            }
        } else {
            assert(y[y.len() - 1].0 == name);
        }
    }
}

proof fn lemma_context_bindings_append(a: Seq<CtxItem>, b: Seq<CtxItem>, sep: u8)
    ensures
        context_bindings(a + b, sep) == context_bindings(a, sep) + context_bindings(b, sep),
    decreases b.len(),
{
    if b.len() == 0 {
        assert(a + b =~= a);
        assert(context_bindings(a, sep) + context_bindings(b, sep) =~= context_bindings(a, sep));
    } else {
        assert((a + b).drop_last() =~= a + b.drop_last());
        assert((a + b).last() == b.last());
        lemma_context_bindings_append(a, b.drop_last(), sep);
        match item_binding(b.last(), sep) {
            Some(x) => {
                assert(context_bindings(a, sep) + context_bindings(b.drop_last(), sep).push(x) =~= (context_bindings(
                    a,
                    sep,
                ) + context_bindings(b.drop_last(), sep)).push(x));
            },
            None => {},
        }
    }
}

proof fn lemma_entity_items_bind_nothing(t: HASH_TABLE<ENTITY>, j: int, sep: u8)
    ensures
        context_bindings(entity_items(t, j), sep) == Seq::<(Option<Seq<u8>>, Option<Seq<u8>>)>::empty(),
    decreases j,
{
    if j > 0 {
        lemma_entity_items_bind_nothing(t, j - 1, sep);
        match t.slot(j - 1) {
            Some(e) => if t@[e as int].1.open {
                let it = entity_items(t, j - 1).push(CtxItem::OpenEntity(t@[e as int].0));
                assert(it.drop_last() =~= entity_items(t, j - 1));
            },
            None => {},
        }
    }
}

/// A stored name read back as an item and bound again is the same stored
/// name.
proof fn lemma_restore_uri(u: Seq<u8>, sep: u8)
    requires
        well_stored(u, sep),
    ensures
        unstored_uri(u, sep).len() > 0,
        stored_uri(unstored_uri(u, sep), sep) == u,
{
    if sep != 0 {
        assert(u.drop_last().push(sep) =~= u);
    }
}

proof fn lemma_binding_of_stored(stack: Seq<(Option<usize>, Option<Seq<u8>>)>, prefix: Option<usize>, sep: u8)
    requires
        forall|k: int| 0 <= k < stack.len() ==> ((#[trigger] stack[k]).1 matches Some(u) ==> well_stored(u, sep)),
    ensures
        binding_of(stack, prefix) matches Some(u) ==> well_stored(u, sep),
    decreases stack.len(),
{
    if stack.len() > 0 {
        assert(stack.last() == stack[stack.len() - 1]);
        lemma_binding_of_stored(stack.drop_last(), prefix, sep);
    }
}

/// The bindings that the items of the prefixes in the first `j` slots make:
/// the prefix `i` is bound, by its name, to what it is bound to in `ns`
/// once its slot is among them, and the default namespace not at all.
proof fn lemma_prefix_items_bindings(ns: NsScope, j: int, i: int)
    requires
        ns.wf(),
        0 <= j <= ns.prefix_table().slot_count(),
        0 <= i < ns.prefix_names().len(),
    ensures
        !names_bound(context_bindings(prefix_items(ns, j), ns.sep()), None),
        named_binding_of(context_bindings(prefix_items(ns, j), ns.sep()), Some(ns.prefix_names()[i])) == if ns.prefix_table().slot_of(i) < j {
            binding_of(ns@, Some(i as usize))
        } else {
            None
        },
        names_bound(context_bindings(prefix_items(ns, j), ns.sep()), Some(ns.prefix_names()[i])) ==> ns.prefix_table().slot_of(i) < j && binding_of(ns@, Some(i as usize)) is Some,
    decreases j,
{
    let t = ns.prefix_table();
    ns.lemma_prefix_count();
    t.lemma_slots();
    ns.lemma_bound_well_stored();
    let sep = ns.sep();
    if j == 0 {
        assert(context_bindings(prefix_items(ns, 0), sep) =~= Seq::<(Option<Seq<u8>>, Option<Seq<u8>>)>::empty());
    } else {
        lemma_prefix_items_bindings(ns, j - 1, i);
        let before = prefix_items(ns, j - 1);
        let cb0 = context_bindings(before, sep);
        match t.slot(j - 1) {
            Some(i2) => match binding_of(ns@, Some(i2)) {
                Some(u) => {
                    let it = CtxItem::Prefixed(ns.prefix_names()[i2 as int], unstored_uri(u, sep));
                    let items = before.push(it);
                    assert(items.drop_last() =~= before);
                    assert(items.last() == it);
                    lemma_binding_of_stored(ns@, Some(i2), sep);
                    lemma_restore_uri(u, sep);
                    let b = (Some(ns.prefix_names()[i2 as int]), Some(u));
                    assert(item_binding(it, sep) == Some(b));
                    let cb = cb0.push(b);
                    assert(context_bindings(items, sep) == cb);
                    assert(cb.drop_last() =~= cb0);
                    assert forall|k: int| 0 <= k < cb.len() && #[trigger] cb[k].0 == None::<Seq<u8>> implies false by {
                        if k < cb0.len() {
                            assert(cb0[k] == cb[k]);
                        }
                    }
                    if i2 as int == i {
                        assert(t.slot_of(i) == j - 1);
                        assert(names_bound(cb, Some(ns.prefix_names()[i]))) by {
                            assert(cb[cb.len() - 1].0 == Some(ns.prefix_names()[i]));
                        }
                    } else {
                        t.lemma_names_distinct(i, i2 as int);
                        assert(ns.prefix_names()[i] != ns.prefix_names()[i2 as int]);
                        t.lemma_load();
                        if t.slot_of(i) == j - 1 {
                            assert(t.slot(j - 1) == Some(i as usize));
                            assert(i2 == i as usize);
                            assert(false);
                        }
                        if names_bound(cb, Some(ns.prefix_names()[i])) {
                            let k = choose|k: int| 0 <= k < cb.len() && #[trigger] cb[k].0 == Some(ns.prefix_names()[i]);
                            assert(k < cb0.len());
                            assert(cb0[k] == cb[k]);
                            assert(names_bound(cb0, Some(ns.prefix_names()[i])));
                        }
                    }
                },
                None => {
                    if i2 as int == i {
                        assert(t.slot_of(i) == j - 1);
                    }
                },
            },
            None => {
                assert(t.slot(t.slot_of(i)) == Some(i as usize));
                assert(t.slot_of(i) != j - 1);
            },
        }
    }
}

/// The context of a parser gives each prefix, and the default namespace,
/// the namespace name it is bound to: what the bindings of `context_items`
/// give a prefix by its name is what the scope binds it to.
pub proof fn lemma_context_items_bindings(ns: NsScope, entities: HASH_TABLE<ENTITY>, prefix: Option<usize>)
    requires
        ns.wf(),
        prefix matches Some(i) ==> i < ns.prefix_names().len(),
    ensures
        named_binding_of(context_bindings(context_items(ns, entities), ns.sep()), ns.prefix_name(prefix)) == binding_of(
            ns@,
            prefix,
        ),
{
    let sep = ns.sep();
    let d = default_items(ns);
    let pi = prefix_items(ns, ns.prefix_table().slot_count() as int);
    let ei = entity_items(entities, entities.slot_count() as int);
    assert(context_items(ns, entities) == d + pi + ei);
    lemma_context_bindings_append(d + pi, ei, sep);
    lemma_context_bindings_append(d, pi, sep);
    lemma_entity_items_bind_nothing(entities, entities.slot_count() as int, sep);
    assert(context_bindings(d + pi, sep) + context_bindings(ei, sep) =~= context_bindings(d + pi, sep));
    lemma_named_append(context_bindings(d, sep), context_bindings(pi, sep), ns.prefix_name(prefix));
    ns.lemma_bound_well_stored();
    lemma_binding_of_stored(ns@, None, sep);
    let cbd = context_bindings(d, sep);
    match binding_of(ns@, None) {
        Some(u) => {
            lemma_restore_uri(u, sep);
            assert(d.drop_last() =~= Seq::<CtxItem>::empty());
            assert(cbd == seq![(None::<Seq<u8>>, Some(u))]) by {
                assert(context_bindings(d.drop_last(), sep) =~= Seq::<(Option<Seq<u8>>, Option<Seq<u8>>)>::empty());
                assert(Seq::<(Option<Seq<u8>>, Option<Seq<u8>>)>::empty().push((None::<Seq<u8>>, Some(u))) =~= seq![(None::<Seq<u8>>, Some(u))]);
            }
            assert(cbd.drop_last() =~= Seq::<(Option<Seq<u8>>, Option<Seq<u8>>)>::empty());
        },
        None => {
            assert(cbd =~= Seq::<(Option<Seq<u8>>, Option<Seq<u8>>)>::empty());
        },
    }
    match prefix {
        None => {
            if ns.prefix_names().len() > 0 {
                lemma_prefix_items_bindings(ns, ns.prefix_table().slot_count() as int, 0);
            } else {
                lemma_prefix_items_none(ns, ns.prefix_table().slot_count() as int);
                assert(context_bindings(pi, sep) =~= Seq::<(Option<Seq<u8>>, Option<Seq<u8>>)>::empty());
            }
            assert(!names_bound(context_bindings(pi, sep), None));
            let full = context_bindings(context_items(ns, entities), sep);
            assert(full == context_bindings(d, sep) + context_bindings(pi, sep));
            assert(ns.prefix_name(prefix) == None::<Seq<u8>>);
            assert(named_binding_of(full, None) == named_binding_of(cbd, None));
            match binding_of(ns@, None) {
                Some(u) => {
                    assert(cbd.last() == (None::<Seq<u8>>, Some(u)));
                    assert(named_binding_of(cbd, None) == Some(u));
                },
                None => {
                    assert(named_binding_of(cbd, None) is None);
                },
            }
            assert(named_binding_of(full, None) == binding_of(ns@, None));
            assert(named_binding_of(context_bindings(context_items(ns, entities), ns.sep()), ns.prefix_name(prefix))
                == binding_of(ns@, prefix));
        },
        Some(i) => {
            lemma_prefix_items_bindings(ns, ns.prefix_table().slot_count() as int, i as int);
            ns.lemma_prefix_count();
            ns.prefix_table().lemma_slots();
            let cbp = context_bindings(pi, sep);
            if !names_bound(cbp, Some(ns.prefix_names()[i as int])) {
                assert(binding_of(ns@, Some(i)) is None) by {
                    assert(ns.prefix_table().slot_of(i as int) < ns.prefix_table().slot_count());
                    if binding_of(ns@, Some(i)) is Some {
                        lemma_named_nonempty(cbp, Some(ns.prefix_names()[i as int]));
                    }
                }
                match binding_of(ns@, None) {
                    Some(u) => {
                        assert(cbd.last().0 != Some(ns.prefix_names()[i as int]));
                        assert(named_binding_of(cbd.drop_last(), Some(ns.prefix_names()[i as int])) is None);
                    },
                    None => {},
                }
                assert(named_binding_of(cbd, Some(ns.prefix_names()[i as int])) is None);
            } else {
                assert(ns.prefix_table().slot_of(i as int) < ns.prefix_table().slot_count());
            }
            let full = context_bindings(context_items(ns, entities), sep);
            assert(full == cbd + cbp);
            assert(ns.prefix_name(prefix) == Some(ns.prefix_names()[i as int]));
            assert(named_binding_of(full, ns.prefix_name(prefix)) == binding_of(ns@, prefix));
        },
    }
}

proof fn lemma_named_nonempty(bs: Seq<(Option<Seq<u8>>, Option<Seq<u8>>)>, name: Option<Seq<u8>>)
    ensures
        named_binding_of(bs, name) is Some ==> names_bound(bs, name),
    decreases bs.len(),
{
    if bs.len() > 0 {
        lemma_named_nonempty(bs.drop_last(), name);
        if bs.last().0 == name {
            assert(bs[bs.len() - 1].0 == name);
        } else if named_binding_of(bs.drop_last(), name) is Some {
            let k = choose|k: int| 0 <= k < bs.drop_last().len() && #[trigger] bs.drop_last()[k].0 == name;
            assert(bs[k].0 == name);
        }
    }
}

proof fn lemma_prefix_items_none(ns: NsScope, j: int)
    requires
        ns.wf(),
        ns.prefix_names().len() == 0,
        0 <= j <= ns.prefix_table().slot_count(),
    ensures
        prefix_items(ns, j) == Seq::<CtxItem>::empty(),
    decreases j,
{
    ns.lemma_prefix_count();
    ns.prefix_table().lemma_slots();
    if j > 0 {
        lemma_prefix_items_none(ns, j - 1);
        assert(ns.prefix_table().slot(j - 1) is None);
    }
}

proof fn lemma_named_matches_index(ns: NsScope, prefix: Option<usize>, k: int)
    requires
        ns.wf(),
        0 <= k <= ns@.len(),
        prefix matches Some(i) ==> i < ns.prefix_names().len(),
    ensures
        named_binding_of(named_bindings(ns).take(k), ns.prefix_name(prefix)) == binding_of(ns@.take(k), prefix),
    decreases k,
{
    ns.lemma_prefixes_known();
    ns.lemma_prefix_count();
    if k == 0 {
        assert(named_bindings(ns).take(0) =~= Seq::<(Option<Seq<u8>>, Option<Seq<u8>>)>::empty());
    } else {
        lemma_named_matches_index(ns, prefix, k - 1);
        let nb = named_bindings(ns).take(k);
        let st = ns@.take(k);
        assert(nb.drop_last() =~= named_bindings(ns).take(k - 1));
        assert(st.drop_last() =~= ns@.take(k - 1));
        let b = ns@[k - 1];
        assert(st.last() == b);
        assert(nb.last() == (ns.prefix_name(b.0), b.1));
        match (b.0, prefix) {
            (Some(a), Some(c)) => {
                if a != c {
                    ns.prefix_table().lemma_names_distinct(a as int, c as int);
                }
            },
            _ => {},
        }
    }
}

/// What the bindings of a scope give a prefix by its name is what the scope
/// binds the prefix to.
pub proof fn lemma_named_bindings_of(ns: NsScope, prefix: Option<usize>)
    requires
        ns.wf(),
        prefix matches Some(i) ==> i < ns.prefix_names().len(),
    ensures
        named_binding_of(named_bindings(ns), ns.prefix_name(prefix)) == binding_of(ns@, prefix),
{
    lemma_named_matches_index(ns, prefix, ns@.len() as int);
    assert(named_bindings(ns).take(ns@.len() as int) =~= named_bindings(ns));
    assert(ns@.take(ns@.len() as int) =~= ns@);
}

/// The round trip of a context: a parser whose scope `after` held no
/// bindings before (`before`) and then applied, as `setContext` does when
/// it succeeds, the context string that `getContext` wrote of the scope `q`
/// and the entities `qe` (with the same separator) binds each prefix of `q`
/// by its name, and the default namespace, as `q` does; this holds when no
/// name or namespace name of the context holds a byte that the string uses
/// as a delimiter.
pub proof fn lemma_context_round_trip(
    q: NsScope,
    qe: HASH_TABLE<ENTITY>,
    before: NsScope,
    after: NsScope,
    prefix: Option<usize>,
)
    requires
        q.wf(),
        qe.wf(),
        forall|i: int| 0 <= i < context_items(q, qe).len() ==> item_writable(#[trigger] context_items(q, qe)[i]),
        prefix matches Some(i) ==> i < q.prefix_names().len(),
        before@.len() == 0,
        before.sep() == q.sep(),
        named_bindings(after) == named_bindings(before) + context_bindings(
            parse_context(context_string(context_items(q, qe))),
            before.sep(),
        ),
    ensures
        named_binding_of(named_bindings(after), q.prefix_name(prefix)) == binding_of(q@, prefix),
{
    lemma_get_set_context(q, qe);
    lemma_context_items_bindings(q, qe, prefix);
    assert(named_bindings(before) =~= Seq::<(Option<Seq<u8>>, Option<Seq<u8>>)>::empty());
    assert(named_bindings(after) =~= context_bindings(context_items(q, qe), q.sep()));
}

proof fn lemma_entity_items_open(t: HASH_TABLE<ENTITY>, e: int, j: int)
    requires
        t.wf(),
        0 <= e < t@.len(),
        t@[e].1.open,
        t.slot_of(e) < j <= t.slot_count(),
    ensures
        exists|k: int| 0 <= k < entity_items(t, j).len() && #[trigger] entity_items(t, j)[k] == CtxItem::OpenEntity(t@[e].0),
    decreases j,
{
    t.lemma_slots();
    t.lemma_load();
    let before = entity_items(t, j - 1);
    if t.slot_of(e) == j - 1 {
        assert(t.slot(j - 1) == Some(e as usize));
        let it = before.push(CtxItem::OpenEntity(t@[e].0));
        assert(entity_items(t, j) == it);
        assert(it[before.len() as int] == CtxItem::OpenEntity(t@[e].0));
    } else {
        lemma_entity_items_open(t, e, j - 1);
        let k = choose|k: int| 0 <= k < before.len() && #[trigger] before[k] == CtxItem::OpenEntity(t@[e].0);
        match t.slot(j - 1) {
            Some(e2) => if t@[e2 as int].1.open {
                assert(entity_items(t, j)[k] == before[k]);
            } else {
            },
            None => {},
        }
        assert(entity_items(t, j)[k] == CtxItem::OpenEntity(t@[e].0));
    }
}

/// The round trip of a context opens the entities: an entity open in the
/// entity table `qe` is named by the context that `getContext` writes, so a
/// parser that applied that context, as `setContext` does, has the entity
/// of that name open; this holds when no name or namespace name of the
/// context holds a delimiter byte.
pub proof fn lemma_context_round_trip_entities(
    q: NsScope,
    qe: HASH_TABLE<ENTITY>,
    pe_before: HASH_TABLE<ENTITY>,
    pe_after: HASH_TABLE<ENTITY>,
    e: int,
    e2: int,
)
    requires
        q.wf(),
        qe.wf(),
        forall|i: int| 0 <= i < context_items(q, qe).len() ==> item_writable(#[trigger] context_items(q, qe)[i]),
        0 <= e < qe@.len(),
        qe@[e].1.open,
        entities_opened(pe_after, parse_context(context_string(context_items(q, qe))), pe_before),
        0 <= e2 < pe_after@.len(),
        pe_after@[e2].0 == qe@[e].0,
    ensures
        pe_after@[e2].1.open,
{
    lemma_get_set_context(q, qe);
    qe.lemma_slots();
    lemma_entity_items_open(qe, e, qe.slot_count() as int);
    let d = default_items(q);
    let pi = prefix_items(q, q.prefix_table().slot_count() as int);
    let ei = entity_items(qe, qe.slot_count() as int);
    let items = context_items(q, qe);
    assert(items == d + pi + ei);
    let k = choose|k: int| 0 <= k < ei.len() && #[trigger] ei[k] == CtxItem::OpenEntity(qe@[e].0);
    assert(items[d.len() + pi.len() + k] == ei[k]);
    assert(context_opens(items, qe@[e].0));
}

} // verus!
