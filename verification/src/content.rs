//! Element content models: the scaffold that the DTD's element declarations
//! build node by node, and the tree of `XML_Content` nodes that is handed to
//! the application, with the children of each node side by side.
use vstd::prelude::*;
use crate::hashtable::copy_string;

verus! {

/// The largest `int` of the C interface.
pub const SCAFFOLD_INT_MAX: i32 = 0x7fff_ffff;

/// What a content-model node is.
#[derive(PartialEq, Eq, Structural, Clone, Copy, Debug)]
#[allow(non_camel_case_types)]
pub enum XML_Content_Type {
    XML_CTYPE_EMPTY,
    XML_CTYPE_ANY,
    XML_CTYPE_MIXED,
    XML_CTYPE_NAME,
    XML_CTYPE_CHOICE,
    XML_CTYPE_SEQ,
}

/// How often a content-model node may occur.
#[derive(PartialEq, Eq, Structural, Clone, Copy, Debug)]
#[allow(non_camel_case_types)]
pub enum XML_Content_Quant {
    XML_CQUANT_NONE,
    XML_CQUANT_OPT,
    XML_CQUANT_REP,
    XML_CQUANT_PLUS,
}

/// A node of the scaffold. Children are linked: the first and last child,
/// their count, and from each child to its next sibling; index 0 (the root)
/// stands for "none".
#[allow(non_camel_case_types)]
pub struct CONTENT_SCAFFOLD {
    pub type_0: XML_Content_Type,
    pub quant: XML_Content_Quant,
    pub name: Vec<u8>,
    pub firstchild: i32,
    pub lastchild: i32,
    pub childcnt: i32,
    pub nextsib: i32,
}

/// A node of a content model. The children of a node are the `numchildren`
/// nodes from index `children` on, in the vector that holds the model.
#[allow(non_camel_case_types)]
pub struct XML_cp {
    pub type_0: XML_Content_Type,
    pub quant: XML_Content_Quant,
    pub name: Option<Vec<u8>>,
    pub numchildren: u32,
    pub children: usize,
}

/// The content model node type under its interface name.
#[allow(non_camel_case_types)]
pub type XML_Content = XML_cp;

/// The scaffold of the content model being declared, and the stack of the
/// groups open in it (`scaffIndex[..scaffLevel]`).
pub struct ContentScaffold {
    pub scaffold: Vec<CONTENT_SCAFFOLD>,
    pub scaffIndex: Vec<i32>,
    pub scaffLevel: i32,
}

/// The links of every node lead to nodes of the scaffold.
pub open spec fn links_in_range(s: Seq<CONTENT_SCAFFOLD>) -> bool {
    forall|i: int|
        0 <= i < s.len() ==> {
            let n = #[trigger] s[i];
            &&& 0 <= n.firstchild < s.len()
            &&& 0 <= n.lastchild < s.len()
            &&& 0 <= n.nextsib < s.len()
            &&& 0 <= n.childcnt
        }
}

/// The `k`-th node of the sibling chain that starts at `first`.
pub open spec fn nth_child(s: Seq<CONTENT_SCAFFOLD>, first: int, k: nat) -> int
    decreases k,
{
    if k == 0 {
        first
    } else {
        s[nth_child(s, first, (k - 1) as nat)].nextsib as int
    }
}

/// The children of node `n`, in order: none for a name, else the first
/// `childcnt` nodes of its sibling chain.
pub open spec fn children_of(s: Seq<CONTENT_SCAFFOLD>, n: int) -> Seq<int> {
    if s[n].type_0 == XML_Content_Type::XML_CTYPE_NAME {
        Seq::empty()
    } else {
        Seq::new(s[n].childcnt as nat, |k: int| nth_child(s, s[n].firstchild as int, k as nat))
    }
}

/// The scaffold nodes of the model in the order they are laid out, once the
/// first `d` of them have placed their children: the root, then the
/// children of each placed node after those of the nodes before it.
pub open spec fn layout(s: Seq<CONTENT_SCAFFOLD>, d: nat) -> Seq<int>
    decreases d,
{
    if d == 0 {
        seq![0int]
    } else {
        let prev = layout(s, (d - 1) as nat);
        if d - 1 < prev.len() {
            prev + children_of(s, prev[d - 1])
        } else {
            prev
        }
    }
}

/// Whether the scaffold lays out as a model of exactly its nodes: every
/// slot gets a node before it is reached, and no more nodes are placed than
/// there are slots.
pub open spec fn layout_fits(s: Seq<CONTENT_SCAFFOLD>) -> bool {
    &&& forall|d: nat| d < s.len() ==> d < #[trigger] layout(s, d).len()
    &&& layout(s, s.len()).len() <= s.len()
}

/// Node `m` of a model describes scaffold node `n`, its children being laid
/// out from `start` on.
pub open spec fn describes(m: XML_cp, n: CONTENT_SCAFFOLD, start: int) -> bool {
    &&& m.type_0 == n.type_0
    &&& m.quant == n.quant
    &&& if n.type_0 == XML_Content_Type::XML_CTYPE_NAME {
        m.name.is_some() && m.name.unwrap()@ == n.name@ && m.numchildren == 0 && m.children == 0
    } else {
        m.name.is_none() && m.numchildren == n.childcnt && m.children == start
    }
}

/// `m` is the content model of the scaffold `s`: node `d` describes the
/// `d`-th node of the layout, its children laid out after those of the
/// nodes before it.
pub open spec fn is_model_of(m: Seq<XML_cp>, s: Seq<CONTENT_SCAFFOLD>) -> bool {
    &&& m.len() == s.len()
    &&& forall|d: int|
        0 <= d < m.len() ==> describes(
            #[trigger] m[d],
            s[layout(s, d as nat)[d]],
            layout(s, d as nat).len() as int,
        )
}

/// A layout only grows: the layout after `a` nodes is a prefix of the one
/// after `b >= a` nodes.
pub proof fn lemma_layout_prefix(s: Seq<CONTENT_SCAFFOLD>, a: nat, b: nat)
    requires
        a <= b,
    ensures
        layout(s, a).len() <= layout(s, b).len(),
        layout(s, b).take(layout(s, a).len() as int) == layout(s, a),
    decreases b,
{
    if a < b {
        lemma_layout_prefix(s, a, (b - 1) as nat);
        let prev = layout(s, (b - 1) as nat);
        assert(layout(s, b).take(prev.len() as int) =~= prev);
        assert(layout(s, b).take(layout(s, a).len() as int) =~= layout(s, a));
    } else {
        assert(layout(s, b).take(layout(s, a).len() as int) =~= layout(s, a));
    }
}

/// The nodes placed lie in the scaffold.
proof fn lemma_layout_in_range(s: Seq<CONTENT_SCAFFOLD>, d: nat)
    requires
        links_in_range(s),
        s.len() > 0,
    ensures
        forall|k: int| 0 <= k < layout(s, d).len() ==> 0 <= #[trigger] layout(s, d)[k] < s.len(),
    decreases d,
{
    if d > 0 {
        lemma_layout_in_range(s, (d - 1) as nat);
        let prev = layout(s, (d - 1) as nat);
        if d - 1 < prev.len() {
            let n = prev[d - 1];
            assert forall|k: int| 0 <= k < children_of(s, n).len() implies 0 <= #[trigger] children_of(s, n)[k]
                < s.len() by {
                lemma_nth_child_in_range(s, s[n].firstchild as int, k as nat);
            }
        }
    }
}

/// A sibling chain from a node of the scaffold stays in the scaffold.
proof fn lemma_nth_child_in_range(s: Seq<CONTENT_SCAFFOLD>, first: int, k: nat)
    requires
        links_in_range(s),
        0 <= first < s.len(),
    ensures
        0 <= nth_child(s, first, k) < s.len(),
    decreases k,
{
    if k > 0 {
        lemma_nth_child_in_range(s, first, (k - 1) as nat);
        let p = nth_child(s, first, (k - 1) as nat);
        assert(0 <= s[p].nextsib < s.len());
    }
}

/// Build the content model of a scaffold: node `d` of the model describes
/// the `d`-th node of its layout, and its children are laid out after those
/// of the nodes before it. `None` when the scaffold does not lay out as a
/// model of exactly its nodes.
pub fn build_model(scaffold: &Vec<CONTENT_SCAFFOLD>) -> (r: Option<Vec<XML_cp>>)
    requires
        scaffold.len() > 0,
        links_in_range(scaffold@),
    ensures
        r.is_some() == layout_fits(scaffold@),
        r.is_some() ==> is_model_of(r.unwrap()@, scaffold@),
{
    let count: usize = scaffold.len();
    let mut src: Vec<usize> = Vec::new();
    src.push(0);
    let mut out: Vec<XML_cp> = Vec::new();
    let mut d: usize = 0;
    proof {
        assert(src@.map_values(|v: usize| v as int) =~= layout(scaffold@, 0));
    }
    while d < count
        invariant
            count == scaffold.len(),
            count > 0,
            links_in_range(scaffold@),
            d <= count,
            out.len() == d,
            src.len() <= count,
            src@.map_values(|v: usize| v as int) == layout(scaffold@, d as nat),
            forall|e: nat| e < d ==> e < #[trigger] layout(scaffold@, e).len(),
            forall|e: int|
                0 <= e < d ==> describes(
                    #[trigger] out@[e],
                    scaffold@[layout(scaffold@, e as nat)[e]],
                    layout(scaffold@, e as nat).len() as int,
                ),
        decreases count - d,
    {
        proof {
            lemma_layout_in_range(scaffold@, d as nat);
        }
        if d >= src.len() {
            proof {
                assert(!(d < layout(scaffold@, d as nat).len()));
            }
            return None;
        }
        let n: usize = src[d];
        assert(layout(scaffold@, d as nat)[d as int] == n);
        let node = &scaffold[n];
        let ghost before = src@;
        let start: usize = src.len();
        if node.type_0 == XML_Content_Type::XML_CTYPE_NAME {
            out.push(
                XML_cp {
                    type_0: node.type_0,
                    quant: node.quant,
                    name: Some(copy_string(node.name.as_slice())),
                    numchildren: 0,
                    children: 0,
                },
            );
            proof {
                assert(children_of(scaffold@, n as int) =~= Seq::<int>::empty());
                assert(src@.map_values(|v: usize| v as int) =~= layout(scaffold@, (d + 1) as nat));
            }
        } else {
            let cnt: i32 = node.childcnt;
            let mut i: i32 = 0;
            let mut cn: i32 = node.firstchild;
            while i < cnt
                invariant
                    count == scaffold.len(),
                    links_in_range(scaffold@),
                    0 <= n < count,
                    cnt == scaffold@[n as int].childcnt,
                    0 <= i <= cnt,
                    0 <= cn < count,
                    cn == nth_child(scaffold@, scaffold@[n as int].firstchild as int, i as nat),
                    start == before.len(),
                    scaffold@[n as int].type_0 != XML_Content_Type::XML_CTYPE_NAME,
                    before.map_values(|v: usize| v as int) == layout(scaffold@, d as nat),
                    d < before.len(),
                    d < count,
                    layout(scaffold@, d as nat)[d as int] == n as int,
                    src.len() <= count,
                    src@.map_values(|v: usize| v as int) == before.map_values(|v: usize| v as int) + Seq::new(
                        i as nat,
                        |k: int| nth_child(scaffold@, scaffold@[n as int].firstchild as int, k as nat),
                    ),
                decreases cnt - i,
            {
                if src.len() >= count {
                    proof {
                        let lay = layout(scaffold@, (d + 1) as nat);
                        assert(lay.len() > count) by {
                            let prev = layout(scaffold@, d as nat);
                            assert(prev.len() == before.len());
                            assert(lay == prev + children_of(scaffold@, prev[d as int]));
                            assert(children_of(scaffold@, n as int).len() == cnt);
                            assert(src@.map_values(|v: usize| v as int).len() == src.len());
                        }
                        lemma_layout_prefix(scaffold@, (d + 1) as nat, count as nat);
                    }
                    return None;
                }
                let ghost prev = src@;
                src.push(cn as usize);
                proof {
                    let f = scaffold@[n as int].firstchild as int;
                    let old_part = Seq::new(i as nat, |k: int| nth_child(scaffold@, f, k as nat));
                    let new_part = Seq::new((i + 1) as nat, |k: int| nth_child(scaffold@, f, k as nat));
                    assert(new_part =~= old_part.push(cn as int));
                    assert(src@ =~= prev.push(cn as usize));
                    assert(src@.map_values(|v: usize| v as int) =~= prev.map_values(|v: usize| v as int).push(
                        cn as int,
                    ));
                    assert(before.map_values(|v: usize| v as int) + new_part =~= (before.map_values(
                        |v: usize| v as int,
                    ) + old_part).push(cn as int));
                }
                cn = scaffold[cn as usize].nextsib;
                i = i + 1;
            }
            out.push(
                XML_cp {
                    type_0: node.type_0,
                    quant: node.quant,
                    name: None,
                    numchildren: cnt as u32,
                    children: start,
                },
            );
            proof {
                assert(children_of(scaffold@, n as int) =~= Seq::new(
                    cnt as nat,
                    |k: int| nth_child(scaffold@, scaffold@[n as int].firstchild as int, k as nat),
                ));
            }
        }
        proof {
            assert forall|e: int| 0 <= e < d + 1 implies describes(
                #[trigger] out@[e],
                scaffold@[layout(scaffold@, e as nat)[e]],
                layout(scaffold@, e as nat).len() as int,
            ) by {
                if e < d {
                } else {
                    assert(before.len() == layout(scaffold@, d as nat).len());
                }
            }
        }
        d = d + 1;
    }
    proof {
        assert(layout_fits(scaffold@));
    }
    Some(out)
}


/// The scaffold after node `next` was linked as the last child of node `p`:
/// the old last child (if any) points to it, and `p` counts it.
pub open spec fn linked_as_last_child(s: Seq<CONTENT_SCAFFOLD>, p: int, next: int) -> Seq<CONTENT_SCAFFOLD> {
    let lc = s[p].lastchild as int;
    let s1 = if lc != 0 {
        s.update(lc, CONTENT_SCAFFOLD { nextsib: next as i32, ..s[lc] })
    } else {
        s
    };
    let par = s1[p];
    s1.update(
        p,
        CONTENT_SCAFFOLD {
            firstchild: if par.childcnt == 0 { next as i32 } else { par.firstchild },
            lastchild: next as i32,
            childcnt: (par.childcnt + 1) as i32,
            ..par
        },
    )
}

impl ContentScaffold {
    /// An empty scaffold with no open group.
    pub fn new() -> (c: Self)
        ensures
            c.scaffold@.len() == 0,
            c.scaffIndex@.len() == 0,
            c.scaffLevel == 0,
    {
        ContentScaffold { scaffold: Vec::new(), scaffIndex: Vec::new(), scaffLevel: 0 }
    }

    /// Add a node to the scaffold and return its index. Inside a group (the
    /// innermost open one is `scaffIndex[scaffLevel - 1]`) the node becomes
    /// the group's last child. The new node has no children and no next
    /// sibling; its type, quantifier and name are for the caller to set.
    #[allow(non_snake_case)]
    pub fn nextScaffoldPart(&mut self) -> (r: i32)
        requires
            old(self).scaffold.len() < SCAFFOLD_INT_MAX,
            0 <= old(self).scaffLevel <= old(self).scaffIndex.len(),
            old(self).scaffLevel > 0 ==> ({
                let p = old(self).scaffIndex@[old(self).scaffLevel - 1];
                &&& 0 <= p < old(self).scaffold.len()
                &&& 0 <= old(self).scaffold@[p as int].lastchild < old(self).scaffold.len()
                &&& old(self).scaffold@[p as int].childcnt < SCAFFOLD_INT_MAX
            }),
        ensures
            r == old(self).scaffold.len(),
            final(self).scaffIndex == old(self).scaffIndex,
            final(self).scaffLevel == old(self).scaffLevel,
            final(self).scaffold.len() == old(self).scaffold.len() + 1,
            final(self).scaffold@.take(r as int) == if old(self).scaffLevel > 0 {
                linked_as_last_child(
                    old(self).scaffold@,
                    old(self).scaffIndex@[old(self).scaffLevel - 1] as int,
                    r as int,
                )
            } else {
                old(self).scaffold@
            },
            ({
                let n = final(self).scaffold@[r as int];
                &&& n.type_0 == XML_Content_Type::XML_CTYPE_EMPTY
                &&& n.quant == XML_Content_Quant::XML_CQUANT_NONE
                &&& n.name@.len() == 0
                &&& n.firstchild == 0 && n.lastchild == 0 && n.childcnt == 0 && n.nextsib == 0
            }),
    {
        let next: usize = self.scaffold.len();
        let ghost orig = self.scaffold@;
        if self.scaffLevel != 0 {
            let p: usize = self.scaffIndex[(self.scaffLevel - 1) as usize] as usize;
            let lc: usize = self.scaffold[p].lastchild as usize;
            if lc != 0 {
                let mut sib = self.scaffold.remove(lc);
                sib.nextsib = next as i32;
                self.scaffold.insert(lc, sib);
            }
            let ghost s1 = self.scaffold@;
            assert(s1 =~= if lc != 0 {
                orig.update(lc as int, CONTENT_SCAFFOLD { nextsib: next as i32, ..orig[lc as int] })
            } else {
                orig
            });
            let mut par = self.scaffold.remove(p);
            if par.childcnt == 0 {
                par.firstchild = next as i32;
            }
            par.lastchild = next as i32;
            par.childcnt = par.childcnt + 1;
            self.scaffold.insert(p, par);
            assert(self.scaffold@ =~= linked_as_last_child(orig, p as int, next as int));
        }
        self.scaffold.push(
            CONTENT_SCAFFOLD {
                type_0: XML_Content_Type::XML_CTYPE_EMPTY,
                quant: XML_Content_Quant::XML_CQUANT_NONE,
                name: Vec::new(),
                firstchild: 0,
                lastchild: 0,
                childcnt: 0,
                nextsib: 0,
            },
        );
        assert(self.scaffold@.take(next as int) =~= if old(self).scaffLevel > 0 {
            linked_as_last_child(orig, old(self).scaffIndex@[old(self).scaffLevel - 1] as int, next as int)
        } else {
            orig
        });
        next as i32
    }
}

} // verus!
