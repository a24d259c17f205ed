//! The content model of an element declaration, built as the prolog's
//! roles come: the groups that open and close, the connectors between their
//! members, the `#PCDATA` of mixed content and the element names.
use vstd::prelude::*;
use crate::content::{
    build_model, is_model_of, linked_as_last_child, ContentScaffold, XML_Content_Quant, XML_Content_Type, XML_cp,
    CONTENT_SCAFFOLD, SCAFFOLD_INT_MAX,
};
use crate::errors::XmlError;

verus! {

/// The connector of a group with no connector yet.
pub const NO_CONNECTOR: u8 = 0;

/// The connector `,` of a sequence.
pub const ASCII_COMMA: u8 = 0x2c;

/// The connector `|` of a choice.
pub const ASCII_PIPE: u8 = 0x7c;

/// The state of the element declaration being read: its scaffold, whether a
/// declaration is being built, the bytes its names take, and the connector
/// of each open group by prolog nesting level.
#[allow(non_snake_case)]
pub struct ElementDecl {
    pub scaffold: ContentScaffold,
    pub in_eldecl: bool,
    pub contentStringLen: u32,
    pub groupConnector: Vec<u8>,
}

/// The links of a scaffold stay inside it, its counts below its size, and
/// the open groups name nodes of it.
pub open spec fn scaffold_wf(c: ContentScaffold) -> bool {
    &&& c.scaffold.len() <= SCAFFOLD_INT_MAX
    &&& forall|i: int|
        0 <= i < c.scaffold.len() ==> {
            let n = #[trigger] c.scaffold@[i];
            &&& 0 <= n.firstchild < c.scaffold.len()
            &&& 0 <= n.lastchild < c.scaffold.len()
            &&& 0 <= n.nextsib < c.scaffold.len()
            &&& 0 <= n.childcnt < c.scaffold.len()
        }
    &&& 0 <= c.scaffLevel <= c.scaffIndex.len()
    &&& c.scaffLevel <= c.scaffold.len()
    &&& forall|k: int| 0 <= k < c.scaffLevel ==> 0 <= #[trigger] c.scaffIndex@[k] < c.scaffold.len()
}

/// The node of the innermost open group.
pub open spec fn top_group(c: ContentScaffold) -> int {
    c.scaffIndex@[c.scaffLevel - 1] as int
}

/// The scaffold `s` with the type of node `i` set.
pub open spec fn with_type(s: Seq<CONTENT_SCAFFOLD>, i: int, t: XML_Content_Type) -> Seq<CONTENT_SCAFFOLD> {
    s.update(i, CONTENT_SCAFFOLD { type_0: t, ..s[i] })
}

/// The scaffold `s` with the quantifier of node `i` set.
pub open spec fn with_quant(s: Seq<CONTENT_SCAFFOLD>, i: int, q: XML_Content_Quant) -> Seq<CONTENT_SCAFFOLD> {
    s.update(i, CONTENT_SCAFFOLD { quant: q, ..s[i] })
}

/// The scaffold `s` after a new node was added inside the open groups of
/// `c` (as `nextScaffoldPart` adds it): linked as the last child of the
/// innermost group, if any.
pub open spec fn added_node(c: ContentScaffold, s: Seq<CONTENT_SCAFFOLD>) -> bool {
    &&& s.len() == c.scaffold.len() + 1
    &&& s.take(c.scaffold.len() as int) == if c.scaffLevel > 0 {
        linked_as_last_child(c.scaffold@, top_group(c), c.scaffold.len() as int)
    } else {
        c.scaffold@
    }
    &&& s.last().firstchild == 0 && s.last().lastchild == 0 && s.last().childcnt == 0 && s.last().nextsib == 0
}

/// Adding a node keeps a scaffold well formed.
proof fn lemma_added_node_wf(c: ContentScaffold, d: ContentScaffold)
    requires
        scaffold_wf(c),
        c.scaffold.len() < SCAFFOLD_INT_MAX,
        added_node(c, d.scaffold@),
        d.scaffIndex == c.scaffIndex,
        d.scaffLevel == c.scaffLevel,
    ensures
        scaffold_wf(d),
{
    let n = c.scaffold.len() as int;
    let s = d.scaffold@;
    assert forall|i: int| 0 <= i < d.scaffold.len() implies {
        let m = #[trigger] d.scaffold@[i];
        &&& 0 <= m.firstchild < d.scaffold.len()
        &&& 0 <= m.lastchild < d.scaffold.len()
        &&& 0 <= m.nextsib < d.scaffold.len()
        &&& 0 <= m.childcnt < d.scaffold.len()
    } by {
        if i < n {
            assert(s[i] == s.take(n)[i]);
            let old_i = c.scaffold@[i];
            if c.scaffLevel > 0 {
                let p = top_group(c);
                let lc = c.scaffold@[p].lastchild as int;
                let s1 = if lc != 0 {
                    c.scaffold@.update(lc, CONTENT_SCAFFOLD { nextsib: n as i32, ..c.scaffold@[lc] })
                } else {
                    c.scaffold@
                };
                assert(0 <= s1[i].firstchild < n + 1);
                assert(0 <= s1[i].childcnt < n);
            }
        }
    }
}

/// Change the type of node `i`.
fn set_type(s: &mut Vec<CONTENT_SCAFFOLD>, i: usize, t: XML_Content_Type)
    requires
        i < old(s).len(),
    ensures
        final(s)@ == with_type(old(s)@, i as int, t),
{
    let mut n = s.remove(i);
    n.type_0 = t;
    s.insert(i, n);
    assert(s@ =~= with_type(old(s)@, i as int, t));
}

/// Change the quantifier of node `i`.
fn set_quant(s: &mut Vec<CONTENT_SCAFFOLD>, i: usize, q: XML_Content_Quant)
    requires
        i < old(s).len(),
    ensures
        final(s)@ == with_quant(old(s)@, i as int, q),
{
    let mut n = s.remove(i);
    n.quant = q;
    s.insert(i, n);
    assert(s@ =~= with_quant(old(s)@, i as int, q));
}

impl ElementDecl {
    /// No declaration being read.
    pub fn new() -> (d: Self)
        ensures
            scaffold_wf(d.scaffold),
            d.scaffold.scaffold@.len() == 0,
            d.scaffold.scaffLevel == 0,
            !d.in_eldecl,
            d.contentStringLen == 0,
            d.groupConnector@.len() == 0,
    {
        ElementDecl { scaffold: ContentScaffold::new(), in_eldecl: false, contentStringLen: 0, groupConnector: Vec::new() }
    }

    /// Add a node inside the open groups.
    fn add_node(&mut self) -> (r: usize)
        requires
            scaffold_wf(old(self).scaffold),
            old(self).scaffold.scaffold.len() < SCAFFOLD_INT_MAX,
        ensures
            scaffold_wf(final(self).scaffold),
            r == old(self).scaffold.scaffold.len(),
            added_node(old(self).scaffold, final(self).scaffold.scaffold@),
            final(self).scaffold.scaffold@.last().type_0 == XML_Content_Type::XML_CTYPE_EMPTY,
            final(self).scaffold.scaffold@.last().quant == XML_Content_Quant::XML_CQUANT_NONE,
            final(self).scaffold.scaffold@.last().name@.len() == 0,
            final(self).scaffold.scaffIndex == old(self).scaffold.scaffIndex,
            final(self).scaffold.scaffLevel == old(self).scaffold.scaffLevel,
            final(self).in_eldecl == old(self).in_eldecl,
            final(self).contentStringLen == old(self).contentStringLen,
            final(self).groupConnector == old(self).groupConnector,
    {
        proof {
            if self.scaffold.scaffLevel > 0 {
                let p = top_group(self.scaffold);
                assert(0 <= self.scaffold.scaffIndex@[self.scaffold.scaffLevel - 1] < self.scaffold.scaffold.len());
                assert(0 <= self.scaffold.scaffold@[p].lastchild < self.scaffold.scaffold.len());
            }
        }
        let ghost before = self.scaffold;
        let r = self.scaffold.nextScaffoldPart();
        proof {
            lemma_added_node_wf(before, self.scaffold);
        }
        r as usize
    }

    /// The name of the declared element was read (`XML_ROLE_ELEMENT_NAME`):
    /// with an element declaration handler, a declaration starts with an
    /// empty scaffold.
    #[allow(non_snake_case)]
    pub fn roleElementName(&mut self, hasHandler: bool)
        requires
            scaffold_wf(old(self).scaffold),
        ensures
            scaffold_wf(final(self).scaffold),
            hasHandler ==> final(self).scaffold.scaffold@.len() == 0 && final(self).scaffold.scaffLevel == 0
                && final(self).scaffold.scaffIndex == old(self).scaffold.scaffIndex && final(self).in_eldecl
                && final(self).contentStringLen == old(self).contentStringLen
                && final(self).groupConnector == old(self).groupConnector,
            !hasHandler ==> *final(self) == *old(self),
    {
        if hasHandler {
            self.scaffold.scaffold = Vec::new();
            self.scaffold.scaffLevel = 0;
            self.in_eldecl = true;
        }
    }

    /// The content is `ANY` (`any`) or `EMPTY`: the declaration ends, and its
    /// model is that type when there is a handler to report it to.
    #[allow(non_snake_case)]
    pub fn roleContentAnyOrEmpty(&mut self, any: bool, hasHandler: bool) -> (r: Option<XML_Content_Type>)
        requires
            scaffold_wf(old(self).scaffold),
        ensures
            scaffold_wf(final(self).scaffold),
            r == if old(self).in_eldecl && hasHandler {
                Some(if any { XML_Content_Type::XML_CTYPE_ANY } else { XML_Content_Type::XML_CTYPE_EMPTY })
            } else {
                None
            },
            *final(self) == (ElementDecl { in_eldecl: false, ..*old(self) }),
    {
        if self.in_eldecl {
            self.in_eldecl = false;
            if hasHandler {
                return Some(if any { XML_Content_Type::XML_CTYPE_ANY } else { XML_Content_Type::XML_CTYPE_EMPTY });
            }
        }
        None
    }

    /// A group opens at prolog nesting level `level`: it has no connector
    /// yet, and in a declaration it is a new node of the scaffold, a
    /// sequence until a choice connector is read.
    #[allow(non_snake_case)]
    pub fn roleGroupOpen(&mut self, level: usize)
        requires
            scaffold_wf(old(self).scaffold),
            old(self).in_eldecl ==> old(self).scaffold.scaffold.len() < SCAFFOLD_INT_MAX,
        ensures
            scaffold_wf(final(self).scaffold),
            final(self).groupConnector@.len() == if level < old(self).groupConnector@.len() {
                old(self).groupConnector@.len() as int
            } else {
                level + 1
            },
            final(self).groupConnector@[level as int] == NO_CONNECTOR,
            forall|k: int|
                0 <= k < final(self).groupConnector@.len() && k != level ==> #[trigger] final(self).groupConnector@[k]
                    == if k < old(self).groupConnector@.len() {
                    old(self).groupConnector@[k]
                } else {
                    NO_CONNECTOR
                },
            final(self).in_eldecl == old(self).in_eldecl,
            final(self).contentStringLen == old(self).contentStringLen,
            !old(self).in_eldecl ==> final(self).scaffold == old(self).scaffold,
            old(self).in_eldecl ==> ({
                let c = old(self).scaffold;
                let d = final(self).scaffold;
                &&& d.scaffold@.len() == c.scaffold@.len() + 1
                &&& d.scaffold@.take(c.scaffold@.len() as int) == if c.scaffLevel > 0 {
                    linked_as_last_child(c.scaffold@, top_group(c), c.scaffold@.len() as int)
                } else {
                    c.scaffold@
                }
                &&& d.scaffold@.last().type_0 == XML_Content_Type::XML_CTYPE_SEQ
                &&& d.scaffold@.last().quant == XML_Content_Quant::XML_CQUANT_NONE
                &&& d.scaffold@.last().childcnt == 0
                &&& d.scaffLevel == c.scaffLevel + 1
                &&& d.scaffIndex@[c.scaffLevel as int] == c.scaffold@.len()
                &&& forall|k: int| 0 <= k < c.scaffLevel ==> #[trigger] d.scaffIndex@[k] == c.scaffIndex@[k]
            }),
    {
        let ghost oldc = self.groupConnector@;
        while self.groupConnector.len() <= level
            invariant
                self.groupConnector@.len() == oldc.len() || self.groupConnector@.len() <= level + 1,
                self.scaffold == old(self).scaffold,
                self.in_eldecl == old(self).in_eldecl,
                self.contentStringLen == old(self).contentStringLen,
                self.groupConnector@.len() >= oldc.len(),
                forall|k: int| 0 <= k < oldc.len() ==> #[trigger] self.groupConnector@[k] == oldc[k],
                forall|k: int| oldc.len() <= k < self.groupConnector@.len() ==> #[trigger] self.groupConnector@[k] == NO_CONNECTOR,
            decreases level + 1 - self.groupConnector.len(),
        {
            self.groupConnector.push(NO_CONNECTOR);
        }
        self.groupConnector.set(level, NO_CONNECTOR);
        if self.in_eldecl {
            let ghost c = self.scaffold;
            let myindex = self.add_node();
            let ghost added = self.scaffold;
            set_type(&mut self.scaffold.scaffold, myindex, XML_Content_Type::XML_CTYPE_SEQ);
            let lvl = self.scaffold.scaffLevel as usize;
            if lvl < self.scaffold.scaffIndex.len() {
                self.scaffold.scaffIndex.set(lvl, myindex as i32);
            } else {
                self.scaffold.scaffIndex.push(myindex as i32);
            }
            assert(self.scaffold.scaffLevel < self.scaffold.scaffold.len());
            self.scaffold.scaffLevel = self.scaffold.scaffLevel + 1;
            proof {
                let d = self.scaffold;
                assert(d.scaffold@.take(c.scaffold@.len() as int) =~= with_type(
                    d.scaffold@,
                    myindex as int,
                    XML_Content_Type::XML_CTYPE_SEQ,
                ).take(c.scaffold@.len() as int));
                assert forall|i: int| 0 <= i < d.scaffold.len() implies {
                    let n = #[trigger] d.scaffold@[i];
                    &&& 0 <= n.firstchild < d.scaffold.len()
                    &&& 0 <= n.lastchild < d.scaffold.len()
                    &&& 0 <= n.nextsib < d.scaffold.len()
                    &&& 0 <= n.childcnt < d.scaffold.len()
                } by {
                    assert(added.scaffold@[i].firstchild == d.scaffold@[i].firstchild);
                    assert(added.scaffold@[i].childcnt == d.scaffold@[i].childcnt);
                }
                assert forall|k: int| 0 <= k < d.scaffLevel implies 0 <= #[trigger] d.scaffIndex@[k] < d.scaffold.len() by {
                    if k < c.scaffLevel {
                        assert(d.scaffIndex@[k] == added.scaffIndex@[k]);
                    }
                }
            }
        }
    }
}


impl ElementDecl {
    /// A sequence connector `,` in the group at prolog level `level`: an
    /// error in a group already joined by `|`.
    #[allow(non_snake_case)]
    pub fn roleGroupSequence(&mut self, level: usize) -> (r: Result<(), XmlError>)
        requires
            level < old(self).groupConnector.len(),
        ensures
            old(self).groupConnector@[level as int] == ASCII_PIPE ==> r == Err::<(), XmlError>(
                XmlError::XML_ERROR_SYNTAX,
            ) && *final(self) == *old(self),
            old(self).groupConnector@[level as int] != ASCII_PIPE ==> r is Ok
                && final(self).groupConnector@ == old(self).groupConnector@.update(level as int, ASCII_COMMA)
                && final(self).scaffold == old(self).scaffold && final(self).in_eldecl == old(self).in_eldecl
                && final(self).contentStringLen == old(self).contentStringLen,
    {
        if self.groupConnector[level] == ASCII_PIPE {
            return Err(XmlError::XML_ERROR_SYNTAX);
        }
        self.groupConnector.set(level, ASCII_COMMA);
        Ok(())
    }

    /// A choice connector `|` in the group at prolog level `level`: an error
    /// in a group already joined by `,`. In a declaration, the first `|` of a
    /// group that is not mixed content makes it a choice.
    #[allow(non_snake_case)]
    pub fn roleGroupChoice(&mut self, level: usize) -> (r: Result<(), XmlError>)
        requires
            scaffold_wf(old(self).scaffold),
            level < old(self).groupConnector.len(),
            old(self).in_eldecl ==> old(self).scaffold.scaffLevel > 0,
        ensures
            scaffold_wf(final(self).scaffold),
            old(self).groupConnector@[level as int] == ASCII_COMMA ==> r == Err::<(), XmlError>(
                XmlError::XML_ERROR_SYNTAX,
            ) && *final(self) == *old(self),
            old(self).groupConnector@[level as int] != ASCII_COMMA ==> ({
                let c = old(self).scaffold;
                let becomes_choice = old(self).in_eldecl && old(self).groupConnector@[level as int] == NO_CONNECTOR
                    && c.scaffold@[top_group(c)].type_0 != XML_Content_Type::XML_CTYPE_MIXED;
                &&& r is Ok
                &&& final(self).groupConnector@ == old(self).groupConnector@.update(level as int, ASCII_PIPE)
                &&& final(self).scaffold.scaffold@ == if becomes_choice {
                    with_type(c.scaffold@, top_group(c), XML_Content_Type::XML_CTYPE_CHOICE)
                } else {
                    c.scaffold@
                }
                &&& final(self).scaffold.scaffIndex == c.scaffIndex
                &&& final(self).scaffold.scaffLevel == c.scaffLevel
                &&& final(self).in_eldecl == old(self).in_eldecl
                &&& final(self).contentStringLen == old(self).contentStringLen
            }),
    {
        if self.groupConnector[level] == ASCII_COMMA {
            return Err(XmlError::XML_ERROR_SYNTAX);
        }
        if self.in_eldecl && self.groupConnector[level] == NO_CONNECTOR {
            let top = self.scaffold.scaffIndex[(self.scaffold.scaffLevel - 1) as usize] as usize;
            if self.scaffold.scaffold[top].type_0 != XML_Content_Type::XML_CTYPE_MIXED {
                let ghost before = self.scaffold;
                set_type(&mut self.scaffold.scaffold, top, XML_Content_Type::XML_CTYPE_CHOICE);
                proof {
                    lemma_retyped_wf(before, self.scaffold, top as int, XML_Content_Type::XML_CTYPE_CHOICE);
                }
            }
        }
        self.groupConnector.set(level, ASCII_PIPE);
        Ok(())
    }

    /// `#PCDATA` in a declaration: the innermost group is mixed content.
    #[allow(non_snake_case)]
    pub fn roleContentPcdata(&mut self)
        requires
            scaffold_wf(old(self).scaffold),
            old(self).in_eldecl ==> old(self).scaffold.scaffLevel > 0,
        ensures
            scaffold_wf(final(self).scaffold),
            !old(self).in_eldecl ==> *final(self) == *old(self),
            old(self).in_eldecl ==> final(self).scaffold.scaffold@ == with_type(
                old(self).scaffold.scaffold@,
                top_group(old(self).scaffold),
                XML_Content_Type::XML_CTYPE_MIXED,
            ) && final(self).scaffold.scaffIndex == old(self).scaffold.scaffIndex
                && final(self).scaffold.scaffLevel == old(self).scaffold.scaffLevel
                && final(self).in_eldecl == old(self).in_eldecl
                && final(self).contentStringLen == old(self).contentStringLen
                && final(self).groupConnector == old(self).groupConnector,
    {
        if self.in_eldecl {
            let top = self.scaffold.scaffIndex[(self.scaffold.scaffLevel - 1) as usize] as usize;
            let ghost before = self.scaffold;
            set_type(&mut self.scaffold.scaffold, top, XML_Content_Type::XML_CTYPE_MIXED);
            proof {
                lemma_retyped_wf(before, self.scaffold, top as int, XML_Content_Type::XML_CTYPE_MIXED);
            }
        }
    }

    /// An element name `name` with quantifier `quant` in a declaration: a
    /// new name node of the innermost group. `XML_ERROR_NO_MEMORY` when the
    /// names (each with its terminator) would take more than 2^32 - 1
    /// bytes; the node is then added all the same.
    #[allow(non_snake_case)]
    pub fn roleContentElement(&mut self, quant: XML_Content_Quant, name: &[u8]) -> (r: Result<(), XmlError>)
        requires
            scaffold_wf(old(self).scaffold),
            old(self).in_eldecl ==> old(self).scaffold.scaffold.len() < SCAFFOLD_INT_MAX,
        ensures
            scaffold_wf(final(self).scaffold),
            !old(self).in_eldecl ==> r is Ok && *final(self) == *old(self),
            old(self).in_eldecl ==> ({
                let c = old(self).scaffold;
                let d = final(self).scaffold;
                &&& added_node(c, d.scaffold@)
                &&& d.scaffold@.last().type_0 == XML_Content_Type::XML_CTYPE_NAME
                &&& d.scaffold@.last().quant == quant
                &&& d.scaffold@.last().name@ == name@
                &&& d.scaffIndex == c.scaffIndex
                &&& d.scaffLevel == c.scaffLevel
                &&& final(self).in_eldecl
                &&& final(self).groupConnector == old(self).groupConnector
                &&& if name@.len() + 1 > u32::MAX - old(self).contentStringLen {
                    r == Err::<(), XmlError>(XmlError::XML_ERROR_NO_MEMORY) && final(self).contentStringLen
                        == old(self).contentStringLen
                } else {
                    r is Ok && final(self).contentStringLen == old(self).contentStringLen + name@.len() + 1
                }
            }),
    {
        if !self.in_eldecl {
            return Ok(());
        }
        let ghost c = self.scaffold;
        let myindex = self.add_node();
        let ghost added = self.scaffold;
        let mut node = self.scaffold.scaffold.pop().unwrap();
        node.type_0 = XML_Content_Type::XML_CTYPE_NAME;
        node.quant = quant;
        node.name = crate::hashtable::copy_string(name);
        self.scaffold.scaffold.push(node);
        proof {
            let d = self.scaffold;
            assert(d.scaffold@.take(c.scaffold@.len() as int) =~= added.scaffold@.take(c.scaffold@.len() as int));
            assert forall|i: int| 0 <= i < d.scaffold.len() implies {
                let n = #[trigger] d.scaffold@[i];
                &&& 0 <= n.firstchild < d.scaffold.len()
                &&& 0 <= n.lastchild < d.scaffold.len()
                &&& 0 <= n.nextsib < d.scaffold.len()
                &&& 0 <= n.childcnt < d.scaffold.len()
            } by {
                assert(added.scaffold@[i].firstchild == d.scaffold@[i].firstchild);
                assert(added.scaffold@[i].lastchild == d.scaffold@[i].lastchild);
                assert(added.scaffold@[i].nextsib == d.scaffold@[i].nextsib);
                assert(added.scaffold@[i].childcnt == d.scaffold@[i].childcnt);
            }
        }
        let used: u64 = self.contentStringLen as u64;
        if name.len() as u64 >= 0xffff_ffff - used {
            return Err(XmlError::XML_ERROR_NO_MEMORY);
        }
        self.contentStringLen = self.contentStringLen + name.len() as u32 + 1;
        Ok(())
    }

    /// A group closes with quantifier `quant`. When the outermost group of a
    /// declaration closes, the declaration ends, and its content model is
    /// built when there is a handler to report it to.
    /// `XML_ERROR_NO_MEMORY` when the scaffold gives no model; the
    /// declaration then stays open.
    #[allow(non_snake_case)]
    pub fn roleGroupClose(&mut self, quant: XML_Content_Quant, hasHandler: bool) -> (r: Result<
        Option<Vec<XML_cp>>,
        XmlError,
    >)
        requires
            scaffold_wf(old(self).scaffold),
            old(self).in_eldecl ==> old(self).scaffold.scaffLevel > 0,
        ensures
            scaffold_wf(final(self).scaffold),
            !old(self).in_eldecl ==> (r matches Ok(None)) && *final(self) == *old(self),
            old(self).in_eldecl ==> ({
                let c = old(self).scaffold;
                let lvl = c.scaffLevel - 1;
                let s = with_quant(c.scaffold@, c.scaffIndex@[lvl] as int, quant);
                &&& final(self).scaffold.scaffold@ == s
                &&& final(self).scaffold.scaffLevel == lvl
                &&& final(self).scaffold.scaffIndex == c.scaffIndex
                &&& final(self).groupConnector == old(self).groupConnector
                &&& if lvl > 0 {
                    (r matches Ok(None)) && final(self).in_eldecl && final(self).contentStringLen
                        == old(self).contentStringLen
                } else if !hasHandler {
                    (r matches Ok(None)) && !final(self).in_eldecl && final(self).contentStringLen == 0
                } else {
                    match r {
                        Ok(Some(m)) => is_model_of(m@, s) && !final(self).in_eldecl
                            && final(self).contentStringLen == 0,
                        Ok(None) => false,
                        Err(e) => e == XmlError::XML_ERROR_NO_MEMORY && final(self).in_eldecl
                            && final(self).contentStringLen == old(self).contentStringLen,
                    }
                }
            }),
    {
        if !self.in_eldecl {
            return Ok(None);
        }
        let lvl: i32 = self.scaffold.scaffLevel - 1;
        self.scaffold.scaffLevel = lvl;
        let top = self.scaffold.scaffIndex[lvl as usize] as usize;
        let ghost before = self.scaffold;
        set_quant(&mut self.scaffold.scaffold, top, quant);
        proof {
            let d = self.scaffold;
            assert forall|i: int| 0 <= i < d.scaffold.len() implies {
                let n = #[trigger] d.scaffold@[i];
                &&& 0 <= n.firstchild < d.scaffold.len()
                &&& 0 <= n.lastchild < d.scaffold.len()
                &&& 0 <= n.nextsib < d.scaffold.len()
                &&& 0 <= n.childcnt < d.scaffold.len()
            } by {
                assert(before.scaffold@[i].firstchild == d.scaffold@[i].firstchild);
                assert(before.scaffold@[i].childcnt == d.scaffold@[i].childcnt);
            }
        }
        if lvl == 0 {
            let mut model: Option<Vec<XML_cp>> = None;
            if hasHandler {
                match build_model(&self.scaffold.scaffold) {
                    None => {
                        return Err(XmlError::XML_ERROR_NO_MEMORY);
                    },
                    Some(m) => {
                        model = Some(m);
                    },
                }
            }
            self.in_eldecl = false;
            self.contentStringLen = 0;
            return Ok(model);
        }
        Ok(None)
    }
}

/// Changing the type of a node keeps a scaffold well formed.
proof fn lemma_retyped_wf(c: ContentScaffold, d: ContentScaffold, i: int, t: XML_Content_Type)
    requires
        scaffold_wf(c),
        0 <= i < c.scaffold.len(),
        d.scaffold@ == with_type(c.scaffold@, i, t),
        d.scaffIndex == c.scaffIndex,
        d.scaffLevel == c.scaffLevel,
    ensures
        scaffold_wf(d),
{
    assert forall|j: int| 0 <= j < d.scaffold.len() implies {
        let n = #[trigger] d.scaffold@[j];
        &&& 0 <= n.firstchild < d.scaffold.len()
        &&& 0 <= n.lastchild < d.scaffold.len()
        &&& 0 <= n.nextsib < d.scaffold.len()
        &&& 0 <= n.childcnt < d.scaffold.len()
    } by {
        assert(c.scaffold@[j].firstchild == d.scaffold@[j].firstchild);
        assert(c.scaffold@[j].childcnt == d.scaffold@[j].childcnt);
    }
}

} // verus!
