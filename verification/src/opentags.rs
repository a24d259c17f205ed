//! The elements open in the content, each with the namespace bindings its
//! start tag made (its attributes, reported by `storeAtts`, push them): the
//! end tag, which must name the innermost element, pops them again.
use vstd::prelude::*;
use crate::elements::{content_step, Step, TagStack, Tok};
use crate::errors::XmlError;
use crate::namespaces::NsScope;

verus! {

/// The open elements, innermost last, and for each the number of bindings
/// in force before its start tag.
pub struct OpenElements {
    pub tags: TagStack,
    pub marks: Vec<usize>,
}

impl OpenElements {
    /// Each open element has its mark, the marks never decrease, and the
    /// last lies within the stack of bindings `ns`.
    pub open spec fn wf(&self, ns: NsScope) -> bool {
        &&& self.marks.len() == self.tags@.len()
        &&& forall|i: int, j: int| 0 <= i <= j < self.marks.len() ==> self.marks@[i] <= self.marks@[j]
        &&& self.marks.len() > 0 ==> self.marks@.last() <= ns@.len()
    }

    /// No element open.
    pub fn new() -> (o: Self)
        ensures
            o.tags@ == Seq::<Seq<u8>>::empty(),
            o.marks@ == Seq::<usize>::empty(),
    {
        OpenElements { tags: TagStack::new(), marks: Vec::new() }
    }

    /// The element whose start tag has the raw name `rawName` is open; `mark`
    /// is the number of bindings that were in force before its start tag
    /// (the bindings the tag made lie above it).
    #[allow(non_snake_case)]
    pub fn openElement(&mut self, ns: &NsScope, rawName: &[u8], mark: usize)
        requires
            old(self).wf(*ns),
            mark <= ns@.len(),
            old(self).marks.len() > 0 ==> old(self).marks@.last() <= mark,
        ensures
            final(self).wf(*ns),
            final(self).tags@ == old(self).tags@.push(rawName@),
            final(self).marks@ == old(self).marks@.push(mark),
    {
        let ghost marks0 = self.marks@;
        let _step: Step = self.tags.contentToken(Tok::StartTag, rawName, true, 0);
        self.marks.push(mark);
        proof {
            assert forall|i: int, j: int| 0 <= i <= j < self.marks.len() implies self.marks@[i] <= self.marks@[j] by {
                if j == self.marks.len() - 1 && i < j {
                    assert(marks0[i] <= marks0[marks0.len() - 1]);
                }
            }
        }
    }

    /// An end tag with the raw name `rawName`, in content that began at
    /// depth `startTagLevel`, decided as `content_step` decides it: an error
    /// changes nothing; otherwise the innermost element is closed and the
    /// bindings its start tag made are popped. The step is returned with
    /// the prefixes of the popped bindings, the latest first.
    #[allow(non_snake_case)]
    pub fn endElement(&mut self, ns: &mut NsScope, rawName: &[u8], startTagLevel: usize) -> (r: Result<
        (Step, Vec<Option<usize>>),
        XmlError,
    >)
        requires
            old(ns).wf(),
            old(self).wf(*old(ns)),
            startTagLevel <= old(self).tags@.len(),
        ensures
            final(ns).wf(),
            final(ns).prefix_names() == old(ns).prefix_names(),
            final(ns).ns() == old(ns).ns(),
            final(ns).sep() == old(ns).sep(),
            final(self).wf(*final(ns)),
            ({
                let (stack, step) = content_step(old(self).tags@, Tok::EndTag, rawName@, true, startTagLevel as nat);
                match step {
                    Step::Fail(e) => {
                        &&& r == Err::<(Step, Vec<Option<usize>>), XmlError>(e)
                        &&& final(self).tags@ == old(self).tags@
                        &&& final(self).marks@ == old(self).marks@
                        &&& final(ns)@ == old(ns)@
                    },
                    _ => {
                        let mark = old(self).marks@.last() as int;
                        &&& final(self).tags@ == stack
                        &&& final(self).marks@ == old(self).marks@.drop_last()
                        &&& final(ns)@ == old(ns)@.take(mark)
                        &&& r matches Ok((s, popped)) && s == step && popped@.len() == old(ns)@.len() - mark
                            && forall|k: int|
                            0 <= k < popped@.len() ==> #[trigger] popped@[k] == old(ns)@[old(ns)@.len() - 1 - k].0
                    },
                }
            }),
    {
        let step = self.tags.contentToken(Tok::EndTag, rawName, true, startTagLevel);
        match step {
            Step::Fail(e) => {
                return Err(e);
            },
            _ => {},
        }
        let ghost marks0 = self.marks@;
        let mark = self.marks.pop().unwrap();
        proof {
            assert(self.marks@ =~= marks0.drop_last());
        }
        let popped = ns.pop_bindings(mark);
        proof {
            if self.marks.len() > 0 {
                assert(marks0[self.marks.len() - 1] <= marks0[marks0.len() - 1]);
                assert(self.marks@.last() == marks0[self.marks.len() - 1]);
            }
        }
        Ok((step, popped))
    }
}

/// The bindings in force after an element's end tag are those in force
/// before its start tag: the start tag only pushes bindings onto the stack
/// (`after_start` extends `before`), and the end tag pops back to the
/// length the stack had before it.
pub proof fn lemma_element_scope_restored(
    before: Seq<(Option<usize>, Option<Seq<u8>>)>,
    after_start: Seq<(Option<usize>, Option<Seq<u8>>)>,
    after_end: Seq<(Option<usize>, Option<Seq<u8>>)>,
)
    requires
        before.is_prefix_of(after_start),
        after_end == after_start.take(before.len() as int),
    ensures
        after_end == before,
{
    assert(after_end =~= before);
}

} // verus!
