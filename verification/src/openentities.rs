//! The internal entities being expanded, innermost last: an entity is
//! opened when its replacement text starts to be parsed and closed when it
//! ends, and no entity is open twice (a reference to an open entity is an
//! error).
use vstd::prelude::*;
use crate::accounting::entity_stats;
use crate::entities::{with_open, ENTITY};
use crate::hashtable::HASH_TABLE;
use crate::errors::XmlError;
use crate::parser::XML_Parsing;

verus! {

/// An entity being expanded: which one (a parameter entity or a general
/// one, by its index in its table), the element depth when it was opened,
/// and whether it stands between declarations.
#[allow(non_snake_case)]
#[derive(PartialEq, Eq, Structural, Clone, Copy, Debug)]
pub struct OpenEntity {
    pub is_param: bool,
    pub index: usize,
    pub startTagLevel: usize,
    pub betweenDecl: bool,
}

/// The entities being expanded, innermost last.
pub struct OpenEntities {
    pub list: Vec<OpenEntity>,
}

/// The table that holds the entity `o`.
pub open spec fn table_of(
    o: OpenEntity,
    general: Seq<(Seq<u8>, ENTITY)>,
    params: Seq<(Seq<u8>, ENTITY)>,
) -> Seq<(Seq<u8>, ENTITY)> {
    if o.is_param {
        params
    } else {
        general
    }
}

/// The entity `o` names a record of its table, which is open.
pub open spec fn entry_ok(o: OpenEntity, general: Seq<(Seq<u8>, ENTITY)>, params: Seq<(Seq<u8>, ENTITY)>) -> bool {
    &&& o.index < table_of(o, general, params).len()
    &&& table_of(o, general, params)[o.index as int].1.open
}

/// Two entries name the same entity.
pub open spec fn same_entity(a: OpenEntity, b: OpenEntity) -> bool {
    a.is_param == b.is_param && a.index == b.index
}

impl OpenEntities {
    /// Every entity on the list is open, and none is on it twice.
    pub open spec fn wf(&self, general: Seq<(Seq<u8>, ENTITY)>, params: Seq<(Seq<u8>, ENTITY)>) -> bool {
        &&& forall|k: int| 0 <= k < self.list.len() ==> entry_ok(#[trigger] self.list@[k], general, params)
        &&& forall|i: int, j: int|
            0 <= i < j < self.list.len() ==> !same_entity(#[trigger] self.list@[i], #[trigger] self.list@[j])
    }

    /// No entity being expanded.
    pub fn new() -> (o: Self)
        ensures
            o.list@ == Seq::<OpenEntity>::empty(),
    {
        OpenEntities { list: Vec::new() }
    }

    /// Open the entity `index` (a parameter entity when `is_param`), which
    /// is not open: it is marked open, counted in the statistics, and put on
    /// the list with the element depth `startTagLevel`.
    #[allow(non_snake_case)]
    pub fn processEntity(
        &mut self,
        general: &mut HASH_TABLE<ENTITY>,
        params: &mut HASH_TABLE<ENTITY>,
        stats: &mut entity_stats,
        is_param: bool,
        index: usize,
        betweenDecl: bool,
        startTagLevel: usize,
    )
        requires
            old(general).wf(),
            old(params).wf(),
            old(self).wf(old(general)@, old(params)@),
            index < (if is_param {
                old(params)@.len()
            } else {
                old(general)@.len()
            }),
            !(if is_param {
                old(params)@[index as int].1.open
            } else {
                old(general)@[index as int].1.open
            }),
        ensures
            final(general).wf(),
            final(params).wf(),
            final(self).wf(final(general)@, final(params)@),
            final(self).list@ == old(self).list@.push(OpenEntity { is_param, index, startTagLevel, betweenDecl }),
            is_param ==> final(general)@ == old(general)@ && final(params)@ == old(params)@.update(
                index as int,
                (old(params)@[index as int].0, with_open(old(params)@[index as int].1, true)),
            ),
            !is_param ==> final(params)@ == old(params)@ && final(general)@ == old(general)@.update(
                index as int,
                (old(general)@[index as int].0, with_open(old(general)@[index as int].1, true)),
            ),
            final(stats).countEverOpened == vstd::wrapping::u32_specs::wrapping_add(old(stats).countEverOpened, 1),
            final(stats).currentDepth == vstd::wrapping::u32_specs::wrapping_add(old(stats).currentDepth, 1),
            final(stats).debugLevel == old(stats).debugLevel,
    {
        let ghost g0 = general@;
        let ghost p0 = params@;
        set_open(general, params, is_param, index, true);
        stats.entityTrackingOnOpen();
        let o = OpenEntity { is_param, index, startTagLevel, betweenDecl };
        let ghost list0 = self.list@;
        self.list.push(o);
        proof {
            assert forall|k: int| 0 <= k < self.list.len() implies entry_ok(
                #[trigger] self.list@[k],
                general@,
                params@,
            ) by {
                if k < list0.len() {
                    assert(entry_ok(list0[k], g0, p0));
                    assert(self.list@[k] == list0[k]);
                }
            }
            assert forall|i: int, j: int| 0 <= i < j < self.list.len() implies !same_entity(
                #[trigger] self.list@[i],
                #[trigger] self.list@[j],
            ) by {
                if j == list0.len() {
                    assert(entry_ok(list0[i], g0, p0));
                    assert(self.list@[i] == list0[i]);
                } else {
                    assert(self.list@[i] == list0[i]);
                    assert(self.list@[j] == list0[j]);
                }
            }
        }
    }

    /// Close the innermost entity being expanded, if any: it is taken off
    /// the list, marked closed, and the depth of the statistics goes back.
    #[allow(non_snake_case)]
    pub fn closeEntity(
        &mut self,
        general: &mut HASH_TABLE<ENTITY>,
        params: &mut HASH_TABLE<ENTITY>,
        stats: &mut entity_stats,
    ) -> (r: Option<OpenEntity>)
        requires
            old(general).wf(),
            old(params).wf(),
            old(self).wf(old(general)@, old(params)@),
        ensures
            final(general).wf(),
            final(params).wf(),
            final(self).wf(final(general)@, final(params)@),
            match r {
                None => {
                    &&& old(self).list@.len() == 0
                    &&& final(self).list@ == old(self).list@
                    &&& final(general)@ == old(general)@
                    &&& final(params)@ == old(params)@
                    &&& *final(stats) == *old(stats)
                },
                Some(o) => {
                    &&& old(self).list@.len() > 0
                    &&& o == old(self).list@.last()
                    &&& final(self).list@ == old(self).list@.drop_last()
                    &&& o.is_param ==> final(general)@ == old(general)@ && final(params)@ == old(params)@.update(
                        o.index as int,
                        (old(params)@[o.index as int].0, with_open(old(params)@[o.index as int].1, false)),
                    )
                    &&& !o.is_param ==> final(params)@ == old(params)@ && final(general)@ == old(general)@.update(
                        o.index as int,
                        (old(general)@[o.index as int].0, with_open(old(general)@[o.index as int].1, false)),
                    )
                    &&& final(stats).currentDepth == vstd::wrapping::u32_specs::wrapping_sub(old(stats).currentDepth, 1)
                    &&& final(stats).countEverOpened == old(stats).countEverOpened
                    &&& final(stats).debugLevel == old(stats).debugLevel
                },
            },
    {
        let ghost g0 = general@;
        let ghost p0 = params@;
        let ghost list0 = self.list@;
        let o = match self.list.pop() {
            None => {
                return None;
            },
            Some(o) => o,
        };
        proof {
            assert(entry_ok(list0[list0.len() - 1], g0, p0));
        }
        set_open(general, params, o.is_param, o.index, false);
        stats.entityTrackingOnClose();
        proof {
            assert forall|k: int| 0 <= k < self.list.len() implies entry_ok(
                #[trigger] self.list@[k],
                general@,
                params@,
            ) by {
                assert(self.list@[k] == list0[k]);
                assert(entry_ok(list0[k], g0, p0));
                assert(!same_entity(list0[k], list0[list0.len() - 1]));
            }
            assert forall|i: int, j: int| 0 <= i < j < self.list.len() implies !same_entity(
                #[trigger] self.list@[i],
                #[trigger] self.list@[j],
            ) by {
                assert(self.list@[i] == list0[i]);
                assert(self.list@[j] == list0[j]);
            }
        }
        Some(o)
    }
}

/// Set the open flag of entity `index` of its table.
fn set_open(general: &mut HASH_TABLE<ENTITY>, params: &mut HASH_TABLE<ENTITY>, is_param: bool, index: usize, b: bool)
    requires
        old(general).wf(),
        old(params).wf(),
        index < (if is_param {
            old(params)@.len()
        } else {
            old(general)@.len()
        }),
    ensures
        final(general).wf(),
        final(params).wf(),
        is_param ==> final(general)@ == old(general)@ && final(params)@ == old(params)@.update(
            index as int,
            (old(params)@[index as int].0, with_open(old(params)@[index as int].1, b)),
        ),
        !is_param ==> final(params)@ == old(params)@ && final(general)@ == old(general)@.update(
            index as int,
            (old(general)@[index as int].0, with_open(old(general)@[index as int].1, b)),
        ),
{
    if is_param {
        let ghost t = params@;
        let mut x = params.take_value(index, ENTITY::empty());
        x.open = b;
        params.set_value(index, x);
        assert(params@ =~= t.update(index as int, (t[index as int].0, with_open(t[index as int].1, b))));
    } else {
        let ghost t = general@;
        let mut x = general.take_value(index, ENTITY::empty());
        x.open = b;
        general.set_value(index, x);
        assert(general@ =~= t.update(index as int, (t[index as int].0, with_open(t[index as int].1, b))));
    }
}

/// Opening an entity that was closed and closing it again gives the entity
/// back as it was.
pub proof fn lemma_open_close_entity(x: ENTITY)
    requires
        !x.open,
    ensures
        with_open(with_open(x, true), false) == x,
{
}

/// What follows a stretch of the replacement text of the innermost open
/// entity.
#[derive(PartialEq, Eq, Structural, Clone, Copy, Debug)]
pub enum EntityTextStep {
    /// Parsing stopped inside the text: where it stopped is kept, and the
    /// text is taken up again later.
    Pause,
    /// The whole text was parsed: the entity is closed at the next turn.
    Finished,
}

/// What the processor that parses entity text goes on with once the
/// entity is closed.
#[derive(PartialEq, Eq, Structural, Clone, Copy, Debug)]
pub enum NextProcessor {
    /// Another entity is still open: its text comes next.
    Internal,
    /// The prolog, after a parameter entity.
    Prolog,
    /// The content, after a general entity.
    Content,
}

/// The step after parsing text of the entity `top` without an error:
/// `textDone` tells whether the whole text was parsed. Where it was not and
/// the parser is suspended, or is to be re-entered, the text pauses. A
/// general entity whose text closes fewer or more elements than it opened
/// (`tagLevel` differs from the depth at which it was opened) is
/// `XML_ERROR_ASYNC_ENTITY`.
#[allow(non_snake_case)]
pub fn afterEntityText(top: OpenEntity, textDone: bool, parsing: XML_Parsing, reenter: bool, tagLevel: usize) -> (r:
    Result<EntityTextStep, XmlError>)
    ensures
        r == if !textDone && (parsing == XML_Parsing::XML_SUSPENDED || (parsing == XML_Parsing::XML_PARSING
            && reenter)) {
            Ok::<EntityTextStep, XmlError>(EntityTextStep::Pause)
        } else if !top.is_param && top.startTagLevel != tagLevel {
            Err::<EntityTextStep, XmlError>(XmlError::XML_ERROR_ASYNC_ENTITY)
        } else {
            Ok::<EntityTextStep, XmlError>(EntityTextStep::Finished)
        },
{
    if !textDone && (parsing == XML_Parsing::XML_SUSPENDED || (parsing == XML_Parsing::XML_PARSING && reenter)) {
        return Ok(EntityTextStep::Pause);
    }
    if !top.is_param && top.startTagLevel != tagLevel {
        return Err(XmlError::XML_ERROR_ASYNC_ENTITY);
    }
    Ok(EntityTextStep::Finished)
}

impl OpenEntities {
    /// The processor after the entity `closed` was taken off the list.
    #[allow(non_snake_case)]
    pub fn nextProcessor(&self, closed: OpenEntity) -> (r: NextProcessor)
        ensures
            r == if self.list@.len() > 0 {
                NextProcessor::Internal
            } else if closed.is_param {
                NextProcessor::Prolog
            } else {
                NextProcessor::Content
            },
    {
        if self.list.len() > 0 {
            NextProcessor::Internal
        } else if closed.is_param {
            NextProcessor::Prolog
        } else {
            NextProcessor::Content
        }
    }
}

} // verus!
