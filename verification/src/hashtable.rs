//! The parser's hash tables of named records (element types, attribute ids,
//! prefixes, entities).
//!
//! Records live in an arena in the order they were created, and stay where
//! they are while the table grows: a record is handed out by its index in
//! the arena. The slots form an open-addressing table of `2^power` slots
//! probed as described in `probe`; the table doubles before it becomes more
//! than half full.
use vstd::prelude::*;
use vstd::arithmetic::power2::{pow2, lemma_pow2_unfold, lemma_pow2_pos, lemma2_to64};
use crate::probe::{probe, probe_step, table_shape, lemma_probe_params, lemma_probe_closed, lemma_probe_pigeonhole};
use crate::siphash::{hash, spec_name_hash};

verus! {

/// The initial number of slots is `2^INIT_POWER`.
pub const INIT_POWER: u8 = 6;

/// A hash table of named records.
#[allow(non_camel_case_types)]
pub struct HASH_TABLE<V> {
    v: Vec<Option<usize>>,
    names: Vec<Vec<u8>>,
    values: Vec<V>,
    power: u8,
    size: usize,
    used: usize,
    salt: u64,
    pos: Ghost<Seq<int>>,
    dist: Ghost<Seq<nat>>,
}

/// A cursor over the slots of a table.
#[allow(non_camel_case_types)]
pub struct HASH_TABLE_ITER {
    pub p: usize,
    pub end: usize,
}

/// Compare two names byte by byte.
pub fn keyeq(s1: &[u8], s2: &[u8]) -> (r: bool)
    ensures
        r == (s1@ == s2@),
{
    if s1.len() != s2.len() {
        return false;
    }
    let mut i: usize = 0;
    while i < s1.len()
        invariant
            i <= s1.len(),
            s1.len() == s2.len(),
            forall|j: int| 0 <= j < i ==> s1@[j] == s2@[j],
        decreases s1.len() - i,
    {
        if s1[i] != s2[i] {
            return false;
        }
        i = i + 1;
    }
    assert(s1@ =~= s2@);
    true
}

/// A fresh copy of a name.
pub fn copy_string(s: &[u8]) -> (r: Vec<u8>)
    ensures
        r@ == s@,
{
    let mut r: Vec<u8> = Vec::new();
    let mut i: usize = 0;
    while i < s.len()
        invariant
            i <= s.len(),
            r@ == s@.take(i as int),
        decreases s.len() - i,
    {
        r.push(s[i]);
        i = i + 1;
        assert(r@ =~= s@.take(i as int));
    }
    assert(s@.take(s.len() as int) =~= s@);
    r
}

fn empty_slots(n: usize) -> (r: Vec<Option<usize>>)
    ensures
        r.len() == n,
        forall|j: int| 0 <= j < n ==> r@[j] is None,
{
    let mut r: Vec<Option<usize>> = Vec::new();
    let mut i: usize = 0;
    while i < n
        invariant
            i <= n,
            r.len() == i,
            forall|j: int| 0 <= j < i ==> r@[j] is None,
        decreases n - i,
    {
        r.push(None);
        i = i + 1;
    }
    r
}

/// Slots that hold distinct record indices below `bound`.
pub open spec fn slots_injective(v: Seq<Option<usize>>, bound: int) -> bool {
    &&& forall|j: int| 0 <= j < v.len() && #[trigger] v[j] is Some ==> v[j].unwrap() < bound
    &&& forall|i: int, j: int|
        0 <= i < v.len() && 0 <= j < v.len() && i != j && #[trigger] v[i] is Some
            && #[trigger] v[j] is Some ==> v[i].unwrap() != v[j].unwrap()
}

/// An injective numbering of all slots: a record index for a full slot,
/// a negative number for an empty one.
pub open spec fn slot_code(v: Seq<Option<usize>>) -> spec_fn(int) -> int {
    |j: int|
        if 0 <= j < v.len() && v[j] is Some {
            v[j].unwrap() as int
        } else {
            -1 - j
        }
}

/// The first `t + 1` probes of a full-enough table cannot all hit full
/// slots when fewer than `size` records are stored.
proof fn lemma_probes_not_all_full(
    v: Seq<Option<usize>>,
    h: u64,
    power: u8,
    size: usize,
    bound: int,
    t: nat,
)
    requires
        table_shape(power, size),
        v.len() == size,
        slots_injective(v, bound),
        0 <= bound < size,
        t + 1 == size,
    ensures
        exists|t2: nat| t2 <= t && (#[trigger] v[probe(h, power, size, t2)]) is None,
{
    if forall|t2: nat| t2 <= t ==> (#[trigger] v[probe(h, power, size, t2)]) is Some {
    let f = slot_code(v);
    assert forall|t2: int| 0 <= t2 < size implies 0 <= #[trigger] f(probe(h, power, size, t2 as nat))
        < bound by {
        lemma_probe_closed(h, power, size, t2 as nat);
        assert(v[probe(h, power, size, t2 as nat)] is Some);
    }
    assert forall|i: int, j: int| 0 <= i < size && 0 <= j < size && i != j implies #[trigger] f(i)
        != #[trigger] f(j) by {
        if v[i] is Some && v[j] is Some {
        }
    }
    lemma_probe_pigeonhole(h, power, size, f, bound);
    }
}

/// Walk the probe sequence of `h` to the first empty slot.
fn find_empty_slot(
    v: &Vec<Option<usize>>,
    h: u64,
    power: u8,
    size: usize,
    Ghost(bound): Ghost<int>,
) -> (r: (usize, Ghost<nat>))
    requires
        table_shape(power, size),
        v.len() == size,
        slots_injective(v@, bound),
        0 <= bound < size,
    ensures
        r.0 < size,
        r.1@ < size,
        r.0 == probe(h, power, size, r.1@),
        v@[r.0 as int] is None,
        forall|t: nat| t < r.1@ ==> (#[trigger] v@[probe(h, power, size, t)]) is Some,
{
    proof {
        lemma_probe_params(h, power, size);
    }
    let mask: u64 = (size as u64) - 1;
    let mut i: usize = (h & mask) as usize;
    let mut step: u8 = 0;
    let ghost mut t: nat = 0;
    while v[i].is_some()
        invariant
            table_shape(power, size),
            v.len() == size,
            slots_injective(v@, bound),
            0 <= bound < size,
            mask == (size - 1) as u64,
            t < size,
            i < size,
            i == probe(h, power, size, t),
            step == 0 || step as int == probe_step(h, power, size),
            forall|t2: nat| t2 < t ==> (#[trigger] v@[probe(h, power, size, t2)]) is Some,
        decreases size - t,
    {
        proof {
            lemma_probe_closed(h, power, size, t);
            if t + 1 == size {
                assert forall|t2: nat| t2 <= t implies (#[trigger] v@[probe(h, power, size, t2)]) is Some by {
                    if t2 < t {
                    }
                }
                lemma_probes_not_all_full(v@, h, power, size, bound, t);
            }
        }
        if step == 0 {
            step = ((((h & !mask) >> ((power - 1) as u64)) & (mask >> 2u64)) | 1u64) as u8;
        }
        proof {
            lemma_probe_params(h, power, size);
        }
        if i < step as usize {
            i = i + (size - step as usize);
        } else {
            i = i - step as usize;
        }
        proof {
            t = t + 1;
            lemma_probe_closed(h, power, size, t);
        }
    }
    (i, Ghost(t))
}

impl<V> HASH_TABLE<V> {
    /// The records in the order they were created: name and value.
    pub closed spec fn view(&self) -> Seq<(Seq<u8>, V)> {
        Seq::new(self.names.len() as nat, |e: int| (self.names@[e]@, self.values@[e]))
    }

    /// The salt under which names are hashed.
    pub closed spec fn salt(&self) -> u64 {
        self.salt
    }

    /// The number of slots.
    pub closed spec fn slot_count(&self) -> nat {
        self.size as nat
    }

    /// The slot of the record with index `e`.
    pub closed spec fn slot_of(&self, e: int) -> int {
        self.pos@[e]
    }

    /// The record index held by slot `j`, if any.
    pub closed spec fn slot(&self, j: int) -> Option<usize> {
        self.v@[j]
    }

    pub closed spec fn hash_of(&self, e: int) -> u64 {
        spec_name_hash(self.salt, self.names@[e]@)
    }

    pub closed spec fn wf(&self) -> bool {
        &&& self.v.len() == self.size
        &&& self.used == self.names.len()
        &&& self.values.len() == self.names.len()
        &&& self.pos@.len() == self.names.len()
        &&& self.dist@.len() == self.names.len()
        &&& (self.size == 0 ==> self.used == 0 && self.power == 0)
        &&& (self.size > 0 ==> table_shape(self.power, self.size) && INIT_POWER <= self.power
            && self.used <= self.size / 2)
        &&& slots_injective(self.v@, self.used as int)
        &&& forall|j: int|
            0 <= j < self.size && #[trigger] self.v@[j] is Some ==> self.pos@[self.v@[j].unwrap() as int] == j
        &&& forall|e: int|
            0 <= e < self.used ==> {
                &&& 0 <= #[trigger] self.pos@[e] < self.size
                &&& self.v@[self.pos@[e]] == Some(e as usize)
                &&& self.dist@[e] < self.size
                &&& probe(self.hash_of(e), self.power, self.size, self.dist@[e]) == self.pos@[e]
                &&& forall|t: nat|
                    t < self.dist@[e] ==> (#[trigger] self.v@[probe(
                        self.hash_of(e),
                        self.power,
                        self.size,
                        t,
                    )]) is Some
            }
        &&& forall|e1: int, e2: int|
            0 <= e1 < self.used && 0 <= e2 < self.used && e1 != e2 ==> #[trigger] self.names@[e1]@
                != #[trigger] self.names@[e2]@
    }

    /// The names of a table's records are pairwise distinct.
    pub proof fn lemma_names_distinct(&self, e1: int, e2: int)
        requires
            self.wf(),
            0 <= e1 < self@.len(),
            0 <= e2 < self@.len(),
            e1 != e2,
        ensures
            self@[e1].0 != self@[e2].0,
    {
        assert(self@[e1].0 == self.names@[e1]@);
        assert(self@[e2].0 == self.names@[e2]@);
    }

    /// An empty table whose names are hashed under `salt`.
    pub fn hashTableInit(salt: u64) -> (t: Self)
        ensures
            t.wf(),
            t@ == Seq::<(Seq<u8>, V)>::empty(),
            t.salt() == salt,
            t.slot_count() == 0,
    {
        let t = HASH_TABLE {
            v: Vec::new(),
            names: Vec::new(),
            values: Vec::new(),
            power: 0,
            size: 0,
            used: 0,
            salt,
            pos: Ghost(Seq::empty()),
            dist: Ghost(Seq::empty()),
        };
        assert(t@ =~= Seq::<(Seq<u8>, V)>::empty());
        t
    }

    /// The number of records.
    pub fn len(&self) -> (n: usize)
        requires
            self.wf(),
        ensures
            n == self@.len(),
    {
        self.used
    }

    /// The name of the record with index `e`.
    pub fn name(&self, e: usize) -> (r: &[u8])
        requires
            self.wf(),
            e < self@.len(),
        ensures
            r@ == self@[e as int].0,
    {
        self.names[e].as_slice()
    }

    /// The value of the record with index `e`.
    pub fn value(&self, e: usize) -> (r: &V)
        requires
            self.wf(),
            e < self@.len(),
        ensures
            *r == self@[e as int].1,
    {
        &self.values[e]
    }

    /// Replace the value of the record with index `e`.
    pub fn set_value(&mut self, e: usize, value: V)
        requires
            old(self).wf(),
            e < old(self)@.len(),
        ensures
            final(self).wf(),
            final(self)@ == old(self)@.update(e as int, (old(self)@[e as int].0, value)),
            final(self).salt() == old(self).salt(),
            final(self).slot_count() == old(self).slot_count(),
            forall|j: int| #[trigger] final(self).slot(j) == old(self).slot(j),
            final(self).growth_blocked() == old(self).growth_blocked(),
    {
        self.values.set(e, value);
        proof {
            assert forall|k: int| 0 <= k < self.used implies self.hash_of(k) == old(self).hash_of(k) by {
            }
            assert(self@ =~= old(self)@.update(e as int, (old(self)@[e as int].0, value)));
        }
    }

    /// Take the value of the record with index `e` out of the table,
    /// leaving `placeholder` in its place.
    pub fn take_value(&mut self, e: usize, placeholder: V) -> (r: V)
        requires
            old(self).wf(),
            e < old(self)@.len(),
        ensures
            final(self).wf(),
            r == old(self)@[e as int].1,
            final(self)@ == old(self)@.update(e as int, (old(self)@[e as int].0, placeholder)),
            final(self).salt() == old(self).salt(),
            final(self).growth_blocked() == old(self).growth_blocked(),
    {
        let r = self.values.remove(e);
        self.values.insert(e, placeholder);
        proof {
            assert forall|k: int| 0 <= k < self.used implies self.hash_of(k) == old(self).hash_of(k) by {
            }
            assert(self@ =~= old(self)@.update(e as int, (old(self)@[e as int].0, placeholder)));
        }
        r
    }

    /// Whether a table that must grow to take one more record cannot grow.
    pub closed spec fn growth_blocked(&self) -> bool {
        &&& self.size > 0
        &&& self.used >= self.size / 2
        &&& (self.power + 1 >= 64 || self.size > usize::MAX / 16)
    }

    /// Move every record into a table of twice the size.
    fn grow(&mut self)
        requires
            old(self).wf(),
            old(self).size > 0,
            old(self).power + 1 < 64,
            old(self).size <= usize::MAX / 16,
        ensures
            final(self).wf(),
            final(self)@ == old(self)@,
            final(self).salt == old(self).salt,
            final(self).size == 2 * old(self).size,
            final(self).power == old(self).power + 1,
    {
        let new_power: u8 = self.power + 1;
        let new_size: usize = self.size * 2;
        proof {
            lemma_pow2_unfold(new_power as nat);
        }
        let mut nv = empty_slots(new_size);
        let ghost mut npos: Seq<int> = self.pos@;
        let ghost mut ndist: Seq<nat> = self.dist@;
        let ghost used = self.used as int;
        let mut j: usize = 0;
        while j < self.size
            invariant
                self.wf(),
                self == old(self),
                table_shape(new_power, new_size),
                new_size == 2 * self.size,
                new_power == self.power + 1,
                used == self.used,
                used < new_size,
                j <= self.size,
                nv.len() == new_size,
                npos.len() == used,
                ndist.len() == used,
                slots_injective(nv@, used),
                forall|k: int|
                    0 <= k < new_size && #[trigger] nv@[k] is Some ==> self.pos@[nv@[k].unwrap() as int] < j
                        && npos[nv@[k].unwrap() as int] == k,
                forall|e: int|
                    0 <= e < used && #[trigger] self.pos@[e] < j ==> {
                        &&& 0 <= npos[e] < new_size
                        &&& nv@[npos[e]] == Some(e as usize)
                        &&& ndist[e] < new_size
                        &&& probe(self.hash_of(e), new_power, new_size, ndist[e]) == npos[e]
                        &&& forall|t: nat|
                            t < ndist[e] ==> (#[trigger] nv@[probe(
                                self.hash_of(e),
                                new_power,
                                new_size,
                                t,
                            )]) is Some
                    },
            decreases self.size - j,
        {
            match self.v[j] {
                None => {},
                Some(e) => {
                    let hh = hash(self.salt, self.names[e].as_slice());
                    let (k, Ghost(tt)) = find_empty_slot(&nv, hh, new_power, new_size, Ghost(used));
                    let ghost nv_before = nv@;
                    nv.set(k, Some(e));
                    proof {
                        assert(self.pos@[e as int] == j as int);
                        npos = npos.update(e as int, k as int);
                        ndist = ndist.update(e as int, tt);
                        assert forall|i1: int, i2: int|
                            0 <= i1 < nv@.len() && 0 <= i2 < nv@.len() && i1 != i2
                                && #[trigger] nv@[i1] is Some && #[trigger] nv@[i2] is Some implies nv@[i1].unwrap()
                            != nv@[i2].unwrap() by {
                            if i1 == k as int {
                                assert(nv_before[i2] is Some);
                                assert(self.pos@[nv_before[i2].unwrap() as int] < j);
                            } else if i2 == k as int {
                                assert(nv_before[i1] is Some);
                                assert(self.pos@[nv_before[i1].unwrap() as int] < j);
                            } else {
                                assert(nv_before[i1] is Some && nv_before[i2] is Some);
                            }
                        }
                        assert forall|kk: int|
                            0 <= kk < new_size && #[trigger] nv@[kk] is Some implies self.pos@[nv@[kk].unwrap() as int]
                            < j + 1 && npos[nv@[kk].unwrap() as int] == kk by {
                            if kk != k as int {
                                assert(nv_before[kk] is Some);
                                assert(self.pos@[nv_before[kk].unwrap() as int] < j);
                            }
                        }
                        assert forall|e2: int| 0 <= e2 < used && #[trigger] self.pos@[e2] < j + 1 implies {
                            &&& 0 <= npos[e2] < new_size
                            &&& nv@[npos[e2]] == Some(e2 as usize)
                            &&& ndist[e2] < new_size
                            &&& probe(self.hash_of(e2), new_power, new_size, ndist[e2]) == npos[e2]
                            &&& forall|t: nat|
                                t < ndist[e2] ==> (#[trigger] nv@[probe(
                                    self.hash_of(e2),
                                    new_power,
                                    new_size,
                                    t,
                                )]) is Some
                        } by {
                            if e2 == e as int {
                                assert(self.hash_of(e2) == hh);
                                assert forall|t: nat| t < ndist[e2] implies (#[trigger] nv@[probe(
                                    self.hash_of(e2),
                                    new_power,
                                    new_size,
                                    t,
                                )]) is Some by {
                                    lemma_probe_closed(hh, new_power, new_size, t);
                                    assert(nv_before[probe(hh, new_power, new_size, t)] is Some);
                                }
                            } else {
                                assert(self.pos@[e2] != j as int) by {
                                    assert(self.v@[self.pos@[e2]] == Some(e2 as usize));
                                }
                                assert(self.pos@[e2] < j);
                                assert forall|t: nat| t < ndist[e2] implies (#[trigger] nv@[probe(
                                    self.hash_of(e2),
                                    new_power,
                                    new_size,
                                    t,
                                )]) is Some by {
                                    lemma_probe_closed(self.hash_of(e2), new_power, new_size, t);
                                    assert(nv_before[probe(self.hash_of(e2), new_power, new_size, t)] is Some);
                                }
                            }
                        }
                    }
                },
            }
            j = j + 1;
        }
        proof {
            assert forall|e: int| 0 <= e < used implies #[trigger] self.pos@[e] < j by {
            }
        }
        self.v = nv;
        self.power = new_power;
        self.size = new_size;
        self.pos = Ghost(npos);
        self.dist = Ghost(ndist);
        proof {
            assert forall|e: int| 0 <= e < self.used implies self.hash_of(e) == old(self).hash_of(e) by {
            }
            assert forall|e: int| 0 <= e < self.used implies {
                &&& 0 <= #[trigger] self.pos@[e] < self.size
                &&& self.v@[self.pos@[e]] == Some(e as usize)
                &&& self.dist@[e] < self.size
                &&& probe(self.hash_of(e), self.power, self.size, self.dist@[e]) == self.pos@[e]
                &&& forall|t: nat|
                    t < self.dist@[e] ==> (#[trigger] self.v@[probe(
                        self.hash_of(e),
                        self.power,
                        self.size,
                        t,
                    )]) is Some
            } by {
                assert(old(self).pos@[e] < j);
            }
        }
    }

    /// Find the record named `name`, or create it with `value` when there is
    /// none. `None` when the table would have to grow and cannot.
    pub fn lookup_create(&mut self, name: &[u8], value: V) -> (r: Option<usize>)
        requires
            old(self).wf(),
        ensures
            final(self).wf(),
            final(self).salt() == old(self).salt(),
            match r {
                Some(e) => {
                    &&& e < final(self)@.len()
                    &&& final(self)@[e as int].0 == name@
                    &&& if e < old(self)@.len() {
                        final(self)@ == old(self)@
                    } else {
                        &&& (forall|e2: int| 0 <= e2 < old(self)@.len() ==> old(self)@[e2].0 != name@)
                        &&& final(self)@ == old(self)@.push((name@, value))
                    }
                },
                None => {
                    &&& final(self)@ == old(self)@
                    &&& old(self).growth_blocked()
                    &&& final(self).growth_blocked()
                    &&& forall|e2: int| 0 <= e2 < old(self)@.len() ==> old(self)@[e2].0 != name@
                },
            },
            !old(self).growth_blocked() ==> r is Some,
            old(self).growth_blocked() ==> *final(self) == *old(self),
    {
        let found = self.lookup(name);
        if found.is_some() {
            return found;
        }
        let h = hash(self.salt, name);
        if self.size == 0 {
            self.v = empty_slots(64);
            self.power = INIT_POWER;
            self.size = 64;
            proof {
                lemma2_to64();
            }
        } else if self.used >= self.size / 2 {
            if self.power + 1 >= 64 || self.size > usize::MAX / 16 {
                return None;
            }
            self.grow();
        }
        proof {
            lemma_pow2_pos(self.power as nat);
        }
        let (i, Ghost(t)) = find_empty_slot(&self.v, h, self.power, self.size, Ghost(self.used as int));
        let ghost v_before = self.v@;
        let ghost before = *self;
        self.v.set(i, Some(self.used));
        self.names.push(copy_string(name));
        self.values.push(value);
        proof {
            self.pos@ = self.pos@.push(i as int);
            self.dist@ = self.dist@.push(t);
        }
        let e = self.used;
        self.used = self.used + 1;
        proof {
            assert(self.hash_of(e as int) == h);
            assert forall|k: int| 0 <= k < e implies self.hash_of(k) == before.hash_of(k) by {
            }
            assert forall|i1: int, i2: int|
                0 <= i1 < self.v@.len() && 0 <= i2 < self.v@.len() && i1 != i2 && #[trigger] self.v@[i1] is Some
                    && #[trigger] self.v@[i2] is Some implies self.v@[i1].unwrap() != self.v@[i2].unwrap() by {
                if i1 == i as int {
                    assert(v_before[i2] is Some);
                } else if i2 == i as int {
                    assert(v_before[i1] is Some);
                } else {
                    assert(v_before[i1] is Some && v_before[i2] is Some);
                }
            }
            assert forall|j: int| 0 <= j < self.size && #[trigger] self.v@[j] is Some implies self.pos@[self.v@[j].unwrap() as int]
                == j by {
                if j != i as int {
                    assert(v_before[j] is Some);
                }
            }
            assert forall|k: int| 0 <= k < self.used implies {
                &&& 0 <= #[trigger] self.pos@[k] < self.size
                &&& self.v@[self.pos@[k]] == Some(k as usize)
                &&& self.dist@[k] < self.size
                &&& probe(self.hash_of(k), self.power, self.size, self.dist@[k]) == self.pos@[k]
                &&& forall|t2: nat|
                    t2 < self.dist@[k] ==> (#[trigger] self.v@[probe(
                        self.hash_of(k),
                        self.power,
                        self.size,
                        t2,
                    )]) is Some
            } by {
                if k == e as int {
                    assert forall|t2: nat| t2 < self.dist@[k] implies (#[trigger] self.v@[probe(
                        self.hash_of(k),
                        self.power,
                        self.size,
                        t2,
                    )]) is Some by {
                        lemma_probe_closed(h, self.power, self.size, t2);
                        assert(v_before[probe(h, self.power, self.size, t2)] is Some);
                    }
                } else {
                    assert(0 <= before.pos@[k] < before.size);
                    assert forall|t2: nat| t2 < self.dist@[k] implies (#[trigger] self.v@[probe(
                        self.hash_of(k),
                        self.power,
                        self.size,
                        t2,
                    )]) is Some by {
                        lemma_probe_closed(before.hash_of(k), self.power, self.size, t2);
                        assert(v_before[probe(before.hash_of(k), self.power, self.size, t2)] is Some);
                    }
                }
            }
            assert forall|e1: int, e2: int|
                0 <= e1 < self.used && 0 <= e2 < self.used && e1 != e2 implies #[trigger] self.names@[e1]@
                != #[trigger] self.names@[e2]@ by {
                if e1 == e as int {
                    assert(before@[e2].0 == before.names@[e2]@);
                } else if e2 == e as int {
                    assert(before@[e1].0 == before.names@[e1]@);
                }
            }
            assert(self@ =~= before@.push((name@, value)));
        }
        Some(e)
    }

    /// Forget every record; the slots stay allocated.
    pub fn hashTableClear(&mut self)
        requires
            old(self).wf(),
        ensures
            final(self).wf(),
            final(self)@ == Seq::<(Seq<u8>, V)>::empty(),
            final(self).salt() == old(self).salt(),
            final(self).slot_count() == old(self).slot_count(),
    {
        self.v = empty_slots(self.size);
        self.names = Vec::new();
        self.values = Vec::new();
        self.used = 0;
        self.pos = Ghost(Seq::empty());
        self.dist = Ghost(Seq::empty());
        assert(self@ =~= Seq::<(Seq<u8>, V)>::empty());
    }

    /// Find the record named `name`.
    pub fn lookup(&self, name: &[u8]) -> (r: Option<usize>)
        requires
            self.wf(),
        ensures
            match r {
                Some(e) => e < self@.len() && self@[e as int].0 == name@,
                None => forall|e: int| 0 <= e < self@.len() ==> self@[e].0 != name@,
            },
    {
        if self.size == 0 {
            return None;
        }
        let h = hash(self.salt, name);
        let size = self.size;
        let power = self.power;
        proof {
            lemma_probe_params(h, power, size);
        }
        let mask: u64 = (size as u64) - 1;
        let mut i: usize = (h & mask) as usize;
        let mut step: u8 = 0;
        let ghost mut t: nat = 0;
        loop
            invariant
                self.wf(),
                size == self.size,
                power == self.power,
                size > 0,
                h == spec_name_hash(self.salt, name@),
                mask == (size - 1) as u64,
                t < size,
                i == probe(h, power, size, t),
                step == 0 || step as int == probe_step(h, power, size),
                forall|t2: nat|
                    t2 < t ==> (#[trigger] self.v@[probe(h, power, size, t2)]) is Some
                        && self.names@[self.v@[probe(h, power, size, t2)].unwrap() as int]@
                        != name@,
            decreases size - t,
        {
            proof {
                lemma_probe_closed(h, power, size, t);
            }
            match self.v[i] {
                None => {
                    proof {
                        assert forall|e: int| 0 <= e < self@.len() implies self@[e].0 != name@ by {
                            assert(self@[e].0 == self.names@[e]@);
                            if self.names@[e]@ == name@ {
                                assert(0 <= self.pos@[e] < self.size);
                                assert(self.hash_of(e) == h);
                                let d = self.dist@[e];
                                if d < t {
                                    assert(self.v@[probe(h, power, size, d)] == Some(e as usize));
                                } else if d > t {
                                    assert(self.v@[probe(self.hash_of(e), power, size, t)] is Some);
                                }
                            }
                        }
                    }
                    return None;
                },
                Some(e) => {
                    if keyeq(name, self.names[e].as_slice()) {
                        assert(self@[e as int].0 == self.names@[e as int]@);
                        return Some(e);
                    }
                    proof {
                        if t + 1 == size {
                            assert forall|t2: nat| t2 <= t implies (#[trigger] self.v@[probe(
                                h,
                                power,
                                size,
                                t2,
                            )]) is Some by {
                                if t2 < t {
                                }
                            }
                            lemma_probes_not_all_full(self.v@, h, power, size, self.used as int, t);
                        }
                    }
                    if step == 0 {
                        step = ((((h & !mask) >> ((power - 1) as u64)) & (mask >> 2u64)) | 1u64) as u8;
                    }
                    proof {
                        lemma_probe_params(h, power, size);
                    }
                    if i < step as usize {
                        i = i + (size - step as usize);
                    } else {
                        i = i - step as usize;
                    }
                    proof {
                        t = t + 1;
                    }
                },
            }
        }
    }

    /// The shape and load of a table: a table without slots holds no
    /// record; one with slots has a power of two of them, at least
    /// `2^INIT_POWER`, and is at most half full, so that every probe meets
    /// an empty slot.
    pub proof fn lemma_load(&self)
        requires
            self.wf(),
        ensures
            self.slot_count() == 0 ==> self@.len() == 0,
            self.slot_count() > 0 ==> 2 * self@.len() <= self.slot_count(),
            self.slot_count() > 0 ==> exists|p: nat| INIT_POWER <= p < 64 && self.slot_count() == pow2(p),
            self@.len() <= usize::MAX,
    {
        if self.slot_count() > 0 {
            assert(INIT_POWER <= self.power as nat && self.slot_count() == pow2(self.power as nat));
        }
    }

    /// A table that cannot grow holds more records than any table that
    /// fits in memory could: at least a 64th of the largest `usize`.
    pub proof fn lemma_blocked_is_huge(&self)
        requires
            self.wf(),
            self.growth_blocked(),
        ensures
            self@.len() >= usize::MAX / 64,
    {
        if self.power + 1 >= 64 {
            lemma2_to64();
            assert(table_shape(self.power, self.size));
            assert(self.power == 63);
            lemma_pow2_unfold(64);
            assert(pow2(63) == 0x8000_0000_0000_0000);
            assert(self.size as int == 0x8000_0000_0000_0000int);
        }
    }

    /// Every record sits in exactly one slot.
    pub proof fn lemma_slots(&self)
        requires
            self.wf(),
        ensures
            forall|e: int|
                0 <= e < self@.len() ==> 0 <= #[trigger] self.slot_of(e) < self.slot_count() && self.slot(
                    self.slot_of(e),
                ) == Some(e as usize),
            forall|j: int|
                0 <= j < self.slot_count() && (#[trigger] self.slot(j)) is Some ==> self.slot(j).unwrap()
                    < self@.len() && self.slot_of(self.slot(j).unwrap() as int) == j,
    {
        assert forall|e: int| 0 <= e < self@.len() implies 0 <= #[trigger] self.slot_of(e)
            < self.slot_count() && self.slot(self.slot_of(e)) == Some(e as usize) by {
            assert(0 <= self.pos@[e] < self.size);
        }
    }
}

impl HASH_TABLE_ITER {
    /// A cursor at the first slot of `table`.
    pub fn hashTableIterInit<V>(table: &HASH_TABLE<V>) -> (it: Self)
        requires
            table.wf(),
        ensures
            it.p == 0,
            it.end == table.slot_count(),
    {
        HASH_TABLE_ITER { p: 0, end: table.size }
    }

    /// The record in the next full slot, if any, moving the cursor past it.
    pub fn hashTableIterNext<V>(&mut self, table: &HASH_TABLE<V>) -> (r: Option<usize>)
        requires
            table.wf(),
            old(self).end == table.slot_count(),
            old(self).p <= old(self).end,
        ensures
            final(self).end == old(self).end,
            final(self).p <= final(self).end,
            match r {
                Some(e) => {
                    &&& e < table@.len()
                    &&& old(self).p <= table.slot_of(e as int) < old(self).end
                    &&& final(self).p == table.slot_of(e as int) + 1
                    &&& forall|j: int| old(self).p <= j < table.slot_of(e as int) ==> (#[trigger] table.slot(j)) is None
                },
                None => {
                    &&& final(self).p == old(self).end
                    &&& forall|j: int| old(self).p <= j < old(self).end ==> (#[trigger] table.slot(j)) is None
                },
            },
    {
        while self.p < self.end
            invariant
                table.wf(),
                self.end == old(self).end,
                self.end == table.slot_count(),
                old(self).p <= self.p <= self.end,
                forall|j: int| old(self).p <= j < self.p ==> (#[trigger] table.slot(j)) is None,
            decreases self.end - self.p,
        {
            let j = self.p;
            self.p = self.p + 1;
            match table.v[j] {
                Some(e) => {
                    proof {
                        assert(table.v@[j as int] is Some);
                    }
                    return Some(e);
                },
                None => {},
            }
        }
        None
    }
}

} // verus!
