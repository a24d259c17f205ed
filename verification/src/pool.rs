//! The string pool: strings are built one character at a time at the end of
//! the pool and then either kept ("finished") or thrown away ("discarded").
//!
//! The pool's characters live in blocks. A string never spans two blocks:
//! when the current block is full the string being built moves to a bigger
//! block, and blocks are recycled after the pool is cleared. A string is
//! named by the offset where it starts; the offsets of finished strings stay
//! valid until the pool is cleared.
use vstd::prelude::*;

verus! {

/// The size of the first block of a pool.
pub const INIT_BLOCK_SIZE: i32 = 1024;

/// The bytes in front of a block's characters: a link and the block size.
pub const BLOCK_HEADER_BYTES: u64 = 12;

/// A string shorter than this never makes the pool fail to grow.
pub const POOL_STRING_LIMIT: usize = 0x3fff_fffa;

/// A string pool.
#[allow(non_camel_case_types)]
pub struct STRING_POOL {
    data: Vec<u8>,
    start: usize,
    base: usize,
    blocks: Vec<i32>,
    free_blocks: Vec<i32>,
}

/// The number of bytes to allocate for a block of `blockSize` characters,
/// or 0 when that number does not fit in an `int`.
pub fn poolBytesToAllocateFor(blockSize: i32) -> (r: usize)
    ensures
        r == if 0 < blockSize && blockSize as int + BLOCK_HEADER_BYTES <= i32::MAX {
            blockSize as int + BLOCK_HEADER_BYTES
        } else {
            0
        },
{
    if blockSize <= 0 {
        return 0;
    }
    let bytes: u64 = BLOCK_HEADER_BYTES + blockSize as u64;
    if bytes > i32::MAX as u64 {
        return 0;
    }
    bytes as usize
}

impl STRING_POOL {
    /// All characters of the pool: the finished strings, then the string
    /// being built.
    pub closed spec fn view(&self) -> Seq<u8> {
        self.data@
    }

    /// Where the string being built starts.
    pub closed spec fn start(&self) -> nat {
        self.start as nat
    }

    /// The characters of the string being built.
    pub open spec fn current(&self) -> Seq<u8> {
        self@.skip(self.start() as int)
    }

    /// The block sizes in use, the current block last.
    pub closed spec fn block_sizes(&self) -> Seq<i32> {
        self.blocks@
    }

    /// The block sizes ready for reuse, the next to reuse last.
    pub closed spec fn free_block_sizes(&self) -> Seq<i32> {
        self.free_blocks@
    }

    /// Whether the current block has room for one more character.
    pub closed spec fn has_room(&self) -> bool {
        self.blocks.len() > 0 && self.data.len() - self.base < self.blocks@.last()
    }

    /// The room from the start of the string being built to the end of the
    /// current block (0 without a block): what a new block must exceed.
    pub closed spec fn span(&self) -> int {
        if self.blocks.len() == 0 {
            0
        } else {
            self.blocks@.last() - (self.start - self.base)
        }
    }

    /// The string being built fits in the span, and fills it when the
    /// current block is full.
    pub proof fn lemma_span(&self)
        requires
            self.wf(),
        ensures
            self.current().len() <= self.span(),
            !self.has_room() ==> self.current().len() == self.span(),
    {
    }

    proof fn lemma_current_len(&self)
        requires
            self.wf(),
        ensures
            self.current().len() == self.data.len() - self.start,
    {
    }

    pub closed spec fn wf(&self) -> bool {
        &&& self.start <= self.data.len()
        &&& (self.blocks.len() == 0 ==> self.data.len() == 0 && self.start == 0 && self.base == 0)
        &&& (self.blocks.len() > 0 ==> self.base <= self.start && self.data.len() - self.base
            <= self.blocks@.last())
        &&& forall|k: int| 0 <= k < self.blocks.len() ==> #[trigger] self.blocks@[k] > 0
        &&& forall|k: int| 0 <= k < self.free_blocks.len() ==> #[trigger] self.free_blocks@[k] > 0
    }

    /// An empty pool.
    pub fn poolInit() -> (p: Self)
        ensures
            p.wf(),
            p@ == Seq::<u8>::empty(),
            p.start() == 0,
            p.block_sizes() == Seq::<i32>::empty(),
            p.free_block_sizes() == Seq::<i32>::empty(),
    {
        STRING_POOL { data: Vec::new(), start: 0, base: 0, blocks: Vec::new(), free_blocks: Vec::new() }
    }

    /// Whether the current block has no room for one more character.
    fn is_full(&self) -> (r: bool)
        requires
            self.wf(),
        ensures
            r == !self.has_room(),
    {
        if self.blocks.len() == 0 {
            true
        } else {
            self.data.len() - self.base == self.blocks[self.blocks.len() - 1] as usize
        }
    }

    /// Make room for at least one more character in the current block,
    /// moving the string being built when it needs a new block: a free
    /// block larger than the span is reused, a block that holds only the
    /// string being built doubles, and otherwise a new block of twice the
    /// span (at least the initial size) is taken. False when that size
    /// passes the largest `int`.
    pub fn poolGrow(&mut self) -> (r: bool)
        requires
            old(self).wf(),
        ensures
            final(self).wf(),
            final(self)@ == old(self)@,
            final(self).start() == old(self).start(),
            r ==> final(self).has_room(),
            !r ==> old(self).span() >= POOL_STRING_LIMIT,
    {
        proof {
            self.lemma_current_len();
        }
        if self.free_blocks.len() > 0 {
            if self.blocks.len() == 0 {
                let sz = self.free_blocks.pop().unwrap();
                self.blocks.push(sz);
                self.base = self.start;
                return true;
            }
            let head = self.free_blocks[self.free_blocks.len() - 1];
            let cur = self.blocks[self.blocks.len() - 1];
            if (cur as usize - (self.start - self.base)) < head as usize {
                let sz = self.free_blocks.pop().unwrap();
                self.blocks.push(sz);
                self.base = self.start;
                return true;
            }
        }
        if self.blocks.len() > 0 && self.start == self.base {
            let cur = self.blocks[self.blocks.len() - 1];
            if cur >= 0x4000_0000 {
                return false;
            }
            let block_size: i32 = cur * 2;
            let bytes = poolBytesToAllocateFor(block_size);
            if bytes == 0 {
                return false;
            }
            let last = self.blocks.len() - 1;
            self.blocks.set(last, block_size);
            proof {
                assert forall|k: int| 0 <= k < self.blocks.len() implies #[trigger] self.blocks@[k] > 0 by {
                    if k != last as int {
                        assert(self.blocks@[k] == old(self).blocks@[k]);
                    }
                }
            }
            true
        } else {
            let room: usize = if self.blocks.len() == 0 {
                0
            } else {
                self.blocks[self.blocks.len() - 1] as usize - (self.start - self.base)
            };
            let mut block_size: i32;
            if room < INIT_BLOCK_SIZE as usize {
                block_size = INIT_BLOCK_SIZE;
            } else {
                if room >= 0x4000_0000 {
                    return false;
                }
                block_size = (room * 2) as i32;
            }
            let bytes = poolBytesToAllocateFor(block_size);
            if bytes == 0 {
                return false;
            }
            self.blocks.push(block_size);
            self.base = self.start;
            proof {
                assert forall|k: int| 0 <= k < self.blocks.len() implies #[trigger] self.blocks@[k] > 0 by {
                    if k < old(self).blocks.len() {
                        assert(self.blocks@[k] == old(self).blocks@[k]);
                    }
                }
            }
            true
        }
    }

    /// Append one character to the string being built; false when the pool
    /// could not grow.
    pub fn poolAppendChar(&mut self, c: u8) -> (r: bool)
        requires
            old(self).wf(),
        ensures
            final(self).wf(),
            final(self).start() == old(self).start(),
            r ==> final(self)@ == old(self)@.push(c),
            !r ==> final(self)@ == old(self)@ && old(self).current().len() >= POOL_STRING_LIMIT,
    {
        if self.is_full() {
            if !self.poolGrow() {
                return false;
            }
        }
        self.data.push(c);
        true
    }

    /// Append `s` to the string being built. On failure the characters that
    /// fitted stay.
    fn append_bytes(&mut self, s: &[u8]) -> (r: bool)
        requires
            old(self).wf(),
        ensures
            final(self).wf(),
            final(self).start() == old(self).start(),
            r ==> final(self)@ == old(self)@ + s@,
            !r ==> old(self).current().len() + s@.len() >= POOL_STRING_LIMIT,
            !r ==> exists|k: int|
                0 <= k <= s@.len() && final(self)@ == old(self)@ + s@.take(k),
    {
        proof {
            self.lemma_current_len();
        }
        let mut i: usize = 0;
        while i < s.len()
            invariant
                self.wf(),
                i <= s.len(),
                self.start() == old(self).start(),
                self@ == old(self)@ + s@.take(i as int),
                old(self).current().len() == old(self)@.len() - old(self).start(),
            decreases s.len() - i,
        {
            if !self.poolAppendChar(s[i]) {
                proof {
                    self.lemma_current_len();
                }
                assert(self.current().len() == old(self).current().len() + i);
                return false;
            }
            i = i + 1;
            assert(self@ =~= old(self)@ + s@.take(i as int));
        }
        assert(s@.take(s.len() as int) =~= s@);
        true
    }

    /// Append the characters `s` (already in the parser's internal
    /// encoding) to the string being built and return where it starts.
    pub fn poolAppend(&mut self, s: &[u8]) -> (r: Option<usize>)
        requires
            old(self).wf(),
        ensures
            final(self).wf(),
            final(self).start() == old(self).start(),
            r is Some ==> r == Some(old(self).start() as usize) && final(self)@ == old(self)@ + s@,
            r is None ==> old(self).current().len() + s@.len() >= POOL_STRING_LIMIT,
    {
        if self.blocks.len() == 0 {
            if !self.poolGrow() {
                return None;
            }
        }
        if self.append_bytes(s) {
            Some(self.start)
        } else {
            None
        }
    }

    /// Append the characters of `s` (a string without its terminator) and
    /// return where the string being built starts.
    pub fn poolAppendString(&mut self, s: &[u8]) -> (r: Option<usize>)
        requires
            old(self).wf(),
        ensures
            final(self).wf(),
            final(self).start() == old(self).start(),
            r is Some ==> r == Some(old(self).start() as usize) && final(self)@ == old(self)@ + s@,
            r is None ==> old(self).current().len() + s@.len() >= POOL_STRING_LIMIT,
    {
        if self.append_bytes(s) {
            Some(self.start)
        } else {
            None
        }
    }

    /// Append `s` and a terminating zero, and return where the string being
    /// built starts.
    pub fn poolStoreString(&mut self, s: &[u8]) -> (r: Option<usize>)
        requires
            old(self).wf(),
        ensures
            final(self).wf(),
            final(self).start() == old(self).start(),
            r is Some ==> r == Some(old(self).start() as usize) && final(self)@ == old(self)@ + s@
                + seq![0u8],
            r is None ==> old(self).current().len() + s@.len() + 1 >= POOL_STRING_LIMIT,
    {
        if self.poolAppend(s).is_none() {
            return None;
        }
        let ghost mid = self@;
        if !self.poolAppendChar(0) {
            return None;
        }
        assert(self@ =~= old(self)@ + s@ + seq![0u8]);
        Some(self.start)
    }

    /// Keep the string being built; the next string starts after it.
    pub fn poolFinish(&mut self)
        requires
            old(self).wf(),
        ensures
            final(self).wf(),
            final(self)@ == old(self)@,
            final(self).start() == old(self)@.len(),
    {
        self.start = self.data.len();
    }

    /// Throw away the string being built.
    pub fn poolDiscard(&mut self)
        requires
            old(self).wf(),
        ensures
            final(self).wf(),
            final(self)@ == old(self)@.take(old(self).start() as int),
            final(self).start() == old(self).start(),
    {
        self.data.truncate(self.start);
        assert(self.data@ =~= old(self).data@.take(old(self).start as int));
    }

    /// The number of characters in the string being built.
    pub fn poolLength(&self) -> (n: usize)
        requires
            self.wf(),
        ensures
            n == self.current().len(),
    {
        self.data.len() - self.start
    }

    /// Drop the last character of the string being built.
    pub fn poolChop(&mut self)
        requires
            old(self).wf(),
            old(self).current().len() > 0,
        ensures
            final(self).wf(),
            final(self)@ == old(self)@.drop_last(),
            final(self).start() == old(self).start(),
    {
        self.data.pop();
    }

    /// The last character of the string being built.
    pub fn poolLastChar(&self) -> (c: u8)
        requires
            self.wf(),
            self.current().len() > 0,
        ensures
            c == self@.last(),
    {
        self.data[self.data.len() - 1]
    }

    /// Copy `s` with a terminating zero as a finished string and return
    /// where it starts.
    pub fn poolCopyString(&mut self, s: &[u8]) -> (r: Option<usize>)
        requires
            old(self).wf(),
        ensures
            final(self).wf(),
            r is Some ==> {
                &&& r == Some(old(self).start() as usize)
                &&& final(self)@ == old(self)@ + s@ + seq![0u8]
                &&& final(self).start() == final(self)@.len()
            },
            r is None ==> old(self).current().len() + s@.len() + 1 >= POOL_STRING_LIMIT,
    {
        if !self.append_bytes(s) {
            return None;
        }
        if !self.poolAppendChar(0) {
            return None;
        }
        let r = self.start;
        self.start = self.data.len();
        assert(self@ =~= old(self)@ + s@ + seq![0u8]);
        Some(r)
    }

    /// Copy the first `n` characters of `s` (no terminator) as a finished
    /// string and return where it starts.
    pub fn poolCopyStringN(&mut self, s: &[u8], n: usize) -> (r: Option<usize>)
        requires
            old(self).wf(),
            n <= s@.len(),
        ensures
            final(self).wf(),
            r is Some ==> {
                &&& r == Some(old(self).start() as usize)
                &&& final(self)@ == old(self)@ + s@.take(n as int)
                &&& final(self).start() == final(self)@.len()
            },
            r is None ==> old(self).current().len() + n >= POOL_STRING_LIMIT,
    {
        if self.blocks.len() == 0 {
            if !self.poolGrow() {
                return None;
            }
        }
        proof {
            self.lemma_current_len();
        }
        let mut i: usize = 0;
        while i < n
            invariant
                self.wf(),
                i <= n,
                n <= s@.len(),
                self.start() == old(self).start(),
                self@ == old(self)@ + s@.take(i as int),
                old(self).current().len() == old(self)@.len() - old(self).start(),
            decreases n - i,
        {
            if !self.poolAppendChar(s[i]) {
                proof {
                    self.lemma_current_len();
                }
                assert(self.current().len() == old(self).current().len() + i);
                return None;
            }
            i = i + 1;
            assert(self@ =~= old(self)@ + s@.take(i as int));
        }
        let r = self.start;
        self.start = self.data.len();
        Some(r)
    }

    /// Append `s` with a terminating zero without finishing the string;
    /// on failure the pool is left as it was.
    pub fn poolCopyStringNoFinish(&mut self, s: &[u8]) -> (r: Option<usize>)
        requires
            old(self).wf(),
        ensures
            final(self).wf(),
            final(self).start() == old(self).start(),
            r is Some ==> r == Some(old(self).start() as usize) && final(self)@ == old(self)@ + s@
                + seq![0u8],
            r is None ==> final(self)@ == old(self)@ && old(self).current().len() + s@.len() + 1
                >= POOL_STRING_LIMIT,
    {
        let keep = self.data.len();
        if !self.append_bytes(s) {
            self.data.truncate(keep);
            assert(self.data@ =~= old(self).data@);
            return None;
        }
        if !self.poolAppendChar(0) {
            self.data.truncate(keep);
            assert(self.data@ =~= old(self).data@);
            return None;
        }
        assert(self@ =~= old(self)@ + s@ + seq![0u8]);
        Some(self.start)
    }

    /// Empty the pool; its blocks are kept for reuse.
    pub fn poolClear(&mut self)
        requires
            old(self).wf(),
        ensures
            final(self).wf(),
            final(self)@ == Seq::<u8>::empty(),
            final(self).start() == 0,
            final(self).block_sizes() == Seq::<i32>::empty(),
            old(self).free_block_sizes().len() == 0 ==> final(self).free_block_sizes()
                == old(self).block_sizes(),
            old(self).free_block_sizes().len() > 0 ==> final(self).free_block_sizes()
                == old(self).free_block_sizes() + old(self).block_sizes().reverse(),
    {
        if self.free_blocks.len() == 0 {
            let mut taken: Vec<i32> = Vec::new();
            std::mem::swap(&mut taken, &mut self.blocks);
            self.free_blocks = taken;
        } else {
            let mut k = self.blocks.len();
            while k > 0
                invariant
                    k <= self.blocks.len(),
                    self.blocks@ == old(self).blocks@,
                    self.free_blocks@ == old(self).free_blocks@ + old(self).blocks@.skip(k as int).reverse(),
                    forall|j: int| 0 <= j < self.blocks.len() ==> #[trigger] self.blocks@[j] > 0,
                    forall|j: int| 0 <= j < self.free_blocks.len() ==> #[trigger] self.free_blocks@[j] > 0,
                decreases k,
            {
                k = k - 1;
                let b = self.blocks[k];
                self.free_blocks.push(b);
                assert(old(self).blocks@.skip(k as int).reverse() =~= old(self).blocks@.skip(k + 1).reverse().push(b));
            }
            assert(old(self).blocks@.skip(0) =~= old(self).blocks@);
            self.blocks = Vec::new();
        }
        self.data = Vec::new();
        self.start = 0;
        self.base = 0;
    }

    /// The characters of the pool.
    pub fn chars(&self) -> (r: &[u8])
        requires
            self.wf(),
        ensures
            r@ == self@,
    {
        self.data.as_slice()
    }

    /// Where the string being built starts.
    pub fn poolStart(&self) -> (r: usize)
        requires
            self.wf(),
        ensures
            r == self.start(),
    {
        self.start
    }
}

} // verus!
