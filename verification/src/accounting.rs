//! The protections against amplification attacks: the count of input and
//! output bytes ("billion laughs" accounting), the statistics of entity
//! nesting, and the count of heap bytes in use.
//!
//! Both amplification checks compare a ratio of counts with a limit that is
//! a floating-point number. The counting and the activation thresholds are
//! decided here; when a count is above its threshold, the caller compares
//! the ratio with the limit.
use vstd::prelude::*;

verus! {

/// Token numbers for which no accounting is done.
pub const XML_TOK_INVALID: i32 = 0;
pub const XML_TOK_PARTIAL: i32 = -1;
pub const XML_TOK_PARTIAL_CHAR: i32 = -2;
pub const XML_TOK_NONE: i32 = -4;

/// The default activation threshold of the input amplification check.
pub const EXPAT_BILLION_LAUGHS_ATTACK_PROTECTION_ACTIVATION_THRESHOLD_DEFAULT: u64 = 8388608;

/// The default activation threshold of the heap amplification check.
pub const EXPAT_ALLOC_TRACKER_ACTIVATION_THRESHOLD_DEFAULT: u64 = 67108864;

/// The bytes in front of every block the parser allocates: its size,
/// padded to the alignment of `long long`.
pub const EXPAT_MALLOC_HEADER: usize = 8;

/// Which count a stretch of bytes goes to.
#[derive(PartialEq, Eq, Structural, Clone, Copy, Debug)]
#[allow(non_camel_case_types)]
pub enum XML_Account {
    XML_ACCOUNT_DIRECT,
    XML_ACCOUNT_ENTITY_EXPANSION,
    XML_ACCOUNT_NONE,
}

/// Statistics on the nesting of entities.
#[allow(non_camel_case_types)]
pub struct entity_stats {
    pub countEverOpened: u32,
    pub currentDepth: u32,
    pub maximumDepthSeen: u32,
    pub debugLevel: u64,
}

impl entity_stats {
    /// No entity opened yet.
    pub fn new(debugLevel: u64) -> (s: Self)
        ensures
            s.countEverOpened == 0,
            s.currentDepth == 0,
            s.maximumDepthSeen == 0,
            s.debugLevel == debugLevel,
    {
        entity_stats { countEverOpened: 0, currentDepth: 0, maximumDepthSeen: 0, debugLevel }
    }

    /// An entity was opened: one more opened, one level deeper.
    pub fn entityTrackingOnOpen(&mut self)
        ensures
            final(self).countEverOpened == vstd::wrapping::u32_specs::wrapping_add(
                old(self).countEverOpened,
                1,
            ),
            final(self).currentDepth == vstd::wrapping::u32_specs::wrapping_add(old(self).currentDepth, 1),
            final(self).maximumDepthSeen == if final(self).currentDepth > old(self).maximumDepthSeen {
                vstd::wrapping::u32_specs::wrapping_add(old(self).maximumDepthSeen, 1)
            } else {
                old(self).maximumDepthSeen
            },
            final(self).debugLevel == old(self).debugLevel,
    {
        self.countEverOpened = self.countEverOpened.wrapping_add(1);
        self.currentDepth = self.currentDepth.wrapping_add(1);
        if self.currentDepth > self.maximumDepthSeen {
            self.maximumDepthSeen = self.maximumDepthSeen.wrapping_add(1);
        }
    }

    /// An entity was closed: one level less deep.
    pub fn entityTrackingOnClose(&mut self)
        ensures
            final(self).currentDepth == vstd::wrapping::u32_specs::wrapping_sub(old(self).currentDepth, 1),
            final(self).countEverOpened == old(self).countEverOpened,
            final(self).maximumDepthSeen == old(self).maximumDepthSeen,
            final(self).debugLevel == old(self).debugLevel,
    {
        self.currentDepth = self.currentDepth.wrapping_sub(1);
    }
}

/// The deepest nesting seen is never below the current one, while the
/// counters stay below their limits.
pub open spec fn stats_consistent(s: entity_stats) -> bool {
    &&& s.currentDepth <= s.maximumDepthSeen
    &&& s.maximumDepthSeen <= s.countEverOpened
}

/// Opening an entity keeps the statistics consistent (away from the
/// counters' limits) and closing it brings the depth back.
pub proof fn lemma_open_close(before: entity_stats, opened: entity_stats, closed: entity_stats)
    requires
        stats_consistent(before),
        before.countEverOpened < u32::MAX,
        opened.countEverOpened == vstd::wrapping::u32_specs::wrapping_add(before.countEverOpened, 1),
        opened.currentDepth == vstd::wrapping::u32_specs::wrapping_add(before.currentDepth, 1),
        opened.maximumDepthSeen == if opened.currentDepth > before.maximumDepthSeen {
            vstd::wrapping::u32_specs::wrapping_add(before.maximumDepthSeen, 1)
        } else {
            before.maximumDepthSeen
        },
        closed.currentDepth == vstd::wrapping::u32_specs::wrapping_sub(opened.currentDepth, 1),
        closed.countEverOpened == opened.countEverOpened,
        closed.maximumDepthSeen == opened.maximumDepthSeen,
    ensures
        stats_consistent(opened),
        opened.maximumDepthSeen >= before.currentDepth + 1,
        stats_consistent(closed),
        closed.currentDepth == before.currentDepth,
{
}

/// The byte counts of the input amplification protection.
#[allow(non_camel_case_types)]
pub struct accounting {
    pub countBytesDirect: u64,
    pub countBytesIndirect: u64,
    pub debugLevel: u64,
    pub activationThresholdBytes: u64,
}

/// What accounting a stretch of bytes decides.
#[derive(PartialEq, Eq, Structural, Clone, Copy, Debug)]
pub enum AccountVerdict {
    /// The stretch is tolerated.
    Tolerated,
    /// A count would overflow: the stretch is not tolerated.
    Overflow,
    /// The output is above the activation threshold: the stretch is
    /// tolerated when the amplification factor is within its limit.
    CheckAmplification,
}

impl accounting {
    /// Nothing counted yet.
    pub fn new(debugLevel: u64) -> (a: Self)
        ensures
            a.countBytesDirect == 0,
            a.countBytesIndirect == 0,
            a.debugLevel == debugLevel,
            a.activationThresholdBytes == EXPAT_BILLION_LAUGHS_ATTACK_PROTECTION_ACTIVATION_THRESHOLD_DEFAULT,
    {
        accounting {
            countBytesDirect: 0,
            countBytesIndirect: 0,
            debugLevel,
            activationThresholdBytes: EXPAT_BILLION_LAUGHS_ATTACK_PROTECTION_ACTIVATION_THRESHOLD_DEFAULT,
        }
    }

    /// The bytes produced so far, direct and from entities.
    pub open spec fn output(&self) -> u64 {
        vstd::wrapping::u64_specs::wrapping_add(self.countBytesDirect, self.countBytesIndirect)
    }

    /// Count the `bytesMore` bytes of token `tok` read under `account`;
    /// `isRoot` tells whether they were read by the root parser. Bytes read
    /// directly by the root parser count as direct, all others as indirect.
    pub fn accountingDiffTolerated(&mut self, tok: i32, account: XML_Account, isRoot: bool, bytesMore: u64) -> (r:
        AccountVerdict)
        ensures
            final(self).debugLevel == old(self).debugLevel,
            final(self).activationThresholdBytes == old(self).activationThresholdBytes,
            if tok == XML_TOK_INVALID || tok == XML_TOK_PARTIAL || tok == XML_TOK_PARTIAL_CHAR || tok
                == XML_TOK_NONE || account == XML_Account::XML_ACCOUNT_NONE {
                r == AccountVerdict::Tolerated && *final(self) == *old(self)
            } else {
                let direct = account == XML_Account::XML_ACCOUNT_DIRECT && isRoot;
                let target = if direct {
                    old(self).countBytesDirect
                } else {
                    old(self).countBytesIndirect
                };
                if target > u64::MAX - bytesMore {
                    r == AccountVerdict::Overflow && *final(self) == *old(self)
                } else {
                    &&& (direct ==> final(self).countBytesDirect == target + bytesMore
                        && final(self).countBytesIndirect == old(self).countBytesIndirect)
                    &&& (!direct ==> final(self).countBytesIndirect == target + bytesMore
                        && final(self).countBytesDirect == old(self).countBytesDirect)
                    &&& r == if final(self).output() < final(self).activationThresholdBytes {
                        AccountVerdict::Tolerated
                    } else {
                        AccountVerdict::CheckAmplification
                    }
                }
            },
    {
        if tok == XML_TOK_INVALID || tok == XML_TOK_PARTIAL || tok == XML_TOK_PARTIAL_CHAR || tok
            == XML_TOK_NONE {
            return AccountVerdict::Tolerated;
        }
        if account == XML_Account::XML_ACCOUNT_NONE {
            return AccountVerdict::Tolerated;
        }
        let direct = account == XML_Account::XML_ACCOUNT_DIRECT && isRoot;
        if direct {
            if self.countBytesDirect > u64::MAX - bytesMore {
                return AccountVerdict::Overflow;
            }
            self.countBytesDirect = self.countBytesDirect + bytesMore;
        } else {
            if self.countBytesIndirect > u64::MAX - bytesMore {
                return AccountVerdict::Overflow;
            }
            self.countBytesIndirect = self.countBytesIndirect + bytesMore;
        }
        let output = self.countBytesDirect.wrapping_add(self.countBytesIndirect);
        if output < self.activationThresholdBytes {
            AccountVerdict::Tolerated
        } else {
            AccountVerdict::CheckAmplification
        }
    }

    /// The bytes counted as read directly.
    pub fn testingAccountingGetCountBytesDirect(&self) -> (r: u64)
        ensures
            r == self.countBytesDirect,
    {
        self.countBytesDirect
    }

    /// The bytes counted as produced by entities.
    pub fn testingAccountingGetCountBytesIndirect(&self) -> (r: u64)
        ensures
            r == self.countBytesIndirect,
    {
        self.countBytesIndirect
    }
}

/// The heap bytes in use by a parser and its children.
#[allow(non_camel_case_types)]
pub struct MALLOC_TRACKER {
    pub bytesAllocated: u64,
    pub peakBytesAllocated: u64,
    pub debugLevel: u64,
    pub activationThresholdBytes: u64,
}

/// Whether growing the heap by some bytes is tolerated.
#[derive(PartialEq, Eq, Structural, Clone, Copy, Debug)]
pub enum HeapVerdict {
    Tolerated,
    /// The count would overflow.
    Overflow,
    /// The new total is above the activation threshold: tolerated when the
    /// ratio of the new total to the direct input bytes is within its limit.
    CheckAmplification(u64),
}

/// The number of bytes to request for a block of `size` bytes: the size plus
/// its header, unless that overflows.
pub fn expat_malloc_bytes(size: usize) -> (r: Option<usize>)
    ensures
        match r {
            Some(n) => n == size + EXPAT_MALLOC_HEADER,
            None => size + EXPAT_MALLOC_HEADER > usize::MAX,
        },
{
    if usize::MAX - size < EXPAT_MALLOC_HEADER {
        None
    } else {
        Some(size + EXPAT_MALLOC_HEADER)
    }
}

impl MALLOC_TRACKER {
    /// Nothing allocated yet.
    pub fn new(debugLevel: u64) -> (t: Self)
        ensures
            t.bytesAllocated == 0,
            t.peakBytesAllocated == 0,
            t.debugLevel == debugLevel,
            t.activationThresholdBytes == EXPAT_ALLOC_TRACKER_ACTIVATION_THRESHOLD_DEFAULT,
    {
        MALLOC_TRACKER {
            bytesAllocated: 0,
            peakBytesAllocated: 0,
            debugLevel,
            activationThresholdBytes: EXPAT_ALLOC_TRACKER_ACTIVATION_THRESHOLD_DEFAULT,
        }
    }

    /// Whether `increase` more heap bytes are tolerated.
    pub fn expat_heap_increase_tolerable(&self, increase: u64) -> (r: HeapVerdict)
        ensures
            if u64::MAX - self.bytesAllocated < increase {
                r == HeapVerdict::Overflow
            } else if self.bytesAllocated + increase >= self.activationThresholdBytes {
                r == HeapVerdict::CheckAmplification((self.bytesAllocated + increase) as u64)
            } else {
                r == HeapVerdict::Tolerated
            },
    {
        if u64::MAX - self.bytesAllocated < increase {
            return HeapVerdict::Overflow;
        }
        let new_total = self.bytesAllocated + increase;
        if new_total >= self.activationThresholdBytes {
            HeapVerdict::CheckAmplification(new_total)
        } else {
            HeapVerdict::Tolerated
        }
    }

    fn note_peak(&mut self)
        ensures
            final(self).bytesAllocated == old(self).bytesAllocated,
            final(self).debugLevel == old(self).debugLevel,
            final(self).activationThresholdBytes == old(self).activationThresholdBytes,
            final(self).peakBytesAllocated == if old(self).debugLevel >= 2 && old(self).bytesAllocated
                > old(self).peakBytesAllocated {
                old(self).bytesAllocated
            } else {
                old(self).peakBytesAllocated
            },
    {
        if self.debugLevel >= 2 && self.bytesAllocated > self.peakBytesAllocated {
            self.peakBytesAllocated = self.bytesAllocated;
        }
    }

    /// Count a block of `bytes` (header included) that was allocated.
    pub fn record_malloc(&mut self, bytes: u64)
        requires
            old(self).bytesAllocated + bytes <= u64::MAX,
        ensures
            malloc_recorded(*old(self), *final(self), bytes),
    {
        self.bytesAllocated = self.bytesAllocated + bytes;
        self.note_peak();
    }

    /// Count a block of `bytes` (header included) that was freed.
    pub fn record_free(&mut self, bytes: u64)
        requires
            old(self).bytesAllocated >= bytes,
        ensures
            free_recorded(*old(self), *final(self), bytes),
    {
        self.bytesAllocated = self.bytesAllocated - bytes;
    }

    /// Count a block that was resized from `prevSize` to `size` bytes.
    pub fn record_realloc(&mut self, prevSize: u64, size: u64)
        requires
            size > prevSize ==> old(self).bytesAllocated + (size - prevSize) <= u64::MAX,
            size <= prevSize ==> old(self).bytesAllocated >= prevSize - size,
        ensures
            final(self).bytesAllocated == old(self).bytesAllocated + size - prevSize,
            final(self).debugLevel == old(self).debugLevel,
            final(self).activationThresholdBytes == old(self).activationThresholdBytes,
            final(self).peakBytesAllocated == if old(self).debugLevel >= 2 && final(self).bytesAllocated
                > old(self).peakBytesAllocated {
                final(self).bytesAllocated
            } else {
                old(self).peakBytesAllocated
            },
    {
        if size > prevSize {
            self.bytesAllocated = self.bytesAllocated + (size - prevSize);
        } else {
            self.bytesAllocated = self.bytesAllocated - (prevSize - size);
        }
        self.note_peak();
    }
}

/// What `record_malloc` of `bytes` does to the tracker `o`, giving `f`.
pub open spec fn malloc_recorded(o: MALLOC_TRACKER, f: MALLOC_TRACKER, bytes: u64) -> bool {
    &&& f.bytesAllocated == o.bytesAllocated + bytes
    &&& f.debugLevel == o.debugLevel
    &&& f.activationThresholdBytes == o.activationThresholdBytes
    &&& f.peakBytesAllocated == if o.debugLevel >= 2 && f.bytesAllocated > o.peakBytesAllocated {
        f.bytesAllocated
    } else {
        o.peakBytesAllocated
    }
}

/// What `record_free` of `bytes` does to the tracker `o`, giving `f`.
pub open spec fn free_recorded(o: MALLOC_TRACKER, f: MALLOC_TRACKER, bytes: u64) -> bool {
    &&& f.bytesAllocated == o.bytesAllocated - bytes
    &&& f.peakBytesAllocated == o.peakBytesAllocated
    &&& f.debugLevel == o.debugLevel
    &&& f.activationThresholdBytes == o.activationThresholdBytes
}

/// A block counted by `record_malloc` and then by `record_free` leaves the
/// count of heap bytes in use where it was, and the peak at least that
/// count.
pub proof fn lemma_malloc_free_balance(a: MALLOC_TRACKER, b: MALLOC_TRACKER, c: MALLOC_TRACKER, bytes: u64)
    requires
        malloc_recorded(a, b, bytes),
        free_recorded(b, c, bytes),
    ensures
        c.bytesAllocated == a.bytesAllocated,
        c.debugLevel == a.debugLevel,
        c.activationThresholdBytes == a.activationThresholdBytes,
        c.peakBytesAllocated >= a.peakBytesAllocated,
        a.debugLevel >= 2 ==> c.peakBytesAllocated >= a.bytesAllocated + bytes,
{
}

} // verus!
