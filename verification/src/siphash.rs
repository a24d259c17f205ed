//! SipHash-2-4, used to hash names in the parser's hash tables.
//!
//! The hash state is absorbed byte by byte: bytes are collected in an
//! eight-byte buffer and compressed whenever the buffer is full.
use vstd::prelude::*;

verus! {

/// The 128-bit key of SipHash, as two little-endian words.
#[allow(non_camel_case_types)]
pub struct sipkey {
    pub k: [u64; 2],
}

/// The streaming SipHash-2-4 state.
///
/// `buf[..p]` holds the bytes that do not yet fill a whole word and `c`
/// counts (modulo 2^64) the bytes already compressed.
#[allow(non_camel_case_types)]
pub struct siphash {
    pub v0: u64,
    pub v1: u64,
    pub v2: u64,
    pub v3: u64,
    pub buf: [u8; 8],
    pub p: usize,
    pub c: u64,
}

/// The abstract state of the hash: the four words, the pending bytes and the
/// count of compressed bytes.
pub struct SipState {
    pub v0: u64,
    pub v1: u64,
    pub v2: u64,
    pub v3: u64,
    pub pending: Seq<u8>,
    pub c: u64,
}

/// `x` rotated left by `b` bits.
pub open spec fn rotl(x: u64, b: u64) -> u64 {
    (x << b) | (x >> (64u64 - b) as u64)
}

/// `x + y`, wrapping.
pub open spec fn wadd(x: u64, y: u64) -> u64 {
    vstd::wrapping::u64_specs::wrapping_add(x, y)
}

/// One SipRound on the four state words.
pub open spec fn sip_round_once(v: (u64, u64, u64, u64)) -> (u64, u64, u64, u64) {
    let v0 = wadd(v.0, v.1);
    let v1 = rotl(v.1, 13);
    let v1 = v1 ^ v0;
    let v0 = rotl(v0, 32);
    let v2 = wadd(v.2, v.3);
    let v3 = rotl(v.3, 16);
    let v3 = v3 ^ v2;
    let v0 = wadd(v0, v3);
    let v3 = rotl(v3, 21);
    let v3 = v3 ^ v0;
    let v2 = wadd(v2, v1);
    let v1 = rotl(v1, 17);
    let v1 = v1 ^ v2;
    let v2 = rotl(v2, 32);
    (v0, v1, v2, v3)
}

/// `n` SipRounds.
pub open spec fn sip_rounds(v: (u64, u64, u64, u64), n: nat) -> (u64, u64, u64, u64)
    decreases n,
{
    if n == 0 {
        v
    } else {
        sip_round_once(sip_rounds(v, (n - 1) as nat))
    }
}

/// The little-endian word made of the first eight bytes of `b`.
pub open spec fn le_word(b: Seq<u8>) -> u64 {
    (b[0] as u64) << 0u64 | (b[1] as u64) << 8u64 | (b[2] as u64) << 16u64 | (b[3] as u64)
        << 24u64 | (b[4] as u64) << 32u64 | (b[5] as u64) << 40u64 | (b[6] as u64) << 48u64
        | (b[7] as u64) << 56u64
}

/// The state right after the key was set.
pub open spec fn init_state(k0: u64, k1: u64) -> SipState {
    SipState {
        v0: 0x736f6d6570736575u64 ^ k0,
        v1: 0x646f72616e646f6du64 ^ k1,
        v2: 0x6c7967656e657261u64 ^ k0,
        v3: 0x7465646279746573u64 ^ k1,
        pending: Seq::empty(),
        c: 0,
    }
}

/// Compress one message word into the state words.
pub open spec fn compress(v: (u64, u64, u64, u64), m: u64) -> (u64, u64, u64, u64) {
    let r = sip_rounds((v.0, v.1, v.2, v.3 ^ m), 2);
    (r.0 ^ m, r.1, r.2, r.3)
}

/// Absorb one byte.
pub open spec fn push_byte(st: SipState, b: u8) -> SipState {
    let pend = st.pending.push(b);
    if pend.len() == 8 {
        let r = compress((st.v0, st.v1, st.v2, st.v3), le_word(pend));
        SipState { v0: r.0, v1: r.1, v2: r.2, v3: r.3, pending: Seq::empty(), c: wadd(st.c, 8) }
    } else {
        SipState { pending: pend, ..st }
    }
}

/// Absorb a sequence of bytes, one after the other.
pub open spec fn update_spec(st: SipState, bytes: Seq<u8>) -> SipState
    decreases bytes.len(),
{
    if bytes.len() == 0 {
        st
    } else {
        update_spec(push_byte(st, bytes[0]), bytes.drop_first())
    }
}

/// The last word: the length byte on top, the pending bytes below.
pub open spec fn tail_word(pending: Seq<u8>, c: u64) -> u64 {
    let left = pending.len();
    let b0 = wadd(c, left as u64) << 56u64;
    let b1 = if left > 6 { b0 | (pending[6] as u64) << 48u64 } else { b0 };
    let b2 = if left > 5 { b1 | (pending[5] as u64) << 40u64 } else { b1 };
    let b3 = if left > 4 { b2 | (pending[4] as u64) << 32u64 } else { b2 };
    let b4 = if left > 3 { b3 | (pending[3] as u64) << 24u64 } else { b3 };
    let b5 = if left > 2 { b4 | (pending[2] as u64) << 16u64 } else { b4 };
    let b6 = if left > 1 { b5 | (pending[1] as u64) << 8u64 } else { b5 };
    if left > 0 {
        b6 | (pending[0] as u64) << 0u64
    } else {
        b6
    }
}

/// The hash value of a state.
pub open spec fn final_spec(st: SipState) -> u64 {
    let b = tail_word(st.pending, st.c);
    let r = sip_rounds((st.v0, st.v1, st.v2, st.v3 ^ b), 2);
    let r2 = sip_rounds((r.0 ^ b, r.1, r.2 ^ 0xffu64, r.3), 4);
    r2.0 ^ r2.1 ^ r2.2 ^ r2.3
}

/// SipHash-2-4 of `data` under the key `(k0, k1)`.
pub open spec fn spec_siphash24(data: Seq<u8>, k0: u64, k1: u64) -> u64 {
    final_spec(update_spec(init_state(k0, k1), data))
}

/// The hash of a name under the parser's salt.
pub open spec fn spec_name_hash(salt: u64, name: Seq<u8>) -> u64 {
    spec_siphash24(name, 0, salt)
}

impl siphash {
    /// The buffer of pending bytes is not full.
    pub open spec fn wf(&self) -> bool {
        self.p < 8
    }

    /// The state as mathematical values.
    pub open spec fn state(&self) -> SipState {
        SipState {
            v0: self.v0,
            v1: self.v1,
            v2: self.v2,
            v3: self.v3,
            pending: self.buf@.take(self.p as int),
            c: self.c,
        }
    }
}

/// Absorbing `a` and then `b` is absorbing `a + b`.
pub proof fn lemma_update_append(st: SipState, a: Seq<u8>, b: Seq<u8>)
    ensures
        update_spec(update_spec(st, a), b) == update_spec(st, a + b),
    decreases a.len(),
{
    if a.len() == 0 {
        assert(a + b =~= b);
    } else {
        lemma_update_append(push_byte(st, a[0]), a.drop_first(), b);
        assert((a + b).drop_first() =~= a.drop_first() + b);
        assert((a + b)[0] == a[0]);
    }
}

/// Absorbing one more byte after `a` is absorbing `a.push(x)`.
proof fn lemma_update_push(st: SipState, a: Seq<u8>, x: u8)
    ensures
        push_byte(update_spec(st, a), x) == update_spec(st, a.push(x)),
{
    lemma_update_append(st, a, seq![x]);
    assert(a + seq![x] =~= a.push(x));
    let s1 = update_spec(st, a);
    assert(seq![x].drop_first() =~= Seq::<u8>::empty());
    assert(update_spec(push_byte(s1, x), Seq::<u8>::empty()) == push_byte(s1, x));
    assert(update_spec(s1, seq![x]) == update_spec(push_byte(s1, seq![x][0]), seq![x].drop_first()));
}

/// Hashing in two pieces gives the hash of the whole: the streaming
/// interface does not depend on how the input is split.
pub proof fn lemma_streaming_split(k0: u64, k1: u64, a: Seq<u8>, b: Seq<u8>)
    ensures
        final_spec(update_spec(update_spec(init_state(k0, k1), a), b)) == spec_siphash24(
            a + b,
            k0,
            k1,
        ),
{
    lemma_update_append(init_state(k0, k1), a, b);
}

/// Read a key from sixteen little-endian bytes.
pub fn sip_tokey(src: &[u8; 16]) -> (key: sipkey)
    ensures
        key.k[0] == le_word(src@.subrange(0, 8)),
        key.k[1] == le_word(src@.subrange(8, 16)),
{
    let k0 = (src[0] as u64) << 0u64 | (src[1] as u64) << 8u64 | (src[2] as u64) << 16u64
        | (src[3] as u64) << 24u64 | (src[4] as u64) << 32u64 | (src[5] as u64) << 40u64
        | (src[6] as u64) << 48u64 | (src[7] as u64) << 56u64;
    let k1 = (src[8] as u64) << 0u64 | (src[9] as u64) << 8u64 | (src[10] as u64) << 16u64
        | (src[11] as u64) << 24u64 | (src[12] as u64) << 32u64 | (src[13] as u64) << 40u64
        | (src[14] as u64) << 48u64 | (src[15] as u64) << 56u64;
    let key = sipkey { k: [k0, k1] };
    proof {
        let lo = src@.subrange(0, 8);
        let hi = src@.subrange(8, 16);
        assert(lo[0] == src[0] && lo[1] == src[1] && lo[2] == src[2] && lo[3] == src[3]);
        assert(lo[4] == src[4] && lo[5] == src[5] && lo[6] == src[6] && lo[7] == src[7]);
        assert(hi[0] == src[8] && hi[1] == src[9] && hi[2] == src[10] && hi[3] == src[11]);
        assert(hi[4] == src[12] && hi[5] == src[13] && hi[6] == src[14] && hi[7] == src[15]);
    }
    key
}

/// Build the key that hashes names: the salt is the second word.
pub fn copy_salt_to_sipkey(salt: u64) -> (key: sipkey)
    ensures
        key.k[0] == 0,
        key.k[1] == salt,
{
    sipkey { k: [0, salt] }
}

impl siphash {
    /// Run `rounds` SipRounds on the state words.
    pub fn sip_round(&mut self, rounds: usize)
        ensures
            (final(self).v0, final(self).v1, final(self).v2, final(self).v3) == sip_rounds(
                (old(self).v0, old(self).v1, old(self).v2, old(self).v3),
                rounds as nat,
            ),
            final(self).buf == old(self).buf,
            final(self).p == old(self).p,
            final(self).c == old(self).c,
    {
        let mut i: usize = 0;
        while i < rounds
            invariant
                i <= rounds,
                (self.v0, self.v1, self.v2, self.v3) == sip_rounds(
                    (old(self).v0, old(self).v1, old(self).v2, old(self).v3),
                    i as nat,
                ),
                self.buf == old(self).buf,
                self.p == old(self).p,
                self.c == old(self).c,
            decreases rounds - i,
        {
            self.v0 = self.v0.wrapping_add(self.v1);
            self.v1 = self.v1 << 13u64 | self.v1 >> 51u64;
            self.v1 = self.v1 ^ self.v0;
            self.v0 = self.v0 << 32u64 | self.v0 >> 32u64;
            self.v2 = self.v2.wrapping_add(self.v3);
            self.v3 = self.v3 << 16u64 | self.v3 >> 48u64;
            self.v3 = self.v3 ^ self.v2;
            self.v0 = self.v0.wrapping_add(self.v3);
            self.v3 = self.v3 << 21u64 | self.v3 >> 43u64;
            self.v3 = self.v3 ^ self.v0;
            self.v2 = self.v2.wrapping_add(self.v1);
            self.v1 = self.v1 << 17u64 | self.v1 >> 47u64;
            self.v1 = self.v1 ^ self.v2;
            self.v2 = self.v2 << 32u64 | self.v2 >> 32u64;
            i = i + 1;
        }
    }

    /// A fresh state keyed with `key`.
    pub fn sip24_init(key: &sipkey) -> (h: siphash)
        ensures
            h.wf(),
            h.state() == init_state(key.k[0], key.k[1]),
    {
        let h = siphash {
            v0: 0x736f6d6570736575u64 ^ key.k[0],
            v1: 0x646f72616e646f6du64 ^ key.k[1],
            v2: 0x6c7967656e657261u64 ^ key.k[0],
            v3: 0x7465646279746573u64 ^ key.k[1],
            buf: [0u8; 8],
            p: 0,
            c: 0,
        };
        assert(h.state().pending =~= Seq::<u8>::empty());
        h
    }

    /// Absorb one byte into the state.
    fn push(&mut self, b: u8)
        requires
            old(self).wf(),
        ensures
            final(self).wf(),
            final(self).state() == push_byte(old(self).state(), b),
    {
        let ghost before = self.state();
        let p = self.p;
        self.buf[p] = b;
        self.p = p + 1;
        assert(self.buf@.take(self.p as int) =~= before.pending.push(b));
        if self.p == 8 {
            let m = (self.buf[0] as u64) << 0u64 | (self.buf[1] as u64) << 8u64 | (self.buf[2] as u64)
                << 16u64 | (self.buf[3] as u64) << 24u64 | (self.buf[4] as u64) << 32u64 | (
            self.buf[5] as u64) << 40u64 | (self.buf[6] as u64) << 48u64 | (self.buf[7] as u64)
                << 56u64;
            assert(m == le_word(before.pending.push(b)));
            self.v3 = self.v3 ^ m;
            self.sip_round(2);
            self.v0 = self.v0 ^ m;
            self.p = 0;
            self.c = self.c.wrapping_add(8);
            assert(self.buf@.take(0) =~= Seq::<u8>::empty());
        }
    }

    /// Absorb `src`.
    pub fn sip24_update(&mut self, src: &[u8])
        requires
            old(self).wf(),
        ensures
            final(self).wf(),
            final(self).state() == update_spec(old(self).state(), src@),
    {
        let mut i: usize = 0;
        while i < src.len()
            invariant
                i <= src.len(),
                self.wf(),
                self.state() == update_spec(old(self).state(), src@.take(i as int)),
            decreases src.len() - i,
        {
            proof {
                lemma_update_push(old(self).state(), src@.take(i as int), src@[i as int]);
                assert(src@.take(i as int).push(src@[i as int]) =~= src@.take(i + 1));
            }
            self.push(src[i]);
            i = i + 1;
        }
        assert(src@.take(src.len() as int) =~= src@);
    }

    /// The hash value of the bytes absorbed so far.
    pub fn sip24_final(&mut self) -> (r: u64)
        requires
            old(self).wf(),
        ensures
            r == final_spec(old(self).state()),
    {
        let ghost st = self.state();
        let left = self.p;
        let mut b: u64 = self.c.wrapping_add(left as u64) << 56u64;
        if left > 6 {
            b = b | (self.buf[6] as u64) << 48u64;
        }
        if left > 5 {
            b = b | (self.buf[5] as u64) << 40u64;
        }
        if left > 4 {
            b = b | (self.buf[4] as u64) << 32u64;
        }
        if left > 3 {
            b = b | (self.buf[3] as u64) << 24u64;
        }
        if left > 2 {
            b = b | (self.buf[2] as u64) << 16u64;
        }
        if left > 1 {
            b = b | (self.buf[1] as u64) << 8u64;
        }
        if left > 0 {
            b = b | (self.buf[0] as u64) << 0u64;
        }
        assert(b == tail_word(st.pending, st.c));
        self.v3 = self.v3 ^ b;
        self.sip_round(2);
        self.v0 = self.v0 ^ b;
        self.v2 = self.v2 ^ 0xffu64;
        self.sip_round(4);
        self.v0 ^ self.v1 ^ self.v2 ^ self.v3
    }
}

/// SipHash-2-4 of `src` under `key`, in one call.
pub fn siphash24(src: &[u8], key: &sipkey) -> (r: u64)
    ensures
        r == spec_siphash24(src@, key.k[0], key.k[1]),
{
    let mut state = siphash::sip24_init(key);
    state.sip24_update(src);
    state.sip24_final()
}

/// The hash of a name, keyed with the parser's salt.
pub fn hash(salt: u64, name: &[u8]) -> (r: u64)
    ensures
        r == spec_name_hash(salt, name@),
{
    let key = copy_salt_to_sipkey(salt);
    siphash24(name, &key)
}

/// The reference outputs of SipHash-2-4 for the key 00 01 .. 0f and the
/// inputs 00 01 .. (i - 1), for i from 0 to 63, as little-endian bytes.
pub const SIP_TEST_VECTORS: [[u8; 8]; 64] = [
        [0x31, 0x0e, 0x0e, 0xdd, 0x47, 0xdb, 0x6f, 0x72],
        [0xfd, 0x67, 0xdc, 0x93, 0xc5, 0x39, 0xf8, 0x74],
        [0x5a, 0x4f, 0xa9, 0xd9, 0x09, 0x80, 0x6c, 0x0d],
        [0x2d, 0x7e, 0xfb, 0xd7, 0x96, 0x66, 0x67, 0x85],
        [0xb7, 0x87, 0x71, 0x27, 0xe0, 0x94, 0x27, 0xcf],
        [0x8d, 0xa6, 0x99, 0xcd, 0x64, 0x55, 0x76, 0x18],
        [0xce, 0xe3, 0xfe, 0x58, 0x6e, 0x46, 0xc9, 0xcb],
        [0x37, 0xd1, 0x01, 0x8b, 0xf5, 0x00, 0x02, 0xab],
        [0x62, 0x24, 0x93, 0x9a, 0x79, 0xf5, 0xf5, 0x93],
        [0xb0, 0xe4, 0xa9, 0x0b, 0xdf, 0x82, 0x00, 0x9e],
        [0xf3, 0xb9, 0xdd, 0x94, 0xc5, 0xbb, 0x5d, 0x7a],
        [0xa7, 0xad, 0x6b, 0x22, 0x46, 0x2f, 0xb3, 0xf4],
        [0xfb, 0xe5, 0x0e, 0x86, 0xbc, 0x8f, 0x1e, 0x75],
        [0x90, 0x3d, 0x84, 0xc0, 0x27, 0x56, 0xea, 0x14],
        [0xee, 0xf2, 0x7a, 0x8e, 0x90, 0xca, 0x23, 0xf7],
        [0xe5, 0x45, 0xbe, 0x49, 0x61, 0xca, 0x29, 0xa1],
        [0xdb, 0x9b, 0xc2, 0x57, 0x7f, 0xcc, 0x2a, 0x3f],
        [0x94, 0x47, 0xbe, 0x2c, 0xf5, 0xe9, 0x9a, 0x69],
        [0x9c, 0xd3, 0x8d, 0x96, 0xf0, 0xb3, 0xc1, 0x4b],
        [0xbd, 0x61, 0x79, 0xa7, 0x1d, 0xc9, 0x6d, 0xbb],
        [0x98, 0xee, 0xa2, 0x1a, 0xf2, 0x5c, 0xd6, 0xbe],
        [0xc7, 0x67, 0x3b, 0x2e, 0xb0, 0xcb, 0xf2, 0xd0],
        [0x88, 0x3e, 0xa3, 0xe3, 0x95, 0x67, 0x53, 0x93],
        [0xc8, 0xce, 0x5c, 0xcd, 0x8c, 0x03, 0x0c, 0xa8],
        [0x94, 0xaf, 0x49, 0xf6, 0xc6, 0x50, 0xad, 0xb8],
        [0xea, 0xb8, 0x85, 0x8a, 0xde, 0x92, 0xe1, 0xbc],
        [0xf3, 0x15, 0xbb, 0x5b, 0xb8, 0x35, 0xd8, 0x17],
        [0xad, 0xcf, 0x6b, 0x07, 0x63, 0x61, 0x2e, 0x2f],
        [0xa5, 0xc9, 0x1d, 0xa7, 0xac, 0xaa, 0x4d, 0xde],
        [0x71, 0x65, 0x95, 0x87, 0x66, 0x50, 0xa2, 0xa6],
        [0x28, 0xef, 0x49, 0x5c, 0x53, 0xa3, 0x87, 0xad],
        [0x42, 0xc3, 0x41, 0xd8, 0xfa, 0x92, 0xd8, 0x32],
        [0xce, 0x7c, 0xf2, 0x72, 0x2f, 0x51, 0x27, 0x71],
        [0xe3, 0x78, 0x59, 0xf9, 0x46, 0x23, 0xf3, 0xa7],
        [0x38, 0x12, 0x05, 0xbb, 0x1a, 0xb0, 0xe0, 0x12],
        [0xae, 0x97, 0xa1, 0x0f, 0xd4, 0x34, 0xe0, 0x15],
        [0xb4, 0xa3, 0x15, 0x08, 0xbe, 0xff, 0x4d, 0x31],
        [0x81, 0x39, 0x62, 0x29, 0xf0, 0x90, 0x79, 0x02],
        [0x4d, 0x0c, 0xf4, 0x9e, 0xe5, 0xd4, 0xdc, 0xca],
        [0x5c, 0x73, 0x33, 0x6a, 0x76, 0xd8, 0xbf, 0x9a],
        [0xd0, 0xa7, 0x04, 0x53, 0x6b, 0xa9, 0x3e, 0x0e],
        [0x92, 0x59, 0x58, 0xfc, 0xd6, 0x42, 0x0c, 0xad],
        [0xa9, 0x15, 0xc2, 0x9b, 0xc8, 0x06, 0x73, 0x18],
        [0x95, 0x2b, 0x79, 0xf3, 0xbc, 0x0a, 0xa6, 0xd4],
        [0xf2, 0x1d, 0xf2, 0xe4, 0x1d, 0x45, 0x35, 0xf9],
        [0x87, 0x57, 0x75, 0x19, 0x04, 0x8f, 0x53, 0xa9],
        [0x10, 0xa5, 0x6c, 0xf5, 0xdf, 0xcd, 0x9a, 0xdb],
        [0xeb, 0x75, 0x09, 0x5c, 0xcd, 0x98, 0x6c, 0xd0],
        [0x51, 0xa9, 0xcb, 0x9e, 0xcb, 0xa3, 0x12, 0xe6],
        [0x96, 0xaf, 0xad, 0xfc, 0x2c, 0xe6, 0x66, 0xc7],
        [0x72, 0xfe, 0x52, 0x97, 0x5a, 0x43, 0x64, 0xee],
        [0x5a, 0x16, 0x45, 0xb2, 0x76, 0xd5, 0x92, 0xa1],
        [0xb2, 0x74, 0xcb, 0x8e, 0xbf, 0x87, 0x87, 0x0a],
        [0x6f, 0x9b, 0xb4, 0x20, 0x3d, 0xe7, 0xb3, 0x81],
        [0xea, 0xec, 0xb2, 0xa3, 0x0b, 0x22, 0xa8, 0x7f],
        [0x99, 0x24, 0xa4, 0x3c, 0xc1, 0x31, 0x57, 0x24],
        [0xbd, 0x83, 0x8d, 0x3a, 0xaf, 0xbf, 0x8d, 0xb7],
        [0x0b, 0x1a, 0x2a, 0x32, 0x65, 0xd5, 0x1a, 0xea],
        [0x13, 0x50, 0x79, 0xa3, 0x23, 0x1c, 0xe6, 0x60],
        [0x93, 0x2b, 0x28, 0x46, 0xe4, 0xd7, 0x06, 0x66],
        [0xe1, 0x91, 0x5f, 0x5c, 0xb1, 0xec, 0xa4, 0x6c],
        [0xf3, 0x25, 0x96, 0x5c, 0xa1, 0x6d, 0x62, 0x9f],
        [0x57, 0x5f, 0xf2, 0x8e, 0x60, 0x38, 0x1b, 0xe5],
        [0x72, 0x45, 0x06, 0xeb, 0x4c, 0x32, 0x8a, 0x95]
    ];

/// The input of the `i`-th reference vector: the bytes 0, 1, .., i - 1.
pub open spec fn counting_bytes(i: int) -> Seq<u8> {
    Seq::new(i as nat, |j: int| j as u8)
}

/// Check the implementation against the reference vectors.
pub fn sip24_valid() -> (r: bool)
    ensures
        r == (forall|i: int|
            0 <= i < 64 ==> #[trigger] spec_siphash24(
                counting_bytes(i),
                0x0706050403020100u64,
                0x0f0e0d0c0b0a0908u64,
            ) == le_word(SIP_TEST_VECTORS@[i]@)),
{
    let key_bytes: [u8; 16] = [0, 1, 2, 3, 4, 5, 6, 7, 8, 9, 10, 11, 12, 13, 14, 15];
    let k = sip_tokey(&key_bytes);
    proof {
        let lo = key_bytes@.subrange(0, 8);
        let hi = key_bytes@.subrange(8, 16);
        assert(lo[0] == 0 && lo[1] == 1 && lo[2] == 2 && lo[3] == 3);
        assert(lo[4] == 4 && lo[5] == 5 && lo[6] == 6 && lo[7] == 7);
        assert(hi[0] == 8 && hi[1] == 9 && hi[2] == 10 && hi[3] == 11);
        assert(hi[4] == 12 && hi[5] == 13 && hi[6] == 14 && hi[7] == 15);
        assert((0u8 as u64) << 0u64 | (1u8 as u64) << 8u64 | (2u8 as u64) << 16u64 | (3u8 as u64)
            << 24u64 | (4u8 as u64) << 32u64 | (5u8 as u64) << 40u64 | (6u8 as u64) << 48u64
            | (7u8 as u64) << 56u64 == 0x0706050403020100u64) by (bit_vector);
        assert((8u8 as u64) << 0u64 | (9u8 as u64) << 8u64 | (10u8 as u64) << 16u64 | (11u8 as u64)
            << 24u64 | (12u8 as u64) << 32u64 | (13u8 as u64) << 40u64 | (14u8 as u64) << 48u64
            | (15u8 as u64) << 56u64 == 0x0f0e0d0c0b0a0908u64) by (bit_vector);
    }
    let mut input: Vec<u8> = Vec::new();
    let mut i: usize = 0;
    while i < 64
        invariant
            i <= 64,
            k.k[0] == 0x0706050403020100u64,
            k.k[1] == 0x0f0e0d0c0b0a0908u64,
            input@ == counting_bytes(i as int),
            forall|j: int|
                0 <= j < i ==> #[trigger] spec_siphash24(
                    counting_bytes(j),
                    0x0706050403020100u64,
                    0x0f0e0d0c0b0a0908u64,
                ) == le_word(SIP_TEST_VECTORS@[j]@),
        decreases 64 - i,
    {
        let v = SIP_TEST_VECTORS[i];
        let expected = (v[0] as u64) << 0u64 | (v[1] as u64) << 8u64 | (v[2] as u64) << 16u64 | (
        v[3] as u64) << 24u64 | (v[4] as u64) << 32u64 | (v[5] as u64) << 40u64 | (v[6] as u64)
            << 48u64 | (v[7] as u64) << 56u64;
        let got = siphash24(input.as_slice(), &k);
        if got != expected {
            return false;
        }
        input.push(i as u8);
        assert(input@ =~= counting_bytes(i + 1));
        i = i + 1;
    }
    true
}

} // verus!
