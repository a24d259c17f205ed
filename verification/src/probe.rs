//! The probe sequence of the parser's open-addressing hash tables.
//!
//! A table of `size = 2^power` slots starts looking for a name at
//! `hash & (size - 1)` and steps backwards, modulo `size`, by an odd step
//! derived from the high bits of the hash. Because the step is odd and the
//! size a power of two, the first `size` probes visit every slot once.
use vstd::prelude::*;
use vstd::arithmetic::power2::{pow2, lemma_pow2_unfold, lemma_pow2_pos, lemma2_to64};
use vstd::arithmetic::div_mod::{lemma_fundamental_div_mod, lemma_fundamental_div_mod_converse_mod};
use vstd::set_lib::{set_int_range, lemma_int_range, lemma_map_size, lemma_len_subset};

verus! {

/// The slot where the search for a name of hash `h` starts.
pub open spec fn probe_start(h: u64, size: usize) -> int {
    (h & ((size - 1) as u64)) as int
}

/// The distance between two probes.
pub open spec fn probe_step(h: u64, power: u8, size: usize) -> int {
    let mask = (size - 1) as u64;
    ((((h & !mask) >> ((power - 1) as u64)) & (mask >> 2u64)) | 1u64) as u8 as int
}

/// The slot probed after slot `i`.
pub open spec fn probe_next(i: int, step: int, size: int) -> int {
    if i < step {
        i + (size - step)
    } else {
        i - step
    }
}

/// The slot probed at the `t`-th step of a search for a name of hash `h`.
pub open spec fn probe(h: u64, power: u8, size: usize, t: nat) -> int
    decreases t,
{
    if t == 0 {
        probe_start(h, size)
    } else {
        probe_next(probe(h, power, size, (t - 1) as nat), probe_step(h, power, size), size as int)
    }
}

/// The shape of a non-empty table: `size == 2^power` with a power that
/// leaves room for the step computation.
pub open spec fn table_shape(power: u8, size: usize) -> bool {
    &&& 2 <= power < 64
    &&& size as nat == pow2(power as nat)
}

proof fn lemma_step_bits(h: u64, mask: u64, sh: u64)
    requires
        1 <= mask,
        sh < 64,
    ensures
        ((((h & !mask) >> sh) & (mask >> 2u64)) | 1u64) as u8 as u64 & 1u64 == 1u64,
        1u64 <= ((((h & !mask) >> sh) & (mask >> 2u64)) | 1u64) as u8 as u64 <= mask,
{
    assert(((((h & !mask) >> sh) & (mask >> 2u64)) | 1u64) as u8 as u64 & 1u64 == 1u64)
        by (bit_vector);
    assert(1u64 <= mask ==> 1u64 <= ((((h & !mask) >> sh) & (mask >> 2u64)) | 1u64) as u8 as u64
        <= mask) by (bit_vector);
}

proof fn lemma_start_bits(h: u64, mask: u64)
    ensures
        h & mask <= mask,
{
    assert(h & mask <= mask) by (bit_vector);
}

/// The start lies in the table and the step is odd and at most `size - 1`.
pub proof fn lemma_probe_params(h: u64, power: u8, size: usize)
    requires
        table_shape(power, size),
    ensures
        0 <= probe_start(h, size) < size,
        1 <= probe_step(h, power, size) < size,
        probe_step(h, power, size) % 2 == 1,
{
    lemma_pow2_unfold(power as nat);
    lemma_pow2_pos((power - 1) as nat);
    let mask = (size - 1) as u64;
    lemma_start_bits(h, mask);
    lemma_step_bits(h, mask, (power - 1) as u64);
    let s = ((((h & !mask) >> ((power - 1) as u64)) & (mask >> 2u64)) | 1u64) as u8 as u64;
    assert(s & 1u64 == 1u64 ==> s % 2 == 1) by (bit_vector);
}

/// The closed form of the probe sequence.
pub proof fn lemma_probe_closed(h: u64, power: u8, size: usize, t: nat)
    requires
        table_shape(power, size),
    ensures
        probe(h, power, size, t) == (probe_start(h, size) - t * probe_step(h, power, size)) % (
        size as int),
        0 <= probe(h, power, size, t) < size,
    decreases t,
{
    lemma_probe_params(h, power, size);
    let n = size as int;
    let a = probe_start(h, size);
    let s = probe_step(h, power, size);
    if t == 0 {
        assert(t * s == 0) by (nonlinear_arith)
            requires
                t == 0,
        ;
        lemma_fundamental_div_mod_converse_mod(a, n, 0, a);
    } else {
        lemma_probe_closed(h, power, size, (t - 1) as nat);
        let p = probe(h, power, size, (t - 1) as nat);
        let x = a - (t - 1) * s;
        lemma_fundamental_div_mod(x, n);
        let q = x / n;
        assert(x == n * q + p);
        assert(a - t * s == x - s) by (nonlinear_arith)
            requires
                x == a - (t - 1) * s,
        ;
        if p < s {
            assert(a - t * s == q * n - n + (p + n - s)) by (nonlinear_arith)
                requires
                    a - t * s == x - s,
                    x == n * q + p,
            ;
            assert(a - t * s == (q - 1) * n + (p + n - s)) by (nonlinear_arith)
                requires
                    a - t * s == q * n - n + (p + n - s),
            ;
            lemma_fundamental_div_mod_converse_mod(a - t * s, n, q - 1, p + n - s);
        } else {
            assert(a - t * s == q * n + (p - s)) by (nonlinear_arith)
                requires
                    a - t * s == x - s,
                    x == n * q + p,
            ;
            lemma_fundamental_div_mod_converse_mod(a - t * s, n, q, p - s);
        }
    }
}

/// An odd multiple of a positive number below `2^p` is not a multiple of `2^p`.
proof fn lemma_odd_multiple(d: int, s: int, p: nat, k: int)
    requires
        0 < d < pow2(p),
        s % 2 == 1,
    ensures
        d * s != k * pow2(p),
    decreases p,
{
    lemma_pow2_pos(p);
    if d * s != k * pow2(p) {
    } else if p == 0 {
        lemma2_to64();
    } else {
        lemma_pow2_unfold(p);
        let m = pow2((p - 1) as nat) as int;
        lemma_pow2_pos((p - 1) as nat);
        assert(d * s == 2 * (k * m)) by (nonlinear_arith)
            requires
                d * s == k * pow2(p),
                pow2(p) == 2 * m,
        ;
        let j = s / 2;
        assert(s == 2 * j + 1);
        assert(d * s == 2 * (d * j) + d) by (nonlinear_arith)
            requires
                s == 2 * j + 1,
        ;
        assert(d == 2 * (k * m - d * j));
        assert(d % 2 == 0);
        let e = d / 2;
        assert(d == 2 * e);
        assert(e * s == k * m) by (nonlinear_arith)
            requires
                d == 2 * e,
                d * s == 2 * (k * m),
        ;
        lemma_odd_multiple(e, s, (p - 1) as nat, k);
    }
}

/// The first `size` probes are pairwise distinct.
pub proof fn lemma_probe_injective(h: u64, power: u8, size: usize, t1: nat, t2: nat)
    requires
        table_shape(power, size),
        t1 < size,
        t2 < size,
        t1 != t2,
    ensures
        probe(h, power, size, t1) != probe(h, power, size, t2),
{
    lemma_probe_params(h, power, size);
    lemma_probe_closed(h, power, size, t1);
    lemma_probe_closed(h, power, size, t2);
    let n = size as int;
    let a = probe_start(h, size);
    let s = probe_step(h, power, size);
    if probe(h, power, size, t1) == probe(h, power, size, t2) {
        let r = probe(h, power, size, t1);
        let x1 = a - t1 * s;
        let x2 = a - t2 * s;
        lemma_fundamental_div_mod(x1, n);
        lemma_fundamental_div_mod(x2, n);
        let q1 = x1 / n;
        let q2 = x2 / n;
        if t1 < t2 {
            let d = t2 - t1;
            assert(d * s == (q1 - q2) * n) by (nonlinear_arith)
                requires
                    x1 == n * q1 + r,
                    x2 == n * q2 + r,
                    x1 == a - t1 * s,
                    x2 == a - t2 * s,
                    d == t2 - t1,
            ;
            lemma_odd_multiple(d, s, power as nat, q1 - q2);
        } else {
            let d = t1 - t2;
            assert(d * s == (q2 - q1) * n) by (nonlinear_arith)
                requires
                    x1 == n * q1 + r,
                    x2 == n * q2 + r,
                    x1 == a - t1 * s,
                    x2 == a - t2 * s,
                    d == t1 - t2,
            ;
            lemma_odd_multiple(d, s, power as nat, q2 - q1);
        }
    }
}

/// If the first `size` probes all land on slots that `f` maps injectively into
/// `[0, bound)`, then `size <= bound`.
pub proof fn lemma_probe_pigeonhole(
    h: u64,
    power: u8,
    size: usize,
    f: spec_fn(int) -> int,
    bound: int,
)
    requires
        table_shape(power, size),
        0 <= bound,
        forall|t: int|
            0 <= t < size ==> 0 <= #[trigger] f(probe(h, power, size, t as nat)) < bound,
        forall|i: int, j: int|
            0 <= i < size && 0 <= j < size && i != j ==> #[trigger] f(i) != #[trigger] f(j),
    ensures
        size <= bound,
{
    let n = size as int;
    let g = |t: int| f(probe(h, power, size, t as nat));
    let dom = set_int_range(0, n);
    lemma_int_range(0, n);
    lemma_int_range(0, bound);
    assert forall|t1: int, t2: int| dom.contains(t1) && dom.contains(t2) && #[trigger] g(t1) == #[trigger] g(
        t2,
    ) implies t1 == t2 by {
        if t1 != t2 {
            lemma_probe_injective(h, power, size, t1 as nat, t2 as nat);
            lemma_probe_closed(h, power, size, t1 as nat);
            lemma_probe_closed(h, power, size, t2 as nat);
        }
    }
    let img = dom.map(g);
    lemma_map_size(dom, img, g);
    assert(img.subset_of(set_int_range(0, bound))) by {
        assert forall|y: int| img.contains(y) implies set_int_range(0, bound).contains(y) by {
            let t = choose|t: int| dom.contains(t) && g(t) == y;
            assert(0 <= f(probe(h, power, size, t as nat)) < bound);
        }
    }
    lemma_len_subset(img, set_int_range(0, bound));
}

} // verus!
