//! The debug levels that the environment sets: a variable's value is read
//! as an unsigned decimal number, the whole value or nothing.
use vstd::prelude::*;

verus! {

/// A white-space byte of the C locale.
pub open spec fn is_c_space(c: u8) -> bool {
    c == 0x20 || (0x09 <= c && c <= 0x0d)
}

/// A decimal digit.
pub open spec fn is_digit(c: u8) -> bool {
    0x30 <= c && c <= 0x39
}

/// The number of white-space bytes at the start of `s`.
pub open spec fn leading_spaces(s: Seq<u8>) -> nat
    decreases s.len(),
{
    if s.len() > 0 && is_c_space(s[0]) {
        1 + leading_spaces(s.skip(1))
    } else {
        0
    }
}

/// Every byte of `s` is a digit.
pub open spec fn all_digits(s: Seq<u8>) -> bool {
    forall|i: int| 0 <= i < s.len() ==> is_digit(#[trigger] s[i])
}

/// The number that the digits `s` write in decimal.
pub open spec fn decimal(s: Seq<u8>) -> nat
    decreases s.len(),
{
    if s.len() == 0 {
        0
    } else {
        decimal(s.drop_last()) * 10 + (s.last() - 0x30) as nat
    }
}

/// The debug level that the value `s` of a variable sets, `default` when it
/// sets none: white space, an optional sign and at least one digit, with
/// nothing after them, for a number that fits in 64 bits; a minus sign
/// negates it modulo 2^64.
pub open spec fn parsed_debug_level(s: Seq<u8>, default: u64) -> u64 {
    let t = s.skip(leading_spaces(s) as int);
    let signed = t.len() > 0 && (t[0] == 0x2b || t[0] == 0x2d);
    let d = if signed { t.skip(1) } else { t };
    if d.len() == 0 || !all_digits(d) || decimal(d) > u64::MAX {
        default
    } else if signed && t[0] == 0x2d {
        ((0x1_0000_0000_0000_0000 - decimal(d)) % 0x1_0000_0000_0000_0000) as u64
    } else {
        decimal(d) as u64
    }
}

proof fn lemma_leading_spaces_step(s: Seq<u8>, i: int)
    requires
        0 <= i < s.len(),
        forall|k: int| 0 <= k < i ==> is_c_space(#[trigger] s[k]),
    ensures
        is_c_space(s[i]) ==> leading_spaces(s) == i + 1 + leading_spaces(s.skip(i + 1)),
        !is_c_space(s[i]) ==> leading_spaces(s) == i,
    decreases i,
{
    if i > 0 {
        lemma_leading_spaces_step(s.skip(1), i - 1);
        assert(s.skip(1).skip(i) =~= s.skip(i + 1));
    }
}

proof fn lemma_decimal_push(s: Seq<u8>, c: u8)
    ensures
        decimal(s.push(c)) == decimal(s) * 10 + (c - 0x30) as nat,
{
    assert(s.push(c).drop_last() =~= s);
}

/// The debug level that the value of a variable sets, if it is set.
#[allow(non_snake_case)]
pub fn getDebugLevel(value: Option<&[u8]>, defaultDebugLevel: u64) -> (r: u64)
    ensures
        r == match value {
            Some(s) => parsed_debug_level(s@, defaultDebugLevel),
            None => defaultDebugLevel,
        },
{
    let s = match value {
        None => {
            return defaultDebugLevel;
        },
        Some(s) => s,
    };
    let mut i: usize = 0;
    while i < s.len() && (s[i] == 0x20 || (0x09 <= s[i] && s[i] <= 0x0d))
        invariant
            i <= s.len(),
            forall|k: int| 0 <= k < i ==> is_c_space(#[trigger] s@[k]),
        decreases s.len() - i,
    {
        i = i + 1;
    }
    proof {
        if i < s.len() {
            lemma_leading_spaces_step(s@, i as int);
        } else {
            lemma_all_spaces(s@);
        }
    }
    let ghost ws = i;
    let ghost t = s@.skip(i as int);
    assert(leading_spaces(s@) == ws);
    let mut negative = false;
    let mut signed = false;
    if i < s.len() && (s[i] == 0x2b || s[i] == 0x2d) {
        signed = true;
        negative = s[i] == 0x2d;
        i = i + 1;
    }
    let digits_start: usize = i;
    let ghost d = s@.skip(digits_start as int);
    proof {
        assert(signed == (t.len() > 0 && (t[0] == 0x2b || t[0] == 0x2d)));
        assert(negative == (signed && t[0] == 0x2d));
        if signed {
            assert(d =~= t.skip(1));
        } else {
            assert(d =~= t);
        }
    }
    let mut value: u64 = 0;
    let mut overflow = false;
    while i < s.len() && 0x30 <= s[i] && s[i] <= 0x39
        invariant
            digits_start <= i <= s.len(),
            d == s@.skip(digits_start as int),
            all_digits(s@.subrange(digits_start as int, i as int)),
            !overflow ==> value == decimal(s@.subrange(digits_start as int, i as int)),
            overflow ==> decimal(s@.subrange(digits_start as int, i as int)) > u64::MAX,
        decreases s.len() - i,
    {
        let digit: u64 = (s[i] - 0x30) as u64;
        proof {
            lemma_decimal_push(s@.subrange(digits_start as int, i as int), s@[i as int]);
            assert(s@.subrange(digits_start as int, i + 1) =~= s@.subrange(digits_start as int, i as int).push(
                s@[i as int],
            ));
        }
        if !overflow {
            if value > (u64::MAX - digit) / 10 {
                overflow = true;
            } else {
                value = value * 10 + digit;
            }
        } else {
            proof {
                let prev = s@.subrange(digits_start as int, i as int);
                assert(decimal(prev) * 10 + digit >= decimal(prev)) by (nonlinear_arith)
                    requires
                        decimal(prev) >= 0,
                        digit >= 0,
                ;
            }
        }
        i = i + 1;
    }
    proof {
        let ds = s@.subrange(digits_start as int, i as int);
        if i == digits_start && i < s.len() {
            assert(!is_digit(d[0]));
        }
        if i < s.len() {
            assert(!is_digit(s@[i as int]));
            assert(!all_digits(d)) by {
                assert(d[i - digits_start] == s@[i as int]);
            }
        } else {
            assert(ds =~= d);
        }
    }
    if i == digits_start || i < s.len() || overflow {
        return defaultDebugLevel;
    }
    if negative {
        if value == 0 {
            0
        } else {
            u64::MAX - value + 1
        }
    } else {
        value
    }
}

proof fn lemma_all_spaces(s: Seq<u8>)
    requires
        forall|k: int| 0 <= k < s.len() ==> is_c_space(#[trigger] s[k]),
    ensures
        leading_spaces(s) == s.len(),
    decreases s.len(),
{
    if s.len() > 0 {
        lemma_all_spaces(s.skip(1));
    }
}

} // verus!
