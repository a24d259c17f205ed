//! Character-level helpers of the parser: line-end normalisation, public
//! identifier normalisation, the URI character class used to check
//! namespace names, and the printable form of a byte used in debug output.
use vstd::prelude::*;

verus! {

pub const ASCII_TAB: u8 = 0x09;
pub const ASCII_LF: u8 = 0x0a;
pub const ASCII_CR: u8 = 0x0d;
pub const ASCII_SPACE: u8 = 0x20;

/// Line ends normalised as XML requires: CR LF and a lone CR both become LF.
pub open spec fn normalized_lines(s: Seq<u8>) -> Seq<u8>
    decreases s.len(),
{
    if s.len() == 0 {
        Seq::empty()
    } else if s[0] == ASCII_CR {
        if s.len() > 1 && s[1] == ASCII_LF {
            seq![ASCII_LF] + normalized_lines(s.skip(2))
        } else {
            seq![ASCII_LF] + normalized_lines(s.skip(1))
        }
    } else {
        seq![s[0]] + normalized_lines(s.skip(1))
    }
}

/// Normalise the line ends of `s` in place.
pub fn normalizeLines(s: &mut Vec<u8>)
    ensures
        final(s)@ == normalized_lines(old(s)@),
{
    let ghost orig = s@;
    let n = s.len();
    let mut r: usize = 0;
    let mut w: usize = 0;
    assert(orig.skip(0) =~= orig);
    assert(s@.take(0) =~= Seq::<u8>::empty());
    assert(Seq::<u8>::empty() + normalized_lines(orig) =~= normalized_lines(orig));
    while r < n
        invariant
            w <= r <= n,
            n == orig.len(),
            s.len() == n,
            s@.skip(r as int) == orig.skip(r as int),
            s@.take(w as int) + normalized_lines(orig.skip(r as int)) == normalized_lines(orig),
        decreases n - r,
    {
        let ghost rest = orig.skip(r as int);
        assert(rest[0] == s@[r as int]);
        let c = s[r];
        if c == ASCII_CR {
            let ghost before = s@;
            s.set(w, ASCII_LF);
            w = w + 1;
            r = r + 1;
            if r < n && s[r] == ASCII_LF {
                assert(rest[1] == ASCII_LF);
                r = r + 1;
                assert(rest.skip(2) =~= orig.skip(r as int));
            } else {
                assert(rest.skip(1) =~= orig.skip(r as int));
            }
            assert(s@.take(w as int) =~= before.take(w - 1).push(ASCII_LF));
            assert(s@.skip(r as int) =~= orig.skip(r as int));
        } else {
            let ghost before = s@;
            s.set(w, c);
            w = w + 1;
            r = r + 1;
            assert(rest.skip(1) =~= orig.skip(r as int));
            assert(s@.take(w as int) =~= before.take(w - 1).push(c));
            assert(s@.skip(r as int) =~= orig.skip(r as int));
        }
        assert(s@.take(w as int) + normalized_lines(orig.skip(r as int)) =~= normalized_lines(orig));
    }
    assert(orig.skip(n as int) =~= Seq::<u8>::empty());
    s.truncate(w);
    assert(s@ =~= normalized_lines(orig));
}

/// No carriage return is left after normalising line ends.
pub proof fn lemma_normalized_lines_no_cr(s: Seq<u8>)
    ensures
        !normalized_lines(s).contains(ASCII_CR),
    decreases s.len(),
{
    if s.len() > 0 {
        lemma_normalized_lines_no_cr(s.skip(1));
        if s.len() > 1 {
            lemma_normalized_lines_no_cr(s.skip(2));
        }
        let r = normalized_lines(s);
        if r.contains(ASCII_CR) {
            let i = choose|i: int| 0 <= i < r.len() && r[i] == ASCII_CR;
            if s[0] == ASCII_CR {
                if s.len() > 1 && s[1] == ASCII_LF {
                    assert(r[i] == normalized_lines(s.skip(2))[i - 1]);
                } else {
                    assert(r[i] == normalized_lines(s.skip(1))[i - 1]);
                }
            } else {
                assert(r[i] == normalized_lines(s.skip(1))[i - 1]);
            }
        }
    }
}

/// Normalising line ends twice is normalising them once.
pub proof fn lemma_normalized_lines_idempotent(s: Seq<u8>)
    ensures
        normalized_lines(normalized_lines(s)) == normalized_lines(s),
{
    lemma_normalized_lines_no_cr(s);
    lemma_no_cr_fixed(normalized_lines(s));
}

proof fn lemma_no_cr_fixed(s: Seq<u8>)
    requires
        !s.contains(ASCII_CR),
    ensures
        normalized_lines(s) == s,
    decreases s.len(),
{
    if s.len() > 0 {
        assert(s[0] != ASCII_CR);
        assert(!s.skip(1).contains(ASCII_CR)) by {
            if s.skip(1).contains(ASCII_CR) {
                let i = choose|i: int| 0 <= i < s.skip(1).len() && s.skip(1)[i] == ASCII_CR;
                assert(s[i + 1] == ASCII_CR);
            }
        }
        lemma_no_cr_fixed(s.skip(1));
        assert(seq![s[0]] + s.skip(1) =~= s);
    }
}

/// Whether a character is white space in a public identifier.
pub open spec fn is_pubid_space(c: u8) -> bool {
    c == ASCII_SPACE || c == ASCII_CR || c == ASCII_LF
}

/// A public identifier read up to its `n`-th character: each run of white
/// space becomes one space, and none is kept at the start.
pub open spec fn pubid_prefix(s: Seq<u8>, n: int) -> Seq<u8>
    decreases n,
{
    if n <= 0 {
        Seq::empty()
    } else {
        let acc = pubid_prefix(s, n - 1);
        if is_pubid_space(s[n - 1]) {
            if acc.len() > 0 && acc.last() != ASCII_SPACE {
                acc.push(ASCII_SPACE)
            } else {
                acc
            }
        } else {
            acc.push(s[n - 1])
        }
    }
}

/// A normalised public identifier: single spaces between words, none at
/// either end.
pub open spec fn normalized_public_id(s: Seq<u8>) -> Seq<u8> {
    let acc = pubid_prefix(s, s.len() as int);
    if acc.len() > 0 && acc.last() == ASCII_SPACE {
        acc.drop_last()
    } else {
        acc
    }
}

/// Normalise the white space of a public identifier in place.
pub fn normalizePublicId(public_id: &mut Vec<u8>)
    ensures
        final(public_id)@ == normalized_public_id(old(public_id)@),
{
    let ghost orig = public_id@;
    let n = public_id.len();
    let mut r: usize = 0;
    let mut w: usize = 0;
    assert(orig.skip(0) =~= orig);
    assert(public_id@.take(0) =~= Seq::<u8>::empty());
    while r < n
        invariant
            w <= r <= n,
            n == orig.len(),
            public_id.len() == n,
            public_id@.skip(r as int) == orig.skip(r as int),
            public_id@.take(w as int) == pubid_prefix(orig, r as int),
        decreases n - r,
    {
        let c = public_id[r];
        assert(c == orig[r as int]) by {
            assert(public_id@.skip(r as int)[0] == orig.skip(r as int)[0]);
        }
        let ghost before = public_id@;
        if c == ASCII_SPACE || c == ASCII_CR || c == ASCII_LF {
            if w > 0 && public_id[w - 1] != ASCII_SPACE {
                public_id.set(w, ASCII_SPACE);
                w = w + 1;
                assert(public_id@.take(w as int) =~= before.take(w - 1).push(ASCII_SPACE));
            }
        } else {
            public_id.set(w, c);
            w = w + 1;
            assert(public_id@.take(w as int) =~= before.take(w - 1).push(c));
        }
        assert forall|k: int| r + 1 <= k < n implies #[trigger] public_id@[k] == orig[k] by {
            assert(before.skip(r as int)[k - r] == orig.skip(r as int)[k - r]);
        }
        r = r + 1;
        assert(public_id@.skip(r as int) =~= orig.skip(r as int));
    }
    if w > 0 && public_id[w - 1] == ASCII_SPACE {
        w = w - 1;
    }
    public_id.truncate(w);
    assert(public_id@ =~= normalized_public_id(orig));
}

/// The words of a normalised public identifier are separated by single
/// spaces: it has no line ends, no space at either end and no two spaces
/// in a row.
pub proof fn lemma_public_id_normal_form(s: Seq<u8>)
    ensures
        ({
            let r = normalized_public_id(s);
            &&& forall|i: int| 0 <= i < r.len() ==> r[i] != ASCII_CR && r[i] != ASCII_LF
            &&& r.len() > 0 ==> r[0] != ASCII_SPACE && r.last() != ASCII_SPACE
            &&& forall|i: int, j: int|
                0 <= i && j == i + 1 && j < r.len() ==> !(#[trigger] r[i] == ASCII_SPACE && #[trigger] r[j]
                    == ASCII_SPACE)
        }),
{
    lemma_pubid_prefix_form(s, s.len() as int);
    let acc = pubid_prefix(s, s.len() as int);
    let r = normalized_public_id(s);
    if acc.len() > 0 && acc.last() == ASCII_SPACE {
        assert forall|i: int| 0 <= i < r.len() implies r[i] == acc[i] by {
        }
        if r.len() > 0 {
            assert(r.last() == acc[acc.len() - 2]);
        }
    }
}

proof fn lemma_pubid_prefix_form(s: Seq<u8>, n: int)
    requires
        n <= s.len(),
    ensures
        ({
            let r = pubid_prefix(s, n);
            &&& forall|i: int| 0 <= i < r.len() ==> r[i] != ASCII_CR && r[i] != ASCII_LF
            &&& r.len() > 0 ==> r[0] != ASCII_SPACE
            &&& forall|i: int, j: int|
                0 <= i && j == i + 1 && j < r.len() ==> !(#[trigger] r[i] == ASCII_SPACE && #[trigger] r[j]
                    == ASCII_SPACE)
        }),
    decreases n,
{
    if n > 0 {
        lemma_pubid_prefix_form(s, n - 1);
    }
}

/// The characters that may stand in a namespace name next to the
/// namespace separator: letters, digits and the characters RFC 3986
/// allows in a URI.
pub open spec fn spec_is_rfc3986_uri_char(c: u8) -> bool {
    ||| 0x41 <= c <= 0x5a
    ||| 0x61 <= c <= 0x7a
    ||| 0x30 <= c <= 0x39
    ||| c == 0x25 || c == 0x2d || c == 0x2e || c == 0x5f || c == 0x7e
    ||| c == 0x3a || c == 0x2f || c == 0x3f || c == 0x23 || c == 0x5b || c == 0x5d || c == 0x40
    ||| c == 0x21 || c == 0x24 || c == 0x26 || c == 0x27 || c == 0x28 || c == 0x29 || c == 0x2a
    ||| c == 0x2b || c == 0x2c || c == 0x3b || c == 0x3d
}

/// Whether `candidate` may appear in a URI.
pub fn is_rfc3986_uri_char(candidate: u8) -> (r: bool)
    ensures
        r == spec_is_rfc3986_uri_char(candidate),
{
    match candidate {
        0x41..=0x5a | 0x61..=0x7a | 0x30..=0x39 => true,
        0x25 | 0x2d | 0x2e | 0x5f | 0x7e => true,
        0x3a | 0x2f | 0x3f | 0x23 | 0x5b | 0x5d | 0x40 => true,
        0x21 | 0x24 | 0x26 | 0x27 | 0x28 | 0x29 | 0x2a | 0x2b | 0x2c | 0x3b | 0x3d => true,
        _ => false,
    }
}

/// The upper-case hexadecimal digit of `d < 16`.
pub open spec fn hex_digit(d: u8) -> u8 {
    if d < 10 {
        (0x30 + d) as u8
    } else {
        (0x41 + d - 10) as u8
    }
}

/// How a byte is shown in debug output: printable ASCII as itself,
/// `"` and `\` escaped, `\0`, `\t`, `\n` and `\r` by name and every other
/// byte as `\x` followed by its value in hexadecimal without leading zero.
pub open spec fn printable_form(c: u8) -> Seq<u8> {
    if c == 0 {
        seq![0x5cu8, 0x30u8]
    } else if c == ASCII_TAB {
        seq![0x5cu8, 0x74u8]
    } else if c == ASCII_LF {
        seq![0x5cu8, 0x6eu8]
    } else if c == ASCII_CR {
        seq![0x5cu8, 0x72u8]
    } else if c == 0x22 {
        seq![0x5cu8, 0x22u8]
    } else if c == 0x5c {
        seq![0x5cu8, 0x5cu8]
    } else if 0x20 <= c < 0x7f {
        seq![c]
    } else if c < 16 {
        seq![0x5cu8, 0x78u8, hex_digit(c)]
    } else {
        seq![0x5cu8, 0x78u8, hex_digit(c / 16), hex_digit(c % 16)]
    }
}

fn hex_digit_of(d: u8) -> (r: u8)
    requires
        d < 16,
    ensures
        r == hex_digit(d),
{
    if d < 10 {
        0x30 + d
    } else {
        0x41 + d - 10
    }
}

/// The printable form of a byte.
pub fn unsignedCharToPrintable(c: u8) -> (r: Vec<u8>)
    ensures
        r@ == printable_form(c),
{
    let r = if c == 0 {
        vec![0x5cu8, 0x30u8]
    } else if c == ASCII_TAB {
        vec![0x5cu8, 0x74u8]
    } else if c == ASCII_LF {
        vec![0x5cu8, 0x6eu8]
    } else if c == ASCII_CR {
        vec![0x5cu8, 0x72u8]
    } else if c == 0x22 {
        vec![0x5cu8, 0x22u8]
    } else if c == 0x5c {
        vec![0x5cu8, 0x5cu8]
    } else if 0x20 <= c && c < 0x7f {
        vec![c]
    } else if c < 16 {
        vec![0x5cu8, 0x78u8, hex_digit_of(c)]
    } else {
        vec![0x5cu8, 0x78u8, hex_digit_of(c / 16), hex_digit_of(c % 16)]
    };
    assert(r@ =~= printable_form(c));
    r
}

} // verus!
