//! Byte-sequence utilities: ordering, equality, decimal and hexadecimal
//! rendering, and UTF-8 validation. All results are pinned to spec-level
//! functions so the comparison engine's contracts can speak about them.

use vstd::prelude::*;

verus! {

pub use vstd::string::StringSliceAdditionalSpecFns;

/// For byte vectors the deep view and the plain view coincide.
pub broadcast proof fn lemma_deep_view_bytes(v: Vec<u8>)
    ensures
        #[trigger] v.deep_view() == v@,
{
    assert(v.deep_view() =~= v@);
}

/// Lexicographic byte order (case-sensitive), used to sort header names for
/// deterministic report output.
pub open spec fn lex_le(a: Seq<u8>, b: Seq<u8>) -> bool
    decreases a.len(),
{
    if a.len() == 0 {
        true
    } else if b.len() == 0 {
        false
    } else if a[0] < b[0] {
        true
    } else if a[0] > b[0] {
        false
    } else {
        lex_le(a.subrange(1, a.len() as int), b.subrange(1, b.len() as int))
    }
}

fn bytes_le_from(a: &Vec<u8>, b: &Vec<u8>, i: usize) -> (r: bool)
    requires
        i <= a.len(),
        i <= b.len(),
    ensures
        r == lex_le(a@.subrange(i as int, a.len() as int), b@.subrange(i as int, b.len() as int)),
    decreases a.len() - i,
{
    let ghost sa = a@.subrange(i as int, a.len() as int);
    let ghost sb = b@.subrange(i as int, b.len() as int);
    if i == a.len() {
        true
    } else if i == b.len() {
        false
    } else if a[i] < b[i] {
        true
    } else if a[i] > b[i] {
        false
    } else {
        let r = bytes_le_from(a, b, i + 1);
        proof {
            assert(sa.subrange(1, sa.len() as int) =~= a@.subrange(i + 1, a.len() as int));
            assert(sb.subrange(1, sb.len() as int) =~= b@.subrange(i + 1, b.len() as int));
        }
        r
    }
}

/// Compares two byte strings in lexicographic order.
pub fn bytes_le(a: &Vec<u8>, b: &Vec<u8>) -> (r: bool)
    ensures
        r == lex_le(a@, b@),
{
    let r = bytes_le_from(a, b, 0);
    proof {
        assert(a@.subrange(0, a.len() as int) =~= a@);
        assert(b@.subrange(0, b.len() as int) =~= b@);
    }
    r
}

/// Byte-exact equality of two byte strings.
pub fn bytes_eq(a: &Vec<u8>, b: &Vec<u8>) -> (r: bool)
    ensures
        r == (a@ == b@),
{
    if a.len() != b.len() {
        return false;
    }
    let mut i: usize = 0;
    while i < a.len()
        invariant
            i <= a.len(),
            a.len() == b.len(),
            forall|j: int| 0 <= j < i ==> a@[j] == b@[j],
        decreases a.len() - i,
    {
        if a[i] != b[i] {
            return false;
        }
        i = i + 1;
    }
    proof {
        assert(a@ =~= b@);
    }
    true
}

/// The decimal digits of a natural number, most significant first.
pub open spec fn spec_dec_nat(n: nat) -> Seq<u8>
    decreases n,
{
    if n < 10 {
        seq![(0x30 + n) as u8]
    } else {
        spec_dec_nat(n / 10) + seq![(0x30 + n % 10) as u8]
    }
}

/// Renders a number in decimal.
pub fn dec_u64(n: u64) -> (r: Vec<u8>)
    ensures
        r@ == spec_dec_nat(n as nat),
    decreases n,
{
    if n < 10 {
        let mut v: Vec<u8> = Vec::new();
        v.push(0x30u8 + (n as u8));
        v
    } else {
        let mut v = dec_u64(n / 10);
        v.push(0x30u8 + ((n % 10) as u8));
        v
    }
}

/// The decimal digits of an integer, with a leading minus sign if negative.
pub open spec fn spec_dec_int(i: int) -> Seq<u8> {
    if i < 0 {
        seq![0x2du8] + spec_dec_nat((-i) as nat)
    } else {
        spec_dec_nat(i as nat)
    }
}

/// Renders a signed number in decimal.
pub fn dec_i64(n: i64) -> (r: Vec<u8>)
    ensures
        r@ == spec_dec_int(n as int),
{
    if n >= 0 {
        dec_u64(n as u64)
    } else {
        let mag: u64 = ((-(n + 1)) as u64) + 1;
        assert(mag as nat == (-(n as int)) as nat);
        let mut v: Vec<u8> = Vec::new();
        v.push(0x2du8);
        let mut d = dec_u64(mag);
        v.append(&mut d);
        v
    }
}

/// One hexadecimal digit, lower case.
pub open spec fn spec_hex_digit(n: u8) -> u8 {
    if n < 10 {
        (0x30 + n) as u8
    } else {
        (0x57 + n) as u8
    }
}

/// Two lower-case hexadecimal digits for one byte.
pub open spec fn spec_hex_byte(b: u8) -> Seq<u8> {
    seq![spec_hex_digit(b / 16), spec_hex_digit(b % 16)]
}

fn hex_digit(n: u8) -> (r: u8)
    requires
        n < 16,
    ensures
        r == spec_hex_digit(n),
{
    if n < 10 {
        0x30u8 + n
    } else {
        0x57u8 + n
    }
}

/// Appends the two hex digits of a byte.
pub fn push_hex_byte(out: &mut Vec<u8>, b: u8)
    ensures
        final(out)@ == old(out)@ + spec_hex_byte(b),
{
    out.push(hex_digit(b / 16));
    out.push(hex_digit(b % 16));
}

/// Copies a string literal's UTF-8 bytes into an owned byte string.
pub fn str_vec(s: &str) -> (r: Vec<u8>)
    ensures
        r@ == s.spec_bytes(),
{
    vstd::slice::slice_to_vec(s.as_bytes())
}

/// Copies a byte string.
pub fn clone_bytes(v: &Vec<u8>) -> (r: Vec<u8>)
    ensures
        r@ == v@,
{
    let mut r: Vec<u8> = Vec::new();
    let mut i: usize = 0;
    while i < v.len()
        invariant
            i <= v.len(),
            r@ == v@.subrange(0, i as int),
        decreases v.len() - i,
    {
        r.push(v[i]);
        proof {
            assert(v@.subrange(0, i + 1) =~= v@.subrange(0, i as int) + seq![v@[i as int]]);
        }
        i = i + 1;
    }
    proof {
        assert(v@.subrange(0, v.len() as int) =~= v@);
    }
    r
}

/// A continuation byte of a multi-byte UTF-8 encoding.
pub open spec fn is_cont(b: u8) -> bool {
    0x80 <= b <= 0xBF
}

/// Validity of a byte string as UTF-8, following the encoding's defined
/// ranges (rejecting overlong forms, surrogates and values past U+10FFFF).
pub open spec fn is_utf8(s: Seq<u8>) -> bool
    decreases s.len(),
{
    if s.len() == 0 {
        true
    } else {
        let b0 = s[0];
        if b0 < 0x80 {
            is_utf8(s.subrange(1, s.len() as int))
        } else if 0xC2 <= b0 && b0 <= 0xDF {
            s.len() >= 2 && is_cont(s[1]) && is_utf8(s.subrange(2, s.len() as int))
        } else if b0 == 0xE0 {
            s.len() >= 3 && 0xA0 <= s[1] && s[1] <= 0xBF && is_cont(s[2]) && is_utf8(
                s.subrange(3, s.len() as int),
            )
        } else if (0xE1 <= b0 && b0 <= 0xEC) || b0 == 0xEE || b0 == 0xEF {
            s.len() >= 3 && is_cont(s[1]) && is_cont(s[2]) && is_utf8(
                s.subrange(3, s.len() as int),
            )
        } else if b0 == 0xED {
            s.len() >= 3 && 0x80 <= s[1] && s[1] <= 0x9F && is_cont(s[2]) && is_utf8(
                s.subrange(3, s.len() as int),
            )
        } else if b0 == 0xF0 {
            s.len() >= 4 && 0x90 <= s[1] && s[1] <= 0xBF && is_cont(s[2]) && is_cont(s[3])
                && is_utf8(s.subrange(4, s.len() as int))
        } else if 0xF1 <= b0 && b0 <= 0xF3 {
            s.len() >= 4 && is_cont(s[1]) && is_cont(s[2]) && is_cont(s[3]) && is_utf8(
                s.subrange(4, s.len() as int),
            )
        } else if b0 == 0xF4 {
            s.len() >= 4 && 0x80 <= s[1] && s[1] <= 0x8F && is_cont(s[2]) && is_cont(s[3])
                && is_utf8(s.subrange(4, s.len() as int))
        } else {
            false
        }
    }
}

fn cont_at(v: &Vec<u8>, i: usize) -> (r: bool)
    requires
        i < v.len(),
    ensures
        r == is_cont(v@[i as int]),
{
    0x80 <= v[i] && v[i] <= 0xBF
}

fn check_utf8_from(v: &Vec<u8>, i: usize) -> (r: bool)
    requires
        i <= v.len(),
    ensures
        r == is_utf8(v@.subrange(i as int, v.len() as int)),
    decreases v.len() - i,
{
    let ghost s = v@.subrange(i as int, v.len() as int);
    let n = v.len();
    if i == n {
        return true;
    }
    let b0 = v[i];
    proof {
        assert(s[0] == v@[i as int]);
        assert(s.subrange(1, s.len() as int) =~= v@.subrange(i + 1, n as int));
        if s.len() >= 2 {
            assert(s[1] == v@[i + 1]);
            assert(s.subrange(2, s.len() as int) =~= v@.subrange(i + 2, n as int));
        }
        if s.len() >= 3 {
            assert(s[2] == v@[i + 2]);
            assert(s.subrange(3, s.len() as int) =~= v@.subrange(i + 3, n as int));
        }
        if s.len() >= 4 {
            assert(s[3] == v@[i + 3]);
            assert(s.subrange(4, s.len() as int) =~= v@.subrange(i + 4, n as int));
        }
    }
    if b0 < 0x80 {
        check_utf8_from(v, i + 1)
    } else if 0xC2 <= b0 && b0 <= 0xDF {
        n - i >= 2 && cont_at(v, i + 1) && check_utf8_from(v, i + 2)
    } else if b0 == 0xE0 {
        n - i >= 3 && 0xA0 <= v[i + 1] && v[i + 1] <= 0xBF && cont_at(v, i + 2) && check_utf8_from(
            v,
            i + 3,
        )
    } else if (0xE1 <= b0 && b0 <= 0xEC) || b0 == 0xEE || b0 == 0xEF {
        n - i >= 3 && cont_at(v, i + 1) && cont_at(v, i + 2) && check_utf8_from(v, i + 3)
    } else if b0 == 0xED {
        n - i >= 3 && 0x80 <= v[i + 1] && v[i + 1] <= 0x9F && cont_at(v, i + 2) && check_utf8_from(
            v,
            i + 3,
        )
    } else if b0 == 0xF0 {
        n - i >= 4 && 0x90 <= v[i + 1] && v[i + 1] <= 0xBF && cont_at(v, i + 2) && cont_at(
            v,
            i + 3,
        ) && check_utf8_from(v, i + 4)
    } else if 0xF1 <= b0 && b0 <= 0xF3 {
        n - i >= 4 && cont_at(v, i + 1) && cont_at(v, i + 2) && cont_at(v, i + 3)
            && check_utf8_from(v, i + 4)
    } else if b0 == 0xF4 {
        n - i >= 4 && 0x80 <= v[i + 1] && v[i + 1] <= 0x8F && cont_at(v, i + 2) && cont_at(
            v,
            i + 3,
        ) && check_utf8_from(v, i + 4)
    } else {
        false
    }
}

/// Decides whether a byte string is valid UTF-8.
pub fn check_utf8(v: &Vec<u8>) -> (r: bool)
    ensures
        r == is_utf8(v@),
{
    let r = check_utf8_from(v, 0);
    proof {
        assert(v@.subrange(0, v.len() as int) =~= v@);
    }
    r
}

} // verus!
