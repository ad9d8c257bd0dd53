//! Numbers in text: hexadecimal parsing, decimal and hexadecimal spelling, and
//! the UTF-8 length of characters.

use vstd::prelude::*;
use crate::text::lower;
use crate::text::lower_char;

verus! {

// ---------------------------------------------------------------------------
// UTF-8 length
// ---------------------------------------------------------------------------

/// Number of bytes `c` takes in UTF-8 (`char::len_utf8`).
pub open spec fn char_width(c: char) -> nat {
    let u = c as u32;
    if u < 0x80 {
        1
    } else if u < 0x800 {
        2
    } else if u < 0x10000 {
        3
    } else {
        4
    }
}

/// Number of bytes the characters take in UTF-8 (`str::len`).
pub open spec fn utf8_len(s: Seq<char>) -> nat
    decreases s.len(),
{
    if s.len() == 0 {
        0
    } else {
        utf8_len(s.drop_last()) + char_width(s.last())
    }
}

pub fn char_width_exec(c: char) -> (r: usize)
    ensures
        r == char_width(c),
        1 <= r <= 4,
{
    let u = c as u32;
    if u < 0x80 {
        1
    } else if u < 0x800 {
        2
    } else if u < 0x10000 {
        3
    } else {
        4
    }
}

pub proof fn lemma_utf8_len_monotone(s: Seq<char>, k: int)
    requires
        0 <= k <= s.len(),
    ensures
        utf8_len(s.take(k)) <= utf8_len(s),
        k < s.len() ==> utf8_len(s.take(k)) < utf8_len(s),
    decreases s.len() - k,
{
    if k < s.len() {
        lemma_utf8_len_monotone(s, k + 1);
        assert(s.take(k + 1).drop_last() == s.take(k));
    } else {
        assert(s.take(k) == s);
    }
}

// ---------------------------------------------------------------------------
// Hexadecimal parsing
// ---------------------------------------------------------------------------

/// Value of a hexadecimal digit, either case.
pub open spec fn hex_val(c: char) -> Option<nat> {
    if '0' <= c && c <= '9' {
        Some((c as u32 - '0' as u32) as nat)
    } else if 'a' <= c && c <= 'f' {
        Some((c as u32 - 'a' as u32 + 10) as nat)
    } else if 'A' <= c && c <= 'F' {
        Some((c as u32 - 'A' as u32 + 10) as nat)
    } else {
        None
    }
}

pub open spec fn all_hex(s: Seq<char>) -> bool {
    forall|i: int| 0 <= i < s.len() ==> (#[trigger] hex_val(s[i])) is Some
}

/// The number that a string of hexadecimal digits spells.
pub open spec fn hex_number(s: Seq<char>) -> nat
    decreases s.len(),
{
    if s.len() == 0 {
        0
    } else {
        hex_number(s.drop_last()) * 16 + hex_val(s.last()).unwrap()
    }
}

/// The text after an optional leading `+`.
pub open spec fn unsigned_digits(s: Seq<char>) -> Seq<char> {
    if s.len() > 0 && s[0] == '+' {
        s.drop_first()
    } else {
        s
    }
}

/// `usize::from_str_radix(s, 16)`: an optional `+`, then one or more hexadecimal
/// digits, with a value that fits in a `usize`.
pub open spec fn parse_hex_usize(s: Seq<char>) -> Option<nat> {
    let d = unsigned_digits(s);
    if d.len() == 0 || !all_hex(d) || hex_number(d) > usize::MAX {
        None
    } else {
        Some(hex_number(d))
    }
}

fn hex_val_exec(c: char) -> (r: Option<usize>)
    ensures
        r matches Some(v) ==> hex_val(c) == Some(v as nat) && v < 16,
        r is None ==> hex_val(c) is None,
{
    if '0' <= c && c <= '9' {
        Some((c as u32 - '0' as u32) as usize)
    } else if 'a' <= c && c <= 'f' {
        Some((c as u32 - 'a' as u32 + 10) as usize)
    } else if 'A' <= c && c <= 'F' {
        Some((c as u32 - 'A' as u32 + 10) as usize)
    } else {
        None
    }
}

proof fn lemma_hex_number_grows(s: Seq<char>, k: int)
    requires
        0 <= k <= s.len(),
        all_hex(s),
    ensures
        hex_number(s.take(k)) <= hex_number(s),
    decreases s.len() - k,
{
    if k < s.len() {
        lemma_hex_number_grows(s, k + 1);
        assert(s.take(k + 1).drop_last() == s.take(k));
        assert(hex_val(s[k]) is Some);
    } else {
        assert(s.take(k) == s);
    }
}

/// `usize::from_str_radix(s, 16).ok()` on characters.
pub fn parse_hex(s: &Vec<char>) -> (r: Option<usize>)
    ensures
        r matches Some(v) ==> parse_hex_usize(s@) == Some(v as nat),
        r is None ==> parse_hex_usize(s@) is None,
{
    let start: usize = if s.len() > 0 && s[0] == '+' {
        1
    } else {
        0
    };
    let ghost d = unsigned_digits(s@);
    proof {
        assert(d == s@.skip(start as int));
    }
    if start == s.len() {
        return None;
    }
    let mut acc: usize = 0;
    let mut i: usize = start;
    while i < s.len()
        invariant
            start <= i <= s@.len(),
            d == s@.skip(start as int),
            d == unsigned_digits(s@),
            forall|k: int| 0 <= k < i - start ==> (#[trigger] hex_val(d[k])) is Some,
            acc as nat == hex_number(d.take(i - start)),
        decreases s@.len() - i,
    {
        proof {
            assert(d.take(i - start + 1).drop_last() == d.take(i - start));
            assert(d[i - start] == s@[i as int]);
        }
        match hex_val_exec(s[i]) {
            None => {
                proof {
                    assert(hex_val(d[i - start]) is None);
                    assert(!all_hex(d));

                }
                return None;
            },
            Some(v) => {
                match acc.checked_mul(16) {
                    None => {
                        proof {
                            let t = d.take(i - start + 1);
                            assert(t.drop_last() == d.take(i - start));
                            assert(t.last() == d[i - start]);
                            assert(hex_number(t) == hex_number(d.take(i - start)) * 16 + v);
                            if all_hex(d) {
                                lemma_hex_number_grows(d, i - start + 1);
                            }
                        }
                        return None;
                    },
                    Some(m) => {
                        match m.checked_add(v) {
                            None => {
                                proof {
                                    let t = d.take(i - start + 1);
                                    assert(t.drop_last() == d.take(i - start));
                                    assert(t.last() == d[i - start]);
                                    assert(hex_number(t) == hex_number(d.take(i - start)) * 16 + v);
                                    if all_hex(d) {
                                        lemma_hex_number_grows(d, i - start + 1);
                                    }
                                }
                                return None;
                            },
                            Some(n) => {
                                proof {
                                    let t = d.take(i - start + 1);
                                    assert(t.drop_last() == d.take(i - start));
                                    assert(t.last() == d[i - start]);
                                }
                                acc = n;
                            },
                        }
                    },
                }
            },
        }
        i = i + 1;
    }
    proof {
        assert(d.take(i - start) == d);
        assert(all_hex(d));
    }
    Some(acc)
}

// ---------------------------------------------------------------------------
// Spelling numbers
// ---------------------------------------------------------------------------

pub open spec fn digit_char(v: nat) -> char {
    if v < 10 {
        ('0' as u32 + v) as char
    } else {
        ('a' as u32 + (v - 10)) as char
    }
}

/// The digits of `n` in base `b` (2..=16), lower case, most significant first,
/// no leading zeros (`"0"` for zero): the `{}` and `{:x}` formats.
pub open spec fn base_digits(n: nat, b: nat) -> Seq<char>
    recommends
        2 <= b <= 16,
    decreases n,
{
    if n < b || b < 2 {
        seq![digit_char(n)]
    } else {
        proof {
            assert(n / b < n) by (nonlinear_arith)
                requires
                    b >= 2,
                    n >= b,
            ;
        }
        base_digits(n / b, b).push(digit_char(n % b))
    }
}

/// `{:0w}`-style padding: zeros in front up to width `w`, never truncating.
pub open spec fn zero_padded(s: Seq<char>, w: nat) -> Seq<char> {
    if s.len() < w {
        Seq::new((w - s.len()) as nat, |_i: int| '0') + s
    } else {
        s
    }
}

fn digit_char_exec(v: u64) -> (r: char)
    requires
        v < 16,
    ensures
        r == digit_char(v as nat),
{
    if v < 10 {
        let b: u8 = (v as u8) + 48;
        b as char
    } else {
        let b: u8 = (v as u8) - 10 + 97;
        b as char
    }
}

/// The digits of `n` in base `b`.
pub fn digits_of(n: u64, b: u64) -> (r: Vec<char>)
    requires
        2 <= b <= 16,
    ensures
        r@ == base_digits(n as nat, b as nat),
    decreases n,
{
    if n < b {
        let mut v: Vec<char> = Vec::new();
        v.push(digit_char_exec(n));
        proof {
            assert(v@ =~= seq![digit_char(n as nat)]);
        }
        v
    } else {
        assert(n / b < n) by (nonlinear_arith)
            requires
                b >= 2,
                n >= b,
        ;
        let mut v = digits_of(n / b, b);
        v.push(digit_char_exec(n % b));
        v
    }
}

/// The digits of `n` in base `b`, padded with zeros to `w` characters.
pub fn padded_digits(n: u64, b: u64, w: usize) -> (r: Vec<char>)
    requires
        2 <= b <= 16,
    ensures
        r@ == zero_padded(base_digits(n as nat, b as nat), w as nat),
{
    let d = digits_of(n, b);
    if d.len() >= w {
        return d;
    }
    let mut out: Vec<char> = Vec::new();
    let pad = w - d.len();
    let mut i: usize = 0;
    while i < pad
        invariant
            i <= pad,
            out@ == Seq::new(i as nat, |_i: int| '0'),
        decreases pad - i,
    {
        out.push('0');
        proof {
            assert(out@ =~= Seq::new((i + 1) as nat, |_i: int| '0'));
        }
        i = i + 1;
    }
    let mut k: usize = 0;
    while k < d.len()
        invariant
            k <= d@.len(),
            out@ == Seq::new(pad as nat, |_i: int| '0') + d@.take(k as int),
        decreases d@.len() - k,
    {
        out.push(d[k]);
        proof {
            assert(d@.take(k + 1) == d@.take(k as int).push(d@[k as int]));
            assert(out@ =~= Seq::new(pad as nat, |_i: int| '0') + d@.take(k + 1));
        }
        k = k + 1;
    }
    proof {
        assert(d@.take(d@.len() as int) == d@);
    }
    out
}


/// A lower-case hexadecimal digit, as `{:x}` writes them.
pub open spec fn is_lower_hex(c: char) -> bool {
    ('0' <= c && c <= '9') || ('a' <= c && c <= 'f')
}

/// `16^w`: the first number that needs more than `w` hexadecimal digits.
pub open spec fn hex_bound(w: nat) -> nat
    decreases w,
{
    if w == 0 {
        1
    } else {
        16 * hex_bound((w - 1) as nat)
    }
}

proof fn lemma_digit_char_hex(v: nat)
    requires
        v < 16,
    ensures
        is_lower_hex(digit_char(v)),
        hex_val(digit_char(v)) == Some(v),
{
}

/// Appending a digit multiplies by sixteen and adds it.
proof fn lemma_hex_number_push(s: Seq<char>, c: char)
    ensures
        hex_number(s.push(c)) == hex_number(s) * 16 + hex_val(c).unwrap(),
{
    assert(s.push(c).drop_last() == s);
}

/// The `{:x}` digits of `n` are lower-case hexadecimal digits that spell `n`,
/// and there are no more than `w` of them when `n < 16^w` (at least one digit).
proof fn lemma_base16(n: nat, w: nat)
    ensures
        forall|i: int| 0 <= i < base_digits(n, 16).len() ==> is_lower_hex(#[trigger] base_digits(n, 16)[i]),
        hex_number(base_digits(n, 16)) == n,
        n < hex_bound(w) && w > 0 ==> base_digits(n, 16).len() <= w,
    decreases n,
{
    let d = base_digits(n, 16);
    if n < 16 {
        lemma_digit_char_hex(n);
        assert(d == seq![digit_char(n)]);
        assert(d.drop_last() =~= Seq::<char>::empty());
        assert(hex_number(d) == hex_number(d.drop_last()) * 16 + hex_val(d.last()).unwrap());
        if w > 1 {
            assert(hex_bound((w - 1) as nat) >= 1) by {
                lemma_hex_bound_positive((w - 1) as nat);
            }
        }
    } else {
        let m = n / 16;
        lemma_base16(m, (w - 1) as nat);
        lemma_digit_char_hex(n % 16);
        let p = base_digits(m, 16);
        assert(d == p.push(digit_char(n % 16)));
        lemma_hex_number_push(p, digit_char(n % 16));
        assert(n == m * 16 + n % 16) by (nonlinear_arith)
            requires
                m == n / 16,
        ;
        assert forall|i: int| 0 <= i < d.len() implies is_lower_hex(#[trigger] d[i]) by {
            if i < p.len() {
                assert(d[i] == p[i]);
            }
        }
        if n < hex_bound(w) && w > 0 {
            if w == 1 {
                assert(hex_bound(1) == 16) by {
                    reveal_with_fuel(hex_bound, 2);
                }
            } else {
                assert(hex_bound(w) == 16 * hex_bound((w - 1) as nat));
                assert(m < hex_bound((w - 1) as nat));
            }
        }
    }
}

proof fn lemma_hex_bound_positive(w: nat)
    ensures
        hex_bound(w) >= 1,
    decreases w,
{
    if w > 0 {
        lemma_hex_bound_positive((w - 1) as nat);
    }
}

/// Leading zeros do not change the number.
proof fn lemma_hex_number_leading_zeros(k: nat, s: Seq<char>)
    ensures
        hex_number(Seq::new(k, |_i: int| '0') + s) == hex_number(s),
    decreases s.len(),
{
    let z = Seq::new(k, |_i: int| '0');
    if s.len() == 0 {
        assert(z + s =~= z);
        lemma_hex_number_zeros(k);
    } else {
        assert((z + s).drop_last() =~= z + s.drop_last());
        assert((z + s).last() == s.last());
        lemma_hex_number_leading_zeros(k, s.drop_last());
    }
}

proof fn lemma_hex_number_zeros(k: nat)
    ensures
        hex_number(Seq::new(k, |_i: int| '0')) == 0,
    decreases k,
{
    if k > 0 {
        assert(Seq::new(k, |_i: int| '0').drop_last() =~= Seq::new((k - 1) as nat, |_i: int| '0'));
        lemma_hex_number_zeros((k - 1) as nat);
    }
}

/// `{:0w$x}` of a number below `16^w`: exactly `w` lower-case hexadecimal digits
/// that spell the number.
pub proof fn lemma_hex_field(x: nat, w: nat)
    requires
        0 < w,
        x < hex_bound(w),
    ensures
        zero_padded(base_digits(x, 16), w).len() == w,
        forall|i: int|
            0 <= i < w ==> is_lower_hex(#[trigger] zero_padded(base_digits(x, 16), w)[i]),
        hex_number(zero_padded(base_digits(x, 16), w)) == x,
{
    lemma_base16(x, w);
    let d = base_digits(x, 16);
    if d.len() < w {
        let k = (w - d.len()) as nat;
        let z = Seq::new(k, |_i: int| '0');
        lemma_hex_number_leading_zeros(k, d);
        assert forall|i: int| 0 <= i < w implies is_lower_hex(#[trigger] (z + d)[i]) by {
            if i >= k {
                assert((z + d)[i] == d[i - k]);
            }
        }
    }
}

/// A number of four hexadecimal digits, read from its first digit on.
pub proof fn lemma_hex_number_four(s: Seq<char>)
    requires
        s.len() == 4,
        forall|i: int| 0 <= i < 4 ==> is_lower_hex(#[trigger] s[i]),
    ensures
        hex_number(s) == hex_val(s[0]).unwrap() * 4096 + hex_val(s[1]).unwrap() * 256 + hex_val(
            s[2],
        ).unwrap() * 16 + hex_val(s[3]).unwrap(),
        hex_val(s[1]).unwrap() < 16 && hex_val(s[2]).unwrap() < 16 && hex_val(s[3]).unwrap() < 16,
{
    assert(is_lower_hex(s[0]) && is_lower_hex(s[1]) && is_lower_hex(s[2]) && is_lower_hex(s[3]));
    let s3 = s.drop_last();
    let s2 = s3.drop_last();
    let s1 = s2.drop_last();
    let s0 = s1.drop_last();
    assert(s0.len() == 0);
    assert(s1.last() == s[0]);
    assert(s2.last() == s[1]);
    assert(s3.last() == s[2]);
    reveal_with_fuel(hex_number, 5);
}

/// A hexadecimal digit is worth the same in either case: `A`-`F` read as `a`-`f`.
pub proof fn lemma_hex_val_ignores_case(c: char)
    ensures
        hex_val(c) == hex_val(lower_char(c)),
{
}

/// The lower-case digits `{:x}` writes read back as their values.
pub proof fn lemma_hex_digit_values(v: nat)
    requires
        v < 16,
    ensures
        hex_val(digit_char(v)) == Some(v),
{
    lemma_digit_char_hex(v);
}

proof fn lemma_hex_number_ignores_case(d: Seq<char>)
    ensures
        hex_number(lower(d)) == hex_number(d),
        all_hex(lower(d)) == all_hex(d),
    decreases d.len(),
{
    assert forall|i: int| 0 <= i < d.len() implies hex_val(#[trigger] lower(d)[i]) == hex_val(d[i]) by {
        lemma_hex_val_ignores_case(d[i]);
    }
    assert(lower(d).len() == d.len());
    if all_hex(d) {
        assert forall|i: int| 0 <= i < lower(d).len() implies (#[trigger] hex_val(lower(d)[i])) is Some by {
            assert(hex_val(d[i]) is Some);
        }
    }
    if all_hex(lower(d)) {
        assert forall|i: int| 0 <= i < d.len() implies (#[trigger] hex_val(d[i])) is Some by {
            assert(hex_val(lower(d)[i]) is Some);
        }
    }
    if d.len() > 0 {
        assert(lower(d).drop_last() =~= lower(d.drop_last()));
        lemma_hex_number_ignores_case(d.drop_last());
        assert(lower(d).last() == lower(d)[d.len() - 1]);
        assert(hex_val(lower(d)[d.len() - 1]) == hex_val(d[d.len() - 1]));
        assert(hex_number(lower(d)) == hex_number(lower(d).drop_last()) * 16 + hex_val(lower(d).last()).unwrap());
    }
}

/// Reading a hexadecimal number (a chunk size, say) does not depend on the case
/// its digits are written in: `A` and `a` both mean ten.
pub proof fn lemma_parse_hex_ignores_case(s: Seq<char>)
    ensures
        parse_hex_usize(lower(s)) == parse_hex_usize(s),
{
    if s.len() > 0 && s[0] == '+' {
        assert(lower(s)[0] == '+');
        assert(unsigned_digits(lower(s)) =~= lower(unsigned_digits(s)));
    } else {
        if s.len() > 0 {
            assert(lower(s)[0] == lower_char(s[0]));
        }
        assert(unsigned_digits(lower(s)) =~= lower(unsigned_digits(s)));
    }
    lemma_hex_number_ignores_case(unsigned_digits(s));
}
} // verus!
