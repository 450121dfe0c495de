//! Digit strings in bases 2, 8, 10 and 16: rendering, filtering and parsing.

use vstd::prelude::*;
use vstd::arithmetic::div_mod::lemma_div_decreases;
use vstd::arithmetic::power::pow;
use crate::text::push_char;

verus! {

/// The bases that digit strings are written in.
pub open spec fn is_radix(base: nat) -> bool {
    base == 2 || base == 8 || base == 10 || base == 16
}

/// The character of digit `d`: `'0'..='9'`, then uppercase `'A'..='F'`.
pub open spec fn digit_char(d: nat) -> char {
    if d < 10 {
        ((d + 48) as u8) as char
    } else {
        ((d + 55) as u8) as char
    }
}

/// The value of a digit character of either case; 0 for any other character.
pub open spec fn digit_value(c: char) -> nat {
    if '0' <= c && c <= '9' {
        (c as u32 - 48) as nat
    } else if 'A' <= c && c <= 'F' {
        (c as u32 - 55) as nat
    } else if 'a' <= c && c <= 'f' {
        (c as u32 - 87) as nat
    } else {
        0
    }
}

/// Whether `c` is a digit of `base`; letters count only in base 16.
pub open spec fn is_digit_in(c: char, base: nat) -> bool {
    &&& ('0' <= c && c <= '9') || (base == 16 && (('A' <= c && c <= 'F') || ('a' <= c
        && c <= 'f')))
    &&& digit_value(c) < base
}

/// The value of the digits `ds`, most significant first.
pub open spec fn digits_value(ds: Seq<char>, base: nat) -> nat
    decreases ds.len(),
{
    if ds.len() == 0 {
        0
    } else {
        digits_value(ds.drop_last(), base) * base + digit_value(ds.last())
    }
}

/// The shortest digit string of `n` in `base` (`"0"` for zero).
pub open spec fn digits_of(n: nat, base: nat) -> Seq<char>
    decreases n,
    via digits_of_decreases
{
    if base < 2 || n < base {
        seq![digit_char(n)]
    } else {
        digits_of(n / base, base).push(digit_char(n % base))
    }
}

#[via_fn]
proof fn digits_of_decreases(n: nat, base: nat) {
    if !(base < 2 || n < base) {
        lemma_div_decreases(n as int, base as int);
    }
}

/// The low `k` digits of `n` in `base`, zero-padded to exactly `k` characters.
pub open spec fn fixed_digits(n: nat, base: nat, k: nat) -> Seq<char>
    decreases k,
{
    if k == 0 {
        Seq::empty()
    } else {
        fixed_digits(n / base, base, (k - 1) as nat).push(digit_char(n % base))
    }
}

/// The characters of `s` that are digits of `base`, in order.
pub open spec fn keep_digits(s: Seq<char>, base: nat) -> Seq<char>
    decreases s.len(),
{
    if s.len() == 0 {
        Seq::empty()
    } else if is_digit_in(s.last(), base) {
        keep_digits(s.drop_last(), base).push(s.last())
    } else {
        keep_digits(s.drop_last(), base)
    }
}

/// The value of the digits `ds` when there is at least one and it fits in 64 bits.
pub open spec fn parse_spec(ds: Seq<char>, base: nat) -> Option<u64> {
    if ds.len() == 0 || digits_value(ds, base) > u64::MAX {
        None
    } else {
        Some(digits_value(ds, base) as u64)
    }
}

pub(crate) fn digit_char_of(d: u64) -> (c: char)
    requires
        d < 16,
    ensures
        c == digit_char(d as nat),
{
    if d < 10 {
        ((d as u8) + 48) as char
    } else {
        ((d as u8) + 55) as char
    }
}

pub(crate) fn digit_value_of(c: char) -> (r: u64)
    ensures
        r == digit_value(c),
        r < 16,
{
    if '0' <= c && c <= '9' {
        (c as u32 - 48) as u64
    } else if 'A' <= c && c <= 'F' {
        (c as u32 - 55) as u64
    } else if 'a' <= c && c <= 'f' {
        (c as u32 - 87) as u64
    } else {
        0
    }
}

pub(crate) fn is_digit(c: char, base: u64) -> (r: bool)
    requires
        is_radix(base as nat),
    ensures
        r == is_digit_in(c, base as nat),
{
    let decimal = '0' <= c && c <= '9';
    let letter = base == 16 && (('A' <= c && c <= 'F') || ('a' <= c && c <= 'f'));
    (decimal || letter) && digit_value_of(c) < base
}

/// Appends the shortest digit string of `n` in `base` to `out`.
pub(crate) fn push_digits(out: &mut String, n: u64, base: u64)
    requires
        is_radix(base as nat),
    ensures
        final(out)@ == old(out)@ + digits_of(n as nat, base as nat),
    decreases n,
{
    let ghost start = out@;
    if n >= base {
        proof {
            lemma_div_decreases(n as int, base as int);
        }
        push_digits(out, n / base, base);
    }
    push_char(out, digit_char_of(n % base));
    assert(out@ =~= start + digits_of(n as nat, base as nat));
}

/// Appends the low `k` digits of `n` in `base`, zero-padded, to `out`.
pub(crate) fn push_fixed_digits(out: &mut String, n: u64, base: u64, k: u64)
    requires
        is_radix(base as nat),
    ensures
        final(out)@ == old(out)@ + fixed_digits(n as nat, base as nat, k as nat),
    decreases k,
{
    let ghost start = out@;
    if k > 0 {
        push_fixed_digits(out, n / base, base, k - 1);
        push_char(out, digit_char_of(n % base));
    }
    assert(out@ =~= start + fixed_digits(n as nat, base as nat, k as nat));
}

/// The characters of `cs` that are digits of `base`.
pub(crate) fn retain_digits(cs: &Vec<char>, base: u64) -> (r: Vec<char>)
    requires
        is_radix(base as nat),
    ensures
        r@ == keep_digits(cs@, base as nat),
{
    let mut out: Vec<char> = Vec::new();
    let mut i: usize = 0;
    while i < cs.len()
        invariant
            is_radix(base as nat),
            i <= cs@.len(),
            out@ == keep_digits(cs@.subrange(0, i as int), base as nat),
        decreases cs@.len() - i,
    {
        let c = cs[i];
        assert(cs@.subrange(0, i + 1 as int).drop_last() =~= cs@.subrange(0, i as int));
        if is_digit(c, base) {
            out.push(c);
        }
        i = i + 1;
    }
    assert(cs@.subrange(0, cs@.len() as int) =~= cs@);
    out
}

/// Parses the digits `ds` of `base`; `None` when there are none or the value
/// does not fit in 64 bits.
pub(crate) fn parse_digits(ds: &Vec<char>, base: u64) -> (r: Option<u64>)
    requires
        is_radix(base as nat),
    ensures
        r == parse_spec(ds@, base as nat),
{
    if ds.len() == 0 {
        return None;
    }
    let mut acc: u64 = 0;
    let mut i: usize = 0;
    while i < ds.len()
        invariant
            is_radix(base as nat),
            i <= ds@.len(),
            acc == digits_value(ds@.subrange(0, i as int), base as nat),
        decreases ds@.len() - i,
    {
        let d = digit_value_of(ds[i]);
        let ghost next = ds@.subrange(0, i + 1 as int);
        assert(next.drop_last() =~= ds@.subrange(0, i as int));
        match acc.checked_mul(base) {
            Some(x) => match x.checked_add(d) {
                Some(y) => {
                    acc = y;
                },
                None => {
                    proof {
                        lemma_prefix_value_le(ds@, base as nat, (i + 1) as nat);
                    }
                    return None;
                },
            },
            None => {
                proof {
                    assert(acc * base + d >= acc * base) by (nonlinear_arith)
                        requires
                            d >= 0,
                    ;
                    lemma_prefix_value_le(ds@, base as nat, (i + 1) as nat);
                }
                return None;
            },
        }
        i = i + 1;
    }
    assert(ds@.subrange(0, ds@.len() as int) =~= ds@);
    Some(acc)
}

/// A prefix of a digit string is worth no more than the whole string.
proof fn lemma_prefix_value_le(ds: Seq<char>, base: nat, k: nat)
    requires
        base >= 1,
        k <= ds.len(),
    ensures
        digits_value(ds.subrange(0, k as int), base) <= digits_value(ds, base),
    decreases ds.len() - k,
{
    if k < ds.len() {
        lemma_prefix_value_le(ds, base, k + 1);
        let p = ds.subrange(0, k + 1 as int);
        assert(p.drop_last() =~= ds.subrange(0, k as int));
        let v = digits_value(ds.subrange(0, k as int), base);
        assert(v * base >= v) by (nonlinear_arith)
            requires
                base >= 1,
        ;
    } else {
        assert(ds.subrange(0, k as int) =~= ds);
    }
}

/// A digit character is read back as its digit, and is a digit of any base
/// above it.
pub proof fn lemma_digit_char(d: nat, base: nat)
    requires
        is_radix(base),
        d < base,
    ensures
        digit_value(digit_char(d)) == d,
        is_digit_in(digit_char(d), base),
{
}

/// The shortest digit string of `n` is non-empty, consists of digits of
/// `base`, and reads back as `n`.
pub proof fn lemma_digits_of(n: nat, base: nat)
    requires
        is_radix(base),
    ensures
        digits_of(n, base).len() >= 1,
        digits_value(digits_of(n, base), base) == n,
        forall|i: int|
            0 <= i < digits_of(n, base).len() ==> is_digit_in(
                #[trigger] digits_of(n, base)[i],
                base,
            ),
    decreases n,
{
    if n < base {
        lemma_digit_char(n, base);
        let s = digits_of(n, base);
        assert(s.drop_last() =~= Seq::<char>::empty());
        assert(digits_value(s, base) == digits_value(s.drop_last(), base) * base + digit_value(s.last()));
        assert(0 * base == 0);
    } else {
        lemma_div_decreases(n as int, base as int);
        lemma_digits_of(n / base, base);
        lemma_digit_char(n % base, base);
        let s = digits_of(n, base);
        assert(s.drop_last() =~= digits_of(n / base, base));
        assert(n == (n / base) * base + n % base) by (nonlinear_arith)
            requires
                base > 0,
        ;
    }
}

/// The zero-padded digit string of `n` has `k` digits of `base` and reads
/// back as `n` when `n` has at most `k` digits.
pub proof fn lemma_fixed_digits(n: nat, base: nat, k: nat)
    requires
        is_radix(base),
        n < pow(base as int, k),
    ensures
        fixed_digits(n, base, k).len() == k,
        digits_value(fixed_digits(n, base, k), base) == n,
        forall|i: int|
            0 <= i < k ==> is_digit_in(#[trigger] fixed_digits(n, base, k)[i], base),
    decreases k,
{
    reveal(pow);
    if k == 0 {
        assert(n == 0);
    } else {
        let p = pow(base as int, (k - 1) as nat);
        assert(n / base < p) by (nonlinear_arith)
            requires
                n < base * p,
                base > 0,
        ;
        lemma_fixed_digits(n / base, base, (k - 1) as nat);
        lemma_digit_char(n % base, base);
        let s = fixed_digits(n, base, k);
        assert(s.drop_last() =~= fixed_digits(n / base, base, (k - 1) as nat));
        assert(n == (n / base) * base + n % base) by (nonlinear_arith)
            requires
                base > 0,
        ;
    }
}

/// Keeping the digits of a string made only of digits changes nothing.
pub proof fn lemma_keep_all_digits(s: Seq<char>, base: nat)
    requires
        forall|i: int| 0 <= i < s.len() ==> is_digit_in(#[trigger] s[i], base),
    ensures
        keep_digits(s, base) == s,
    decreases s.len(),
{
    if s.len() > 0 {
        lemma_keep_all_digits(s.drop_last(), base);
        assert(s.drop_last().push(s.last()) =~= s);
    }
}

/// A number below `base^k` has at most `k` digits, for any `k` of at least one.
pub proof fn lemma_digits_of_len(n: nat, base: nat, k: nat)
    requires
        is_radix(base),
        k >= 1,
        n < pow(base as int, k),
    ensures
        digits_of(n, base).len() <= k,
    decreases n,
{
    reveal(pow);
    if n >= base {
        let p = pow(base as int, (k - 1) as nat);
        if k == 1 {
            assert(p == 1);
        } else {
            assert(n / base < p) by (nonlinear_arith)
                requires
                    n < base * p,
                    base > 0,
            ;
            lemma_div_decreases(n as int, base as int);
            lemma_digits_of_len(n / base, base, (k - 1) as nat);
        }
    }
}

} // verus!
