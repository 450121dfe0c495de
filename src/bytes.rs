//! Byte sequences of an integer in little- and big-endian order.

use vstd::prelude::*;
use vstd::arithmetic::power::{pow, lemma_pow_positive};

verus! {

/// The low `n` bytes of `v`, least significant first.
pub open spec fn le_bytes(v: nat, n: nat) -> Seq<u8>
    decreases n,
{
    if n == 0 {
        Seq::empty()
    } else {
        seq![(v % 256) as u8] + le_bytes(v / 256, (n - 1) as nat)
    }
}

/// The low `n` bytes of `v`, most significant first.
pub open spec fn be_bytes(v: nat, n: nat) -> Seq<u8>
    decreases n,
{
    if n == 0 {
        Seq::empty()
    } else {
        be_bytes(v / 256, (n - 1) as nat).push((v % 256) as u8)
    }
}

/// The value of bytes given least significant first.
pub open spec fn le_value(bs: Seq<u8>) -> nat
    decreases bs.len(),
{
    if bs.len() == 0 {
        0
    } else {
        (bs[0] + 256 * le_value(bs.drop_first())) as nat
    }
}

/// The value of bytes given most significant first.
pub open spec fn be_value(bs: Seq<u8>) -> nat
    decreases bs.len(),
{
    if bs.len() == 0 {
        0
    } else {
        (be_value(bs.drop_last()) * 256 + bs.last()) as nat
    }
}

/// Appends the low `n` bytes of `v`, least significant first.
pub(crate) fn push_le_bytes(out: &mut Vec<u8>, v: u64, n: usize)
    ensures
        final(out)@ == old(out)@ + le_bytes(v as nat, n as nat),
    decreases n,
{
    let ghost start = out@;
    if n > 0 {
        out.push((v % 256) as u8);
        push_le_bytes(out, v / 256, n - 1);
    }
    assert(out@ =~= start + le_bytes(v as nat, n as nat));
}

/// Appends the low `n` bytes of `v`, most significant first.
pub(crate) fn push_be_bytes(out: &mut Vec<u8>, v: u64, n: usize)
    ensures
        final(out)@ == old(out)@ + be_bytes(v as nat, n as nat),
    decreases n,
{
    let ghost start = out@;
    if n > 0 {
        push_be_bytes(out, v / 256, n - 1);
        out.push((v % 256) as u8);
    }
    assert(out@ =~= start + be_bytes(v as nat, n as nat));
}

/// Reads up to eight bytes, most significant first.
pub(crate) fn read_be(bs: &Vec<u8>) -> (r: u64)
    requires
        bs@.len() <= 8,
    ensures
        r == be_value(bs@),
{
    let mut acc: u64 = 0;
    let mut i: usize = 0;
    while i < bs.len()
        invariant
            i <= bs@.len() <= 8,
            acc == be_value(bs@.subrange(0, i as int)),
        decreases bs@.len() - i,
    {
        let ghost next = bs@.subrange(0, i + 1 as int);
        assert(next.drop_last() =~= bs@.subrange(0, i as int));
        proof {
            lemma_be_value_bound(next);
            lemma_pow256_le_u64(next.len());
        }
        acc = acc * 256 + bs[i] as u64;
        i = i + 1;
    }
    assert(bs@.subrange(0, bs@.len() as int) =~= bs@);
    acc
}

/// Reads up to eight bytes, least significant first.
pub(crate) fn read_le(bs: &Vec<u8>) -> (r: u64)
    requires
        bs@.len() <= 8,
    ensures
        r == le_value(bs@),
{
    let n = bs.len();
    let mut acc: u64 = 0;
    let mut j: usize = n;
    while j > 0
        invariant
            j <= n == bs@.len() <= 8,
            acc == le_value(bs@.subrange(j as int, n as int)),
        decreases j,
    {
        let ghost next = bs@.subrange(j - 1, n as int);
        assert(next.drop_first() =~= bs@.subrange(j as int, n as int));
        proof {
            lemma_le_value_bound(next);
            lemma_pow256_le_u64(next.len());
        }
        acc = bs[j - 1] as u64 + 256 * acc;
        j = j - 1;
    }
    assert(bs@.subrange(0, n as int) =~= bs@);
    acc
}

/// The powers of 256 up to the eighth.
pub proof fn lemma_pow256_values()
    ensures
        pow(256, 0) == 1,
        pow(256, 1) == 0x100,
        pow(256, 2) == 0x1_0000,
        pow(256, 3) == 0x100_0000,
        pow(256, 4) == 0x1_0000_0000,
        pow(256, 5) == 0x100_0000_0000,
        pow(256, 6) == 0x1_0000_0000_0000,
        pow(256, 7) == 0x100_0000_0000_0000,
        pow(256, 8) == 0x1_0000_0000_0000_0000,
{
    reveal_with_fuel(pow, 9);
}

/// Up to eight bytes span at most the 64-bit range.
pub proof fn lemma_pow256_le_u64(n: nat)
    requires
        n <= 8,
    ensures
        pow(256, n) <= 0x1_0000_0000_0000_0000,
{
    lemma_pow256_values();
}

/// `n` bytes, most significant first, are worth less than 256 to the `n`.
pub proof fn lemma_be_value_bound(bs: Seq<u8>)
    ensures
        be_value(bs) < pow(256, bs.len()),
    decreases bs.len(),
{
    reveal(pow);
    if bs.len() > 0 {
        lemma_be_value_bound(bs.drop_last());
        let p = pow(256, (bs.len() - 1) as nat);
        let v = be_value(bs.drop_last());
        assert(v * 256 + bs.last() < 256 * p) by (nonlinear_arith)
            requires
                v < p,
                bs.last() < 256,
        ;
    }
}

/// `n` bytes, least significant first, are worth less than 256 to the `n`.
pub proof fn lemma_le_value_bound(bs: Seq<u8>)
    ensures
        le_value(bs) < pow(256, bs.len()),
    decreases bs.len(),
{
    reveal(pow);
    if bs.len() > 0 {
        lemma_le_value_bound(bs.drop_first());
        let p = pow(256, (bs.len() - 1) as nat);
        let v = le_value(bs.drop_first());
        assert(bs[0] + 256 * v < 256 * p) by (nonlinear_arith)
            requires
                v < p,
                bs[0] < 256,
        ;
    }
}

/// Both byte sequences of `v` have exactly `n` bytes.
pub proof fn lemma_bytes_len(v: nat, n: nat)
    ensures
        le_bytes(v, n).len() == n,
        be_bytes(v, n).len() == n,
    decreases n,
{
    if n > 0 {
        lemma_bytes_len(v / 256, (n - 1) as nat);
    }
}

/// Writing `v` as `n` little-endian bytes and reading them back gives `v`
/// whenever `v` fits in `n` bytes.
pub proof fn lemma_le_round_trip(v: nat, n: nat)
    requires
        v < pow(256, n),
    ensures
        le_bytes(v, n).len() == n,
        le_value(le_bytes(v, n)) == v,
    decreases n,
{
    reveal(pow);
    if n > 0 {
        let p = pow(256, (n - 1) as nat);
        assert(v / 256 < p) by (nonlinear_arith)
            requires
                v < 256 * p,
        ;
        lemma_le_round_trip(v / 256, (n - 1) as nat);
        let s = le_bytes(v, n);
        assert(s.drop_first() =~= le_bytes(v / 256, (n - 1) as nat));
    }
}

/// Writing `v` as `n` big-endian bytes and reading them back gives `v`
/// whenever `v` fits in `n` bytes.
pub proof fn lemma_be_round_trip(v: nat, n: nat)
    requires
        v < pow(256, n),
    ensures
        be_bytes(v, n).len() == n,
        be_value(be_bytes(v, n)) == v,
    decreases n,
{
    reveal(pow);
    if n > 0 {
        let p = pow(256, (n - 1) as nat);
        assert(v / 256 < p) by (nonlinear_arith)
            requires
                v < 256 * p,
        ;
        lemma_be_round_trip(v / 256, (n - 1) as nat);
        let s = be_bytes(v, n);
        assert(s.drop_last() =~= be_bytes(v / 256, (n - 1) as nat));
    }
}

} // verus!
