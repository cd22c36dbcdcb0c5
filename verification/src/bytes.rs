//! Little-endian integers and fixed-size byte strings inside byte buffers.

#[allow(unused_imports)]
use vstd::arithmetic::div_mod::lemma_div_denominator;
#[allow(unused_imports)]
use vstd::arithmetic::power::{lemma_pow0, lemma_pow_positive, pow};
use vstd::prelude::*;

verus! {

/// The number that a byte string denotes, least significant byte first.
pub open spec fn le_value(s: Seq<u8>) -> nat
    decreases s.len(),
{
    if s.len() == 0 {
        0
    } else {
        s[0] as nat + 256 * le_value(s.drop_first())
    }
}

/// The `n` low-order base-256 digits of `x`, least significant first.
pub open spec fn le_bytes(x: nat, n: nat) -> Seq<u8>
    decreases n,
{
    if n == 0 {
        Seq::empty()
    } else {
        seq![(x % 256) as u8] + le_bytes(x / 256, (n - 1) as nat)
    }
}

/// How many values `n` bytes can take.
pub open spec fn pow256(n: nat) -> nat
    decreases n,
{
    if n == 0 {
        1
    } else {
        256 * pow256((n - 1) as nat)
    }
}

/// A byte string of length `n` denotes a number below `256^n`.
pub proof fn lemma_le_bound(s: Seq<u8>)
    ensures
        le_value(s) < pow256(s.len()),
    decreases s.len(),
{
    if s.len() > 0 {
        lemma_le_bound(s.drop_first());
    }
}

/// Writing a number into `n` bytes and reading it back gives the number, as
/// long as it fits.
pub proof fn lemma_le_read_of_write(x: nat, n: nat)
    requires
        x < pow256(n),
    ensures
        le_bytes(x, n).len() == n,
        le_value(le_bytes(x, n)) == x,
    decreases n,
{
    if n > 0 {
        let rest = le_bytes(x / 256, (n - 1) as nat);
        lemma_le_read_of_write(x / 256, (n - 1) as nat);
        assert(le_bytes(x, n).drop_first() =~= rest);
    }
}

/// Reading a byte string and writing the number back gives the byte string.
pub proof fn lemma_le_write_of_read(s: Seq<u8>)
    ensures
        le_bytes(le_value(s), s.len()) == s,
    decreases s.len(),
{
    if s.len() > 0 {
        let rest = s.drop_first();
        lemma_le_write_of_read(rest);
        assert(le_value(s) % 256 == s[0] as nat);
        assert(le_value(s) / 256 == le_value(rest));
        assert(seq![s[0]] + rest =~= s);
    } else {
        assert(le_bytes(0, 0) =~= s);
    }
}

/// Byte `k` of a number in little-endian order is `(x / 256^k) % 256`.
pub proof fn law_le_bytes_are_the_digits(x: nat, n: nat, k: int)
    requires
        0 <= k < n,
    ensures
        le_bytes(x, n).len() == n,
        le_bytes(x, n)[k] == (x as int / pow(256, k as nat)) % 256,
    decreases n,
{
    let rest = le_bytes(x / 256, (n - 1) as nat);
    lemma_le_bytes_len(x / 256, (n - 1) as nat);
    if k == 0 {
        lemma_pow0(256);
        assert(x as int / 1 == x);
    } else {
        law_le_bytes_are_the_digits(x / 256, (n - 1) as nat, k - 1);
        lemma_pow_positive(256, (k - 1) as nat);
        assert(pow(256, k as nat) == 256 * pow(256, (k - 1) as nat)) by {
            reveal(pow);
        }
        lemma_div_denominator(x as int, 256, pow(256, (k - 1) as nat));
        assert(le_bytes(x, n)[k] == rest[k - 1]);
    }
}

proof fn lemma_le_bytes_len(x: nat, n: nat)
    ensures
        le_bytes(x, n).len() == n,
    decreases n,
{
    if n > 0 {
        lemma_le_bytes_len(x / 256, (n - 1) as nat);
    }
}

/// The number that a byte string denotes fits it, and has the bytes of the string
/// as its base-256 digits, the least significant one first.
pub proof fn law_le_value_has_the_digits(s: Seq<u8>)
    ensures
        le_value(s) < pow(256, s.len()),
        forall|k: int|
            0 <= k < s.len() ==> (#[trigger] s[k]) as int == (le_value(s) as int / pow(
                256,
                k as nat,
            )) % 256,
{
    lemma_le_bound(s);
    lemma_pow256_is_pow(s.len());
    lemma_le_write_of_read(s);
    assert forall|k: int| 0 <= k < s.len() implies (#[trigger] s[k]) as int == (le_value(s) as int
        / pow(256, k as nat)) % 256 by {
        law_le_bytes_are_the_digits(le_value(s), s.len(), k);
    }
}

/// No other number that fits has those digits.
pub proof fn law_le_value_is_determined(s: Seq<u8>, x: nat)
    requires
        x < pow(256, s.len()),
        forall|k: int|
            0 <= k < s.len() ==> (#[trigger] s[k]) as int == (x as int / pow(256, k as nat)) % 256,
    ensures
        le_value(s) == x,
{
    lemma_pow256_is_pow(s.len());
    lemma_le_read_of_write(x, s.len());
    assert forall|k: int| 0 <= k < s.len() implies s[k] == le_bytes(x, s.len())[k] by {
        law_le_bytes_are_the_digits(x, s.len(), k);
    }
    assert(s =~= le_bytes(x, s.len()));
}

proof fn lemma_pow256_is_pow(n: nat)
    ensures
        pow256(n) == pow(256, n),
    decreases n,
{
    reveal(pow);
    if n > 0 {
        lemma_pow256_is_pow((n - 1) as nat);
    }
}

/// Fields of at most eight bytes hold values that fit in a `u64`.
pub proof fn lemma_pow256_values()
    ensures
        pow256(2) == 0x1_0000,
        pow256(4) == 0x1_0000_0000,
        pow256(8) == 0x1_0000_0000_0000_0000,
{
    reveal_with_fuel(pow256, 9);
}

proof fn lemma_pow256_monotonic(m: nat, n: nat)
    requires
        m <= n,
    ensures
        pow256(m) <= pow256(n),
    decreases n,
{
    if m < n {
        lemma_pow256_monotonic(m, (n - 1) as nat);
    }
}

/// Read the `n`-byte little-endian integer at `off`.
pub fn get_le(p: &[u8], off: usize, n: usize) -> (r: u64)
    requires
        n <= 8,
        off + n <= p.len(),
    ensures
        r == le_value(p@.subrange(off as int, off + n)),
        r < pow256(n as nat),
        r < pow(256, n as nat),
        forall|k: int|
            #![trigger p@[off + k]]
            0 <= k < n ==> p@[off + k] as int == (r as int / pow(256, k as nat)) % 256,
{
    let mut v: u64 = 0;
    let mut i: usize = n;
    let ghost field = p@.subrange(off as int, off + n);
    assert(field.skip(n as int) =~= Seq::<u8>::empty());
    while i > 0
        invariant
            i <= n <= 8,
            off + n <= p.len(),
            field == p@.subrange(off as int, off + n),
            v == le_value(field.skip(i as int)),
        decreases i,
    {
        proof {
            let tail = field.skip(i - 1);
            assert(tail.drop_first() =~= field.skip(i as int));
            lemma_le_bound(tail);
            lemma_pow256_monotonic(tail.len(), 8);
            lemma_pow256_values();
        }
        i = i - 1;
        v = v * 256 + p[off + i] as u64;
    }
    proof {
        assert(field.skip(0) =~= field);
        lemma_le_bound(field);
        law_le_value_has_the_digits(field);
        assert forall|k: int| #![trigger p@[off + k]] 0 <= k < n implies p@[off + k] as int == (
        v as int / pow(256, k as nat)) % 256 by {
            assert(field[k] == p@[off + k]);
        }
    }
    v
}

/// Write `x` at `off` as an `n`-byte little-endian integer.
pub fn put_le<const L: usize>(b: &mut [u8; L], off: usize, x: u64, n: usize)
    requires
        off + n <= L,
    ensures
        final(b)@.take(off + n) == old(b)@.take(off as int) + le_bytes(x as nat, n as nat),
        final(b)@.skip(off + n) == old(b)@.skip(off + n),
        forall|k: int|
            #![trigger final(b)@[off + k]]
            0 <= k < n ==> final(b)@[off + k] as int == (x as int / pow(256, k as nat)) % 256,
        forall|i: int|
            #![trigger final(b)@[i]]
            0 <= i < off || off + n <= i < L ==> final(b)@[i] == old(b)@[i],
{
    let mut rest: u64 = x;
    let mut i: usize = 0;
    while i < n
        invariant
            i <= n,
            off + n <= L,
            b@.take(off + i) + le_bytes(rest as nat, (n - i) as nat) == old(b)@.take(off as int)
                + le_bytes(x as nat, n as nat),
            b@.skip(off + n) == old(b)@.skip(off + n),
        decreases n - i,
    {
        let ghost before = b@;
        b[off + i] = (rest % 256) as u8;
        proof {
            let digit = (rest % 256) as u8;
            let tail = le_bytes((rest / 256) as nat, (n - i - 1) as nat);
            assert(le_bytes(rest as nat, (n - i) as nat) == seq![digit] + tail);
            assert(b@.take(off + i + 1) =~= before.take(off + i).push(digit));
            assert(b@.skip(off + n) =~= before.skip(off + n));
            assert(b@.take(off + i + 1) + tail =~= before.take(off + i) + (seq![digit] + tail));
        }
        rest = rest / 256;
        i = i + 1;
    }
    proof {
        assert(b@.take(off + n) + le_bytes(rest as nat, 0) =~= b@.take(off + n));
        let whole = old(b)@.take(off as int) + le_bytes(x as nat, n as nat);
        lemma_le_bytes_len(x as nat, n as nat);
        assert forall|k: int| #![trigger b@[off + k]] 0 <= k < n implies b@[off + k] as int == (
        x as int / pow(256, k as nat)) % 256 by {
            law_le_bytes_are_the_digits(x as nat, n as nat, k);
            assert(b@.take(off + n)[off + k] == whole[off + k]);
        }
        assert forall|i: int| #![trigger b@[i]]
            0 <= i < off || off + n <= i < L implies b@[i] == old(b)@[i] by {
            if i < off {
                assert(b@.take(off + n)[i] == whole[i]);
            } else {
                assert(b@.skip(off + n)[i - off - n] == old(b)@.skip(off + n)[i - off - n]);
            }
        }
    }
}

/// Copy out the `N` bytes at `off`.
pub fn get_array<const N: usize>(p: &[u8], off: usize) -> (r: [u8; N])
    requires
        off + N <= p.len(),
    ensures
        r@ == p@.subrange(off as int, off + N),
        forall|k: int| 0 <= k < N ==> #[trigger] r@[k] == p@[off + k],
{
    let mut r: [u8; N] = [0u8; N];
    let mut i: usize = 0;
    while i < N
        invariant
            i <= N,
            off + N <= p.len(),
            forall|k: int| 0 <= k < i ==> r@[k] == p@[off + k],
        decreases N - i,
    {
        r[i] = p[off + i];
        i = i + 1;
    }
    assert(r@ =~= p@.subrange(off as int, off + N));
    r
}

/// Copy the `N` bytes of `src` to `off`.
pub fn put_array<const L: usize, const N: usize>(b: &mut [u8; L], off: usize, src: &[u8; N])
    requires
        off + N <= L,
    ensures
        final(b)@.take(off + N) == old(b)@.take(off as int) + src@,
        final(b)@.skip(off + N) == old(b)@.skip(off + N),
        forall|k: int|
            #![trigger final(b)@[off + k]]
            0 <= k < N ==> final(b)@[off + k] == src@[k],
        forall|i: int|
            #![trigger final(b)@[i]]
            0 <= i < off || off + N <= i < L ==> final(b)@[i] == old(b)@[i],
{
    let mut i: usize = 0;
    while i < N
        invariant
            i <= N,
            off + N <= L,
            b@.take(off + i) == old(b)@.take(off as int) + src@.take(i as int),
            b@.skip(off + N) == old(b)@.skip(off + N),
        decreases N - i,
    {
        let ghost before = b@;
        b[off + i] = src[i];
        proof {
            assert(b@.take(off + i + 1) =~= before.take(off + i).push(src@[i as int]));
            assert(b@.skip(off + N) =~= before.skip(off + N));
            assert(src@.take(i + 1) =~= src@.take(i as int).push(src@[i as int]));
        }
        i = i + 1;
    }
    assert(src@.take(N as int) =~= src@);
    proof {
        let whole = old(b)@.take(off as int) + src@;
        assert forall|k: int| #![trigger b@[off + k]] 0 <= k < N implies b@[off + k] == src@[k] by {
            assert(b@.take(off + N)[off + k] == whole[off + k]);
        }
        assert forall|i: int| #![trigger b@[i]]
            0 <= i < off || off + N <= i < L implies b@[i] == old(b)@[i] by {
            if i < off {
                assert(b@.take(off + N)[i] == whole[i]);
            } else {
                assert(b@.skip(off + N)[i - off - N] == old(b)@.skip(off + N)[i - off - N]);
            }
        }
    }
}

} // verus!
