//! Little-endian fixed-width integers on the wire.
use vstd::prelude::*;

verus! {

/// `256` to the power `n`.
pub open spec fn pow256(n: nat) -> nat
    decreases n,
{
    if n == 0 {
        1
    } else {
        256 * pow256((n - 1) as nat)
    }
}

/// The number that `s` stands for, least significant byte first.
pub open spec fn spec_le_value(s: Seq<u8>) -> nat
    decreases s.len(),
{
    if s.len() == 0 {
        0
    } else {
        s[0] as nat + 256 * spec_le_value(s.drop_first())
    }
}

/// The `n` least significant bytes of `v`, least significant first.
pub open spec fn spec_le_bytes(v: nat, n: nat) -> Seq<u8>
    decreases n,
{
    if n == 0 {
        Seq::empty()
    } else {
        seq![(v % 256) as u8] + spec_le_bytes(v / 256, (n - 1) as nat)
    }
}

pub proof fn lemma_pow256_facts()
    ensures
        pow256(2) == 0x1_0000,
        pow256(4) == 0x1_0000_0000,
        pow256(8) == 0x1_0000_0000_0000_0000,
{
    reveal_with_fuel(pow256, 9);
}

pub proof fn lemma_pow256_monotonic(a: nat, b: nat)
    requires
        a <= b,
    ensures
        pow256(a) <= pow256(b),
    decreases b - a,
{
    if a < b {
        lemma_pow256_monotonic(a, (b - 1) as nat);
    }
}

pub proof fn lemma_le_bytes_len(v: nat, n: nat)
    ensures
        spec_le_bytes(v, n).len() == n,
    decreases n,
{
    if n > 0 {
        lemma_le_bytes_len(v / 256, (n - 1) as nat);
    }
}

/// `n` bytes stand for a number below `256` to the power `n`.
pub proof fn lemma_le_value_bound(s: Seq<u8>)
    ensures
        spec_le_value(s) < pow256(s.len()),
    decreases s.len(),
{
    if s.len() > 0 {
        lemma_le_value_bound(s.drop_first());
    }
}

/// Reading back the `n` low bytes of a number below `256` to the power `n`
/// gives the number.
pub proof fn lemma_le_round_trip(v: nat, n: nat)
    requires
        v < pow256(n),
    ensures
        spec_le_bytes(v, n).len() == n,
        spec_le_value(spec_le_bytes(v, n)) == v,
    decreases n,
{
    lemma_le_bytes_len(v, n);
    if n > 0 {
        let tail = spec_le_bytes(v / 256, (n - 1) as nat);
        lemma_le_round_trip(v / 256, (n - 1) as nat);
        assert(spec_le_bytes(v, n).drop_first() =~= tail);
    }
}

/// Appends the `n` low bytes of `v` to `out`, least significant first.
pub fn push_le(out: &mut Vec<u8>, v: u64, n: usize)
    ensures
        final(out)@ == old(out)@ + spec_le_bytes(v as nat, n as nat),
{
    let ghost start = out@;
    let mut x = v;
    let mut i: usize = 0;
    while i < n
        invariant
            i <= n,
            out@ + spec_le_bytes(x as nat, (n - i) as nat) == start + spec_le_bytes(v as nat, n as nat),
        decreases n - i,
    {
        let ghost before = out@;
        out.push((x % 256) as u8);
        assert(before + spec_le_bytes(x as nat, (n - i) as nat) =~= out@ + spec_le_bytes(
            (x / 256) as nat,
            (n - i - 1) as nat,
        ));
        x = x / 256;
        i = i + 1;
    }
    assert(out@ =~= out@ + spec_le_bytes(x as nat, 0));
}

/// The number that the `n` bytes of `bytes` from `start` stand for, least
/// significant first.
pub fn read_le(bytes: &[u8], start: usize, n: usize) -> (r: u64)
    requires
        n <= 8,
        start + n <= bytes@.len(),
    ensures
        r as nat == spec_le_value(bytes@.subrange(start as int, start + n)),
{
    let mut r: u64 = 0;
    let mut i: usize = n;
    assert(bytes@.len() == bytes.len());
    while i > 0
        invariant
            i <= n <= 8,
            start + n <= bytes@.len(),
            bytes@.len() == bytes.len(),
            r as nat == spec_le_value(bytes@.subrange(start + i, start + n)),
        decreases i,
    {
        i = i - 1;
        let ghost part = bytes@.subrange(start + i, start + n);
        proof {
            assert(part.drop_first() =~= bytes@.subrange(start + i + 1, start + n));
            lemma_le_value_bound(part.drop_first());
            lemma_pow256_monotonic((n - i - 1) as nat, 7);
            reveal_with_fuel(pow256, 8);
        }
        r = bytes[start + i] as u64 + r * 256;
    }
    r
}

} // verus!
