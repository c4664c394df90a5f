//! Fixed-width little-endian integers: the byte order of every integer on the wire.
use vstd::arithmetic::div_mod::lemma_breakdown;
use vstd::prelude::*;

verus! {

/// 256 to the power `n`: how many values `n` bytes can tell apart.
pub open spec fn pow256(n: nat) -> nat
    decreases n,
{
    if n == 0 {
        1
    } else {
        256 * pow256((n - 1) as nat)
    }
}

/// The largest number that `width` bytes can hold.
pub open spec fn max_of_width(width: nat) -> nat {
    (pow256(width) - 1) as nat
}

/// The `n` low-order bytes of `v`, least significant byte first.
pub open spec fn le_bytes(v: nat, n: nat) -> Seq<u8>
    decreases n,
{
    if n == 0 {
        Seq::empty()
    } else {
        seq![(v % 256) as u8] + le_bytes(v / 256, (n - 1) as nat)
    }
}

/// The number that the bytes `s` spell, least significant byte first.
pub open spec fn le_value(s: Seq<u8>) -> nat
    decreases s.len(),
{
    if s.len() == 0 {
        0
    } else {
        s[0] as nat + 256 * le_value(s.drop_first())
    }
}

/// The powers of 256 at the four supported widths.
pub proof fn lemma_pow256_values()
    ensures
        pow256(0) == 1,
        pow256(1) == 0x100,
        pow256(2) == 0x1_0000,
        pow256(4) == 0x1_0000_0000,
        pow256(8) == 0x1_0000_0000_0000_0000,
{
    reveal_with_fuel(pow256, 9);
}

/// Powers of 256 are positive and grow with the exponent.
pub proof fn lemma_pow256_increases(n: nat, m: nat)
    requires
        n <= m,
    ensures
        1 <= pow256(n) <= pow256(m),
    decreases m,
{
    if m > n {
        lemma_pow256_increases(n, (m - 1) as nat);
    } else if n > 0 {
        lemma_pow256_increases((n - 1) as nat, (n - 1) as nat);
    }
}

/// `le_bytes` yields exactly as many bytes as asked for.
pub proof fn lemma_le_bytes_len(v: nat, n: nat)
    ensures
        le_bytes(v, n).len() == n,
    decreases n,
{
    if n > 0 {
        lemma_le_bytes_len(v / 256, (n - 1) as nat);
    }
}

/// What `n` bytes spell is below 256 to the `n`.
pub proof fn lemma_le_value_bound(s: Seq<u8>)
    ensures
        le_value(s) < pow256(s.len()),
    decreases s.len(),
{
    if s.len() > 0 {
        lemma_le_value_bound(s.drop_first());
    }
}

/// Reading back the `n` low-order bytes of `v` gives `v` modulo 256 to the `n`.
pub proof fn lemma_le_value_of_bytes(v: nat, n: nat)
    ensures
        le_value(le_bytes(v, n)) == v % pow256(n),
        v < pow256(n) ==> le_value(le_bytes(v, n)) == v,
    decreases n,
{
    if n > 0 {
        let rest = le_bytes(v / 256, (n - 1) as nat);
        let s = le_bytes(v, n);
        lemma_le_value_of_bytes(v / 256, (n - 1) as nat);
        lemma_pow256_increases(0, (n - 1) as nat);
        assert(s.drop_first() =~= rest);
        assert(s[0] == (v % 256) as u8);
        lemma_breakdown(v as int, 256, pow256((n - 1) as nat) as int);
    }
    if v < pow256(n) {
        vstd::arithmetic::div_mod::lemma_small_mod(v, pow256(n));
    }
}

/// Appends the `width` low-order bytes of `value` to `out`, least significant first.
pub fn put_le(out: &mut Vec<u8>, value: u64, width: usize)
    ensures
        final(out)@ == old(out)@ + le_bytes(value as nat, width as nat),
{
    let ghost start = out@;
    let mut rest: u64 = value;
    let mut i: usize = 0;
    while i < width
        invariant
            i <= width,
            out@ + le_bytes(rest as nat, (width - i) as nat) == start + le_bytes(
                value as nat,
                width as nat,
            ),
        decreases width - i,
    {
        let ghost before = out@;
        out.push((rest % 256) as u8);
        proof {
            let tail = le_bytes((rest / 256) as nat, (width - i - 1) as nat);
            assert(before + le_bytes(rest as nat, (width - i) as nat) =~= out@ + tail);
        }
        rest = rest / 256;
        i += 1;
    }
    assert(out@ + le_bytes(rest as nat, 0) =~= out@);
}

/// The number that at most eight bytes spell, least significant first.
pub(crate) fn get_le(bytes: &[u8]) -> (value: u64)
    requires
        bytes@.len() <= 8,
    ensures
        value == le_value(bytes@),
{
    let mut value: u64 = 0;
    let mut i: usize = bytes.len();
    assert(bytes@.skip(i as int) =~= Seq::<u8>::empty());
    while i > 0
        invariant
            i <= bytes@.len() <= 8,
            value == le_value(bytes@.skip(i as int)),
        decreases i,
    {
        i -= 1;
        proof {
            let done = bytes@.skip(i as int + 1);
            let next = bytes@.skip(i as int);
            assert(next.drop_first() =~= done);
            lemma_le_value_bound(done);
            lemma_le_value_bound(next);
            lemma_pow256_increases(next.len(), 8);
            lemma_pow256_values();
        }
        value = value * 256 + bytes[i] as u64;
    }
    assert(bytes@.skip(0) =~= bytes@);
    value
}

} // verus!
