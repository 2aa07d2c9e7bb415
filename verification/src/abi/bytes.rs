//! Little-endian integers and zero padding, as sequences of bytes.

use vstd::prelude::*;

verus! {

/// 256 to the power `width`.
pub open spec fn pow256(width: nat) -> nat
    decreases width,
{
    if width == 0 {
        1
    } else {
        256 * pow256((width - 1) as nat)
    }
}

/// The `width` low-order bytes of `x`, least significant first.
pub open spec fn le_bytes(x: nat, width: nat) -> Seq<u8>
    decreases width,
{
    if width == 0 {
        Seq::empty()
    } else {
        seq![(x % 256) as u8] + le_bytes(x / 256, (width - 1) as nat)
    }
}

/// The number that `bytes` spell, least significant byte first.
pub open spec fn le_value(bytes: Seq<u8>) -> nat
    decreases bytes.len(),
{
    if bytes.len() == 0 {
        0
    } else {
        bytes[0] as nat + 256 * le_value(bytes.drop_first())
    }
}

/// `n` zero bytes; none for a negative `n`.
pub open spec fn zeros(n: int) -> Seq<u8> {
    Seq::new(
        if n > 0 {
            n as nat
        } else {
            0
        },
        |i: int| 0u8,
    )
}

/// The powers of 256 that the widths in use need.
pub proof fn lemma_pow256_values()
    ensures
        pow256(0) == 1,
        pow256(1) == 0x100,
        pow256(2) == 0x1_0000,
        pow256(4) == 0x1_0000_0000,
        pow256(8) == 0x1_0000_0000_0000_0000,
{
    reveal_with_fuel(pow256, 9);
}

/// A number takes as many bytes as the width asks for.
pub proof fn lemma_le_bytes_len(x: nat, width: nat)
    ensures
        le_bytes(x, width).len() == width,
    decreases width,
{
    if width > 0 {
        lemma_le_bytes_len(x / 256, (width - 1) as nat);
    }
}

/// Below `256^width`, a number is read back from its bytes.
pub proof fn lemma_le_value_of_bytes(x: nat, width: nat)
    requires
        x < pow256(width),
    ensures
        le_value(le_bytes(x, width)) == x,
    decreases width,
{
    if width > 0 {
        let rest = le_bytes(x / 256, (width - 1) as nat);
        let all = le_bytes(x, width);
        lemma_le_value_of_bytes(x / 256, (width - 1) as nat);
        lemma_le_bytes_len(x / 256, (width - 1) as nat);
        assert(all.drop_first() =~= rest);
        assert(all[0] == (x % 256) as u8);
    }
}

/// What `width` bytes spell is below `256^width`.
pub proof fn lemma_le_value_bound(bytes: Seq<u8>)
    ensures
        le_value(bytes) < pow256(bytes.len()),
    decreases bytes.len(),
{
    if bytes.len() > 0 {
        lemma_le_value_bound(bytes.drop_first());
    }
}

/// Appends the `width` low-order bytes of `x` to `buf`.
pub fn put_le(buf: &mut Vec<u8>, x: u64, width: usize)
    ensures
        final(buf)@ == old(buf)@ + le_bytes(x as nat, width as nat),
{
    let mut rest: u64 = x;
    let mut i: usize = 0;
    assert(buf@ + le_bytes(rest as nat, width as nat) =~= old(buf)@ + le_bytes(
        x as nat,
        width as nat,
    ));
    while i < width
        invariant
            i <= width,
            buf@ + le_bytes(rest as nat, (width - i) as nat) == old(buf)@ + le_bytes(
                x as nat,
                width as nat,
            ),
        decreases width - i,
    {
        let ghost before = buf@;
        buf.push((rest % 256) as u8);
        proof {
            let tail = le_bytes((rest / 256) as nat, (width - i - 1) as nat);
            assert(le_bytes(rest as nat, (width - i) as nat) =~= seq![(rest % 256) as u8] + tail);
            assert(buf@ + tail =~= before + le_bytes(rest as nat, (width - i) as nat));
        }
        rest = rest / 256;
        i = i + 1;
    }
    assert(buf@ + le_bytes(rest as nat, 0) =~= buf@);
}

/// Reads the number that the `width` bytes from `off` spell.
pub fn get_le(buf: &[u8], off: usize, width: usize) -> (x: u64)
    requires
        width <= 8,
        off + width <= buf@.len(),
    ensures
        x as nat == le_value(buf@.subrange(off as int, off + width)),
{
    let mut acc: u64 = 0;
    let mut k: usize = width;
    let n: usize = buf.len();
    while k > 0
        invariant
            k <= width <= 8,
            off + width <= n == buf@.len(),
            acc as nat == le_value(buf@.subrange(off + k, off + width)),
        decreases k,
    {
        let ghost upper = buf@.subrange(off + k, off + width);
        k = k - 1;
        let byte: u8 = buf[off + k];
        proof {
            let now = buf@.subrange(off + k, off + width);
            assert(now.drop_first() =~= upper);
            assert(now[0] == byte);
            lemma_le_value_bound(now);
            lemma_pow256_monotonic(now.len(), 8);
            lemma_pow256_values();
        }
        acc = acc * 256 + byte as u64;
    }
    assert(buf@.subrange(off + 0, off + width) =~= buf@.subrange(off as int, off + width));
    acc
}

/// A larger width has a larger power of 256.
pub proof fn lemma_pow256_monotonic(a: nat, b: nat)
    requires
        a <= b,
    ensures
        pow256(a) <= pow256(b),
    decreases b,
{
    if a < b {
        lemma_pow256_monotonic(a, (b - 1) as nat);
    }
}

} // verus!
