//! The byte encodings of the transaction format: integers with the least
//! significant byte first, and lengths in the compact form.

use vstd::prelude::*;

verus! {

/// The `n` least significant bytes of `x`, the least significant first.
pub open spec fn le_bytes(x: nat, n: nat) -> Seq<u8>
    decreases n,
{
    if n == 0 {
        Seq::<u8>::empty()
    } else {
        seq![(x % 256) as u8] + le_bytes(x / 256, (n - 1) as nat)
    }
}

/// A length in the compact form: one byte below 253, and a marker with
/// two, four or eight bytes above.
pub open spec fn compact_size(n: nat) -> Seq<u8> {
    if n < 0xfd {
        seq![n as u8]
    } else if n <= 0xffff {
        seq![0xfdu8] + le_bytes(n, 2)
    } else if n <= 0xffff_ffff {
        seq![0xfeu8] + le_bytes(n, 4)
    } else {
        seq![0xffu8] + le_bytes(n, 8)
    }
}

/// Appends the `n` least significant bytes of `x`.
pub fn push_le(out: &mut Vec<u8>, x: u128, n: usize)
    ensures
        final(out)@ == old(out)@ + le_bytes(x as nat, n as nat),
{
    let ghost start = out@;
    let mut rest: u128 = x;
    let mut k: usize = 0;
    assert(out@ + le_bytes(rest as nat, n as nat) =~= start + le_bytes(x as nat, n as nat));
    while k < n
        invariant
            k <= n,
            out@ + le_bytes(rest as nat, (n - k) as nat) == start + le_bytes(x as nat, n as nat),
        decreases n - k,
    {
        let ghost before = out@;
        let byte: u8 = (rest % 256) as u8;
        out.push(byte);
        proof {
            let tail = le_bytes((rest / 256) as nat, (n - k - 1) as nat);
            assert(le_bytes(rest as nat, (n - k) as nat) == seq![byte] + tail);
            assert(before.push(byte) + tail =~= before + (seq![byte] + tail));
        }
        rest = rest / 256;
        k += 1;
    }
    assert(out@ + le_bytes(rest as nat, 0) =~= out@);
}

/// Appends a length in the compact form.
pub fn push_compact_size(out: &mut Vec<u8>, n: usize)
    ensures
        final(out)@ == old(out)@ + compact_size(n as nat),
{
    let ghost start = out@;
    if n < 0xfd {
        out.push(n as u8);
        assert(out@ =~= start + compact_size(n as nat));
    } else if n <= 0xffff {
        out.push(0xfd);
        push_le(out, n as u128, 2);
        assert(out@ =~= start + compact_size(n as nat));
    } else if n <= 0xffff_ffff {
        out.push(0xfe);
        push_le(out, n as u128, 4);
        assert(out@ =~= start + compact_size(n as nat));
    } else {
        out.push(0xff);
        push_le(out, n as u128, 8);
        assert(out@ =~= start + compact_size(n as nat));
    }
}

/// Appends bytes.
pub fn push_bytes(out: &mut Vec<u8>, data: &Vec<u8>)
    ensures
        final(out)@ == old(out)@ + data@,
{
    let ghost start = out@;
    let mut i: usize = 0;
    assert(out@ =~= start + data@.subrange(0, 0));
    while i < data.len()
        invariant
            i <= data@.len(),
            out@ == start + data@.subrange(0, i as int),
        decreases data@.len() - i,
    {
        out.push(data[i]);
        i += 1;
        assert(out@ =~= start + data@.subrange(0, i as int));
    }
    assert(data@.subrange(0, data@.len() as int) =~= data@);
}

/// Appends the 20 bytes of a witness program.
pub fn push_program(out: &mut Vec<u8>, program: &[u8; 20])
    ensures
        final(out)@ == old(out)@ + program@,
{
    let ghost start = out@;
    let mut i: usize = 0;
    assert(out@ =~= start + program@.subrange(0, 0));
    while i < 20
        invariant
            i <= 20,
            out@ == start + program@.subrange(0, i as int),
        decreases 20 - i,
    {
        out.push(program[i]);
        i += 1;
        assert(out@ =~= start + program@.subrange(0, i as int));
    }
    assert(program@.subrange(0, 20) =~= program@);
}

/// The number that bytes stand for, the least significant byte first.
pub open spec fn le_value(bytes: Seq<u8>) -> nat
    decreases bytes.len(),
{
    if bytes.len() == 0 {
        0
    } else {
        bytes[0] as nat + 256 * le_value(bytes.subrange(1, bytes.len() as int))
    }
}

/// 256 to the power of `n`.
pub open spec fn pow256(n: nat) -> nat
    decreases n,
{
    if n == 0 {
        1
    } else {
        256 * pow256((n - 1) as nat)
    }
}

/// Bytes stand for a number below 256 to the power of their count.
pub proof fn lemma_le_value_bound(bytes: Seq<u8>)
    ensures
        le_value(bytes) < pow256(bytes.len()),
    decreases bytes.len(),
{
    if bytes.len() > 0 {
        lemma_le_value_bound(bytes.subrange(1, bytes.len() as int));
    }
}

/// Reading bytes as a number and writing the number in as many bytes gives
/// the bytes back.
pub proof fn lemma_le_round_trip(bytes: Seq<u8>)
    ensures
        le_bytes(le_value(bytes), bytes.len()) == bytes,
    decreases bytes.len(),
{
    if bytes.len() > 0 {
        let rest = bytes.subrange(1, bytes.len() as int);
        lemma_le_round_trip(rest);
        let x = le_value(bytes);
        assert(x % 256 == bytes[0] as nat && x / 256 == le_value(rest)) by (nonlinear_arith)
            requires
                x == bytes[0] as nat + 256 * le_value(rest),
                bytes[0] < 256,
        ;
        assert(le_bytes(x, bytes.len()) =~= bytes);
    } else {
        assert(le_bytes(0, 0) =~= bytes);
    }
}

proof fn lemma_pow256_16()
    ensures
        pow256(16) == 0x1_0000_0000_0000_0000_0000_0000_0000_0000,
        forall|k: nat| k <= 15 ==> 256 * #[trigger] pow256(k) <= pow256(16),
{
    reveal_with_fuel(pow256, 18);
    assert(pow256(16) == 0x1_0000_0000_0000_0000_0000_0000_0000_0000);
    assert forall|k: nat| k <= 15 implies 256 * #[trigger] pow256(k) <= pow256(16) by {
        assert(pow256(0) == 1);
        assert(pow256(1) == 0x100);
        assert(pow256(2) == 0x1_0000);
        assert(pow256(3) == 0x100_0000);
        assert(pow256(4) == 0x1_0000_0000);
        assert(pow256(5) == 0x100_0000_0000);
        assert(pow256(6) == 0x1_0000_0000_0000);
        assert(pow256(7) == 0x100_0000_0000_0000);
        assert(pow256(8) == 0x1_0000_0000_0000_0000);
        assert(pow256(9) == 0x100_0000_0000_0000_0000);
        assert(pow256(10) == 0x1_0000_0000_0000_0000_0000);
        assert(pow256(11) == 0x100_0000_0000_0000_0000_0000);
        assert(pow256(12) == 0x1_0000_0000_0000_0000_0000_0000);
        assert(pow256(13) == 0x100_0000_0000_0000_0000_0000_0000);
        assert(pow256(14) == 0x1_0000_0000_0000_0000_0000_0000_0000);
        assert(pow256(15) == 0x100_0000_0000_0000_0000_0000_0000_0000);
    }
}

/// Sixteen bytes stand for a number that fits in 128 bits.
pub proof fn lemma_pow256_is_u128()
    ensures
        pow256(16) == 0x1_0000_0000_0000_0000_0000_0000_0000_0000,
{
    lemma_pow256_16();
}

/// Writing a number in enough bytes and reading the bytes gives the number
/// back.
pub proof fn lemma_le_value_of_bytes(x: nat, n: nat)
    requires
        x < pow256(n),
    ensures
        le_bytes(x, n).len() == n,
        le_value(le_bytes(x, n)) == x,
    decreases n,
{
    if n > 0 {
        let rest = le_bytes(x / 256, (n - 1) as nat);
        let all = le_bytes(x, n);
        assert(x / 256 < pow256((n - 1) as nat)) by (nonlinear_arith)
            requires
                x < 256 * pow256((n - 1) as nat),
        ;
        lemma_le_value_of_bytes(x / 256, (n - 1) as nat);
        assert(all.subrange(1, all.len() as int) =~= rest);
        assert(all[0] == (x % 256) as u8);
        assert(x % 256 + 256 * (x / 256) == x) by (nonlinear_arith);
    }
}

/// The powers of 256 that bound the numbers of 4, 8 and 16 bytes.
pub proof fn lemma_pow256_values()
    ensures
        pow256(1) == 0x100,
        pow256(4) == 0x1_0000_0000,
        pow256(8) == 0x1_0000_0000_0000_0000,
        pow256(16) == 0x1_0000_0000_0000_0000_0000_0000_0000_0000,
{
    reveal_with_fuel(pow256, 18);
    assert(pow256(4) == 0x1_0000_0000);
    assert(pow256(8) == 0x1_0000_0000_0000_0000);
    lemma_pow256_16();
}

/// Reads the `n` bytes from `from` on as a number, the least significant
/// byte first.
pub(crate) fn read_le(bytes: &Vec<u8>, from: usize, n: usize) -> (r: u128)
    requires
        n <= 16,
        from + n <= bytes@.len(),
    ensures
        r == le_value(bytes@.subrange(from as int, from + n)),
        r < pow256(n as nat),
{
    let len = bytes.len();
    let mut acc: u128 = 0;
    let mut i: usize = n;
    assert(bytes@.subrange(from + n, from + n) =~= Seq::<u8>::empty());
    while i > 0
        invariant
            i <= n,
            n <= 16,
            len == bytes@.len(),
            from + n <= len,
            acc == le_value(bytes@.subrange(from + i, from + n)),
        decreases i,
    {
        proof {
            let tail = bytes@.subrange(from + i, from + n);
            let next = bytes@.subrange(from + i - 1, from + n);
            assert(next.subrange(1, next.len() as int) =~= tail);
            lemma_le_value_bound(tail);
            lemma_pow256_16();
            assert(256 * pow256(tail.len()) <= pow256(16));
        }
        i -= 1;
        acc = acc * 256 + bytes[from + i] as u128;
    }
    proof {
        lemma_le_value_bound(bytes@.subrange(from as int, from + n));
    }
    acc
}

/// Reads the 16 bytes from `from` on as a number, the least significant
/// byte first.
pub(crate) fn read_le16(bytes: &Vec<u8>, from: usize) -> (r: u128)
    requires
        from + 16 <= bytes@.len(),
    ensures
        r == le_value(bytes@.subrange(from as int, from + 16)),
{
    read_le(bytes, from, 16)
}

} // verus!
