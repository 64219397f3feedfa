//! Integers and samples as bytes on the wire.

use vstd::prelude::*;

verus! {

/// The low `n` bytes of `x`, most significant first.
pub open spec fn be_bytes(x: nat, n: nat) -> Seq<u8>
    decreases n,
{
    if n == 0 {
        Seq::empty()
    } else {
        be_bytes(x / 256, (n - 1) as nat).push((x % 256) as u8)
    }
}

/// The number that `b` spells, most significant byte first.
pub open spec fn be_value(b: Seq<u8>) -> nat
    decreases b.len(),
{
    if b.len() == 0 {
        0
    } else {
        be_value(b.drop_last()) * 256 + b.last() as nat
    }
}

/// 256 to the power of `n`.
pub open spec fn pow256(n: nat) -> nat
    decreases n,
{
    if n == 0 {
        1
    } else {
        256 * pow256((n - 1) as nat)
    }
}

/// `be_bytes` always yields as many bytes as asked for.
pub proof fn lemma_be_bytes_len(x: nat, n: nat)
    ensures
        be_bytes(x, n).len() == n,
    decreases n,
{
    if n > 0 {
        lemma_be_bytes_len(x / 256, (n - 1) as nat);
    }
}

/// Reading back what was written gives the number, as long as it fits.
pub proof fn lemma_be_value_of_bytes(x: nat, n: nat)
    requires
        x < pow256(n),
    ensures
        be_value(be_bytes(x, n)) == x,
    decreases n,
{
    if n > 0 {
        let head = be_bytes(x / 256, (n - 1) as nat);
        lemma_be_value_of_bytes(x / 256, (n - 1) as nat);
        assert(be_bytes(x, n).drop_last() =~= head);
    }
}

/// Writing back what was read gives the bytes.
pub proof fn lemma_be_bytes_of_value(b: Seq<u8>)
    ensures
        be_bytes(be_value(b), b.len()) == b,
        be_value(b) < pow256(b.len()),
    decreases b.len(),
{
    if b.len() > 0 {
        lemma_be_bytes_of_value(b.drop_last());
        let v = be_value(b.drop_last());
        assert((v * 256 + b.last() as nat) / 256 == v);
        assert(b.drop_last().push(b.last()) =~= b);
    } else {
        assert(b =~= Seq::empty());
    }
}

/// The widths that the wire uses.
pub proof fn lemma_pow256_widths()
    ensures
        pow256(1) == 0x100,
        pow256(2) == 0x1_0000,
        pow256(4) == 0x1_0000_0000,
        pow256(8) == 0x1_0000_0000_0000_0000,
{
    reveal_with_fuel(pow256, 9);
}

/// Appends `x` to `out`, most significant byte first.
pub fn push_be16(out: &mut Vec<u8>, x: u16)
    ensures
        final(out)@ == old(out)@ + be_bytes(x as nat, 2),
{
    let ghost before = out@;
    out.push((x / 0x100) as u8);
    out.push((x % 0x100) as u8);
    proof {
        reveal_with_fuel(be_bytes, 3);
        assert(out@ =~= before + be_bytes(x as nat, 2));
    }
}

/// Appends `x` to `out`, most significant byte first.
pub fn push_be32(out: &mut Vec<u8>, x: u32)
    ensures
        final(out)@ == old(out)@ + be_bytes(x as nat, 4),
{
    let ghost before = out@;
    push_be16(out, (x / 0x1_0000) as u16);
    push_be16(out, (x % 0x1_0000) as u16);
    proof {
        lemma_be_bytes_quarters(x);
        assert(out@ =~= before + be_bytes(x as nat, 4));
    }
}

/// The number that two runs of bytes spell together.
proof fn lemma_be_value_of_both(a: Seq<u8>, b: Seq<u8>)
    ensures
        be_value(a + b) == be_value(a) * pow256(b.len()) + be_value(b),
    decreases b.len(),
{
    if b.len() == 0 {
        assert(a + b =~= a);
        assert(be_value(a) * 1 == be_value(a));
    } else {
        let front = b.drop_last();
        lemma_be_value_of_both(a, front);
        assert((a + b).drop_last() =~= a + front);
        let v = be_value(a);
        let p = pow256(front.len());
        assert((v * p) * 256 == v * (256 * p)) by (nonlinear_arith);
    }
}

proof fn lemma_be_bytes_quarters(x: u32)
    ensures
        be_bytes(x as nat, 4) == be_bytes((x / 0x1_0000) as nat, 2) + be_bytes(
            (x % 0x1_0000) as nat,
            2,
        ),
{
    let hi: nat = (x / 0x1_0000) as nat;
    let lo: nat = (x % 0x1_0000) as nat;
    let a = be_bytes(hi, 2);
    let b = be_bytes(lo, 2);
    lemma_pow256_widths();
    lemma_be_bytes_len(hi, 2);
    lemma_be_bytes_len(lo, 2);
    lemma_be_value_of_bytes(hi, 2);
    lemma_be_value_of_bytes(lo, 2);
    lemma_be_value_of_both(a, b);
    assert(be_value(a + b) == x);
    lemma_be_bytes_of_value(a + b);
}

proof fn lemma_be_bytes_halves(x: u64)
    ensures
        be_bytes(x as nat, 8) == be_bytes((x / 0x1_0000_0000) as nat, 4) + be_bytes(
            (x % 0x1_0000_0000) as nat,
            4,
        ),
{
    let hi: nat = (x / 0x1_0000_0000) as nat;
    let lo: nat = (x % 0x1_0000_0000) as nat;
    let a = be_bytes(hi, 4);
    let b = be_bytes(lo, 4);
    lemma_pow256_widths();
    lemma_be_bytes_len(hi, 4);
    lemma_be_bytes_len(lo, 4);
    lemma_be_value_of_bytes(hi, 4);
    lemma_be_value_of_bytes(lo, 4);
    lemma_be_value_of_both(a, b);
    assert(be_value(a + b) == x);
    lemma_be_bytes_of_value(a + b);
}

/// Appends `x` to `out`, most significant byte first.
pub fn push_be64(out: &mut Vec<u8>, x: u64)
    ensures
        final(out)@ == old(out)@ + be_bytes(x as nat, 8),
{
    let ghost before = out@;
    push_be32(out, (x / 0x1_0000_0000) as u32);
    push_be32(out, (x % 0x1_0000_0000) as u32);
    proof {
        lemma_be_bytes_halves(x);
        assert(out@ =~= before + be_bytes(x as nat, 8));
    }
}

/// The 16-bit number that the two bytes of `b` spell.
pub fn read_be16(b: &[u8]) -> (x: u16)
    requires
        b@.len() == 2,
    ensures
        x as nat == be_value(b@),
{
    proof {
        reveal_with_fuel(be_value, 3);
        assert(b@.drop_last().drop_last().len() == 0);
    }
    (b[0] as u16) * 0x100 + b[1] as u16
}

/// The 32-bit number that the four bytes of `b` spell.
pub fn read_be32(b: &[u8]) -> (x: u32)
    requires
        b@.len() == 4,
    ensures
        x as nat == be_value(b@),
{
    proof {
        reveal_with_fuel(be_value, 5);
        assert(b@.drop_last().drop_last().drop_last().drop_last().len() == 0);
    }
    (b[0] as u32) * 0x100_0000 + (b[1] as u32) * 0x1_0000 + (b[2] as u32) * 0x100 + b[3] as u32
}

/// The 64-bit number that the eight bytes of `b` spell.
pub fn read_be64(b: &[u8]) -> (x: u64)
    requires
        b@.len() == 8,
    ensures
        x as nat == be_value(b@),
{
    let mut x: u64 = 0;
    let mut i: usize = 0;
    proof {
        lemma_pow256_widths();
    }
    while i < 8
        invariant
            i <= 8,
            b@.len() == 8,
            x as nat == be_value(b@.take(i as int)),
        decreases 8 - i,
    {
        proof {
            let part = b@.take(i + 1);
            assert(part.drop_last() =~= b@.take(i as int));
            lemma_be_bytes_of_value(part);
            lemma_pow256_grows((i + 1) as nat, 8);
            lemma_pow256_widths();
        }
        x = x * 0x100 + b[i] as u64;
        i = i + 1;
    }
    assert(b@.take(8) =~= b@);
    x
}

proof fn lemma_pow256_grows(a: nat, b: nat)
    requires
        a <= b,
    ensures
        pow256(a) <= pow256(b),
    decreases b - a,
{
    if a < b {
        lemma_pow256_grows(a, (b - 1) as nat);
    }
}

/// A sample as an unsigned 16-bit pattern (two's complement).
pub open spec fn sample_pattern(s: i16) -> int {
    if s < 0 {
        s + 0x1_0000
    } else {
        s as int
    }
}

/// A sample on the wire: low byte, then high byte.
pub open spec fn sample_bytes(s: i16) -> Seq<u8> {
    seq![(sample_pattern(s) % 256) as u8, (sample_pattern(s) / 256) as u8]
}

/// The sample that a low and a high byte spell.
pub open spec fn sample_value(lo: u8, hi: u8) -> i16 {
    let pattern = hi * 256 + lo;
    if pattern >= 0x8000 {
        (pattern - 0x1_0000) as i16
    } else {
        pattern as i16
    }
}

/// Consecutive samples on the wire.
pub open spec fn samples_bytes(samples: Seq<i16>) -> Seq<u8> {
    Seq::new(
        2 * samples.len(),
        |k: int| sample_bytes(samples[k / 2])[k % 2],
    )
}

/// The samples that consecutive byte pairs spell; an odd last byte is left out.
pub open spec fn samples_of(payload: Seq<u8>) -> Seq<i16> {
    Seq::new(payload.len() / 2, |k: int| sample_value(payload[2 * k], payload[2 * k + 1]))
}

/// Reading a sample back from its two bytes gives the sample.
pub proof fn lemma_sample_value_of_bytes(s: i16)
    ensures
        sample_value(sample_bytes(s)[0], sample_bytes(s)[1]) == s,
{
}

/// Reading samples back from their bytes gives the samples.
pub proof fn lemma_samples_round_trip(samples: Seq<i16>)
    ensures
        samples_of(samples_bytes(samples)) == samples,
{
    let b = samples_bytes(samples);
    assert forall|k: int| 0 <= k < samples.len() implies samples_of(b)[k] == samples[k] by {
        lemma_sample_value_of_bytes(samples[k]);
        assert((2 * k) / 2 == k && (2 * k + 1) / 2 == k);
        assert(b[2 * k] == sample_bytes(samples[k])[0]);
        assert(b[2 * k + 1] == sample_bytes(samples[k])[1]);
    }
    assert(samples_of(b) =~= samples);
}

/// Appends one sample to `out`, low byte first.
pub fn push_sample(out: &mut Vec<u8>, s: i16)
    ensures
        final(out)@ == old(out)@ + sample_bytes(s),
{
    let ghost before = out@;
    let pattern: u16 = if s < 0 {
        (s as i32 + 0x1_0000) as u16
    } else {
        s as u16
    };
    out.push((pattern % 0x100) as u8);
    out.push((pattern / 0x100) as u8);
    assert(out@ =~= before + sample_bytes(s));
}

/// The sample that a low and a high byte spell.
pub fn read_sample(lo: u8, hi: u8) -> (s: i16)
    ensures
        s == sample_value(lo, hi),
{
    let pattern: i32 = (hi as i32) * 0x100 + lo as i32;
    if pattern >= 0x8000 {
        (pattern - 0x1_0000) as i16
    } else {
        pattern as i16
    }
}

} // verus!
