//! Little-endian and big-endian byte-level integer encodings used by the
//! two wire framings and by the record codec.

use vstd::prelude::*;

verus! {

/// Value of a big-endian 32-bit length field, as used by batch-list framing.
pub open spec fn be32_val(b0: u8, b1: u8, b2: u8, b3: u8) -> int {
    0x1000000 * b0 + 0x10000 * b1 + 0x100 * b2 + b3
}

/// Value of a little-endian 32-bit length field, as used by the streamed
/// meta/data-pair framing.
pub open spec fn le32_val(b0: u8, b1: u8, b2: u8, b3: u8) -> int {
    b0 + 0x100 * b1 + 0x10000 * b2 + 0x1000000 * b3
}

/// Little-endian radix-256 value of a whole byte sequence.
pub open spec fn le_val(s: Seq<u8>) -> int
    decreases s.len(),
{
    if s.len() == 0 {
        0
    } else {
        s[0] + 256 * le_val(s.subrange(1, s.len() as int))
    }
}

/// The `n` little-endian radix-256 digits of a value, least significant
/// first.
pub open spec fn le_bytes(x: int, n: nat) -> Seq<u8>
    decreases n,
{
    if n == 0 {
        Seq::empty()
    } else {
        seq![(x % 256) as u8] + le_bytes(x / 256, (n - 1) as nat)
    }
}

/// 256 to the power `n`.
pub open spec fn pow256(n: nat) -> int
    decreases n,
{
    if n == 0 {
        1
    } else {
        256 * pow256((n - 1) as nat)
    }
}

/// 256^16 spelled out: the bound of a 16-byte little-endian identifier.
pub proof fn lemma_pow256_16()
    ensures
        pow256(16) == 0x100000000000000000000000000000000,
{
    assert(pow256(0) == 1);
    assert(pow256(1) == 0x100);
    assert(pow256(2) == 0x10000);
    assert(pow256(3) == 0x1000000);
    assert(pow256(4) == 0x100000000);
    assert(pow256(5) == 0x10000000000);
    assert(pow256(6) == 0x1000000000000);
    assert(pow256(7) == 0x100000000000000);
    assert(pow256(8) == 0x10000000000000000);
    assert(pow256(9) == 0x1000000000000000000);
    assert(pow256(10) == 0x100000000000000000000);
    assert(pow256(11) == 0x10000000000000000000000);
    assert(pow256(12) == 0x1000000000000000000000000);
    assert(pow256(13) == 0x100000000000000000000000000);
    assert(pow256(14) == 0x10000000000000000000000000000);
    assert(pow256(15) == 0x1000000000000000000000000000000);
    assert(pow256(16) == 0x100000000000000000000000000000000);
}

pub proof fn lemma_pow256_positive(n: nat)
    ensures
        pow256(n) >= 1,
    decreases n,
{
    if n > 0 {
        lemma_pow256_positive((n - 1) as nat);
    }
}

/// `le_bytes` always yields exactly `n` digits.
pub proof fn lemma_le_bytes_len(x: int, n: nat)
    ensures
        le_bytes(x, n).len() == n,
    decreases n,
{
    if n > 0 {
        lemma_le_bytes_len(x / 256, (n - 1) as nat);
    }
}

/// A value below 256^n is recovered from its n little-endian digits.
pub proof fn lemma_le_bytes_val(x: int, n: nat)
    requires
        0 <= x < pow256(n),
    ensures
        le_val(le_bytes(x, n)) == x,
    decreases n,
{
    if n > 0 {
        let s = le_bytes(x, n);
        let rest = le_bytes(x / 256, (n - 1) as nat);
        assert(x / 256 < pow256((n - 1) as nat)) by (nonlinear_arith)
            requires
                0 <= x < 256 * pow256((n - 1) as nat),
        ;
        lemma_le_bytes_val(x / 256, (n - 1) as nat);
        lemma_le_bytes_len(x / 256, (n - 1) as nat);
        assert(s.subrange(1, s.len() as int) =~= rest);
        assert(le_val(s) == x % 256 + 256 * (x / 256));
    }
}

/// A byte sequence's little-endian value is bounded by 256^len.
pub proof fn lemma_le_val_bounds(s: Seq<u8>)
    ensures
        0 <= le_val(s) < pow256(s.len()),
    decreases s.len(),
{
    if s.len() > 0 {
        lemma_le_val_bounds(s.subrange(1, s.len() as int));
    }
}

/// Appends all bytes of a slice to a growing buffer.
pub fn push_all(out: &mut Vec<u8>, src: &[u8])
    ensures
        final(out)@ == old(out)@ + src@,
{
    let ghost base = out@;
    let mut i: usize = 0;
    while i < src.len()
        invariant
            i <= src@.len(),
            out@ =~= base + src@.subrange(0, i as int),
        decreases src@.len() - i,
    {
        out.push(src[i]);
        proof {
            assert(src@.subrange(0, i as int).push(src@[i as int]) =~= src@.subrange(
                0,
                i as int + 1,
            ));
        }
        i = i + 1;
    }
    proof {
        assert(src@.subrange(0, src@.len() as int) =~= src@);
        assert(out@ =~= base + src@);
    }
}

/// Whether two byte slices hold the same bytes.
pub fn slices_eq(a: &[u8], b: &[u8]) -> (r: bool)
    ensures
        r == (a@ == b@),
{
    if a.len() != b.len() {
        proof {
            assert(a@.len() != b@.len());
        }
        return false;
    }
    let mut i: usize = 0;
    while i < a.len()
        invariant
            a@.len() == b@.len(),
            i <= a@.len(),
            forall|k: int| 0 <= k < i ==> a@[k] == b@[k],
        decreases a@.len() - i,
    {
        if a[i] != b[i] {
            return false;
        }
        i = i + 1;
    }
    proof {
        assert(a@ =~= b@);
    }
    true
}

/// Reads a big-endian 32-bit length from four bytes.
pub fn read_be32(b0: u8, b1: u8, b2: u8, b3: u8) -> (r: u32)
    ensures
        r == be32_val(b0, b1, b2, b3),
{
    0x1000000 * (b0 as u32) + 0x10000 * (b1 as u32) + 0x100 * (b2 as u32) + (b3 as u32)
}

/// Reads a little-endian 32-bit length from four bytes.
pub fn read_le32(b0: u8, b1: u8, b2: u8, b3: u8) -> (r: u32)
    ensures
        r == le32_val(b0, b1, b2, b3),
{
    (b0 as u32) + 0x100 * (b1 as u32) + 0x10000 * (b2 as u32) + 0x1000000 * (b3 as u32)
}

/// The four big-endian bytes of a 32-bit length, most significant first.
pub open spec fn be32_bytes(n: int) -> Seq<u8> {
    seq![
        (n / 0x1000000 % 0x100) as u8,
        (n / 0x10000 % 0x100) as u8,
        (n / 0x100 % 0x100) as u8,
        (n % 0x100) as u8,
    ]
}

/// Reading back the four big-endian bytes of a 32-bit value yields the value.
pub proof fn lemma_be32_round_trip(n: int)
    requires
        0 <= n < 0x100000000,
    ensures
        be32_val(be32_bytes(n)[0], be32_bytes(n)[1], be32_bytes(n)[2], be32_bytes(n)[3]) == n,
{
    assert(0x1000000 * (n / 0x1000000 % 0x100) + 0x10000 * (n / 0x10000 % 0x100) + 0x100 * (n
        / 0x100 % 0x100) + n % 0x100 == n) by (nonlinear_arith)
        requires
            0 <= n < 0x100000000,
    ;
}

/// Writes a 32-bit length as four big-endian bytes.
pub fn write_be32(n: u32) -> (r: [u8; 4])
    ensures
        r@ =~= be32_bytes(n as int),
        be32_val(r[0], r[1], r[2], r[3]) == n,
{
    let b0 = (n / 0x1000000 % 0x100) as u8;
    let b1 = (n / 0x10000 % 0x100) as u8;
    let b2 = (n / 0x100 % 0x100) as u8;
    let b3 = (n % 0x100) as u8;
    proof {
        lemma_be32_round_trip(n as int);
    }
    [b0, b1, b2, b3]
}

/// The four little-endian bytes of a 32-bit length, least significant first.
pub open spec fn le32_bytes(n: int) -> Seq<u8> {
    seq![
        (n % 0x100) as u8,
        (n / 0x100 % 0x100) as u8,
        (n / 0x10000 % 0x100) as u8,
        (n / 0x1000000 % 0x100) as u8,
    ]
}

/// Reading back the four little-endian bytes of a 32-bit value yields the value.
pub proof fn lemma_le32_round_trip(n: int)
    requires
        0 <= n < 0x100000000,
    ensures
        le32_val(le32_bytes(n)[0], le32_bytes(n)[1], le32_bytes(n)[2], le32_bytes(n)[3]) == n,
{
    assert(n % 0x100 + 0x100 * (n / 0x100 % 0x100) + 0x10000 * (n / 0x10000 % 0x100) + 0x1000000
        * (n / 0x1000000 % 0x100) == n) by (nonlinear_arith)
        requires
            0 <= n < 0x100000000,
    ;
}

/// Writes a 32-bit length as four little-endian bytes.
pub fn write_le32(n: u32) -> (r: [u8; 4])
    ensures
        r@ =~= le32_bytes(n as int),
        le32_val(r[0], r[1], r[2], r[3]) == n,
{
    let b0 = (n % 0x100) as u8;
    let b1 = (n / 0x100 % 0x100) as u8;
    let b2 = (n / 0x10000 % 0x100) as u8;
    let b3 = (n / 0x1000000 % 0x100) as u8;
    proof {
        lemma_le32_round_trip(n as int);
    }
    [b0, b1, b2, b3]
}

/// Reads a 128-bit identifier from its 16 little-endian bytes.
pub fn read_u128_le(bytes: &[u8]) -> (r: u128)
    requires
        bytes@.len() == 16,
    ensures
        r as int == le_val(bytes@),
{
    proof {
        lemma_le_val_bounds(bytes@);
        lemma_pow256_16();
    }
    let mut acc: u128 = 0;
    let mut i: usize = 16;
    while i > 0
        invariant
            i <= 16,
            bytes@.len() == 16,
            acc as int == le_val(bytes@.subrange(i as int, 16)),
            le_val(bytes@.subrange(i as int, 16)) < pow256((16 - i) as nat),
        decreases i,
    {
        i = i - 1;
        let ghost prev = bytes@.subrange(i as int + 1, 16);
        let ghost cur = bytes@.subrange(i as int, 16);
        proof {
            assert(cur.subrange(1, cur.len() as int) =~= prev);
            lemma_le_val_bounds(cur);
            lemma_pow256_16();
            assert(le_val(cur) < pow256(16)) by {
                lemma_pow256_increases((16 - i) as nat, 16);
            }
        }
        acc = acc * 256 + (bytes[i] as u128);
    }
    proof {
        assert(bytes@.subrange(0, 16) =~= bytes@);
    }
    acc
}

/// 256^m <= 256^n when m <= n.
pub proof fn lemma_pow256_increases(m: nat, n: nat)
    requires
        m <= n,
    ensures
        pow256(m) <= pow256(n),
    decreases n,
{
    if m < n && n > 0 {
        lemma_pow256_increases(m, (n - 1) as nat);
        lemma_pow256_positive((n - 1) as nat);
    }
}

/// Writes a 128-bit identifier as its 16 little-endian bytes.
pub fn write_u128_le(x: u128) -> (r: Vec<u8>)
    ensures
        r@.len() == 16,
        r@ == le_bytes(x as int, 16),
        le_val(r@) == x as int,
{
    let mut out: Vec<u8> = Vec::new();
    let mut rem: u128 = x;
    let mut i: usize = 0;
    while i < 16
        invariant
            i <= 16,
            out@.len() == i,
            le_bytes(x as int, 16) == out@ + le_bytes(rem as int, (16 - i) as nat),
        decreases 16 - i,
    {
        let ghost old_out = out@;
        let ghost old_rem = rem as int;
        let b = (rem % 256) as u8;
        out.push(b);
        rem = rem / 256;
        proof {
            assert(le_bytes(old_rem, (16 - i) as nat) == seq![b] + le_bytes(
                old_rem / 256,
                (16 - i - 1) as nat,
            ));
            assert(old_out + le_bytes(old_rem, (16 - i) as nat) =~= out@ + le_bytes(
                rem as int,
                (16 - i - 1) as nat,
            ));
        }
        i = i + 1;
    }
    proof {
        assert(le_bytes(rem as int, 0) =~= Seq::<u8>::empty());
        assert(out@ =~= le_bytes(x as int, 16));
        lemma_pow256_16();
        lemma_le_bytes_val(x as int, 16);
    }
    out
}

} // verus!
