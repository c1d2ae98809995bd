use vstd::prelude::*;
use vstd::arithmetic::power2::{lemma2_to64, pow2};

verus! {

/// Weight of bit `j` of a byte, where bit 0 is the most significant one.
pub open spec fn bit_weight(j: int) -> int {
    if j == 0 {
        128
    } else if j == 1 {
        64
    } else if j == 2 {
        32
    } else if j == 3 {
        16
    } else if j == 4 {
        8
    } else if j == 5 {
        4
    } else if j == 6 {
        2
    } else if j == 7 {
        1
    } else {
        0
    }
}

/// Value of a run of up to eight bits read most significant first;
/// bits that the run lacks at the low end count as zero.
pub open spec fn pack_bits(c: Seq<bool>) -> int
    decreases c.len(),
{
    if c.len() == 0 {
        0
    } else {
        pack_bits(c.drop_last()) + if c.last() {
            bit_weight(c.len() - 1)
        } else {
            0
        }
    }
}

/// The `i`-th run of eight bits; the last run may be shorter.
pub open spec fn chunk(bits: Seq<bool>, i: int) -> Seq<bool> {
    bits.subrange(8 * i, if 8 * i + 8 <= bits.len() { 8 * i + 8 } else { bits.len() as int })
}

/// Bits packed into bytes, eight per byte, most significant bit first.
/// A trailing run of fewer than eight bits fills the high end of a last byte.
pub open spec fn pack_bytes(bits: Seq<bool>) -> Seq<u8> {
    Seq::new(((bits.len() + 7) / 8) as nat, |i: int| pack_bits(chunk(bits, i)) as u8)
}

/// Bit `j` of byte `b`, counting from the most significant bit.
pub open spec fn byte_bit(b: u8, j: int) -> bool {
    (b >> ((7 - j) as u8)) & 1u8 == 1u8
}

/// The eight bits of a byte, most significant first.
pub open spec fn byte_bits(b: u8) -> Seq<bool> {
    Seq::new(8, |j: int| byte_bit(b, j))
}

/// Bytes expanded into bits, eight per byte, most significant bit first.
pub open spec fn unpack_bytes(bytes: Seq<u8>) -> Seq<bool> {
    Seq::new((8 * bytes.len()) as nat, |k: int| byte_bit(bytes[k / 8], k % 8))
}

proof fn lemma_div8(a: int, k: int)
    requires
        0 <= k < 8,
    ensures
        (8 * a + k) / 8 == a,
        (8 * a + k) % 8 == k,
{
    vstd::arithmetic::div_mod::lemma_fundamental_div_mod_converse(8 * a + k, 8, a, k);
}

proof fn lemma_pack_bits_bound(c: Seq<bool>)
    requires
        c.len() <= 8,
    ensures
        0 <= pack_bits(c) <= 255,
        c.len() < 8 ==> pack_bits(c) + 2 * bit_weight(c.len() as int) <= 256,
    decreases c.len(),
{
    if c.len() > 0 {
        lemma_pack_bits_bound(c.drop_last());
    }
}

/// A run of at most eight bits packs into a byte value.
pub proof fn lemma_pack_bits_le_255(c: Seq<bool>)
    requires
        c.len() <= 8,
    ensures
        0 <= pack_bits(c) <= 255,
{
    lemma_pack_bits_bound(c);
}

/// Packing the eight bits of a byte gives the byte back.
pub proof fn lemma_pack_byte_bits(b: u8)
    ensures
        pack_bits(byte_bits(b)) == b as int,
{
    let s = byte_bits(b);
    reveal_with_fuel(pack_bits, 9);
    assert(s.drop_last().drop_last().drop_last().drop_last().drop_last().drop_last().drop_last().drop_last()
        =~= Seq::<bool>::empty());
    assert(b as u16 == (if (b >> 7u8) & 1u8 == 1u8 { 128u16 } else { 0u16 }) + (if (b >> 6u8) & 1u8
        == 1u8 { 64u16 } else { 0u16 }) + (if (b >> 5u8) & 1u8 == 1u8 { 32u16 } else { 0u16 }) + (
    if (b >> 4u8) & 1u8 == 1u8 { 16u16 } else { 0u16 }) + (if (b >> 3u8) & 1u8 == 1u8 { 8u16 } else {
        0u16
    }) + (if (b >> 2u8) & 1u8 == 1u8 { 4u16 } else { 0u16 }) + (if (b >> 1u8) & 1u8 == 1u8 {
        2u16
    } else { 0u16 }) + (if (b >> 0u8) & 1u8 == 1u8 { 1u16 } else { 0u16 })) by (bit_vector);
}

/// A run of bits taken at whole bytes of an expansion is the expansion of those bytes.
pub proof fn lemma_unpack_subrange(bytes: Seq<u8>, a: int, b: int)
    requires
        0 <= a <= b <= bytes.len(),
    ensures
        unpack_bytes(bytes).subrange(8 * a, 8 * b) == unpack_bytes(bytes.subrange(a, b)),
{
    let l = unpack_bytes(bytes).subrange(8 * a, 8 * b);
    let r = unpack_bytes(bytes.subrange(a, b));
    assert forall|k: int| 0 <= k < l.len() implies l[k] == r[k] by {
        let q = k / 8;
        let m = k % 8;
        vstd::arithmetic::div_mod::lemma_fundamental_div_mod(k, 8);
        lemma_div8(a + q, m);
        lemma_div8(q, m);
        assert(8 * a + k == 8 * (a + q) + m);
    }
    assert(l =~= r);
}

/// Expanding bytes into bits and packing them again gives the bytes back.
pub proof fn lemma_pack_unpack(bytes: Seq<u8>)
    ensures
        pack_bytes(unpack_bytes(bytes)) == bytes,
{
    let bits = unpack_bytes(bytes);
    let p = pack_bytes(bits);
    lemma_div8(bytes.len() as int, 7);
    assert forall|i: int| 0 <= i < bytes.len() implies p[i] == bytes[i] by {
        let c = chunk(bits, i);
        assert forall|j: int| 0 <= j < 8 implies c[j] == byte_bits(bytes[i])[j] by {
            lemma_div8(i, j);
        }
        assert(c =~= byte_bits(bytes[i]));
        lemma_pack_byte_bits(bytes[i]);
    }
    assert(p =~= bytes);
}

proof fn lemma_bits_of_sum(
    c0: bool,
    c1: bool,
    c2: bool,
    c3: bool,
    c4: bool,
    c5: bool,
    c6: bool,
    c7: bool,
    x: u8,
)
    by (bit_vector)
    requires
        x as u16 == (if c0 { 128u16 } else { 0u16 }) + (if c1 { 64u16 } else { 0u16 }) + (if c2 {
            32u16
        } else { 0u16 }) + (if c3 { 16u16 } else { 0u16 }) + (if c4 { 8u16 } else { 0u16 }) + (if c5 {
            4u16
        } else { 0u16 }) + (if c6 { 2u16 } else { 0u16 }) + (if c7 { 1u16 } else { 0u16 }),
    ensures
        ((x >> 7u8) & 1u8 == 1u8) == c0,
        ((x >> 6u8) & 1u8 == 1u8) == c1,
        ((x >> 5u8) & 1u8 == 1u8) == c2,
        ((x >> 4u8) & 1u8 == 1u8) == c3,
        ((x >> 3u8) & 1u8 == 1u8) == c4,
        ((x >> 2u8) & 1u8 == 1u8) == c5,
        ((x >> 1u8) & 1u8 == 1u8) == c6,
        ((x >> 0u8) & 1u8 == 1u8) == c7,
{
}

/// Expanding the byte that eight bits pack into gives the eight bits back.
pub proof fn lemma_byte_bits_pack(c: Seq<bool>)
    requires
        c.len() == 8,
    ensures
        byte_bits(pack_bits(c) as u8) == c,
{
    reveal_with_fuel(pack_bits, 9);
    lemma_pack_bits_bound(c);
    assert(c.drop_last().drop_last().drop_last().drop_last().drop_last().drop_last().drop_last().drop_last()
        =~= Seq::<bool>::empty());
    let x = pack_bits(c) as u8;
    lemma_bits_of_sum(c[0], c[1], c[2], c[3], c[4], c[5], c[6], c[7], x);
    assert(byte_bits(x) =~= c);
}

/// Packing a whole number of bytes' worth of bits and expanding the bytes again
/// gives the bits back.
pub proof fn lemma_unpack_pack(bits: Seq<bool>)
    requires
        bits.len() % 8 == 0,
    ensures
        unpack_bytes(pack_bytes(bits)) == bits,
{
    let m = bits.len() as int / 8;
    let p = pack_bytes(bits);
    let u = unpack_bytes(p);
    vstd::arithmetic::div_mod::lemma_fundamental_div_mod(bits.len() as int, 8);
    lemma_div8(m, 7);
    assert(p.len() == m);
    assert forall|k: int| 0 <= k < bits.len() implies u[k] == bits[k] by {
        let q = k / 8;
        let r = k % 8;
        vstd::arithmetic::div_mod::lemma_fundamental_div_mod(k, 8);
        assert(q < m);
        let c = chunk(bits, q);
        assert(c.len() == 8);
        lemma_byte_bits_pack(c);
        assert(byte_bits(p[q])[r] == c[r]);
    }
    assert(u =~= bits);
}

/// Packing distributes over concatenation at a byte boundary.
pub proof fn lemma_pack_concat(a: Seq<bool>, b: Seq<bool>)
    requires
        a.len() % 8 == 0,
    ensures
        pack_bytes(a + b) == pack_bytes(a) + pack_bytes(b),
{
    let m = a.len() as int / 8;
    let ab = a + b;
    vstd::arithmetic::div_mod::lemma_fundamental_div_mod(a.len() as int, 8);
    lemma_div8(m, 7);
    vstd::arithmetic::div_mod::lemma_fundamental_div_mod(b.len() as int + 7, 8);
    vstd::arithmetic::div_mod::lemma_fundamental_div_mod(ab.len() as int + 7, 8);
    assert(pack_bytes(a).len() == m);
    assert((ab.len() + 7) / 8 == m + (b.len() + 7) / 8);
    let l = pack_bytes(ab);
    let r = pack_bytes(a) + pack_bytes(b);
    assert forall|i: int| 0 <= i < l.len() implies l[i] == r[i] by {
        if i < m {
            assert(chunk(ab, i) =~= chunk(a, i));
        } else {
            assert(chunk(ab, i) =~= chunk(b, i - m));
        }
    }
    assert(l =~= r);
}

/// The binary digit of `b` worth `2^e`.
pub open spec fn binary_digit(b: int, e: nat) -> bool {
    (b / (pow2(e) as int)) % 2 == 1
}

/// Bit `k` of a bit sequence as the number 0 or 1; zero past its end.
pub open spec fn bit_value(bits: Seq<bool>, k: int) -> int {
    if 0 <= k < bits.len() && bits[k] {
        1
    } else {
        0
    }
}

/// The number that the eight bits from `start` on make, most significant first;
/// bits past the end of the sequence count as zero.
pub open spec fn msb_byte_value(bits: Seq<bool>, start: int) -> int {
    128 * bit_value(bits, start) + 64 * bit_value(bits, start + 1) + 32 * bit_value(bits, start + 2)
        + 16 * bit_value(bits, start + 3) + 8 * bit_value(bits, start + 4) + 4 * bit_value(
        bits,
        start + 5,
    ) + 2 * bit_value(bits, start + 6) + bit_value(bits, start + 7)
}

/// Bit `j` (from the most significant) of a byte is its binary digit worth `2^(7-j)`.
pub proof fn lemma_byte_bit_is_digit(b: u8, j: int)
    requires
        0 <= j < 8,
    ensures
        byte_bit(b, j) == binary_digit(b as int, (7 - j) as nat),
{
    lemma2_to64();
    assert(((b >> 7u8) & 1u8 == 1u8) == ((b / 128) % 2 == 1) && ((b >> 6u8) & 1u8 == 1u8) == ((b
        / 64) % 2 == 1) && ((b >> 5u8) & 1u8 == 1u8) == ((b / 32) % 2 == 1) && ((b >> 4u8) & 1u8
        == 1u8) == ((b / 16) % 2 == 1) && ((b >> 3u8) & 1u8 == 1u8) == ((b / 8) % 2 == 1) && ((b
        >> 2u8) & 1u8 == 1u8) == ((b / 4) % 2 == 1) && ((b >> 1u8) & 1u8 == 1u8) == ((b / 2) % 2
        == 1) && ((b >> 0u8) & 1u8 == 1u8) == ((b / 1) % 2 == 1)) by (bit_vector);
    if j == 0 {
    } else if j == 1 {
    } else if j == 2 {
    } else if j == 3 {
    } else if j == 4 {
    } else if j == 5 {
    } else if j == 6 {
    } else {
    }
}

/// Expanding bytes gives eight bits per byte, and bit `k` is the binary digit of
/// byte `k / 8` worth `2^(7 - k % 8)`: most significant bit first.
pub proof fn lemma_unpack_digits(bytes: Seq<u8>, k: int)
    requires
        0 <= k < 8 * bytes.len(),
    ensures
        unpack_bytes(bytes).len() == 8 * bytes.len(),
        unpack_bytes(bytes)[k] == binary_digit(bytes[k / 8] as int, (7 - k % 8) as nat),
{
    vstd::arithmetic::div_mod::lemma_fundamental_div_mod(k, 8);
    lemma_byte_bit_is_digit(bytes[k / 8], k % 8);
}

proof fn lemma_pack_bits_explicit(c: Seq<bool>)
    requires
        c.len() <= 8,
    ensures
        pack_bits(c) == msb_byte_value(c, 0),
    decreases c.len(),
{
    if c.len() > 0 {
        let d = c.drop_last();
        lemma_pack_bits_explicit(d);
        assert forall|j: int| 0 <= j < c.len() - 1 implies bit_value(c, j) == bit_value(d, j) by {
        }
    }
}

/// Packing gives one byte per run of eight bits (the last run may be shorter), and
/// byte `i` is the number that bits `8i` to `8i + 7` make, most significant first,
/// with bits past the end counting as zero.
pub proof fn lemma_pack_value(bits: Seq<bool>, i: int)
    requires
        0 <= i,
        8 * i < bits.len(),
    ensures
        pack_bytes(bits).len() == (bits.len() + 7) / 8,
        i < pack_bytes(bits).len(),
        pack_bytes(bits)[i] as int == msb_byte_value(bits, 8 * i),
{
    let c = chunk(bits, i);
    vstd::arithmetic::div_mod::lemma_fundamental_div_mod(bits.len() as int + 7, 8);
    lemma_pack_bits_explicit(c);
    lemma_pack_bits_bound(c);
    assert forall|j: int| 0 <= j < 8 implies #[trigger] bit_value(c, j) == bit_value(bits, 8 * i + j)
        by {}
    assert(bit_value(c, 0) == bit_value(bits, 8 * i + 0));
    assert(bit_value(c, 1) == bit_value(bits, 8 * i + 1));
    assert(bit_value(c, 2) == bit_value(bits, 8 * i + 2));
    assert(bit_value(c, 3) == bit_value(bits, 8 * i + 3));
    assert(bit_value(c, 4) == bit_value(bits, 8 * i + 4));
    assert(bit_value(c, 5) == bit_value(bits, 8 * i + 5));
    assert(bit_value(c, 6) == bit_value(bits, 8 * i + 6));
    assert(bit_value(c, 7) == bit_value(bits, 8 * i + 7));
}

fn bit_weight_exec(j: usize) -> (w: u8)
    requires
        j < 8,
    ensures
        w as int == bit_weight(j as int),
        w >= 1,
{
    let w = 1u8 << ((7 - j) as u8);
    assert(1u8 << 7u8 == 128u8 && 1u8 << 6u8 == 64u8 && 1u8 << 5u8 == 32u8 && 1u8 << 4u8 == 16u8
        && 1u8 << 3u8 == 8u8 && 1u8 << 2u8 == 4u8 && 1u8 << 1u8 == 2u8 && 1u8 << 0u8 == 1u8)
        by (bit_vector);
    w
}

/// Pack bits into bytes, eight per byte, most significant bit first.
/// A trailing run of fewer than eight bits fills the high end of a last byte.
pub fn bits_to_bytes(bits: &[bool]) -> (bytes: Vec<u8>)
    ensures
        bytes@ == pack_bytes(bits@),
        bytes@.len() == (bits@.len() + 7) / 8,
        forall|i: int|
            0 <= i < bytes@.len() ==> #[trigger] bytes@[i] as int == msb_byte_value(bits@, 8 * i),
{
    let n = bits.len();
    let mut out: Vec<u8> = Vec::new();
    let mut start: usize = 0;
    while start < n
        invariant
            n == bits@.len(),
            start <= n,
            out@.len() == (start + 7) / 8,
            start < n ==> start == 8 * out@.len(),
            forall|i: int| 0 <= i < out@.len() ==> out@[i] == pack_bits(chunk(bits@, i)) as u8,
        decreases n - start,
    {
        let rem = n - start;
        let len: usize = if rem < 8 { rem } else { 8 };
        let mut acc: u8 = 0;
        let mut j: usize = 0;
        while j < len
            invariant
                j <= len <= 8,
                start + len <= n,
                n == bits@.len(),
                acc as int == pack_bits(bits@.subrange(start as int, start + j)),
            decreases len - j,
        {
            proof {
                lemma_pack_bits_bound(bits@.subrange(start as int, start + j));
            }
            if bits[start + j] {
                let w = bit_weight_exec(j);
                acc = acc + w;
            }
            proof {
                assert(bits@.subrange(start as int, start + j + 1).drop_last() =~= bits@.subrange(
                    start as int,
                    start + j,
                ));
            }
            j = j + 1;
        }
        proof {
            let i = out@.len() as int;
            assert(chunk(bits@, i) =~= bits@.subrange(start as int, start + len));
            lemma_pack_bits_bound(bits@.subrange(start as int, start + len));
        }
        out.push(acc);
        start = start + len;
    }
    proof {
        assert(out@ =~= pack_bytes(bits@));
        assert forall|i: int| 0 <= i < out@.len() implies #[trigger] out@[i] as int
            == msb_byte_value(bits@, 8 * i) by {
            vstd::arithmetic::div_mod::lemma_fundamental_div_mod(bits@.len() as int + 7, 8);
            lemma_pack_value(bits@, i);
        }
    }
    out
}

/// Expand bytes into bits, eight per byte, most significant bit first.
pub fn bytes_to_bits(bytes: &[u8]) -> (bits: Vec<bool>)
    ensures
        bits@ == unpack_bytes(bytes@),
        bits@.len() == 8 * bytes@.len(),
        forall|k: int|
            0 <= k < bits@.len() ==> #[trigger] bits@[k] == binary_digit(
                bytes@[k / 8] as int,
                (7 - k % 8) as nat,
            ),
{
    let mut out: Vec<bool> = Vec::new();
    let mut i: usize = 0;
    while i < bytes.len()
        invariant
            i <= bytes@.len(),
            out@.len() == 8 * i,
            forall|k: int| 0 <= k < out@.len() ==> out@[k] == byte_bit(bytes@[k / 8], k % 8),
        decreases bytes@.len() - i,
    {
        let byte = bytes[i];
        let mut j: u8 = 0;
        while j < 8
            invariant
                j <= 8,
                i < bytes@.len(),
                byte == bytes@[i as int],
                out@.len() == 8 * i + j,
                forall|k: int| 0 <= k < out@.len() ==> out@[k] == byte_bit(bytes@[k / 8], k % 8),
            decreases 8 - j,
        {
            out.push((byte >> (7 - j)) & 1 == 1);
            proof {
                lemma_div8(i as int, j as int);
            }
            j = j + 1;
        }
        i = i + 1;
    }
    proof {
        assert(out@ =~= unpack_bytes(bytes@));
        assert forall|k: int| 0 <= k < out@.len() implies #[trigger] out@[k] == binary_digit(
            bytes@[k / 8] as int,
            (7 - k % 8) as nat,
        ) by {
            lemma_unpack_digits(bytes@, k);
        }
    }
    out
}

} // verus!
