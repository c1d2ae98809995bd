use vstd::prelude::*;

verus! {

/// One shift of the CRC-16/CCITT register (polynomial 0x1021, no reflection).
pub open spec fn crc_shift(c: u16) -> u16 {
    if c & 0x8000u16 != 0 {
        (c << 1u16) ^ 0x1021u16
    } else {
        c << 1u16
    }
}

/// `n` successive register shifts.
pub open spec fn crc_shift_n(c: u16, n: nat) -> u16
    decreases n,
{
    if n == 0 {
        c
    } else {
        crc_shift(crc_shift_n(c, (n - 1) as nat))
    }
}

/// Feed one byte into the register.
pub open spec fn crc_update(c: u16, b: u8) -> u16 {
    crc_shift_n(c ^ ((b as u16) << 8u16), 8)
}

/// CRC-16/CCITT-FALSE of a byte sequence: initial value 0xFFFF, bytes fed first to last.
pub open spec fn crc16_of(data: Seq<u8>) -> u16
    decreases data.len(),
{
    if data.len() == 0 {
        0xFFFFu16
    } else {
        crc_update(crc16_of(data.drop_last()), data.last())
    }
}

proof fn lemma_shift_xor(x: u16, y: u16)
    ensures
        crc_shift(x ^ y) == crc_shift(x) ^ crc_shift(y),
{
    assert(crc_shift(x ^ y) == crc_shift(x) ^ crc_shift(y)) by (bit_vector);
}

proof fn lemma_shift_nonzero(x: u16)
    requires
        x != 0,
    ensures
        crc_shift(x) != 0,
{
    assert(x != 0 ==> crc_shift(x) != 0) by (bit_vector);
}

proof fn lemma_shift_n_xor(x: u16, y: u16, n: nat)
    ensures
        crc_shift_n(x ^ y, n) == crc_shift_n(x, n) ^ crc_shift_n(y, n),
    decreases n,
{
    if n > 0 {
        lemma_shift_n_xor(x, y, (n - 1) as nat);
        lemma_shift_xor(crc_shift_n(x, (n - 1) as nat), crc_shift_n(y, (n - 1) as nat));
    }
}

proof fn lemma_shift_n_nonzero(x: u16, n: nat)
    requires
        x != 0,
    ensures
        crc_shift_n(x, n) != 0,
    decreases n,
{
    if n > 0 {
        lemma_shift_n_nonzero(x, (n - 1) as nat);
        lemma_shift_nonzero(crc_shift_n(x, (n - 1) as nat));
    }
}

/// Feeding bytes into two registers differs from the registers' difference and
/// the bytes' difference alone.
proof fn lemma_update_xor(c1: u16, c2: u16, b1: u8, b2: u8)
    ensures
        crc_update(c1, b1) ^ crc_update(c2, b2) == crc_update(c1 ^ c2, b1 ^ b2),
{
    assert((c1 ^ ((b1 as u16) << 8u16)) ^ (c2 ^ ((b2 as u16) << 8u16)) == (c1 ^ c2) ^ (((b1
        ^ b2) as u16) << 8u16)) by (bit_vector);
    lemma_shift_n_xor(c1 ^ ((b1 as u16) << 8u16), c2 ^ ((b2 as u16) << 8u16), 8);
}

proof fn lemma_update_nonzero(c: u16, b: u8)
    requires
        (c == 0 && b != 0) || (c != 0 && b == 0),
    ensures
        crc_update(c, b) != 0,
{
    assert(((c == 0 && b != 0) || (c != 0 && b == 0)) ==> c ^ ((b as u16) << 8u16) != 0)
        by (bit_vector);
    lemma_shift_n_nonzero(c ^ ((b as u16) << 8u16), 8);
}

proof fn lemma_crc_prefix_differs(a: Seq<u8>, b: Seq<u8>, i: int, k: int)
    requires
        a.len() == b.len(),
        0 <= i < k <= a.len(),
        a.take(i) == b.take(i),
        a[i] != b[i],
        forall|j: int| i < j < a.len() ==> a[j] == b[j],
    ensures
        crc16_of(a.take(k)) != crc16_of(b.take(k)),
    decreases k,
{
    let ca = crc16_of(a.take(k - 1));
    let cb = crc16_of(b.take(k - 1));
    assert(a.take(k).drop_last() =~= a.take(k - 1));
    assert(b.take(k).drop_last() =~= b.take(k - 1));
    let x = a[k - 1];
    let y = b[k - 1];
    lemma_update_xor(ca, cb, x, y);
    if k - 1 == i {
        assert(a.take(i) == b.take(i));
        assert((x ^ y) != 0 && (ca ^ cb) == 0) by (bit_vector)
            requires
                x != y,
                ca == cb,
        ;
    } else {
        lemma_crc_prefix_differs(a, b, i, k - 1);
        assert((ca ^ cb) != 0 && (x ^ y) == 0) by (bit_vector)
            requires
                ca != cb,
                x == y,
        ;
    }
    lemma_update_nonzero(ca ^ cb, x ^ y);
    let ua = crc_update(ca, x);
    let ub = crc_update(cb, y);
    assert(ua != ub) by (bit_vector)
        requires
            ua ^ ub != 0,
    ;
}

/// Changing any one byte of the data changes its CRC-16.
pub proof fn lemma_crc16_detects_byte_change(data: Seq<u8>, i: int, v: u8)
    requires
        0 <= i < data.len(),
        v != data[i],
    ensures
        crc16_of(data.update(i, v)) != crc16_of(data),
{
    let changed = data.update(i, v);
    assert(changed.take(i) =~= data.take(i));
    lemma_crc_prefix_differs(changed, data, i, data.len() as int);
    assert(changed.take(data.len() as int) =~= changed);
    assert(data.take(data.len() as int) =~= data);
}

/// Byte-wise exclusive or of three sequences of one length.
pub open spec fn xor3(a: Seq<u8>, b: Seq<u8>, c: Seq<u8>) -> Seq<u8> {
    Seq::new(a.len(), |i: int| a[i] ^ b[i] ^ c[i])
}

/// For messages of one length the CRC-16 is affine over exclusive or: the CRC of
/// the byte-wise xor of three messages is the xor of their CRCs.
pub proof fn lemma_crc16_affine(a: Seq<u8>, b: Seq<u8>, c: Seq<u8>)
    requires
        a.len() == b.len(),
        b.len() == c.len(),
    ensures
        crc16_of(xor3(a, b, c)) == crc16_of(a) ^ crc16_of(b) ^ crc16_of(c),
    decreases a.len(),
{
    let x = xor3(a, b, c);
    if a.len() == 0 {
        let f: u16 = 0xFFFF;
        assert(f ^ f ^ f == f) by (bit_vector);
    } else {
        assert(x.drop_last() =~= xor3(a.drop_last(), b.drop_last(), c.drop_last()));
        lemma_crc16_affine(a.drop_last(), b.drop_last(), c.drop_last());
        let ca = crc16_of(a.drop_last());
        let cb = crc16_of(b.drop_last());
        let cc = crc16_of(c.drop_last());
        let ya = a.last();
        let yb = b.last();
        let yc = c.last();
        lemma_update_xor(ca, cb, ya, yb);
        lemma_update_xor(ca ^ cb, cc, ya ^ yb, yc);
        assert(x.last() == ya ^ yb ^ yc);
    }
}

proof fn lemma_shift_n_low_byte(lo: u16, k: nat)
    requires
        lo < 256,
        k <= 8,
    ensures
        crc_shift_n(lo, k) == lo << (k as u16),
    decreases k,
{
    if k == 0 {
        assert(lo << 0u16 == lo) by (bit_vector);
    } else {
        lemma_shift_n_low_byte(lo, (k - 1) as nat);
        let j = (k - 1) as u16;
        assert((lo << j) & 0x8000u16 == 0 && (lo << j) << 1u16 == lo << (j + 1)) by (bit_vector)
            requires
                lo < 256,
                j < 8,
        ;
    }
}

/// A message followed by its CRC-16, high byte first, has CRC-16 zero.
pub proof fn lemma_crc16_residue(data: Seq<u8>)
    ensures
        ({
            let c = crc16_of(data);
            crc16_of(data.push(#[verifier::truncate] ((c >> 8u16) as u8)).push(
                #[verifier::truncate] ((c & 0xFFu16) as u8),
            )) == 0
        }),
{
    let c = crc16_of(data);
    let hi = #[verifier::truncate] ((c >> 8u16) as u8);
    let lo = #[verifier::truncate] ((c & 0xFFu16) as u8);
    let s1 = data.push(hi);
    let s2 = s1.push(lo);
    assert(s2.drop_last() =~= s1);
    assert(s1.drop_last() =~= data);
    let low = c & 0xFFu16;
    assert(c ^ ((hi as u16) << 8u16) == low && low < 256 && (lo as u16) == low) by (bit_vector)
        requires
            hi == (c >> 8u16) as u8,
            lo == (c & 0xFFu16) as u8,
            low == c & 0xFFu16,
    ;
    lemma_shift_n_low_byte(low, 8);
    let y = crc_shift_n(low, 8);
    assert(y ^ ((lo as u16) << 8u16) == 0) by (bit_vector)
        requires
            y == low << 8u16,
            (lo as u16) == low,
    ;
    lemma_shift_n_low_byte(0, 8);
    assert(0u16 << 8u16 == 0) by (bit_vector);
    assert(crc16_of(s1) == crc_update(c, hi));
    assert(crc16_of(s1) == y);
    assert(crc16_of(s2) == crc_update(y, lo));
    assert(crc16_of(s2) == crc_shift_n(0, 8));
}

/// CRC-16/CCITT (polynomial 0x1021, init 0xFFFF, no bit reflection).
pub fn crc16(data: &[u8]) -> (crc: u16)
    ensures
        crc == crc16_of(data@),
{
    let mut crc: u16 = 0xFFFF;
    let mut i: usize = 0;
    while i < data.len()
        invariant
            i <= data.len(),
            crc == crc16_of(data@.take(i as int)),
        decreases data.len() - i,
    {
        let byte = data[i];
        crc = crc ^ ((byte as u16) << 8u16);
        let ghost start = crc;
        let mut k: usize = 0;
        while k < 8
            invariant
                k <= 8,
                crc == crc_shift_n(start, k as nat),
            decreases 8 - k,
        {
            crc = if crc & 0x8000u16 != 0 {
                (crc << 1u16) ^ 0x1021u16
            } else {
                crc << 1u16
            };
            k = k + 1;
        }
        proof {
            assert(data@.take(i + 1).drop_last() =~= data@.take(i as int));
        }
        i = i + 1;
    }
    proof {
        assert(data@.take(data.len() as int) =~= data@);
    }
    crc
}

} // verus!
