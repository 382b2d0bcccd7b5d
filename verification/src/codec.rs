use vstd::prelude::*;

verus! {

/// Little-endian value of two bytes.
pub open spec fn le_u16(b0: u8, b1: u8) -> u16 {
    ((b0 as u16) | ((b1 as u16) << 8u16)) as u16
}

/// Little-endian value of four bytes.
pub open spec fn le_u32(b0: u8, b1: u8, b2: u8, b3: u8) -> u32 {
    ((b0 as u32) | ((b1 as u32) << 8u32) | ((b2 as u32) << 16u32) | ((b3 as u32) << 24u32)) as u32
}

/// Little-endian value of the first eight bytes of `b`.
pub open spec fn le_u64(b: Seq<u8>) -> u64
    recommends
        b.len() >= 8,
{
    le_u64_parts(b[0], b[1], b[2], b[3], b[4], b[5], b[6], b[7])
}

pub open spec fn le_u64_parts(b0: u8, b1: u8, b2: u8, b3: u8, b4: u8, b5: u8, b6: u8, b7: u8) -> u64 {
    ((b0 as u64) | ((b1 as u64) << 8u64) | ((b2 as u64) << 16u64) | ((b3 as u64) << 24u64)
        | ((b4 as u64) << 32u64) | ((b5 as u64) << 40u64) | ((b6 as u64) << 48u64)
        | ((b7 as u64) << 56u64)) as u64
}

/// The two little-endian bytes of `v`.
pub open spec fn u16_le_bytes(v: u16) -> Seq<u8> {
    seq![v as u8, (v >> 8u16) as u8]
}

/// The four little-endian bytes of `v`.
pub open spec fn u32_le_bytes(v: u32) -> Seq<u8> {
    seq![v as u8, (v >> 8u32) as u8, (v >> 16u32) as u8, (v >> 24u32) as u8]
}

/// The eight little-endian bytes of `v`.
pub open spec fn u64_le_bytes(v: u64) -> Seq<u8> {
    seq![
        v as u8,
        (v >> 8u64) as u8,
        (v >> 16u64) as u8,
        (v >> 24u64) as u8,
        (v >> 32u64) as u8,
        (v >> 40u64) as u8,
        (v >> 48u64) as u8,
        (v >> 56u64) as u8,
    ]
}

pub proof fn lemma_u64_roundtrip(v: u64)
    ensures
        le_u64(u64_le_bytes(v)) == v,
        u64_le_bytes(v).len() == 8,
{
    let b = u64_le_bytes(v);
    assert(le_u64_parts(v as u8, (v >> 8u64) as u8, (v >> 16u64) as u8, (v >> 24u64) as u8,
        (v >> 32u64) as u8, (v >> 40u64) as u8, (v >> 48u64) as u8, (v >> 56u64) as u8) == v)
        by (bit_vector);
}

/// Four little-endian bytes read back as the `u32` they were written from.
pub proof fn lemma_u32_roundtrip(v: u32)
    ensures
        le_u32((v as u8), ((v >> 8u32) as u8), ((v >> 16u32) as u8), ((v >> 24u32) as u8)) == v,
{
    assert(((((v as u8) as u32) | ((((v >> 8u32) as u8) as u32) << 8u32) | ((((v >> 16u32) as u8) as u32) << 16u32)
        | ((((v >> 24u32) as u8) as u32) << 24u32)) as u32) == v) by (bit_vector);
}

pub proof fn lemma_u16_roundtrip(v: u16)
    ensures
        le_u16((v as u8), ((v >> 8u16) as u8)) == v,
{
    assert(((((v as u8) as u16) | ((((v >> 8u16) as u8) as u16) << 8u16)) as u16) == v) by (bit_vector);
}

/// Appends the bytes of `src` to `out`.
pub fn append_bytes(out: &mut Vec<u8>, src: &[u8])
    ensures
        final(out)@ == old(out)@ + src@,
{
    let mut i: usize = 0;
    while i < src.len()
        invariant
            i <= src@.len(),
            out@ == old(out)@ + src@.subrange(0, i as int),
        decreases src@.len() - i,
    {
        out.push(src[i]);
        i = i + 1;
        assert(src@.subrange(0, i as int) == src@.subrange(0, i - 1 as int).push(src@[i - 1]));
    }
    assert(src@.subrange(0, src@.len() as int) == src@);
}

/// Appends the little-endian bytes of a `u16`.
pub fn push_u16_le(out: &mut Vec<u8>, v: u16)
    ensures
        final(out)@ == old(out)@ + u16_le_bytes(v),
{
    out.push(v as u8);
    out.push((v >> 8) as u8);
}

/// Appends the little-endian bytes of a `u32`.
pub fn push_u32_le(out: &mut Vec<u8>, v: u32)
    ensures
        final(out)@ == old(out)@ + u32_le_bytes(v),
{
    out.push(v as u8);
    out.push((v >> 8) as u8);
    out.push((v >> 16) as u8);
    out.push((v >> 24) as u8);
}

/// Appends the little-endian bytes of a `u64`.
pub fn push_u64_le(out: &mut Vec<u8>, v: u64)
    ensures
        final(out)@ == old(out)@ + u64_le_bytes(v),
{
    out.push(v as u8);
    out.push((v >> 8) as u8);
    out.push((v >> 16) as u8);
    out.push((v >> 24) as u8);
    out.push((v >> 32) as u8);
    out.push((v >> 40) as u8);
    out.push((v >> 48) as u8);
    out.push((v >> 56) as u8);
}

/// The little-endian bytes of a `u64` as a new vector.
pub fn u64_to_le_vec(v: u64) -> (r: Vec<u8>)
    ensures
        r@ == u64_le_bytes(v),
{
    let mut out: Vec<u8> = Vec::new();
    push_u64_le(&mut out, v);
    out
}

/// Decodes the eight little-endian bytes of `b` starting at `pos`.
pub fn decode_u64_at(b: &[u8], pos: usize) -> (r: u64)
    requires
        pos + 8 <= b@.len(),
    ensures
        r == le_u64(b@.subrange(pos as int, pos + 8)),
{
    let r = (b[pos] as u64) | ((b[pos + 1] as u64) << 8) | ((b[pos + 2] as u64) << 16)
        | ((b[pos + 3] as u64) << 24) | ((b[pos + 4] as u64) << 32) | ((b[pos + 5] as u64) << 40)
        | ((b[pos + 6] as u64) << 48) | ((b[pos + 7] as u64) << 56);
    r
}

} // verus!

verus! {

/// ASCII decimal digits of `v`, most significant first, without leading zeros.
pub open spec fn decimal_digits(v: nat) -> Seq<u8>
    decreases v,
{
    if v < 10 {
        seq![(48 + v) as u8]
    } else {
        decimal_digits(v / 10).push((48 + v % 10) as u8)
    }
}

/// The decimal text of `v` (what `v.to_string()` gives).
pub fn u64_to_decimal(v: u64) -> (r: Vec<u8>)
    ensures
        r@ == decimal_digits(v as nat),
    decreases v,
{
    if v < 10 {
        let mut out: Vec<u8> = Vec::new();
        out.push(48 + v as u8);
        out
    } else {
        let mut out = u64_to_decimal(v / 10);
        out.push(48 + (v % 10) as u8);
        out
    }
}

} // verus!

verus! {

/// Lower-case hexadecimal digit of a value below 16.
pub open spec fn hex_digit(n: u8) -> u8 {
    if n < 10 { (48 + n) as u8 } else { (87 + n) as u8 }
}

/// Lower-case hexadecimal text of `bytes`, two digits per byte.
pub open spec fn hex_lower(bytes: Seq<u8>) -> Seq<u8>
    decreases bytes.len(),
{
    if bytes.len() == 0 {
        Seq::<u8>::empty()
    } else {
        hex_lower(bytes.drop_last()) + seq![hex_digit(bytes.last() / 16), hex_digit(bytes.last() % 16)]
    }
}

fn hex_char(n: u8) -> (r: u8)
    requires
        n < 16,
    ensures
        r == hex_digit(n),
{
    if n < 10 { 48 + n } else { 87 + n }
}

/// Lower-case hexadecimal text of `bytes`.
pub fn hex_encode(bytes: &[u8]) -> (r: Vec<u8>)
    ensures
        r@ == hex_lower(bytes@),
        r@.len() == 2 * bytes@.len(),
{
    let mut out: Vec<u8> = Vec::new();
    let mut i: usize = 0;
    while i < bytes.len()
        invariant
            i <= bytes@.len(),
            out@ == hex_lower(bytes@.subrange(0, i as int)),
            out@.len() == 2 * i,
        decreases bytes@.len() - i,
    {
        let b = bytes[i];
        assert(b >> 4u8 == b / 16 && b & 0xfu8 == b % 16) by (bit_vector);
        out.push(hex_char(b >> 4));
        out.push(hex_char(b & 0xf));
        i = i + 1;
        proof {
            let s = bytes@.subrange(0, i as int);
            assert(s.drop_last() =~= bytes@.subrange(0, i - 1));
            assert(s.last() == b);
            assert(out@ =~= hex_lower(s));
        }
    }
    assert(bytes@.subrange(0, bytes@.len() as int) =~= bytes@);
    out
}

} // verus!
