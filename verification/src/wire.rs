use vstd::prelude::*;
use vstd::utf8::valid_utf8;
use crate::codec::{le_u16, le_u32, le_u64, u16_le_bytes, decode_u64_at, push_u16_le, append_bytes};
use crate::error::ContractError;
use crate::utf8::utf8_is_valid;

verus! {

/// One byte at `pos`, and the position after it.
pub open spec fn spec_read_u8(input: Seq<u8>, pos: int) -> Option<(u8, int)> {
    if 0 <= pos < input.len() {
        Some((input[pos], pos + 1))
    } else {
        None
    }
}

/// A little-endian `u16` at `pos`, and the position after it.
pub open spec fn spec_read_u16(input: Seq<u8>, pos: int) -> Option<(u16, int)> {
    if 0 <= pos && pos + 2 <= input.len() {
        Some((le_u16(input[pos], input[pos + 1]), pos + 2))
    } else {
        None
    }
}

/// A little-endian `u32` at `pos`, and the position after it.
pub open spec fn spec_read_u32(input: Seq<u8>, pos: int) -> Option<(u32, int)> {
    if 0 <= pos && pos + 4 <= input.len() {
        Some((le_u32(input[pos], input[pos + 1], input[pos + 2], input[pos + 3]), pos + 4))
    } else {
        None
    }
}

/// A little-endian `u64` at `pos`, and the position after it.
pub open spec fn spec_read_u64(input: Seq<u8>, pos: int) -> Option<(u64, int)> {
    if 0 <= pos && pos + 8 <= input.len() {
        Some((le_u64(input.subrange(pos, pos + 8)), pos + 8))
    } else {
        None
    }
}

/// A `u16`-length-prefixed byte field at `pos`, and the position after it.
pub open spec fn spec_read_bytes(input: Seq<u8>, pos: int) -> Option<(Seq<u8>, int)> {
    match spec_read_u16(input, pos) {
        None => None,
        Some((len, p)) => if p + len > input.len() {
            None
        } else {
            Some((input.subrange(p, p + len), p + len))
        },
    }
}

/// A `u16`-length-prefixed UTF-8 string at `pos` of at most `limit` bytes.
pub open spec fn spec_read_string(input: Seq<u8>, pos: int, limit: int) -> Option<(Seq<u8>, int)> {
    match spec_read_bytes(input, pos) {
        None => None,
        Some((s, p)) => if s.len() > limit || !valid_utf8(s) {
            None
        } else {
            Some((s, p))
        },
    }
}

/// Thirty-two raw bytes at `pos`, and the position after them.
pub open spec fn spec_read_bytes32(input: Seq<u8>, pos: int) -> Option<(Seq<u8>, int)> {
    if 0 <= pos && pos + 32 <= input.len() {
        Some((input.subrange(pos, pos + 32), pos + 32))
    } else {
        None
    }
}

/// A `u32`-length-prefixed byte field at `pos` of at most `limit` bytes.
pub open spec fn spec_read_blob32(input: Seq<u8>, pos: int, limit: int) -> Option<(Seq<u8>, int)> {
    match spec_read_u32(input, pos) {
        None => None,
        Some((len, p)) => if len > limit || p + len > input.len() {
            None
        } else {
            Some((input.subrange(p, p + len), p + len))
        },
    }
}

/// Length limit under which every `u16` length is accepted.
pub const NO_LIMIT: usize = 65535;

/// Reads one byte at the cursor and advances it.
pub fn read_u8(input: &[u8], cursor: &mut usize) -> (r: Result<u8, ContractError>)
    ensures
        match spec_read_u8(input@, *old(cursor) as int) {
            Some((v, p)) => r == Ok::<u8, ContractError>(v) && *final(cursor) == p,
            None => r == Err::<u8, ContractError>(ContractError::InvalidInput),
        },
{
    if *cursor >= input.len() {
        return Err(ContractError::InvalidInput);
    }
    let v = input[*cursor];
    *cursor = *cursor + 1;
    Ok(v)
}

/// Reads a little-endian `u16` at the cursor and advances it.
pub fn read_u16(input: &[u8], cursor: &mut usize) -> (r: Result<u16, ContractError>)
    ensures
        match spec_read_u16(input@, *old(cursor) as int) {
            Some((v, p)) => r == Ok::<u16, ContractError>(v) && *final(cursor) == p,
            None => r == Err::<u16, ContractError>(ContractError::InvalidInput),
        },
{
    if *cursor > input.len() || input.len() - *cursor < 2 {
        return Err(ContractError::InvalidInput);
    }
    let p = *cursor;
    let v = (input[p] as u16) | ((input[p + 1] as u16) << 8);
    *cursor = p + 2;
    Ok(v)
}

/// Reads a little-endian `u32` at the cursor and advances it.
pub fn read_u32(input: &[u8], cursor: &mut usize) -> (r: Result<u32, ContractError>)
    ensures
        match spec_read_u32(input@, *old(cursor) as int) {
            Some((v, p)) => r == Ok::<u32, ContractError>(v) && *final(cursor) == p,
            None => r == Err::<u32, ContractError>(ContractError::InvalidInput),
        },
{
    if *cursor > input.len() || input.len() - *cursor < 4 {
        return Err(ContractError::InvalidInput);
    }
    let p = *cursor;
    let v = (input[p] as u32) | ((input[p + 1] as u32) << 8) | ((input[p + 2] as u32) << 16)
        | ((input[p + 3] as u32) << 24);
    *cursor = p + 4;
    Ok(v)
}

/// Reads a little-endian `u64` at the cursor and advances it.
pub fn read_u64(input: &[u8], cursor: &mut usize) -> (r: Result<u64, ContractError>)
    ensures
        match spec_read_u64(input@, *old(cursor) as int) {
            Some((v, p)) => r == Ok::<u64, ContractError>(v) && *final(cursor) == p,
            None => r == Err::<u64, ContractError>(ContractError::InvalidInput),
        },
{
    if *cursor > input.len() || input.len() - *cursor < 8 {
        return Err(ContractError::InvalidInput);
    }
    let p = *cursor;
    let v = decode_u64_at(input, p);
    *cursor = p + 8;
    Ok(v)
}

/// Copies `input[from..to]` into a new vector.
pub fn copy_range(input: &[u8], from: usize, to: usize) -> (r: Vec<u8>)
    requires
        from <= to <= input@.len(),
    ensures
        r@ == input@.subrange(from as int, to as int),
{
    let mut out: Vec<u8> = Vec::new();
    let mut i = from;
    while i < to
        invariant
            from <= i <= to <= input@.len(),
            out@ == input@.subrange(from as int, i as int),
        decreases to - i,
    {
        out.push(input[i]);
        i = i + 1;
        assert(input@.subrange(from as int, i as int) == input@.subrange(from as int, i - 1 as int).push(input@[i - 1]));
    }
    out
}

/// Reads a `u16`-length-prefixed byte field and advances the cursor.
pub fn read_bytes(input: &[u8], cursor: &mut usize) -> (r: Result<Vec<u8>, ContractError>)
    ensures
        match spec_read_bytes(input@, *old(cursor) as int) {
            Some((v, p)) => r matches Ok(b) && b@ == v && *final(cursor) == p,
            None => r == Err::<Vec<u8>, ContractError>(ContractError::InvalidInput),
        },
{
    let len = read_u16(input, cursor)? as usize;
    if len > input.len() - *cursor {
        return Err(ContractError::InvalidInput);
    }
    let p = *cursor;
    let out = copy_range(input, p, p + len);
    *cursor = p + len;
    Ok(out)
}

/// Reads a `u16`-length-prefixed UTF-8 string of at most `limit` bytes and
/// advances the cursor. The string is returned as its UTF-8 bytes.
pub fn read_string(input: &[u8], cursor: &mut usize, limit: usize) -> (r: Result<Vec<u8>, ContractError>)
    ensures
        match spec_read_string(input@, *old(cursor) as int, limit as int) {
            Some((v, p)) => r matches Ok(b) && b@ == v && *final(cursor) == p,
            None => r == Err::<Vec<u8>, ContractError>(ContractError::InvalidInput),
        },
{
    let len = read_u16(input, cursor)? as usize;
    if len > input.len() - *cursor || len > limit {
        return Err(ContractError::InvalidInput);
    }
    let p = *cursor;
    let out = copy_range(input, p, p + len);
    if !utf8_is_valid(out.as_slice()) {
        return Err(ContractError::InvalidInput);
    }
    *cursor = p + len;
    Ok(out)
}

/// Reads thirty-two raw bytes and advances the cursor.
pub fn read_bytes32(input: &[u8], cursor: &mut usize) -> (r: Result<Vec<u8>, ContractError>)
    ensures
        match spec_read_bytes32(input@, *old(cursor) as int) {
            Some((v, p)) => r matches Ok(b) && b@ == v && *final(cursor) == p,
            None => r == Err::<Vec<u8>, ContractError>(ContractError::InvalidInput),
        },
{
    if *cursor > input.len() || input.len() - *cursor < 32 {
        return Err(ContractError::InvalidInput);
    }
    let p = *cursor;
    let out = copy_range(input, p, p + 32);
    *cursor = p + 32;
    Ok(out)
}

/// Reads a `u32`-length-prefixed byte field of at most `limit` bytes and
/// advances the cursor.
pub fn read_blob32(input: &[u8], cursor: &mut usize, limit: usize) -> (r: Result<Vec<u8>, ContractError>)
    ensures
        match spec_read_blob32(input@, *old(cursor) as int, limit as int) {
            Some((v, p)) => r matches Ok(b) && b@ == v && *final(cursor) == p,
            None => r == Err::<Vec<u8>, ContractError>(ContractError::InvalidInput),
        },
{
    let len32 = read_u32(input, cursor)?;
    if len32 as usize > limit || len32 as usize > input.len() - *cursor {
        return Err(ContractError::InvalidInput);
    }
    let len = len32 as usize;
    let p = *cursor;
    let out = copy_range(input, p, p + len);
    *cursor = p + len;
    Ok(out)
}

/// The encoding of a string field: its length as `u16` and its bytes.
pub open spec fn spec_string_field(s: Seq<u8>) -> Seq<u8> {
    u16_le_bytes((s.len() % 65536) as u16) + s
}

/// Appends a length-prefixed field; lengths above `u16::MAX` are refused.
pub fn write_string(out: &mut Vec<u8>, s: &[u8]) -> (r: Result<(), ContractError>)
    ensures
        s@.len() <= 65535 ==> r is Ok && final(out)@ == old(out)@ + spec_string_field(s@),
        s@.len() > 65535 ==> r == Err::<(), ContractError>(ContractError::InvalidInput)
            && final(out)@ == old(out)@,
{
    if s.len() > 65535 {
        return Err(ContractError::InvalidInput);
    }
    push_u16_le(out, s.len() as u16);
    append_bytes(out, s);
    proof {
        assert(old(out)@ + u16_le_bytes(s@.len() as u16) + s@ == old(out)@ + spec_string_field(s@));
    }
    Ok(())
}

/// Appends a length-prefixed field whose length is cut to 16 bits, as a
/// plain `as u16` cast does.
pub fn write_string_wrapping(out: &mut Vec<u8>, s: &[u8])
    ensures
        final(out)@ == old(out)@ + spec_string_field(s@),
{
    let len = (s.len() % 65536) as u16;
    push_u16_le(out, len);
    append_bytes(out, s);
    proof {
        assert(old(out)@ + u16_le_bytes(len) + s@ == old(out)@ + spec_string_field(s@));
    }
}

} // verus!

verus! {

/// A string field written after `pre` reads back as the string.
pub proof fn lemma_read_string_field(pre: Seq<u8>, s: Seq<u8>, rest: Seq<u8>, limit: int)
    requires
        s.len() <= limit,
        s.len() <= 65535,
        valid_utf8(s),
    ensures
        spec_read_string(pre + spec_string_field(s) + rest, pre.len() as int, limit)
            == Some((s, (pre.len() + 2 + s.len()) as int)),
{
    let all = pre + spec_string_field(s) + rest;
    let p = pre.len() as int;
    crate::codec::lemma_u16_roundtrip(s.len() as u16);
    assert(all[p] == (s.len() as u16) as u8);
    assert(all[p + 1] == ((s.len() as u16) >> 8u16) as u8);
    assert(all.subrange(p + 2, p + 2 + s.len()) =~= s);
}

/// A `u64` written after `pre` reads back as itself.
pub proof fn lemma_read_u64_field(pre: Seq<u8>, v: u64, rest: Seq<u8>)
    ensures
        spec_read_u64(pre + crate::codec::u64_le_bytes(v) + rest, pre.len() as int) == Some((v, (pre.len() + 8) as int)),
{
    let all = pre + crate::codec::u64_le_bytes(v) + rest;
    let p = pre.len() as int;
    crate::codec::lemma_u64_roundtrip(v);
    assert(all.subrange(p, p + 8) =~= crate::codec::u64_le_bytes(v));
}

/// A byte field written after `pre` reads back as the bytes.
pub proof fn lemma_read_bytes_field(pre: Seq<u8>, s: Seq<u8>, rest: Seq<u8>)
    requires
        s.len() <= 65535,
    ensures
        spec_read_bytes(pre + spec_string_field(s) + rest, pre.len() as int)
            == Some((s, (pre.len() + 2 + s.len()) as int)),
{
    let all = pre + spec_string_field(s) + rest;
    let p = pre.len() as int;
    crate::codec::lemma_u16_roundtrip(s.len() as u16);
    assert(all[p] == (s.len() as u16) as u8);
    assert(all[p + 1] == ((s.len() as u16) >> 8u16) as u8);
    assert(all.subrange(p + 2, p + 2 + s.len()) =~= s);
}

} // verus!
