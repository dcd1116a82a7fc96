//! Big-endian, fixed-width primitives shared by the patch codec.
//!
//! Serializers append to a byte vector; readers walk a byte slice with an
//! explicit cursor. Signed positions travel as their two's-complement bit
//! pattern, and 32-bit float values travel as their IEEE 754 bit pattern,
//! so the whole wire format is defined over plain integers.

use vstd::prelude::*;

verus! {

/// The ways reading a patch image can fail before any validation runs.
#[derive(Clone, Copy, Debug, PartialEq, Eq, Structural)]
pub enum DecodeError {
    /// The image ended before the field that was being read.
    UnexpectedEnd,
}

/// The two big-endian bytes of a 16-bit value.
pub open spec fn u16_be_bytes(v: u16) -> Seq<u8> {
    seq![(v / 0x100) as u8, (v % 0x100) as u8]
}

/// The four big-endian bytes of a 32-bit value.
pub open spec fn u32_be_bytes(v: u32) -> Seq<u8> {
    seq![
        (v / 0x100_0000) as u8,
        ((v / 0x1_0000) % 0x100) as u8,
        ((v / 0x100) % 0x100) as u8,
        (v % 0x100) as u8,
    ]
}

/// The 16-bit value spelled by two big-endian bytes.
pub open spec fn be16(b0: u8, b1: u8) -> u16 {
    ((b0 as int) * 0x100 + (b1 as int)) as u16
}

/// The 32-bit value spelled by four big-endian bytes.
pub open spec fn be32(b0: u8, b1: u8, b2: u8, b3: u8) -> u32 {
    ((b0 as int) * 0x100_0000 + (b1 as int) * 0x1_0000 + (b2 as int) * 0x100 + (b3 as int)) as u32
}

/// Two's-complement bit pattern of a signed 32-bit value.
pub open spec fn i32_to_bits(v: i32) -> u32 {
    if v >= 0 {
        v as u32
    } else {
        (v + 0x1_0000_0000) as u32
    }
}

/// Signed 32-bit value of a two's-complement bit pattern.
pub open spec fn bits_to_i32(b: u32) -> i32 {
    if b < 0x8000_0000 {
        b as i32
    } else {
        (b - 0x1_0000_0000) as i32
    }
}

pub proof fn lemma_i32_bits_roundtrip(v: i32)
    ensures
        bits_to_i32(i32_to_bits(v)) == v,
{
}

pub proof fn lemma_be16_of_bytes(v: u16)
    ensures
        be16(u16_be_bytes(v)[0], u16_be_bytes(v)[1]) == v,
{
}

pub proof fn lemma_be32_of_bytes(v: u32)
    ensures
        be32(u32_be_bytes(v)[0], u32_be_bytes(v)[1], u32_be_bytes(v)[2], u32_be_bytes(v)[3]) == v,
{
}

pub fn push_u8(out: &mut Vec<u8>, v: u8)
    ensures
        final(out)@ == old(out)@.push(v),
{
    out.push(v);
}

pub fn push_u16_be(out: &mut Vec<u8>, v: u16)
    ensures
        final(out)@ == old(out)@ + u16_be_bytes(v),
{
    out.push((v / 0x100) as u8);
    out.push((v % 0x100) as u8);
    assert(out@ =~= old(out)@ + u16_be_bytes(v));
}

pub fn push_u32_be(out: &mut Vec<u8>, v: u32)
    ensures
        final(out)@ == old(out)@ + u32_be_bytes(v),
{
    out.push((v / 0x100_0000) as u8);
    out.push(((v / 0x1_0000) % 0x100) as u8);
    out.push(((v / 0x100) % 0x100) as u8);
    out.push((v % 0x100) as u8);
    assert(out@ =~= old(out)@ + u32_be_bytes(v));
}

pub fn push_i32_be(out: &mut Vec<u8>, v: i32)
    ensures
        final(out)@ == old(out)@ + u32_be_bytes(i32_to_bits(v)),
{
    let bits: u32 = if v >= 0 {
        v as u32
    } else {
        ((v as i64) + 0x1_0000_0000i64) as u32
    };
    assert(bits == i32_to_bits(v));
    push_u32_be(out, bits);
}

/// A fresh byte string holding the same bytes.
pub fn copy_bytes(v: &Vec<u8>) -> (r: Vec<u8>)
    ensures
        r@ == v@,
{
    let mut r: Vec<u8> = Vec::new();
    let mut i: usize = 0;
    while i < v.len()
        invariant
            i <= v@.len(),
            r@ == v@.take(i as int),
        decreases v@.len() - i,
    {
        r.push(v[i]);
        i = i + 1;
        assert(r@ =~= v@.take(i as int));
    }
    assert(v@.take(v@.len() as int) =~= v@);
    r
}

/// Whether two byte strings hold the same bytes.
pub fn bytes_eq(a: &Vec<u8>, b: &Vec<u8>) -> (r: bool)
    ensures
        r <==> a@ == b@,
{
    if a.len() != b.len() {
        assert(a@.len() != b@.len());
        return false;
    }
    let mut i: usize = 0;
    while i < a.len()
        invariant
            i <= a@.len(),
            a@.len() == b@.len(),
            forall|k: int| 0 <= k < i ==> a@[k] == b@[k],
        decreases a@.len() - i,
    {
        if a[i] != b[i] {
            return false;
        }
        i = i + 1;
    }
    proof {
        assert(a@ =~= b@);
    }
    true
}

pub fn push_bytes(out: &mut Vec<u8>, bytes: &Vec<u8>)
    ensures
        final(out)@ == old(out)@ + bytes@,
{
    let ghost base = out@;
    let mut i: usize = 0;
    while i < bytes.len()
        invariant
            i <= bytes@.len(),
            out@ == base + bytes@.take(i as int),
        decreases bytes@.len() - i,
    {
        out.push(bytes[i]);
        i = i + 1;
        assert(out@ =~= base + bytes@.take(i as int));
    }
    assert(base + bytes@.take(bytes@.len() as int) =~= base + bytes@);
}

pub fn read_u8(data: &Vec<u8>, pos: &mut usize) -> (r: Result<u8, DecodeError>)
    ensures
        r is Ok <==> *old(pos) + 1 <= data@.len(),
        r matches Ok(v) ==> v == data@[*old(pos) as int] && *final(pos) == *old(pos) + 1,
        r is Err ==> *final(pos) == *old(pos),
{
    if *pos < data.len() {
        let v = data[*pos];
        *pos = *pos + 1;
        Ok(v)
    } else {
        Err(DecodeError::UnexpectedEnd)
    }
}

pub fn read_u16_be(data: &Vec<u8>, pos: &mut usize) -> (r: Result<u16, DecodeError>)
    ensures
        r is Ok <==> *old(pos) + 2 <= data@.len(),
        r matches Ok(v) ==> v == be16(data@[*old(pos) as int], data@[*old(pos) + 1]) && *final(pos)
            == *old(pos) + 2,
        r is Err ==> *final(pos) == *old(pos),
{
    if *pos < data.len() && data.len() - *pos >= 2 {
        let b0 = data[*pos];
        let b1 = data[*pos + 1];
        *pos = *pos + 2;
        Ok((b0 as u16) * 0x100 + (b1 as u16))
    } else {
        Err(DecodeError::UnexpectedEnd)
    }
}

pub fn read_u32_be(data: &Vec<u8>, pos: &mut usize) -> (r: Result<u32, DecodeError>)
    ensures
        r is Ok <==> *old(pos) + 4 <= data@.len(),
        r matches Ok(v) ==> v == be32(
            data@[*old(pos) as int],
            data@[*old(pos) + 1],
            data@[*old(pos) + 2],
            data@[*old(pos) + 3],
        ) && *final(pos) == *old(pos) + 4,
        r is Err ==> *final(pos) == *old(pos),
{
    if *pos < data.len() && data.len() - *pos >= 4 {
        let b0 = data[*pos];
        let b1 = data[*pos + 1];
        let b2 = data[*pos + 2];
        let b3 = data[*pos + 3];
        *pos = *pos + 4;
        Ok((b0 as u32) * 0x100_0000 + (b1 as u32) * 0x1_0000 + (b2 as u32) * 0x100 + (b3 as u32))
    } else {
        Err(DecodeError::UnexpectedEnd)
    }
}

pub fn read_i32_be(data: &Vec<u8>, pos: &mut usize) -> (r: Result<i32, DecodeError>)
    ensures
        r is Ok <==> *old(pos) + 4 <= data@.len(),
        r matches Ok(v) ==> i32_to_bits(v) == be32(
            data@[*old(pos) as int],
            data@[*old(pos) + 1],
            data@[*old(pos) + 2],
            data@[*old(pos) + 3],
        ) && *final(pos) == *old(pos) + 4,
        r is Err ==> *final(pos) == *old(pos),
{
    let bits = match read_u32_be(data, pos) {
        Ok(b) => b,
        Err(e) => {
            return Err(e);
        },
    };
    let v: i32 = if bits < 0x8000_0000 {
        bits as i32
    } else {
        ((bits as i64) - 0x1_0000_0000i64) as i32
    };
    assert(i32_to_bits(v) == bits);
    Ok(v)
}

/// Reads `len` raw bytes at the cursor; the byte-string payload of every
/// length-prefixed field in the patch format.
pub fn deserialize_string(data: &Vec<u8>, pos: &mut usize, len: usize) -> (r: Result<
    Vec<u8>,
    DecodeError,
>)
    ensures
        r is Ok <==> *old(pos) + len <= data@.len(),
        r matches Ok(s) ==> s@ == data@.subrange(*old(pos) as int, *old(pos) + len) && *final(pos)
            == *old(pos) + len,
        r is Err ==> *final(pos) == *old(pos),
{
    if *pos <= data.len() && data.len() - *pos >= len {
        let dlen = data.len();
        let mut buffer: Vec<u8> = Vec::new();
        let mut i: usize = 0;
        while i < len
            invariant
                *pos + len <= dlen,
                dlen == data@.len(),
                i <= len,
                buffer@ == data@.subrange(*pos as int, *pos + i),
            decreases len - i,
        {
            buffer.push(data[*pos + i]);
            i = i + 1;
            assert(buffer@ =~= data@.subrange(*pos as int, *pos + i));
        }
        *pos = *pos + len;
        Ok(buffer)
    } else {
        Err(DecodeError::UnexpectedEnd)
    }
}

} // verus!
