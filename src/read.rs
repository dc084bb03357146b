use vstd::prelude::*;

use crate::error::ClassError;

verus! {

/// The big-endian value of `n` bytes of `s` starting at `pos`.
pub open spec fn be_value(s: Seq<u8>, pos: int, n: nat) -> nat
    decreases n,
{
    if n == 0 {
        0
    } else {
        be_value(s, pos, (n - 1) as nat) * 256 + s[pos + n - 1] as nat
    }
}

/// Whether `n` bytes can be read from `s` at `pos`.
pub open spec fn can_read(s: Seq<u8>, pos: int, n: nat) -> bool {
    0 <= pos && pos + n <= s.len()
}

/// Reads one byte at `*pos` and advances past it.
pub fn read_u1(bytes: &[u8], pos: &mut usize) -> (r: Result<u8, ClassError>)
    ensures
        match r {
            Ok(v) => can_read(bytes@, *old(pos) as int, 1) && v as nat == be_value(
                bytes@,
                *old(pos) as int,
                1,
            ) && *final(pos) == *old(pos) + 1,
            Err(e) => !can_read(bytes@, *old(pos) as int, 1) && e == ClassError::UnexpectedEof
                && *final(pos) == *old(pos),
        },
{
    if *pos >= bytes.len() {
        return Err(ClassError::UnexpectedEof);
    }
    let v = bytes[*pos];
    *pos = *pos + 1;
    proof {
        reveal_with_fuel(be_value, 2);
    }
    Ok(v)
}

/// Reads a big-endian `u16` at `*pos` and advances past it.
pub fn read_u2(bytes: &[u8], pos: &mut usize) -> (r: Result<u16, ClassError>)
    ensures
        match r {
            Ok(v) => can_read(bytes@, *old(pos) as int, 2) && v as nat == be_value(
                bytes@,
                *old(pos) as int,
                2,
            ) && *final(pos) == *old(pos) + 2,
            Err(e) => !can_read(bytes@, *old(pos) as int, 2) && e == ClassError::UnexpectedEof
                && *final(pos) == *old(pos),
        },
{
    if bytes.len() < 2 || *pos > bytes.len() - 2 {
        return Err(ClassError::UnexpectedEof);
    }
    let p = *pos;
    let v: u16 = (bytes[p] as u16) * 256 + bytes[p + 1] as u16;
    *pos = p + 2;
    proof {
        reveal_with_fuel(be_value, 3);
    }
    Ok(v)
}

/// Reads a big-endian `u32` at `*pos` and advances past it.
pub fn read_u4(bytes: &[u8], pos: &mut usize) -> (r: Result<u32, ClassError>)
    ensures
        match r {
            Ok(v) => can_read(bytes@, *old(pos) as int, 4) && v as nat == be_value(
                bytes@,
                *old(pos) as int,
                4,
            ) && *final(pos) == *old(pos) + 4,
            Err(e) => !can_read(bytes@, *old(pos) as int, 4) && e == ClassError::UnexpectedEof
                && *final(pos) == *old(pos),
        },
{
    if bytes.len() < 4 || *pos > bytes.len() - 4 {
        return Err(ClassError::UnexpectedEof);
    }
    let hi = read_u2(bytes, pos);
    let lo = read_u2(bytes, pos);
    match (hi, lo) {
        (Ok(h), Ok(l)) => {
            proof {
                lemma_be_split(bytes@, *old(pos) as int, 2, 2);
                reveal_with_fuel(pow256, 3);
            }
            assert(h as nat * 65536 + l as nat <= 0xffff_ffff) by (nonlinear_arith)
                requires
                    h as nat <= 0xffff,
                    l as nat <= 0xffff,
            ;
            Ok((h as u32) * 65536 + l as u32)
        },
        _ => Err(ClassError::UnexpectedEof),
    }
}

/// Reads a big-endian `u64` at `*pos` and advances past it.
pub fn read_u8(bytes: &[u8], pos: &mut usize) -> (r: Result<u64, ClassError>)
    ensures
        match r {
            Ok(v) => can_read(bytes@, *old(pos) as int, 8) && v as nat == be_value(
                bytes@,
                *old(pos) as int,
                8,
            ) && *final(pos) == *old(pos) + 8,
            Err(e) => !can_read(bytes@, *old(pos) as int, 8) && e == ClassError::UnexpectedEof
                && *final(pos) == *old(pos),
        },
{
    if bytes.len() < 8 || *pos > bytes.len() - 8 {
        return Err(ClassError::UnexpectedEof);
    }
    let hi = read_u4(bytes, pos);
    let lo = read_u4(bytes, pos);
    match (hi, lo) {
        (Ok(h), Ok(l)) => {
            proof {
                lemma_be_split(bytes@, *old(pos) as int, 4, 4);
                reveal_with_fuel(pow256, 5);
            }
            assert(h as nat * 0x1_0000_0000 + l as nat <= 0xffff_ffff_ffff_ffff) by (nonlinear_arith)
                requires
                    h as nat <= 0xffff_ffff,
                    l as nat <= 0xffff_ffff,
            ;
            Ok((h as u64) * 0x1_0000_0000 + l as u64)
        },
        _ => Err(ClassError::UnexpectedEof),
    }
}

/// Reads `count` bytes at `*pos` and advances past them.
pub fn read_bytes(count: u64, bytes: &[u8], pos: &mut usize) -> (r: Result<Vec<u8>, ClassError>)
    ensures
        match r {
            Ok(v) => can_read(bytes@, *old(pos) as int, count as nat) && v@ == bytes@.subrange(
                *old(pos) as int,
                *old(pos) + count,
            ) && *final(pos) == *old(pos) + count,
            Err(e) => !can_read(bytes@, *old(pos) as int, count as nat) && e
                == ClassError::UnexpectedEof && *final(pos) == *old(pos),
        },
{
    if *pos > bytes.len() || count > (bytes.len() - *pos) as u64 {
        return Err(ClassError::UnexpectedEof);
    }
    let start = *pos;
    let end = start + count as usize;
    let mut out: Vec<u8> = Vec::new();
    let mut i = start;
    while i < end
        invariant
            start <= i <= end,
            end <= bytes.len(),
            out@ == bytes@.subrange(start as int, i as int),
        decreases end - i,
    {
        out.push(bytes[i]);
        i = i + 1;
    }
    *pos = end;
    Ok(out)
}

/// A big-endian value of `a + b` bytes is its first `a` bytes shifted past the last `b`.
pub proof fn lemma_be_split(s: Seq<u8>, pos: int, a: nat, b: nat)
    requires
        can_read(s, pos, a + b),
    ensures
        be_value(s, pos, a + b) == be_value(s, pos, a) * pow256(b) + be_value(s, pos + a, b),
    decreases b,
{
    if b > 0 {
        lemma_be_split(s, pos, a, (b - 1) as nat);
        let x = be_value(s, pos, a);
        let y = pow256((b - 1) as nat);
        let z = be_value(s, pos + a, (b - 1) as nat);
        let last = s[pos + a + b - 1] as nat;
        assert(be_value(s, pos, a + b) == be_value(s, pos, (a + b - 1) as nat) * 256 + last);
        assert(be_value(s, pos + a, b) == z * 256 + last);
        assert(pow256(b) == y * 256);
        assert((a + (b - 1)) as nat == (a + b - 1) as nat);
        assert(be_value(s, pos, (a + b - 1) as nat) == x * y + z);
        assert((x * y + z) * 256 + last == x * (y * 256) + (z * 256 + last)) by (nonlinear_arith);
    } else {
        assert(pow256(0) == 1);
        assert(be_value(s, pos + a, 0) == 0);
        assert(a + b == a);
    }
}

/// `256` raised to the power `n`.
pub open spec fn pow256(n: nat) -> nat
    decreases n,
{
    if n == 0 {
        1
    } else {
        pow256((n - 1) as nat) * 256
    }
}

} // verus!
