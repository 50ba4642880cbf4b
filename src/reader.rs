use vstd::prelude::*;
use crate::error::DecodeError;
use crate::utf8::{is_valid_utf8, valid_utf8};

verus! {

/// The byte at `pos`, and the position after it.
pub open spec fn spec_byte(s: Seq<u8>, pos: int) -> Result<(u8, int), DecodeError> {
    if 0 <= pos < s.len() {
        Ok((s[pos], pos + 1))
    } else {
        Err(DecodeError::UnexpectedEof)
    }
}

/// Largest value an unsigned varint of `k` bytes may carry, plus one, when
/// its last byte may hold `top` distinct values.
pub open spec fn uleb_bound(k: nat, top: nat) -> nat
    decreases k,
{
    if k <= 1 {
        top
    } else {
        128 * uleb_bound((k - 1) as nat, top)
    }
}

/// An unsigned LEB128 integer starting at `pos` that may use at most `k`
/// bytes; its last allowed byte must stay below `top`.
pub open spec fn spec_uleb(s: Seq<u8>, pos: int, k: nat, top: nat) -> Result<(nat, int), DecodeError>
    decreases k,
{
    if k == 0 {
        Err(DecodeError::MalformedVarint)
    } else if !(0 <= pos < s.len()) {
        Err(DecodeError::UnexpectedEof)
    } else if s[pos] < 128 {
        if k == 1 && s[pos] >= top {
            Err(DecodeError::Overflow)
        } else {
            Ok((s[pos] as nat, pos + 1))
        }
    } else if k == 1 {
        Err(DecodeError::MalformedVarint)
    } else {
        match spec_uleb(s, pos + 1, (k - 1) as nat, top) {
            Ok((v, e)) => Ok((((s[pos] - 128) + 128 * v) as nat, e)),
            Err(e) => Err(e),
        }
    }
}

/// An unsigned 32-bit varint: at most five bytes, the fifth below 16.
pub open spec fn spec_u32(s: Seq<u8>, pos: int) -> Result<(nat, int), DecodeError> {
    spec_uleb(s, pos, 5, 16)
}

/// The sign-extended value of a 7-bit group.
pub open spec fn group_value(b: u8) -> int {
    if b >= 64 { b - 128 } else { b as int }
}

/// A signed LEB128 integer starting at `pos` that may use at most `k`
/// bytes; its last allowed byte, sign-extended, must lie in `[-top, top)`.
pub open spec fn spec_sleb(s: Seq<u8>, pos: int, k: nat, top: int) -> Result<(int, int), DecodeError>
    decreases k,
{
    if k == 0 {
        Err(DecodeError::MalformedVarint)
    } else if !(0 <= pos < s.len()) {
        Err(DecodeError::UnexpectedEof)
    } else if s[pos] < 128 {
        if k == 1 && !(-top <= group_value(s[pos]) < top) {
            Err(DecodeError::Overflow)
        } else {
            Ok((group_value(s[pos]), pos + 1))
        }
    } else if k == 1 {
        Err(DecodeError::MalformedVarint)
    } else {
        match spec_sleb(s, pos + 1, (k - 1) as nat, top) {
            Ok((v, e)) => Ok(((s[pos] - 128) + 128 * v, e)),
            Err(e) => Err(e),
        }
    }
}

/// A signed 32-bit varint.
pub open spec fn spec_s32(s: Seq<u8>, pos: int) -> Result<(int, int), DecodeError> {
    spec_sleb(s, pos, 5, 8)
}

/// A signed 64-bit varint.
pub open spec fn spec_s64(s: Seq<u8>, pos: int) -> Result<(int, int), DecodeError> {
    spec_sleb(s, pos, 10, 1)
}

/// Reads the byte at `pos`.
pub fn read_byte(bytes: &[u8], pos: usize) -> (r: Result<(u8, usize), DecodeError>)
    ensures
        match r {
            Ok((b, e)) => spec_byte(bytes@, pos as int) == Ok::<(u8, int), DecodeError>((b, e as int)),
            Err(e) => spec_byte(bytes@, pos as int) == Err::<(u8, int), DecodeError>(e),
        },
        r matches Ok((_, e)) ==> pos < e <= bytes.len(),
{
    if pos < bytes.len() {
        Ok((bytes[pos], pos + 1))
    } else {
        Err(DecodeError::UnexpectedEof)
    }
}

/// A varint that was read lies below its bound and ends after `pos`,
/// within `k` bytes and within the input.
pub proof fn lemma_uleb_bounds(s: Seq<u8>, pos: int, k: nat, top: nat)
    requires
        1 <= top,
    ensures
        match spec_uleb(s, pos, k, top) {
            Ok((v, e)) => v < uleb_bound(k, top) && pos < e <= pos + k && e <= s.len(),
            Err(_) => true,
        },
    decreases k,
{
    if k > 1 && 0 <= pos < s.len() && s[pos] >= 128 {
        lemma_uleb_bounds(s, pos + 1, (k - 1) as nat, top);
    }
    if k >= 1 {
        lemma_bound_grows(k, top);
    }
}

proof fn lemma_bound_grows(k: nat, top: nat)
    requires
        1 <= top,
        1 <= k,
    ensures
        top <= uleb_bound(k, top),
        k > 1 ==> 128 <= uleb_bound(k, top),
    decreases k,
{
    if k > 1 {
        lemma_bound_grows((k - 1) as nat, top);
    }
}

fn read_uleb(bytes: &[u8], pos: usize, k: u32, top: u8) -> (r: Result<(u64, usize), DecodeError>)
    requires
        1 <= top,
        k <= 10,
        uleb_bound(k as nat, top as nat) <= u64::MAX,
    ensures
        match r {
            Ok((v, e)) => spec_uleb(bytes@, pos as int, k as nat, top as nat) == Ok::<(nat, int), DecodeError>((v as nat, e as int)),
            Err(e) => spec_uleb(bytes@, pos as int, k as nat, top as nat) == Err::<(nat, int), DecodeError>(e),
        },
    decreases k,
{
    if k == 0 {
        return Err(DecodeError::MalformedVarint);
    }
    if pos >= bytes.len() {
        return Err(DecodeError::UnexpectedEof);
    }
    let b = bytes[pos];
    if b < 128 {
        if k == 1 && b >= top {
            Err(DecodeError::Overflow)
        } else {
            Ok((b as u64, pos + 1))
        }
    } else if k == 1 {
        Err(DecodeError::MalformedVarint)
    } else {
        proof {
            assert(uleb_bound(k as nat, top as nat) == 128 * uleb_bound((k - 1) as nat, top as nat));
        }
        match read_uleb(bytes, pos + 1, k - 1, top) {
            Ok((v, e)) => {
                proof {
                    lemma_uleb_bounds(bytes@, pos + 1, (k - 1) as nat, top as nat);
                }
                Ok(((b - 128) as u64 + 128 * v, e))
            },
            Err(e) => Err(e),
        }
    }
}

/// Reads an unsigned 32-bit varint at `pos`.
pub fn read_u32(bytes: &[u8], pos: usize) -> (r: Result<(u32, usize), DecodeError>)
    ensures
        match r {
            Ok((v, e)) => spec_u32(bytes@, pos as int) == Ok::<(nat, int), DecodeError>((v as nat, e as int)),
            Err(e) => spec_u32(bytes@, pos as int) == Err::<(nat, int), DecodeError>(e),
        },
        r matches Ok((_, e)) ==> pos < e <= bytes.len(),
{
    proof {
        reveal_with_fuel(uleb_bound, 5);
        lemma_uleb_bounds(bytes@, pos as int, 5, 16);
    }
    match read_uleb(bytes, pos, 5, 16) {
        Ok((v, e)) => Ok((v as u32, e)),
        Err(e) => Err(e),
    }
}

proof fn lemma_sleb_bounds(s: Seq<u8>, pos: int, k: nat, top: int)
    requires
        1 <= top,
    ensures
        match spec_sleb(s, pos, k, top) {
            Ok((v, e)) => -uleb_bound(k, top as nat) <= v < uleb_bound(k, top as nat) && pos < e <= s.len(),
            Err(_) => true,
        },
    decreases k,
{
    if k > 1 && 0 <= pos < s.len() && s[pos] >= 128 {
        lemma_sleb_bounds(s, pos + 1, (k - 1) as nat, top);
    }
    if k >= 1 {
        lemma_bound_grows(k, top as nat);
    }
}

fn read_sleb(bytes: &[u8], pos: usize, k: u32, top: i8) -> (r: Result<(i64, usize), DecodeError>)
    requires
        1 <= top,
        k <= 10,
        uleb_bound(k as nat, top as nat) <= 0x8000_0000_0000_0000,
    ensures
        match r {
            Ok((v, e)) => spec_sleb(bytes@, pos as int, k as nat, top as int) == Ok::<(int, int), DecodeError>((v as int, e as int)),
            Err(e) => spec_sleb(bytes@, pos as int, k as nat, top as int) == Err::<(int, int), DecodeError>(e),
        },
    decreases k,
{
    if k == 0 {
        return Err(DecodeError::MalformedVarint);
    }
    if pos >= bytes.len() {
        return Err(DecodeError::UnexpectedEof);
    }
    let b = bytes[pos];
    if b < 128 {
        let g: i64 = if b >= 64 { b as i64 - 128 } else { b as i64 };
        if k == 1 && !(-(top as i64) <= g && g < top as i64) {
            Err(DecodeError::Overflow)
        } else {
            Ok((g, pos + 1))
        }
    } else if k == 1 {
        Err(DecodeError::MalformedVarint)
    } else {
        proof {
            assert(uleb_bound(k as nat, top as nat) == 128 * uleb_bound((k - 1) as nat, top as nat));
        }
        match read_sleb(bytes, pos + 1, k - 1, top) {
            Ok((v, e)) => {
                proof {
                    lemma_sleb_bounds(bytes@, pos + 1, (k - 1) as nat, top as int);
                }
                Ok(((b - 128) as i64 + 128 * v, e))
            },
            Err(e) => Err(e),
        }
    }
}

/// Reads a signed 32-bit varint at `pos`.
pub fn read_s32(bytes: &[u8], pos: usize) -> (r: Result<(i32, usize), DecodeError>)
    ensures
        match r {
            Ok((v, e)) => spec_s32(bytes@, pos as int) == Ok::<(int, int), DecodeError>((v as int, e as int)),
            Err(e) => spec_s32(bytes@, pos as int) == Err::<(int, int), DecodeError>(e),
        },
        r matches Ok((_, e)) ==> pos < e <= bytes.len(),
{
    proof {
        reveal_with_fuel(uleb_bound, 5);
        lemma_sleb_bounds(bytes@, pos as int, 5, 8);
    }
    match read_sleb(bytes, pos, 5, 8) {
        Ok((v, e)) => Ok((v as i32, e)),
        Err(e) => Err(e),
    }
}

/// Reads a signed 64-bit varint at `pos`.
pub fn read_s64(bytes: &[u8], pos: usize) -> (r: Result<(i64, usize), DecodeError>)
    ensures
        match r {
            Ok((v, e)) => spec_s64(bytes@, pos as int) == Ok::<(int, int), DecodeError>((v as int, e as int)),
            Err(e) => spec_s64(bytes@, pos as int) == Err::<(int, int), DecodeError>(e),
        },
        r matches Ok((_, e)) ==> pos < e <= bytes.len(),
{
    proof {
        reveal_with_fuel(uleb_bound, 10);
        lemma_sleb_bounds(bytes@, pos as int, 10, 1);
    }
    read_sleb(bytes, pos, 10, 1)
}

/// Copies the `n` bytes that start at `pos`.
pub fn read_bytes(bytes: &[u8], pos: usize, n: usize) -> (r: Result<(Vec<u8>, usize), DecodeError>)
    ensures
        pos + n <= bytes.len() <==> r is Ok,
        r is Err ==> r == Err::<(Vec<u8>, usize), DecodeError>(DecodeError::UnexpectedEof),
        r matches Ok((v, e)) ==> e == pos + n && v@ == bytes@.subrange(pos as int, e as int),
{
    if pos > bytes.len() || n > bytes.len() - pos {
        return Err(DecodeError::UnexpectedEof);
    }
    let mut v: Vec<u8> = Vec::new();
    let mut i: usize = pos;
    while i < pos + n
        invariant
            pos <= i <= pos + n,
            pos + n <= bytes.len(),
            v@ == bytes@.subrange(pos as int, i as int),
        decreases pos + n - i,
    {
        v.push(bytes[i]);
        i = i + 1;
        assert(v@ =~= bytes@.subrange(pos as int, i as int));
    }
    Ok((v, pos + n))
}

/// A name: a length varint followed by that many bytes, which must be
/// well-formed UTF-8.
pub open spec fn spec_name(s: Seq<u8>, pos: int) -> Result<(Seq<u8>, int), DecodeError> {
    match spec_u32(s, pos) {
        Ok((n, p)) => if p + n > s.len() {
            Err(DecodeError::UnexpectedEof)
        } else if !valid_utf8(s.subrange(p, p + n)) {
            Err(DecodeError::InvalidForm)
        } else {
            Ok((s.subrange(p, p + n), p + n))
        },
        Err(e) => Err(e),
    }
}

/// An unsigned varint reads the same from any prefix of the input that
/// still holds all of its bytes.
pub proof fn lemma_uleb_prefix(s: Seq<u8>, len: int, pos: int, k: nat, top: nat)
    requires
        0 <= len <= s.len(),
        spec_uleb(s, pos, k, top) matches Ok((_, e)) && e <= len,
    ensures
        spec_uleb(s.take(len), pos, k, top) == spec_uleb(s, pos, k, top),
    decreases k,
{
    if k > 1 && 0 <= pos < s.len() && s[pos] >= 128 {
        lemma_uleb_prefix(s, len, pos + 1, (k - 1) as nat, top);
    }
}

/// An unsigned varint whose bytes run past a prefix of the input cannot be
/// read from that prefix.
pub proof fn lemma_uleb_cut(s: Seq<u8>, len: int, pos: int, k: nat, top: nat)
    requires
        0 <= len <= s.len(),
        spec_uleb(s, pos, k, top) matches Ok((_, e)) && e > len,
    ensures
        spec_uleb(s.take(len), pos, k, top) is Err,
    decreases k,
{
    if 0 <= pos < len && k > 1 && s[pos] >= 128 {
        lemma_uleb_cut(s, len, pos + 1, (k - 1) as nat, top);
    }
}

/// Reads a length-prefixed name.
pub fn read_name(bytes: &[u8], pos: usize) -> (r: Result<(Vec<u8>, usize), DecodeError>)
    ensures
        match r {
            Ok((v, e)) => spec_name(bytes@, pos as int) == Ok::<(Seq<u8>, int), DecodeError>((v@, e as int)),
            Err(e) => spec_name(bytes@, pos as int) == Err::<(Seq<u8>, int), DecodeError>(e),
        },
        r matches Ok((_, e)) ==> pos < e <= bytes.len(),
{
    let (n, p) = read_u32(bytes, pos)?;
    proof {
        lemma_uleb_bounds(bytes@, pos as int, 5, 16);
    }
    let (name, e) = read_bytes(bytes, p, n as usize)?;
    if !is_valid_utf8(&name) {
        return Err(DecodeError::InvalidForm);
    }
    Ok((name, e))
}

} // verus!
