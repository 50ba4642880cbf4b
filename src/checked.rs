use vstd::prelude::*;
use crate::code::{read_expr, spec_ops};
use crate::entities::{read_global_type, spec_global_type};
use crate::error::DecodeError;
use crate::reader::{read_byte, read_name, read_u32, spec_byte, spec_name, spec_u32};

verus! {

/// `n` 32-bit varints in a row; gives where they end.
pub open spec fn spec_u32_run(s: Seq<u8>, pos: int, n: nat) -> Result<int, DecodeError>
    decreases n,
{
    if n == 0 {
        Ok(pos)
    } else {
        match spec_u32(s, pos) {
            Ok((_, p)) => spec_u32_run(s, p, (n - 1) as nat),
            Err(e) => Err(e),
        }
    }
}

/// One entry of the global (6), export (7), element (9) or data (11)
/// section at `pos`; gives where it ends.
/// - global: a global type, then an initializer expression;
/// - export: a name, a kind byte (0 to 3) and an index;
/// - element: a table index, an offset expression, then a counted vector
///   of function indices;
/// - data: a memory index, an offset expression, then a counted run of
///   bytes.
pub open spec fn spec_entry(id: u8, s: Seq<u8>, pos: int) -> Result<int, DecodeError> {
    if id == 6 {
        match spec_global_type(s, pos) {
            Ok((_, _, p)) => match spec_ops(s, p, 0) {
                Ok((_, e)) => Ok(e),
                Err(e) => Err(e),
            },
            Err(e) => Err(e),
        }
    } else if id == 7 {
        match spec_name(s, pos) {
            Ok((_, p)) => match spec_byte(s, p) {
                Ok((kind, q)) => if kind > 3 {
                    Err(DecodeError::InvalidForm)
                } else {
                    match spec_u32(s, q) {
                        Ok((_, e)) => Ok(e),
                        Err(e) => Err(e),
                    }
                },
                Err(e) => Err(e),
            },
            Err(e) => Err(e),
        }
    } else {
        match spec_u32(s, pos) {
            Ok((_, p)) => match spec_ops(s, p, 0) {
                Ok((_, q)) => match spec_u32(s, q) {
                    Ok((n, t)) => if id == 9 {
                        spec_u32_run(s, t, n)
                    } else if t + n > s.len() {
                        Err(DecodeError::UnexpectedEof)
                    } else {
                        Ok(t + n)
                    },
                    Err(e) => Err(e),
                },
                Err(e) => Err(e),
            },
            Err(e) => Err(e),
        }
    }
}

/// `n` entries of section `id` in a row; gives where they end.
pub open spec fn spec_entries(id: u8, s: Seq<u8>, pos: int, n: nat) -> Result<int, DecodeError>
    decreases n,
{
    if n == 0 {
        Ok(pos)
    } else {
        match spec_entry(id, s, pos) {
            Ok(p) => spec_entries(id, s, p, (n - 1) as nat),
            Err(e) => Err(e),
        }
    }
}

/// A global, export, element or data section: a count, then that many
/// entries, which must fill the payload exactly.
pub open spec fn spec_checked_section(id: u8, s: Seq<u8>) -> Result<(), DecodeError> {
    match spec_u32(s, 0) {
        Ok((n, p)) => match spec_entries(id, s, p, n) {
            Ok(e) => if e == s.len() {
                Ok(())
            } else {
                Err(DecodeError::TruncatedSection)
            },
            Err(e) => Err(e),
        },
        Err(e) => Err(e),
    }
}

fn skip_u32_run(bytes: &[u8], pos: usize, n: u32) -> (r: Result<usize, DecodeError>)
    requires
        pos <= bytes.len(),
    ensures
        match r {
            Ok(e) => spec_u32_run(bytes@, pos as int, n as nat) == Ok::<int, DecodeError>(e as int) && e <= bytes.len(),
            Err(e) => spec_u32_run(bytes@, pos as int, n as nat) == Err::<int, DecodeError>(e),
        },
{
    let mut p: usize = pos;
    let mut i: u32 = 0;
    while i < n
        invariant
            p <= bytes.len(),
            i <= n,
            spec_u32_run(bytes@, pos as int, n as nat) == spec_u32_run(bytes@, p as int, (n - i) as nat),
        decreases n - i,
    {
        let (_, q) = read_u32(bytes, p)?;
        p = q;
        i = i + 1;
    }
    Ok(p)
}

fn skip_entry(id: u8, bytes: &[u8], pos: usize) -> (r: Result<usize, DecodeError>)
    requires
        id == 6 || id == 7 || id == 9 || id == 11,
    ensures
        match r {
            Ok(e) => spec_entry(id, bytes@, pos as int) == Ok::<int, DecodeError>(e as int) && e <= bytes.len(),
            Err(e) => spec_entry(id, bytes@, pos as int) == Err::<int, DecodeError>(e),
        },
{
    if id == 6 {
        let (_, p) = read_global_type(bytes, pos)?;
        let (_, e) = read_expr(bytes, p)?;
        Ok(e)
    } else if id == 7 {
        let (_, p) = read_name(bytes, pos)?;
        let (kind, q) = read_byte(bytes, p)?;
        if kind > 3 {
            return Err(DecodeError::InvalidForm);
        }
        let (_, e) = read_u32(bytes, q)?;
        Ok(e)
    } else {
        let (_, p) = read_u32(bytes, pos)?;
        let (_, q) = read_expr(bytes, p)?;
        let (n, t) = read_u32(bytes, q)?;
        if id == 9 {
            skip_u32_run(bytes, t, n)
        } else if n as usize > bytes.len() - t {
            Err(DecodeError::UnexpectedEof)
        } else {
            Ok(t + n as usize)
        }
    }
}

/// Checks a global, export, element or data section, whose entries the
/// module does not keep.
pub fn check_section(id: u8, payload: &[u8]) -> (r: Result<(), DecodeError>)
    requires
        id == 6 || id == 7 || id == 9 || id == 11,
    ensures
        r == spec_checked_section(id, payload@),
{
    let (n, p0) = read_u32(payload, 0)?;
    let mut p: usize = p0;
    let mut i: u32 = 0;
    while i < n
        invariant
            p <= payload.len(),
            i <= n,
            id == 6 || id == 7 || id == 9 || id == 11,
            spec_u32(payload@, 0) == Ok::<(nat, int), DecodeError>((n as nat, p0 as int)),
            spec_entries(id, payload@, p0 as int, n as nat) == spec_entries(id, payload@, p as int, (n - i) as nat),
        decreases n - i,
    {
        p = skip_entry(id, payload, p)?;
        i = i + 1;
    }
    if p != payload.len() {
        return Err(DecodeError::TruncatedSection);
    }
    Ok(())
}

} // verus!
