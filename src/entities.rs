use vstd::prelude::*;
use crate::error::DecodeError;
use crate::model::{FuncType, ImportDesc, Limits, MemoryInfo, TableInfo, ValueType};
use crate::reader::{read_byte, read_u32, spec_byte, spec_u32};

verus! {

/// The one-byte encoding of each value type.
pub open spec fn value_type_of(b: u8) -> Option<ValueType> {
    if b == 0x7f {
        Some(ValueType::I32)
    } else if b == 0x7e {
        Some(ValueType::I64)
    } else if b == 0x7d {
        Some(ValueType::F32)
    } else if b == 0x7c {
        Some(ValueType::F64)
    } else {
        None
    }
}

/// A value type byte at `pos`.
pub open spec fn spec_value_type(s: Seq<u8>, pos: int) -> Result<(ValueType, int), DecodeError> {
    match spec_byte(s, pos) {
        Ok((b, p)) => match value_type_of(b) {
            Some(t) => Ok((t, p)),
            None => Err(DecodeError::InvalidForm),
        },
        Err(e) => Err(e),
    }
}

/// `n` value type bytes in a row.
pub open spec fn spec_value_types(s: Seq<u8>, pos: int, n: nat) -> Result<(Seq<ValueType>, int), DecodeError>
    decreases n,
{
    if n == 0 {
        Ok((Seq::empty(), pos))
    } else {
        match spec_value_type(s, pos) {
            Ok((t, p)) => match spec_value_types(s, p, (n - 1) as nat) {
                Ok((ts, e)) => Ok((seq![t] + ts, e)),
                Err(e) => Err(e),
            },
            Err(e) => Err(e),
        }
    }
}

/// A counted vector of value types.
pub open spec fn spec_value_type_vec(s: Seq<u8>, pos: int) -> Result<(Seq<ValueType>, int), DecodeError> {
    match spec_u32(s, pos) {
        Ok((n, p)) => spec_value_types(s, p, n),
        Err(e) => Err(e),
    }
}

/// A function type entry: the form marker 0x60, the parameter types and the
/// result types; more than one result is not supported.
pub open spec fn spec_func_type(s: Seq<u8>, pos: int) -> Result<(Seq<ValueType>, Seq<ValueType>, int), DecodeError> {
    match spec_byte(s, pos) {
        Ok((form, p)) => if form != 0x60 {
            Err(DecodeError::InvalidForm)
        } else {
            match spec_value_type_vec(s, p) {
                Ok((params, q)) => match spec_value_type_vec(s, q) {
                    Ok((results, e)) => if results.len() > 1 {
                        Err(DecodeError::UnsupportedFeature)
                    } else {
                        Ok((params, results, e))
                    },
                    Err(e) => Err(e),
                },
                Err(e) => Err(e),
            }
        },
        Err(e) => Err(e),
    }
}

/// A limits structure: a flag byte, the initial size and, when the flag is
/// 1, the maximum, which may not be below the initial size.
pub open spec fn spec_limits(s: Seq<u8>, pos: int) -> Result<(Limits, int), DecodeError> {
    match spec_byte(s, pos) {
        Ok((flag, p)) => if flag > 1 {
            Err(DecodeError::InvalidForm)
        } else {
            match spec_u32(s, p) {
                Ok((initial, q)) => if flag == 0 {
                    Ok((Limits { initial: initial as u32, maximum: None }, q))
                } else {
                    match spec_u32(s, q) {
                        Ok((maximum, e)) => if maximum < initial {
                            Err(DecodeError::InvalidForm)
                        } else {
                            Ok((Limits { initial: initial as u32, maximum: Some(maximum as u32) }, e))
                        },
                        Err(e) => Err(e),
                    }
                },
                Err(e) => Err(e),
            }
        },
        Err(e) => Err(e),
    }
}

/// A table type: the element type 0x70 followed by limits.
pub open spec fn spec_table(s: Seq<u8>, pos: int) -> Result<(TableInfo, int), DecodeError> {
    match spec_byte(s, pos) {
        Ok((elem, p)) => if elem != 0x70 {
            Err(DecodeError::InvalidForm)
        } else {
            match spec_limits(s, p) {
                Ok((l, e)) => Ok((TableInfo { limits: l }, e)),
                Err(e) => Err(e),
            }
        },
        Err(e) => Err(e),
    }
}

/// A global type: a value type and a mutability byte, 0 or 1.
pub open spec fn spec_global_type(s: Seq<u8>, pos: int) -> Result<(ValueType, bool, int), DecodeError> {
    match spec_value_type(s, pos) {
        Ok((t, p)) => match spec_byte(s, p) {
            Ok((m, e)) => if m > 1 {
                Err(DecodeError::InvalidForm)
            } else {
                Ok((t, m == 1, e))
            },
            Err(e) => Err(e),
        },
        Err(e) => Err(e),
    }
}

/// A run of value types takes one byte each, and each byte is read through
/// the value type table.
pub proof fn lemma_value_types_tags(s: Seq<u8>, pos: int, n: nat)
    ensures
        spec_value_types(s, pos, n) matches Ok((ts, e)) ==> ts.len() == n && e == pos + n && forall|j: int|
            0 <= j < n ==> value_type_of(s[pos + j]) == Some(#[trigger] ts[j]),
    decreases n,
{
    if n > 0 {
        if let Ok((t, p)) = spec_value_type(s, pos) {
            lemma_value_types_tags(s, p, (n - 1) as nat);
            if let Ok((ts, e)) = spec_value_types(s, pos, n) {
                let rest = spec_value_types(s, p, (n - 1) as nat)->Ok_0.0;
                assert forall|j: int| 0 <= j < n implies value_type_of(s[pos + j]) == Some(#[trigger] ts[j]) by {
                    if j > 0 {
                        assert(ts[j] == rest[j - 1]);
                        assert(s[pos + j] == s[p + (j - 1)]);
                    }
                }
            }
        }
    }
}

/// Every function type entry decodes its parameter and result types with
/// the lengths that the entry declares, and each type is the table's
/// reading of its byte: 0x7f `I32`, 0x7e `I64`, 0x7d `F32`, 0x7c `F64`.
pub proof fn lemma_func_type_tags(s: Seq<u8>, pos: int)
    ensures
        spec_func_type(s, pos) matches Ok((params, results, e)) ==> {
            &&& s[pos] == 0x60
            &&& spec_u32(s, pos + 1) matches Ok((np, q)) && params.len() == np && (forall|j: int|
                0 <= j < np ==> value_type_of(s[q + j]) == Some(#[trigger] params[j])) && (spec_u32(s, q + np) matches Ok((
                nr,
                t,
            )) && results.len() == nr && e == t + nr && (forall|j: int|
                0 <= j < nr ==> value_type_of(s[t + j]) == Some(#[trigger] results[j])))
        },
{
    if let Ok((params, results, e)) = spec_func_type(s, pos) {
        let (np, q) = spec_u32(s, pos + 1)->Ok_0;
        lemma_value_types_tags(s, q, np);
        let (nr, t) = spec_u32(s, q + np)->Ok_0;
        lemma_value_types_tags(s, t, nr);
    }
}

/// Reads one value type byte.
pub fn read_value_type(bytes: &[u8], pos: usize) -> (r: Result<(ValueType, usize), DecodeError>)
    ensures
        match r {
            Ok((t, e)) => spec_value_type(bytes@, pos as int) == Ok::<(ValueType, int), DecodeError>((t, e as int)),
            Err(e) => spec_value_type(bytes@, pos as int) == Err::<(ValueType, int), DecodeError>(e),
        },
        r matches Ok((_, e)) ==> pos < e <= bytes.len(),
{
    let (b, p) = read_byte(bytes, pos)?;
    if b == 0x7f {
        Ok((ValueType::I32, p))
    } else if b == 0x7e {
        Ok((ValueType::I64, p))
    } else if b == 0x7d {
        Ok((ValueType::F32, p))
    } else if b == 0x7c {
        Ok((ValueType::F64, p))
    } else {
        Err(DecodeError::InvalidForm)
    }
}

/// Reads a counted vector of value types.
pub fn read_value_type_vec(bytes: &[u8], pos: usize) -> (r: Result<(Vec<ValueType>, usize), DecodeError>)
    ensures
        match r {
            Ok((ts, e)) => spec_value_type_vec(bytes@, pos as int) == Ok::<(Seq<ValueType>, int), DecodeError>((ts@, e as int)),
            Err(e) => spec_value_type_vec(bytes@, pos as int) == Err::<(Seq<ValueType>, int), DecodeError>(e),
        },
        r matches Ok((_, e)) ==> pos < e <= bytes.len(),
{
    let (n, p0) = read_u32(bytes, pos)?;
    let mut acc: Vec<ValueType> = Vec::new();
    let mut p: usize = p0;
    let mut i: u32 = 0;
    while i < n
        invariant
            i <= n,
            pos < p <= bytes.len(),
            spec_u32(bytes@, pos as int) == Ok::<(nat, int), DecodeError>((n as nat, p0 as int)),
            spec_value_types(bytes@, p0 as int, n as nat) == match spec_value_types(bytes@, p as int, (n - i) as nat) {
                Ok((ts, e)) => Ok((acc@ + ts, e)),
                Err(e) => Err::<(Seq<ValueType>, int), DecodeError>(e),
            },
        decreases n - i,
    {
        let (t, q) = read_value_type(bytes, p)?;
        proof {
            let rest = spec_value_types(bytes@, q as int, (n - i - 1) as nat);
            if let Ok((ts, e)) = rest {
                assert(acc@.push(t) + ts =~= acc@ + (seq![t] + ts));
            }
        }
        acc.push(t);
        p = q;
        i = i + 1;
    }
    proof {
        assert(acc@ + Seq::<ValueType>::empty() =~= acc@);
    }
    Ok((acc, p))
}

/// Reads one function type entry.
pub fn read_func_type(bytes: &[u8], pos: usize) -> (r: Result<(FuncType, usize), DecodeError>)
    ensures
        match r {
            Ok((ft, e)) => spec_func_type(bytes@, pos as int) == Ok::<(Seq<ValueType>, Seq<ValueType>, int), DecodeError>((ft.params@, ft.results@, e as int)),
            Err(e) => spec_func_type(bytes@, pos as int) == Err::<(Seq<ValueType>, Seq<ValueType>, int), DecodeError>(e),
        },
        r matches Ok((_, e)) ==> pos < e <= bytes.len(),
{
    let (form, p) = read_byte(bytes, pos)?;
    if form != 0x60 {
        return Err(DecodeError::InvalidForm);
    }
    let (params, q) = read_value_type_vec(bytes, p)?;
    let (results, e) = read_value_type_vec(bytes, q)?;
    if results.len() > 1 {
        return Err(DecodeError::UnsupportedFeature);
    }
    Ok((FuncType { params, results }, e))
}

/// Reads a limits structure.
pub fn read_limits(bytes: &[u8], pos: usize) -> (r: Result<(Limits, usize), DecodeError>)
    ensures
        match r {
            Ok((l, e)) => spec_limits(bytes@, pos as int) == Ok::<(Limits, int), DecodeError>((l, e as int)),
            Err(e) => spec_limits(bytes@, pos as int) == Err::<(Limits, int), DecodeError>(e),
        },
        r matches Ok((_, e)) ==> pos < e <= bytes.len(),
{
    let (flag, p) = read_byte(bytes, pos)?;
    if flag > 1 {
        return Err(DecodeError::InvalidForm);
    }
    let (initial, q) = read_u32(bytes, p)?;
    if flag == 0 {
        Ok((Limits { initial, maximum: None }, q))
    } else {
        let (maximum, e) = read_u32(bytes, q)?;
        if maximum < initial {
            return Err(DecodeError::InvalidForm);
        }
        Ok((Limits { initial, maximum: Some(maximum) }, e))
    }
}

/// Reads a table type.
pub fn read_table(bytes: &[u8], pos: usize) -> (r: Result<(TableInfo, usize), DecodeError>)
    ensures
        match r {
            Ok((t, e)) => spec_table(bytes@, pos as int) == Ok::<(TableInfo, int), DecodeError>((t, e as int)),
            Err(e) => spec_table(bytes@, pos as int) == Err::<(TableInfo, int), DecodeError>(e),
        },
        r matches Ok((_, e)) ==> pos < e <= bytes.len(),
{
    let (elem, p) = read_byte(bytes, pos)?;
    if elem != 0x70 {
        return Err(DecodeError::InvalidForm);
    }
    let (limits, e) = read_limits(bytes, p)?;
    Ok((TableInfo { limits }, e))
}

/// Reads a memory type.
pub fn read_memory(bytes: &[u8], pos: usize) -> (r: Result<(MemoryInfo, usize), DecodeError>)
    ensures
        match r {
            Ok((m, e)) => spec_limits(bytes@, pos as int) == Ok::<(Limits, int), DecodeError>((m.limits, e as int)),
            Err(e) => spec_limits(bytes@, pos as int) == Err::<(Limits, int), DecodeError>(e),
        },
        r matches Ok((_, e)) ==> pos < e <= bytes.len(),
{
    let (limits, e) = read_limits(bytes, pos)?;
    Ok((MemoryInfo { limits }, e))
}

/// Reads a global type.
pub fn read_global_type(bytes: &[u8], pos: usize) -> (r: Result<(ImportDesc, usize), DecodeError>)
    ensures
        match r {
            Ok((d, e)) => exists|t: ValueType, m: bool| d == (ImportDesc::Global { ty: t, mutable: m })
                && spec_global_type(bytes@, pos as int) == Ok::<(ValueType, bool, int), DecodeError>((t, m, e as int)),
            Err(e) => spec_global_type(bytes@, pos as int) == Err::<(ValueType, bool, int), DecodeError>(e),
        },
        r matches Ok((_, e)) ==> pos < e <= bytes.len(),
{
    let (ty, p) = read_value_type(bytes, pos)?;
    let (m, e) = read_byte(bytes, p)?;
    if m > 1 {
        return Err(DecodeError::InvalidForm);
    }
    Ok((ImportDesc::Global { ty, mutable: m == 1 }, e))
}

} // verus!
