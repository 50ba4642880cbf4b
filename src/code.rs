use vstd::prelude::*;
use crate::entities::{read_value_type, spec_value_type, value_type_of};
use crate::error::DecodeError;
use crate::model::{LocalInfo, Operator};
use crate::reader::{read_byte, read_bytes, read_s32, read_s64, read_u32, spec_byte, spec_s32, spec_s64, spec_u32};

verus! {

/// Opcodes that carry no immediate operand.
pub open spec fn is_plain_opcode(op: u8) -> bool {
    op == 0x00 || op == 0x01 || op == 0x05 || op == 0x0b || op == 0x0f || op == 0x1a || op == 0x1b
        || (0x45 <= op <= 0xc4)
}

/// Opcodes whose immediate operand shape the decoder knows.
pub open spec fn is_known_opcode(op: u8) -> bool {
    is_plain_opcode(op) || (0x02 <= op <= 0x04) || (0x0c <= op <= 0x0e) || op == 0x10 || op == 0x11
        || (0x20 <= op <= 0x24) || (0x28 <= op <= 0x44)
}

/// An instruction as a mathematical value.
pub enum OperatorView {
    Simple { opcode: u8 },
    Block { opcode: u8, block_type: u8 },
    Index { opcode: u8, index: u32 },
    BrTable { targets: Seq<u32>, default: u32 },
    CallIndirect { type_index: u32 },
    Memory { opcode: u8, align: u32, offset: u32 },
    I32Const(i32),
    I64Const(i64),
    Opaque { opcode: u8, immediate: Seq<u8> },
}

/// The mathematical value of an instruction.
pub open spec fn operator_view(o: Operator) -> OperatorView {
    match o {
        Operator::Simple { opcode } => OperatorView::Simple { opcode },
        Operator::Block { opcode, block_type } => OperatorView::Block { opcode, block_type },
        Operator::Index { opcode, index } => OperatorView::Index { opcode, index },
        Operator::BrTable { targets, default } => OperatorView::BrTable { targets: targets@, default },
        Operator::CallIndirect { type_index } => OperatorView::CallIndirect { type_index },
        Operator::Memory { opcode, align, offset } => OperatorView::Memory { opcode, align, offset },
        Operator::I32Const(v) => OperatorView::I32Const(v),
        Operator::I64Const(v) => OperatorView::I64Const(v),
        Operator::Opaque { opcode, immediate } => OperatorView::Opaque { opcode, immediate: immediate@ },
    }
}

/// `n` 32-bit varints in a row.
pub open spec fn spec_u32s(s: Seq<u8>, pos: int, n: nat) -> Result<(Seq<u32>, int), DecodeError>
    decreases n,
{
    if n == 0 {
        Ok((Seq::empty(), pos))
    } else {
        match spec_u32(s, pos) {
            Ok((v, p)) => match spec_u32s(s, p, (n - 1) as nat) {
                Ok((vs, e)) => Ok((seq![v as u32] + vs, e)),
                Err(e) => Err(e),
            },
            Err(e) => Err(e),
        }
    }
}

/// The immediates of the instruction whose opcode `op` was read, starting
/// at `p`.
pub open spec fn spec_immediates(s: Seq<u8>, op: u8, p: int) -> Result<(OperatorView, int), DecodeError> {
    if is_plain_opcode(op) {
        Ok((OperatorView::Simple { opcode: op }, p))
    } else if 0x02 <= op <= 0x04 {
        match spec_byte(s, p) {
            Ok((bt, e)) => if bt == 0x40 || value_type_of(bt) is Some {
                Ok((OperatorView::Block { opcode: op, block_type: bt }, e))
            } else {
                Err(DecodeError::InvalidForm)
            },
            Err(e) => Err(e),
        }
    } else if op == 0x0c || op == 0x0d || op == 0x10 || (0x20 <= op <= 0x24) {
        match spec_u32(s, p) {
            Ok((index, e)) => Ok((OperatorView::Index { opcode: op, index: index as u32 }, e)),
            Err(e) => Err(e),
        }
    } else if op == 0x0e {
        match spec_u32(s, p) {
            Ok((n, q)) => match spec_u32s(s, q, n) {
                Ok((targets, t)) => match spec_u32(s, t) {
                    Ok((default, e)) => Ok((OperatorView::BrTable { targets, default: default as u32 }, e)),
                    Err(e) => Err(e),
                },
                Err(e) => Err(e),
            },
            Err(e) => Err(e),
        }
    } else if op == 0x11 {
        match spec_u32(s, p) {
            Ok((ti, q)) => match spec_byte(s, q) {
                Ok((reserved, e)) => if reserved == 0 {
                    Ok((OperatorView::CallIndirect { type_index: ti as u32 }, e))
                } else {
                    Err(DecodeError::InvalidForm)
                },
                Err(e) => Err(e),
            },
            Err(e) => Err(e),
        }
    } else if 0x28 <= op <= 0x3e {
        match spec_u32(s, p) {
            Ok((align, q)) => match spec_u32(s, q) {
                Ok((offset, e)) => Ok((OperatorView::Memory { opcode: op, align: align as u32, offset: offset as u32 }, e)),
                Err(e) => Err(e),
            },
            Err(e) => Err(e),
        }
    } else if op == 0x3f || op == 0x40 {
        match spec_byte(s, p) {
            Ok((reserved, e)) => if reserved == 0 {
                Ok((OperatorView::Opaque { opcode: op, immediate: seq![0u8] }, e))
            } else {
                Err(DecodeError::InvalidForm)
            },
            Err(e) => Err(e),
        }
    } else if op == 0x41 {
        match spec_s32(s, p) {
            Ok((v, e)) => Ok((OperatorView::I32Const(v as i32), e)),
            Err(e) => Err(e),
        }
    } else if op == 0x42 {
        match spec_s64(s, p) {
            Ok((v, e)) => Ok((OperatorView::I64Const(v as i64), e)),
            Err(e) => Err(e),
        }
    } else if op == 0x43 || op == 0x44 {
        let width = if op == 0x43 { 4int } else { 8int };
        if p + width <= s.len() {
            Ok((OperatorView::Opaque { opcode: op, immediate: s.subrange(p, p + width) }, p + width))
        } else {
            Err(DecodeError::UnexpectedEof)
        }
    } else {
        Err(DecodeError::UnknownOpcodeImmediateShape)
    }
}

/// One instruction at `pos`: its opcode byte, then its immediates.
pub open spec fn spec_operator(s: Seq<u8>, pos: int) -> Result<(OperatorView, int), DecodeError> {
    match spec_byte(s, pos) {
        Ok((op, p)) => spec_immediates(s, op, p),
        Err(e) => Err(e),
    }
}

/// Reads one instruction with its immediates. An opcode whose immediate
/// shape is unknown is refused, since guessing its width would misread every
/// instruction after it.
pub fn read_operator(bytes: &[u8], pos: usize) -> (r: Result<(Operator, usize), DecodeError>)
    ensures
        match r {
            Ok((o, e)) => spec_operator(bytes@, pos as int) == Ok::<(OperatorView, int), DecodeError>((operator_view(o), e as int)),
            Err(e) => spec_operator(bytes@, pos as int) == Err::<(OperatorView, int), DecodeError>(e),
        },
        pos < bytes.len() && !is_known_opcode(bytes@[pos as int]) ==> r == Err::<(Operator, usize), DecodeError>(
            DecodeError::UnknownOpcodeImmediateShape,
        ),
        r matches Ok((_, e)) ==> pos < e <= bytes.len(),
{
    let (op, p) = read_byte(bytes, pos)?;
    if op == 0x00 || op == 0x01 || op == 0x05 || op == 0x0b || op == 0x0f || op == 0x1a || op == 0x1b
        || (0x45 <= op && op <= 0xc4) {
        Ok((Operator::Simple { opcode: op }, p))
    } else if 0x02 <= op && op <= 0x04 {
        let (bt, e) = read_byte(bytes, p)?;
        if bt != 0x40 && bt != 0x7f && bt != 0x7e && bt != 0x7d && bt != 0x7c {
            return Err(DecodeError::InvalidForm);
        }
        Ok((Operator::Block { opcode: op, block_type: bt }, e))
    } else if op == 0x0c || op == 0x0d || op == 0x10 || (0x20 <= op && op <= 0x24) {
        let (index, e) = read_u32(bytes, p)?;
        Ok((Operator::Index { opcode: op, index }, e))
    } else if op == 0x0e {
        let (n, p0) = read_u32(bytes, p)?;
        let mut targets: Vec<u32> = Vec::new();
        let mut q: usize = p0;
        let mut i: u32 = 0;
        while i < n
            invariant
                pos < q <= bytes.len(),
                i <= n,
                pos < bytes.len(),
                bytes@[pos as int] == 0x0e,
                p == pos + 1,
                spec_u32(bytes@, p as int) == Ok::<(nat, int), DecodeError>((n as nat, p0 as int)),
                spec_u32s(bytes@, p0 as int, n as nat) == match spec_u32s(bytes@, q as int, (n - i) as nat) {
                    Ok((vs, e)) => Ok((targets@ + vs, e)),
                    Err(e) => Err::<(Seq<u32>, int), DecodeError>(e),
                },
            decreases n - i,
        {
            let (t, q2) = read_u32(bytes, q)?;
            proof {
                if let Ok((vs, e)) = spec_u32s(bytes@, q2 as int, (n - i - 1) as nat) {
                    assert(targets@.push(t) + vs =~= targets@ + (seq![t] + vs));
                }
            }
            targets.push(t);
            q = q2;
            i = i + 1;
        }
        proof {
            assert(targets@ + Seq::<u32>::empty() =~= targets@);
        }
        let (default, e) = read_u32(bytes, q)?;
        Ok((Operator::BrTable { targets, default }, e))
    } else if op == 0x11 {
        let (type_index, q) = read_u32(bytes, p)?;
        let (reserved, e) = read_byte(bytes, q)?;
        if reserved != 0 {
            return Err(DecodeError::InvalidForm);
        }
        Ok((Operator::CallIndirect { type_index }, e))
    } else if 0x28 <= op && op <= 0x3e {
        let (align, q) = read_u32(bytes, p)?;
        let (offset, e) = read_u32(bytes, q)?;
        Ok((Operator::Memory { opcode: op, align, offset }, e))
    } else if op == 0x3f || op == 0x40 {
        let (reserved, e) = read_byte(bytes, p)?;
        if reserved != 0 {
            return Err(DecodeError::InvalidForm);
        }
        let immediate: Vec<u8> = vec![reserved];
        proof {
            assert(immediate@ =~= seq![0u8]);
        }
        Ok((Operator::Opaque { opcode: op, immediate }, e))
    } else if op == 0x41 {
        let (v, e) = read_s32(bytes, p)?;
        Ok((Operator::I32Const(v), e))
    } else if op == 0x42 {
        let (v, e) = read_s64(bytes, p)?;
        Ok((Operator::I64Const(v), e))
    } else if op == 0x43 {
        let (raw, e) = read_bytes(bytes, p, 4)?;
        Ok((Operator::Opaque { opcode: op, immediate: raw }, e))
    } else if op == 0x44 {
        let (raw, e) = read_bytes(bytes, p, 8)?;
        Ok((Operator::Opaque { opcode: op, immediate: raw }, e))
    } else {
        Err(DecodeError::UnknownOpcodeImmediateShape)
    }
}

/// The instruction closes the body or a block.
pub open spec fn is_end(o: Operator) -> bool {
    o matches Operator::Simple { opcode } && opcode == 0x0b
}

/// `n` local groups in a row: a count, then a value type.
pub open spec fn spec_locals(s: Seq<u8>, pos: int, n: nat) -> Result<(Seq<LocalInfo>, int), DecodeError>
    decreases n,
{
    if n == 0 {
        Ok((Seq::empty(), pos))
    } else {
        match spec_u32(s, pos) {
            Ok((count, p)) => match spec_value_type(s, p) {
                Ok((ty, q)) => match spec_locals(s, q, (n - 1) as nat) {
                    Ok((ls, e)) => Ok((seq![LocalInfo { count: count as u32, ty }] + ls, e)),
                    Err(e) => Err(e),
                },
                Err(e) => Err(e),
            },
            Err(e) => Err(e),
        }
    }
}

/// The local declarations that open a body: a count of groups, then the
/// groups.
pub open spec fn spec_body_locals(s: Seq<u8>) -> Result<(Seq<LocalInfo>, int), DecodeError> {
    match spec_u32(s, 0) {
        Ok((n, p)) => spec_locals(s, p, n),
        Err(e) => Err(e),
    }
}

/// Instructions from `pos` up to and including the `end` that closes the
/// body, with `depth` blocks open.
pub open spec fn spec_ops(s: Seq<u8>, pos: int, depth: nat) -> Result<(Seq<OperatorView>, int), DecodeError>
    decreases s.len() - pos,
{
    match spec_operator(s, pos) {
        Ok((o, e)) => if e <= pos || e > s.len() {
            Err(DecodeError::UnexpectedEof)
        } else if o is Block {
            match spec_ops(s, e, depth + 1) {
                Ok((os, f)) => Ok((seq![o] + os, f)),
                Err(err) => Err(err),
            }
        } else if o == (OperatorView::Simple { opcode: 0x0b }) {
            if depth == 0 {
                Ok((seq![o], e))
            } else {
                match spec_ops(s, e, (depth - 1) as nat) {
                    Ok((os, f)) => Ok((seq![o] + os, f)),
                    Err(err) => Err(err),
                }
            }
        } else {
            match spec_ops(s, e, depth) {
                Ok((os, f)) => Ok((seq![o] + os, f)),
                Err(err) => Err(err),
            }
        },
        Err(e) => Err(e),
    }
}

/// A whole function body: its locals, then its instructions, which must
/// end with the body's bytes.
pub open spec fn spec_body(s: Seq<u8>) -> Result<(Seq<LocalInfo>, Seq<OperatorView>), DecodeError> {
    match spec_body_locals(s) {
        Ok((ls, p)) => match spec_ops(s, p, 0) {
            Ok((os, e)) => if e == s.len() {
                Ok((ls, os))
            } else {
                Err(DecodeError::TruncatedSection)
            },
            Err(e) => Err(e),
        },
        Err(e) => Err(e),
    }
}

/// The mathematical values of a run of instructions.
pub open spec fn operators_view(code: Seq<Operator>) -> Seq<OperatorView> {
    Seq::new(code.len(), |j: int| operator_view(code[j]))
}

/// Reads instructions from `pos` up to and including the `end` that
/// closes the outermost block.
pub fn read_expr(bytes: &[u8], pos: usize) -> (r: Result<(Vec<Operator>, usize), DecodeError>)
    ensures
        match r {
            Ok((code, e)) => spec_ops(bytes@, pos as int, 0) == Ok::<(Seq<OperatorView>, int), DecodeError>(
                (operators_view(code@), e as int),
            ) && code@.len() >= 1 && is_end(code@.last()) && pos < e <= bytes.len(),
            Err(e) => spec_ops(bytes@, pos as int, 0) == Err::<(Seq<OperatorView>, int), DecodeError>(e),
        },
{
    if pos >= bytes.len() {
        return Err(DecodeError::UnexpectedEof);
    }
    let mut p: usize = pos;
    let mut code: Vec<Operator> = Vec::new();
    let mut depth: usize = 0;
    loop
        invariant_except_break
            spec_ops(bytes@, pos as int, 0) == match spec_ops(bytes@, p as int, depth as nat) {
                Ok((os, f)) => Ok((operators_view(code@) + os, f)),
                Err(err) => Err::<(Seq<OperatorView>, int), DecodeError>(err),
            },
        invariant
            pos <= p <= bytes.len(),
            depth <= p - pos,
        ensures
            code@.len() >= 1 && is_end(code@.last()),
            pos < p,
            spec_ops(bytes@, pos as int, 0) == Ok::<(Seq<OperatorView>, int), DecodeError>((operators_view(code@), p as int)),
        decreases bytes.len() - p,
    {
        let ghost before = operators_view(code@);
        let ghost d = depth as nat;
        let ghost p_old = p as int;
        let (o, e) = read_operator(bytes, p)?;
        let ghost ov = operator_view(o);
        let opens = match &o {
            Operator::Block { .. } => true,
            _ => false,
        };
        let closes = match &o {
            Operator::Simple { opcode } => *opcode == 0x0b,
            _ => false,
        };
        code.push(o);
        proof {
            assert(operators_view(code@) =~= before.push(ov));
            assert(opens <==> ov is Block);
            assert(closes <==> ov == (OperatorView::Simple { opcode: 0x0b }));
        }
        p = e;
        if opens {
            proof {
                if let Ok((os, f)) = spec_ops(bytes@, e as int, d + 1) {
                    assert(before.push(ov) + os =~= before + (seq![ov] + os));
                }
            }
            depth = depth + 1;
        } else if closes {
            if depth == 0 {
                proof {
                    assert(spec_ops(bytes@, p_old, 0) == Ok::<(Seq<OperatorView>, int), DecodeError>((seq![ov], e as int)));
                    assert(before + seq![ov] =~= before.push(ov));
                }
                break;
            }
            proof {
                if let Ok((os, f)) = spec_ops(bytes@, e as int, (d - 1) as nat) {
                    assert(before.push(ov) + os =~= before + (seq![ov] + os));
                }
            }
            depth = depth - 1;
        } else {
            proof {
                if let Ok((os, f)) = spec_ops(bytes@, e as int, d) {
                    assert(before.push(ov) + os =~= before + (seq![ov] + os));
                }
            }
        }
    }
    Ok((code, p))
}

/// Reads one function body, given exactly its bytes: the local groups, then
/// instructions up to the `end` that closes the body. The body must end
/// right there.
pub fn read_body(body: &[u8]) -> (r: Result<(Vec<LocalInfo>, Vec<Operator>), DecodeError>)
    ensures
        body@.len() == 0 ==> r is Err,
        match spec_body(body@) {
            Ok((ls, os)) => r matches Ok((locals, code)) && locals@ == ls && operators_view(code@) == os,
            Err(e) => r == Err::<(Vec<LocalInfo>, Vec<Operator>), DecodeError>(e),
        },
        r matches Ok((_, code)) ==> code@.len() >= 1 && is_end(code@.last()),
{
    let (groups, p0) = read_u32(body, 0)?;
    let mut locals: Vec<LocalInfo> = Vec::new();
    let mut p: usize = p0;
    let mut i: u32 = 0;
    while i < groups
        invariant
            p <= body.len(),
            i <= groups,
            spec_u32(body@, 0) == Ok::<(nat, int), DecodeError>((groups as nat, p0 as int)),
            spec_locals(body@, p0 as int, groups as nat) == match spec_locals(body@, p as int, (groups - i) as nat) {
                Ok((ls, e)) => Ok((locals@ + ls, e)),
                Err(e) => Err::<(Seq<LocalInfo>, int), DecodeError>(e),
            },
        decreases groups - i,
    {
        let (count, q) = read_u32(body, p)?;
        let (ty, e) = read_value_type(body, q)?;
        let ghost l = LocalInfo { count, ty };
        proof {
            if let Ok((ls, e2)) = spec_locals(body@, e as int, (groups - i - 1) as nat) {
                assert(locals@.push(l) + ls =~= locals@ + (seq![l] + ls));
            }
        }
        locals.push(LocalInfo { count, ty });
        p = e;
        i = i + 1;
    }
    proof {
        assert(locals@ + Seq::<LocalInfo>::empty() =~= locals@);
    }
    let (code, e) = read_expr(body, p)?;
    if e != body.len() {
        return Err(DecodeError::TruncatedSection);
    }
    Ok((locals, code))
}

} // verus!
