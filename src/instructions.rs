use vstd::prelude::*;

use crate::error::ClassError;
use crate::read::be_value;

verus! {

/// A decoded instruction of the supported subset, carrying its inline operands.
///
/// Branch offsets are signed and relative to the start of the branching instruction.
#[derive(Debug, Clone, Copy, PartialEq, Eq, Structural)]
pub enum Instruction {
    Nop,
    AConstNull,
    IConstM1,
    IConst0,
    IConst1,
    IConst2,
    IConst3,
    IConst4,
    IConst5,
    LConst0,
    LConst1,
    FConst0,
    FConst1,
    FConst2,
    /// Push a loadable constant; the operand is a one-byte pool index.
    Ldc(u8),
    /// Push a loadable constant; the operand is a two-byte pool index.
    Ldc2W(u16),
    ILoad0,
    ILoad1,
    ILoad2,
    ILoad3,
    LLoad1,
    ALoad0,
    ALoad1,
    IStore1,
    Dup,
    IAdd,
    LAdd,
    IfACmpNe(i16),
    Goto(i16),
    IReturn,
    LReturn,
    FReturn,
    DReturn,
    AReturn,
    Return,
    InvokeSpecial(u16),
    InvokeStatic(u16),
}

/// Number of bytes an instruction occupies in a code block, operands included.
pub open spec fn width_of(i: Instruction) -> nat {
    match i {
        Instruction::Ldc(_) => 2,
        Instruction::Ldc2W(_) | Instruction::IfACmpNe(_) | Instruction::Goto(_)
        | Instruction::InvokeSpecial(_) | Instruction::InvokeStatic(_) => 3,
        _ => 1,
    }
}

/// Total byte length of an instruction sequence.
pub open spec fn code_width(code: Seq<Instruction>) -> nat
    decreases code.len(),
{
    if code.len() == 0 {
        0
    } else {
        code_width(code.drop_last()) + width_of(code.last())
    }
}

/// The instruction without operands that an opcode byte denotes, if any.
pub open spec fn simple_opcode(op: u8) -> Option<Instruction> {
    if op == 0 { Some(Instruction::Nop) }
    else if op == 1 { Some(Instruction::AConstNull) }
    else if op == 2 { Some(Instruction::IConstM1) }
    else if op == 3 { Some(Instruction::IConst0) }
    else if op == 4 { Some(Instruction::IConst1) }
    else if op == 5 { Some(Instruction::IConst2) }
    else if op == 6 { Some(Instruction::IConst3) }
    else if op == 7 { Some(Instruction::IConst4) }
    else if op == 8 { Some(Instruction::IConst5) }
    else if op == 9 { Some(Instruction::LConst0) }
    else if op == 10 { Some(Instruction::LConst1) }
    else if op == 11 { Some(Instruction::FConst0) }
    else if op == 12 { Some(Instruction::FConst1) }
    else if op == 13 { Some(Instruction::FConst2) }
    else if op == 26 { Some(Instruction::ILoad0) }
    else if op == 27 { Some(Instruction::ILoad1) }
    else if op == 28 { Some(Instruction::ILoad2) }
    else if op == 29 { Some(Instruction::ILoad3) }
    else if op == 31 { Some(Instruction::LLoad1) }
    else if op == 42 { Some(Instruction::ALoad0) }
    else if op == 43 { Some(Instruction::ALoad1) }
    else if op == 60 { Some(Instruction::IStore1) }
    else if op == 89 { Some(Instruction::Dup) }
    else if op == 96 { Some(Instruction::IAdd) }
    else if op == 97 { Some(Instruction::LAdd) }
    else if op == 172 { Some(Instruction::IReturn) }
    else if op == 173 { Some(Instruction::LReturn) }
    else if op == 174 { Some(Instruction::FReturn) }
    else if op == 175 { Some(Instruction::DReturn) }
    else if op == 176 { Some(Instruction::AReturn) }
    else if op == 177 { Some(Instruction::Return) }
    else { None }
}

/// Whether an opcode byte takes a two-byte operand.
pub open spec fn wide_opcode(op: u8) -> bool {
    op == 20 || op == 166 || op == 167 || op == 183 || op == 184
}

/// The instruction that starts at `pos` of a code block.
pub open spec fn decode_at(code: Seq<u8>, pos: int) -> Result<Instruction, ClassError>
    recommends
        0 <= pos < code.len(),
{
    let op = code[pos];
    if simple_opcode(op) is Some {
        Ok(simple_opcode(op)->0)
    } else if op == 18 {
        if pos + 2 <= code.len() {
            Ok(Instruction::Ldc(code[pos + 1]))
        } else {
            Err(ClassError::UnexpectedEof)
        }
    } else if wide_opcode(op) {
        if pos + 3 <= code.len() {
            let v = be_value(code, pos + 1, 2);
            if op == 20 {
                Ok(Instruction::Ldc2W(v as u16))
            } else if op == 166 {
                Ok(Instruction::IfACmpNe(v as i16))
            } else if op == 167 {
                Ok(Instruction::Goto(v as i16))
            } else if op == 183 {
                Ok(Instruction::InvokeSpecial(v as u16))
            } else {
                Ok(Instruction::InvokeStatic(v as u16))
            }
        } else {
            Err(ClassError::UnexpectedEof)
        }
    } else {
        Err(ClassError::UnknownOpcode(op))
    }
}

/// The instructions of a code block from `pos` on, or the first decoding error.
pub open spec fn decode_from(code: Seq<u8>, pos: int) -> Result<Seq<Instruction>, ClassError>
    decreases code.len() - pos,
{
    if pos < 0 || pos >= code.len() {
        Ok(Seq::empty())
    } else {
        match decode_at(code, pos) {
            Err(e) => Err(e),
            Ok(i) => match decode_from(code, pos + width_of(i)) {
                Err(e) => Err(e),
                Ok(rest) => Ok(seq![i].add(rest)),
            },
        }
    }
}

impl Instruction {
    /// Number of bytes the instruction occupies, operands included.
    pub fn get_width(&self) -> (r: usize)
        ensures
            r == width_of(*self),
    {
        match self {
            Instruction::Ldc(_) => 2,
            Instruction::Ldc2W(_) | Instruction::IfACmpNe(_) | Instruction::Goto(_)
            | Instruction::InvokeSpecial(_) | Instruction::InvokeStatic(_) => 3,
            _ => 1,
        }
    }
}

/// Decodes the instruction that starts at `pos`.
pub fn decode_instruction(code: &[u8], pos: usize) -> (r: Result<Instruction, ClassError>)
    requires
        pos < code@.len(),
    ensures
        r == decode_at(code@, pos as int),
{
    let op = code[pos];
    let simple = match op {
        0 => Some(Instruction::Nop),
        1 => Some(Instruction::AConstNull),
        2 => Some(Instruction::IConstM1),
        3 => Some(Instruction::IConst0),
        4 => Some(Instruction::IConst1),
        5 => Some(Instruction::IConst2),
        6 => Some(Instruction::IConst3),
        7 => Some(Instruction::IConst4),
        8 => Some(Instruction::IConst5),
        9 => Some(Instruction::LConst0),
        10 => Some(Instruction::LConst1),
        11 => Some(Instruction::FConst0),
        12 => Some(Instruction::FConst1),
        13 => Some(Instruction::FConst2),
        26 => Some(Instruction::ILoad0),
        27 => Some(Instruction::ILoad1),
        28 => Some(Instruction::ILoad2),
        29 => Some(Instruction::ILoad3),
        31 => Some(Instruction::LLoad1),
        42 => Some(Instruction::ALoad0),
        43 => Some(Instruction::ALoad1),
        60 => Some(Instruction::IStore1),
        89 => Some(Instruction::Dup),
        96 => Some(Instruction::IAdd),
        97 => Some(Instruction::LAdd),
        172 => Some(Instruction::IReturn),
        173 => Some(Instruction::LReturn),
        174 => Some(Instruction::FReturn),
        175 => Some(Instruction::DReturn),
        176 => Some(Instruction::AReturn),
        177 => Some(Instruction::Return),
        _ => None,
    };
    if let Some(i) = simple {
        return Ok(i);
    }
    if op == 18 {
        if pos + 1 < code.len() {
            return Ok(Instruction::Ldc(code[pos + 1]));
        }
        return Err(ClassError::UnexpectedEof);
    }
    if op == 20 || op == 166 || op == 167 || op == 183 || op == 184 {
        if code.len() - pos < 3 {
            return Err(ClassError::UnexpectedEof);
        }
        let v: u16 = (code[pos + 1] as u16) * 256 + code[pos + 2] as u16;
        proof {
            reveal_with_fuel(be_value, 3);
        }
        if op == 20 {
            Ok(Instruction::Ldc2W(v))
        } else if op == 166 {
            Ok(Instruction::IfACmpNe(#[verifier::truncate] (v as i16)))
        } else if op == 167 {
            Ok(Instruction::Goto(#[verifier::truncate] (v as i16)))
        } else if op == 183 {
            Ok(Instruction::InvokeSpecial(v))
        } else {
            Ok(Instruction::InvokeStatic(v))
        }
    } else {
        Err(ClassError::UnknownOpcode(op))
    }
}

/// Decodes a whole code block into its instructions.
///
/// Fails with `UnknownOpcode` on a byte outside the supported set and with
/// `UnexpectedEof` on an instruction whose operands run past the block. On success
/// the widths of the instructions add up to the length of the block.
pub fn parse_code(block: &[u8]) -> (r: Result<Vec<Instruction>, ClassError>)
    ensures
        r matches Ok(v) ==> decode_from(block@, 0) == Ok::<Seq<Instruction>, ClassError>(v@),
        r matches Err(e) ==> decode_from(block@, 0) == Err::<Seq<Instruction>, ClassError>(e),
        r matches Ok(v) ==> code_width(v@) == block@.len(),
{
    let mut out: Vec<Instruction> = Vec::new();
    let mut pos: usize = 0;
    while pos < block.len()
        invariant
            pos <= block@.len(),
            code_width(out@) == pos,
            forall|tail: Seq<Instruction>|
                decode_from(block@, pos as int) == Ok::<Seq<Instruction>, ClassError>(tail)
                    ==> decode_from(block@, 0) == Ok::<Seq<Instruction>, ClassError>(out@ + tail),
            forall|e: ClassError|
                decode_from(block@, pos as int) == Err::<Seq<Instruction>, ClassError>(e)
                    ==> decode_from(block@, 0) == Err::<Seq<Instruction>, ClassError>(e),
        decreases block@.len() - pos,
    {
        let ins = decode_instruction(block, pos);
        match ins {
            Err(e) => {
                return Err(e);
            },
            Ok(i) => {
                let w = i.get_width();
                proof {
                    let old_out = out@;
                    assert forall|tail: Seq<Instruction>|
                        decode_from(block@, (pos + w) as int) == Ok::<Seq<Instruction>, ClassError>(tail)
                        implies decode_from(block@, 0) == Ok::<Seq<Instruction>, ClassError>(
                        old_out.push(i) + tail) by {
                        assert(decode_from(block@, pos as int) == Ok::<Seq<Instruction>, ClassError>(
                            seq![i] + tail));
                        assert(old_out + (seq![i] + tail) =~= old_out.push(i) + tail);
                    }
                    assert(old_out.push(i).drop_last() =~= old_out);
                }
                out.push(i);
                pos = pos + w;
            },
        }
    }
    proof {
        assert(out@ + Seq::<Instruction>::empty() =~= out@);
    }
    Ok(out)
}

/// The width of a sequence with one instruction put in front.
pub proof fn lemma_code_width_prepend(i: Instruction, rest: Seq<Instruction>)
    ensures
        code_width(seq![i] + rest) == width_of(i) + code_width(rest),
    decreases rest.len(),
{
    let c = seq![i] + rest;
    if rest.len() > 0 {
        lemma_code_width_prepend(i, rest.drop_last());
        assert(c.drop_last() =~= seq![i] + rest.drop_last());
        assert(c.last() == rest.last());
        assert(code_width(c) == code_width(c.drop_last()) + width_of(c.last()));
        assert(code_width(rest) == code_width(rest.drop_last()) + width_of(rest.last()));
    } else {
        assert(c.drop_last() =~= Seq::<Instruction>::empty());
        assert(rest =~= Seq::<Instruction>::empty());
        assert(code_width(c) == code_width(c.drop_last()) + width_of(c.last()));
        assert(code_width(Seq::<Instruction>::empty()) == 0);
    }
}

/// Decoding from `pos` yields instructions whose widths add up to the bytes left.
pub proof fn lemma_decode_width(s: Seq<u8>, pos: int)
    requires
        0 <= pos <= s.len(),
    ensures
        decode_from(s, pos) matches Ok(v) ==> code_width(v) == s.len() - pos,
    decreases s.len() - pos,
{
    if pos < s.len() {
        if let Ok(i) = decode_at(s, pos) {
            lemma_decode_width(s, pos + width_of(i));
            if let Ok(rest) = decode_from(s, pos + width_of(i)) {
                lemma_code_width_prepend(i, rest);
            }
        }
    }
}

} // verus!
