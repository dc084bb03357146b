use vstd::prelude::*;

use crate::attributes::same_bytes;
use crate::class::{code_lookup, method_for, method_ref_spec, Class};
use crate::constants::{constant_value, pool_view, slot, ConstantView};
use crate::error::ClassError;
use crate::instructions::{width_of, Instruction};

verus! {

/// A value carried on the operand stack and in local variables.
///
/// `Float` and `Double` hold the IEEE-754 bit pattern of the value.
#[derive(Debug, Clone, Copy, PartialEq, Eq, Structural)]
pub enum DataType {
    Byte(u8),
    Integer(i32),
    Float(u32),
    Long(i64),
    Double(u64),
    Char(char),
    Bool(bool),
    ReturnAddress,
    Reference,
    Void,
    Placeholder,
}

/// Errors that end the execution of a frame.
#[derive(Debug, Clone, Copy, PartialEq, Eq, Structural)]
pub enum ExecError {
    /// An instruction needed more operands than the stack held.
    StackUnderflow,
    /// An arithmetic instruction found operands of the wrong type.
    TypeMismatch,
    /// A load instruction named a pool index with no slot.
    MissingConstant(usize),
    /// A load instruction named a constant that cannot be loaded.
    NotLoadable(usize),
    /// A local-variable load named a slot that holds nothing.
    LocalOutOfRange(usize),
    /// A branch left the code, or landed inside an instruction.
    BadBranchTarget,
    /// An invocation named a class or method that is not here.
    UnresolvedMethod,
    /// The method selected for execution has no `Code` attribute.
    MissingCode,
    /// Resolving a pool entry failed.
    Constant(ClassError),
    /// The step budget ran out before the method returned.
    OutOfSteps,
}

/// The execution state of one method invocation.
pub struct Frame<'a> {
    pub local_variables: Vec<DataType>,
    pub operand_stack: Vec<DataType>,
    pub class: &'a Class,
    /// Byte offset of the next instruction in the code.
    pub ip: usize,
    pub code: &'a Vec<Instruction>,
    pub method_name: &'a [u8],
}

/// The mutable part of a frame, as values.
pub struct FrameState {
    pub locals: Seq<DataType>,
    pub stack: Seq<DataType>,
    pub ip: int,
}

/// What one instruction does to a frame.
pub enum StepOutcome {
    Continue(FrameState),
    Return(DataType),
    Fault(ExecError),
}

/// What lies at a byte offset of a code sequence.
#[derive(Debug, Clone, Copy, PartialEq, Eq, Structural)]
pub enum Fetch {
    At(Instruction),
    /// The offset is at or past the end of the code.
    End,
    /// The offset falls inside an instruction.
    Misaligned,
}

/// The locals, stack and ip of a frame.
pub open spec fn state_of(f: Frame) -> FrameState {
    FrameState { locals: f.local_variables@, stack: f.operand_stack@, ip: f.ip as int }
}

/// The instruction at byte offset `ip`: instructions are laid end to end, each
/// taking its width.
pub open spec fn fetch_at(code: Seq<Instruction>, ip: int) -> Fetch
    decreases code.len(),
{
    if code.len() == 0 {
        Fetch::End
    } else if ip == 0 {
        Fetch::At(code[0])
    } else if ip < width_of(code[0]) {
        Fetch::Misaligned
    } else {
        fetch_at(code.drop_first(), ip - width_of(code[0]))
    }
}

/// The offset `ip + delta`, if it is a valid offset.
pub open spec fn offset_target(ip: int, delta: int) -> Option<int> {
    if 0 <= ip + delta <= usize::MAX {
        Some(ip + delta)
    } else {
        None
    }
}

/// `st` with its stack and ip replaced.
pub open spec fn with_stack(st: FrameState, stack: Seq<DataType>, ip: int) -> FrameState {
    FrameState { locals: st.locals, stack, ip }
}

/// Pushes `v` and moves past an instruction of width `w`.
pub open spec fn push_next(st: FrameState, v: DataType, w: nat) -> StepOutcome {
    match offset_target(st.ip, w as int) {
        Some(ip) => StepOutcome::Continue(with_stack(st, st.stack.push(v), ip)),
        None => StepOutcome::Fault(ExecError::BadBranchTarget),
    }
}

/// Locals after writing `v` at `n`, padding with `Placeholder` when `n` is past the end.
pub open spec fn store_spec(locals: Seq<DataType>, n: int, v: DataType) -> Seq<DataType> {
    if n < locals.len() {
        locals.update(n, v)
    } else {
        (locals + Seq::new((n - locals.len()) as nat, |i: int| DataType::Placeholder)).push(v)
    }
}

/// Pushes local `n`.
pub open spec fn load_spec(st: FrameState, n: int) -> StepOutcome {
    if 0 <= n < st.locals.len() {
        push_next(st, st.locals[n], 1)
    } else {
        StepOutcome::Fault(ExecError::LocalOutOfRange(n as usize))
    }
}

/// Pushes the constant at pool index `i`.
pub open spec fn ldc_spec(pool: Seq<ConstantView>, st: FrameState, i: int, w: nat) -> StepOutcome {
    match slot(pool, i) {
        None => StepOutcome::Fault(ExecError::MissingConstant(i as usize)),
        Some(c) => match constant_value(c) {
            None => StepOutcome::Fault(ExecError::NotLoadable(i as usize)),
            Some(v) => push_next(st, v, w),
        },
    }
}

/// The effect of every instruction but `invokestatic` on a frame.
///
/// Arithmetic wraps in two's complement. A branch offset counts from the start of
/// the branching instruction.
pub open spec fn step_spec(pool: Seq<ConstantView>, st: FrameState, ins: Instruction) -> StepOutcome {
    let s = st.stack;
    let n = s.len();
    let w = width_of(ins);
    match ins {
        Instruction::Nop | Instruction::InvokeSpecial(_) | Instruction::InvokeStatic(_) => match offset_target(st.ip, w as int) {
            Some(ip) => StepOutcome::Continue(with_stack(st, s, ip)),
            None => StepOutcome::Fault(ExecError::BadBranchTarget),
        },
        Instruction::AConstNull => push_next(st, DataType::Reference, w),
        Instruction::IConstM1 => push_next(st, DataType::Integer(-1i32), w),
        Instruction::IConst0 => push_next(st, DataType::Integer(0i32), w),
        Instruction::IConst1 => push_next(st, DataType::Integer(1i32), w),
        Instruction::IConst2 => push_next(st, DataType::Integer(2i32), w),
        Instruction::IConst3 => push_next(st, DataType::Integer(3i32), w),
        Instruction::IConst4 => push_next(st, DataType::Integer(4i32), w),
        Instruction::IConst5 => push_next(st, DataType::Integer(5i32), w),
        Instruction::LConst0 => push_next(st, DataType::Long(0i64), w),
        Instruction::LConst1 => push_next(st, DataType::Long(1i64), w),
        Instruction::FConst0 => push_next(st, DataType::Float(0u32), w),
        Instruction::FConst1 => push_next(st, DataType::Float(0x3f80_0000u32), w),
        Instruction::FConst2 => push_next(st, DataType::Float(0x4000_0000u32), w),
        Instruction::Ldc(i) => ldc_spec(pool, st, i as int, w),
        Instruction::Ldc2W(i) => ldc_spec(pool, st, i as int, w),
        Instruction::ILoad0 | Instruction::ALoad0 => load_spec(st, 0),
        Instruction::ILoad1 | Instruction::LLoad1 | Instruction::ALoad1 => load_spec(st, 1),
        Instruction::ILoad2 => load_spec(st, 2),
        Instruction::ILoad3 => load_spec(st, 3),
        Instruction::IStore1 => if n == 0 {
            StepOutcome::Fault(ExecError::StackUnderflow)
        } else {
            match offset_target(st.ip, w as int) {
                Some(ip) => StepOutcome::Continue(
                    FrameState { locals: store_spec(st.locals, 1, s.last()), stack: s.drop_last(), ip },
                ),
                None => StepOutcome::Fault(ExecError::BadBranchTarget),
            }
        },
        Instruction::Dup => if n == 0 {
            StepOutcome::Fault(ExecError::StackUnderflow)
        } else {
            push_next(st, s.last(), w)
        },
        Instruction::IAdd => if n < 2 {
            StepOutcome::Fault(ExecError::StackUnderflow)
        } else {
            match (s[n - 1], s[n - 2]) {
                (DataType::Integer(a), DataType::Integer(b)) => push_next(
                    with_stack(st, s.subrange(0, n - 2), st.ip),
                    DataType::Integer(a.wrapping_add(b)),
                    w,
                ),
                _ => StepOutcome::Fault(ExecError::TypeMismatch),
            }
        },
        Instruction::LAdd => if n < 2 {
            StepOutcome::Fault(ExecError::StackUnderflow)
        } else {
            match (s[n - 1], s[n - 2]) {
                (DataType::Long(a), DataType::Long(b)) => push_next(
                    with_stack(st, s.subrange(0, n - 2), st.ip),
                    DataType::Long(a.wrapping_add(b)),
                    w,
                ),
                _ => StepOutcome::Fault(ExecError::TypeMismatch),
            }
        },
        Instruction::IfACmpNe(off) => if n < 2 {
            StepOutcome::Fault(ExecError::StackUnderflow)
        } else {
            let d = if s[n - 1] != s[n - 2] { off as int } else { w as int };
            match offset_target(st.ip, d) {
                Some(ip) => StepOutcome::Continue(with_stack(st, s.subrange(0, n - 2), ip)),
                None => StepOutcome::Fault(ExecError::BadBranchTarget),
            }
        },
        Instruction::Goto(off) => match offset_target(st.ip, off as int) {
            Some(ip) => StepOutcome::Continue(with_stack(st, s, ip)),
            None => StepOutcome::Fault(ExecError::BadBranchTarget),
        },
        Instruction::IReturn | Instruction::LReturn | Instruction::FReturn | Instruction::DReturn
        | Instruction::AReturn => if n == 0 {
            StepOutcome::Fault(ExecError::StackUnderflow)
        } else {
            StepOutcome::Return(s.last())
        },
        Instruction::Return => StepOutcome::Return(DataType::Void),
    }
}

/// The method that `invokestatic` at pool index `idx` calls, as its name and its
/// number of arguments. Only the executing class is searched.
pub open spec fn invoke_spec(c: Class, idx: int) -> Result<(Seq<u8>, nat), ExecError> {
    match method_ref_spec(pool_view(c.constant_pool@), idx) {
        Err(e) => Err(ExecError::Constant(e)),
        Ok((class_name, name_and_type)) => if class_name != c.name@ {
            Err(ExecError::UnresolvedMethod)
        } else {
            match method_for(c, name_and_type) {
                None => Err(ExecError::UnresolvedMethod),
                Some(k) => Ok((c.methods@[k].name@, c.methods@[k].descriptor.arg_types@.len())),
            }
        },
    }
}

/// A fresh frame state holding `args` as its first locals.
pub open spec fn initial_state(args: Seq<DataType>) -> FrameState {
    FrameState { locals: args, stack: Seq::empty(), ip: 0 }
}

/// The result of running `code` of class `c` from state `st`, with a budget of
/// `fuel` instructions for this frame; each call made by `invokestatic` runs with
/// one less than the caller had at that point.
///
/// Running past the last instruction returns `Void`. `invokestatic` pops the
/// callee's arguments (the rightmost on top), runs the callee, and pushes its
/// result unless it is `Void`.
pub open spec fn run(c: Class, code: Seq<Instruction>, st: FrameState, fuel: nat) -> Result<DataType, ExecError>
    decreases fuel,
{
    if fuel == 0 {
        Err(ExecError::OutOfSteps)
    } else {
        match fetch_at(code, st.ip) {
            Fetch::End => Ok(DataType::Void),
            Fetch::Misaligned => Err(ExecError::BadBranchTarget),
            Fetch::At(Instruction::InvokeStatic(idx)) => match invoke_spec(c, idx as int) {
                Err(e) => Err(e),
                Ok((name, n)) => {
                    let len = st.stack.len();
                    if len < n {
                        Err(ExecError::StackUnderflow)
                    } else {
                        match code_lookup(c.methods@, name) {
                            None => Err(ExecError::MissingCode),
                            Some(callee) => match run(
                                c,
                                callee,
                                initial_state(st.stack.subrange(len - n, len as int)),
                                (fuel - 1) as nat,
                            ) {
                                Err(e) => Err(e),
                                Ok(v) => match offset_target(st.ip, 3) {
                                    None => Err(ExecError::BadBranchTarget),
                                    Some(ip) => {
                                        let rest = st.stack.subrange(0, len - n);
                                        let stack = if v == DataType::Void { rest } else { rest.push(v) };
                                        run(c, code, with_stack(st, stack, ip), (fuel - 1) as nat)
                                    },
                                },
                            },
                        }
                    }
                },
            },
            Fetch::At(ins) => match step_spec(pool_view(c.constant_pool@), st, ins) {
                StepOutcome::Continue(next) => run(c, code, next, (fuel - 1) as nat),
                StepOutcome::Return(v) => Ok(v),
                StepOutcome::Fault(e) => Err(e),
            },
        }
    }
}

/// Whether an instruction returns a value from the frame.
pub open spec fn returns_value(ins: Instruction) -> bool {
    ins is IReturn || ins is LReturn || ins is FReturn || ins is DReturn || ins is AReturn
}

/// Whether `r` and the frame `after` agree with a step outcome.
pub open spec fn outcome_is(out: StepOutcome, r: Result<Option<DataType>, ExecError>, after: Frame) -> bool {
    match out {
        StepOutcome::Continue(next) => r == Ok::<Option<DataType>, ExecError>(None) && state_of(after) == next,
        StepOutcome::Return(v) => r == Ok::<Option<DataType>, ExecError>(Some(v)),
        StepOutcome::Fault(e) => r == Err::<Option<DataType>, ExecError>(e),
    }
}

/// Whether two frames run the same code of the same class.
pub open spec fn same_code(a: Frame, b: Frame) -> bool {
    a.class == b.class && a.code == b.code && a.method_name == b.method_name
}

/// What lies at byte offset `ip` of `code`.
pub fn fetch(code: &Vec<Instruction>, ip: usize) -> (r: Fetch)
    ensures
        r == fetch_at(code@, ip as int),
{
    let mut k: usize = 0;
    let mut off: usize = 0;
    proof {
        assert(code@.subrange(0, code@.len() as int) =~= code@);
    }
    while k < code.len()
        invariant
            k <= code@.len(),
            off <= ip,
            fetch_at(code@, ip as int) == fetch_at(code@.subrange(k as int, code@.len() as int), ip - off),
        decreases code@.len() - k,
    {
        let ghost rest = code@.subrange(k as int, code@.len() as int);
        proof {
            assert(rest.drop_first() =~= code@.subrange(k + 1, code@.len() as int));
            assert(rest[0] == code@[k as int]);
        }
        let ins = code[k];
        if off == ip {
            return Fetch::At(ins);
        }
        let w = ins.get_width();
        if ip - off < w {
            return Fetch::Misaligned;
        }
        off = off + w;
        k = k + 1;
    }
    Fetch::End
}

impl<'a> Frame<'a> {
    /// Moves to the offset `ip + delta`.
    fn move_by(&mut self, delta: i32) -> (r: Result<(), ExecError>)
        ensures
            final(self).local_variables == old(self).local_variables,
            final(self).operand_stack == old(self).operand_stack,
            same_code(*final(self), *old(self)),
            match offset_target(old(self).ip as int, delta as int) {
                Some(ip) => r is Ok && final(self).ip == ip,
                None => r == Err::<(), ExecError>(ExecError::BadBranchTarget),
            },
    {
        if delta >= 0 {
            let d = delta as usize;
            if self.ip > usize::MAX - d {
                return Err(ExecError::BadBranchTarget);
            }
            self.ip = self.ip + d;
        } else {
            let d = (0 - (delta as i64)) as usize;
            if d > self.ip {
                return Err(ExecError::BadBranchTarget);
            }
            self.ip = self.ip - d;
        }
        Ok(())
    }

    /// Pushes `v` and moves past an instruction of width `w`.
    fn push_next(&mut self, v: DataType, w: usize) -> (r: Result<Option<DataType>, ExecError>)
        requires
            w <= 3,
        ensures
            same_code(*final(self), *old(self)),
            outcome_is(push_next(state_of(*old(self)), v, w as nat), r, *final(self)),
    {
        self.move_by(w as i32)?;
        self.operand_stack.push(v);
        Ok(None)
    }

    /// Pushes local `n` and moves past the one-byte load.
    fn load(&mut self, n: usize) -> (r: Result<Option<DataType>, ExecError>)
        ensures
            same_code(*final(self), *old(self)),
            outcome_is(load_spec(state_of(*old(self)), n as int), r, *final(self)),
    {
        if n >= self.local_variables.len() {
            return Err(ExecError::LocalOutOfRange(n));
        }
        let v = self.local_variables[n];
        self.push_next(v, 1)
    }

    /// Pushes the constant at pool index `i` and moves past the load of width `w`.
    fn load_constant(&mut self, i: usize, w: usize) -> (r: Result<Option<DataType>, ExecError>)
        requires
            w <= 3,
        ensures
            same_code(*final(self), *old(self)),
            outcome_is(ldc_spec(pool_view(old(self).class.constant_pool@), state_of(*old(self)), i as int, w as nat), r, *final(self)),
    {
        let c = match self.class.get_constant(i) {
            Some(c) => c,
            None => {
                return Err(ExecError::MissingConstant(i));
            },
        };
        match c.get_constant_value(&self.class.constant_pool) {
            Some(v) => self.push_next(v, w),
            None => Err(ExecError::NotLoadable(i)),
        }
    }

    /// Writes `value` to local `index`, padding the locals with `Placeholder` up to it.
    pub fn store_local(&mut self, index: usize, value: DataType)
        requires
            index < usize::MAX,
        ensures
            final(self).local_variables@ == store_spec(old(self).local_variables@, index as int, value),
            final(self).operand_stack == old(self).operand_stack,
            final(self).ip == old(self).ip,
            same_code(*final(self), *old(self)),
    {
        let ghost old_locals = self.local_variables@;
        if index < self.local_variables.len() {
            self.local_variables.set(index, value);
            return;
        }
        while self.local_variables.len() < index
            invariant
                old_locals.len() <= self.local_variables@.len() <= index,
                self.local_variables@ =~= old_locals + Seq::new(
                    (self.local_variables@.len() - old_locals.len()) as nat,
                    |i: int| DataType::Placeholder,
                ),
                self.operand_stack == old(self).operand_stack,
                self.ip == old(self).ip,
                same_code(*self, *old(self)),
            decreases index - self.local_variables@.len(),
        {
            self.local_variables.push(DataType::Placeholder);
        }
        self.local_variables.push(value);
    }

    /// Carries out one instruction other than `invokestatic`.
    fn step(&mut self, ins: Instruction) -> (r: Result<Option<DataType>, ExecError>)
        ensures
            same_code(*final(self), *old(self)),
            outcome_is(step_spec(pool_view(old(self).class.constant_pool@), state_of(*old(self)), ins), r, *final(self)),
            returns_value(ins) && r is Ok ==> final(self).operand_stack@ == old(self).operand_stack@.drop_last(),
    {
        let w = ins.get_width();
        match ins {
            Instruction::Nop | Instruction::InvokeSpecial(_) | Instruction::InvokeStatic(_) => {
                self.move_by(w as i32)?;
                Ok(None)
            },
            Instruction::AConstNull => self.push_next(DataType::Reference, w),
            Instruction::IConstM1 => self.push_next(DataType::Integer(-1), w),
            Instruction::IConst0 => self.push_next(DataType::Integer(0), w),
            Instruction::IConst1 => self.push_next(DataType::Integer(1), w),
            Instruction::IConst2 => self.push_next(DataType::Integer(2), w),
            Instruction::IConst3 => self.push_next(DataType::Integer(3), w),
            Instruction::IConst4 => self.push_next(DataType::Integer(4), w),
            Instruction::IConst5 => self.push_next(DataType::Integer(5), w),
            Instruction::LConst0 => self.push_next(DataType::Long(0), w),
            Instruction::LConst1 => self.push_next(DataType::Long(1), w),
            Instruction::FConst0 => self.push_next(DataType::Float(0), w),
            Instruction::FConst1 => self.push_next(DataType::Float(0x3f80_0000), w),
            Instruction::FConst2 => self.push_next(DataType::Float(0x4000_0000), w),
            Instruction::Ldc(i) => self.load_constant(i as usize, w),
            Instruction::Ldc2W(i) => self.load_constant(i as usize, w),
            Instruction::ILoad0 | Instruction::ALoad0 => self.load(0),
            Instruction::ILoad1 | Instruction::LLoad1 | Instruction::ALoad1 => self.load(1),
            Instruction::ILoad2 => self.load(2),
            Instruction::ILoad3 => self.load(3),
            Instruction::IStore1 => {
                if self.operand_stack.len() == 0 {
                    return Err(ExecError::StackUnderflow);
                }
                let ghost st = state_of(*self);
                self.move_by(w as i32)?;
                let v = self.operand_stack.pop().unwrap();
                self.store_local(1, v);
                proof {
                    assert(v == st.stack.last());
                }
                Ok(None)
            },
            Instruction::Dup => {
                let n = self.operand_stack.len();
                if n == 0 {
                    return Err(ExecError::StackUnderflow);
                }
                let v = self.operand_stack[n - 1];
                self.push_next(v, w)
            },
            Instruction::IAdd | Instruction::LAdd => {
                let n = self.operand_stack.len();
                if n < 2 {
                    return Err(ExecError::StackUnderflow);
                }
                let a = self.operand_stack[n - 1];
                let b = self.operand_stack[n - 2];
                let sum = match (ins, a, b) {
                    (Instruction::IAdd, DataType::Integer(x), DataType::Integer(y)) => DataType::Integer(x.wrapping_add(y)),
                    (Instruction::LAdd, DataType::Long(x), DataType::Long(y)) => DataType::Long(x.wrapping_add(y)),
                    _ => {
                        return Err(ExecError::TypeMismatch);
                    },
                };
                let ghost st = state_of(*self);
                self.operand_stack.pop();
                self.operand_stack.pop();
                proof {
                    assert(self.operand_stack@ =~= st.stack.subrange(0, n - 2));
                }
                self.push_next(sum, w)
            },
            Instruction::IfACmpNe(off) => {
                let n = self.operand_stack.len();
                if n < 2 {
                    return Err(ExecError::StackUnderflow);
                }
                let a = self.operand_stack[n - 1];
                let b = self.operand_stack[n - 2];
                let ghost st = state_of(*self);
                if a != b {
                    self.move_by(off as i32)?;
                } else {
                    self.move_by(w as i32)?;
                }
                self.operand_stack.pop();
                self.operand_stack.pop();
                proof {
                    assert(self.operand_stack@ =~= st.stack.subrange(0, n - 2));
                }
                Ok(None)
            },
            Instruction::Goto(off) => {
                self.move_by(off as i32)?;
                Ok(None)
            },
            Instruction::IReturn | Instruction::LReturn | Instruction::FReturn | Instruction::DReturn
            | Instruction::AReturn => {
                if self.operand_stack.len() == 0 {
                    return Err(ExecError::StackUnderflow);
                }
                let v = self.operand_stack.pop().unwrap();
                Ok(Some(v))
            },
            Instruction::Return => Ok(Some(DataType::Void)),
        }
    }


    /// Prepares the frame for an `invokestatic` of the method reference at `index`:
    /// resolves the method in this class, pops its arguments, and builds its frame.
    pub fn new_frame_for_static_method_from_constant(&mut self, index: usize) -> (r: Result<Frame<'a>, ExecError>)
        ensures
            same_code(*final(self), *old(self)),
            final(self).ip == old(self).ip,
            final(self).local_variables == old(self).local_variables,
            match invoke_spec(*old(self).class, index as int) {
                Err(e) => r == Err::<Frame, ExecError>(e),
                Ok((name, n)) => {
                    let len = old(self).operand_stack@.len();
                    if len < n {
                        r == Err::<Frame, ExecError>(ExecError::StackUnderflow)
                    } else {
                        match code_lookup(old(self).class.methods@, name) {
                            None => r == Err::<Frame, ExecError>(ExecError::MissingCode),
                            Some(callee) => r matches Ok(f) && f.code@ == callee && f.class == old(self).class
                                && state_of(f) == initial_state(old(self).operand_stack@.subrange(len - n, len as int))
                                && final(self).operand_stack@ == old(self).operand_stack@.subrange(0, len - n),
                        }
                    }
                },
            },
    {
        let class: &'a Class = self.class;
        let (class_name, name_and_type) = match class.get_method_ref_from_constant(index) {
            Ok(x) => x,
            Err(e) => {
                return Err(ExecError::Constant(e));
            },
        };
        if !same_bytes(class_name.as_slice(), class.name.as_slice()) {
            return Err(ExecError::UnresolvedMethod);
        }
        let method = match class.get_method(name_and_type) {
            Some(m) => m,
            None => {
                return Err(ExecError::UnresolvedMethod);
            },
        };
        let n = method.num_args();
        let len = self.operand_stack.len();
        if len < n {
            return Err(ExecError::StackUnderflow);
        }
        let code = match class.get_code(method.name.as_slice()) {
            Some(c) => c,
            None => {
                return Err(ExecError::MissingCode);
            },
        };
        let args = self.operand_stack.split_off(len - n);
        Ok(Frame {
            local_variables: args,
            operand_stack: Vec::new(),
            class,
            ip: 0,
            code,
            method_name: method.name.as_slice(),
        })
    }

    /// Runs the frame until it returns, faults, or has carried out `fuel` instructions.
    ///
    /// The budget makes every run finite; a method that loops forever ends with
    /// `OutOfSteps`.
    pub fn exec(&mut self, fuel: u64) -> (r: Result<DataType, ExecError>)
        ensures
            r == run(*old(self).class, old(self).code@, state_of(*old(self)), fuel as nat),
        decreases fuel,
    {
        let mut remaining = fuel;
        while remaining > 0
            invariant
                remaining <= fuel,
                same_code(*self, *old(self)),
                run(*self.class, self.code@, state_of(*self), remaining as nat) == run(
                    *old(self).class,
                    old(self).code@,
                    state_of(*old(self)),
                    fuel as nat,
                ),
            decreases remaining,
        {
            let ghost st = state_of(*self);
            match fetch(self.code, self.ip) {
                Fetch::End => {
                    return Ok(DataType::Void);
                },
                Fetch::Misaligned => {
                    return Err(ExecError::BadBranchTarget);
                },
                Fetch::At(Instruction::InvokeStatic(index)) => {
                    let mut callee = self.new_frame_for_static_method_from_constant(index as usize)?;
                    let v = callee.exec(remaining - 1)?;
                    self.move_by(3)?;
                    if v != DataType::Void {
                        self.operand_stack.push(v);
                    }
                    proof {
                        let len = st.stack.len();
                        let n = invoke_spec(*self.class, index as int)->Ok_0.1;
                        let rest = st.stack.subrange(0, len - n);
                        let stack = if v == DataType::Void { rest } else { rest.push(v) };
                        assert(state_of(*self) == with_stack(st, stack, st.ip + 3));
                    }
                },
                Fetch::At(ins) => {
                    match self.step(ins)? {
                        Some(v) => {
                            return Ok(v);
                        },
                        None => {},
                    }
                },
            }
            remaining = remaining - 1;
        }
        Err(ExecError::OutOfSteps)
    }

}

/// Builds the frame that runs `method` of `class` with `args` as its first locals:
/// the first method of that name with a `Code` attribute.
pub fn load_frame<'a>(method: &'a [u8], class: &'a Class, args: Vec<DataType>) -> (r: Result<Frame<'a>, ExecError>)
    ensures
        match code_lookup(class.methods@, method@) {
            None => r == Err::<Frame, ExecError>(ExecError::MissingCode),
            Some(c) => r matches Ok(f) && f.code@ == c && f.class == class && f.method_name == method
                && state_of(f) == initial_state(args@),
        },
{
    match class.get_code(method) {
        Some(code) => Ok(Frame {
            local_variables: args,
            operand_stack: Vec::new(),
            class,
            ip: 0,
            code,
            method_name: method,
        }),
        None => Err(ExecError::MissingCode),
    }
}

/// The name of the class initializer.
pub open spec fn clinit_name() -> Seq<u8> {
    seq![60u8, 99, 108, 105, 110, 105, 116, 62]
}

/// The name of the entry method.
pub open spec fn main_name() -> Seq<u8> {
    seq![109u8, 97, 105, 110]
}

/// Running method `name` of `c` with no arguments.
pub open spec fn run_named(c: Class, name: Seq<u8>, fuel: nat) -> Result<DataType, ExecError> {
    match code_lookup(c.methods@, name) {
        None => Err(ExecError::MissingCode),
        Some(code) => run(c, code, initial_state(Seq::empty()), fuel),
    }
}

/// The result of running a class: its initializer first, if it has one, with the
/// result dropped; then `main`, whose result is returned. Each gets `fuel` steps.
pub open spec fn entry_spec(c: Class, fuel: nat) -> Result<DataType, ExecError> {
    let has_clinit = exists|k: int| 0 <= k < c.methods@.len() && #[trigger] c.methods@[k].name@ == clinit_name();
    if has_clinit && run_named(c, clinit_name(), fuel) is Err {
        run_named(c, clinit_name(), fuel)
    } else {
        run_named(c, main_name(), fuel)
    }
}

/// Runs a loaded class: `<clinit>` if present, then `main`, each with no
/// arguments and a budget of `fuel` steps.
pub fn run_main(class: &Class, fuel: u64) -> (r: Result<DataType, ExecError>)
    ensures
        r == entry_spec(*class, fuel as nat),
{
    // `<clinit>` and `main`, as bytes.
    let clinit: [u8; 8] = [60u8, 99, 108, 105, 110, 105, 116, 62];
    let main: [u8; 4] = [109u8, 97, 105, 110];
    proof {
        assert(clinit@ == clinit_name());
        assert(main@ == main_name());
    }
    if class.has_method(&clinit) {
        let mut frame = load_frame(&clinit, class, Vec::new())?;
        frame.exec(fuel)?;
    }
    let mut frame = load_frame(&main, class, Vec::new())?;
    frame.exec(fuel)
}

/// `iadd` pops two `Integer`s and pushes their sum wrapped to 32 bits; `ladd`
/// does the same for `Long`s and 64 bits.
pub proof fn lemma_add_wraps(pool: Seq<ConstantView>, st: FrameState, a: int, b: int, long: bool)
    requires
        st.stack.len() >= 2,
        0 <= st.ip < usize::MAX,
        if long {
            i64::MIN <= a <= i64::MAX && i64::MIN <= b <= i64::MAX && st.stack.last() == DataType::Long(
                a as i64,
            ) && st.stack[st.stack.len() - 2] == DataType::Long(b as i64)
        } else {
            i32::MIN <= a <= i32::MAX && i32::MIN <= b <= i32::MAX && st.stack.last() == DataType::Integer(
                a as i32,
            ) && st.stack[st.stack.len() - 2] == DataType::Integer(b as i32)
        },
    ensures
        ({
            let m: int = if long { 0x1_0000_0000_0000_0000 } else { 0x1_0000_0000 };
            let (lo, hi) = if long { (i64::MIN as int, i64::MAX as int) } else { (i32::MIN as int, i32::MAX as int) };
            let sum = if a + b > hi { a + b - m } else if a + b < lo { a + b + m } else { a + b };
            let n = st.stack.len();
            let out = step_spec(pool, st, if long { Instruction::LAdd } else { Instruction::IAdd });
            out matches StepOutcome::Continue(next) && next.ip == st.ip + 1 && next.locals == st.locals
                && next.stack == st.stack.subrange(0, n - 2).push(
                if long { DataType::Long(sum as i64) } else { DataType::Integer(sum as i32) },
            )
        }),
{
}

/// `goto 0` branches to itself: the frame state is unchanged.
pub proof fn lemma_goto_zero_stays(pool: Seq<ConstantView>, st: FrameState)
    requires
        0 <= st.ip <= usize::MAX,
    ensures
        step_spec(pool, st, Instruction::Goto(0)) == StepOutcome::Continue(st),
{
}

/// A frame that reaches `goto 0` never leaves it: whatever the budget, the run
/// ends by using it up.
pub proof fn lemma_goto_zero_loops(c: Class, code: Seq<Instruction>, st: FrameState, fuel: nat)
    requires
        0 <= st.ip <= usize::MAX,
        fetch_at(code, st.ip) == Fetch::At(Instruction::Goto(0)),
    ensures
        run(c, code, st, fuel) == Err::<DataType, ExecError>(ExecError::OutOfSteps),
    decreases fuel,
{
    if fuel > 0 {
        lemma_goto_zero_stays(pool_view(c.constant_pool@), st);
        assert(with_stack(st, st.stack, st.ip) == st);
        lemma_goto_zero_loops(c, code, st, (fuel - 1) as nat);
    }
}

/// A value return takes exactly the top of the stack, and faults on an empty stack
/// rather than returning.
pub proof fn lemma_return_pops_top(pool: Seq<ConstantView>, st: FrameState, ins: Instruction)
    requires
        returns_value(ins),
    ensures
        step_spec(pool, st, ins) == if st.stack.len() == 0 {
            StepOutcome::Fault(ExecError::StackUnderflow)
        } else {
            StepOutcome::Return(st.stack.last())
        },
{
}

} // verus!
