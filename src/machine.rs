use vstd::prelude::*;

use crate::op::{word_of, Op, OpKind, Word};
use crate::stack::{Stack, STACK_CAPACITY};

verus! {

/// The number of bytes a loaded program may occupy, its final `Halt` included.
pub const PROGRAM_CAPACITY: usize = 1024;

/// Why loading or running a program stopped.
#[derive(Debug, Clone, Copy, PartialEq, Eq, Structural)]
pub enum VmError {
    /// The program does not fit the program buffer.
    ProgramTooLarge,
    /// The byte at the instruction pointer encodes no instruction.
    UnknownOpcode(u8),
    /// Fewer than two bytes follow an opcode that takes an operand; holds the
    /// opcode's offset.
    TruncatedOperand(usize),
    /// The instruction pointer, or a jump target, lies past the program.
    SegmentationFault,
    /// A jump target is negative.
    InvalidAddress(Word),
    StackOverflow,
    StackUnderflow,
    DivisionByZero,
}

/// The state of a machine as the semantics sees it.
pub struct MachineState {
    /// The loaded program, its final `Halt` included.
    pub program: Seq<u8>,
    /// The offset of the next instruction.
    pub ip: int,
    pub halted: bool,
    /// The operand stack, bottom first.
    pub stack: Seq<Word>,
}

pub open spec fn halt_code() -> u8 {
    OpKind::Halt.code()
}

/// The program that loading `input` gives: `input` itself when it ends in the
/// `Halt` opcode, else `input` with one appended.
pub open spec fn loaded_program(input: Seq<u8>) -> Seq<u8> {
    if input.len() > 0 && input.last() == halt_code() {
        input
    } else {
        input.push(halt_code())
    }
}

/// Loading succeeds when the loaded program fits the program buffer.
pub open spec fn load(input: Seq<u8>) -> Result<MachineState, VmError> {
    if loaded_program(input).len() <= PROGRAM_CAPACITY {
        Ok(MachineState { program: loaded_program(input), ip: 0, halted: false, stack: seq![] })
    } else {
        Err(VmError::ProgramTooLarge)
    }
}

/// Decodes the instruction at `ip`; gives it with the offset that follows it.
pub open spec fn fetch(program: Seq<u8>, ip: int) -> Result<(Op, int), VmError> {
    if ip < 0 || ip >= program.len() {
        Err(VmError::SegmentationFault)
    } else {
        match OpKind::decode(program[ip]) {
            None => Err(VmError::UnknownOpcode(program[ip])),
            Some(k) => if !k.spec_has_operand() {
                Ok((Op(k, None), ip + 1))
            } else if ip + 3 > program.len() {
                Err(VmError::TruncatedOperand(ip as usize))
            } else {
                Ok((Op(k, Some(word_of(program[ip + 1], program[ip + 2]))), ip + 3))
            },
        }
    }
}

/// `b ∘ a` for an arithmetic kind, with 16-bit wraparound; `a` is the top word.
/// Division truncates toward zero; the one quotient that does not fit a word
/// wraps to `i16::MIN`.
pub open spec fn arith(k: OpKind, b: Word, a: Word) -> Word {
    match k {
        OpKind::Add => b.wrapping_add(a),
        OpKind::Sub => b.wrapping_sub(a),
        OpKind::Mul => b.wrapping_mul(a),
        _ => match b.checked_div(a) {
            Some(q) => q,
            None => i16::MIN,
        },
    }
}

/// Where a jump to `addr` lands, for a program of `len` bytes.
pub open spec fn jump(len: int, addr: Word) -> Result<int, VmError> {
    if addr < 0 {
        Err(VmError::InvalidAddress(addr))
    } else if addr > len {
        Err(VmError::SegmentationFault)
    } else {
        Ok(addr as int)
    }
}

/// Runs decoded instruction `op`, which ends at `next`; gives the new state and
/// the word it echoed, if any. `Echo` reads the top word and leaves it in place;
/// the arithmetic kinds pop `a`, then `b`, and push `b ∘ a`.
pub open spec fn execute(m: MachineState, op: Op, next: int) -> Result<(MachineState, Option<Word>), VmError> {
    let s = m.stack;
    let n = s.len();
    match op.0 {
        OpKind::Push => if n >= STACK_CAPACITY {
            Err(VmError::StackOverflow)
        } else {
            Ok((MachineState { ip: next, stack: s.push(op.1.unwrap()), ..m }, None))
        },
        OpKind::Pop => if n == 0 {
            Err(VmError::StackUnderflow)
        } else {
            Ok((MachineState { ip: next, stack: s.drop_last(), ..m }, None))
        },
        OpKind::Echo => if n == 0 {
            Err(VmError::StackUnderflow)
        } else {
            Ok((MachineState { ip: next, ..m }, Some(s.last())))
        },
        OpKind::Goto => match jump(m.program.len() as int, op.1.unwrap()) {
            Err(e) => Err(e),
            Ok(t) => Ok((MachineState { ip: t, ..m }, None)),
        },
        OpKind::Goif => if n == 0 {
            Err(VmError::StackUnderflow)
        } else if s.last() == 0 {
            Ok((MachineState { ip: next, stack: s.drop_last(), ..m }, None))
        } else {
            match jump(m.program.len() as int, op.1.unwrap()) {
                Err(e) => Err(e),
                Ok(t) => Ok((MachineState { ip: t, stack: s.drop_last(), ..m }, None)),
            }
        },
        OpKind::Copy => if n == 0 {
            Err(VmError::StackUnderflow)
        } else if n >= STACK_CAPACITY {
            Err(VmError::StackOverflow)
        } else {
            Ok((MachineState { ip: next, stack: s.push(s.last()), ..m }, None))
        },
        OpKind::Halt => Ok((MachineState { ip: next, halted: true, ..m }, None)),
        _ => if n < 2 {
            Err(VmError::StackUnderflow)
        } else if op.0 is Div && s.last() == 0 {
            Err(VmError::DivisionByZero)
        } else {
            let r = arith(op.0, s[n - 2], s.last());
            Ok((MachineState { ip: next, stack: s.drop_last().drop_last().push(r), ..m }, None))
        },
    }
}

/// One fetch-decode-execute step; a halted machine stays as it is.
pub open spec fn step(m: MachineState) -> Result<(MachineState, Option<Word>), VmError> {
    if m.halted {
        Ok((m, None))
    } else {
        match fetch(m.program, m.ip) {
            Err(e) => Err(e),
            Ok((op, next)) => execute(m, op, next),
        }
    }
}

pub open spec fn echoed(out: Option<Word>) -> Seq<Word> {
    match out {
        Some(w) => seq![w],
        None => seq![],
    }
}

/// Steps until the machine halts, fails, or has taken `fuel` steps; gives the
/// final state and the echoed words in order.
pub open spec fn run(m: MachineState, fuel: nat) -> Result<(MachineState, Seq<Word>), VmError>
    decreases fuel,
{
    if m.halted || fuel == 0 {
        Ok((m, seq![]))
    } else {
        match step(m) {
            Err(e) => Err(e),
            Ok((m1, out)) => match run(m1, (fuel - 1) as nat) {
                Err(e) => Err(e),
                Ok((m2, outs)) => Ok((m2, echoed(out) + outs)),
            },
        }
    }
}

/// Loading a program that fits and does not end in `Halt` gives a machine
/// whose program is the input followed by one `Halt`, one byte longer.
pub proof fn lemma_load_appends_halt(input: Seq<u8>)
    requires
        input.len() < PROGRAM_CAPACITY,
        input.len() == 0 || input.last() != halt_code(),
    ensures
        load(input) is Ok,
        load(input)->Ok_0.program == input.push(halt_code()),
        load(input)->Ok_0.program.last() == OpKind::Halt.code(),
        load(input)->Ok_0.program.len() == input.len() + 1,
{
}

/// A stack-based virtual machine over a fixed-capacity program buffer.
pub struct Machine {
    stack: Stack,
    program: Vec<u8>,
    program_size: usize,
    halted: bool,
    ip: usize,
}

impl View for Machine {
    type V = MachineState;

    closed spec fn view(&self) -> MachineState {
        MachineState {
            program: self.program@.subrange(0, self.program_size as int),
            ip: self.ip as int,
            halted: self.halted,
            stack: self.stack@,
        }
    }
}

impl Machine {
    pub closed spec fn wf(&self) -> bool {
        &&& self.program.len() == PROGRAM_CAPACITY
        &&& self.program_size <= PROGRAM_CAPACITY
        &&& self.ip <= self.program_size
        &&& self.stack.wf()
    }

    /// Loads a program, appending `Halt` unless it already ends in one.
    pub fn try_new(input: &[u8]) -> (r: Result<Machine, VmError>)
        ensures
            match load(input@) {
                Ok(m) => r is Ok && r->Ok_0.wf() && r->Ok_0@ == m,
                Err(e) => r == Err::<Machine, VmError>(e),
            },
    {
        let len = input.len();
        let ends_in_halt = len > 0 && input[len - 1] == OpKind::Halt.opcode();
        if len > PROGRAM_CAPACITY || (len == PROGRAM_CAPACITY && !ends_in_halt) {
            return Err(VmError::ProgramTooLarge);
        }
        let mut program: Vec<u8> = vec![0; PROGRAM_CAPACITY];
        let mut i: usize = 0;
        while i < len
            invariant
                len == input@.len(),
                len <= PROGRAM_CAPACITY,
                i <= len,
                program.len() == PROGRAM_CAPACITY,
                program@.subrange(0, i as int) == input@.subrange(0, i as int),
            decreases len - i,
        {
            program.set(i, input[i]);
            i = i + 1;
            assert(program@.subrange(0, i as int) =~= input@.subrange(0, i as int));
        }
        let mut program_size = len;
        if !ends_in_halt {
            program.set(len, OpKind::Halt.opcode());
            program_size = len + 1;
        }
        let m = Machine { stack: Stack::new(), program, program_size, halted: false, ip: 0 };
        assert(input@.subrange(0, len as int) =~= input@);
        assert(m@.program =~= loaded_program(input@));
        Ok(m)
    }

    /// The number of bytes of the loaded program.
    pub fn program_size(&self) -> (r: usize)
        requires
            self.wf(),
        ensures
            r == self@.program.len(),
    {
        self.program_size
    }

    pub fn is_halted(&self) -> (r: bool)
        ensures
            r == self@.halted,
    {
        self.halted
    }

    pub fn ip(&self) -> (r: usize)
        ensures
            r == self@.ip,
    {
        self.ip
    }

    pub fn stack(&self) -> (r: &Stack)
        requires
            self.wf(),
        ensures
            r.wf(),
            r@ == self@.stack,
    {
        &self.stack
    }

    /// Reads the big-endian word at `at`.
    fn extract_word(&self, at: usize) -> (r: Word)
        requires
            self.wf(),
            at + 2 <= self.program_size,
        ensures
            r == word_of(self@.program[at as int], self@.program[at + 1]),
    {
        let hi = self.program[at];
        let lo = self.program[at + 1];
        (((hi as u16) << 8u16) | (lo as u16)) as i16
    }

    /// Decodes the instruction at the instruction pointer.
    fn parse_op(&self) -> (r: Result<(Op, usize), VmError>)
        requires
            self.wf(),
        ensures
            match fetch(self@.program, self@.ip) {
                Ok((op, next)) => r is Ok && r->Ok_0.0 == op && r->Ok_0.1 == next
                    && next <= self.program_size,
                Err(e) => r == Err::<(Op, usize), VmError>(e),
            },
    {
        if self.ip >= self.program_size {
            return Err(VmError::SegmentationFault);
        }
        let byte = self.program[self.ip];
        let kind = match OpKind::from_byte(byte) {
            Some(k) => k,
            None => return Err(VmError::UnknownOpcode(byte)),
        };
        if !kind.has_operand() {
            return Ok((Op(kind, None), self.ip + 1));
        }
        if self.ip + 3 > self.program_size {
            return Err(VmError::TruncatedOperand(self.ip));
        }
        let w = self.extract_word(self.ip + 1);
        Ok((Op(kind, Some(w)), self.ip + 3))
    }

    /// Jumps to `addr`, or fails as `jump` says.
    fn jump_to(&mut self, addr: Word) -> (r: Result<(), VmError>)
        requires
            old(self).wf(),
        ensures
            final(self).wf(),
            match jump(old(self)@.program.len() as int, addr) {
                Ok(t) => r is Ok && final(self)@ == MachineState { ip: t, ..old(self)@ },
                Err(e) => r == Err::<(), VmError>(e) && final(self)@ == old(self)@,
            },
    {
        if addr < 0 {
            return Err(VmError::InvalidAddress(addr));
        }
        let target = addr as usize;
        if target > self.program_size {
            return Err(VmError::SegmentationFault);
        }
        self.ip = target;
        Ok(())
    }

    /// Executes one instruction and gives the word it echoed, if any. On an
    /// error the machine is left as it was.
    pub fn step(&mut self) -> (r: Result<Option<Word>, VmError>)
        requires
            old(self).wf(),
        ensures
            final(self).wf(),
            match step(old(self)@) {
                Ok((m, out)) => r == Ok::<Option<Word>, VmError>(out) && final(self)@ == m,
                Err(e) => r == Err::<Option<Word>, VmError>(e) && final(self)@ == old(self)@,
            },
    {
        if self.halted {
            return Ok(None);
        }
        let (op, next) = match self.parse_op() {
            Ok(decoded) => decoded,
            Err(e) => return Err(e),
        };
        let operand: Word = match op.1 {
            Some(w) => w,
            None => 0,
        };
        let n = self.stack.len();
        match op.0 {
            OpKind::Push => {
                if n >= STACK_CAPACITY {
                    return Err(VmError::StackOverflow);
                }
                assert(op.1 == Some(operand));
                let _ = self.stack.push(operand);
                self.ip = next;
                Ok(None)
            },
            OpKind::Pop => {
                if n == 0 {
                    return Err(VmError::StackUnderflow);
                }
                let _ = self.stack.pop();
                self.ip = next;
                Ok(None)
            },
            OpKind::Echo => {
                let top = match self.stack.head() {
                    Ok(w) => w,
                    Err(_) => return Err(VmError::StackUnderflow),
                };
                self.ip = next;
                Ok(Some(top))
            },
            OpKind::Goto => {
                match self.jump_to(operand) {
                    Ok(()) => Ok(None),
                    Err(e) => Err(e),
                }
            },
            OpKind::Goif => {
                let cond = match self.stack.head() {
                    Ok(w) => w,
                    Err(_) => return Err(VmError::StackUnderflow),
                };
                if cond == 0 {
                    let _ = self.stack.pop();
                    self.ip = next;
                    return Ok(None);
                }
                match self.jump_to(operand) {
                    Ok(()) => {
                        let _ = self.stack.pop();
                        Ok(None)
                    },
                    Err(e) => Err(e),
                }
            },
            OpKind::Copy => {
                let top = match self.stack.head() {
                    Ok(w) => w,
                    Err(_) => return Err(VmError::StackUnderflow),
                };
                if n >= STACK_CAPACITY {
                    return Err(VmError::StackOverflow);
                }
                let _ = self.stack.push(top);
                self.ip = next;
                Ok(None)
            },
            OpKind::Halt => {
                self.halted = true;
                self.ip = next;
                Ok(None)
            },
            _ => {
                if n < 2 {
                    return Err(VmError::StackUnderflow);
                }
                let ghost s = self.stack@;
                assert(s.drop_last().last() == s[n - 2]);
                let a = match self.stack.head() {
                    Ok(w) => w,
                    Err(_) => return Err(VmError::StackUnderflow),
                };
                if op.0 == OpKind::Div && a == 0 {
                    return Err(VmError::DivisionByZero);
                }
                let _ = self.stack.pop();
                let b = match self.stack.pop() {
                    Ok(w) => w,
                    Err(_) => return Err(VmError::StackUnderflow),
                };
                let value = match op.0 {
                    OpKind::Add => b.wrapping_add(a),
                    OpKind::Sub => b.wrapping_sub(a),
                    OpKind::Mul => b.wrapping_mul(a),
                    _ => match b.checked_div(a) {
                        Some(q) => q,
                        None => i16::MIN,
                    },
                };
                let _ = self.stack.push(value);
                self.ip = next;
                Ok(None)
            },
        }
    }

    /// Runs until the machine halts, an instruction fails, or `max_steps`
    /// instructions have run; gives the echoed words in order. A program that
    /// never halts uses up the steps and leaves the machine running.
    pub fn run(&mut self, max_steps: usize) -> (r: Result<Vec<Word>, VmError>)
        requires
            old(self).wf(),
        ensures
            final(self).wf(),
            match run(old(self)@, max_steps as nat) {
                Ok((m, outs)) => r is Ok && r->Ok_0@ == outs && final(self)@ == m,
                Err(e) => r == Err::<Vec<Word>, VmError>(e),
            },
    {
        let mut outs: Vec<Word> = Vec::new();
        let mut left: usize = max_steps;
        while left > 0 && !self.halted
            invariant
                self.wf(),
                left <= max_steps,
                run(old(self)@, max_steps as nat) == match run(self@, left as nat) {
                    Ok((m, rest)) => Ok::<(MachineState, Seq<Word>), VmError>((m, outs@ + rest)),
                    Err(e) => Err(e),
                },
            decreases left,
        {
            let ghost before = self@;
            let ghost outs_before = outs@;
            match self.step() {
                Ok(out) => {
                    if let Some(w) = out {
                        outs.push(w);
                    }
                    assert(outs@ =~= outs_before + echoed(out));
                    assert forall|rest: Seq<Word>| #[trigger] (outs_before + (echoed(out) + rest))
                        == outs@ + rest by {
                        assert(outs_before + (echoed(out) + rest) =~= outs@ + rest);
                    }
                },
                Err(e) => {
                    return Err(e);
                },
            }
            left = left - 1;
        }
        assert(outs@ + Seq::<Word>::empty() =~= outs@);
        Ok(outs)
    }
}

} // verus!
