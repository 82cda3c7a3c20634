//! The execution engine: a register file, a program counter, two special
//! registers and a buffer of bytecode, advanced one instruction at a time.

use vstd::prelude::*;
use crate::bytecode::OpCode;

verus! {

/// The number of general-purpose registers.
pub const REGISTERS: usize = 32;

/// Why the engine refused to execute an instruction.
#[derive(Copy, Clone, Debug, PartialEq, Eq, Structural)]
pub enum FaultKind {
    /// The byte at the program counter stands for no operation. Holds the
    /// byte.
    InvalidOpcode(u8),
    /// The buffer ends before the operand bytes of the instruction do.
    MissingOperands,
    /// An operand byte names a register that does not exist. Holds the byte.
    NoSuchRegister(u8),
    /// The divisor register of a division holds zero. Holds the operand byte
    /// that names the register.
    DivisionByZero(u8),
    /// The quotient of a division does not fit in a register.
    DivisionOverflow,
    /// A jump leads to an offset that no program counter can hold. Holds the
    /// operand byte that names the register with the offset.
    JumpOutOfRange(u8),
}

/// A fault, with the place where it happened.
#[derive(Copy, Clone, Debug, PartialEq, Eq, Structural)]
pub struct Fault {
    /// What went wrong.
    pub kind: FaultKind,
    /// The offset of the opcode byte of the instruction that faulted.
    pub pc: usize,
    /// The opcode of the instruction that faulted.
    pub opcode: OpCode,
}

/// What the engine reports after a tick.
#[derive(Copy, Clone, Debug, PartialEq, Eq, Structural)]
pub enum Status {
    /// An instruction was executed and another one follows.
    Running,
    /// The program counter is at or past the end of the buffer.
    Finished,
    /// A `Halt` was executed.
    Halted,
    /// The instruction at the program counter could not be executed.
    Faulted(Fault),
}

/// The value that a register holds after an arithmetic result `n` has been
/// stored in it: `n` reduced to the signed 32-bit range, two's complement.
pub open spec fn wrap_i32(n: int) -> i32 {
    let m = n % 0x1_0000_0000;
    if m > i32::MAX {
        (m - 0x1_0000_0000) as i32
    } else {
        m as i32
    }
}

/// Integer division that rounds toward zero. `b` is not zero.
pub open spec fn trunc_div(a: int, b: int) -> int {
    if a >= 0 {
        a / b
    } else {
        -((-a) / b)
    }
}

/// The remainder that goes with `trunc_div`: it has the sign of `a`.
pub open spec fn trunc_rem(a: int, b: int) -> int {
    if a >= 0 {
        a % b
    } else {
        -((-a) % b)
    }
}

/// The bits of a signed register value read as an unsigned number.
pub open spec fn as_unsigned(v: int) -> u32 {
    if v >= 0 {
        v as u32
    } else {
        (v + 0x1_0000_0000) as u32
    }
}

/// The state of the engine as a mathematical value.
pub struct Machine {
    /// The general-purpose registers; always `REGISTERS` of them.
    pub regs: Seq<i32>,
    /// The offset in `code` of the next instruction.
    pub pc: int,
    /// The bytecode.
    pub code: Seq<u8>,
    /// The remainder of the last division.
    pub rem: u32,
    /// The result of the last comparison.
    pub compare: bool,
}

impl Machine {
    /// The state of a new engine: every register zero, the compare flag
    /// clear, no code.
    pub open spec fn blank() -> Machine {
        Machine {
            regs: Seq::new(32, |i: int| 0i32),
            pc: 0,
            code: Seq::empty(),
            rem: 0,
            compare: false,
        }
    }

    /// Whether the program counter is at or past the end of the code.
    pub open spec fn done(self) -> bool {
        self.pc >= self.code.len()
    }

    /// The opcode of the instruction at the program counter.
    pub open spec fn opcode(self) -> OpCode {
        OpCode::decode(self.code[self.pc])
    }

    /// The `k`-th operand byte of the instruction at the program counter.
    pub open spec fn arg(self, k: int) -> u8 {
        self.code[self.pc + 1 + k]
    }

    /// The value of the register that the `k`-th operand byte names.
    pub open spec fn reg(self, k: int) -> i32 {
        self.regs[self.arg(k) as int]
    }

    /// The first among the first `n` operand bytes that names no register.
    pub open spec fn bad_register(self, n: int) -> Option<u8>
        decreases n,
    {
        if n <= 0 {
            None
        } else if self.bad_register(n - 1) is Some {
            self.bad_register(n - 1)
        } else if self.arg(n - 1) >= REGISTERS {
            Some(self.arg(n - 1))
        } else {
            None
        }
    }

    /// The number of operand bytes of `op` that name registers.
    pub open spec fn register_operands(op: OpCode) -> int {
        match op {
            OpCode::Load => 1,
            OpCode::Add | OpCode::Sub | OpCode::Mul | OpCode::Div => 3,
            OpCode::Jump | OpCode::JumpF | OpCode::JumpB | OpCode::JumpEq | OpCode::JumpNeq => 1,
            OpCode::Eq
            | OpCode::NotEq
            | OpCode::Greater
            | OpCode::Less
            | OpCode::GreaterEq
            | OpCode::LessEq => 2,
            OpCode::Halt | OpCode::Bad => 0,
        }
    }

    /// Where a jump instruction at the program counter leads: an absolute
    /// offset for `Jump`, for `JumpEq` when the compare flag is set and for
    /// `JumpNeq` when it is clear; an offset relative to the end of the
    /// instruction for `JumpF` and `JumpB`; the next instruction otherwise.
    pub open spec fn target(self) -> int {
        let next = self.pc + 2;
        match self.opcode() {
            OpCode::Jump => self.reg(0) as int,
            OpCode::JumpF => next + self.reg(0),
            OpCode::JumpB => next - self.reg(0),
            OpCode::JumpEq => if self.compare {
                self.reg(0) as int
            } else {
                next
            },
            OpCode::JumpNeq => if !self.compare {
                self.reg(0) as int
            } else {
                next
            },
            _ => self.pc + self.opcode().spec_width(),
        }
    }

    /// The fault that the instruction at the program counter raises, if any.
    /// The checks are made in this order: the opcode, the presence of all
    /// operand bytes, the register operands from first to last, and then what
    /// the operation itself demands.
    pub open spec fn fault(self) -> Option<FaultKind> {
        let op = self.opcode();
        if op == OpCode::Bad {
            Some(FaultKind::InvalidOpcode(self.code[self.pc]))
        } else if self.pc + op.spec_width() > self.code.len() {
            Some(FaultKind::MissingOperands)
        } else if self.bad_register(Self::register_operands(op)) is Some {
            Some(FaultKind::NoSuchRegister(self.bad_register(Self::register_operands(op))->0))
        } else if op == OpCode::Div && self.reg(1) == 0 {
            Some(FaultKind::DivisionByZero(self.arg(1)))
        } else if op == OpCode::Div && self.reg(0) == i32::MIN && self.reg(1) == -1 {
            Some(FaultKind::DivisionOverflow)
        } else if !(0 <= self.target() <= usize::MAX) {
            Some(FaultKind::JumpOutOfRange(self.arg(0)))
        } else {
            None
        }
    }

    /// The state with register `r` set to `v` and the program counter at
    /// `pc`.
    pub open spec fn store(self, r: u8, v: i32, pc: int) -> Machine {
        Machine { regs: self.regs.update(r as int, v), pc, ..self }
    }

    /// The state after the instruction at the program counter, which raises
    /// no fault, has been executed.
    pub open spec fn execute(self) -> Machine {
        let next = self.pc + self.opcode().spec_width();
        match self.opcode() {
            OpCode::Load => self.store(self.arg(0), (self.arg(1) * 256 + self.arg(2)) as i32, next),
            OpCode::Add => self.store(self.arg(2), wrap_i32(self.reg(0) + self.reg(1)), next),
            OpCode::Sub => self.store(self.arg(2), wrap_i32(self.reg(0) - self.reg(1)), next),
            OpCode::Mul => self.store(self.arg(2), wrap_i32(self.reg(0) * self.reg(1)), next),
            OpCode::Div => Machine {
                rem: as_unsigned(trunc_rem(self.reg(0) as int, self.reg(1) as int)),
                ..self.store(
                    self.arg(2),
                    trunc_div(self.reg(0) as int, self.reg(1) as int) as i32,
                    next,
                )
            },
            OpCode::Eq => Machine { compare: self.reg(0) == self.reg(1), pc: next, ..self },
            OpCode::NotEq => Machine { compare: self.reg(0) != self.reg(1), pc: next, ..self },
            OpCode::Greater => Machine { compare: self.reg(0) > self.reg(1), pc: next, ..self },
            OpCode::Less => Machine { compare: self.reg(0) < self.reg(1), pc: next, ..self },
            OpCode::GreaterEq => Machine { compare: self.reg(0) >= self.reg(1), pc: next, ..self },
            OpCode::LessEq => Machine { compare: self.reg(0) <= self.reg(1), pc: next, ..self },
            _ => Machine { pc: self.target(), ..self },
        }
    }

    /// The status that the engine reports when it stands in this state after
    /// an instruction.
    pub open spec fn standing(self) -> Status {
        if self.done() {
            Status::Finished
        } else {
            Status::Running
        }
    }

    /// One tick: the state after it and the status it reports.
    ///
    /// With the program counter at or past the end of the code nothing
    /// changes. Otherwise the opcode byte is consumed. A `Halt` stops there.
    /// A fault stops there too and leaves everything else as it was. Any
    /// other instruction is executed.
    pub open spec fn step(self) -> (Machine, Status) {
        if self.done() {
            (self, Status::Finished)
        } else if self.fault() is Some {
            (
                Machine { pc: self.pc + 1, ..self },
                Status::Faulted(
                    Fault { kind: self.fault()->0, pc: self.pc as usize, opcode: self.opcode() },
                ),
            )
        } else if self.opcode() == OpCode::Halt {
            (Machine { pc: self.pc + 1, ..self }, Status::Halted)
        } else {
            (self.execute(), self.execute().standing())
        }
    }

    /// At most `fuel` ticks, stopping early at the first one that does not
    /// report `Running`: the state reached and the last status.
    pub open spec fn run(self, fuel: nat) -> (Machine, Status)
        decreases fuel,
    {
        if fuel == 0 {
            (self, self.standing())
        } else if self.step().1 == Status::Running {
            self.step().0.run((fuel - 1) as nat)
        } else {
            self.step()
        }
    }
}

/// The engine.
#[derive(Debug)]
pub struct Vm {
    /// The general-purpose registers.
    pub regs: [i32; 32],
    /// The offset in `code` of the next instruction.
    pub pc: usize,
    /// The bytecode being run.
    pub code: Vec<u8>,
    /// The remainder of the last division. No operand can name it.
    pub rem: u32,
    /// The result of the last comparison. No operand can name it.
    pub compare: bool,
}

impl View for Vm {
    type V = Machine;

    open spec fn view(&self) -> Machine {
        Machine {
            regs: self.regs@,
            pc: self.pc as int,
            code: self.code@,
            rem: self.rem,
            compare: self.compare,
        }
    }
}

impl Vm {
    /// An engine with every register zero, the compare flag clear and no
    /// code.
    pub fn new() -> (vm: Vm)
        ensures
            vm@ == Machine::blank(),
    {
        let vm = Vm { regs: [0; 32], pc: 0, code: Vec::new(), rem: 0, compare: false };
        assert(vm@.regs =~= Machine::blank().regs);
        vm
    }

    /// Whether the program counter is at or past the end of the code.
    pub fn is_done(&self) -> (b: bool)
        ensures
            b == self@.done(),
    {
        self.pc >= self.code.len()
    }
}

/// How far a quotient of a non-negative number can lie from zero.
proof fn lemma_quotient_is_bounded(a: int, b: int)
    by (nonlinear_arith)
    requires
        a >= 0,
        b != 0,
    ensures
        b > 0 ==> 0 <= a / b <= a,
        b < 0 ==> -a <= a / b <= 0,
        a > 0 && b < -1 ==> -a < a / b,
{
}

/// The quotient of a division that neither divides by zero nor overflows.
fn quotient(x: i32, y: i32) -> (q: i32)
    requires
        y != 0,
        !(x == i32::MIN && y == -1),
    ensures
        q == trunc_div(x as int, y as int),
{
    proof {
        lemma_quotient_is_bounded(
            if x >= 0 {
                x as int
            } else {
                -x
            },
            y as int,
        );
    }
    x / y
}

/// The remainder of such a division, its bits read as an unsigned number.
fn remainder(x: i32, y: i32) -> (u: u32)
    requires
        y != 0,
        !(x == i32::MIN && y == -1),
    ensures
        u == as_unsigned(trunc_rem(x as int, y as int)),
{
    let m: i32 = x % y;
    let u: u32 = #[verifier::truncate] (m as u32);
    assert(u == as_unsigned(m as int)) by (bit_vector)
        requires
            u == m as u32,
    ;
    u
}

impl Vm {
    /// The status that a tick reports after an instruction has been executed.
    fn standing(&self) -> (status: Status)
        ensures
            status == self@.standing(),
    {
        if self.is_done() {
            Status::Finished
        } else {
            Status::Running
        }
    }

    /// Reads the opcode at the program counter and moves past it.
    fn decode_opcode(&mut self) -> (op: OpCode)
        requires
            !old(self)@.done(),
        ensures
            op == old(self)@.opcode(),
            final(self)@ == (Machine { pc: old(self)@.pc + 1, ..old(self)@ }),
    {
        let end = self.code.len();
        let opcode = OpCode::from(self.code[self.pc]);
        self.pc += 1;
        opcode
    }

    /// Reads the byte at the program counter and moves past it.
    fn next_8_bits(&mut self) -> (byte: u8)
        requires
            !old(self)@.done(),
        ensures
            byte == old(self)@.code[old(self)@.pc],
            final(self)@ == (Machine { pc: old(self)@.pc + 1, ..old(self)@ }),
    {
        let end = self.code.len();
        let byte = self.code[self.pc];
        self.pc += 1;
        byte
    }

    /// Reads the two bytes at the program counter as one number, high byte
    /// first, and moves past them.
    fn next_16_bits(&mut self) -> (value: u16)
        requires
            old(self)@.pc + 1 < old(self)@.code.len(),
        ensures
            value == old(self)@.code[old(self)@.pc] * 256 + old(self)@.code[old(self)@.pc + 1],
            final(self)@ == (Machine { pc: old(self)@.pc + 2, ..old(self)@ }),
    {
        let end = self.code.len();
        let hi: u16 = self.code[self.pc] as u16;
        let lo: u16 = self.code[self.pc + 1] as u16;
        self.pc += 2;
        hi * 256 + lo
    }

    /// Gives up the instruction that starts at `start`: only its opcode byte
    /// counts as consumed.
    fn give_up(&mut self, start: usize, opcode: OpCode, kind: FaultKind) -> (status: Status)
        requires
            start < old(self)@.code.len(),
        ensures
            final(self)@ == (Machine { pc: start + 1, ..old(self)@ }),
            status == Status::Faulted(Fault { kind, pc: start, opcode }),
    {
        let end = self.code.len();
        self.pc = start + 1;
        Status::Faulted(Fault { kind, pc: start, opcode })
    }

    /// Whether the engine stands just past the opcode byte of an instruction
    /// of `before` whose operand bytes are all there.
    spec fn entered(self, before: Machine) -> bool {
        &&& 0 <= before.pc
        &&& !before.done()
        &&& before.opcode() != OpCode::Bad
        &&& before.pc + before.opcode().spec_width() <= before.code.len()
        &&& self@ == (Machine { pc: before.pc + 1, ..before })
    }

    /// Executes a `Load` whose opcode byte has been consumed.
    fn exec_load(&mut self, Ghost(before): Ghost<Machine>) -> (status: Status)
        requires
            old(self).entered(before),
            before.opcode() == OpCode::Load,
        ensures
            final(self)@ == before.step().0,
            status == before.step().1,
    {
        proof {
            reveal_with_fuel(Machine::bad_register, 4);
        }
        let start = self.pc - 1;
        let r = self.next_8_bits();
        let value = self.next_16_bits();
        if r as usize >= REGISTERS {
            return self.give_up(start, OpCode::Load, FaultKind::NoSuchRegister(r));
        }
        self.regs[r as usize] = value as i32;
        assert(self@ == before.execute());
        self.standing()
    }

    /// Executes an arithmetic instruction whose opcode byte has been
    /// consumed.
    fn exec_arithmetic(&mut self, op: OpCode, Ghost(before): Ghost<Machine>) -> (status: Status)
        requires
            old(self).entered(before),
            before.opcode() == op,
            op == OpCode::Add || op == OpCode::Sub || op == OpCode::Mul || op == OpCode::Div,
        ensures
            final(self)@ == before.step().0,
            status == before.step().1,
    {
        proof {
            reveal_with_fuel(Machine::bad_register, 4);
        }
        let start = self.pc - 1;
        let a = self.next_8_bits();
        let b = self.next_8_bits();
        let c = self.next_8_bits();
        if a as usize >= REGISTERS {
            return self.give_up(start, op, FaultKind::NoSuchRegister(a));
        }
        if b as usize >= REGISTERS {
            return self.give_up(start, op, FaultKind::NoSuchRegister(b));
        }
        if c as usize >= REGISTERS {
            return self.give_up(start, op, FaultKind::NoSuchRegister(c));
        }
        let x: i32 = self.regs[a as usize];
        let y: i32 = self.regs[b as usize];
        let value: i32 = match op {
            OpCode::Add => x.wrapping_add(y),
            OpCode::Sub => x.wrapping_sub(y),
            OpCode::Mul => x.wrapping_mul(y),
            _ => {
                if y == 0 {
                    return self.give_up(start, op, FaultKind::DivisionByZero(b));
                }
                if x == i32::MIN && y == -1 {
                    return self.give_up(start, op, FaultKind::DivisionOverflow);
                }
                self.rem = remainder(x, y);
                quotient(x, y)
            },
        };
        self.regs[c as usize] = value;
        assert(self@ == before.execute());
        self.standing()
    }

    /// Executes a jump whose opcode byte has been consumed.
    fn exec_jump(&mut self, op: OpCode, Ghost(before): Ghost<Machine>) -> (status: Status)
        requires
            old(self).entered(before),
            before.opcode() == op,
            op == OpCode::Jump || op == OpCode::JumpF || op == OpCode::JumpB || op
                == OpCode::JumpEq || op == OpCode::JumpNeq,
        ensures
            final(self)@ == before.step().0,
            status == before.step().1,
    {
        proof {
            reveal_with_fuel(Machine::bad_register, 4);
        }
        let start = self.pc - 1;
        let r = self.next_8_bits();
        if r as usize >= REGISTERS {
            return self.give_up(start, op, FaultKind::NoSuchRegister(r));
        }
        let v: i128 = self.regs[r as usize] as i128;
        let next: i128 = self.pc as i128;
        let target: i128 = match op {
            OpCode::Jump => v,
            OpCode::JumpF => next + v,
            OpCode::JumpB => next - v,
            OpCode::JumpEq => if self.compare {
                v
            } else {
                next
            },
            _ => if !self.compare {
                v
            } else {
                next
            },
        };
        assert(target == before.target());
        if target < 0 || target > usize::MAX as i128 {
            return self.give_up(start, op, FaultKind::JumpOutOfRange(r));
        }
        self.pc = target as usize;
        assert(self@ == before.execute());
        self.standing()
    }

    /// Executes a comparison whose opcode byte has been consumed.
    fn exec_comparison(&mut self, op: OpCode, Ghost(before): Ghost<Machine>) -> (status: Status)
        requires
            old(self).entered(before),
            before.opcode() == op,
            op.is_comparison(),
        ensures
            final(self)@ == before.step().0,
            status == before.step().1,
    {
        proof {
            reveal_with_fuel(Machine::bad_register, 4);
        }
        let start = self.pc - 1;
        let a = self.next_8_bits();
        let b = self.next_8_bits();
        let _padding = self.next_8_bits();
        if a as usize >= REGISTERS {
            return self.give_up(start, op, FaultKind::NoSuchRegister(a));
        }
        if b as usize >= REGISTERS {
            return self.give_up(start, op, FaultKind::NoSuchRegister(b));
        }
        let x: i32 = self.regs[a as usize];
        let y: i32 = self.regs[b as usize];
        self.compare = match op {
            OpCode::Eq => x == y,
            OpCode::NotEq => x != y,
            OpCode::Greater => x > y,
            OpCode::Less => x < y,
            OpCode::GreaterEq => x >= y,
            _ => x <= y,
        };
        assert(self@ == before.execute());
        self.standing()
    }

    /// Executes the instruction at the program counter, if there is one.
    fn exec_instruction(&mut self) -> (status: Status)
        ensures
            final(self)@ == old(self)@.step().0,
            status == old(self)@.step().1,
    {
        if self.is_done() {
            return Status::Finished;
        }
        let ghost before = self@;
        let start = self.pc;
        let byte = self.code[start];
        let op = self.decode_opcode();
        if let OpCode::Bad = op {
            return self.give_up(start, op, FaultKind::InvalidOpcode(byte));
        }
        if self.code.len() - start < op.width() {
            return self.give_up(start, op, FaultKind::MissingOperands);
        }
        match op {
            OpCode::Halt => {
                proof {
                    reveal_with_fuel(Machine::bad_register, 2);
                }
                Status::Halted
            },
            OpCode::Load => self.exec_load(Ghost(before)),
            OpCode::Add | OpCode::Sub | OpCode::Mul | OpCode::Div => self.exec_arithmetic(
                op,
                Ghost(before),
            ),
            OpCode::Jump | OpCode::JumpF | OpCode::JumpB | OpCode::JumpEq | OpCode::JumpNeq => {
                self.exec_jump(op, Ghost(before))
            },
            _ => self.exec_comparison(op, Ghost(before)),
        }
    }

    /// Executes one instruction and reports whether the program goes on.
    ///
    /// With the program counter at or past the end of the code nothing
    /// happens and the tick reports `Finished`. A `Halt`, an invalid opcode
    /// and every other fault consume the opcode byte and nothing else.
    pub fn tick(&mut self) -> (status: Status)
        ensures
            final(self)@ == old(self)@.step().0,
            status == old(self)@.step().1,
    {
        self.exec_instruction()
    }

    /// Executes instructions until one reports something other than
    /// `Running`, but no more than `limit` of them. A program can loop for
    /// ever; the limit makes every run end.
    pub fn run(&mut self, limit: usize) -> (status: Status)
        ensures
            final(self)@ == old(self)@.run(limit as nat).0,
            status == old(self)@.run(limit as nat).1,
    {
        let mut status = self.standing();
        let mut left: usize = limit;
        while left > 0 && status == Status::Running
            invariant
                status == Status::Running ==> !self@.done() && old(self)@.run(limit as nat)
                    == self@.run(left as nat),
                status != Status::Running ==> old(self)@.run(limit as nat) == (self@, status),
            decreases left,
        {
            status = self.exec_instruction();
            left -= 1;
        }
        status
    }

    /// Appends one byte to the code.
    pub fn add_byte(&mut self, byte: u8)
        ensures
            final(self)@ == (Machine { code: old(self)@.code.push(byte), ..old(self)@ }),
    {
        self.code.push(byte);
    }

    /// The code held by the engine.
    pub fn instructions(&self) -> (code: &Vec<u8>)
        ensures
            code@ == self@.code,
    {
        &self.code
    }

    /// The general-purpose registers.
    pub fn registers(&self) -> (regs: &[i32; 32])
        ensures
            regs@ == self@.regs,
    {
        &self.regs
    }
}

} // verus!
