//! The virtual machine: a fetch/decode/execute loop over a 32-register
//! integer machine with a program counter, a division remainder and a
//! growable zero-filled byte heap.
//!
//! The machine's behaviour is pinned down by the mathematical step
//! function [`vm_step`]: one step either continues, halts cleanly (end of
//! program, `HLT`, or `IGL`), or faults, leaving the state unchanged
//! (out-of-range register operand, truncated instruction slot, division
//! by zero, arithmetic out of the register range, or a jump target that
//! is no valid program index).

use vstd::prelude::*;

use crate::instruction::{opcode_of, Opcode};

verus! {

/// The mathematical state of the machine.
#[verifier::ext_equal]
pub ghost struct VmState {
    pub registers: Seq<i32>,
    pub pc: int,
    pub program: Seq<u8>,
    pub remainder: u32,
    pub heap: Seq<u8>,
}

/// What one step of the machine reports.
pub ghost enum StepKind {
    /// An instruction was executed; execution goes on.
    Continue,
    /// The program counter is past the end of the program.
    EndOfProgram,
    /// A `HLT` instruction was executed.
    Halt,
    /// An illegal (unassigned) opcode byte was decoded.
    Illegal,
    /// The instruction could not be executed; the state is unchanged.
    Fault,
}

/// One step's outcome: the state after the step and what the step reports.
#[verifier::ext_equal]
pub ghost struct StepRes {
    pub s: VmState,
    pub kind: StepKind,
}

impl VmState {
    /// The machine always carries exactly 32 registers.
    pub open spec fn wf(self) -> bool {
        self.registers.len() == 32 && self.pc >= 0
    }
}

/// `n` zero bytes.
pub open spec fn zero_bytes(n: nat) -> Seq<u8> {
    Seq::new(n, |i: int| 0u8)
}

/// Whether a mathematical integer fits a 32-bit register.
pub open spec fn fits_i32(v: int) -> bool {
    i32::MIN <= v <= i32::MAX
}

/// The value of a 16-bit big-endian immediate.
pub open spec fn imm16(hi: u8, lo: u8) -> int {
    hi * 256 + lo
}

/// The magnitude of an integer.
pub open spec fn abs_int(a: int) -> int {
    if a < 0 {
        -a
    } else {
        a
    }
}

/// Division truncated toward zero, as the machine's `DIV` computes it.
pub open spec fn trunc_div(a: int, b: int) -> int {
    if (a < 0) == (b < 0) {
        abs_int(a) / abs_int(b)
    } else {
        -(abs_int(a) / abs_int(b))
    }
}

/// The remainder matching [`trunc_div`]: it carries the sign of the
/// dividend.
pub open spec fn trunc_rem(a: int, b: int) -> int {
    if a < 0 {
        -(abs_int(a) % abs_int(b))
    } else {
        abs_int(a) % abs_int(b)
    }
}

/// A remainder reinterpreted as the 32-bit word the machine stores:
/// negative remainders wrap modulo 2^32.
pub open spec fn rem_word(r: int) -> int {
    if r >= 0 {
        r
    } else {
        r + 0x1_0000_0000
    }
}

/// Whether a comparison opcode holds of two register values.
pub open spec fn comparison_holds(op: Opcode, a: i32, b: i32) -> bool {
    match op {
        Opcode::EQ => a == b,
        Opcode::NEQ => a != b,
        Opcode::GT => a > b,
        Opcode::LT => a < b,
        Opcode::GTQ => a >= b,
        Opcode::LTQ => a <= b,
        _ => false,
    }
}

/// A step that leaves the state unchanged and reports a fault.
pub open spec fn step_fault(s: VmState) -> StepRes {
    StepRes { s, kind: StepKind::Fault }
}

/// `LOAD dst, imm16`: the destination register receives the immediate.
pub open spec fn step_load(s: VmState) -> StepRes {
    let p = s.program;
    let pc = s.pc;
    if pc + 4 <= p.len() && p[pc + 1] < 32 {
        StepRes {
            s: VmState {
                registers: s.registers.update(p[pc + 1] as int, imm16(p[pc + 2], p[pc + 3]) as i32),
                pc: pc + 4,
                ..s
            },
            kind: StepKind::Continue,
        }
    } else {
        step_fault(s)
    }
}

/// `ADD`/`SUB`/`MUL dst, a, b`: the destination register receives the
/// arithmetic result, which must fit a register.
pub open spec fn step_arith(s: VmState, op: Opcode) -> StepRes {
    let p = s.program;
    let pc = s.pc;
    if pc + 4 <= p.len() && p[pc + 1] < 32 && p[pc + 2] < 32 && p[pc + 3] < 32 {
        let a = s.registers[p[pc + 2] as int] as int;
        let b = s.registers[p[pc + 3] as int] as int;
        let v = match op {
            Opcode::ADD => a + b,
            Opcode::SUB => a - b,
            Opcode::MUL => a * b,
            _ => 0,
        };
        if fits_i32(v) {
            StepRes {
                s: VmState {
                    registers: s.registers.update(p[pc + 1] as int, v as i32),
                    pc: pc + 4,
                    ..s
                },
                kind: StepKind::Continue,
            }
        } else {
            step_fault(s)
        }
    } else {
        step_fault(s)
    }
}

/// `DIV dst, a, b`: truncated quotient to the destination register, the
/// matching remainder (as a 32-bit word) to the remainder register.
pub open spec fn step_div(s: VmState) -> StepRes {
    let p = s.program;
    let pc = s.pc;
    if pc + 4 <= p.len() && p[pc + 1] < 32 && p[pc + 2] < 32 && p[pc + 3] < 32 {
        let a = s.registers[p[pc + 2] as int] as int;
        let b = s.registers[p[pc + 3] as int] as int;
        if b != 0 && fits_i32(trunc_div(a, b)) {
            StepRes {
                s: VmState {
                    registers: s.registers.update(p[pc + 1] as int, trunc_div(a, b) as i32),
                    remainder: rem_word(trunc_rem(a, b)) as u32,
                    pc: pc + 4,
                    ..s
                },
                kind: StepKind::Continue,
            }
        } else {
            step_fault(s)
        }
    } else {
        step_fault(s)
    }
}

/// `EQ`/`NEQ`/`GT`/`LT`/`GTQ`/`LTQ dst, a, b`: the destination register
/// receives 1 where the comparison holds, else 0.
pub open spec fn step_cmp(s: VmState, op: Opcode) -> StepRes {
    let p = s.program;
    let pc = s.pc;
    if pc + 4 <= p.len() && p[pc + 1] < 32 && p[pc + 2] < 32 && p[pc + 3] < 32 {
        let a = s.registers[p[pc + 2] as int];
        let b = s.registers[p[pc + 3] as int];
        let v: i32 = if comparison_holds(op, a, b) {
            1
        } else {
            0
        };
        StepRes {
            s: VmState { registers: s.registers.update(p[pc + 1] as int, v), pc: pc + 4, ..s },
            kind: StepKind::Continue,
        }
    } else {
        step_fault(s)
    }
}

/// `JMP t`: the program counter becomes the target register's value.
pub open spec fn step_jmp(s: VmState) -> StepRes {
    let p = s.program;
    let pc = s.pc;
    if pc + 2 <= p.len() && p[pc + 1] < 32 {
        let target = s.registers[p[pc + 1] as int] as int;
        if 0 <= target <= usize::MAX {
            StepRes { s: VmState { pc: target, ..s }, kind: StepKind::Continue }
        } else {
            step_fault(s)
        }
    } else {
        step_fault(s)
    }
}

/// `JMPB t`: relative backward jump by the target register's value,
/// counted after the operand byte is consumed.
pub open spec fn step_jmpb(s: VmState) -> StepRes {
    let p = s.program;
    let pc = s.pc;
    if pc + 2 <= p.len() && p[pc + 1] < 32 {
        let target = s.registers[p[pc + 1] as int] as int;
        if 0 <= target <= pc + 2 {
            StepRes { s: VmState { pc: pc + 2 - target, ..s }, kind: StepKind::Continue }
        } else {
            step_fault(s)
        }
    } else {
        step_fault(s)
    }
}

/// `JMPF t`: relative forward jump by the target register's value,
/// counted after the operand byte is consumed.
pub open spec fn step_jmpf(s: VmState) -> StepRes {
    let p = s.program;
    let pc = s.pc;
    if pc + 2 <= p.len() && p[pc + 1] < 32 {
        let target = s.registers[p[pc + 1] as int] as int;
        if 0 <= target && pc + 2 + target <= usize::MAX {
            StepRes { s: VmState { pc: pc + 2 + target, ..s }, kind: StepKind::Continue }
        } else {
            step_fault(s)
        }
    } else {
        step_fault(s)
    }
}

/// `JEQ t, flag` (with `flag_value` 1) and `JNEQ t, flag` (with
/// `flag_value` 0): jump to the target register's value when the flag
/// register holds `flag_value`, else fall through past the two operand
/// bytes.
pub open spec fn step_jcond(s: VmState, flag_value: i32) -> StepRes {
    let p = s.program;
    let pc = s.pc;
    if pc + 3 <= p.len() && p[pc + 1] < 32 && p[pc + 2] < 32 {
        let target = s.registers[p[pc + 1] as int] as int;
        let taken = s.registers[p[pc + 2] as int] == flag_value;
        if taken {
            if 0 <= target <= usize::MAX {
                StepRes { s: VmState { pc: target, ..s }, kind: StepKind::Continue }
            } else {
                step_fault(s)
            }
        } else {
            StepRes { s: VmState { pc: pc + 3, ..s }, kind: StepKind::Continue }
        }
    } else {
        step_fault(s)
    }
}

/// `ALOC r`: the heap grows by the register's value in zero bytes; a
/// non-positive value grows it by nothing.
pub open spec fn step_aloc(s: VmState) -> StepRes {
    let p = s.program;
    let pc = s.pc;
    if pc + 2 <= p.len() && p[pc + 1] < 32 {
        let n = s.registers[p[pc + 1] as int] as int;
        if n <= 0 {
            StepRes { s: VmState { pc: pc + 2, ..s }, kind: StepKind::Continue }
        } else if s.heap.len() + n <= usize::MAX {
            StepRes {
                s: VmState { heap: s.heap + zero_bytes(n as nat), pc: pc + 2, ..s },
                kind: StepKind::Continue,
            }
        } else {
            step_fault(s)
        }
    } else {
        step_fault(s)
    }
}

/// One step of the machine: fetch the opcode byte at the program
/// counter, decode, and execute. Total: every state steps to a defined
/// outcome.
pub open spec fn vm_step(s: VmState) -> StepRes {
    if !(0 <= s.pc < s.program.len()) {
        StepRes { s, kind: StepKind::EndOfProgram }
    } else {
        match opcode_of(s.program[s.pc]) {
            Opcode::LOAD => step_load(s),
            Opcode::ADD => step_arith(s, Opcode::ADD),
            Opcode::SUB => step_arith(s, Opcode::SUB),
            Opcode::MUL => step_arith(s, Opcode::MUL),
            Opcode::DIV => step_div(s),
            Opcode::HLT => StepRes {
                s: VmState { pc: s.pc + 1, ..s },
                kind: StepKind::Halt,
            },
            Opcode::JMP => step_jmp(s),
            Opcode::JMPB => step_jmpb(s),
            Opcode::JMPF => step_jmpf(s),
            Opcode::EQ => step_cmp(s, Opcode::EQ),
            Opcode::NEQ => step_cmp(s, Opcode::NEQ),
            Opcode::GT => step_cmp(s, Opcode::GT),
            Opcode::LT => step_cmp(s, Opcode::LT),
            Opcode::GTQ => step_cmp(s, Opcode::GTQ),
            Opcode::LTQ => step_cmp(s, Opcode::LTQ),
            Opcode::JEQ => step_jcond(s, 1),
            Opcode::JNEQ => step_jcond(s, 0),
            Opcode::ALOC => step_aloc(s),
            Opcode::IGL => StepRes {
                s: VmState { pc: s.pc + 1, ..s },
                kind: StepKind::Illegal,
            },
        }
    }
}

/// The register-based virtual machine.
pub struct VM {
    /// The 32 general-purpose registers.
    pub registers: Vec<i32>,
    /// The program counter: an index into `program`.
    pub pc: usize,
    /// The flat byte stream of 4-byte instruction slots.
    pub program: Vec<u8>,
    /// The remainder of the last `DIV`, as a 32-bit word.
    pub remainder: u32,
    /// The growable, zero-filled heap.
    pub heap: Vec<u8>,
}

impl View for VM {
    type V = VmState;

    open spec fn view(&self) -> VmState {
        VmState {
            registers: self.registers@,
            pc: self.pc as int,
            program: self.program@,
            remainder: self.remainder,
            heap: self.heap@,
        }
    }
}

impl VM {
    /// The machine's invariant: 32 registers.
    pub open spec fn wf(self) -> bool {
        self@.wf()
    }

    /// A fresh machine: all registers 0, empty program, empty heap.
    pub fn new() -> (r: VM)
        ensures
            r.wf(),
            r@.registers == Seq::new(32, |i: int| 0i32),
            r@.pc == 0,
            r@.program == Seq::<u8>::empty(),
            r@.remainder == 0,
            r@.heap == Seq::<u8>::empty(),
    {
        let registers = make_zero_registers();
        let r = VM { registers, pc: 0, program: Vec::new(), remainder: 0, heap: Vec::new() };
        proof {
            assert(r@.program =~= Seq::<u8>::empty());
            assert(r@.heap =~= Seq::<u8>::empty());
        }
        r
    }

    /// Executes one step and reports whether the machine is done: a clean
    /// halt (end of program, `HLT`, `IGL`) or a fault.
    pub fn execute_instruction(&mut self) -> (done: bool)
        requires
            old(self).wf(),
        ensures
            final(self).wf(),
            final(self)@ == vm_step(old(self)@).s,
            done == !(vm_step(old(self)@).kind is Continue),
    {
        if self.pc >= self.program.len() {
            return true;
        }
        let op = Opcode::from_byte(self.program[self.pc]);
        match op {
            Opcode::LOAD => {
                if self.program.len() - self.pc < 4 {
                    return true;
                }
                let dst = self.program[self.pc + 1];
                if dst >= 32 {
                    return true;
                }
                let hi = self.program[self.pc + 2];
                let lo = self.program[self.pc + 3];
                let imm: u32 = (hi as u32) * 256 + (lo as u32);
                self.registers[dst as usize] = imm as i32;
                self.pc = self.pc + 4;
                false
            },
            Opcode::ADD | Opcode::SUB | Opcode::MUL => {
                if self.program.len() - self.pc < 4 {
                    return true;
                }
                let dst = self.program[self.pc + 1];
                let ra = self.program[self.pc + 2];
                let rb = self.program[self.pc + 3];
                if dst >= 32 || ra >= 32 || rb >= 32 {
                    return true;
                }
                let a = self.registers[ra as usize];
                let b = self.registers[rb as usize];
                proof {
                    assert(i64::MIN <= (a as int) * (b as int) <= i64::MAX) by (nonlinear_arith)
                        requires
                            i32::MIN <= a <= i32::MAX,
                            i32::MIN <= b <= i32::MAX,
                    ;
                }
                let v: i64 = match op {
                    Opcode::ADD => a as i64 + b as i64,
                    Opcode::SUB => a as i64 - b as i64,
                    _ => a as i64 * b as i64,
                };
                if v < i32::MIN as i64 || v > i32::MAX as i64 {
                    return true;
                }
                self.registers[dst as usize] = v as i32;
                self.pc = self.pc + 4;
                false
            },
            Opcode::DIV => {
                if self.program.len() - self.pc < 4 {
                    return true;
                }
                let dst = self.program[self.pc + 1];
                let ra = self.program[self.pc + 2];
                let rb = self.program[self.pc + 3];
                if dst >= 32 || ra >= 32 || rb >= 32 {
                    return true;
                }
                let a = self.registers[ra as usize];
                let b = self.registers[rb as usize];
                if b == 0 {
                    return true;
                }
                let abs_a: u64 = if a < 0 {
                    (-(a as i64)) as u64
                } else {
                    a as u64
                };
                let abs_b: u64 = if b < 0 {
                    (-(b as i64)) as u64
                } else {
                    b as u64
                };
                let q: u64 = abs_a / abs_b;
                let m: u64 = abs_a % abs_b;
                proof {
                    assert(abs_a as int == abs_int(a as int));
                    assert(abs_b as int == abs_int(b as int));
                    assert(q <= abs_a) by (nonlinear_arith)
                        requires
                            q == abs_a / abs_b,
                            abs_b >= 1,
                    ;
                }
                let negative = (a < 0) != (b < 0);
                if !negative && q > i32::MAX as u64 {
                    return true;
                }
                let quotient: i64 = if negative {
                    -(q as i64)
                } else {
                    q as i64
                };
                let rem: i64 = if a < 0 {
                    -(m as i64)
                } else {
                    m as i64
                };
                proof {
                    assert(quotient as int == trunc_div(a as int, b as int));
                    assert(rem as int == trunc_rem(a as int, b as int));
                }
                self.registers[dst as usize] = quotient as i32;
                self.remainder = if rem >= 0 {
                    rem as u32
                } else {
                    (rem + 0x1_0000_0000) as u32
                };
                self.pc = self.pc + 4;
                false
            },
            Opcode::EQ | Opcode::NEQ | Opcode::GT | Opcode::LT | Opcode::GTQ | Opcode::LTQ => {
                if self.program.len() - self.pc < 4 {
                    return true;
                }
                let dst = self.program[self.pc + 1];
                let ra = self.program[self.pc + 2];
                let rb = self.program[self.pc + 3];
                if dst >= 32 || ra >= 32 || rb >= 32 {
                    return true;
                }
                let a = self.registers[ra as usize];
                let b = self.registers[rb as usize];
                let holds = match op {
                    Opcode::EQ => a == b,
                    Opcode::NEQ => a != b,
                    Opcode::GT => a > b,
                    Opcode::LT => a < b,
                    Opcode::GTQ => a >= b,
                    _ => a <= b,
                };
                self.registers[dst as usize] = if holds {
                    1
                } else {
                    0
                };
                self.pc = self.pc + 4;
                false
            },
            Opcode::JMP => {
                if self.program.len() - self.pc < 2 {
                    return true;
                }
                let t = self.program[self.pc + 1];
                if t >= 32 {
                    return true;
                }
                let target = self.registers[t as usize];
                if target < 0 || target as u64 > usize::MAX as u64 {
                    return true;
                }
                self.pc = target as usize;
                false
            },
            Opcode::JMPB => {
                if self.program.len() - self.pc < 2 {
                    return true;
                }
                let t = self.program[self.pc + 1];
                if t >= 32 {
                    return true;
                }
                let target = self.registers[t as usize];
                let base = self.pc + 2;
                if target < 0 || target as u64 > base as u64 {
                    return true;
                }
                self.pc = base - target as usize;
                false
            },
            Opcode::JMPF => {
                if self.program.len() - self.pc < 2 {
                    return true;
                }
                let t = self.program[self.pc + 1];
                if t >= 32 {
                    return true;
                }
                let target = self.registers[t as usize];
                let base = self.pc + 2;
                if target < 0 || target as u64 > usize::MAX as u64 - base as u64 {
                    return true;
                }
                self.pc = base + target as usize;
                false
            },
            Opcode::JEQ | Opcode::JNEQ => {
                if self.program.len() - self.pc < 3 {
                    return true;
                }
                let t = self.program[self.pc + 1];
                let flag = self.program[self.pc + 2];
                if t >= 32 || flag >= 32 {
                    return true;
                }
                let flag_value: i32 = if matches!(op, Opcode::JEQ) {
                    1
                } else {
                    0
                };
                if self.registers[flag as usize] == flag_value {
                    let target = self.registers[t as usize];
                    if target < 0 || target as u64 > usize::MAX as u64 {
                        return true;
                    }
                    self.pc = target as usize;
                } else {
                    self.pc = self.pc + 3;
                }
                false
            },
            Opcode::ALOC => {
                if self.program.len() - self.pc < 2 {
                    return true;
                }
                let r = self.program[self.pc + 1];
                if r >= 32 {
                    return true;
                }
                let n = self.registers[r as usize];
                if n > 0 {
                    if n as u64 > usize::MAX as u64 - self.heap.len() as u64 {
                        return true;
                    }
                    grow_zeroed(&mut self.heap, n as usize);
                }
                self.pc = self.pc + 2;
                proof {
                    assert(self@ =~= vm_step(old(self)@).s);
                }
                false
            },
            Opcode::HLT => {
                self.pc = self.pc + 1;
                true
            },
            Opcode::IGL => {
                self.pc = self.pc + 1;
                true
            },
        }
    }

    /// Executes exactly one step.
    pub fn run_once(&mut self)
        requires
            old(self).wf(),
        ensures
            final(self).wf(),
            final(self)@ == vm_step(old(self)@).s,
    {
        self.execute_instruction();
    }
}

/// The state after at most `n` steps: stepping applies the first
/// non-continuing step and then stops, whatever fuel is left.
pub open spec fn run_n(s: VmState, n: nat) -> VmState
    decreases n,
{
    if n == 0 {
        s
    } else if vm_step(s).kind is Continue {
        run_n(vm_step(s).s, (n - 1) as nat)
    } else {
        vm_step(s).s
    }
}

/// Whether a non-continuing step is reached (and applied) within `n`
/// steps.
pub open spec fn runs_out(s: VmState, n: nat) -> bool
    decreases n,
{
    if n == 0 {
        false
    } else if vm_step(s).kind is Continue {
        runs_out(vm_step(s).s, (n - 1) as nat)
    } else {
        true
    }
}

/// Whether execution from a state reaches a non-continuing step at all.
/// `run` requires it; a program that loops forever does not satisfy it.
pub open spec fn halts(s: VmState) -> bool {
    exists|n: nat| runs_out(s, n)
}

/// Peeling one step off the back of a run that has not stopped yet.
proof fn lemma_run_n_snoc(s: VmState, n: nat)
    requires
        !runs_out(s, n),
    ensures
        run_n(s, (n + 1) as nat) == vm_step(run_n(s, n)).s,
        runs_out(s, (n + 1) as nat) == !(vm_step(run_n(s, n)).kind is Continue),
    decreases n,
{
    if n == 0 {
        let s1 = vm_step(s).s;
        assert(run_n(s1, 0) == s1);
        assert(!runs_out(s1, 0));
        assert(run_n(s, 1) == vm_step(s).s);
        assert(runs_out(s, 1) == !(vm_step(s).kind is Continue));
    } else if vm_step(s).kind is Continue {
        let s1 = vm_step(s).s;
        assert(!runs_out(s1, (n - 1) as nat));
        lemma_run_n_snoc(s1, (n - 1) as nat);
        assert(run_n(s, (n + 1) as nat) == run_n(s1, n));
        assert(run_n(s, n) == run_n(s1, (n - 1) as nat));
        assert(runs_out(s, (n + 1) as nat) == runs_out(s1, n));
    } else {
        assert(runs_out(s, n));
    }
}

/// Once a run has stopped, more fuel changes nothing.
pub proof fn lemma_runs_out_mono(s: VmState, m: nat, n: nat)
    requires
        runs_out(s, m),
        m <= n,
    ensures
        runs_out(s, n),
        run_n(s, n) == run_n(s, m),
    decreases m,
{
    if vm_step(s).kind is Continue {
        lemma_runs_out_mono(vm_step(s).s, (m - 1) as nat, (n - 1) as nat);
    }
}

/// The stopped state of a run is unique: any two fuels that suffice give
/// the same state.
pub proof fn lemma_run_halt_unique(s: VmState, m: nat, n: nat)
    requires
        runs_out(s, m),
        runs_out(s, n),
    ensures
        run_n(s, m) == run_n(s, n),
{
    if m <= n {
        lemma_runs_out_mono(s, m, n);
    } else {
        lemma_runs_out_mono(s, n, m);
    }
}

impl VM {
    /// Steps until a step reports that the machine is done: end of
    /// program, `HLT`, `IGL`, or a fault. The machine must be known to
    /// stop; the state reached is the unique stopped state of the run
    /// (see [`lemma_run_halt_unique`]).
    pub fn run(&mut self)
        requires
            old(self).wf(),
            halts(old(self)@),
        ensures
            final(self).wf(),
            exists|n: nat|
                #![trigger runs_out(old(self)@, n)]
                runs_out(old(self)@, n) && final(self)@ == run_n(old(self)@, n),
    {
        let ghost s0 = self@;
        let ghost n0: nat = choose|n: nat| runs_out(s0, n);
        let ghost mut i: nat = 0;
        let mut is_done = false;
        while !is_done
            invariant
                self.wf(),
                runs_out(s0, n0),
                !is_done ==> !runs_out(s0, i) && self@ == run_n(s0, i) && i <= n0,
                is_done ==> runs_out(s0, i) && self@ == run_n(s0, i),
            decreases n0 - i,
        {
            proof {
                if i >= n0 {
                    lemma_runs_out_mono(s0, n0, i);
                }
                lemma_run_n_snoc(s0, i);
            }
            is_done = self.execute_instruction();
            proof {
                i = i + 1;
                if !is_done && i > n0 {
                    lemma_runs_out_mono(s0, n0, i);
                }
            }
        }
    }
}

/// `ALOC` with the register holding `n` grows the heap by exactly
/// `max(0, n)` bytes and otherwise continues normally.
pub proof fn lemma_aloc_grows_heap(s: VmState)
    requires
        s.wf(),
        s.pc + 2 <= s.program.len(),
        opcode_of(s.program[s.pc]) == Opcode::ALOC,
        s.program[s.pc + 1] < 32,
        s.registers[s.program[s.pc + 1] as int] <= 0 || s.heap.len() + s.registers[s.program[
            s.pc + 1
        ] as int] <= usize::MAX,
    ensures
        vm_step(s).kind is Continue,
        vm_step(s).s.heap.len() == s.heap.len() + vstd::math::max(
            0,
            s.registers[s.program[s.pc + 1] as int] as int,
        ),
{
}

/// The opcodes that neither jump nor halt: each advances the program
/// counter by exactly one 4-byte slot when it continues.
pub open spec fn straightline_opcode(op: Opcode) -> bool {
    match op {
        Opcode::LOAD => true,
        Opcode::ADD => true,
        Opcode::DIV => true,
        Opcode::MUL => true,
        Opcode::SUB => true,
        Opcode::EQ => true,
        Opcode::NEQ => true,
        Opcode::GT => true,
        Opcode::LT => true,
        Opcode::GTQ => true,
        Opcode::LTQ => true,
        _ => false,
    }
}

/// A program of whole 4-byte slots whose every opcode neither jumps nor
/// halts.
pub open spec fn straightline_program(p: Seq<u8>) -> bool {
    p.len() % 4 == 0 && forall|k: int|
        0 <= k && 4 * k < p.len() ==> straightline_opcode(#[trigger] opcode_of(p[4 * k]))
}

/// One continuing step of a straightline program advances the program
/// counter by one whole slot and changes nothing else about the program.
proof fn lemma_straightline_step(s: VmState)
    requires
        s.wf(),
        straightline_program(s.program),
        s.pc % 4 == 0,
        s.pc < s.program.len(),
        vm_step(s).kind is Continue,
    ensures
        vm_step(s).s.wf(),
        vm_step(s).s.program == s.program,
        vm_step(s).s.pc == s.pc + 4,
{
    let k = s.pc / 4;
    vstd::arithmetic::div_mod::lemma_fundamental_div_mod(s.pc, 4);
    assert(s.pc == 4 * k);
    assert(straightline_opcode(opcode_of(s.program[4 * k])));
}

/// A program with no jumps and no halt instruction runs off its own end:
/// started `k` whole slots before the end, and faulting nowhere, the run
/// stops after those `k` steps with the program counter at the program's
/// length.
pub proof fn lemma_straightline_runs_to_end(s: VmState, k: nat)
    requires
        s.wf(),
        straightline_program(s.program),
        s.pc == s.program.len() - 4 * k,
        forall|m: nat| m < k ==> (#[trigger] vm_step(run_n(s, m)).kind) is Continue,
    ensures
        halts(s),
        runs_out(s, (k + 1) as nat),
        run_n(s, (k + 1) as nat).pc == s.program.len(),
        run_n(s, (k + 1) as nat).program == s.program,
    decreases k,
{
    if k == 0 {
        assert(runs_out(s, 1));
    } else {
        assert(vm_step(run_n(s, 0)).kind is Continue);
        vstd::arithmetic::div_mod::lemma_mod_multiples_vanish(-(k as int), s.pc, 4);
        assert(s.pc % 4 == 0);
        lemma_straightline_step(s);
        let s1 = vm_step(s).s;
        assert forall|m: nat| m < (k - 1) as nat implies (#[trigger] vm_step(
            run_n(s1, m),
        ).kind) is Continue by {
            assert(run_n(s, (m + 1) as nat) == run_n(s1, m));
            assert(vm_step(run_n(s, (m + 1) as nat)).kind is Continue);
        }
        lemma_straightline_runs_to_end(s1, (k - 1) as nat);
        assert(runs_out(s, (k + 1) as nat) == runs_out(s1, k as nat));
        assert(run_n(s, (k + 1) as nat) == run_n(s1, k as nat));
    }
}

/// A slot whose execution can never fault, whatever the registers hold:
/// a `LOAD` with an in-range destination, or a comparison with in-range
/// register operands. Arithmetic is left out: it faults when its result
/// leaves the register range.
pub open spec fn slot_never_faults(p: Seq<u8>, k: int) -> bool {
    let op = opcode_of(p[4 * k]);
    ||| (op == Opcode::LOAD && p[4 * k + 1] < 32)
    ||| ((op == Opcode::EQ || op == Opcode::NEQ || op == Opcode::GT || op == Opcode::LT || op
        == Opcode::GTQ || op == Opcode::LTQ) && p[4 * k + 1] < 32 && p[4 * k + 2] < 32 && p[4 * k
        + 3] < 32)
}

/// A straightline program none of whose slots can fault.
pub open spec fn fault_free_straightline_program(p: Seq<u8>) -> bool {
    &&& straightline_program(p)
    &&& forall|k: int| 0 <= k && 4 * k < p.len() ==> #[trigger] slot_never_faults(p, k)
}

/// A fault-free slot's step continues.
proof fn lemma_fault_free_slot_continues(s: VmState, k: int)
    requires
        s.wf(),
        s.pc == 4 * k,
        0 <= 4 * k,
        4 * k + 4 <= s.program.len(),
        slot_never_faults(s.program, k),
    ensures
        vm_step(s).kind is Continue,
{
    let op = opcode_of(s.program[4 * k]);
    if op == Opcode::LOAD {
        assert(vm_step(s) == step_load(s));
    } else {
        assert(vm_step(s) == step_cmp(s, op));
    }
}

/// A straightline program whose slots can never fault runs off its own
/// end without further hypotheses: started `k` whole slots before the
/// end, the run stops after those `k` steps with the program counter at
/// the program's length.
pub proof fn lemma_fault_free_straightline_runs_to_end(s: VmState, k: nat)
    requires
        s.wf(),
        fault_free_straightline_program(s.program),
        s.pc == s.program.len() - 4 * k,
    ensures
        halts(s),
        runs_out(s, (k + 1) as nat),
        run_n(s, (k + 1) as nat).pc == s.program.len(),
        run_n(s, (k + 1) as nat).program == s.program,
    decreases k,
{
    if k == 0 {
        assert(runs_out(s, 1));
    } else {
        let j = (s.program.len() - 4 * k) / 4;
        vstd::arithmetic::div_mod::lemma_mod_multiples_vanish(-(k as int), s.pc, 4);
        assert(s.pc % 4 == 0);
        vstd::arithmetic::div_mod::lemma_fundamental_div_mod(s.pc, 4);
        assert(s.pc == 4 * j);
        assert(slot_never_faults(s.program, j));
        lemma_fault_free_slot_continues(s, j);
        lemma_straightline_step(s);
        let s1 = vm_step(s).s;
        lemma_fault_free_straightline_runs_to_end(s1, (k - 1) as nat);
        assert(runs_out(s, (k + 1) as nat) == runs_out(s1, k as nat));
        assert(run_n(s, (k + 1) as nat) == run_n(s1, k as nat));
    }
}

/// Appends `n` zero bytes to a byte vector.
fn grow_zeroed(v: &mut Vec<u8>, n: usize)
    requires
        old(v)@.len() + n <= usize::MAX,
    ensures
        final(v)@ == old(v)@ + zero_bytes(n as nat),
{
    let mut i: usize = 0;
    while i < n
        invariant
            i <= n,
            v@.len() + n <= usize::MAX + i,
            v@ == old(v)@ + zero_bytes(i as nat),
        decreases n - i,
    {
        v.push(0);
        i = i + 1;
        proof {
            assert(v@ =~= old(v)@ + zero_bytes(i as nat));
        }
    }
}

/// A vector of 32 zeroed registers.
fn make_zero_registers() -> (r: Vec<i32>)
    ensures
        r@ == Seq::new(32, |i: int| 0i32),
{
    let mut v: Vec<i32> = Vec::new();
    let mut i: usize = 0;
    while i < 32
        invariant
            i <= 32,
            v@ == Seq::new(i as nat, |k: int| 0i32),
        decreases 32 - i,
    {
        v.push(0);
        i = i + 1;
        proof {
            assert(v@ =~= Seq::new(i as nat, |k: int| 0i32));
        }
    }
    v
}

} // verus!
