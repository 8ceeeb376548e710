//! The virtual machine: 32 signed registers, a byte program behind a
//! 64-byte header, a growable heap, read-only data, and the
//! fetch-decode-execute engine, specified instruction by instruction.
use crate::assembler::base_assembler::spec_pie_header;
use crate::assembler::{pie_header_prefix, spec_pie_prefix, PIE_HEADER_LENGTH};
use crate::instruction::{spec_opcode_from_u8, Opcode};
use vstd::prelude::*;

verus! {

/// A fault that stops the run loop: every one of these is reported to the
/// caller rather than crashing the host process.
#[derive(Debug, PartialEq, Eq, Structural, Clone, Copy)]
pub enum RuntimeFault {
    IllegalOpcode,
    DivideByZero,
    InvalidHeapDelta,
    OutOfBounds,
    Overflow,
}

/// What one cycle did: the machine goes on, halted in order, or stopped on
/// a fault.
#[derive(Debug, PartialEq, Eq, Structural, Clone, Copy)]
pub enum StepOutcome {
    Continue,
    Halt,
    Fault(RuntimeFault),
}

/// The mathematical shape of the machine.
#[verifier::ext_equal]
pub struct VmModel {
    pub registers: Seq<i32>,
    pub pc: int,
    pub heap: Seq<u8>,
    pub program: Seq<u8>,
    pub remainder: u32,
    pub equal_flag: bool,
    pub ro_data: Seq<u8>,
    pub output: Seq<u8>,
}

/// The fresh machine: everything empty, the counter at the first byte after
/// the header.
pub open spec fn spec_vm_init() -> VmModel {
    VmModel {
        registers: Seq::new(32, |i: int| 0i32),
        pc: 64,
        heap: Seq::<u8>::empty(),
        program: Seq::<u8>::empty(),
        remainder: 0,
        equal_flag: false,
        ro_data: Seq::<u8>::empty(),
        output: Seq::<u8>::empty(),
    }
}

/// Quotient rounded toward zero, as the machine's division computes it.
pub open spec fn spec_div_trunc(a: int, b: int) -> int {
    if (a >= 0) == (b >= 0) {
        vstd::math::abs(a) as int / vstd::math::abs(b) as int
    } else {
        -(vstd::math::abs(a) as int / vstd::math::abs(b) as int)
    }
}

/// Remainder of truncating division: its magnitude is the remainder of the
/// magnitudes and it carries the dividend's sign.
pub open spec fn spec_rem_trunc(a: int, b: int) -> int {
    if a >= 0 {
        vstd::math::abs(a) as int % vstd::math::abs(b) as int
    } else {
        -(vstd::math::abs(a) as int % vstd::math::abs(b) as int)
    }
}

/// A signed 32-bit value reinterpreted as the unsigned word with the same
/// bits.
pub open spec fn spec_u32_bits_of(v: int) -> u32 {
    if v >= 0 {
        v as u32
    } else {
        (v + 0x1_0000_0000) as u32
    }
}

/// The position of the first zero byte at or after `pos`, or the length
/// when there is none.
pub open spec fn spec_find_zero(b: Seq<u8>, pos: int) -> int
    decreases b.len() - pos,
{
    if pos < b.len() {
        if b[pos] == 0 {
            pos
        } else {
            spec_find_zero(b, pos + 1)
        }
    } else {
        pos
    }
}

/// Load: destination register, then a 16-bit big-endian immediate, stored
/// as a signed 32-bit value.
pub open spec fn spec_step_load(m: VmModel) -> (VmModel, StepOutcome) {
    if m.program.len() < m.pc + 3 {
        (m, StepOutcome::Fault(RuntimeFault::OutOfBounds))
    } else {
        let reg = m.program[m.pc];
        if reg >= 32 {
            (m, StepOutcome::Fault(RuntimeFault::OutOfBounds))
        } else {
            let v = (m.program[m.pc + 1] as u32) * 0x100 + (m.program[m.pc + 2] as u32);
            (
                VmModel {
                    registers: m.registers.update(reg as int, v as i32),
                    pc: m.pc + 3,
                    ..m
                },
                StepOutcome::Continue,
            )
        }
    }
}

/// Add, subtract, multiply: three registers, destination last; a result
/// outside the signed 32-bit range is a fault.
pub open spec fn spec_step_arith(m: VmModel, op: Opcode) -> (VmModel, StepOutcome) {
    if m.program.len() < m.pc + 3 {
        (m, StepOutcome::Fault(RuntimeFault::OutOfBounds))
    } else {
        let r1 = m.program[m.pc];
        let r2 = m.program[m.pc + 1];
        let rd = m.program[m.pc + 2];
        if r1 >= 32 || r2 >= 32 || rd >= 32 {
            (m, StepOutcome::Fault(RuntimeFault::OutOfBounds))
        } else {
            let a = m.registers[r1 as int];
            let b = m.registers[r2 as int];
            let v: int = if op == Opcode::ADD {
                a + b
            } else if op == Opcode::SUB {
                a - b
            } else {
                a * b
            };
            if v < i32::MIN || v > i32::MAX {
                (m, StepOutcome::Fault(RuntimeFault::Overflow))
            } else {
                (
                    VmModel { registers: m.registers.update(rd as int, v as i32), pc: m.pc + 3, ..m },
                    StepOutcome::Continue,
                )
            }
        }
    }
}

/// Divide: destination gets the truncating quotient, the remainder
/// register the remainder's bits; a zero divisor is a fault, as is the one
/// overflowing quotient.
pub open spec fn spec_step_div(m: VmModel) -> (VmModel, StepOutcome) {
    if m.program.len() < m.pc + 3 {
        (m, StepOutcome::Fault(RuntimeFault::OutOfBounds))
    } else {
        let r1 = m.program[m.pc];
        let r2 = m.program[m.pc + 1];
        let rd = m.program[m.pc + 2];
        if r1 >= 32 || r2 >= 32 || rd >= 32 {
            (m, StepOutcome::Fault(RuntimeFault::OutOfBounds))
        } else {
            let a = m.registers[r1 as int];
            let b = m.registers[r2 as int];
            if b == 0 {
                (m, StepOutcome::Fault(RuntimeFault::DivideByZero))
            } else if a == i32::MIN && b == -1 {
                (m, StepOutcome::Fault(RuntimeFault::Overflow))
            } else {
                let q = spec_div_trunc(a as int, b as int);
                let rem = spec_rem_trunc(a as int, b as int);
                (
                    VmModel {
                        registers: m.registers.update(rd as int, q as i32),
                        remainder: spec_u32_bits_of(rem),
                        pc: m.pc + 3,
                        ..m
                    },
                    StepOutcome::Continue,
                )
            }
        }
    }
}

/// Jump: the counter becomes the register's value, an absolute byte
/// offset; a negative target is out of bounds.
pub open spec fn spec_step_jmp(m: VmModel) -> (VmModel, StepOutcome) {
    if m.program.len() < m.pc + 1 {
        (m, StepOutcome::Fault(RuntimeFault::OutOfBounds))
    } else {
        let reg = m.program[m.pc];
        if reg >= 32 {
            (m, StepOutcome::Fault(RuntimeFault::OutOfBounds))
        } else {
            let t = m.registers[reg as int];
            if t < 0 {
                (m, StepOutcome::Fault(RuntimeFault::OutOfBounds))
            } else {
                (VmModel { pc: t as int, ..m }, StepOutcome::Continue)
            }
        }
    }
}

/// Jump forward or backward by the register's value, from just past the
/// operand byte; a negative distance, or one that leaves the address
/// space, is a fault.
pub open spec fn spec_step_jmp_rel(m: VmModel, forward: bool) -> (VmModel, StepOutcome) {
    if m.program.len() < m.pc + 1 {
        (m, StepOutcome::Fault(RuntimeFault::OutOfBounds))
    } else {
        let reg = m.program[m.pc];
        if reg >= 32 {
            (m, StepOutcome::Fault(RuntimeFault::OutOfBounds))
        } else {
            let d = m.registers[reg as int];
            if d < 0 {
                (m, StepOutcome::Fault(RuntimeFault::OutOfBounds))
            } else if forward {
                if m.pc + 1 + d > usize::MAX {
                    (m, StepOutcome::Fault(RuntimeFault::OutOfBounds))
                } else {
                    (VmModel { pc: m.pc + 1 + d, ..m }, StepOutcome::Continue)
                }
            } else {
                if d > m.pc + 1 {
                    (m, StepOutcome::Fault(RuntimeFault::OutOfBounds))
                } else {
                    (VmModel { pc: m.pc + 1 - d, ..m }, StepOutcome::Continue)
                }
            }
        }
    }
}

/// What a comparison opcode asks of its two values.
pub open spec fn spec_compare(op: Opcode, a: i32, b: i32) -> bool {
    if op == Opcode::EQ {
        a == b
    } else if op == Opcode::NEQ {
        a != b
    } else if op == Opcode::GT {
        a > b
    } else if op == Opcode::LT {
        a < b
    } else if op == Opcode::GTQ {
        a >= b
    } else {
        a <= b
    }
}

/// The comparison family: two registers and a padding byte, the shared
/// equality flag set to the comparison's outcome.
pub open spec fn spec_step_cmp(m: VmModel, op: Opcode) -> (VmModel, StepOutcome) {
    if m.program.len() < m.pc + 3 {
        (m, StepOutcome::Fault(RuntimeFault::OutOfBounds))
    } else {
        let r1 = m.program[m.pc];
        let r2 = m.program[m.pc + 1];
        if r1 >= 32 || r2 >= 32 {
            (m, StepOutcome::Fault(RuntimeFault::OutOfBounds))
        } else {
            let a = m.registers[r1 as int];
            let b = m.registers[r2 as int];
            (
                VmModel { equal_flag: spec_compare(op, a, b), pc: m.pc + 3, ..m },
                StepOutcome::Continue,
            )
        }
    }
}

/// The conditional jumps: the operand byte is consumed either way; the
/// jump is taken only when the flag matches the asked polarity.
pub open spec fn spec_step_jcond(m: VmModel, polarity: bool) -> (VmModel, StepOutcome) {
    if m.program.len() < m.pc + 1 {
        (m, StepOutcome::Fault(RuntimeFault::OutOfBounds))
    } else if m.equal_flag == polarity {
        let reg = m.program[m.pc];
        if reg >= 32 {
            (m, StepOutcome::Fault(RuntimeFault::OutOfBounds))
        } else {
            let t = m.registers[reg as int];
            if t < 0 {
                (m, StepOutcome::Fault(RuntimeFault::OutOfBounds))
            } else {
                (VmModel { pc: t as int, ..m }, StepOutcome::Continue)
            }
        }
    } else {
        (VmModel { pc: m.pc + 1, ..m }, StepOutcome::Continue)
    }
}

/// No operation: three padding bytes consumed.
pub open spec fn spec_step_nop(m: VmModel) -> (VmModel, StepOutcome) {
    if m.program.len() < m.pc + 3 {
        (m, StepOutcome::Fault(RuntimeFault::OutOfBounds))
    } else {
        (VmModel { pc: m.pc + 3, ..m }, StepOutcome::Continue)
    }
}

/// Heap allocation: the heap grows by the register's value, zero-filled;
/// shrinking, a negative delta, is refused as a fault, as is a length that
/// leaves the address space.
pub open spec fn spec_step_aloc(m: VmModel) -> (VmModel, StepOutcome) {
    if m.program.len() < m.pc + 1 {
        (m, StepOutcome::Fault(RuntimeFault::OutOfBounds))
    } else {
        let reg = m.program[m.pc];
        if reg >= 32 {
            (m, StepOutcome::Fault(RuntimeFault::OutOfBounds))
        } else {
            let d = m.registers[reg as int];
            if d < 0 {
                (m, StepOutcome::Fault(RuntimeFault::InvalidHeapDelta))
            } else if m.heap.len() + d > usize::MAX {
                (m, StepOutcome::Fault(RuntimeFault::InvalidHeapDelta))
            } else {
                (
                    VmModel { heap: m.heap + Seq::new(d as nat, |i: int| 0u8), pc: m.pc + 1, ..m },
                    StepOutcome::Continue,
                )
            }
        }
    }
}

/// Increment or decrement a register by one, with two padding bytes; a
/// result outside the signed 32-bit range is a fault.
pub open spec fn spec_step_incdec(m: VmModel, up: bool) -> (VmModel, StepOutcome) {
    if m.program.len() < m.pc + 3 {
        (m, StepOutcome::Fault(RuntimeFault::OutOfBounds))
    } else {
        let reg = m.program[m.pc];
        if reg >= 32 {
            (m, StepOutcome::Fault(RuntimeFault::OutOfBounds))
        } else {
            let v: int = if up {
                m.registers[reg as int] + 1
            } else {
                m.registers[reg as int] - 1
            };
            if v < i32::MIN || v > i32::MAX {
                (m, StepOutcome::Fault(RuntimeFault::Overflow))
            } else {
                (
                    VmModel {
                        registers: m.registers.update(reg as int, v as i32),
                        pc: m.pc + 3,
                        ..m
                    },
                    StepOutcome::Continue,
                )
            }
        }
    }
}

/// Print a read-only string: a 16-bit big-endian offset into the read-only
/// segment, the bytes up to the next null terminator; a valid UTF-8 span
/// goes to the output buffer, an invalid one is a recoverable error and
/// prints nothing. A span without a terminator is out of bounds.
pub open spec fn spec_step_prts(m: VmModel) -> (VmModel, StepOutcome) {
    if m.program.len() < m.pc + 2 {
        (m, StepOutcome::Fault(RuntimeFault::OutOfBounds))
    } else {
        let start = (m.program[m.pc] as u32) * 0x100 + (m.program[m.pc + 1] as u32);
        let z = spec_find_zero(m.ro_data, start as int);
        if z >= m.ro_data.len() {
            (m, StepOutcome::Fault(RuntimeFault::OutOfBounds))
        } else {
            let span = m.ro_data.subrange(start as int, z);
            let out = if vstd::utf8::valid_utf8(span) {
                m.output + span
            } else {
                m.output
            };
            (VmModel { output: out, pc: m.pc + 2, ..m }, StepOutcome::Continue)
        }
    }
}

/// One decoded opcode executed against a machine whose counter stands on
/// the first operand byte. A fault leaves the machine exactly there.
pub open spec fn spec_match_opcode(m: VmModel, op: Opcode) -> (VmModel, StepOutcome) {
    match op {
        Opcode::LOAD => spec_step_load(m),
        Opcode::ADD => spec_step_arith(m, Opcode::ADD),
        Opcode::SUB => spec_step_arith(m, Opcode::SUB),
        Opcode::MUL => spec_step_arith(m, Opcode::MUL),
        Opcode::DIV => spec_step_div(m),
        Opcode::JMP => spec_step_jmp(m),
        Opcode::JMPF => spec_step_jmp_rel(m, true),
        Opcode::JMPB => spec_step_jmp_rel(m, false),
        Opcode::EQ => spec_step_cmp(m, Opcode::EQ),
        Opcode::NEQ => spec_step_cmp(m, Opcode::NEQ),
        Opcode::GT => spec_step_cmp(m, Opcode::GT),
        Opcode::LT => spec_step_cmp(m, Opcode::LT),
        Opcode::GTQ => spec_step_cmp(m, Opcode::GTQ),
        Opcode::LTQ => spec_step_cmp(m, Opcode::LTQ),
        Opcode::JEQ => spec_step_jcond(m, true),
        Opcode::JNEQ => spec_step_jcond(m, false),
        Opcode::NOP => spec_step_nop(m),
        Opcode::AlOC => spec_step_aloc(m),
        Opcode::INC => spec_step_incdec(m, true),
        Opcode::DEC => spec_step_incdec(m, false),
        Opcode::PTRS => spec_step_prts(m),
        Opcode::HLT => (m, StepOutcome::Halt),
        Opcode::IGL => (m, StepOutcome::Fault(RuntimeFault::IllegalOpcode)),
    }
}

/// One whole cycle: the machine halts once the counter reaches the last
/// valid byte; otherwise the byte under the counter is decoded and
/// executed with the counter advanced past it.
pub open spec fn spec_step(m: VmModel) -> (VmModel, StepOutcome) {
    if m.program.len() == 0 || m.pc >= m.program.len() - 1 {
        (m, StepOutcome::Halt)
    } else {
        let op = spec_opcode_from_u8(m.program[m.pc]);
        spec_match_opcode(VmModel { pc: m.pc + 1, ..m }, op)
    }
}

/// Up to `fuel` cycles, stopping at the first halt or fault.
pub open spec fn spec_run_n(m: VmModel, fuel: nat) -> (VmModel, StepOutcome)
    decreases fuel,
{
    if fuel == 0 {
        (m, StepOutcome::Continue)
    } else {
        let s = spec_step(m);
        if s.1 == StepOutcome::Continue {
            spec_run_n(s.0, (fuel - 1) as nat)
        } else {
            s
        }
    }
}

/// A run that is still going after `k` cycles goes wherever the next cycle
/// goes.
pub proof fn lemma_run_n_step(m: VmModel, k: nat)
    requires
        spec_run_n(m, k).1 == StepOutcome::Continue,
    ensures
        spec_run_n(m, k + 1) == spec_step(spec_run_n(m, k).0),
    decreases k,
{
    if k > 0 {
        let s = spec_step(m);
        if s.1 == StepOutcome::Continue {
            lemma_run_n_step(s.0, (k - 1) as nat);
        }
    } else {
        let s = spec_step(m);
        if s.1 == StepOutcome::Continue {
            assert(spec_run_n(s.0, 0) == (s.0, StepOutcome::Continue));
        }
    }
}

/// The machine: registers, counter, heap, program, division remainder,
/// equality flag, read-only data and the print output buffer.
#[derive(Debug, PartialEq)]
pub struct Vm {
    pub registers: [i32; 32],
    pub pc: usize,
    pub heap: Vec<u8>,
    pub program: Vec<u8>,
    pub remainder: u32,
    pub equal_flag: bool,
    pub ro_data: Vec<u8>,
    pub output: Vec<u8>,
}

impl View for Vm {
    type V = VmModel;

    open spec fn view(&self) -> VmModel {
        VmModel {
            registers: self.registers@,
            pc: self.pc as int,
            heap: self.heap@,
            program: self.program@,
            remainder: self.remainder,
            equal_flag: self.equal_flag,
            ro_data: self.ro_data@,
            output: self.output@,
        }
    }
}

impl Default for Vm {
    fn default() -> (r: Self)
        ensures
            r@ == spec_vm_init(),
    {
        Vm::new()
    }
}

/// Assumed of `core::str::from_utf8`: it accepts exactly the valid UTF-8
/// byte sequences, the same ones `vstd`'s UTF-8 model accepts.
#[verifier::external_body]
fn utf8_check(b: &[u8]) -> (r: bool)
    ensures
        r == vstd::utf8::valid_utf8(b@),
{
    core::str::from_utf8(b).is_ok()
}

impl Vm {
    pub fn new() -> (r: Vm)
        ensures
            r@ == spec_vm_init(),
    {
        let v = Vm {
            registers: vstd::array::array_fill_for_copy_types::<i32, 32>(0),
            pc: 64,
            heap: Vec::new(),
            program: Vec::new(),
            remainder: 0,
            equal_flag: false,
            ro_data: Vec::new(),
            output: Vec::new(),
        };
        proof {
            assert(v.registers@ =~= Seq::new(32, |i: int| 0i32));
            assert(v@ =~= spec_vm_init());
        }
        v
    }

    /// Read the byte under the counter and step past it.
    fn decode_opcode(&mut self) -> (r: Opcode)
        requires
            old(self).pc < old(self).program@.len(),
        ensures
            r == spec_opcode_from_u8(old(self)@.program[old(self)@.pc]),
            final(self)@ == (VmModel { pc: old(self)@.pc + 1, ..old(self)@ }),
    {
        let n = self.program.len();
        let opcode = Opcode::from_u8(self.program[self.pc]);
        self.pc = self.pc + 1;
        proof {
            assert(self@ =~= (VmModel { pc: old(self)@.pc + 1, ..old(self)@ }));
        }
        opcode
    }

    fn step_load(&mut self) -> (r: StepOutcome)
        requires
            old(self).pc <= old(self).program@.len(),
        ensures
            (final(self)@, r) == spec_step_load(old(self)@),
    {
        let len = self.program.len();
        if len - self.pc < 3 {
            return StepOutcome::Fault(RuntimeFault::OutOfBounds);
        }
        let reg = self.program[self.pc];
        if reg >= 32 {
            return StepOutcome::Fault(RuntimeFault::OutOfBounds);
        }
        let hi = self.program[self.pc + 1];
        let lo = self.program[self.pc + 2];
        let v: u32 = (hi as u32) * 0x100 + (lo as u32);
        self.registers[reg as usize] = v as i32;
        self.pc = self.pc + 3;
        proof {
            assert(self@ =~= spec_step_load(old(self)@).0);
        }
        StepOutcome::Continue
    }

    fn step_arith(&mut self, op: Opcode) -> (r: StepOutcome)
        requires
            old(self).pc <= old(self).program@.len(),
            op == Opcode::ADD || op == Opcode::SUB || op == Opcode::MUL,
        ensures
            (final(self)@, r) == spec_step_arith(old(self)@, op),
    {
        let len = self.program.len();
        if len - self.pc < 3 {
            return StepOutcome::Fault(RuntimeFault::OutOfBounds);
        }
        let r1 = self.program[self.pc];
        let r2 = self.program[self.pc + 1];
        let rd = self.program[self.pc + 2];
        if r1 >= 32 || r2 >= 32 || rd >= 32 {
            return StepOutcome::Fault(RuntimeFault::OutOfBounds);
        }
        let a = self.registers[r1 as usize];
        let b = self.registers[r2 as usize];
        let v = match op {
            Opcode::ADD => a.checked_add(b),
            Opcode::SUB => a.checked_sub(b),
            _ => a.checked_mul(b),
        };
        match v {
            Some(x) => {
                self.registers[rd as usize] = x;
                self.pc = self.pc + 3;
                proof {
                    assert(self@ =~= spec_step_arith(old(self)@, op).0);
                }
                StepOutcome::Continue
            },
            None => StepOutcome::Fault(RuntimeFault::Overflow),
        }
    }

    fn step_div(&mut self) -> (r: StepOutcome)
        requires
            old(self).pc <= old(self).program@.len(),
        ensures
            (final(self)@, r) == spec_step_div(old(self)@),
    {
        let len = self.program.len();
        if len - self.pc < 3 {
            return StepOutcome::Fault(RuntimeFault::OutOfBounds);
        }
        let r1 = self.program[self.pc];
        let r2 = self.program[self.pc + 1];
        let rd = self.program[self.pc + 2];
        if r1 >= 32 || r2 >= 32 || rd >= 32 {
            return StepOutcome::Fault(RuntimeFault::OutOfBounds);
        }
        let a = self.registers[r1 as usize];
        let b = self.registers[r2 as usize];
        if b == 0 {
            return StepOutcome::Fault(RuntimeFault::DivideByZero);
        }
        if a == i32::MIN && b == -1 {
            return StepOutcome::Fault(RuntimeFault::Overflow);
        }
        let ua: u64 = if a < 0 {
            (-(a as i64)) as u64
        } else {
            a as u64
        };
        let ub: u64 = if b < 0 {
            (-(b as i64)) as u64
        } else {
            b as u64
        };
        let uq = ua / ub;
        let ur = ua % ub;
        proof {
            assert(uq * ub + ur == ua) by (nonlinear_arith)
                requires
                    ub > 0,
                    uq == ua / ub,
                    ur == ua % ub,
            ;
            assert(uq <= ua) by (nonlinear_arith)
                requires
                    ub >= 1,
                    uq * ub + ur == ua,
                    ur >= 0,
                    uq >= 0,
            ;
        }
        let q: i32 = if (a < 0) != (b < 0) {
            (-(uq as i64)) as i32
        } else {
            uq as i32
        };
        let rem: i32 = if a < 0 {
            (-(ur as i64)) as i32
        } else {
            ur as i32
        };
        let bits: u32 = if rem >= 0 {
            rem as u32
        } else {
            (((rem as i64) + 0x1_0000_0000) as u64) as u32
        };
        self.registers[rd as usize] = q;
        self.remainder = bits;
        self.pc = self.pc + 3;
        proof {
            assert(self@ =~= spec_step_div(old(self)@).0);
        }
        StepOutcome::Continue
    }

    fn step_jmp(&mut self) -> (r: StepOutcome)
        requires
            old(self).pc <= old(self).program@.len(),
        ensures
            (final(self)@, r) == spec_step_jmp(old(self)@),
    {
        let len = self.program.len();
        if len - self.pc < 1 {
            return StepOutcome::Fault(RuntimeFault::OutOfBounds);
        }
        let reg = self.program[self.pc];
        if reg >= 32 {
            return StepOutcome::Fault(RuntimeFault::OutOfBounds);
        }
        let t = self.registers[reg as usize];
        if t < 0 {
            return StepOutcome::Fault(RuntimeFault::OutOfBounds);
        }
        self.pc = t as usize;
        proof {
            assert(self@ =~= spec_step_jmp(old(self)@).0);
        }
        StepOutcome::Continue
    }

    fn step_jmp_rel(&mut self, forward: bool) -> (r: StepOutcome)
        requires
            old(self).pc <= old(self).program@.len(),
        ensures
            (final(self)@, r) == spec_step_jmp_rel(old(self)@, forward),
    {
        let len = self.program.len();
        if len - self.pc < 1 {
            return StepOutcome::Fault(RuntimeFault::OutOfBounds);
        }
        let reg = self.program[self.pc];
        if reg >= 32 {
            return StepOutcome::Fault(RuntimeFault::OutOfBounds);
        }
        let d = self.registers[reg as usize];
        if d < 0 {
            return StepOutcome::Fault(RuntimeFault::OutOfBounds);
        }
        let base = self.pc + 1;
        if forward {
            match base.checked_add(d as usize) {
                Some(t) => {
                    self.pc = t;
                    proof {
                        assert(self@ =~= spec_step_jmp_rel(old(self)@, forward).0);
                    }
                    StepOutcome::Continue
                },
                None => StepOutcome::Fault(RuntimeFault::OutOfBounds),
            }
        } else {
            let du = d as usize;
            if du > base {
                return StepOutcome::Fault(RuntimeFault::OutOfBounds);
            }
            self.pc = base - du;
            proof {
                assert(self@ =~= spec_step_jmp_rel(old(self)@, forward).0);
            }
            StepOutcome::Continue
        }
    }

    fn step_cmp(&mut self, op: Opcode) -> (r: StepOutcome)
        requires
            old(self).pc <= old(self).program@.len(),
            op == Opcode::EQ || op == Opcode::NEQ || op == Opcode::GT || op == Opcode::LT || op
                == Opcode::GTQ || op == Opcode::LTQ,
        ensures
            (final(self)@, r) == spec_step_cmp(old(self)@, op),
    {
        let len = self.program.len();
        if len - self.pc < 3 {
            return StepOutcome::Fault(RuntimeFault::OutOfBounds);
        }
        let r1 = self.program[self.pc];
        let r2 = self.program[self.pc + 1];
        if r1 >= 32 || r2 >= 32 {
            return StepOutcome::Fault(RuntimeFault::OutOfBounds);
        }
        let a = self.registers[r1 as usize];
        let b = self.registers[r2 as usize];
        let flag = match op {
            Opcode::EQ => a == b,
            Opcode::NEQ => a != b,
            Opcode::GT => a > b,
            Opcode::LT => a < b,
            Opcode::GTQ => a >= b,
            _ => a <= b,
        };
        self.equal_flag = flag;
        self.pc = self.pc + 3;
        proof {
            assert(self@ =~= spec_step_cmp(old(self)@, op).0);
        }
        StepOutcome::Continue
    }

    fn step_jcond(&mut self, polarity: bool) -> (r: StepOutcome)
        requires
            old(self).pc <= old(self).program@.len(),
        ensures
            (final(self)@, r) == spec_step_jcond(old(self)@, polarity),
    {
        let len = self.program.len();
        if len - self.pc < 1 {
            return StepOutcome::Fault(RuntimeFault::OutOfBounds);
        }
        if self.equal_flag == polarity {
            let reg = self.program[self.pc];
            if reg >= 32 {
                return StepOutcome::Fault(RuntimeFault::OutOfBounds);
            }
            let t = self.registers[reg as usize];
            if t < 0 {
                return StepOutcome::Fault(RuntimeFault::OutOfBounds);
            }
            self.pc = t as usize;
            proof {
                assert(self@ =~= spec_step_jcond(old(self)@, polarity).0);
            }
            StepOutcome::Continue
        } else {
            self.pc = self.pc + 1;
            proof {
                assert(self@ =~= spec_step_jcond(old(self)@, polarity).0);
            }
            StepOutcome::Continue
        }
    }

    fn step_nop(&mut self) -> (r: StepOutcome)
        requires
            old(self).pc <= old(self).program@.len(),
        ensures
            (final(self)@, r) == spec_step_nop(old(self)@),
    {
        let len = self.program.len();
        if len - self.pc < 3 {
            return StepOutcome::Fault(RuntimeFault::OutOfBounds);
        }
        self.pc = self.pc + 3;
        proof {
            assert(self@ =~= spec_step_nop(old(self)@).0);
        }
        StepOutcome::Continue
    }

    fn step_aloc(&mut self) -> (r: StepOutcome)
        requires
            old(self).pc <= old(self).program@.len(),
        ensures
            (final(self)@, r) == spec_step_aloc(old(self)@),
    {
        let len = self.program.len();
        if len - self.pc < 1 {
            return StepOutcome::Fault(RuntimeFault::OutOfBounds);
        }
        let reg = self.program[self.pc];
        if reg >= 32 {
            return StepOutcome::Fault(RuntimeFault::OutOfBounds);
        }
        let d = self.registers[reg as usize];
        if d < 0 {
            return StepOutcome::Fault(RuntimeFault::InvalidHeapDelta);
        }
        let du = d as usize;
        if self.heap.len().checked_add(du).is_none() {
            return StepOutcome::Fault(RuntimeFault::InvalidHeapDelta);
        }
        let ghost pre = self@.heap;
        let mut k: usize = 0;
        while k < du
            invariant
                0 <= k <= du,
                self@.heap == pre + Seq::new(k as nat, |i: int| 0u8),
                self@ == (VmModel { heap: self@.heap, ..old(self)@ }),
            decreases du - k,
        {
            self.heap.push(0);
            proof {
                assert(pre + Seq::new((k + 1) as nat, |i: int| 0u8) =~= (pre + Seq::new(
                    k as nat,
                    |i: int| 0u8,
                )).push(0u8));
            }
            k = k + 1;
        }
        self.pc = self.pc + 1;
        proof {
            assert(self@ =~= spec_step_aloc(old(self)@).0);
        }
        StepOutcome::Continue
    }

    fn step_incdec(&mut self, up: bool) -> (r: StepOutcome)
        requires
            old(self).pc <= old(self).program@.len(),
        ensures
            (final(self)@, r) == spec_step_incdec(old(self)@, up),
    {
        let len = self.program.len();
        if len - self.pc < 3 {
            return StepOutcome::Fault(RuntimeFault::OutOfBounds);
        }
        let reg = self.program[self.pc];
        if reg >= 32 {
            return StepOutcome::Fault(RuntimeFault::OutOfBounds);
        }
        let cur = self.registers[reg as usize];
        let v = if up {
            cur.checked_add(1)
        } else {
            cur.checked_sub(1)
        };
        match v {
            Some(x) => {
                self.registers[reg as usize] = x;
                self.pc = self.pc + 3;
                proof {
                    assert(self@ =~= spec_step_incdec(old(self)@, up).0);
                }
                StepOutcome::Continue
            },
            None => StepOutcome::Fault(RuntimeFault::Overflow),
        }
    }

    fn step_prts(&mut self) -> (r: StepOutcome)
        requires
            old(self).pc <= old(self).program@.len(),
        ensures
            (final(self)@, r) == spec_step_prts(old(self)@),
    {
        let len = self.program.len();
        if len - self.pc < 2 {
            return StepOutcome::Fault(RuntimeFault::OutOfBounds);
        }
        let hi = self.program[self.pc];
        let lo = self.program[self.pc + 1];
        let start: usize = ((hi as u32) * 0x100 + (lo as u32)) as usize;
        let rolen = self.ro_data.len();
        if start >= rolen {
            proof {
                assert(spec_find_zero(self@.ro_data, start as int) == start as int);
            }
            return StepOutcome::Fault(RuntimeFault::OutOfBounds);
        }
        let mut z: usize = start;
        while z < rolen && self.ro_data[z] != 0
            invariant
                start <= z <= rolen,
                rolen == self@.ro_data.len(),
                spec_find_zero(self@.ro_data, start as int) == spec_find_zero(
                    self@.ro_data,
                    z as int,
                ),
                self@ == old(self)@,
            decreases rolen - z,
        {
            z = z + 1;
        }
        if z == rolen {
            return StepOutcome::Fault(RuntimeFault::OutOfBounds);
        }
        let mut sp: Vec<u8> = Vec::new();
        let mut k: usize = start;
        while k < z
            invariant
                start <= k <= z <= self@.ro_data.len(),
                sp@ == self@.ro_data.subrange(start as int, k as int),
                self@ == old(self)@,
            decreases z - k,
        {
            sp.push(self.ro_data[k]);
            proof {
                assert(sp@ =~= self@.ro_data.subrange(start as int, k as int + 1));
            }
            k = k + 1;
        }
        if utf8_check(sp.as_slice()) {
            self.output.append(&mut sp);
        }
        self.pc = self.pc + 2;
        proof {
            assert(self@ =~= spec_step_prts(old(self)@).0);
        }
        StepOutcome::Continue
    }

    /// Execute one decoded opcode; the counter stands on the first operand
    /// byte.
    fn match_opcode(&mut self, opcode: Opcode) -> (r: StepOutcome)
        requires
            old(self).pc <= old(self).program@.len(),
        ensures
            (final(self)@, r) == spec_match_opcode(old(self)@, opcode),
    {
        match opcode {
            Opcode::LOAD => self.step_load(),
            Opcode::ADD => self.step_arith(Opcode::ADD),
            Opcode::SUB => self.step_arith(Opcode::SUB),
            Opcode::MUL => self.step_arith(Opcode::MUL),
            Opcode::DIV => self.step_div(),
            Opcode::JMP => self.step_jmp(),
            Opcode::JMPF => self.step_jmp_rel(true),
            Opcode::JMPB => self.step_jmp_rel(false),
            Opcode::EQ => self.step_cmp(Opcode::EQ),
            Opcode::NEQ => self.step_cmp(Opcode::NEQ),
            Opcode::GT => self.step_cmp(Opcode::GT),
            Opcode::LT => self.step_cmp(Opcode::LT),
            Opcode::GTQ => self.step_cmp(Opcode::GTQ),
            Opcode::LTQ => self.step_cmp(Opcode::LTQ),
            Opcode::JEQ => self.step_jcond(true),
            Opcode::JNEQ => self.step_jcond(false),
            Opcode::NOP => self.step_nop(),
            Opcode::AlOC => self.step_aloc(),
            Opcode::INC => self.step_incdec(true),
            Opcode::DEC => self.step_incdec(false),
            Opcode::PTRS => self.step_prts(),
            Opcode::HLT => StepOutcome::Halt,
            Opcode::IGL => StepOutcome::Fault(RuntimeFault::IllegalOpcode),
        }
    }

    /// One fetch-decode-execute cycle.
    fn execute_once(&mut self) -> (r: StepOutcome)
        ensures
            (final(self)@, r) == spec_step(old(self)@),
    {
        if self.program.len() == 0 || self.pc >= self.program.len() - 1 {
            return StepOutcome::Halt;
        }
        let opcode = self.decode_opcode();
        self.match_opcode(opcode)
    }

    /// One atomic cycle, for single-stepping harnesses.
    pub fn run_once(&mut self) -> (r: StepOutcome)
        ensures
            (final(self)@, r) == spec_step(old(self)@),
    {
        self.execute_once()
    }

    /// Run to completion: cycles until the program is exhausted, in which
    /// case no fault is reported, or until the first fault, which is
    /// returned. The final state is some whole number of cycles from the
    /// starting one. A guest that is still going after `u64::MAX` cycles
    /// is abandoned where it stands; no real program outlives that budget.
    pub fn run(&mut self) -> (r: Option<RuntimeFault>)
        ensures
            (exists|k: nat|
                spec_run_n(old(self)@, k) == (final(self)@, match r {
                    None => StepOutcome::Halt,
                    Some(f) => StepOutcome::Fault(f),
                })) || (r is None && spec_run_n(old(self)@, u64::MAX as nat) == (
                final(self)@,
                StepOutcome::Continue,
            )),
    {
        let mut fuel: u64 = u64::MAX;
        proof {
            assert(spec_run_n(old(self)@, 0) == (self@, StepOutcome::Continue));
        }
        while fuel > 0
            invariant
                spec_run_n(old(self)@, (u64::MAX - fuel) as nat) == (self@, StepOutcome::Continue),
            decreases fuel,
        {
            let ghost steps = (u64::MAX - fuel) as nat;
            let outcome = self.execute_once();
            proof {
                lemma_run_n_step(old(self)@, steps);
            }
            match outcome {
                StepOutcome::Continue => {
                    fuel = fuel - 1;
                },
                StepOutcome::Halt => {
                    proof {
                        assert(spec_run_n(old(self)@, steps + 1) == (
                            self@,
                            StepOutcome::Halt,
                        ));
                    }
                    return None;
                },
                StepOutcome::Fault(f) => {
                    proof {
                        assert(spec_run_n(old(self)@, steps + 1) == (
                            self@,
                            StepOutcome::Fault(f),
                        ));
                    }
                    return Some(f);
                },
            }
        }
        None
    }

    /// The byte under the counter, which then moves one past it.
    pub fn next_8_bits(&mut self) -> (r: u8)
        requires
            old(self).pc < old(self).program@.len(),
        ensures
            r == old(self)@.program[old(self)@.pc],
            final(self)@ == (VmModel { pc: old(self)@.pc + 1, ..old(self)@ }),
    {
        let n = self.program.len();
        let result = self.program[self.pc];
        self.pc = self.pc + 1;
        proof {
            assert(self@ =~= (VmModel { pc: old(self)@.pc + 1, ..old(self)@ }));
        }
        result
    }

    /// The two bytes under the counter as one big-endian value; the
    /// counter moves past both.
    pub fn next_16_bits(&mut self) -> (r: u16)
        requires
            old(self).pc + 1 < old(self).program@.len(),
        ensures
            r == (old(self)@.program[old(self)@.pc] as u32) * 0x100 + (old(self)@.program[old(
                self,
            )@.pc + 1] as u32),
            final(self)@ == (VmModel { pc: old(self)@.pc + 2, ..old(self)@ }),
    {
        let n = self.program.len();
        let hi = self.program[self.pc];
        let lo = self.program[self.pc + 1];
        let result: u16 = (hi as u16) * 0x100 + (lo as u16);
        self.pc = self.pc + 2;
        proof {
            assert(self@ =~= (VmModel { pc: old(self)@.pc + 2, ..old(self)@ }));
        }
        result
    }

    /// Append one byte to the program.
    pub fn add_byte(&mut self, v: u8)
        ensures
            final(self)@ == (VmModel { program: old(self)@.program.push(v), ..old(self)@ }),
    {
        self.program.push(v);
        proof {
            assert(self@ =~= (VmModel { program: old(self)@.program.push(v), ..old(self)@ }));
        }
    }

    /// Append a run of bytes to the program.
    pub fn add_bytes(&mut self, v: Vec<u8>)
        ensures
            final(self)@ == (VmModel { program: old(self)@.program + v@, ..old(self)@ }),
    {
        let mut v2 = v;
        self.program.append(&mut v2);
        proof {
            assert(self@ =~= (VmModel { program: old(self)@.program + v@, ..old(self)@ }));
        }
    }

    /// Whether the program opens with the image header's magic bytes.
    pub fn verify_header(&self) -> (r: bool)
        ensures
            r == (self@.program.len() >= 4 && self@.program.subrange(0, 4) == spec_pie_prefix()),
    {
        if self.program.len() < 4 {
            return false;
        }
        let ok = self.program[0] == 45 && self.program[1] == 50 && self.program[2] == 49
            && self.program[3] == 45;
        proof {
            if ok {
                assert(self@.program.subrange(0, 4) =~= spec_pie_prefix());
            } else {
                assert(self@.program.subrange(0, 4)[0] == self@.program[0]);
                assert(self@.program.subrange(0, 4)[1] == self@.program[1]);
                assert(self@.program.subrange(0, 4)[2] == self@.program[2]);
                assert(self@.program.subrange(0, 4)[3] == self@.program[3]);
            }
        }
        ok
    }
}

/// A body of bytes behind the standard 64-byte header.
pub fn prepend_header(b: Vec<u8>) -> (r: Vec<u8>)
    ensures
        r@ == spec_pie_header() + b@,
{
    let mut header = pie_header_prefix();
    while header.len() < PIE_HEADER_LENGTH
        invariant
            4 <= header@.len() <= 64,
            header@.subrange(0, 4) == spec_pie_prefix(),
            forall|k: int| 4 <= k < header@.len() ==> header@[k] == 0u8,
        decreases 64 - header@.len(),
    {
        let ghost pre = header@;
        header.push(0);
        proof {
            assert(header@.subrange(0, 4) =~= pre.subrange(0, 4));
        }
    }
    let mut b2 = b;
    let ghost bv = b2@;
    header.append(&mut b2);
    proof {
        assert(header@ =~= spec_pie_header() + bv);
    }
    header
}

} // verus!
