use vstd::prelude::*;
use crate::shared::opcodes::{Opcode, opcode_of_code};
use crate::shared::registers::{Registers, LongRegisters};
use crate::shared::operand_types::{OperandView, decode_operand, address_of};
use crate::shared::bigendian::{be8, canonical_be};
use crate::runtime::memory::{MemoryView, lemma_write_then_read, lemma_write_u64_then_read, lemma_write_wrapping_len, lemma_with_pc_twice};
use crate::runtime::fault::Fault;

verus! {

/// Two values an arithmetic, logic or shift instruction works on: both
/// 8-bit or both 64-bit.
#[derive(PartialEq, Eq, Structural, Copy, Clone, Debug)]
pub enum Pair {
    Bytes(u8, u8),
    Longs(u64, u64),
}

/// `Address` and `IndirectAddress` operands point into main memory.
pub open spec fn is_address(op: OperandView) -> bool {
    op is Address || op is IndirectAddress
}

/// The value of an `Immediate` or `Register` operand.
pub open spec fn byte_operand(op: OperandView, m: MemoryView) -> Option<u8> {
    match op {
        OperandView::Immediate(v) => Some(v),
        OperandView::Register(r) => Some(m.reg(r)),
        _ => None,
    }
}

/// The value of a `LongImmediate` or `LongRegister` operand.
pub open spec fn long_operand(op: OperandView, m: MemoryView) -> Option<u64> {
    match op {
        OperandView::LongImmediate(v) => Some(v),
        OperandView::LongRegister(r) => Some(m.lreg(r)),
        _ => None,
    }
}

/// The bytes a `mov` stores in main memory for its source: one byte for an
/// 8-bit value, eight big-endian bytes for a 64-bit one, the shortest
/// big-endian bytes for a `LongerImmediate`.
pub open spec fn mov_source_bytes(op: OperandView, m: MemoryView) -> Option<Seq<u8>> {
    match op {
        OperandView::Immediate(v) => Some(seq![v]),
        OperandView::LongImmediate(v) => Some(be8(v)),
        OperandView::LongerImmediate(n) => Some(canonical_be(n)),
        OperandView::Register(r) => Some(seq![m.reg(r)]),
        OperandView::LongRegister(r) => Some(be8(m.lreg(r))),
        _ => None,
    }
}

/// Writes `data` at `addr`; a range past the last `usize` is out of range.
pub open spec fn store(m: MemoryView, addr: u64, data: Seq<u8>) -> Result<MemoryView, Fault> {
    if addr + data.len() > usize::MAX {
        Err(Fault::OutOfRange)
    } else {
        Ok(m.write(addr as nat, data))
    }
}

/// The byte at `addr`.
pub open spec fn load_byte(m: MemoryView, addr: u64) -> Result<u8, Fault> {
    if addr + 1 > usize::MAX {
        Err(Fault::OutOfRange)
    } else {
        Ok(m.byte_at(addr as nat))
    }
}

/// The big-endian 64-bit value at `addr`.
pub open spec fn load_u64(m: MemoryView, addr: u64) -> Result<u64, Fault> {
    if addr + 8 > usize::MAX {
        Err(Fault::OutOfRange)
    } else {
        Ok(m.read_u64_at(addr as nat))
    }
}

/// The two operands at the program counter and the program counter after
/// them.
pub open spec fn decode_two(m: MemoryView) -> Result<(OperandView, OperandView, nat), Fault> {
    match decode_operand(m) {
        Err(f) => Err(f),
        Ok((a, p)) => match decode_operand(m.with_pc(p)) {
            Err(f) => Err(f),
            Ok((b, q)) => Ok((a, b, q)),
        },
    }
}

/// `mov src dst`: copies between containers of the same size.
pub open spec fn mov_effect(m: MemoryView, src: OperandView, dst: OperandView) -> Result<MemoryView, Fault> {
    if is_address(dst) {
        match mov_source_bytes(src, m) {
            Some(data) => store(m, address_of(dst, m), data),
            None => Err(Fault::InvalidOperands(Opcode::Mov)),
        }
    } else {
        match dst {
            OperandView::Register(r) => if is_address(src) {
                match load_byte(m, address_of(src, m)) {
                    Ok(v) => Ok(m.with_reg(r, v)),
                    Err(f) => Err(f),
                }
            } else {
                match byte_operand(src, m) {
                    Some(v) => Ok(m.with_reg(r, v)),
                    None => Err(Fault::InvalidOperands(Opcode::Mov)),
                }
            },
            OperandView::LongRegister(r) => if is_address(src) {
                match load_u64(m, address_of(src, m)) {
                    Ok(v) => Ok(m.with_lreg(r, v)),
                    Err(f) => Err(f),
                }
            } else {
                match long_operand(src, m) {
                    Some(v) => Ok(m.with_lreg(r, v)),
                    None => Err(Fault::InvalidOperands(Opcode::Mov)),
                }
            },
            _ => Err(Fault::InvalidOperands(Opcode::Mov)),
        }
    }
}

/// `trunc src dst`: keeps the lowest byte (or the lowest eight bytes) of a
/// larger value.
pub open spec fn trunc_effect(m: MemoryView, src: OperandView, dst: OperandView) -> Result<MemoryView, Fault> {
    match dst {
        OperandView::Register(r) => match src {
            OperandView::LongImmediate(v) => Ok(m.with_reg(r, (v % 256) as u8)),
            OperandView::LongerImmediate(n) => Ok(m.with_reg(r, (n % 256) as u8)),
            OperandView::LongRegister(s) => Ok(m.with_reg(r, (m.lreg(s) % 256) as u8)),
            _ => Err(Fault::InvalidOperands(Opcode::Trunc)),
        },
        OperandView::LongRegister(r) => match src {
            OperandView::LongerImmediate(n) => Ok(m.with_lreg(r, (n % 0x1_0000_0000_0000_0000) as u64)),
            _ => Err(Fault::InvalidOperands(Opcode::Trunc)),
        },
        _ => Err(Fault::InvalidOperands(Opcode::Trunc)),
    }
}

/// `ext src dst`: widens an 8-bit value (or the byte at an address) into a
/// 64-bit register.
pub open spec fn ext_effect(m: MemoryView, src: OperandView, dst: OperandView) -> Result<MemoryView, Fault> {
    match dst {
        OperandView::LongRegister(r) => if is_address(src) {
            match load_byte(m, address_of(src, m)) {
                Ok(v) => Ok(m.with_lreg(r, v as u64)),
                Err(f) => Err(f),
            }
        } else {
            match byte_operand(src, m) {
                Some(v) => Ok(m.with_lreg(r, v as u64)),
                None => Err(Fault::InvalidOperands(Opcode::Ext)),
            }
        },
        _ => Err(Fault::InvalidOperands(Opcode::Ext)),
    }
}

/// The byte count of a `copy`: any immediate or register.
pub open spec fn copy_length(op: OperandView, m: MemoryView) -> Option<nat> {
    match op {
        OperandView::Immediate(v) => Some(v as nat),
        OperandView::LongImmediate(v) => Some(v as nat),
        OperandView::LongerImmediate(n) => Some(n),
        OperandView::Register(r) => Some(m.reg(r) as nat),
        OperandView::LongRegister(r) => Some(m.lreg(r) as nat),
        _ => None,
    }
}

/// `copy len from to`: the `len` bytes at `from`, read first, are written
/// at `to`.
pub open spec fn copy_effect(m: MemoryView, len: nat, from: u64, to: u64) -> Result<MemoryView, Fault> {
    if from + len > usize::MAX {
        Err(Fault::OutOfRange)
    } else {
        store(m, to, m.read(from as nat, len))
    }
}

/// The two values of an arithmetic or logic instruction: two 8-bit values,
/// two 64-bit values, or a 64-bit register and an address taken as a number.
pub open spec fn arith_pair(a: OperandView, b: OperandView, m: MemoryView) -> Option<Pair> {
    match (byte_operand(a, m), byte_operand(b, m)) {
        (Some(x), Some(y)) => Some(Pair::Bytes(x, y)),
        _ => match (long_operand(a, m), long_operand(b, m)) {
            (Some(x), Some(y)) => Some(Pair::Longs(x, y)),
            _ => match (a, b) {
                (OperandView::LongRegister(r), OperandView::Address(x)) => Some(Pair::Longs(m.lreg(r), x)),
                _ => None,
            },
        },
    }
}

/// The value and the overflow flag of `x op y` on 8 bits.
pub open spec fn arith8(op: Opcode, x: u8, y: u8) -> (u8, bool) {
    if op == Opcode::Add {
        (((x + y) % 256) as u8, x + y >= 256)
    } else if op == Opcode::Sub {
        (((x - y + 256) % 256) as u8, x < y)
    } else {
        (((x * y) % 256) as u8, x * y >= 256)
    }
}

/// The value and the overflow flag of `x op y` on 64 bits.
pub open spec fn arith64(op: Opcode, x: u64, y: u64) -> (u64, bool) {
    if op == Opcode::Add {
        (((x + y) % 0x1_0000_0000_0000_0000) as u64, x + y >= 0x1_0000_0000_0000_0000)
    } else if op == Opcode::Sub {
        (((x - y + 0x1_0000_0000_0000_0000) % 0x1_0000_0000_0000_0000) as u64, x < y)
    } else {
        (((x * y) % 0x1_0000_0000_0000_0000) as u64, x * y >= 0x1_0000_0000_0000_0000)
    }
}

pub open spec fn flag(b: bool) -> u8 {
    if b { 1 } else { 0 }
}

/// `add`, `sub`, `mul`: the wrapped result goes to `!A` (8-bit) or `?LL1`
/// (64-bit), and `!Z` tells whether it wrapped.
pub open spec fn arith_effect(op: Opcode, m: MemoryView, p: Pair) -> MemoryView {
    match p {
        Pair::Bytes(x, y) => m.with_reg(Registers::A, arith8(op, x, y).0).with_reg(Registers::Z, flag(arith8(op, x, y).1)),
        Pair::Longs(x, y) => m.with_lreg(LongRegisters::LL1, arith64(op, x, y).0).with_reg(Registers::Z, flag(arith64(op, x, y).1)),
    }
}

/// `div`: quotient to `!A`/`?LL1`, remainder to `!X`/`?LL2`.
pub open spec fn div_effect(m: MemoryView, p: Pair) -> Result<MemoryView, Fault> {
    match p {
        Pair::Bytes(x, y) => if y == 0 {
            Err(Fault::DivisionByZero)
        } else {
            Ok(m.with_reg(Registers::A, x / y).with_reg(Registers::X, x % y))
        },
        Pair::Longs(x, y) => if y == 0 {
            Err(Fault::DivisionByZero)
        } else {
            Ok(m.with_lreg(LongRegisters::LL1, x / y).with_lreg(LongRegisters::LL2, x % y))
        },
    }
}

/// `and`, `or`, `xor`: the result goes to `!A` or `?LL1`.
pub open spec fn logic_effect(op: Opcode, m: MemoryView, p: Pair) -> MemoryView {
    match p {
        Pair::Bytes(x, y) => m.with_reg(
            Registers::A,
            if op == Opcode::And { x & y } else if op == Opcode::Or { x | y } else { x ^ y },
        ),
        Pair::Longs(x, y) => m.with_lreg(
            LongRegisters::LL1,
            if op == Opcode::And { x & y } else if op == Opcode::Or { x | y } else { x ^ y },
        ),
    }
}

/// The value to shift and the amount: an 8-bit value shifted by an 8-bit
/// amount (not both registers), or a 64-bit value shifted by any amount.
pub open spec fn shift_pair(a: OperandView, b: OperandView, m: MemoryView) -> Option<Pair> {
    match (byte_operand(a, m), byte_operand(b, m)) {
        (Some(x), Some(y)) => if a is Register && b is Register {
            None
        } else {
            Some(Pair::Bytes(x, y))
        },
        _ => match long_operand(a, m) {
            Some(x) => match byte_operand(b, m) {
                Some(y) => Some(Pair::Longs(x, y as u64)),
                None => match long_operand(b, m) {
                    Some(y) => Some(Pair::Longs(x, y)),
                    None => None,
                },
            },
            None => None,
        },
    }
}

/// `shl`, `shr`: the result goes to `!A` or `?LL1`; shifting by the width
/// or more is a fault.
pub open spec fn shift_effect(op: Opcode, m: MemoryView, p: Pair) -> Result<MemoryView, Fault> {
    match p {
        Pair::Bytes(x, s) => if s >= 8 {
            Err(Fault::ShiftOverflow)
        } else {
            Ok(m.with_reg(Registers::A, if op == Opcode::Shr { x >> s } else { x << s }))
        },
        Pair::Longs(x, s) => if s >= 64 {
            Err(Fault::ShiftOverflow)
        } else {
            Ok(m.with_lreg(LongRegisters::LL1, if op == Opcode::Shr { x >> s } else { x << s }))
        },
    }
}

/// An instruction with two operands: decode both, then act on the machine
/// as it is after them.
pub open spec fn two_operand_step(op: Opcode, m: MemoryView) -> Result<MemoryView, Fault> {
    match decode_two(m) {
        Err(f) => Err(f),
        Ok((a, b, q)) => {
            let m2 = m.with_pc(q);
            if op == Opcode::Mov {
                mov_effect(m2, a, b)
            } else if op == Opcode::Trunc {
                trunc_effect(m2, a, b)
            } else if op == Opcode::Ext {
                ext_effect(m2, a, b)
            } else if op == Opcode::Add || op == Opcode::Sub || op == Opcode::Mul {
                match arith_pair(a, b, m2) {
                    Some(p) => Ok(arith_effect(op, m2, p)),
                    None => Err(Fault::InvalidOperands(op)),
                }
            } else if op == Opcode::Div {
                match arith_pair(a, b, m2) {
                    Some(p) => div_effect(m2, p),
                    None => Err(Fault::InvalidOperands(op)),
                }
            } else if op == Opcode::And || op == Opcode::Or || op == Opcode::Xor {
                match arith_pair(a, b, m2) {
                    Some(p) => Ok(logic_effect(op, m2, p)),
                    None => Err(Fault::InvalidOperands(op)),
                }
            } else {
                match shift_pair(a, b, m2) {
                    Some(p) => shift_effect(op, m2, p),
                    None => Err(Fault::InvalidOperands(op)),
                }
            }
        },
    }
}

/// `copy len from to`: each operand is checked as soon as it is read, and
/// registers are read as they are right after their operand.
pub open spec fn copy_step(m: MemoryView) -> Result<MemoryView, Fault> {
    match decode_operand(m) {
        Err(f) => Err(f),
        Ok((a, p)) => match copy_length(a, m.with_pc(p)) {
            None => Err(Fault::InvalidOperands(Opcode::Copy)),
            Some(len) => match decode_operand(m.with_pc(p)) {
                Err(f) => Err(f),
                Ok((b, q)) => if !is_address(b) {
                    Err(Fault::InvalidOperands(Opcode::Copy))
                } else {
                    match decode_operand(m.with_pc(q)) {
                        Err(f) => Err(f),
                        Ok((c, s)) => if !is_address(c) {
                            Err(Fault::InvalidOperands(Opcode::Copy))
                        } else {
                            let m3 = m.with_pc(s);
                            copy_effect(m3, len, address_of(b, m.with_pc(q)), address_of(c, m3))
                        },
                    }
                },
            },
        },
    }
}

/// `not x`: the complement goes to `!A` or `?LL1`.
pub open spec fn not_step(m: MemoryView) -> Result<MemoryView, Fault> {
    match decode_operand(m) {
        Err(f) => Err(f),
        Ok((a, p)) => {
            let m2 = m.with_pc(p);
            match byte_operand(a, m2) {
                Some(x) => Ok(m2.with_reg(Registers::A, !x)),
                None => match long_operand(a, m2) {
                    Some(x) => Ok(m2.with_lreg(LongRegisters::LL1, !x)),
                    None => Err(Fault::InvalidOperands(Opcode::Not)),
                },
            }
        },
    }
}

/// `jmp target`.
pub open spec fn jmp_step(m: MemoryView) -> Result<MemoryView, Fault> {
    match decode_operand(m) {
        Err(f) => Err(f),
        Ok((a, p)) => if is_address(a) {
            Ok(m.with_pc(p).with_pc(address_of(a, m.with_pc(p)) as nat))
        } else {
            Err(Fault::InvalidOperands(Opcode::Jmp))
        },
    }
}

/// Whether a register operand of `je`/`jne` is non-zero.
pub open spec fn register_nonzero(op: OperandView, m: MemoryView) -> Option<bool> {
    match op {
        OperandView::Register(r) => Some(m.reg(r) != 0),
        OperandView::LongRegister(r) => Some(m.lreg(r) != 0),
        _ => None,
    }
}

/// `je reg target` jumps when the register is non-zero, `jne reg target`
/// when it is zero; otherwise the target is skipped unread.
pub open spec fn cond_jump_step(op: Opcode, m: MemoryView) -> Result<MemoryView, Fault> {
    match decode_operand(m) {
        Err(f) => Err(f),
        Ok((a, p)) => match register_nonzero(a, m.with_pc(p)) {
            None => Err(Fault::InvalidOperands(op)),
            Some(nonzero) => match decode_operand(m.with_pc(p)) {
                Err(f) => Err(f),
                Ok((b, q)) => {
                    let m3 = m.with_pc(q);
                    if nonzero == (op == Opcode::Je) {
                        if is_address(b) {
                            Ok(m3.with_pc(address_of(b, m3) as nat))
                        } else {
                            Err(Fault::InvalidOperands(op))
                        }
                    } else {
                        Ok(m3)
                    }
                },
            },
        },
    }
}

/// Pushes one byte at the stack pointer, which then moves up by one. The
/// stack grows upwards from the start of its section; sections are only
/// logical, so nothing keeps it inside its own. Only an address past the
/// last `usize` is out of range.
pub open spec fn push8_effect(m: MemoryView, v: u8) -> Result<MemoryView, Fault> {
    if m.sp() + 1 > usize::MAX {
        Err(Fault::OutOfRange)
    } else {
        Ok(m.write(m.sp(), seq![v]).with_lreg(LongRegisters::SP, (m.sp() + 1) as u64))
    }
}

/// Pushes eight big-endian bytes.
pub open spec fn push64_effect(m: MemoryView, v: u64) -> Result<MemoryView, Fault> {
    if m.sp() + 8 > usize::MAX {
        Err(Fault::OutOfRange)
    } else {
        Ok(m.write(m.sp(), be8(v)).with_lreg(LongRegisters::SP, (m.sp() + 8) as u64))
    }
}

/// `push x`.
pub open spec fn push_step(m: MemoryView) -> Result<MemoryView, Fault> {
    match decode_operand(m) {
        Err(f) => Err(f),
        Ok((a, p)) => match byte_operand(a, m.with_pc(p)) {
            Some(v) => push8_effect(m.with_pc(p), v),
            None => Err(Fault::InvalidOperands(Opcode::PUSH)),
        },
    }
}

/// `pop`: the byte below the stack pointer goes to `!A`, and the pointer
/// moves down by one. Popping at address 0 is a stack underflow.
pub open spec fn pop_step(m: MemoryView) -> Result<MemoryView, Fault> {
    if m.sp() == 0 {
        Err(Fault::StackUnderflow)
    } else if m.sp() > usize::MAX {
        Err(Fault::OutOfRange)
    } else {
        Ok(m.with_lreg(LongRegisters::SP, (m.sp() - 1) as u64).with_reg(Registers::A, m.byte_at((m.sp() - 1) as nat)))
    }
}

/// `call target`: pushes the address after the instruction, then jumps.
pub open spec fn call_step(m: MemoryView) -> Result<MemoryView, Fault> {
    match decode_operand(m) {
        Err(f) => Err(f),
        Ok((a, p)) => if !is_address(a) {
            Err(Fault::InvalidOperands(Opcode::CALL))
        } else {
            let m2 = m.with_pc(p);
            match push64_effect(m2, p as u64) {
                Ok(m3) => Ok(m3.with_pc(address_of(a, m2) as nat)),
                Err(f) => Err(f),
            }
        },
    }
}

/// `ret`: pops eight bytes and jumps to the address they hold. A stack
/// pointer below 8 is a stack underflow.
pub open spec fn ret_step(m: MemoryView) -> Result<MemoryView, Fault> {
    if m.sp() < 8 {
        Err(Fault::StackUnderflow)
    } else if m.sp() > usize::MAX {
        Err(Fault::OutOfRange)
    } else {
        Ok(m.with_lreg(LongRegisters::SP, (m.sp() - 8) as u64).with_pc(m.read_u64_at((m.sp() - 8) as nat) as nat))
    }
}

/// What an instruction with operands does, from the machine right after its
/// opcode byte.
pub open spec fn instruction_step(op: Opcode, m: MemoryView) -> Result<MemoryView, Fault> {
    if op == Opcode::Copy {
        copy_step(m)
    } else if op == Opcode::Not {
        not_step(m)
    } else if op == Opcode::Jmp {
        jmp_step(m)
    } else if op == Opcode::Je || op == Opcode::Jne {
        cond_jump_step(op, m)
    } else if op == Opcode::PUSH {
        push_step(m)
    } else if op == Opcode::POP {
        pop_step(m)
    } else if op == Opcode::CALL {
        call_step(m)
    } else if op == Opcode::RET {
        ret_step(m)
    } else {
        two_operand_step(op, m)
    }
}

/// One step of the machine: the machine after the instruction at the
/// program counter, and whether it asked for the screen to be updated.
/// `hlt` leaves the machine as it is, so it halts for good.
pub open spec fn step_spec(m: MemoryView) -> Result<(MemoryView, bool), Fault> {
    let pc = m.pc();
    if pc + 1 > usize::MAX {
        Err(Fault::OutOfRange)
    } else {
        let code = m.byte_at(pc);
        let m1 = m.with_pc((pc + 1) as nat);
        match opcode_of_code(code) {
            None => Err(Fault::UnknownOpcode(code)),
            Some(op) => if op == Opcode::Noop {
                Ok((m1, false))
            } else if op == Opcode::Hlt {
                Ok((m, false))
            } else if op == Opcode::Vsync {
                Ok((m1, true))
            } else {
                match instruction_step(op, m1) {
                    Ok(m2) => Ok((m2, false)),
                    Err(f) => Err(f),
                }
            },
        }
    }
}

/// An executed result agrees with what the semantics says.
pub open spec fn outcome_matches(r: Result<(), Fault>, after: MemoryView, expected: Result<MemoryView, Fault>) -> bool {
    match expected {
        Ok(m) => r is Ok && after == m,
        Err(f) => r == Err::<(), Fault>(f),
    }
}

/// `pop` gives back the byte that `push` pushed, and the stack pointer
/// returns to where it was.
pub proof fn lemma_push_then_pop(m: MemoryView, v: u8)
    requires
        m.wf(),
        push8_effect(m, v) is Ok,
    ensures
        pop_step(push8_effect(m, v)->Ok_0) is Ok,
        pop_step(push8_effect(m, v)->Ok_0)->Ok_0.reg(Registers::A) == v,
        pop_step(push8_effect(m, v)->Ok_0)->Ok_0.sp() == m.sp(),
{
    let m1 = push8_effect(m, v)->Ok_0;
    lemma_write_wrapping_len(m.mem, m.sp(), seq![v]);
    lemma_write_then_read(m.mem, m.sp(), seq![v]);
    assert(m1.sp() == m.sp() + 1);
    assert(m1.byte_at(m.sp()) == m1.read(m.sp(), 1)[0]);
}

/// `ret` after `call` resumes right after the `call` instruction, with the
/// stack pointer back where it was before the call.
pub proof fn lemma_call_then_ret(m: MemoryView)
    requires
        m.wf(),
        call_step(m) is Ok,
    ensures
        ret_step(call_step(m)->Ok_0) is Ok,
        ret_step(call_step(m)->Ok_0)->Ok_0.pc() == decode_operand(m)->Ok_0.1,
        ret_step(call_step(m)->Ok_0)->Ok_0.sp() == m.sp(),
{
    let p = decode_operand(m)->Ok_0.1;
    let m2 = m.with_pc(p);
    let m1 = call_step(m)->Ok_0;
    lemma_write_wrapping_len(m2.mem, m2.sp(), be8(p as u64));
    lemma_write_u64_then_read(m2.mem, m2.sp(), p as u64);
    assert(m1.sp() == m.sp() + 8);
    assert(m1.read_u64_at(m.sp()) == p as u64);
}

/// `ret` resumes right after the `call` that pushed its address, whatever
/// ran in between: where, when a `ret` is reached, the stack pointer and the
/// eight bytes the `call` pushed are as the `call` left them, the `ret`
/// jumps to the instruction after the `call` and puts the stack pointer
/// back where it was before the `call`. (A `ret` at the very top of the
/// address range cannot be fetched: that step reports `OutOfRange`.)
pub proof fn lemma_ret_resumes_after_call(m: MemoryView, later: MemoryView)
    requires
        m.wf(),
        later.wf(),
        call_step(m) is Ok,
        later.sp() == call_step(m)->Ok_0.sp(),
        later.read(m.sp(), 8) == call_step(m)->Ok_0.read(m.sp(), 8),
        opcode_of_code(later.byte_at(later.pc())) == Some(Opcode::RET),
    ensures
        later.pc() + 1 > usize::MAX ==> step_spec(later) == Err::<(MemoryView, bool), Fault>(Fault::OutOfRange),
        later.pc() + 1 <= usize::MAX ==> {
            &&& step_spec(later) is Ok
            &&& !step_spec(later)->Ok_0.1
            &&& step_spec(later)->Ok_0.0.pc() == decode_operand(m)->Ok_0.1
            &&& step_spec(later)->Ok_0.0.sp() == m.sp()
        },
{
    lemma_call_then_ret(m);
    let m1 = call_step(m)->Ok_0;
    let l1 = later.with_pc((later.pc() + 1) as nat);
    assert(m1.sp() == m.sp() + 8);
    assert(l1.read_u64_at(m.sp()) == m1.read_u64_at(m.sp()));
}

/// `hlt` leaves the machine exactly as it was, so it stops for good. (A
/// `hlt` at the very top of the address range cannot be fetched: that step
/// reports `OutOfRange`, and so does every later one.)
pub proof fn lemma_hlt_halts(m: MemoryView)
    requires
        m.wf(),
        opcode_of_code(m.byte_at(m.pc())) == Some(Opcode::Hlt),
    ensures
        m.pc() + 1 <= usize::MAX ==> step_spec(m) == Ok::<(MemoryView, bool), Fault>((m, false)),
        m.pc() + 1 > usize::MAX ==> step_spec(m) == Err::<(MemoryView, bool), Fault>(Fault::OutOfRange),
{
}

/// Division leaves the quotient and the remainder: after `div` of `x` by a
/// nonzero `y`, the quotient register (`!A` or `?LL1`) times `y` plus the
/// remainder register (`!X` or `?LL2`) is `x`, and the remainder is below
/// `y`, which pins both down. Memory and every other register stay as they
/// were. Dividing by zero is a fault.
pub proof fn lemma_div_quotient_remainder(m: MemoryView, p: Pair)
    requires
        m.wf(),
    ensures
        match p {
            Pair::Bytes(x, y) => {
                &&& (y == 0 <==> div_effect(m, p) == Err::<MemoryView, Fault>(Fault::DivisionByZero))
                &&& y != 0 ==> {
                    let r = div_effect(m, p)->Ok_0;
                    &&& r.reg(Registers::A) * y + r.reg(Registers::X) == x
                    &&& r.reg(Registers::X) < y
                    &&& r.mem == m.mem
                    &&& r.lregs == m.lregs
                    &&& forall|q: Registers| q != Registers::A && q != Registers::X ==> #[trigger] r.reg(q) == m.reg(q)
                }
            },
            Pair::Longs(x, y) => {
                &&& (y == 0 <==> div_effect(m, p) == Err::<MemoryView, Fault>(Fault::DivisionByZero))
                &&& y != 0 ==> {
                    let r = div_effect(m, p)->Ok_0;
                    &&& r.lreg(LongRegisters::LL1) * y + r.lreg(LongRegisters::LL2) == x
                    &&& r.lreg(LongRegisters::LL2) < y
                    &&& r.mem == m.mem
                    &&& r.regs == m.regs
                    &&& forall|q: LongRegisters| q != LongRegisters::LL1 && q != LongRegisters::LL2
                        ==> #[trigger] r.lreg(q) == m.lreg(q)
                }
            },
        },
{
    match p {
        Pair::Bytes(x, y) => {
            if y != 0 {
                let (xi, yi) = (x as int, y as int);
                assert((xi / yi) * yi + xi % yi == xi && xi % yi < yi) by (nonlinear_arith)
                    requires
                        yi > 0,
                ;
            }
        },
        Pair::Longs(x, y) => {
            if y != 0 {
                let (xi, yi) = (x as int, y as int);
                assert((xi / yi) * yi + xi % yi == xi && xi % yi < yi) by (nonlinear_arith)
                    requires
                        yi > 0,
                ;
            }
        },
    }
}

/// Bit `i` of a byte.
pub open spec fn bit8(v: u8, i: u8) -> bool {
    (v >> i) & 1 == 1
}

/// Bit `i` of a 64-bit value.
pub open spec fn bit64(v: u64, i: u64) -> bool {
    (v >> i) & 1 == 1
}

/// Arithmetic wraps around and flags it: `!Z` is 0 or 1, and on 8 bits
/// the result plus 256 times `!Z` is `x + y` (for `add`), the result is
/// `x - y` plus 256 times `!Z` (for `sub`), and the result differs from
/// `x * y` by a multiple of 256, `!Z` telling whether `x * y` reached 256
/// (for `mul`); likewise on 64 bits with `?LL1` and 2^64. Memory and the
/// other registers stay as they were.
pub proof fn lemma_arith_wraps(op: Opcode, m: MemoryView, p: Pair)
    requires
        m.wf(),
        op == Opcode::Add || op == Opcode::Sub || op == Opcode::Mul,
    ensures
        ({
            let r = arith_effect(op, m, p);
            let z = r.reg(Registers::Z);
            &&& z == 0 || z == 1
            &&& r.mem == m.mem
            &&& forall|q: Registers| q != Registers::A && q != Registers::Z ==> #[trigger] r.reg(q) == m.reg(q)
            &&& match p {
                Pair::Bytes(x, y) => {
                    let v = r.reg(Registers::A);
                    &&& r.lregs == m.lregs
                    &&& op == Opcode::Add ==> v + 256 * z == x + y
                    &&& op == Opcode::Sub ==> v == x - y + 256 * z
                    &&& op == Opcode::Mul ==> (x * y - v) % 256 == 0 && (z == 1 <==> x * y >= 256)
                },
                Pair::Longs(x, y) => {
                    let v = r.lreg(LongRegisters::LL1);
                    &&& forall|q: LongRegisters| q != LongRegisters::LL1 ==> #[trigger] r.lreg(q) == m.lreg(q)
                    &&& op == Opcode::Add ==> v + 0x1_0000_0000_0000_0000 * z == x + y
                    &&& op == Opcode::Sub ==> v == x - y + 0x1_0000_0000_0000_0000 * z
                    &&& op == Opcode::Mul ==> (x * y - v) % 0x1_0000_0000_0000_0000 == 0
                        && (z == 1 <==> x * y >= 0x1_0000_0000_0000_0000)
                },
            }
        }),
{
    match p {
        Pair::Bytes(x, y) => {
            let (xi, yi) = (x as int, y as int);
            if op == Opcode::Mul {
                assert((xi * yi - (xi * yi) % 256) % 256 == 0) by (nonlinear_arith)
                    requires
                        xi >= 0,
                        yi >= 0,
                ;
                assert(0 <= xi * yi) by (nonlinear_arith)
                    requires
                        xi >= 0,
                        yi >= 0,
                ;
            }
        },
        Pair::Longs(x, y) => {
            let (xi, yi) = (x as int, y as int);
            if op == Opcode::Mul {
                assert((xi * yi - (xi * yi) % 0x1_0000_0000_0000_0000) % 0x1_0000_0000_0000_0000 == 0) by (nonlinear_arith)
                    requires
                        xi >= 0,
                        yi >= 0,
                ;
                assert(0 <= xi * yi) by (nonlinear_arith)
                    requires
                        xi >= 0,
                        yi >= 0,
                ;
            }
        },
    }
}

proof fn lemma_logic_bits8(x: u8, y: u8, i: u8)
    by (bit_vector)
    requires
        i < 8,
    ensures
        (((x & y) >> i) & 1 == 1) == (((x >> i) & 1 == 1) && ((y >> i) & 1 == 1)),
        (((x | y) >> i) & 1 == 1) == (((x >> i) & 1 == 1) || ((y >> i) & 1 == 1)),
        (((x ^ y) >> i) & 1 == 1) == (((x >> i) & 1 == 1) != ((y >> i) & 1 == 1)),
        ((!x >> i) & 1 == 1) == !((x >> i) & 1 == 1),
{
}

proof fn lemma_logic_bits64(x: u64, y: u64, i: u64)
    by (bit_vector)
    requires
        i < 64,
    ensures
        (((x & y) >> i) & 1 == 1) == (((x >> i) & 1 == 1) && ((y >> i) & 1 == 1)),
        (((x | y) >> i) & 1 == 1) == (((x >> i) & 1 == 1) || ((y >> i) & 1 == 1)),
        (((x ^ y) >> i) & 1 == 1) == (((x >> i) & 1 == 1) != ((y >> i) & 1 == 1)),
        ((!x >> i) & 1 == 1) == !((x >> i) & 1 == 1),
{
}

/// `and`, `or` and `xor` work bit by bit: each bit of the result (`!A` or
/// `?LL1`) is set when the bits of both values are set (`and`), of either
/// (`or`), of exactly one (`xor`). Memory and the other registers stay as
/// they were.
pub proof fn lemma_logic_bits(op: Opcode, m: MemoryView, p: Pair, i: u64)
    requires
        m.wf(),
        op == Opcode::And || op == Opcode::Or || op == Opcode::Xor,
    ensures
        ({
            let r = logic_effect(op, m, p);
            &&& r.mem == m.mem
            &&& match p {
                Pair::Bytes(x, y) => {
                    let v = r.reg(Registers::A);
                    &&& r.lregs == m.lregs
                    &&& forall|q: Registers| q != Registers::A ==> #[trigger] r.reg(q) == m.reg(q)
                    &&& i < 8 ==> {
                        let j = i as u8;
                        &&& op == Opcode::And ==> (bit8(v, j) <==> bit8(x, j) && bit8(y, j))
                        &&& op == Opcode::Or ==> (bit8(v, j) <==> bit8(x, j) || bit8(y, j))
                        &&& op == Opcode::Xor ==> (bit8(v, j) <==> bit8(x, j) != bit8(y, j))
                    }
                },
                Pair::Longs(x, y) => {
                    let v = r.lreg(LongRegisters::LL1);
                    &&& r.regs == m.regs
                    &&& forall|q: LongRegisters| q != LongRegisters::LL1 ==> #[trigger] r.lreg(q) == m.lreg(q)
                    &&& i < 64 ==> {
                        &&& op == Opcode::And ==> (bit64(v, i) <==> bit64(x, i) && bit64(y, i))
                        &&& op == Opcode::Or ==> (bit64(v, i) <==> bit64(x, i) || bit64(y, i))
                        &&& op == Opcode::Xor ==> (bit64(v, i) <==> bit64(x, i) != bit64(y, i))
                    }
                },
            }
        }),
{
    match p {
        Pair::Bytes(x, y) => {
            if i < 8 {
                lemma_logic_bits8(x, y, i as u8);
            }
        },
        Pair::Longs(x, y) => {
            if i < 64 {
                lemma_logic_bits64(x, y, i);
            }
        },
    }
}

proof fn lemma_shift_bits8(x: u8, s: u8, i: u8)
    by (bit_vector)
    requires
        i < 8,
        s < 8,
    ensures
        (((x >> s) >> i) & 1 == 1) == (i + s < 8 && ((x >> (i + s) as u8) & 1 == 1)),
        (((x << s) >> i) & 1 == 1) == (i >= s && ((x >> (i - s) as u8) & 1 == 1)),
{
}

proof fn lemma_shift_bits64(x: u64, s: u64, i: u64)
    by (bit_vector)
    requires
        i < 64,
        s < 64,
    ensures
        (((x >> s) >> i) & 1 == 1) == (i + s < 64 && ((x >> (i + s) as u64) & 1 == 1)),
        (((x << s) >> i) & 1 == 1) == (i >= s && ((x >> (i - s) as u64) & 1 == 1)),
{
}

/// `shr` and `shl` move the bits of the value by the amount: bit `i` of
/// the result is bit `i + s` of the value (`shr`) or bit `i - s` (`shl`),
/// and bits moved in are clear. Shifting by the width or more is a fault.
pub proof fn lemma_shift_bits(op: Opcode, m: MemoryView, p: Pair, i: u64)
    requires
        m.wf(),
        op == Opcode::Shl || op == Opcode::Shr,
    ensures
        match p {
            Pair::Bytes(x, s) => {
                &&& (s >= 8 <==> shift_effect(op, m, p) == Err::<MemoryView, Fault>(Fault::ShiftOverflow))
                &&& s < 8 ==> {
                    let r = shift_effect(op, m, p)->Ok_0;
                    let v = r.reg(Registers::A);
                    &&& r == m.with_reg(Registers::A, v)
                    &&& i < 8 ==> {
                        let j = i as u8;
                        &&& op == Opcode::Shr ==> (bit8(v, j) <==> j + s < 8 && bit8(x, (j + s) as u8))
                        &&& op == Opcode::Shl ==> (bit8(v, j) <==> j >= s && bit8(x, (j - s) as u8))
                    }
                }
            },
            Pair::Longs(x, s) => {
                &&& (s >= 64 <==> shift_effect(op, m, p) == Err::<MemoryView, Fault>(Fault::ShiftOverflow))
                &&& s < 64 ==> {
                    let r = shift_effect(op, m, p)->Ok_0;
                    let v = r.lreg(LongRegisters::LL1);
                    &&& r == m.with_lreg(LongRegisters::LL1, v)
                    &&& i < 64 ==> {
                        &&& op == Opcode::Shr ==> (bit64(v, i) <==> i + s < 64 && bit64(x, (i + s) as u64))
                        &&& op == Opcode::Shl ==> (bit64(v, i) <==> i >= s && bit64(x, (i - s) as u64))
                    }
                }
            },
        },
{
    match p {
        Pair::Bytes(x, s) => {
            if s < 8 && i < 8 {
                lemma_shift_bits8(x, s, i as u8);
            }
        },
        Pair::Longs(x, s) => {
            if s < 64 && i < 64 {
                lemma_shift_bits64(x, s, i);
            }
        },
    }
}

/// `jnz reg target` (`je`) jumps when the register is non-zero and `jz reg
/// target` (`jne`) when it is zero; otherwise execution goes on after the
/// instruction. Nothing but the program counter changes. (The register is
/// read once its operand is read: `?PC` then holds the address after it.)
pub proof fn lemma_cond_jump_decides(op: Opcode, m: MemoryView)
    requires
        m.wf(),
        op == Opcode::Je || op == Opcode::Jne,
        decode_operand(m) is Ok,
        register_nonzero(decode_operand(m)->Ok_0.0, m.with_pc(decode_operand(m)->Ok_0.1)) is Some,
        decode_operand(m.with_pc(decode_operand(m)->Ok_0.1)) is Ok,
        is_address(decode_operand(m.with_pc(decode_operand(m)->Ok_0.1))->Ok_0.0),
    ensures
        ({
            let (a, p) = decode_operand(m)->Ok_0;
            let (b, q) = decode_operand(m.with_pc(p))->Ok_0;
            let value: int = match a {
                OperandView::Register(r) => m.reg(r) as int,
                OperandView::LongRegister(r) => m.with_pc(p).lreg(r) as int,
                _ => -1,
            };
            let target = address_of(b, m.with_pc(q)) as nat;
            let jumps = if op == Opcode::Je { value != 0 } else { value == 0 };
            &&& a is Register || a is LongRegister
            &&& cond_jump_step(op, m) is Ok
            &&& cond_jump_step(op, m)->Ok_0 == m.with_pc(if jumps { target } else { q })
        }),
{
    let (a, p) = decode_operand(m)->Ok_0;
    let (b, q) = decode_operand(m.with_pc(p))->Ok_0;
    lemma_with_pc_twice(m, p, q);
    lemma_with_pc_twice(m, q, address_of(b, m.with_pc(q)) as nat);
}

/// `mov` copies its first operand into its second: a register it writes
/// then holds the source's value and nothing else changes; a byte value
/// it writes at an address reads back from there, and so does a 64-bit
/// value as eight big-endian bytes; a value it loads from an address is
/// what was stored there.
pub proof fn lemma_mov_copies(m: MemoryView, src: OperandView, dst: OperandView)
    requires
        m.wf(),
    ensures
        ({
            let r = mov_effect(m, src, dst);
            &&& (src matches OperandView::Immediate(v) ==> dst matches OperandView::Register(d)
                ==> r == Ok::<MemoryView, Fault>(m.with_reg(d, v)) && r->Ok_0.reg(d) == v)
            &&& (src matches OperandView::Register(s) ==> dst matches OperandView::Register(d)
                ==> r is Ok && r->Ok_0.reg(d) == m.reg(s) && r->Ok_0 == m.with_reg(d, m.reg(s)))
            &&& (src matches OperandView::LongImmediate(v) ==> dst matches OperandView::LongRegister(d)
                ==> r is Ok && r->Ok_0.lreg(d) == v && r->Ok_0 == m.with_lreg(d, v))
            &&& (src matches OperandView::LongRegister(s) ==> dst matches OperandView::LongRegister(d)
                ==> r is Ok && r->Ok_0.lreg(d) == m.lreg(s) && r->Ok_0 == m.with_lreg(d, m.lreg(s)))
            &&& (src matches OperandView::Address(a) ==> dst matches OperandView::Register(d)
                ==> (a + 1 <= usize::MAX ==> r is Ok && r->Ok_0.reg(d) == m.byte_at(a as nat) && r->Ok_0 == m.with_reg(d, m.byte_at(a as nat))))
            &&& (src matches OperandView::Address(a) ==> dst matches OperandView::LongRegister(d)
                ==> (a + 8 <= usize::MAX ==> r is Ok && r->Ok_0.lreg(d) == m.read_u64_at(a as nat)))
            &&& (src matches OperandView::Immediate(v) ==> dst matches OperandView::Address(a)
                ==> (a + 1 <= usize::MAX ==> r is Ok && r->Ok_0.byte_at(a as nat) == v && r->Ok_0.regs == m.regs && r->Ok_0.lregs == m.lregs))
            &&& (src matches OperandView::Register(s) ==> dst matches OperandView::Address(a)
                ==> (a + 1 <= usize::MAX ==> r is Ok && r->Ok_0.byte_at(a as nat) == m.reg(s) && r->Ok_0.regs == m.regs && r->Ok_0.lregs == m.lregs))
            &&& (src matches OperandView::LongImmediate(v) ==> dst matches OperandView::Address(a)
                ==> (a + 8 <= usize::MAX ==> r is Ok && r->Ok_0.read_u64_at(a as nat) == v && r->Ok_0.regs == m.regs && r->Ok_0.lregs == m.lregs))
            &&& (src matches OperandView::LongRegister(s) ==> dst matches OperandView::Address(a)
                ==> (a + 8 <= usize::MAX ==> r is Ok && r->Ok_0.read_u64_at(a as nat) == m.lreg(s) && r->Ok_0.regs == m.regs && r->Ok_0.lregs == m.lregs))
        }),
{
    match dst {
        OperandView::Address(a) => {
            match src {
                OperandView::Immediate(v) => {
                    lemma_write_then_read(m.mem, a as nat, seq![v]);
                    lemma_write_wrapping_len(m.mem, a as nat, seq![v]);
                    let w = m.write(a as nat, seq![v]);
                    assert(w.read(a as nat, 1)[0] == w.byte_at(a as nat));
                },
                OperandView::Register(s) => {
                    lemma_write_then_read(m.mem, a as nat, seq![m.reg(s)]);
                    lemma_write_wrapping_len(m.mem, a as nat, seq![m.reg(s)]);
                    let w = m.write(a as nat, seq![m.reg(s)]);
                    assert(w.read(a as nat, 1)[0] == w.byte_at(a as nat));
                },
                OperandView::LongImmediate(v) => {
                    crate::shared::bigendian::lemma_be_bytes_of_len(v as nat, 8);
                    lemma_write_u64_then_read(m.mem, a as nat, v);
                },
                OperandView::LongRegister(s) => {
                    crate::shared::bigendian::lemma_be_bytes_of_len(m.lreg(s) as nat, 8);
                    lemma_write_u64_then_read(m.mem, a as nat, m.lreg(s));
                },
                _ => {},
            }
        },
        _ => {},
    }
}

/// `trunc` keeps the low byte of a 64-bit value (or the low eight bytes of
/// a longer number): the value and the result differ by a multiple of 256
/// (of 2^64); `ext` widens a byte unchanged.
pub proof fn lemma_trunc_ext(m: MemoryView, src: OperandView, dst: OperandView)
    requires
        m.wf(),
    ensures
        src matches OperandView::LongRegister(s) ==> dst matches OperandView::Register(d) ==> {
            &&& trunc_effect(m, src, dst) is Ok
            &&& (m.lreg(s) - trunc_effect(m, src, dst)->Ok_0.reg(d)) % 256 == 0
            &&& trunc_effect(m, src, dst)->Ok_0 == m.with_reg(d, trunc_effect(m, src, dst)->Ok_0.reg(d))
        },
        src matches OperandView::LongImmediate(v) ==> dst matches OperandView::Register(d) ==> {
            &&& trunc_effect(m, src, dst) is Ok
            &&& (v - trunc_effect(m, src, dst)->Ok_0.reg(d)) % 256 == 0
        },
        src matches OperandView::LongerImmediate(n) ==> dst matches OperandView::LongRegister(d) ==> {
            &&& trunc_effect(m, src, dst) is Ok
            &&& (n - trunc_effect(m, src, dst)->Ok_0.lreg(d)) % 0x1_0000_0000_0000_0000 == 0
        },
        src matches OperandView::Register(s) ==> dst matches OperandView::LongRegister(d) ==> {
            &&& ext_effect(m, src, dst) is Ok
            &&& ext_effect(m, src, dst)->Ok_0.lreg(d) == m.reg(s)
            &&& ext_effect(m, src, dst)->Ok_0 == m.with_lreg(d, m.reg(s) as u64)
        },
        src matches OperandView::Immediate(v) ==> dst matches OperandView::LongRegister(d) ==> {
            &&& ext_effect(m, src, dst) is Ok
            &&& ext_effect(m, src, dst)->Ok_0.lreg(d) == v
        },
        src matches OperandView::Address(a) ==> dst matches OperandView::LongRegister(d) ==> a + 1 <= usize::MAX ==> {
            &&& ext_effect(m, src, dst) is Ok
            &&& ext_effect(m, src, dst)->Ok_0.lreg(d) == m.byte_at(a as nat)
        },
{
    match src {
        OperandView::LongRegister(s) => {
            let x = m.lreg(s) as int;
            assert((x - x % 256) % 256 == 0 && 0 <= x % 256 < 256) by (nonlinear_arith)
                requires
                    x >= 0,
            ;
        },
        OperandView::LongImmediate(v) => {
            let x = v as int;
            assert((x - x % 256) % 256 == 0 && 0 <= x % 256 < 256) by (nonlinear_arith)
                requires
                    x >= 0,
            ;
        },
        OperandView::LongerImmediate(n) => {
            let x = n as int;
            assert((x - x % 0x1_0000_0000_0000_0000) % 0x1_0000_0000_0000_0000 == 0
                && 0 <= x % 0x1_0000_0000_0000_0000 < 0x1_0000_0000_0000_0000) by (nonlinear_arith)
                requires
                    x >= 0,
            ;
        },
        _ => {},
    }
}

/// `jmp target` goes to the target address; nothing else changes.
pub proof fn lemma_jmp_goes_to_target(m: MemoryView)
    requires
        m.wf(),
        decode_operand(m) is Ok,
        is_address(decode_operand(m)->Ok_0.0),
    ensures
        jmp_step(m) == Ok::<MemoryView, Fault>(
            m.with_pc(address_of(decode_operand(m)->Ok_0.0, m.with_pc(decode_operand(m)->Ok_0.1)) as nat),
        ),
{
    let (a, p) = decode_operand(m)->Ok_0;
    lemma_with_pc_twice(m, p, address_of(a, m.with_pc(p)) as nat);
}

/// `not` flips every bit of its value into `!A` (8-bit) or `?LL1`
/// (64-bit); nothing else changes but the program counter.
pub proof fn lemma_not_flips_bits(m: MemoryView, i: u64)
    requires
        m.wf(),
        decode_operand(m) is Ok,
        not_step(m) is Ok,
    ensures
        ({
            let (a, p) = decode_operand(m)->Ok_0;
            let m2 = m.with_pc(p);
            let r = not_step(m)->Ok_0;
            &&& byte_operand(a, m2) matches Some(x) ==> {
                &&& r == m2.with_reg(Registers::A, r.reg(Registers::A))
                &&& i < 8 ==> (bit8(r.reg(Registers::A), i as u8) <==> !bit8(x, i as u8))
            }
            &&& byte_operand(a, m2) is None ==> (long_operand(a, m2) matches Some(x) ==> {
                &&& r == m2.with_lreg(LongRegisters::LL1, r.lreg(LongRegisters::LL1))
                &&& i < 64 ==> (bit64(r.lreg(LongRegisters::LL1), i) <==> !bit64(x, i))
            })
        }),
{
    let (a, p) = decode_operand(m)->Ok_0;
    let m2 = m.with_pc(p);
    match byte_operand(a, m2) {
        Some(x) => {
            if i < 8 {
                lemma_logic_bits8(x, x, i as u8);
            }
        },
        None => match long_operand(a, m2) {
            Some(x) => {
                if i < 64 {
                    lemma_logic_bits64(x, x, i);
                }
            },
            None => {},
        },
    }
}

/// `copy` copies: after copying `len` bytes from `from` to `to`, the `len`
/// bytes at `to` are those that were at `from`; registers stay as they
/// were.
pub proof fn lemma_copy_copies(m: MemoryView, len: nat, from: u64, to: u64)
    requires
        m.wf(),
        len <= m.mem.len(),
        from + len <= usize::MAX,
        to + len <= usize::MAX,
    ensures
        copy_effect(m, len, from, to) is Ok,
        copy_effect(m, len, from, to)->Ok_0.read(to as nat, len) == m.read(from as nat, len),
        copy_effect(m, len, from, to)->Ok_0.regs == m.regs,
        copy_effect(m, len, from, to)->Ok_0.lregs == m.lregs,
{
    lemma_write_then_read(m.mem, to as nat, m.read(from as nat, len));
}

/// `noop` only moves on to the next byte, and `vsync` does the same while
/// asking for the screen to be drawn.
pub proof fn lemma_noop_vsync(m: MemoryView)
    requires
        m.wf(),
        m.pc() + 1 <= usize::MAX,
    ensures
        opcode_of_code(m.byte_at(m.pc())) == Some(Opcode::Noop)
            ==> step_spec(m) == Ok::<(MemoryView, bool), Fault>((m.with_pc(m.pc() + 1), false)),
        opcode_of_code(m.byte_at(m.pc())) == Some(Opcode::Vsync)
            ==> step_spec(m) == Ok::<(MemoryView, bool), Fault>((m.with_pc(m.pc() + 1), true)),
{
}

} // verus!
