use vstd::prelude::*;
use crate::shared::opcodes::{Opcode, opcode_of_code, lemma_opcode_decode_encode};
use crate::shared::registers::{Registers, LongRegisters};
use crate::shared::operand_types::{Operand, decode_operand, address_of};
use crate::shared::bigendian::{
    be_value, canonical_be, u64_to_be_bytes, be_to_u64, be_low_u8, be_low_u64, be_to_u64_checked,
    lemma_pow256_8,
};
use crate::shared::cartridge::Cartridge;
use crate::runtime::memory::{Memory, MemoryView, VRAM_SIZE, initial_memory, lemma_with_pc_twice, lemma_with_pc_same};
use crate::runtime::fault::Fault;
use crate::runtime::semantics::{
    Pair, is_address, byte_operand, long_operand, mov_source_bytes, store, load_byte, load_u64,
    decode_two, mov_effect, trunc_effect, ext_effect, copy_length, arith_pair, arith_effect,
    arith8, arith64, flag, div_effect, logic_effect, shift_pair, shift_effect, two_operand_step,
    copy_step, not_step, jmp_step, register_nonzero, cond_jump_step, push8_effect, push_step,
    pop_step, call_step, push64_effect, ret_step, instruction_step, step_spec, outcome_matches, bit8,
};

verus! {

fn is_address_operand(op: &Operand) -> (b: bool)
    ensures
        b == is_address(op@),
{
    match op {
        Operand::Address(_) => true,
        Operand::IndirectAddress(_) => true,
        _ => false,
    }
}

fn byte_value(op: &Operand, memory: &Memory) -> (r: Option<u8>)
    requires
        memory.wf(),
    ensures
        r == byte_operand(op@, memory@),
{
    match op {
        Operand::Immediate(v) => Some(*v),
        Operand::Register(reg) => Some(memory.read_reg(*reg)),
        _ => None,
    }
}

fn long_value(op: &Operand, memory: &Memory) -> (r: Option<u64>)
    requires
        memory.wf(),
    ensures
        r == long_operand(op@, memory@),
{
    match op {
        Operand::LongImmediate(v) => Some(*v),
        Operand::LongRegister(reg) => Some(memory.read_reg_long(*reg)),
        _ => None,
    }
}

/// The bytes a `mov` writes to memory for `op`.
fn source_bytes(op: &Operand, memory: &Memory) -> (r: Option<Vec<u8>>)
    requires
        memory.wf(),
        op.wf(),
    ensures
        (match mov_source_bytes(op@, memory@) {
            Some(d) => r is Some && r->0@ == d,
            None => r is None,
        }),
{
    match op {
        Operand::Immediate(v) => Some(vec![*v]),
        Operand::LongImmediate(v) => Some(u64_to_be_bytes(*v)),
        Operand::LongerImmediate(b) => {
            let c = b.clone();
            proof {
                assert(c@ =~= b@);
            }
            Some(c)
        },
        Operand::Register(reg) => Some(vec![memory.read_reg(*reg)]),
        Operand::LongRegister(reg) => Some(u64_to_be_bytes(memory.read_reg_long(*reg))),
        _ => None,
    }
}

/// Writes `data` at `addr`.
fn store_bytes(memory: &mut Memory, addr: u64, data: &[u8]) -> (r: Result<(), Fault>)
    requires
        old(memory).wf(),
    ensures
        final(memory).wf(),
        final(memory)@.same_layout(old(memory)@),
        outcome_matches(r, final(memory)@, store(old(memory)@, addr, data@)),
{
    if addr as u128 + data.len() as u128 > usize::MAX as u128 {
        return Err(Fault::OutOfRange);
    }
    memory.put(addr as usize, data);
    Ok(())
}

/// The byte at `addr`.
fn load_byte_at(memory: &Memory, addr: u64) -> (r: Result<u8, Fault>)
    requires
        memory.wf(),
    ensures
        r == load_byte(memory@, addr),
{
    if addr as u128 + 1 > usize::MAX as u128 {
        return Err(Fault::OutOfRange);
    }
    let v = memory.peek(addr as usize, 1);
    proof {
        assert(v@[0] == memory@.byte_at(addr as nat));
    }
    Ok(v[0])
}

/// The big-endian 64-bit value at `addr`.
fn load_u64_at(memory: &Memory, addr: u64) -> (r: Result<u64, Fault>)
    requires
        memory.wf(),
    ensures
        r == load_u64(memory@, addr),
{
    if addr as u128 + 8 > usize::MAX as u128 {
        return Err(Fault::OutOfRange);
    }
    let v = memory.peek(addr as usize, 8);
    Ok(be_to_u64(v.as_slice()))
}

/// Reads the operands of a two-operand instruction.
fn read_two(memory: &mut Memory) -> (r: Result<(Operand, Operand), Fault>)
    requires
        old(memory).wf(),
    ensures
        final(memory).wf(),
        final(memory)@.same_layout(old(memory)@),
        r is Err ==> decode_two(old(memory)@) == Err::<(crate::shared::operand_types::OperandView, crate::shared::operand_types::OperandView, nat), Fault>(r->Err_0),
        r is Ok ==> decode_two(old(memory)@) == Ok::<(crate::shared::operand_types::OperandView, crate::shared::operand_types::OperandView, nat), Fault>((r->Ok_0.0@, r->Ok_0.1@, final(memory)@.pc())),
        r is Ok ==> final(memory)@ == old(memory)@.with_pc(final(memory)@.pc()),
        r is Ok ==> r->Ok_0.0.wf() && r->Ok_0.1.wf(),
{
    let ghost m0 = memory@;
    let a = match Operand::from_bytes(memory) {
        Ok(o) => o,
        Err(f) => return Err(f),
    };
    let ghost mp = memory@;
    let b = match Operand::from_bytes(memory) {
        Ok(o) => o,
        Err(f) => return Err(f),
    };
    proof {
        lemma_with_pc_twice(m0, mp.pc(), memory@.pc());
    }
    Ok((a, b))
}

fn exec_mov(memory: &mut Memory, src: Operand, dst: Operand) -> (r: Result<(), Fault>)
    requires
        old(memory).wf(),
        src.wf(),
    ensures
        final(memory).wf(),
        final(memory)@.same_layout(old(memory)@),
        outcome_matches(r, final(memory)@, mov_effect(old(memory)@, src@, dst@)),
{
    if is_address_operand(&dst) {
        let target = dst.unwrap_address(memory);
        match source_bytes(&src, memory) {
            Some(data) => store_bytes(memory, target, data.as_slice()),
            None => Err(Fault::InvalidOperands(Opcode::Mov)),
        }
    } else {
        match dst {
            Operand::Register(reg) => {
                let v = if is_address_operand(&src) {
                    match load_byte_at(memory, src.unwrap_address(memory)) {
                        Ok(v) => v,
                        Err(f) => return Err(f),
                    }
                } else {
                    match byte_value(&src, memory) {
                        Some(v) => v,
                        None => return Err(Fault::InvalidOperands(Opcode::Mov)),
                    }
                };
                memory.write_reg(reg, v);
                Ok(())
            },
            Operand::LongRegister(reg) => {
                let v = if is_address_operand(&src) {
                    match load_u64_at(memory, src.unwrap_address(memory)) {
                        Ok(v) => v,
                        Err(f) => return Err(f),
                    }
                } else {
                    match long_value(&src, memory) {
                        Some(v) => v,
                        None => return Err(Fault::InvalidOperands(Opcode::Mov)),
                    }
                };
                memory.write_reg_long(reg, v);
                Ok(())
            },
            _ => Err(Fault::InvalidOperands(Opcode::Mov)),
        }
    }
}

fn exec_trunc(memory: &mut Memory, src: Operand, dst: Operand) -> (r: Result<(), Fault>)
    requires
        old(memory).wf(),
    ensures
        final(memory).wf(),
        final(memory)@.same_layout(old(memory)@),
        outcome_matches(r, final(memory)@, trunc_effect(old(memory)@, src@, dst@)),
{
    match dst {
        Operand::Register(reg) => {
            let v = match &src {
                Operand::LongImmediate(v) => (*v % 256) as u8,
                Operand::LongerImmediate(b) => be_low_u8(b.as_slice()),
                Operand::LongRegister(s) => (memory.read_reg_long(*s) % 256) as u8,
                _ => return Err(Fault::InvalidOperands(Opcode::Trunc)),
            };
            memory.write_reg(reg, v);
            Ok(())
        },
        Operand::LongRegister(reg) => match &src {
            Operand::LongerImmediate(b) => {
                let v = be_low_u64(b.as_slice());
                memory.write_reg_long(reg, v);
                Ok(())
            },
            _ => Err(Fault::InvalidOperands(Opcode::Trunc)),
        },
        _ => Err(Fault::InvalidOperands(Opcode::Trunc)),
    }
}

fn exec_ext(memory: &mut Memory, src: Operand, dst: Operand) -> (r: Result<(), Fault>)
    requires
        old(memory).wf(),
    ensures
        final(memory).wf(),
        final(memory)@.same_layout(old(memory)@),
        outcome_matches(r, final(memory)@, ext_effect(old(memory)@, src@, dst@)),
{
    match dst {
        Operand::LongRegister(reg) => {
            let v = if is_address_operand(&src) {
                match load_byte_at(memory, src.unwrap_address(memory)) {
                    Ok(v) => v,
                    Err(f) => return Err(f),
                }
            } else {
                match byte_value(&src, memory) {
                    Some(v) => v,
                    None => return Err(Fault::InvalidOperands(Opcode::Ext)),
                }
            };
            memory.write_reg_long(reg, v as u64);
            Ok(())
        },
        _ => Err(Fault::InvalidOperands(Opcode::Ext)),
    }
}

/// The two values of an arithmetic or logic instruction.
fn arith_operands(a: &Operand, b: &Operand, memory: &Memory) -> (r: Option<Pair>)
    requires
        memory.wf(),
    ensures
        r == arith_pair(a@, b@, memory@),
{
    match (byte_value(a, memory), byte_value(b, memory)) {
        (Some(x), Some(y)) => Some(Pair::Bytes(x, y)),
        _ => match (long_value(a, memory), long_value(b, memory)) {
            (Some(x), Some(y)) => Some(Pair::Longs(x, y)),
            _ => match (a, b) {
                (Operand::LongRegister(reg), Operand::Address(x)) => Some(Pair::Longs(memory.read_reg_long(*reg), *x)),
                _ => None,
            },
        },
    }
}

/// The value and the shift amount of a shift instruction.
fn shift_operands(a: &Operand, b: &Operand, memory: &Memory) -> (r: Option<Pair>)
    requires
        memory.wf(),
    ensures
        r == shift_pair(a@, b@, memory@),
{
    match (byte_value(a, memory), byte_value(b, memory)) {
        (Some(x), Some(y)) => {
            if matches!(a, Operand::Register(_)) && matches!(b, Operand::Register(_)) {
                None
            } else {
                Some(Pair::Bytes(x, y))
            }
        },
        _ => match long_value(a, memory) {
            Some(x) => match byte_value(b, memory) {
                Some(y) => Some(Pair::Longs(x, y as u64)),
                None => match long_value(b, memory) {
                    Some(y) => Some(Pair::Longs(x, y)),
                    None => None,
                },
            },
            None => None,
        },
    }
}

fn exec_arith(memory: &mut Memory, op: Opcode, p: Pair)
    requires
        old(memory).wf(),
        op == Opcode::Add || op == Opcode::Sub || op == Opcode::Mul,
    ensures
        final(memory).wf(),
        final(memory)@.same_layout(old(memory)@),
        final(memory)@ == arith_effect(op, old(memory)@, p),
{
    match p {
        Pair::Bytes(x, y) => {
            let (res, over): (u8, bool) = if op == Opcode::Add {
                let s: u16 = x as u16 + y as u16;
                ((s % 256) as u8, s >= 256)
            } else if op == Opcode::Sub {
                if x >= y {
                    (x - y, false)
                } else {
                    ((x as u16 + 256 - y as u16) as u8, true)
                }
            } else {
                assert(x as int * y as int <= 255 * 255) by (nonlinear_arith)
                    requires x <= 255, y <= 255;
                let s: u16 = x as u16 * y as u16;
                ((s % 256) as u8, s >= 256)
            };
            assert(res == arith8(op, x, y).0 && over == arith8(op, x, y).1);
            memory.write_reg(Registers::A, res);
            memory.write_reg(Registers::Z, if over { 1 } else { 0 });
        },
        Pair::Longs(x, y) => {
            let (res, over): (u64, bool) = if op == Opcode::Add {
                let s: u128 = x as u128 + y as u128;
                ((s % 0x1_0000_0000_0000_0000) as u64, s >= 0x1_0000_0000_0000_0000)
            } else if op == Opcode::Sub {
                if x >= y {
                    (x - y, false)
                } else {
                    ((x as u128 + 0x1_0000_0000_0000_0000 - y as u128) as u64, true)
                }
            } else {
                assert(x as int * y as int <= 0xffff_ffff_ffff_ffff * 0xffff_ffff_ffff_ffff) by (nonlinear_arith)
                    requires x <= 0xffff_ffff_ffff_ffff, y <= 0xffff_ffff_ffff_ffff;
                let s: u128 = x as u128 * y as u128;
                ((s % 0x1_0000_0000_0000_0000) as u64, s >= 0x1_0000_0000_0000_0000)
            };
            assert(res == arith64(op, x, y).0 && over == arith64(op, x, y).1);
            memory.write_reg_long(LongRegisters::LL1, res);
            memory.write_reg(Registers::Z, if over { 1 } else { 0 });
        },
    }
}

fn exec_div(memory: &mut Memory, p: Pair) -> (r: Result<(), Fault>)
    requires
        old(memory).wf(),
    ensures
        final(memory).wf(),
        final(memory)@.same_layout(old(memory)@),
        outcome_matches(r, final(memory)@, div_effect(old(memory)@, p)),
{
    match p {
        Pair::Bytes(x, y) => {
            if y == 0 {
                return Err(Fault::DivisionByZero);
            }
            memory.write_reg(Registers::A, x / y);
            memory.write_reg(Registers::X, x % y);
            Ok(())
        },
        Pair::Longs(x, y) => {
            if y == 0 {
                return Err(Fault::DivisionByZero);
            }
            memory.write_reg_long(LongRegisters::LL1, x / y);
            memory.write_reg_long(LongRegisters::LL2, x % y);
            Ok(())
        },
    }
}

fn exec_logic(memory: &mut Memory, op: Opcode, p: Pair)
    requires
        old(memory).wf(),
    ensures
        final(memory).wf(),
        final(memory)@.same_layout(old(memory)@),
        final(memory)@ == logic_effect(op, old(memory)@, p),
{
    match p {
        Pair::Bytes(x, y) => {
            let v = if op == Opcode::And {
                x & y
            } else if op == Opcode::Or {
                x | y
            } else {
                x ^ y
            };
            memory.write_reg(Registers::A, v);
        },
        Pair::Longs(x, y) => {
            let v = if op == Opcode::And {
                x & y
            } else if op == Opcode::Or {
                x | y
            } else {
                x ^ y
            };
            memory.write_reg_long(LongRegisters::LL1, v);
        },
    }
}

fn exec_shift(memory: &mut Memory, op: Opcode, p: Pair) -> (r: Result<(), Fault>)
    requires
        old(memory).wf(),
    ensures
        final(memory).wf(),
        final(memory)@.same_layout(old(memory)@),
        outcome_matches(r, final(memory)@, shift_effect(op, old(memory)@, p)),
{
    match p {
        Pair::Bytes(x, s) => {
            if s >= 8 {
                return Err(Fault::ShiftOverflow);
            }
            let v = if op == Opcode::Shr {
                x >> s
            } else {
                x << s
            };
            memory.write_reg(Registers::A, v);
            Ok(())
        },
        Pair::Longs(x, s) => {
            if s >= 64 {
                return Err(Fault::ShiftOverflow);
            }
            let v = if op == Opcode::Shr {
                x >> s
            } else {
                x << s
            };
            memory.write_reg_long(LongRegisters::LL1, v);
            Ok(())
        },
    }
}

/// An instruction with two operands.
fn exec_two_operand(memory: &mut Memory, op: Opcode) -> (r: Result<(), Fault>)
    requires
        old(memory).wf(),
    ensures
        final(memory).wf(),
        final(memory)@.same_layout(old(memory)@),
        outcome_matches(r, final(memory)@, two_operand_step(op, old(memory)@)),
{
    let (a, b) = match read_two(memory) {
        Ok(pair) => pair,
        Err(f) => return Err(f),
    };
    if op == Opcode::Mov {
        exec_mov(memory, a, b)
    } else if op == Opcode::Trunc {
        exec_trunc(memory, a, b)
    } else if op == Opcode::Ext {
        exec_ext(memory, a, b)
    } else if op == Opcode::Add || op == Opcode::Sub || op == Opcode::Mul {
        match arith_operands(&a, &b, memory) {
            Some(p) => {
                exec_arith(memory, op, p);
                Ok(())
            },
            None => Err(Fault::InvalidOperands(op)),
        }
    } else if op == Opcode::Div {
        match arith_operands(&a, &b, memory) {
            Some(p) => exec_div(memory, p),
            None => Err(Fault::InvalidOperands(op)),
        }
    } else if op == Opcode::And || op == Opcode::Or || op == Opcode::Xor {
        match arith_operands(&a, &b, memory) {
            Some(p) => {
                exec_logic(memory, op, p);
                Ok(())
            },
            None => Err(Fault::InvalidOperands(op)),
        }
    } else {
        match shift_operands(&a, &b, memory) {
            Some(p) => exec_shift(memory, op, p),
            None => Err(Fault::InvalidOperands(op)),
        }
    }
}

/// The byte count of a `copy`: `None` when the operand cannot be one,
/// `Some(None)` when it does not fit in `usize`.
fn copy_len(op: &Operand, memory: &Memory) -> (r: Option<Option<usize>>)
    requires
        memory.wf(),
    ensures
        r is None <==> copy_length(op@, memory@) is None,
        r is Some ==> (r->0 is Some <==> copy_length(op@, memory@)->0 <= usize::MAX),
        r is Some && r->0 is Some ==> r->0->0 == copy_length(op@, memory@)->0,
{
    let v: Option<u64> = match op {
        Operand::Immediate(v) => Some(*v as u64),
        Operand::LongImmediate(v) => Some(*v),
        Operand::LongerImmediate(b) => {
            match be_to_u64_checked(b.as_slice()) {
                Some(v) => Some(v),
                None => return Some(None),
            }
        },
        Operand::Register(reg) => Some(memory.read_reg(*reg) as u64),
        Operand::LongRegister(reg) => Some(memory.read_reg_long(*reg)),
        _ => None,
    };
    match v {
        Some(v) => if v as u128 <= usize::MAX as u128 {
            Some(Some(v as usize))
        } else {
            Some(None)
        },
        None => None,
    }
}

/// `copy len from to`.
fn exec_copy(memory: &mut Memory) -> (r: Result<(), Fault>)
    requires
        old(memory).wf(),
    ensures
        final(memory).wf(),
        final(memory)@.same_layout(old(memory)@),
        outcome_matches(r, final(memory)@, copy_step(old(memory)@)),
{
    let ghost m0 = memory@;
    let a = match Operand::from_bytes(memory) {
        Ok(o) => o,
        Err(f) => return Err(f),
    };
    let ghost mp = memory@;
    let len = match copy_len(&a, memory) {
        Some(l) => l,
        None => return Err(Fault::InvalidOperands(Opcode::Copy)),
    };
    let b = match Operand::from_bytes(memory) {
        Ok(o) => o,
        Err(f) => return Err(f),
    };
    let ghost mq = memory@;
    proof {
        lemma_with_pc_twice(m0, mp.pc(), mq.pc());
    }
    if !is_address_operand(&b) {
        return Err(Fault::InvalidOperands(Opcode::Copy));
    }
    let from = b.unwrap_address(memory);
    let c = match Operand::from_bytes(memory) {
        Ok(o) => o,
        Err(f) => return Err(f),
    };
    proof {
        lemma_with_pc_twice(m0, mq.pc(), memory@.pc());
    }
    if !is_address_operand(&c) {
        return Err(Fault::InvalidOperands(Opcode::Copy));
    }
    let to = c.unwrap_address(memory);
    let len = match len {
        Some(l) => l,
        None => return Err(Fault::OutOfRange),
    };
    if from as u128 + len as u128 > usize::MAX as u128 {
        return Err(Fault::OutOfRange);
    }
    let data = memory.peek(from as usize, len);
    store_bytes(memory, to, data.as_slice())
}

/// `not x`.
fn exec_not(memory: &mut Memory) -> (r: Result<(), Fault>)
    requires
        old(memory).wf(),
    ensures
        final(memory).wf(),
        final(memory)@.same_layout(old(memory)@),
        outcome_matches(r, final(memory)@, not_step(old(memory)@)),
{
    let a = match Operand::from_bytes(memory) {
        Ok(o) => o,
        Err(f) => return Err(f),
    };
    match byte_value(&a, memory) {
        Some(x) => {
            memory.write_reg(Registers::A, !x);
            Ok(())
        },
        None => match long_value(&a, memory) {
            Some(x) => {
                memory.write_reg_long(LongRegisters::LL1, !x);
                Ok(())
            },
            None => Err(Fault::InvalidOperands(Opcode::Not)),
        },
    }
}

/// `jmp target`.
fn exec_jmp(memory: &mut Memory) -> (r: Result<(), Fault>)
    requires
        old(memory).wf(),
    ensures
        final(memory).wf(),
        final(memory)@.same_layout(old(memory)@),
        outcome_matches(r, final(memory)@, jmp_step(old(memory)@)),
{
    let a = match Operand::from_bytes(memory) {
        Ok(o) => o,
        Err(f) => return Err(f),
    };
    if !is_address_operand(&a) {
        return Err(Fault::InvalidOperands(Opcode::Jmp));
    }
    let target = a.unwrap_address(memory);
    memory.write_reg_long(LongRegisters::PC, target);
    Ok(())
}

/// `je reg target` and `jne reg target`.
fn exec_cond_jump(memory: &mut Memory, op: Opcode) -> (r: Result<(), Fault>)
    requires
        old(memory).wf(),
    ensures
        final(memory).wf(),
        final(memory)@.same_layout(old(memory)@),
        outcome_matches(r, final(memory)@, cond_jump_step(op, old(memory)@)),
{
    let ghost m0 = memory@;
    let a = match Operand::from_bytes(memory) {
        Ok(o) => o,
        Err(f) => return Err(f),
    };
    let ghost mp = memory@;
    let nonzero = match a {
        Operand::Register(reg) => memory.read_reg(reg) != 0,
        Operand::LongRegister(reg) => memory.read_reg_long(reg) != 0,
        _ => return Err(Fault::InvalidOperands(op)),
    };
    let b = match Operand::from_bytes(memory) {
        Ok(o) => o,
        Err(f) => return Err(f),
    };
    proof {
        lemma_with_pc_twice(m0, mp.pc(), memory@.pc());
    }
    if nonzero == (op == Opcode::Je) {
        if !is_address_operand(&b) {
            return Err(Fault::InvalidOperands(op));
        }
        let target = b.unwrap_address(memory);
        memory.write_reg_long(LongRegisters::PC, target);
    }
    Ok(())
}

/// `push x`.
fn exec_push(memory: &mut Memory) -> (r: Result<(), Fault>)
    requires
        old(memory).wf(),
    ensures
        final(memory).wf(),
        final(memory)@.same_layout(old(memory)@),
        outcome_matches(r, final(memory)@, push_step(old(memory)@)),
{
    let a = match Operand::from_bytes(memory) {
        Ok(o) => o,
        Err(f) => return Err(f),
    };
    let v = match byte_value(&a, memory) {
        Some(v) => v,
        None => return Err(Fault::InvalidOperands(Opcode::PUSH)),
    };
    let sp = memory.read_reg_long(LongRegisters::SP);
    if sp >= usize::MAX as u64 {
        return Err(Fault::OutOfRange);
    }
    memory.push8(v);
    Ok(())
}

/// `pop`.
fn exec_pop(memory: &mut Memory) -> (r: Result<(), Fault>)
    requires
        old(memory).wf(),
    ensures
        final(memory).wf(),
        final(memory)@.same_layout(old(memory)@),
        outcome_matches(r, final(memory)@, pop_step(old(memory)@)),
{
    let sp = memory.read_reg_long(LongRegisters::SP);
    if sp == 0 {
        return Err(Fault::StackUnderflow);
    }
    if sp > usize::MAX as u64 {
        return Err(Fault::OutOfRange);
    }
    let v = memory.pop8();
    memory.write_reg(Registers::A, v);
    Ok(())
}

/// `call target`.
fn exec_call(memory: &mut Memory) -> (r: Result<(), Fault>)
    requires
        old(memory).wf(),
    ensures
        final(memory).wf(),
        final(memory)@.same_layout(old(memory)@),
        outcome_matches(r, final(memory)@, call_step(old(memory)@)),
{
    let a = match Operand::from_bytes(memory) {
        Ok(o) => o,
        Err(f) => return Err(f),
    };
    if !is_address_operand(&a) {
        return Err(Fault::InvalidOperands(Opcode::CALL));
    }
    let target = a.unwrap_address(memory);
    let pc = memory.read_reg_long(LongRegisters::PC);
    let sp = memory.read_reg_long(LongRegisters::SP);
    if sp > usize::MAX as u64 - 8 {
        return Err(Fault::OutOfRange);
    }
    memory.push64(pc);
    memory.write_reg_long(LongRegisters::PC, target);
    Ok(())
}

/// `ret`.
fn exec_ret(memory: &mut Memory) -> (r: Result<(), Fault>)
    requires
        old(memory).wf(),
    ensures
        final(memory).wf(),
        final(memory)@.same_layout(old(memory)@),
        outcome_matches(r, final(memory)@, ret_step(old(memory)@)),
{
    let sp = memory.read_reg_long(LongRegisters::SP);
    if sp < 8 {
        return Err(Fault::StackUnderflow);
    }
    if sp > usize::MAX as u64 {
        return Err(Fault::OutOfRange);
    }
    let addr = memory.pop64();
    memory.write_reg_long(LongRegisters::PC, addr);
    Ok(())
}

/// An instruction with operands, run from right after its opcode byte.
fn exec_instruction(memory: &mut Memory, op: Opcode) -> (r: Result<(), Fault>)
    requires
        old(memory).wf(),
    ensures
        final(memory).wf(),
        final(memory)@.same_layout(old(memory)@),
        outcome_matches(r, final(memory)@, instruction_step(op, old(memory)@)),
{
    if op == Opcode::Copy {
        exec_copy(memory)
    } else if op == Opcode::Not {
        exec_not(memory)
    } else if op == Opcode::Jmp {
        exec_jmp(memory)
    } else if op == Opcode::Je || op == Opcode::Jne {
        exec_cond_jump(memory, op)
    } else if op == Opcode::PUSH {
        exec_push(memory)
    } else if op == Opcode::POP {
        exec_pop(memory)
    } else if op == Opcode::CALL {
        exec_call(memory)
    } else if op == Opcode::RET {
        exec_ret(memory)
    } else {
        exec_two_operand(memory, op)
    }
}

/// The RGBA color of palette entry `i`: four bytes of the palette, or
/// transparent black where the palette has no such entry.
pub open spec fn palette_color(palette: Seq<u8>, i: u8) -> Seq<u8> {
    if 4 * i + 4 <= palette.len() {
        palette.subrange(4 * i, 4 * i + 4)
    } else {
        seq![0u8, 0u8, 0u8, 0u8]
    }
}

/// The RGBA picture of the screen: the color of every VRAM byte in turn.
pub open spec fn frame_rgba(vram: Seq<u8>, palette: Seq<u8>) -> Seq<u8>
    decreases vram.len(),
{
    if vram.len() == 0 {
        Seq::empty()
    } else {
        frame_rgba(vram.drop_last(), palette) + palette_color(palette, vram.last())
    }
}

/// The byte of input for the buttons up, down, left, right, Z, X, C and
/// space, in that order: button `i` is bit `7 - i`.
pub open spec fn input_byte_spec(keys: Seq<bool>) -> u8 {
    (if keys[0] { 0x80u8 } else { 0u8 }) | (if keys[1] { 0x40u8 } else { 0u8 })
        | (if keys[2] { 0x20u8 } else { 0u8 }) | (if keys[3] { 0x10u8 } else { 0u8 })
        | (if keys[4] { 0x08u8 } else { 0u8 }) | (if keys[5] { 0x04u8 } else { 0u8 })
        | (if keys[6] { 0x02u8 } else { 0u8 }) | (if keys[7] { 0x01u8 } else { 0u8 })
}

proof fn lemma_input_bits(k0: bool, k1: bool, k2: bool, k3: bool, k4: bool, k5: bool, k6: bool, k7: bool, b: u8)
    by (bit_vector)
    requires
        b == (if k0 { 0x80u8 } else { 0u8 }) | (if k1 { 0x40u8 } else { 0u8 })
            | (if k2 { 0x20u8 } else { 0u8 }) | (if k3 { 0x10u8 } else { 0u8 })
            | (if k4 { 0x08u8 } else { 0u8 }) | (if k5 { 0x04u8 } else { 0u8 })
            | (if k6 { 0x02u8 } else { 0u8 }) | (if k7 { 0x01u8 } else { 0u8 }),
    ensures
        ((b >> 7u8) & 1u8 == 1u8) == k0,
        ((b >> 6u8) & 1u8 == 1u8) == k1,
        ((b >> 5u8) & 1u8 == 1u8) == k2,
        ((b >> 4u8) & 1u8 == 1u8) == k3,
        ((b >> 3u8) & 1u8 == 1u8) == k4,
        ((b >> 2u8) & 1u8 == 1u8) == k5,
        ((b >> 1u8) & 1u8 == 1u8) == k6,
        ((b >> 0u8) & 1u8 == 1u8) == k7,
{
}

/// Button `k` (up, down, left, right, Z, X, C, space) is bit `7 - k` of
/// the input byte: set exactly when the button is down.
pub proof fn lemma_input_byte_bits(keys: Seq<bool>, k: int)
    requires
        keys.len() == 8,
        0 <= k < 8,
    ensures
        bit8(input_byte_spec(keys), (7 - k) as u8) == keys[k],
{
    lemma_input_bits(keys[0], keys[1], keys[2], keys[3], keys[4], keys[5], keys[6], keys[7], input_byte_spec(keys));
}

/// Packs the state of the eight buttons into the byte the game reads.
pub fn input_byte(keys: [bool; 8]) -> (r: u8)
    ensures
        r == input_byte_spec(keys@),
{
    (if keys[0] { 0x80u8 } else { 0u8 }) | (if keys[1] { 0x40u8 } else { 0u8 })
        | (if keys[2] { 0x20u8 } else { 0u8 }) | (if keys[3] { 0x10u8 } else { 0u8 })
        | (if keys[4] { 0x08u8 } else { 0u8 }) | (if keys[5] { 0x04u8 } else { 0u8 })
        | (if keys[6] { 0x02u8 } else { 0u8 }) | (if keys[7] { 0x01u8 } else { 0u8 })
}

/// The console: its memory and registers, whether the screen is due for an
/// update, and the cartridge it runs.
pub struct Emulator {
    pub memory: Memory,
    pub update_texture: bool,
    pub cartridge: Cartridge,
}

impl Emulator {
    /// A console that starts `cartridge`: memory laid out by its manifest,
    /// its bytecode in ROM, the program counter at the start of ROM.
    pub fn new(cartridge: Cartridge) -> (e: Emulator)
        requires
            VRAM_SIZE + cartridge.manifest.settings.ram_size + cartridge.manifest.settings.stack_size
                + cartridge.entry_bytecode@.len() <= usize::MAX,
        ensures
            e.memory.wf(),
            e.memory@ == initial_memory(
                cartridge.manifest.settings.ram_size as nat,
                cartridge.manifest.settings.stack_size as nat,
                cartridge.entry_bytecode@,
            ),
            !e.update_texture,
            e.cartridge == cartridge,
    {
        let memory = Memory::new(&cartridge);
        Emulator { memory, update_texture: false, cartridge }
    }

    /// The color of palette entry `index`.
    fn get_color(&self, index: u8) -> (r: Vec<u8>)
        ensures
            r@ == palette_color(self.cartridge.palette@, index),
    {
        let start: usize = 4 * (index as usize);
        if start + 4 <= self.cartridge.palette.len() {
            let mut r: Vec<u8> = Vec::with_capacity(4);
            let mut i: usize = start;
            while i < start + 4
                invariant
                    start == 4 * index,
                    start + 4 <= self.cartridge.palette@.len(),
                    start <= i <= start + 4,
                    r@ =~= self.cartridge.palette@.subrange(start as int, i as int),
                decreases start + 4 - i,
            {
                r.push(self.cartridge.palette[i]);
                i = i + 1;
            }
            r
        } else {
            vec![0u8, 0u8, 0u8, 0u8]
        }
    }

    /// The RGBA picture of the screen.
    pub fn calculate_vram(&self) -> (r: Vec<u8>)
        requires
            self.memory.wf(),
        ensures
            r@ == frame_rgba(self.memory@.mem.subrange(0, VRAM_SIZE as int), self.cartridge.palette@),
    {
        let pixels = self.memory.vram();
        let mut out: Vec<u8> = Vec::new();
        let mut i: usize = 0;
        while i < pixels.len()
            invariant
                i <= pixels@.len(),
                out@ == frame_rgba(pixels@.take(i as int), self.cartridge.palette@),
            decreases pixels@.len() - i,
        {
            let color = self.get_color(pixels[i]);
            proof {
                assert(pixels@.take(i + 1).drop_last() =~= pixels@.take(i as int));
            }
            crate::shared::text::extend_bytes(&mut out, color.as_slice());
            i = i + 1;
        }
        proof {
            assert(pixels@.take(i as int) =~= pixels@);
        }
        out
    }

    /// Called once a frame with the buttons held and pressed: after a
    /// `vsync`, stores them in the last two bytes of RAM and returns the
    /// picture to show; otherwise does nothing.
    pub fn new_frame(&mut self, held: u8, pressed: u8) -> (r: Option<Vec<u8>>)
        requires
            old(self).memory.wf(),
        ensures
            final(self).memory.wf(),
            final(self).memory@.same_layout(old(self).memory@),
            final(self).cartridge == old(self).cartridge,
            !old(self).update_texture ==> r is None && final(self).memory@ == old(self).memory@
                && !final(self).update_texture,
            old(self).update_texture ==> !final(self).update_texture
                && final(self).memory@ == old(self).memory@
                    .write((old(self).memory@.stack_start() - 2) as nat, seq![held])
                    .write((old(self).memory@.stack_start() - 1) as nat, seq![pressed])
                && r is Some
                && r->0@ == frame_rgba(final(self).memory@.mem.subrange(0, VRAM_SIZE as int), final(self).cartridge.palette@),
    {
        if !self.update_texture {
            return None;
        }
        self.update_texture = false;
        let held_cell = [held];
        let pressed_cell = [pressed];
        proof {
            assert(held_cell@ =~= seq![held]);
            assert(pressed_cell@ =~= seq![pressed]);
        }
        let held_addr = self.memory.input_held();
        self.memory.put(held_addr, &held_cell);
        let pressed_addr = self.memory.input_pressed();
        self.memory.put(pressed_addr, &pressed_cell);
        Some(self.calculate_vram())
    }

    /// The picture to show, once the game has asked for a new frame
    /// (`vsync`); the request is then served. Between frames it returns
    /// nothing and changes nothing.
    pub fn take_frame(&mut self) -> (r: Option<Vec<u8>>)
        requires
            old(self).memory.wf(),
        ensures
            final(self).memory == old(self).memory,
            final(self).cartridge == old(self).cartridge,
            !final(self).update_texture,
            !old(self).update_texture ==> r is None,
            old(self).update_texture ==> r is Some
                && r->0@ == frame_rgba(old(self).memory@.mem.subrange(0, VRAM_SIZE as int), old(self).cartridge.palette@),
    {
        if !self.update_texture {
            return None;
        }
        self.update_texture = false;
        Some(self.calculate_vram())
    }

    /// Writes an opaque color to pixel `(x, y)` of a picture stored in
    /// memory four bytes (red, green, blue, alpha) per pixel, 256 pixels to
    /// a line.
    pub fn put_pixel(&mut self, x: i32, y: i32, red: u8, green: u8, blue: u8)
        requires
            old(self).memory.wf(),
            i32::MIN <= y * 256 <= i32::MAX,
            i32::MIN <= y * 256 + x <= i32::MAX,
            0 <= (y * 256 + x) * 4 <= i32::MAX,
        ensures
            final(self).memory.wf(),
            final(self).memory@.same_layout(old(self).memory@),
            final(self).memory@ == old(self).memory@.write(((y * 256 + x) * 4) as nat, seq![red, green, blue, 255u8]),
            final(self).update_texture == old(self).update_texture,
            final(self).cartridge == old(self).cartridge,
    {
        let addr = ((y * 256 + x) * 4) as usize;
        let color = [red, green, blue, 255u8];
        proof {
            assert(color@ =~= seq![red, green, blue, 255u8]);
        }
        self.memory.put(addr, &color);
    }

    /// Runs the instruction at the program counter.
    pub fn step(&mut self) -> (r: Result<(), Fault>)
        requires
            old(self).memory.wf(),
        ensures
            final(self).memory.wf(),
            final(self).memory@.same_layout(old(self).memory@),
            final(self).cartridge == old(self).cartridge,
            (match step_spec(old(self).memory@) {
                Ok((m, vsync)) => r is Ok && final(self).memory@ == m
                    && final(self).update_texture == (vsync || old(self).update_texture),
                Err(f) => r == Err::<(), Fault>(f),
            }),
    {
        let ghost m0 = self.memory@;
        let pc = self.memory.read_reg_long(LongRegisters::PC);
        if pc >= usize::MAX as u64 {
            return Err(Fault::OutOfRange);
        }
        let code = self.memory.read_u8();
        let opcode = match Opcode::from_bytecode(code) {
            Some(op) => op,
            None => return Err(Fault::UnknownOpcode(code)),
        };
        if opcode == Opcode::Noop {
            Ok(())
        } else if opcode == Opcode::Hlt {
            self.memory.move_pc(-1);
            proof {
                lemma_with_pc_twice(m0, (pc + 1) as nat, pc as nat);
                lemma_with_pc_same(m0);
            }
            Ok(())
        } else if opcode == Opcode::Vsync {
            self.update_texture = true;
            Ok(())
        } else {
            exec_instruction(&mut self.memory, opcode)
        }
    }
}

} // verus!
