use vstd::prelude::*;
use crate::compiler::operand_checking::{
    binary_math_signature, conditional_jump_signature, copy_signature, ext_signature, jmp_signature,
    mov_signature, not_signature, push_signature, shifts_signature, trunc_signature,
};
use crate::compiler::operand_checking::signature_of;
use crate::compiler::parsing::{encode_opcode_spec, kinds_of, operands_bytes, parse_operands_spec, opcode_named, rom_start_of};
use crate::compiler::assembler::{assemble_spec, encode_line_spec, first_pass, is_label_line, second_pass, source_lines};
use crate::compiler::label_laws::lemma_second_pass_prefix;
use crate::shared::manifest::Manifest;
use crate::shared::opcodes::{Opcode, opcode_code, opcode_of_code, lemma_opcode_roundtrip};
use crate::shared::operand_types::{kind_of, operand_bytes, OperandView, lemma_decode_operand_bytes, lemma_read_window};
use crate::runtime::fault::Fault;
use crate::runtime::memory::{MemoryView, lemma_with_pc_twice};
use crate::shared::operand_types::decode_operand;
use crate::runtime::semantics::{
    arith_pair, byte_operand, copy_length, ext_effect, is_address, long_operand, mov_effect,
    register_nonzero, shift_pair, trunc_effect, step_spec, arith_effect, div_effect, logic_effect, shift_effect,
    copy_step, not_step, jmp_step, cond_jump_step, push_step, pop_step, call_step, ret_step,
};

verus! {

/// Every operand combination `mov` accepts in the assembler is one the
/// console moves.
pub proof fn lemma_mov_accepts(m: MemoryView, a: OperandView, b: OperandView)
    requires
        mov_signature().contains(seq![kind_of(a), kind_of(b)]),
    ensures
        mov_effect(m, a, b) != Err::<MemoryView, Fault>(Fault::InvalidOperands(Opcode::Mov)),
{
    let k = seq![kind_of(a), kind_of(b)];
    let i = choose|i: int| 0 <= i < mov_signature().len() && mov_signature()[i] == k;
    assert(mov_signature()[i][0] == kind_of(a));
    assert(mov_signature()[i][1] == kind_of(b));
}

/// Every operand combination `trunc` accepts in the assembler is one the
/// console truncates.
pub proof fn lemma_trunc_accepts(m: MemoryView, a: OperandView, b: OperandView)
    requires
        trunc_signature().contains(seq![kind_of(a), kind_of(b)]),
    ensures
        trunc_effect(m, a, b) != Err::<MemoryView, Fault>(Fault::InvalidOperands(Opcode::Trunc)),
{
    let k = seq![kind_of(a), kind_of(b)];
    let i = choose|i: int| 0 <= i < trunc_signature().len() && trunc_signature()[i] == k;
    assert(trunc_signature()[i][0] == kind_of(a));
    assert(trunc_signature()[i][1] == kind_of(b));
}

/// Every operand combination `ext` accepts in the assembler is one the
/// console widens.
pub proof fn lemma_ext_accepts(m: MemoryView, a: OperandView, b: OperandView)
    requires
        ext_signature().contains(seq![kind_of(a), kind_of(b)]),
    ensures
        ext_effect(m, a, b) != Err::<MemoryView, Fault>(Fault::InvalidOperands(Opcode::Ext)),
{
    let k = seq![kind_of(a), kind_of(b)];
    let i = choose|i: int| 0 <= i < ext_signature().len() && ext_signature()[i] == k;
    assert(ext_signature()[i][0] == kind_of(a));
    assert(ext_signature()[i][1] == kind_of(b));
}

/// Every operand combination `copy` accepts in the assembler has a length
/// and two addresses.
pub proof fn lemma_copy_accepts(m: MemoryView, a: OperandView, b: OperandView, c: OperandView)
    requires
        copy_signature().contains(seq![kind_of(a), kind_of(b), kind_of(c)]),
    ensures
        copy_length(a, m) is Some,
        is_address(b),
        is_address(c),
{
    let k = seq![kind_of(a), kind_of(b), kind_of(c)];
    let i = choose|i: int| 0 <= i < copy_signature().len() && copy_signature()[i] == k;
    assert(copy_signature()[i][0] == kind_of(a));
    assert(copy_signature()[i][1] == kind_of(b));
    assert(copy_signature()[i][2] == kind_of(c));
}

/// Every operand combination the arithmetic and logic instructions accept
/// in the assembler gives the console two values of one size.
pub proof fn lemma_binary_math_accepts(m: MemoryView, a: OperandView, b: OperandView)
    requires
        binary_math_signature().contains(seq![kind_of(a), kind_of(b)]),
    ensures
        arith_pair(a, b, m) is Some,
{
    let k = seq![kind_of(a), kind_of(b)];
    let i = choose|i: int| 0 <= i < binary_math_signature().len() && binary_math_signature()[i] == k;
    assert(binary_math_signature()[i][0] == kind_of(a));
    assert(binary_math_signature()[i][1] == kind_of(b));
}

/// Every operand `not` accepts in the assembler is a value the console
/// complements.
pub proof fn lemma_not_accepts(m: MemoryView, a: OperandView)
    requires
        not_signature().contains(seq![kind_of(a)]),
    ensures
        byte_operand(a, m) is Some || long_operand(a, m) is Some,
{
    let k = seq![kind_of(a)];
    let i = choose|i: int| 0 <= i < not_signature().len() && not_signature()[i] == k;
    assert(not_signature()[i][0] == kind_of(a));
}

/// Every operand combination the shifts accept in the assembler gives the
/// console a value and an amount.
pub proof fn lemma_shifts_accept(m: MemoryView, a: OperandView, b: OperandView)
    requires
        shifts_signature().contains(seq![kind_of(a), kind_of(b)]),
    ensures
        shift_pair(a, b, m) is Some,
{
    let k = seq![kind_of(a), kind_of(b)];
    let i = choose|i: int| 0 <= i < shifts_signature().len() && shifts_signature()[i] == k;
    assert(shifts_signature()[i][0] == kind_of(a));
    assert(shifts_signature()[i][1] == kind_of(b));
}

/// Every operand `jmp` and `call` accept in the assembler is an address.
pub proof fn lemma_jump_accepts(a: OperandView)
    requires
        jmp_signature().contains(seq![kind_of(a)]),
    ensures
        is_address(a),
{
    let k = seq![kind_of(a)];
    let i = choose|i: int| 0 <= i < jmp_signature().len() && jmp_signature()[i] == k;
    assert(jmp_signature()[i][0] == kind_of(a));
}

/// Every operand combination the conditional jumps accept in the
/// assembler is a register to test and an address.
pub proof fn lemma_conditional_jump_accepts(m: MemoryView, a: OperandView, b: OperandView)
    requires
        conditional_jump_signature().contains(seq![kind_of(a), kind_of(b)]),
    ensures
        register_nonzero(a, m) is Some,
        is_address(b),
{
    let k = seq![kind_of(a), kind_of(b)];
    let i = choose|i: int| 0 <= i < conditional_jump_signature().len() && conditional_jump_signature()[i] == k;
    assert(conditional_jump_signature()[i][0] == kind_of(a));
    assert(conditional_jump_signature()[i][1] == kind_of(b));
}

/// Every operand `push` accepts in the assembler is a byte the console
/// pushes.
pub proof fn lemma_push_accepts(m: MemoryView, a: OperandView)
    requires
        push_signature().contains(seq![kind_of(a)]),
    ensures
        byte_operand(a, m) is Some,
{
    let k = seq![kind_of(a)];
    let i = choose|i: int| 0 <= i < push_signature().len() && push_signature()[i] == k;
    assert(push_signature()[i][0] == kind_of(a));
}

/// The bytecode of one, two or three operands, written out.
proof fn lemma_operands_bytes_unfold(ops: Seq<OperandView>)
    ensures
        ops.len() == 0 ==> operands_bytes(ops) == Seq::<u8>::empty(),
        ops.len() == 1 ==> operands_bytes(ops) == operand_bytes(ops[0]),
        ops.len() == 2 ==> operands_bytes(ops) == operand_bytes(ops[0]) + operand_bytes(ops[1]),
        ops.len() == 3 ==> operands_bytes(ops) == operand_bytes(ops[0]) + operand_bytes(ops[1]) + operand_bytes(ops[2]),
{
    if ops.len() == 1 {
        let d1 = ops.drop_last();
        assert(operands_bytes(d1) == Seq::<u8>::empty());
        assert(operands_bytes(ops) =~= operand_bytes(ops[0]));
    } else if ops.len() == 2 {
        let d1 = ops.drop_last();
        let d2 = d1.drop_last();
        assert(operands_bytes(d2) == Seq::<u8>::empty());
        assert(operands_bytes(d1) =~= operand_bytes(ops[0]));
    } else if ops.len() == 3 {
        let d1 = ops.drop_last();
        let d2 = d1.drop_last();
        let d3 = d2.drop_last();
        assert(operands_bytes(d3) == Seq::<u8>::empty());
        assert(operands_bytes(d2) =~= operand_bytes(ops[0]));
        assert(operands_bytes(d1) =~= operand_bytes(ops[0]) + operand_bytes(ops[1]));
    }
}

/// The operand whose bytes sit `off` bytes into the instruction read at the
/// program counter decodes back, the program counter then standing `off`
/// bytes in.
proof fn lemma_decode_at(m: MemoryView, code: Seq<u8>, off: nat, op: OperandView)
    requires
        m.wf(),
        m.read(m.pc(), code.len()) == code,
        off + operand_bytes(op).len() <= code.len(),
        code.subrange(off as int, (off + operand_bytes(op).len()) as int) == operand_bytes(op),
        m.pc() + code.len() <= usize::MAX,
    ensures
        decode_operand(m.with_pc(m.pc() + off)) == Ok::<(OperandView, nat), Fault>((op, m.pc() + off + operand_bytes(op).len())),
{
    let pc = m.pc();
    let len = operand_bytes(op).len();
    lemma_read_window(m, pc, code.len(), off, len);
    let m1 = m.with_pc(pc + off);
    assert(m1.read(m1.pc(), len) == m.read(pc + off, len));
    lemma_decode_operand_bytes(m1, op);
}

/// The bytes at the program counter are the code of `op` followed by the
/// bytecode of `ops`, all within reach of `usize`.
pub open spec fn holds_instruction(m: MemoryView, op: Opcode, ops: Seq<OperandView>) -> bool {
    &&& m.wf()
    &&& m.read(m.pc(), 1 + operands_bytes(ops).len()) == seq![opcode_code(op)] + operands_bytes(ops)
    &&& m.pc() + 1 + operands_bytes(ops).len() <= usize::MAX
}

/// Whether a step of the machine went through, or stopped only for what the
/// values at hand did, and not because it could not read or did not accept
/// its instruction.
pub open spec fn not_refused(r: Result<(MemoryView, bool), Fault>) -> bool {
    match r {
        Ok(_) => true,
        Err(f) => !(f is UnknownOpcode) && !(f is CorruptedOperand) && !(f is InvalidOperands),
    }
}

/// The console reads back the instruction and the operands it holds.
proof fn lemma_decode_instruction(m: MemoryView, op: Opcode, ops: Seq<OperandView>)
    requires
        holds_instruction(m, op, ops),
        ops.len() <= 3,
    ensures
        m.byte_at(m.pc()) == opcode_code(op),
        ops.len() >= 1 ==> decode_operand(m.with_pc(m.pc() + 1)) == Ok::<(OperandView, nat), Fault>(
            (ops[0], m.pc() + 1 + operand_bytes(ops[0]).len()),
        ),
        ops.len() >= 2 ==> decode_operand(m.with_pc(m.pc() + 1 + operand_bytes(ops[0]).len())) == Ok::<(OperandView, nat), Fault>(
            (ops[1], m.pc() + 1 + operand_bytes(ops[0]).len() + operand_bytes(ops[1]).len()),
        ),
        ops.len() >= 3 ==> decode_operand(m.with_pc(m.pc() + 1 + operand_bytes(ops[0]).len() + operand_bytes(ops[1]).len())) == Ok::<(OperandView, nat), Fault>(
            (ops[2], m.pc() + 1 + operand_bytes(ops[0]).len() + operand_bytes(ops[1]).len() + operand_bytes(ops[2]).len()),
        ),
{
    let pc = m.pc();
    let code = seq![opcode_code(op)] + operands_bytes(ops);
    assert(m.read(pc, code.len())[0] == m.byte_at(pc));
    lemma_operands_bytes_unfold(ops);
    if ops.len() >= 1 {
        let a = ops[0];
        assert(code.subrange(1, (1 + operand_bytes(a).len()) as int) =~= operand_bytes(a));
        lemma_decode_at(m, code, 1, a);
        if ops.len() >= 2 {
            let b = ops[1];
            let ob: nat = 1 + operand_bytes(a).len();
            assert(code.subrange(ob as int, (ob + operand_bytes(b).len()) as int) =~= operand_bytes(b));
            lemma_decode_at(m, code, ob, b);
            if ops.len() >= 3 {
                let c = ops[2];
                let oc: nat = ob + operand_bytes(b).len();
                assert(code.subrange(oc as int, (oc + operand_bytes(c).len()) as int) =~= operand_bytes(c));
                lemma_decode_at(m, code, oc, c);
            }
        }
    }
}


/// The `mov` instructions run on every operand combination
/// the assembler accepts for them.
proof fn lemma_mov_runs(m: MemoryView, op: Opcode, ops: Seq<OperandView>)
    requires
        op == Opcode::Mov,
        holds_instruction(m, op, ops),
        mov_signature().contains(kinds_of(ops)),
    ensures
        not_refused(step_spec(m)),
{
    let i = choose|i: int| 0 <= i < mov_signature().len() && mov_signature()[i] == kinds_of(ops);
    assert(mov_signature()[i].len() == 2);
    assert(kinds_of(ops) =~= seq![kind_of(ops[0]), kind_of(ops[1])]);
    lemma_decode_instruction(m, op, ops);
    lemma_opcode_roundtrip(op);
    let pc = m.pc();
    let m1 = m.with_pc(pc + 1);
    let p = pc + 1 + operand_bytes(ops[0]).len();
    let q = p + operand_bytes(ops[1]).len();
    lemma_with_pc_twice(m, pc + 1, p);
    lemma_with_pc_twice(m, pc + 1, q);
    let m2 = m1.with_pc(q);
    lemma_mov_accepts(m2, ops[0], ops[1]);
}

/// The `trunc` instructions run on every operand combination
/// the assembler accepts for them.
proof fn lemma_trunc_runs(m: MemoryView, op: Opcode, ops: Seq<OperandView>)
    requires
        op == Opcode::Trunc,
        holds_instruction(m, op, ops),
        trunc_signature().contains(kinds_of(ops)),
    ensures
        not_refused(step_spec(m)),
{
    let i = choose|i: int| 0 <= i < trunc_signature().len() && trunc_signature()[i] == kinds_of(ops);
    assert(trunc_signature()[i].len() == 2);
    assert(kinds_of(ops) =~= seq![kind_of(ops[0]), kind_of(ops[1])]);
    lemma_decode_instruction(m, op, ops);
    lemma_opcode_roundtrip(op);
    let pc = m.pc();
    let m1 = m.with_pc(pc + 1);
    let p = pc + 1 + operand_bytes(ops[0]).len();
    let q = p + operand_bytes(ops[1]).len();
    lemma_with_pc_twice(m, pc + 1, p);
    lemma_with_pc_twice(m, pc + 1, q);
    let m2 = m1.with_pc(q);
    lemma_trunc_accepts(m2, ops[0], ops[1]);
}

/// The `ext` instructions run on every operand combination
/// the assembler accepts for them.
proof fn lemma_ext_runs(m: MemoryView, op: Opcode, ops: Seq<OperandView>)
    requires
        op == Opcode::Ext,
        holds_instruction(m, op, ops),
        ext_signature().contains(kinds_of(ops)),
    ensures
        not_refused(step_spec(m)),
{
    let i = choose|i: int| 0 <= i < ext_signature().len() && ext_signature()[i] == kinds_of(ops);
    assert(ext_signature()[i].len() == 2);
    assert(kinds_of(ops) =~= seq![kind_of(ops[0]), kind_of(ops[1])]);
    lemma_decode_instruction(m, op, ops);
    lemma_opcode_roundtrip(op);
    let pc = m.pc();
    let m1 = m.with_pc(pc + 1);
    let p = pc + 1 + operand_bytes(ops[0]).len();
    let q = p + operand_bytes(ops[1]).len();
    lemma_with_pc_twice(m, pc + 1, p);
    lemma_with_pc_twice(m, pc + 1, q);
    let m2 = m1.with_pc(q);
    lemma_ext_accepts(m2, ops[0], ops[1]);
}

/// The `binary math` instructions run on every operand combination
/// the assembler accepts for them.
proof fn lemma_binary_math_runs(m: MemoryView, op: Opcode, ops: Seq<OperandView>)
    requires
        op == Opcode::Add || op == Opcode::Sub || op == Opcode::Mul || op == Opcode::Div || op == Opcode::And || op == Opcode::Or || op == Opcode::Xor,
        holds_instruction(m, op, ops),
        binary_math_signature().contains(kinds_of(ops)),
    ensures
        not_refused(step_spec(m)),
{
    let i = choose|i: int| 0 <= i < binary_math_signature().len() && binary_math_signature()[i] == kinds_of(ops);
    assert(binary_math_signature()[i].len() == 2);
    assert(kinds_of(ops) =~= seq![kind_of(ops[0]), kind_of(ops[1])]);
    lemma_decode_instruction(m, op, ops);
    lemma_opcode_roundtrip(op);
    let pc = m.pc();
    let m1 = m.with_pc(pc + 1);
    let p = pc + 1 + operand_bytes(ops[0]).len();
    let q = p + operand_bytes(ops[1]).len();
    lemma_with_pc_twice(m, pc + 1, p);
    lemma_with_pc_twice(m, pc + 1, q);
    let m2 = m1.with_pc(q);
    lemma_binary_math_accepts(m2, ops[0], ops[1]);
}

/// The `shifts` instructions run on every operand combination
/// the assembler accepts for them.
proof fn lemma_shifts_runs(m: MemoryView, op: Opcode, ops: Seq<OperandView>)
    requires
        op == Opcode::Shl || op == Opcode::Shr,
        holds_instruction(m, op, ops),
        shifts_signature().contains(kinds_of(ops)),
    ensures
        not_refused(step_spec(m)),
{
    let i = choose|i: int| 0 <= i < shifts_signature().len() && shifts_signature()[i] == kinds_of(ops);
    assert(shifts_signature()[i].len() == 2);
    assert(kinds_of(ops) =~= seq![kind_of(ops[0]), kind_of(ops[1])]);
    lemma_decode_instruction(m, op, ops);
    lemma_opcode_roundtrip(op);
    let pc = m.pc();
    let m1 = m.with_pc(pc + 1);
    let p = pc + 1 + operand_bytes(ops[0]).len();
    let q = p + operand_bytes(ops[1]).len();
    lemma_with_pc_twice(m, pc + 1, p);
    lemma_with_pc_twice(m, pc + 1, q);
    let m2 = m1.with_pc(q);
    lemma_shifts_accept(m2, ops[0], ops[1]);
}

/// The `conditional jump` instructions run on every operand combination
/// the assembler accepts for them.
proof fn lemma_conditional_jump_runs(m: MemoryView, op: Opcode, ops: Seq<OperandView>)
    requires
        op == Opcode::Je || op == Opcode::Jne,
        holds_instruction(m, op, ops),
        conditional_jump_signature().contains(kinds_of(ops)),
    ensures
        not_refused(step_spec(m)),
{
    let i = choose|i: int| 0 <= i < conditional_jump_signature().len() && conditional_jump_signature()[i] == kinds_of(ops);
    assert(conditional_jump_signature()[i].len() == 2);
    assert(kinds_of(ops) =~= seq![kind_of(ops[0]), kind_of(ops[1])]);
    lemma_decode_instruction(m, op, ops);
    lemma_opcode_roundtrip(op);
    let pc = m.pc();
    let m1 = m.with_pc(pc + 1);
    let p = pc + 1 + operand_bytes(ops[0]).len();
    let q = p + operand_bytes(ops[1]).len();
    lemma_with_pc_twice(m, pc + 1, p);
    lemma_with_pc_twice(m, pc + 1, q);
    let m2 = m1.with_pc(q);
    lemma_conditional_jump_accepts(m.with_pc(p), ops[0], ops[1]);
}

/// The `not` instructions run on every operand combination
/// the assembler accepts for them.
proof fn lemma_not_runs(m: MemoryView, op: Opcode, ops: Seq<OperandView>)
    requires
        op == Opcode::Not,
        holds_instruction(m, op, ops),
        not_signature().contains(kinds_of(ops)),
    ensures
        not_refused(step_spec(m)),
{
    let i = choose|i: int| 0 <= i < not_signature().len() && not_signature()[i] == kinds_of(ops);
    assert(not_signature()[i].len() == 1);
    assert(kinds_of(ops) =~= seq![kind_of(ops[0])]);
    lemma_decode_instruction(m, op, ops);
    lemma_opcode_roundtrip(op);
    let pc = m.pc();
    let m1 = m.with_pc(pc + 1);
    let p = pc + 1 + operand_bytes(ops[0]).len();
    lemma_not_accepts(m.with_pc(p), ops[0]);
}

/// The `jump` instructions run on every operand combination
/// the assembler accepts for them.
proof fn lemma_jump_runs(m: MemoryView, op: Opcode, ops: Seq<OperandView>)
    requires
        op == Opcode::Jmp || op == Opcode::CALL,
        holds_instruction(m, op, ops),
        jmp_signature().contains(kinds_of(ops)),
    ensures
        not_refused(step_spec(m)),
{
    let i = choose|i: int| 0 <= i < jmp_signature().len() && jmp_signature()[i] == kinds_of(ops);
    assert(jmp_signature()[i].len() == 1);
    assert(kinds_of(ops) =~= seq![kind_of(ops[0])]);
    lemma_decode_instruction(m, op, ops);
    lemma_opcode_roundtrip(op);
    let pc = m.pc();
    let m1 = m.with_pc(pc + 1);
    let p = pc + 1 + operand_bytes(ops[0]).len();
    lemma_jump_accepts(ops[0]);
}

/// The `push` instructions run on every operand combination
/// the assembler accepts for them.
proof fn lemma_push_runs(m: MemoryView, op: Opcode, ops: Seq<OperandView>)
    requires
        op == Opcode::PUSH,
        holds_instruction(m, op, ops),
        push_signature().contains(kinds_of(ops)),
    ensures
        not_refused(step_spec(m)),
{
    let i = choose|i: int| 0 <= i < push_signature().len() && push_signature()[i] == kinds_of(ops);
    assert(push_signature()[i].len() == 1);
    assert(kinds_of(ops) =~= seq![kind_of(ops[0])]);
    lemma_decode_instruction(m, op, ops);
    lemma_opcode_roundtrip(op);
    let pc = m.pc();
    let m1 = m.with_pc(pc + 1);
    let p = pc + 1 + operand_bytes(ops[0]).len();
    lemma_push_accepts(m.with_pc(p), ops[0]);
}

/// The `copy` instructions run on every operand combination
/// the assembler accepts for them.
proof fn lemma_copy_runs(m: MemoryView, op: Opcode, ops: Seq<OperandView>)
    requires
        op == Opcode::Copy,
        holds_instruction(m, op, ops),
        copy_signature().contains(kinds_of(ops)),
    ensures
        not_refused(step_spec(m)),
{
    let i = choose|i: int| 0 <= i < copy_signature().len() && copy_signature()[i] == kinds_of(ops);
    assert(copy_signature()[i].len() == 3);
    assert(kinds_of(ops) =~= seq![kind_of(ops[0]), kind_of(ops[1]), kind_of(ops[2])]);
    lemma_decode_instruction(m, op, ops);
    lemma_opcode_roundtrip(op);
    let pc = m.pc();
    let m1 = m.with_pc(pc + 1);
    let p = pc + 1 + operand_bytes(ops[0]).len();
    let q = p + operand_bytes(ops[1]).len();
    lemma_with_pc_twice(m, pc + 1, p);
    lemma_with_pc_twice(m, pc + 1, q);
    let m2 = m1.with_pc(q);
    let r = q + operand_bytes(ops[2]).len();
    lemma_with_pc_twice(m, pc + 1, r);
    lemma_with_pc_twice(m, p, q);
    lemma_copy_accepts(m.with_pc(p), ops[0], ops[1], ops[2]);
}

/// Code the assembler emits runs. Where the bytes at the program counter
/// are the code of an instruction followed by the bytecode of operands of a
/// combination the assembler accepts for it, the console recognises the
/// instruction, reads back those operands and refuses none of them: only
/// their values (a zero divisor, a shift as wide as the value, a stack
/// pointer too low to pop from, an address past the end of `usize`) can
/// still stop it.
pub proof fn lemma_assembled_instruction_runs(m: MemoryView, op: Opcode, ops: Seq<OperandView>)
    requires
        holds_instruction(m, op, ops),
        signature_of(op).contains(kinds_of(ops)),
    ensures
        not_refused(step_spec(m)),
{
    match op {
        Opcode::Noop | Opcode::Hlt | Opcode::Vsync | Opcode::POP | Opcode::RET => {
            let i = choose|i: int| 0 <= i < signature_of(op).len() && signature_of(op)[i] == kinds_of(ops);
            assert(signature_of(op)[i].len() == 0);
            lemma_decode_instruction(m, op, ops);
            lemma_opcode_roundtrip(op);
        },
        Opcode::Mov => lemma_mov_runs(m, op, ops),
        Opcode::Trunc => lemma_trunc_runs(m, op, ops),
        Opcode::Ext => lemma_ext_runs(m, op, ops),
        Opcode::Copy => lemma_copy_runs(m, op, ops),
        Opcode::Add | Opcode::Sub | Opcode::Mul | Opcode::Div | Opcode::And | Opcode::Or | Opcode::Xor =>
            lemma_binary_math_runs(m, op, ops),
        Opcode::Not => lemma_not_runs(m, op, ops),
        Opcode::Shr | Opcode::Shl => lemma_shifts_runs(m, op, ops),
        Opcode::Jmp | Opcode::CALL => lemma_jump_runs(m, op, ops),
        Opcode::Je | Opcode::Jne => lemma_conditional_jump_runs(m, op, ops),
        Opcode::PUSH => lemma_push_runs(m, op, ops),
    }
}

/// What the assembler emits for a line runs: where the bytes at the program
/// counter are the bytecode the assembler gives for an instruction and its
/// operand tokens, the console reads and accepts that instruction.
pub proof fn lemma_encoded_instruction_runs(
    m: MemoryView,
    op: Opcode,
    args: Seq<Seq<char>>,
    labels: Map<Seq<char>, u64>,
    is_first_pass: bool,
    rom_start: nat,
)
    requires
        m.wf(),
        encode_opcode_spec(op, args, labels, is_first_pass, rom_start) is Ok,
        m.read(m.pc(), encode_opcode_spec(op, args, labels, is_first_pass, rom_start)->Ok_0.len())
            == encode_opcode_spec(op, args, labels, is_first_pass, rom_start)->Ok_0,
        m.pc() + encode_opcode_spec(op, args, labels, is_first_pass, rom_start)->Ok_0.len() <= usize::MAX,
    ensures
        not_refused(step_spec(m)),
{
    let ops = parse_operands_spec(args, labels, is_first_pass, rom_start)->Ok_0;
    assert((seq![opcode_code(op)] + operands_bytes(ops)).len() == 1 + operands_bytes(ops).len());
    lemma_assembled_instruction_runs(m, op, ops);
}

/// Programs the assembler emits run on the console. Loaded at the start of
/// ROM (where the assembler places labels), every instruction line of an
/// assembled program is accepted when the program counter reaches the
/// bytes emitted for it: the console reads back its instruction and
/// operands and refuses none of them.
pub proof fn lemma_assembled_program_runs(source: Seq<char>, manifest: Manifest, m: MemoryView, j: int)
    requires
        assemble_spec(source, manifest) is Ok,
        0 <= j < source_lines(source).len(),
        !is_label_line(source_lines(source)[j]),
        source_lines(source)[j].len() > 0,
        m.wf(),
        m.read(rom_start_of(manifest), assemble_spec(source, manifest)->Ok_0.len()) == assemble_spec(source, manifest)->Ok_0,
        rom_start_of(manifest) + assemble_spec(source, manifest)->Ok_0.len() <= usize::MAX,
        m.pc() == rom_start_of(manifest) + second_pass(
            source_lines(source).take(j),
            first_pass(source_lines(source), rom_start_of(manifest))->Ok_0.0,
            rom_start_of(manifest),
        )->Ok_0.len(),
    ensures
        not_refused(step_spec(m)),
{
    let lines = source_lines(source);
    let rs = rom_start_of(manifest);
    let labels = first_pass(lines, rs)->Ok_0.0;
    let code = assemble_spec(source, manifest)->Ok_0;
    lemma_second_pass_prefix(lines, labels, rs, j + 1);
    lemma_second_pass_prefix(lines, labels, rs, j);
    let upto = lines.take(j + 1);
    assert(upto.drop_last() =~= lines.take(j));
    assert(upto.last() == lines[j]);
    let before = second_pass(lines.take(j), labels, rs)->Ok_0;
    let with_line = second_pass(upto, labels, rs)->Ok_0;
    let toks = lines[j];
    let b = encode_line_spec(toks, labels, false, rs)->Ok_0;
    assert(with_line == before + b);
    let start = before.len();
    assert(code.subrange(start as int, (start + b.len()) as int) =~= b) by {
        assert(code.subrange(0, with_line.len() as int) == with_line);
        assert forall|i: int| 0 <= i < b.len() implies code.subrange(start as int, (start + b.len()) as int)[i] == b[i] by {
            assert(code.subrange(0, with_line.len() as int)[start + i] == with_line[start + i]);
        }
    }
    lemma_read_window(m, rs, code.len(), start, b.len());
    let op = opcode_named(toks[0])->0;
    lemma_encoded_instruction_runs(m, op, toks.drop_first(), labels, false, rs);
}

/// What a step gives for an instruction's effect: no screen update.
pub open spec fn quiet(r: Result<MemoryView, Fault>) -> Result<(MemoryView, bool), Fault> {
    match r {
        Ok(m) => Ok((m, false)),
        Err(f) => Err(f),
    }
}

/// Each instruction with two operands does its own work: where the bytes
/// at the program counter hold `op` with operands `a` and `b`, a step reads
/// both and then moves (`mov`), narrows (`trunc`), widens (`ext`), computes
/// (`add`, `sub`, `mul`), divides (`div`), combines bits (`and`, `or`,
/// `xor`) or shifts (`shl`, `shr`) as that instruction does, on the machine
/// as it is after the operands.
pub proof fn lemma_two_operand_instruction_acts(m: MemoryView, op: Opcode, a: OperandView, b: OperandView)
    requires
        holds_instruction(m, op, seq![a, b]),
    ensures
        ({
            let m2 = m.with_pc(m.pc() + 1 + operand_bytes(a).len() + operand_bytes(b).len());
            &&& op == Opcode::Mov ==> step_spec(m) == quiet(mov_effect(m2, a, b))
            &&& op == Opcode::Trunc ==> step_spec(m) == quiet(trunc_effect(m2, a, b))
            &&& op == Opcode::Ext ==> step_spec(m) == quiet(ext_effect(m2, a, b))
            &&& (op == Opcode::Add || op == Opcode::Sub || op == Opcode::Mul) ==> (arith_pair(a, b, m2) matches Some(p)
                ==> step_spec(m) == Ok::<(MemoryView, bool), Fault>((arith_effect(op, m2, p), false)))
            &&& op == Opcode::Div ==> (arith_pair(a, b, m2) matches Some(p) ==> step_spec(m) == quiet(div_effect(m2, p)))
            &&& (op == Opcode::And || op == Opcode::Or || op == Opcode::Xor) ==> (arith_pair(a, b, m2) matches Some(p)
                ==> step_spec(m) == Ok::<(MemoryView, bool), Fault>((logic_effect(op, m2, p), false)))
            &&& (op == Opcode::Shl || op == Opcode::Shr) ==> (shift_pair(a, b, m2) matches Some(p)
                ==> step_spec(m) == quiet(shift_effect(op, m2, p)))
        }),
{
    let ops = seq![a, b];
    lemma_decode_instruction(m, op, ops);
    lemma_opcode_roundtrip(op);
    let pc = m.pc();
    let p = pc + 1 + operand_bytes(a).len();
    let q = p + operand_bytes(b).len();
    lemma_with_pc_twice(m, pc + 1, p);
    lemma_with_pc_twice(m, pc + 1, q);
}

/// Each instruction without two plain operands does its own work: once
/// its code is read, `copy` copies, `not` flips, `jmp` jumps, `jnz`/`jz`
/// jump on a register, `push` and `pop` use the stack, `call` calls and
/// `ret` returns, each from the byte after the code.
pub proof fn lemma_other_instructions_act(m: MemoryView)
    requires
        m.wf(),
        m.pc() + 1 <= usize::MAX,
    ensures
        ({
            let m1 = m.with_pc(m.pc() + 1);
            let op = opcode_of_code(m.byte_at(m.pc()));
            &&& op == Some(Opcode::Copy) ==> step_spec(m) == quiet(copy_step(m1))
            &&& op == Some(Opcode::Not) ==> step_spec(m) == quiet(not_step(m1))
            &&& op == Some(Opcode::Jmp) ==> step_spec(m) == quiet(jmp_step(m1))
            &&& op == Some(Opcode::Je) ==> step_spec(m) == quiet(cond_jump_step(Opcode::Je, m1))
            &&& op == Some(Opcode::Jne) ==> step_spec(m) == quiet(cond_jump_step(Opcode::Jne, m1))
            &&& op == Some(Opcode::PUSH) ==> step_spec(m) == quiet(push_step(m1))
            &&& op == Some(Opcode::POP) ==> step_spec(m) == quiet(pop_step(m1))
            &&& op == Some(Opcode::CALL) ==> step_spec(m) == quiet(call_step(m1))
            &&& op == Some(Opcode::RET) ==> step_spec(m) == quiet(ret_step(m1))
        }),
{
}

} // verus!
