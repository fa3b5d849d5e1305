use vstd::prelude::*;
use crate::shared::opcodes::Opcode;
use crate::shared::operand_types::OperandKind;
use crate::shared::operand_types::OperandKind::{
    Address, Immediate, IndirectAddress, LongImmediate, LongRegister, LongerImmediate, Register,
};

verus! {

/// The operand kinds an instruction accepts: one list of kinds per
/// accepted combination.
pub struct InstructionSignature {
    pub operands_variations: Vec<Vec<OperandKind>>,
}

impl InstructionSignature {
    /// The accepted combinations.
    pub open spec fn variations(&self) -> Seq<Seq<OperandKind>> {
        Seq::new(self.operands_variations@.len(), |i: int| self.operands_variations@[i]@)
    }

    /// Whether `operands` is one of the accepted combinations.
    pub fn check(&self, operands: &Vec<OperandKind>) -> (r: bool)
        ensures
            r == self.variations().contains(operands@),
    {
        let mut i: usize = 0;
        while i < self.operands_variations.len()
            invariant
                i <= self.operands_variations@.len(),
                forall|j: int| 0 <= j < i ==> self.variations()[j] != operands@,
            decreases self.operands_variations@.len() - i,
        {
            if kinds_equal(&self.operands_variations[i], operands) {
                proof {
                    assert(self.variations()[i as int] == operands@);
                }
                return true;
            }
            i = i + 1;
        }
        false
    }
}

/// Whether two lists of kinds are the same.
fn kinds_equal(a: &Vec<OperandKind>, b: &Vec<OperandKind>) -> (r: bool)
    ensures
        r == (a@ == b@),
{
    if a.len() != b.len() {
        return false;
    }
    let mut i: usize = 0;
    while i < a.len()
        invariant
            a@.len() == b@.len(),
            i <= a@.len(),
            forall|j: int| 0 <= j < i ==> a@[j] == b@[j],
        decreases a@.len() - i,
    {
        if a[i] != b[i] {
            return false;
        }
        i = i + 1;
    }
    proof {
        assert(a@ =~= b@);
    }
    true
}

pub open spec fn mov_signature() -> Seq<Seq<OperandKind>> {
    seq![
        seq![Immediate, Address],
        seq![LongImmediate, Address],
        seq![LongerImmediate, Address],
        seq![Register, Address],
        seq![LongRegister, Address],
        seq![Immediate, IndirectAddress],
        seq![LongImmediate, IndirectAddress],
        seq![LongerImmediate, IndirectAddress],
        seq![Register, IndirectAddress],
        seq![LongRegister, IndirectAddress],
        seq![Address, Register],
        seq![Address, LongRegister],
        seq![IndirectAddress, Register],
        seq![IndirectAddress, LongRegister],
        seq![Register, Register],
        seq![LongImmediate, LongRegister],
        seq![LongRegister, LongRegister],
        seq![Immediate, Register],
    ]
}

pub open spec fn trunc_signature() -> Seq<Seq<OperandKind>> {
    seq![
        seq![LongImmediate, Register],
        seq![LongerImmediate, Register],
        seq![LongRegister, Register],
        seq![LongerImmediate, LongRegister],
    ]
}

pub open spec fn ext_signature() -> Seq<Seq<OperandKind>> {
    seq![
        seq![Address, LongRegister],
        seq![IndirectAddress, LongRegister],
        seq![Immediate, LongRegister],
        seq![Register, LongRegister],
    ]
}

/// Every byte count (any immediate or register) with every pair of
/// `Address`/`IndirectAddress` source and destination.
pub open spec fn copy_signature() -> Seq<Seq<OperandKind>> {
    seq![
        seq![Immediate, Address, Address],
        seq![LongImmediate, Address, Address],
        seq![LongerImmediate, Address, Address],
        seq![Register, Address, Address],
        seq![LongRegister, Address, Address],
        seq![Immediate, IndirectAddress, Address],
        seq![LongImmediate, IndirectAddress, Address],
        seq![LongerImmediate, IndirectAddress, Address],
        seq![Register, IndirectAddress, Address],
        seq![LongRegister, IndirectAddress, Address],
        seq![Immediate, Address, IndirectAddress],
        seq![LongImmediate, Address, IndirectAddress],
        seq![LongerImmediate, Address, IndirectAddress],
        seq![Register, Address, IndirectAddress],
        seq![LongRegister, Address, IndirectAddress],
        seq![Immediate, IndirectAddress, IndirectAddress],
        seq![LongImmediate, IndirectAddress, IndirectAddress],
        seq![LongerImmediate, IndirectAddress, IndirectAddress],
        seq![Register, IndirectAddress, IndirectAddress],
        seq![LongRegister, IndirectAddress, IndirectAddress],
    ]
}

/// Two 8-bit or two 64-bit values, or a 64-bit register with an address
/// taken as a number.
pub open spec fn binary_math_signature() -> Seq<Seq<OperandKind>> {
    seq![
        seq![Immediate, Immediate],
        seq![LongImmediate, LongImmediate],
        seq![Register, Register],
        seq![LongRegister, LongRegister],
        seq![Immediate, Register],
        seq![Register, Immediate],
        seq![LongImmediate, LongRegister],
        seq![LongRegister, LongImmediate],
        seq![LongRegister, Address],
    ]
}

pub open spec fn not_signature() -> Seq<Seq<OperandKind>> {
    seq![seq![Immediate], seq![LongImmediate], seq![Register], seq![LongRegister]]
}

pub open spec fn shifts_signature() -> Seq<Seq<OperandKind>> {
    seq![
        seq![Immediate, Immediate],
        seq![Register, Immediate],
        seq![Immediate, Register],
        seq![LongImmediate, Immediate],
        seq![LongImmediate, Register],
        seq![LongRegister, Immediate],
        seq![LongRegister, Register],
        seq![LongRegister, LongRegister],
        seq![LongRegister, LongImmediate],
        seq![LongImmediate, LongRegister],
        seq![LongImmediate, LongImmediate],
    ]
}

pub open spec fn jmp_signature() -> Seq<Seq<OperandKind>> {
    seq![seq![Address], seq![IndirectAddress]]
}

pub open spec fn conditional_jump_signature() -> Seq<Seq<OperandKind>> {
    seq![
        seq![Register, Address],
        seq![Register, IndirectAddress],
        seq![LongRegister, Address],
        seq![LongRegister, IndirectAddress],
    ]
}

pub open spec fn empty_signature() -> Seq<Seq<OperandKind>> {
    seq![Seq::empty()]
}

pub open spec fn push_signature() -> Seq<Seq<OperandKind>> {
    seq![seq![Immediate], seq![Register]]
}

/// The operand combinations each instruction accepts.
pub open spec fn signature_of(op: Opcode) -> Seq<Seq<OperandKind>> {
    match op {
        Opcode::Noop | Opcode::Hlt | Opcode::Vsync | Opcode::POP | Opcode::RET => empty_signature(),
        Opcode::Mov => mov_signature(),
        Opcode::Trunc => trunc_signature(),
        Opcode::Ext => ext_signature(),
        Opcode::Copy => copy_signature(),
        Opcode::Add | Opcode::Sub | Opcode::Mul | Opcode::Div | Opcode::And | Opcode::Or
        | Opcode::Xor => binary_math_signature(),
        Opcode::Not => not_signature(),
        Opcode::Shr | Opcode::Shl => shifts_signature(),
        Opcode::Jmp | Opcode::CALL => jmp_signature(),
        Opcode::Je | Opcode::Jne => conditional_jump_signature(),
        Opcode::PUSH => push_signature(),
    }
}

fn signature(variations: Vec<Vec<OperandKind>>) -> (r: InstructionSignature)
    ensures
        r.operands_variations@ == variations@,
{
    InstructionSignature { operands_variations: variations }
}


fn kinds0() -> (r: Vec<OperandKind>)
    ensures
        r@ == Seq::<OperandKind>::empty(),
{
    Vec::new()
}

fn kinds1(a: OperandKind) -> (r: Vec<OperandKind>)
    ensures
        r@ == seq![a],
{
    let mut r = Vec::new();
    r.push(a);
    r
}

fn kinds2(a: OperandKind, b: OperandKind) -> (r: Vec<OperandKind>)
    ensures
        r@ == seq![a, b],
{
    let mut r = Vec::new();
    r.push(a);
    r.push(b);
    r
}

fn kinds3(a: OperandKind, b: OperandKind, c: OperandKind) -> (r: Vec<OperandKind>)
    ensures
        r@ == seq![a, b, c],
{
    let mut r = Vec::new();
    r.push(a);
    r.push(b);
    r.push(c);
    r
}

/// The operand combinations `opcode` accepts.
pub fn get_signature(opcode: Opcode) -> (r: InstructionSignature)
    ensures
        r.variations() == signature_of(opcode),
{
    let r = match opcode {
        Opcode::Noop | Opcode::Hlt | Opcode::Vsync | Opcode::POP | Opcode::RET => signature(vec![kinds0()]),
        Opcode::Mov => signature(vec![
            kinds2(Immediate, Address),
            kinds2(LongImmediate, Address),
            kinds2(LongerImmediate, Address),
            kinds2(Register, Address),
            kinds2(LongRegister, Address),
            kinds2(Immediate, IndirectAddress),
            kinds2(LongImmediate, IndirectAddress),
            kinds2(LongerImmediate, IndirectAddress),
            kinds2(Register, IndirectAddress),
            kinds2(LongRegister, IndirectAddress),
            kinds2(Address, Register),
            kinds2(Address, LongRegister),
            kinds2(IndirectAddress, Register),
            kinds2(IndirectAddress, LongRegister),
            kinds2(Register, Register),
            kinds2(LongImmediate, LongRegister),
            kinds2(LongRegister, LongRegister),
            kinds2(Immediate, Register),
        ]),
        Opcode::Trunc => signature(vec![
            kinds2(LongImmediate, Register),
            kinds2(LongerImmediate, Register),
            kinds2(LongRegister, Register),
            kinds2(LongerImmediate, LongRegister),
        ]),
        Opcode::Ext => signature(vec![
            kinds2(Address, LongRegister),
            kinds2(IndirectAddress, LongRegister),
            kinds2(Immediate, LongRegister),
            kinds2(Register, LongRegister),
        ]),
        Opcode::Copy => signature(vec![
            kinds3(Immediate, Address, Address),
            kinds3(LongImmediate, Address, Address),
            kinds3(LongerImmediate, Address, Address),
            kinds3(Register, Address, Address),
            kinds3(LongRegister, Address, Address),
            kinds3(Immediate, IndirectAddress, Address),
            kinds3(LongImmediate, IndirectAddress, Address),
            kinds3(LongerImmediate, IndirectAddress, Address),
            kinds3(Register, IndirectAddress, Address),
            kinds3(LongRegister, IndirectAddress, Address),
            kinds3(Immediate, Address, IndirectAddress),
            kinds3(LongImmediate, Address, IndirectAddress),
            kinds3(LongerImmediate, Address, IndirectAddress),
            kinds3(Register, Address, IndirectAddress),
            kinds3(LongRegister, Address, IndirectAddress),
            kinds3(Immediate, IndirectAddress, IndirectAddress),
            kinds3(LongImmediate, IndirectAddress, IndirectAddress),
            kinds3(LongerImmediate, IndirectAddress, IndirectAddress),
            kinds3(Register, IndirectAddress, IndirectAddress),
            kinds3(LongRegister, IndirectAddress, IndirectAddress),
        ]),
        Opcode::Add | Opcode::Sub | Opcode::Mul | Opcode::Div | Opcode::And | Opcode::Or
        | Opcode::Xor => signature(vec![
            kinds2(Immediate, Immediate),
            kinds2(LongImmediate, LongImmediate),
            kinds2(Register, Register),
            kinds2(LongRegister, LongRegister),
            kinds2(Immediate, Register),
            kinds2(Register, Immediate),
            kinds2(LongImmediate, LongRegister),
            kinds2(LongRegister, LongImmediate),
            kinds2(LongRegister, Address),
        ]),
        Opcode::Not => signature(vec![
            kinds1(Immediate),
            kinds1(LongImmediate),
            kinds1(Register),
            kinds1(LongRegister),
        ]),
        Opcode::Shr | Opcode::Shl => signature(vec![
            kinds2(Immediate, Immediate),
            kinds2(Register, Immediate),
            kinds2(Immediate, Register),
            kinds2(LongImmediate, Immediate),
            kinds2(LongImmediate, Register),
            kinds2(LongRegister, Immediate),
            kinds2(LongRegister, Register),
            kinds2(LongRegister, LongRegister),
            kinds2(LongRegister, LongImmediate),
            kinds2(LongImmediate, LongRegister),
            kinds2(LongImmediate, LongImmediate),
        ]),
        Opcode::Jmp | Opcode::CALL => signature(vec![kinds1(Address), kinds1(IndirectAddress)]),
        Opcode::Je | Opcode::Jne => signature(vec![
            kinds2(Register, Address),
            kinds2(Register, IndirectAddress),
            kinds2(LongRegister, Address),
            kinds2(LongRegister, IndirectAddress),
        ]),
        Opcode::PUSH => signature(vec![kinds1(Immediate), kinds1(Register)]),
    };
    proof {
        assert(r.variations() =~= signature_of(opcode));
    }
    r
}

} // verus!
