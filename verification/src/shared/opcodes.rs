use vstd::prelude::*;

verus! {

/// The instructions of the console. Each is encoded as a single byte,
/// followed by its operands.
#[derive(PartialEq, Eq, Structural, Copy, Clone, Debug)]
pub enum Opcode {
    Noop,
    Hlt,
    Vsync,
    Mov,
    Trunc,
    Ext,
    Copy,
    Add,
    Sub,
    Mul,
    Div,
    And,
    Or,
    Xor,
    Not,
    Shr,
    Shl,
    Jmp,
    Je,
    Jne,
    PUSH,
    POP,
    RET,
    CALL,
}

pub open spec fn opcode_code(op: Opcode) -> u8 {
    match op {
        Opcode::Noop => 0x00,
        Opcode::Hlt => 0x01,
        Opcode::Vsync => 0x02,
        Opcode::Mov => 0x10,
        Opcode::Trunc => 0x11,
        Opcode::Ext => 0x12,
        Opcode::Copy => 0x13,
        Opcode::Add => 0x20,
        Opcode::Sub => 0x21,
        Opcode::Mul => 0x22,
        Opcode::Div => 0x23,
        Opcode::And => 0x30,
        Opcode::Or => 0x31,
        Opcode::Xor => 0x32,
        Opcode::Not => 0x33,
        Opcode::Shl => 0x34,
        Opcode::Shr => 0x35,
        Opcode::Jmp => 0x40,
        Opcode::Je => 0x41,
        Opcode::Jne => 0x42,
        Opcode::PUSH => 0x50,
        Opcode::POP => 0x51,
        Opcode::RET => 0x52,
        Opcode::CALL => 0x53,
    }
}

/// The mnemonics of the instructions with the bytecode each assembles to;
/// `jnz` and `jz` are other names for `je` and `jne`.
pub open spec fn mnemonics() -> Seq<(Seq<char>, u8)> {
    seq![
        (seq!['n', 'o', 'o', 'p'], 0x00u8),
        (seq!['h', 'l', 't'], 0x01u8),
        (seq!['v', 's', 'y', 'n', 'c'], 0x02u8),
        (seq!['m', 'o', 'v'], 0x10u8),
        (seq!['t', 'r', 'u', 'n', 'c'], 0x11u8),
        (seq!['e', 'x', 't'], 0x12u8),
        (seq!['c', 'o', 'p', 'y'], 0x13u8),
        (seq!['a', 'd', 'd'], 0x20u8),
        (seq!['s', 'u', 'b'], 0x21u8),
        (seq!['m', 'u', 'l'], 0x22u8),
        (seq!['d', 'i', 'v'], 0x23u8),
        (seq!['a', 'n', 'd'], 0x30u8),
        (seq!['o', 'r'], 0x31u8),
        (seq!['x', 'o', 'r'], 0x32u8),
        (seq!['n', 'o', 't'], 0x33u8),
        (seq!['s', 'h', 'l'], 0x34u8),
        (seq!['s', 'h', 'r'], 0x35u8),
        (seq!['j', 'm', 'p'], 0x40u8),
        (seq!['j', 'e'], 0x41u8),
        (seq!['j', 'n', 'e'], 0x42u8),
        (seq!['j', 'n', 'z'], 0x41u8),
        (seq!['j', 'z'], 0x42u8),
        (seq!['p', 'u', 's', 'h'], 0x50u8),
        (seq!['p', 'o', 'p'], 0x51u8),
        (seq!['r', 'e', 't'], 0x52u8),
        (seq!['c', 'a', 'l', 'l'], 0x53u8),
    ]
}

/// The instruction a byte encodes: the unique opcode whose code it is.
pub open spec fn opcode_of_code(code: u8) -> Option<Opcode> {
    if exists|op: Opcode| opcode_code(op) == code {
        Some(choose|op: Opcode| opcode_code(op) == code)
    } else {
        None
    }
}

/// No two instructions share a code.
pub proof fn lemma_opcode_code_injective(a: Opcode, b: Opcode)
    ensures
        opcode_code(a) == opcode_code(b) ==> a == b,
{
}

impl Opcode {
    pub fn to_bytecode(&self) -> (r: u8)
        ensures
            r == opcode_code(*self),
    {
        match self {
            Opcode::Noop => 0x00,
            Opcode::Hlt => 0x01,
            Opcode::Vsync => 0x02,
            Opcode::Mov => 0x10,
            Opcode::Trunc => 0x11,
            Opcode::Ext => 0x12,
            Opcode::Copy => 0x13,
            Opcode::Add => 0x20,
            Opcode::Sub => 0x21,
            Opcode::Mul => 0x22,
            Opcode::Div => 0x23,
            Opcode::And => 0x30,
            Opcode::Or => 0x31,
            Opcode::Xor => 0x32,
            Opcode::Not => 0x33,
            Opcode::Shl => 0x34,
            Opcode::Shr => 0x35,
            Opcode::Jmp => 0x40,
            Opcode::Je => 0x41,
            Opcode::Jne => 0x42,
            Opcode::PUSH => 0x50,
            Opcode::POP => 0x51,
            Opcode::RET => 0x52,
            Opcode::CALL => 0x53,
        }
    }

    /// Decodes an instruction byte; `None` for a byte that encodes no instruction.
    pub fn from_bytecode(code: u8) -> (r: Option<Opcode>)
        ensures
            r == opcode_of_code(code),
    {
        let r = match code {
            0x00 => Some(Opcode::Noop),
            0x01 => Some(Opcode::Hlt),
            0x02 => Some(Opcode::Vsync),
            0x10 => Some(Opcode::Mov),
            0x11 => Some(Opcode::Trunc),
            0x12 => Some(Opcode::Ext),
            0x13 => Some(Opcode::Copy),
            0x20 => Some(Opcode::Add),
            0x21 => Some(Opcode::Sub),
            0x22 => Some(Opcode::Mul),
            0x23 => Some(Opcode::Div),
            0x30 => Some(Opcode::And),
            0x31 => Some(Opcode::Or),
            0x32 => Some(Opcode::Xor),
            0x33 => Some(Opcode::Not),
            0x34 => Some(Opcode::Shl),
            0x35 => Some(Opcode::Shr),
            0x40 => Some(Opcode::Jmp),
            0x41 => Some(Opcode::Je),
            0x42 => Some(Opcode::Jne),
            0x50 => Some(Opcode::PUSH),
            0x51 => Some(Opcode::POP),
            0x52 => Some(Opcode::RET),
            0x53 => Some(Opcode::CALL),
            _ => None,
        };
        proof {
            match r {
                Some(op) => {
                    assert(opcode_code(op) == code);
                    lemma_opcode_code_injective(op, choose|o: Opcode| opcode_code(o) == code);
                },
                None => {
                    assert forall|op: Opcode| opcode_code(op) != code by {
                        match op {
                            _ => {},
                        }
                    }
                },
            }
        }
        r
    }
}

/// Decoding the code of an instruction gives the instruction back.
pub proof fn lemma_opcode_roundtrip(op: Opcode)
    ensures
        opcode_of_code(opcode_code(op)) == Some(op),
{
    lemma_opcode_code_injective(op, choose|o: Opcode| opcode_code(o) == opcode_code(op));
}

/// Every byte that decodes to an instruction is that instruction's code.
pub proof fn lemma_opcode_decode_encode(code: u8)
    ensures
        opcode_of_code(code) matches Some(op) ==> opcode_code(op) == code,
{
}

} // verus!
