use vstd::prelude::*;

verus! {

/// The 8-bit registers of the console: the program-space registers
/// `A`, `X`, `Y`, `Z` and the user-space registers `G1` to `G5`.
#[derive(PartialEq, Eq, Structural, Copy, Clone, Debug, Hash)]
pub enum Registers {
    A,
    X,
    Y,
    Z,
    G1,
    G2,
    G3,
    G4,
    G5,
}

/// The bytecode of an 8-bit register: its index in the register file.
pub open spec fn register_code(reg: Registers) -> u8 {
    match reg {
        Registers::A => 0x0,
        Registers::X => 0x1,
        Registers::Y => 0x2,
        Registers::Z => 0x3,
        Registers::G1 => 0x4,
        Registers::G2 => 0x5,
        Registers::G3 => 0x6,
        Registers::G4 => 0x7,
        Registers::G5 => 0x8,
    }
}

/// The names of the 8-bit registers, in the order of their bytecodes.
pub open spec fn register_names() -> Seq<Seq<char>> {
    seq![
        seq!['A'],
        seq!['X'],
        seq!['Y'],
        seq!['Z'],
        seq!['G', '1'],
        seq!['G', '2'],
        seq!['G', '3'],
        seq!['G', '4'],
        seq!['G', '5'],
    ]
}

/// The register whose bytecode is `code`, if there is one.
pub open spec fn register_of_code(code: u8) -> Option<Registers> {
    if code == 0x0 {
        Some(Registers::A)
    } else if code == 0x1 {
        Some(Registers::X)
    } else if code == 0x2 {
        Some(Registers::Y)
    } else if code == 0x3 {
        Some(Registers::Z)
    } else if code == 0x4 {
        Some(Registers::G1)
    } else if code == 0x5 {
        Some(Registers::G2)
    } else if code == 0x6 {
        Some(Registers::G3)
    } else if code == 0x7 {
        Some(Registers::G4)
    } else if code == 0x8 {
        Some(Registers::G5)
    } else {
        None
    }
}

/// Number of 8-bit registers.
pub const REGISTER_COUNT: usize = 9;

impl Registers {
    pub fn to_bytecode(&self) -> (r: u8)
        ensures
            r == register_code(*self),
            r < REGISTER_COUNT,
    {
        match self {
            Registers::A => 0x0,
            Registers::X => 0x1,
            Registers::Y => 0x2,
            Registers::Z => 0x3,
            Registers::G1 => 0x4,
            Registers::G2 => 0x5,
            Registers::G3 => 0x6,
            Registers::G4 => 0x7,
            Registers::G5 => 0x8,
        }
    }

    /// Decodes a register; a code outside `0..=8` is a corrupted program.
    pub fn from_bytecode(code: u8) -> (r: Registers)
        requires
            code < REGISTER_COUNT,
        ensures
            register_of_code(code) == Some(r),
    {
        match code {
            0x0 => Registers::A,
            0x1 => Registers::X,
            0x2 => Registers::Y,
            0x3 => Registers::Z,
            0x4 => Registers::G1,
            0x5 => Registers::G2,
            0x6 => Registers::G3,
            0x7 => Registers::G4,
            _ => Registers::G5,
        }
    }

    pub fn all() -> (v: Vec<Registers>)
        ensures
            v@ == seq![
                Registers::A,
                Registers::X,
                Registers::Y,
                Registers::Z,
                Registers::G1,
                Registers::G2,
                Registers::G3,
                Registers::G4,
                Registers::G5,
            ],
    {
        vec![
            Registers::A,
            Registers::X,
            Registers::Y,
            Registers::Z,
            Registers::G1,
            Registers::G2,
            Registers::G3,
            Registers::G4,
            Registers::G5,
        ]
    }
}

/// The 64-bit registers: the program counter `PC`, the program-space
/// registers `LL1`, `LL2`, the user-space registers `GP1` to `GP3` and the
/// stack pointer `SP`.
#[derive(PartialEq, Eq, Structural, Copy, Clone, Debug, Hash)]
pub enum LongRegisters {
    PC,
    LL1,
    LL2,
    GP1,
    GP2,
    GP3,
    SP,
}

pub open spec fn long_register_code(reg: LongRegisters) -> u8 {
    match reg {
        LongRegisters::PC => 0x0,
        LongRegisters::LL1 => 0x1,
        LongRegisters::LL2 => 0x2,
        LongRegisters::GP1 => 0x3,
        LongRegisters::GP2 => 0x4,
        LongRegisters::GP3 => 0x5,
        LongRegisters::SP => 0x6,
    }
}

/// The names of the 64-bit registers, in the order of their bytecodes.
pub open spec fn long_register_names() -> Seq<Seq<char>> {
    seq![
        seq!['P', 'C'],
        seq!['L', 'L', '1'],
        seq!['L', 'L', '2'],
        seq!['G', 'P', '1'],
        seq!['G', 'P', '2'],
        seq!['G', 'P', '3'],
        seq!['S', 'P'],
    ]
}

pub open spec fn long_register_of_code(code: u8) -> Option<LongRegisters> {
    if code == 0x0 {
        Some(LongRegisters::PC)
    } else if code == 0x1 {
        Some(LongRegisters::LL1)
    } else if code == 0x2 {
        Some(LongRegisters::LL2)
    } else if code == 0x3 {
        Some(LongRegisters::GP1)
    } else if code == 0x4 {
        Some(LongRegisters::GP2)
    } else if code == 0x5 {
        Some(LongRegisters::GP3)
    } else if code == 0x6 {
        Some(LongRegisters::SP)
    } else {
        None
    }
}

/// Number of 64-bit registers.
pub const LONG_REGISTER_COUNT: usize = 7;

impl LongRegisters {
    pub fn to_bytecode(&self) -> (r: u8)
        ensures
            r == long_register_code(*self),
            r < LONG_REGISTER_COUNT,
    {
        match self {
            LongRegisters::PC => 0x0,
            LongRegisters::LL1 => 0x1,
            LongRegisters::LL2 => 0x2,
            LongRegisters::GP1 => 0x3,
            LongRegisters::GP2 => 0x4,
            LongRegisters::GP3 => 0x5,
            LongRegisters::SP => 0x6,
        }
    }

    /// Decodes a long register; a code outside `0..=6` is a corrupted program.
    pub fn from_bytecode(code: u8) -> (r: LongRegisters)
        requires
            code < LONG_REGISTER_COUNT,
        ensures
            long_register_of_code(code) == Some(r),
    {
        match code {
            0x0 => LongRegisters::PC,
            0x1 => LongRegisters::LL1,
            0x2 => LongRegisters::LL2,
            0x3 => LongRegisters::GP1,
            0x4 => LongRegisters::GP2,
            0x5 => LongRegisters::GP3,
            _ => LongRegisters::SP,
        }
    }

    pub fn all() -> (v: Vec<LongRegisters>)
        ensures
            v@ == seq![
                LongRegisters::PC,
                LongRegisters::LL1,
                LongRegisters::LL2,
                LongRegisters::GP1,
                LongRegisters::GP2,
                LongRegisters::GP3,
                LongRegisters::SP,
            ],
    {
        vec![
            LongRegisters::PC,
            LongRegisters::LL1,
            LongRegisters::LL2,
            LongRegisters::GP1,
            LongRegisters::GP2,
            LongRegisters::GP3,
            LongRegisters::SP,
        ]
    }
}

/// Encoding a register and decoding the code gives the register back, and
/// every valid code is the code of the register it decodes to.
pub proof fn lemma_register_code_roundtrip(reg: Registers, code: u8)
    ensures
        register_of_code(register_code(reg)) == Some(reg),
        register_code(reg) < REGISTER_COUNT,
        code < REGISTER_COUNT <==> register_of_code(code) is Some,
        register_of_code(code) matches Some(r) ==> register_code(r) == code,
{
}

/// Encoding a long register and decoding the code gives the register back,
/// and every valid code is the code of the register it decodes to.
pub proof fn lemma_long_register_code_roundtrip(reg: LongRegisters, code: u8)
    ensures
        long_register_of_code(long_register_code(reg)) == Some(reg),
        long_register_code(reg) < LONG_REGISTER_COUNT,
        code < LONG_REGISTER_COUNT <==> long_register_of_code(code) is Some,
        long_register_of_code(code) matches Some(r) ==> long_register_code(r) == code,
{
}

} // verus!
