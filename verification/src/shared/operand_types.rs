use vstd::prelude::*;
use crate::shared::bigendian::{
    be_value, be8, canonical_be, u64_to_be_bytes, minimal_be_bytes, lemma_canonical_be,
    lemma_minimal_be, lemma_minimal_is_canonical, lemma_be_value_of_bytes, lemma_pow256_8,
};
use crate::shared::registers::{
    Registers, LongRegisters, register_code, long_register_code, register_of_code,
    long_register_of_code, lemma_register_code_roundtrip, lemma_long_register_code_roundtrip,
};
use crate::shared::varint::{varint_encode, varint_encode_usize, lemma_varint_roundtrip, lemma_varint_encode_shape};
use crate::shared::text::extend_bytes;
use crate::runtime::memory::{Memory, MemoryView, lemma_with_pc_twice};
use crate::runtime::fault::Fault;

verus! {

/// The seven kinds of operand an instruction can take.
#[derive(PartialEq, Eq, Structural, Clone, Copy, Debug)]
pub enum OperandKind {
    Address,
    Immediate,
    LongImmediate,
    LongerImmediate,
    Register,
    LongRegister,
    IndirectAddress,
}

/// What an operand denotes: a `LongerImmediate` is a number of any size.
pub enum OperandView {
    Address(u64),
    Immediate(u8),
    LongImmediate(u64),
    LongerImmediate(nat),
    Register(Registers),
    LongRegister(LongRegisters),
    IndirectAddress(LongRegisters),
}

/// An operand of an instruction. A `LongerImmediate` holds the shortest
/// big-endian bytes of its number (`[0]` for zero).
pub enum Operand {
    Address(u64),
    Immediate(u8),
    LongImmediate(u64),
    LongerImmediate(Vec<u8>),
    Register(Registers),
    LongRegister(LongRegisters),
    IndirectAddress(LongRegisters),
}

impl View for Operand {
    type V = OperandView;

    open spec fn view(&self) -> OperandView {
        match self {
            Operand::Address(a) => OperandView::Address(*a),
            Operand::Immediate(v) => OperandView::Immediate(*v),
            Operand::LongImmediate(v) => OperandView::LongImmediate(*v),
            Operand::LongerImmediate(b) => OperandView::LongerImmediate(be_value(b@)),
            Operand::Register(r) => OperandView::Register(*r),
            Operand::LongRegister(r) => OperandView::LongRegister(*r),
            Operand::IndirectAddress(r) => OperandView::IndirectAddress(*r),
        }
    }
}

pub open spec fn kind_of(op: OperandView) -> OperandKind {
    match op {
        OperandView::Address(_) => OperandKind::Address,
        OperandView::Immediate(_) => OperandKind::Immediate,
        OperandView::LongImmediate(_) => OperandKind::LongImmediate,
        OperandView::LongerImmediate(_) => OperandKind::LongerImmediate,
        OperandView::Register(_) => OperandKind::Register,
        OperandView::LongRegister(_) => OperandKind::LongRegister,
        OperandView::IndirectAddress(_) => OperandKind::IndirectAddress,
    }
}

/// The bytecode of an operand: a one-byte prefix naming its kind, then its
/// payload. A `LongerImmediate` payload is a varint byte count followed by
/// the shortest big-endian bytes of the number.
pub open spec fn operand_bytes(op: OperandView) -> Seq<u8> {
    match op {
        OperandView::Immediate(v) => seq![0x01u8, v],
        OperandView::LongImmediate(v) => seq![0x02u8] + be8(v),
        OperandView::LongerImmediate(n) => seq![0x03u8] + varint_encode(canonical_be(n).len()) + canonical_be(n),
        OperandView::Address(a) => seq![0xADu8] + be8(a),
        OperandView::Register(r) => seq![0x10u8, register_code(r)],
        OperandView::LongRegister(r) => seq![0x11u8, long_register_code(r)],
        OperandView::IndirectAddress(r) => seq![0x12u8, long_register_code(r)],
    }
}

/// The operand whose bytecode starts at the program counter, and the
/// program counter after it. A prefix or register code that names nothing
/// is a corrupted program; bytes past the last address are out of range.
pub open spec fn decode_operand(m: MemoryView) -> Result<(OperandView, nat), Fault> {
    let pc = m.pc();
    if pc + 1 > usize::MAX {
        Err(Fault::OutOfRange)
    } else {
        let tag = m.byte_at(pc);
        let p1 = (pc + 1) as nat;
        if tag == 0x01 {
            if p1 + 1 > usize::MAX {
                Err(Fault::OutOfRange)
            } else {
                Ok((OperandView::Immediate(m.byte_at(p1)), (p1 + 1) as nat))
            }
        } else if tag == 0x02 || tag == 0xAD {
            if p1 + 8 > usize::MAX {
                Err(Fault::OutOfRange)
            } else if tag == 0x02 {
                Ok((OperandView::LongImmediate(m.read_u64_at(p1)), (p1 + 8) as nat))
            } else {
                Ok((OperandView::Address(m.read_u64_at(p1)), (p1 + 8) as nat))
            }
        } else if tag == 0x03 {
            match m.with_pc(p1).long_bytes_at_pc() {
                Err(f) => Err(f),
                Ok((bytes, after)) => Ok((OperandView::LongerImmediate(be_value(bytes)), after)),
            }
        } else if tag == 0x10 || tag == 0x11 || tag == 0x12 {
            if p1 + 1 > usize::MAX {
                Err(Fault::OutOfRange)
            } else {
                let code = m.byte_at(p1);
                if tag == 0x10 {
                    match register_of_code(code) {
                        Some(r) => Ok((OperandView::Register(r), (p1 + 1) as nat)),
                        None => Err(Fault::CorruptedOperand),
                    }
                } else {
                    match long_register_of_code(code) {
                        Some(r) => if tag == 0x11 {
                            Ok((OperandView::LongRegister(r), (p1 + 1) as nat))
                        } else {
                            Ok((OperandView::IndirectAddress(r), (p1 + 1) as nat))
                        },
                        None => Err(Fault::CorruptedOperand),
                    }
                }
            }
        } else {
            Err(Fault::CorruptedOperand)
        }
    }
}

/// The address an `Address` or `IndirectAddress` operand points at.
pub open spec fn address_of(op: OperandView, m: MemoryView) -> u64 {
    match op {
        OperandView::IndirectAddress(r) => m.lreg(r),
        OperandView::Address(a) => a,
        _ => 0,
    }
}

impl Operand {
    /// A `LongerImmediate` holds the shortest bytes of its number.
    pub open spec fn wf(&self) -> bool {
        match self {
            Operand::LongerImmediate(b) => b@ == canonical_be(be_value(b@)),
            _ => true,
        }
    }

    pub fn kind(&self) -> (k: OperandKind)
        ensures
            k == kind_of(self@),
    {
        match self {
            Operand::Address(_) => OperandKind::Address,
            Operand::Immediate(_) => OperandKind::Immediate,
            Operand::LongImmediate(_) => OperandKind::LongImmediate,
            Operand::LongerImmediate(_) => OperandKind::LongerImmediate,
            Operand::Register(_) => OperandKind::Register,
            Operand::LongRegister(_) => OperandKind::LongRegister,
            Operand::IndirectAddress(_) => OperandKind::IndirectAddress,
        }
    }

    /// The bytecode of this operand.
    pub fn to_bytes(&self) -> (r: Vec<u8>)
        requires
            self.wf(),
        ensures
            r@ == operand_bytes(self@),
    {
        match self {
            Operand::Immediate(imm) => vec![0x01u8, *imm],
            Operand::LongImmediate(imm) => {
                let mut out = vec![0x02u8];
                let bytes = u64_to_be_bytes(*imm);
                extend_bytes(&mut out, bytes.as_slice());
                out
            },
            Operand::LongerImmediate(blob) => {
                let mut out = vec![0x03u8];
                let encoded = varint_encode_usize(blob.len());
                extend_bytes(&mut out, encoded.as_slice());
                extend_bytes(&mut out, blob.as_slice());
                out
            },
            Operand::Address(addr) => {
                let mut out = vec![0xADu8];
                let bytes = u64_to_be_bytes(*addr);
                extend_bytes(&mut out, bytes.as_slice());
                out
            },
            Operand::Register(reg) => vec![0x10u8, reg.to_bytecode()],
            Operand::LongRegister(reg) => vec![0x11u8, reg.to_bytecode()],
            Operand::IndirectAddress(reg) => vec![0x12u8, reg.to_bytecode()],
        }
    }

    /// Reads the operand at the program counter and moves past it.
    pub fn from_bytes(memory: &mut Memory) -> (r: Result<Operand, Fault>)
        requires
            old(memory).wf(),
        ensures
            final(memory).wf(),
            final(memory)@.same_layout(old(memory)@),
            r is Ok <==> decode_operand(old(memory)@) is Ok,
            r is Ok ==> decode_operand(old(memory)@) == Ok::<(OperandView, nat), Fault>((r->Ok_0@, final(memory)@.pc())),
            r is Ok ==> r->Ok_0.wf(),
            r is Ok ==> final(memory)@ == old(memory)@.with_pc(final(memory)@.pc()),
            r is Err ==> decode_operand(old(memory)@) == Err::<(OperandView, nat), Fault>(r->Err_0),
    {
        let ghost m0 = memory@;
        let pc = memory.read_reg_long(LongRegisters::PC);
        if pc >= usize::MAX as u64 {
            return Err(Fault::OutOfRange);
        }
        let tag = memory.read_u8();
        let ghost m1 = memory@;
        let p1 = pc + 1;
        if tag == 0x01 {
            if p1 >= usize::MAX as u64 {
                return Err(Fault::OutOfRange);
            }
            let v = memory.read_u8();
            proof {
                lemma_with_pc_twice(m0, p1 as nat, (p1 + 1) as nat);
            }
            Ok(Operand::Immediate(v))
        } else if tag == 0x02 || tag == 0xAD {
            if p1 > (usize::MAX - 8) as u64 {
                return Err(Fault::OutOfRange);
            }
            let v = memory.read_u64();
            proof {
                lemma_with_pc_twice(m0, p1 as nat, (p1 + 8) as nat);
            }
            if tag == 0x02 {
                Ok(Operand::LongImmediate(v))
            } else {
                Ok(Operand::Address(v))
            }
        } else if tag == 0x03 {
            match memory.read_biguint() {
                Ok(bytes) => {
                    let blob = minimal_be_bytes(bytes.as_slice());
                    proof {
                        lemma_minimal_be(bytes@);
                        lemma_minimal_is_canonical(bytes@);
                        lemma_with_pc_twice(m0, p1 as nat, memory@.pc());
                    }
                    Ok(Operand::LongerImmediate(blob))
                },
                Err(f) => Err(f),
            }
        } else if tag == 0x10 || tag == 0x11 || tag == 0x12 {
            if p1 >= usize::MAX as u64 {
                return Err(Fault::OutOfRange);
            }
            let code = memory.read_u8();
            proof {
                lemma_with_pc_twice(m0, p1 as nat, (p1 + 1) as nat);
                lemma_register_code_roundtrip(Registers::A, code);
                lemma_long_register_code_roundtrip(LongRegisters::PC, code);
            }
            if tag == 0x10 {
                if code < 9 {
                    Ok(Operand::Register(Registers::from_bytecode(code)))
                } else {
                    Err(Fault::CorruptedOperand)
                }
            } else if code < 7 {
                let reg = LongRegisters::from_bytecode(code);
                if tag == 0x11 {
                    Ok(Operand::LongRegister(reg))
                } else {
                    Ok(Operand::IndirectAddress(reg))
                }
            } else {
                Err(Fault::CorruptedOperand)
            }
        } else {
            Err(Fault::CorruptedOperand)
        }
    }

    /// The address this operand points at: the number itself for an
    /// `Address`, the register's value for an `IndirectAddress`.
    pub fn unwrap_address(self, memory: &Memory) -> (r: u64)
        requires
            memory.wf(),
            self is Address || self is IndirectAddress,
        ensures
            r == address_of(self@, memory@),
    {
        match self {
            Operand::IndirectAddress(reg) => memory.read_reg_long(reg),
            Operand::Address(addr) => addr,
            _ => 0,
        }
    }
}

/// A window of a read is the read of that window.
pub proof fn lemma_read_window(m: MemoryView, addr: nat, n: nat, off: nat, len: nat)
    requires
        off + len <= n,
    ensures
        m.read(addr + off, len) == m.read(addr, n).subrange(off as int, (off + len) as int),
{
    assert(m.read(addr + off, len) =~= m.read(addr, n).subrange(off as int, (off + len) as int));
}

/// Scanning a varint whose bytes before the last carry the continuation
/// bit, and whose last byte does not, finds its length.
pub proof fn lemma_varint_scan(m: MemoryView, addr: nat, i: nat, k: nat)
    requires
        i < k <= 10,
        addr + k <= usize::MAX,
        forall|j: int| i <= j < k - 1 ==> #[trigger] m.read(addr, k)[j] >= 128,
        m.read(addr, k)[k - 1] < 128,
    ensures
        m.varint_scan(addr, i) == Ok::<nat, Fault>(k),
    decreases k - i,
{
    assert(m.read(addr, k)[i as int] == m.byte_at(addr + i));
    if i + 1 < k {
        lemma_varint_scan(m, addr, i + 1, k);
    }
}

/// Decoding the bytecode of an operand gives the operand back and moves
/// the program counter just past its bytes.
pub proof fn lemma_decode_operand_bytes(m: MemoryView, op: OperandView)
    requires
        m.wf(),
        m.read(m.pc(), operand_bytes(op).len()) == operand_bytes(op),
        m.pc() + operand_bytes(op).len() <= usize::MAX,
    ensures
        decode_operand(m) == Ok::<(OperandView, nat), Fault>((op, m.pc() + operand_bytes(op).len())),
{
    let b = operand_bytes(op);
    let pc = m.pc();
    let n = b.len();
    let p1 = (pc + 1) as nat;
    assert(m.read(pc, n)[0] == m.byte_at(pc));
    lemma_pow256_8();
    match op {
        OperandView::Immediate(v) => {
            assert(m.read(pc, n)[1] == m.byte_at(p1));
        },
        OperandView::LongImmediate(v) => {
            lemma_be_value_of_bytes(v as nat, 8);
            lemma_read_window(m, pc, n, 1, 8);
            assert(b.subrange(1, 9) =~= be8(v));
        },
        OperandView::Address(v) => {
            lemma_be_value_of_bytes(v as nat, 8);
            lemma_read_window(m, pc, n, 1, 8);
            assert(b.subrange(1, 9) =~= be8(v));
        },
        OperandView::LongerImmediate(v) => {
            let c = canonical_be(v);
            let len = c.len();
            let e = varint_encode(len);
            let k = e.len();
            lemma_canonical_be(v);
            lemma_varint_encode_shape(len);
            lemma_varint_roundtrip(len as u64, Seq::<u8>::empty());
            assert(e + Seq::<u8>::empty() =~= e);
            let m1 = m.with_pc(p1);
            assert(m1.pc() == p1);
            lemma_read_window(m, pc, n, 1, k);
            assert(b.subrange(1, 1 + k as int) =~= e);
            assert(m1.read(p1, k) == e);
            lemma_varint_scan(m1, p1, 0, k);
            lemma_read_window(m, pc, n, 1 + k, len);
            assert(b.subrange(1 + k as int, (1 + k + len) as int) =~= c);
            assert(m1.read((p1 + k) as nat, len) == c);
        },
        OperandView::Register(r) => {
            assert(m.read(pc, n)[1] == m.byte_at(p1));
            lemma_register_code_roundtrip(r, register_code(r));
        },
        OperandView::LongRegister(r) => {
            assert(m.read(pc, n)[1] == m.byte_at(p1));
            lemma_long_register_code_roundtrip(r, long_register_code(r));
        },
        OperandView::IndirectAddress(r) => {
            assert(m.read(pc, n)[1] == m.byte_at(p1));
            lemma_long_register_code_roundtrip(r, long_register_code(r));
        },
    }
}

/// How an operand is encoded: its kind's prefix byte (`0x01` immediate,
/// `0x02` 64-bit immediate, `0x03` longer immediate, `0xAD` address,
/// `0x10` register, `0x11` 64-bit register, `0x12` indirect address), then
/// its value: the byte itself, eight big-endian bytes, a register's code,
/// or a byte count and as many big-endian bytes.
pub proof fn lemma_operand_encoding(op: OperandView)
    ensures
        ({
            let b = operand_bytes(op);
            &&& b.len() >= 2
            &&& match op {
                OperandView::Immediate(v) => b[0] == 0x01 && b.len() == 2 && b[1] == v,
                OperandView::LongImmediate(v) => b[0] == 0x02 && b.len() == 9 && be_value(b.subrange(1, 9)) == v,
                OperandView::LongerImmediate(n) => b[0] == 0x03
                    && be_value(b.subrange(b.len() - canonical_be(n).len(), b.len() as int)) == n,
                OperandView::Address(a) => b[0] == 0xAD && b.len() == 9 && be_value(b.subrange(1, 9)) == a,
                OperandView::Register(r) => b[0] == 0x10 && b.len() == 2 && b[1] == register_code(r),
                OperandView::LongRegister(r) => b[0] == 0x11 && b.len() == 2 && b[1] == long_register_code(r),
                OperandView::IndirectAddress(r) => b[0] == 0x12 && b.len() == 2 && b[1] == long_register_code(r),
            }
        }),
{
    let b = operand_bytes(op);
    match op {
        OperandView::LongImmediate(v) => {
            lemma_be_value_of_bytes(v as nat, 8);
            lemma_pow256_8();
            assert(b.subrange(1, 9) =~= be8(v));
        },
        OperandView::Address(v) => {
            lemma_be_value_of_bytes(v as nat, 8);
            lemma_pow256_8();
            assert(b.subrange(1, 9) =~= be8(v));
        },
        OperandView::LongerImmediate(n) => {
            lemma_canonical_be(n);
            lemma_varint_encode_shape(canonical_be(n).len());
            assert(b.subrange(b.len() - canonical_be(n).len(), b.len() as int) =~= canonical_be(n));
        },
        _ => {},
    }
}

} // verus!
