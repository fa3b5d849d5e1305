use vstd::prelude::*;
use crate::shared::opcodes::Opcode;
use crate::shared::operand_types::OperandKind;
use crate::compiler::operand_checking::{get_signature, signature_of};
use crate::flowchart::graph::push_str;
use crate::shared::text::chars_to_string;

verus! {

/// Why a line of assembly cannot be assembled. Each carries the offending
/// text (or the instruction and the kinds of operands it was given).
pub enum CompilationError {
    UnknownRegister(String),
    IncorrectIndirectAddressBody(String),
    UnknownOpcode(String),
    InvalidOperand(String),
    ImmediateOverflow(String),
    LongImmediateOverflow(String),
    AddressOverflow(String),
    InvalidOpcodeSignature((Opcode, Vec<OperandKind>)),
}

/// A `CompilationError` with its text as characters.
pub enum ErrorView {
    UnknownRegister(Seq<char>),
    IncorrectIndirectAddressBody(Seq<char>),
    UnknownOpcode(Seq<char>),
    InvalidOperand(Seq<char>),
    ImmediateOverflow(Seq<char>),
    LongImmediateOverflow(Seq<char>),
    AddressOverflow(Seq<char>),
    InvalidOpcodeSignature(Opcode, Seq<OperandKind>),
}

impl View for CompilationError {
    type V = ErrorView;

    open spec fn view(&self) -> ErrorView {
        match self {
            CompilationError::UnknownRegister(s) => ErrorView::UnknownRegister(s@),
            CompilationError::IncorrectIndirectAddressBody(s) => ErrorView::IncorrectIndirectAddressBody(s@),
            CompilationError::UnknownOpcode(s) => ErrorView::UnknownOpcode(s@),
            CompilationError::InvalidOperand(s) => ErrorView::InvalidOperand(s@),
            CompilationError::ImmediateOverflow(s) => ErrorView::ImmediateOverflow(s@),
            CompilationError::LongImmediateOverflow(s) => ErrorView::LongImmediateOverflow(s@),
            CompilationError::AddressOverflow(s) => ErrorView::AddressOverflow(s@),
            CompilationError::InvalidOpcodeSignature((op, kinds)) => ErrorView::InvalidOpcodeSignature(*op, kinds@),
        }
    }
}

/// The name of an operand kind, as `Debug` prints it.
pub open spec fn kind_name(k: OperandKind) -> Seq<char> {
    match k {
        OperandKind::Address => "Address"@,
        OperandKind::Immediate => "Immediate"@,
        OperandKind::LongImmediate => "LongImmediate"@,
        OperandKind::LongerImmediate => "LongerImmediate"@,
        OperandKind::Register => "Register"@,
        OperandKind::LongRegister => "LongRegister"@,
        OperandKind::IndirectAddress => "IndirectAddress"@,
    }
}

/// The name of an instruction, as `Debug` prints it.
pub open spec fn opcode_name(op: Opcode) -> Seq<char> {
    match op {
        Opcode::Noop => "Noop"@,
        Opcode::Hlt => "Hlt"@,
        Opcode::Vsync => "Vsync"@,
        Opcode::Mov => "Mov"@,
        Opcode::Trunc => "Trunc"@,
        Opcode::Ext => "Ext"@,
        Opcode::Copy => "Copy"@,
        Opcode::Add => "Add"@,
        Opcode::Sub => "Sub"@,
        Opcode::Mul => "Mul"@,
        Opcode::Div => "Div"@,
        Opcode::And => "And"@,
        Opcode::Or => "Or"@,
        Opcode::Xor => "Xor"@,
        Opcode::Not => "Not"@,
        Opcode::Shr => "Shr"@,
        Opcode::Shl => "Shl"@,
        Opcode::Jmp => "Jmp"@,
        Opcode::Je => "Je"@,
        Opcode::Jne => "Jne"@,
        Opcode::PUSH => "PUSH"@,
        Opcode::POP => "POP"@,
        Opcode::RET => "RET"@,
        Opcode::CALL => "CALL"@,
    }
}

/// The names of `ks`, separated by `, `.
pub open spec fn kinds_text(ks: Seq<OperandKind>) -> Seq<char>
    decreases ks.len(),
{
    if ks.len() == 0 {
        Seq::empty()
    } else if ks.len() == 1 {
        kind_name(ks[0])
    } else {
        kinds_text(ks.drop_last()) + ", "@ + kind_name(ks.last())
    }
}

/// A list of operand kinds in square brackets: `[Register, Address]`.
pub open spec fn signature_text(ks: Seq<OperandKind>) -> Seq<char> {
    "["@ + kinds_text(ks) + "]"@
}

/// Every accepted combination on a line of its own, indented by four spaces.
pub open spec fn signatures_text(vs: Seq<Seq<OperandKind>>) -> Seq<char>
    decreases vs.len(),
{
    if vs.len() == 0 {
        Seq::empty()
    } else if vs.len() == 1 {
        "    "@ + signature_text(vs[0])
    } else {
        signatures_text(vs.drop_last()) + "\n"@ + "    "@ + signature_text(vs.last())
    }
}

/// The message that explains an error.
pub open spec fn error_text(e: ErrorView) -> Seq<char> {
    match e {
        ErrorView::UnknownRegister(s) => "unknown register '"@ + s + "'"@,
        ErrorView::IncorrectIndirectAddressBody(s) =>
            "operand inside indirect address should be Long Register. '"@ + s + "' isn't one"@,
        ErrorView::UnknownOpcode(s) => "unknown opcode '"@ + s + "'"@,
        ErrorView::InvalidOperand(s) => "invalid/unknown operand '"@ + s + "'"@,
        ErrorView::ImmediateOverflow(s) =>
            s + " >= 256. Use prefix '&' to turn it to LongImmediate, if applicable by instruction"@,
        ErrorView::LongImmediateOverflow(s) =>
            s + " >= 2 ^ 64. Use prefix '^' to turn it to LongerImmediate, if applicable by instruction"@,
        ErrorView::AddressOverflow(s) => s + " >= 2 ^ 64. It's impossible to access memory over this limit"@,
        ErrorView::InvalidOpcodeSignature(op, ks) =>
            "You can't use signature "@ + signature_text(ks) + " for instruction *"@ + opcode_name(op)
                + "*. Available signatures are:\n"@ + signatures_text(signature_of(op)),
    }
}

fn kind_name_str(k: OperandKind) -> (r: &'static str)
    ensures
        r@ == kind_name(k),
{
    match k {
        OperandKind::Address => "Address",
        OperandKind::Immediate => "Immediate",
        OperandKind::LongImmediate => "LongImmediate",
        OperandKind::LongerImmediate => "LongerImmediate",
        OperandKind::Register => "Register",
        OperandKind::LongRegister => "LongRegister",
        OperandKind::IndirectAddress => "IndirectAddress",
    }
}

fn opcode_name_str(op: Opcode) -> (r: &'static str)
    ensures
        r@ == opcode_name(op),
{
    match op {
        Opcode::Noop => "Noop",
        Opcode::Hlt => "Hlt",
        Opcode::Vsync => "Vsync",
        Opcode::Mov => "Mov",
        Opcode::Trunc => "Trunc",
        Opcode::Ext => "Ext",
        Opcode::Copy => "Copy",
        Opcode::Add => "Add",
        Opcode::Sub => "Sub",
        Opcode::Mul => "Mul",
        Opcode::Div => "Div",
        Opcode::And => "And",
        Opcode::Or => "Or",
        Opcode::Xor => "Xor",
        Opcode::Not => "Not",
        Opcode::Shr => "Shr",
        Opcode::Shl => "Shl",
        Opcode::Jmp => "Jmp",
        Opcode::Je => "Je",
        Opcode::Jne => "Jne",
        Opcode::PUSH => "PUSH",
        Opcode::POP => "POP",
        Opcode::RET => "RET",
        Opcode::CALL => "CALL",
    }
}

/// Appends a list of operand kinds in square brackets.
fn push_signature(out: &mut Vec<char>, ks: &Vec<OperandKind>)
    ensures
        final(out)@ == old(out)@ + signature_text(ks@),
{
    push_str(out, "[");
    let ghost start = out@;
    let mut i: usize = 0;
    while i < ks.len()
        invariant
            i <= ks@.len(),
            out@ == start + kinds_text(ks@.take(i as int)),
        decreases ks@.len() - i,
    {
        proof {
            assert(ks@.take(i + 1).drop_last() =~= ks@.take(i as int));
        }
        if i > 0 {
            push_str(out, ", ");
        }
        push_str(out, kind_name_str(ks[i]));
        proof {
            if i == 0 {
                assert(kinds_text(ks@.take(0)) =~= Seq::<char>::empty());
                assert(kinds_text(ks@.take(1)) == kind_name(ks@[0]));
            }
        }
        i = i + 1;
    }
    proof {
        assert(ks@.take(i as int) =~= ks@);
    }
    push_str(out, "]");
}

/// Appends every accepted combination of `op`, one per line, indented.
fn push_available_signatures(out: &mut Vec<char>, op: Opcode)
    ensures
        final(out)@ == old(out)@ + signatures_text(signature_of(op)),
{
    let sig = get_signature(op);
    let ghost vs = sig.variations();
    let ghost start = out@;
    let mut i: usize = 0;
    while i < sig.operands_variations.len()
        invariant
            vs == sig.variations(),
            vs == signature_of(op),
            i <= vs.len(),
            out@ == start + signatures_text(vs.take(i as int)),
        decreases vs.len() - i,
    {
        proof {
            assert(vs.take(i + 1).drop_last() =~= vs.take(i as int));
            assert(vs[i as int] == sig.operands_variations@[i as int]@);
        }
        if i > 0 {
            push_str(out, "\n");
        }
        push_str(out, "    ");
        push_signature(out, &sig.operands_variations[i]);
        proof {
            if i == 0 {
                assert(signatures_text(vs.take(0)) =~= Seq::<char>::empty());
            }
        }
        i = i + 1;
    }
    proof {
        assert(vs.take(i as int) =~= vs);
    }
}

impl CompilationError {
    /// The message that explains this error.
    pub fn to_string_error(&self) -> (r: String)
        ensures
            r@ == error_text(self@),
    {
        let mut out: Vec<char> = Vec::new();
        match self {
            CompilationError::UnknownRegister(s) => {
                push_str(&mut out, "unknown register '");
                push_str(&mut out, s.as_str());
                push_str(&mut out, "'");
            },
            CompilationError::IncorrectIndirectAddressBody(s) => {
                push_str(&mut out, "operand inside indirect address should be Long Register. '");
                push_str(&mut out, s.as_str());
                push_str(&mut out, "' isn't one");
            },
            CompilationError::UnknownOpcode(s) => {
                push_str(&mut out, "unknown opcode '");
                push_str(&mut out, s.as_str());
                push_str(&mut out, "'");
            },
            CompilationError::InvalidOperand(s) => {
                push_str(&mut out, "invalid/unknown operand '");
                push_str(&mut out, s.as_str());
                push_str(&mut out, "'");
            },
            CompilationError::ImmediateOverflow(s) => {
                push_str(&mut out, s.as_str());
                push_str(&mut out, " >= 256. Use prefix '&' to turn it to LongImmediate, if applicable by instruction");
            },
            CompilationError::LongImmediateOverflow(s) => {
                push_str(&mut out, s.as_str());
                push_str(&mut out, " >= 2 ^ 64. Use prefix '^' to turn it to LongerImmediate, if applicable by instruction");
            },
            CompilationError::AddressOverflow(s) => {
                push_str(&mut out, s.as_str());
                push_str(&mut out, " >= 2 ^ 64. It's impossible to access memory over this limit");
            },
            CompilationError::InvalidOpcodeSignature((op, ks)) => {
                push_str(&mut out, "You can't use signature ");
                push_signature(&mut out, ks);
                push_str(&mut out, " for instruction *");
                push_str(&mut out, opcode_name_str(*op));
                push_str(&mut out, "*. Available signatures are:\n");
                push_available_signatures(&mut out, *op);
            },
        }
        chars_to_string(out.as_slice())
    }
}

} // verus!
