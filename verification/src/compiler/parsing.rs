use vstd::prelude::*;
use crate::shared::opcodes::{Opcode, opcode_code, mnemonics};
use crate::shared::registers::{Registers, LongRegisters, register_names, long_register_names, register_code, long_register_code, register_of_code, long_register_of_code};
use crate::shared::operand_types::{Operand, OperandKind, OperandView, kind_of, operand_bytes};
use crate::shared::bigendian::{canonical_be, be_value, be_to_u64_checked, lemma_canonical_be, lemma_pow256_8};
use crate::shared::manifest::Manifest;
use crate::shared::text::{chars_to_string, extend_bytes};
use crate::runtime::memory::VRAM_SIZE;
use crate::compiler::errors::{CompilationError, ErrorView};
use crate::compiler::numbers::{parse_num, parse_num_spec, parse_address_spec, parse_address_num, chars_skip, char_digit, radix_split, strip_plus};
use crate::shared::format::{dec, hex_digits, lemma_dec_reads_back, lemma_hex_reads_back};
use crate::compiler::labels::{Labels, chars_equal};
use crate::compiler::operand_checking::{get_signature, signature_of};

verus! {

/// The 8-bit register a name (after `!`) stands for.
pub open spec fn register_named(s: Seq<char>) -> Option<Registers> {
    if s == seq!['A'] {
        Some(Registers::A)
    } else if s == seq!['X'] {
        Some(Registers::X)
    } else if s == seq!['Y'] {
        Some(Registers::Y)
    } else if s == seq!['Z'] {
        Some(Registers::Z)
    } else if s == seq!['G', '1'] {
        Some(Registers::G1)
    } else if s == seq!['G', '2'] {
        Some(Registers::G2)
    } else if s == seq!['G', '3'] {
        Some(Registers::G3)
    } else if s == seq!['G', '4'] {
        Some(Registers::G4)
    } else if s == seq!['G', '5'] {
        Some(Registers::G5)
    } else {
        None
    }
}

/// The 64-bit register a name (after `?`) stands for.
pub open spec fn long_register_named(s: Seq<char>) -> Option<LongRegisters> {
    if s == seq!['P', 'C'] {
        Some(LongRegisters::PC)
    } else if s == seq!['L', 'L', '1'] {
        Some(LongRegisters::LL1)
    } else if s == seq!['L', 'L', '2'] {
        Some(LongRegisters::LL2)
    } else if s == seq!['G', 'P', '1'] {
        Some(LongRegisters::GP1)
    } else if s == seq!['G', 'P', '2'] {
        Some(LongRegisters::GP2)
    } else if s == seq!['G', 'P', '3'] {
        Some(LongRegisters::GP3)
    } else if s == seq!['S', 'P'] {
        Some(LongRegisters::SP)
    } else {
        None
    }
}

fn is_named(s: &[char], name: &[char]) -> (r: bool)
    ensures
        r == (s@ == name@),
{
    chars_equal(s, name)
}

fn register_by_name(s: &[char]) -> (r: Option<Registers>)
    ensures
        r == register_named(s@),
{
    proof {
        assert(['A']@ =~= seq!['A']);
        assert(['X']@ =~= seq!['X']);
        assert(['Y']@ =~= seq!['Y']);
        assert(['Z']@ =~= seq!['Z']);
        assert(['G', '1']@ =~= seq!['G', '1']);
        assert(['G', '2']@ =~= seq!['G', '2']);
        assert(['G', '3']@ =~= seq!['G', '3']);
        assert(['G', '4']@ =~= seq!['G', '4']);
        assert(['G', '5']@ =~= seq!['G', '5']);
    }
    if is_named(s, &['A']) {
        Some(Registers::A)
    } else if is_named(s, &['X']) {
        Some(Registers::X)
    } else if is_named(s, &['Y']) {
        Some(Registers::Y)
    } else if is_named(s, &['Z']) {
        Some(Registers::Z)
    } else if is_named(s, &['G', '1']) {
        Some(Registers::G1)
    } else if is_named(s, &['G', '2']) {
        Some(Registers::G2)
    } else if is_named(s, &['G', '3']) {
        Some(Registers::G3)
    } else if is_named(s, &['G', '4']) {
        Some(Registers::G4)
    } else if is_named(s, &['G', '5']) {
        Some(Registers::G5)
    } else {
        None
    }
}

fn long_register_by_name(s: &[char]) -> (r: Option<LongRegisters>)
    ensures
        r == long_register_named(s@),
{
    proof {
        assert(['P', 'C']@ =~= seq!['P', 'C']);
        assert(['L', 'L', '1']@ =~= seq!['L', 'L', '1']);
        assert(['L', 'L', '2']@ =~= seq!['L', 'L', '2']);
        assert(['G', 'P', '1']@ =~= seq!['G', 'P', '1']);
        assert(['G', 'P', '2']@ =~= seq!['G', 'P', '2']);
        assert(['G', 'P', '3']@ =~= seq!['G', 'P', '3']);
        assert(['S', 'P']@ =~= seq!['S', 'P']);
    }
    if is_named(s, &['P', 'C']) {
        Some(LongRegisters::PC)
    } else if is_named(s, &['L', 'L', '1']) {
        Some(LongRegisters::LL1)
    } else if is_named(s, &['L', 'L', '2']) {
        Some(LongRegisters::LL2)
    } else if is_named(s, &['G', 'P', '1']) {
        Some(LongRegisters::GP1)
    } else if is_named(s, &['G', 'P', '2']) {
        Some(LongRegisters::GP2)
    } else if is_named(s, &['G', 'P', '3']) {
        Some(LongRegisters::GP3)
    } else if is_named(s, &['S', 'P']) {
        Some(LongRegisters::SP)
    } else {
        None
    }
}

/// The instruction a mnemonic names; `jnz` and `jz` are other names for
/// `je` and `jne`.
pub open spec fn opcode_named(s: Seq<char>) -> Option<Opcode> {
    if s == seq!['n', 'o', 'o', 'p'] {
        Some(Opcode::Noop)
    } else if s == seq!['h', 'l', 't'] {
        Some(Opcode::Hlt)
    } else if s == seq!['v', 's', 'y', 'n', 'c'] {
        Some(Opcode::Vsync)
    } else if s == seq!['m', 'o', 'v'] {
        Some(Opcode::Mov)
    } else if s == seq!['t', 'r', 'u', 'n', 'c'] {
        Some(Opcode::Trunc)
    } else if s == seq!['e', 'x', 't'] {
        Some(Opcode::Ext)
    } else if s == seq!['c', 'o', 'p', 'y'] {
        Some(Opcode::Copy)
    } else if s == seq!['a', 'd', 'd'] {
        Some(Opcode::Add)
    } else if s == seq!['s', 'u', 'b'] {
        Some(Opcode::Sub)
    } else if s == seq!['m', 'u', 'l'] {
        Some(Opcode::Mul)
    } else if s == seq!['d', 'i', 'v'] {
        Some(Opcode::Div)
    } else if s == seq!['a', 'n', 'd'] {
        Some(Opcode::And)
    } else if s == seq!['o', 'r'] {
        Some(Opcode::Or)
    } else if s == seq!['x', 'o', 'r'] {
        Some(Opcode::Xor)
    } else if s == seq!['n', 'o', 't'] {
        Some(Opcode::Not)
    } else if s == seq!['s', 'h', 'l'] {
        Some(Opcode::Shl)
    } else if s == seq!['s', 'h', 'r'] {
        Some(Opcode::Shr)
    } else if s == seq!['j', 'm', 'p'] {
        Some(Opcode::Jmp)
    } else if s == seq!['j', 'e'] {
        Some(Opcode::Je)
    } else if s == seq!['j', 'n', 'e'] {
        Some(Opcode::Jne)
    } else if s == seq!['j', 'n', 'z'] {
        Some(Opcode::Je)
    } else if s == seq!['j', 'z'] {
        Some(Opcode::Jne)
    } else if s == seq!['p', 'u', 's', 'h'] {
        Some(Opcode::PUSH)
    } else if s == seq!['p', 'o', 'p'] {
        Some(Opcode::POP)
    } else if s == seq!['r', 'e', 't'] {
        Some(Opcode::RET)
    } else if s == seq!['c', 'a', 'l', 'l'] {
        Some(Opcode::CALL)
    } else {
        None
    }
}

/// The instruction a mnemonic names.
pub(crate) fn opcode_from_chars(token: &[char]) -> (r: Result<Opcode, CompilationError>)
    ensures
        (match opcode_named(token@) {
            Some(op) => r == Ok::<Opcode, CompilationError>(op),
            None => r is Err && r->Err_0@ == ErrorView::UnknownOpcode(token@),
        }),
{
    proof {
        assert(['n', 'o', 'o', 'p']@ =~= seq!['n', 'o', 'o', 'p']);
        assert(['h', 'l', 't']@ =~= seq!['h', 'l', 't']);
        assert(['v', 's', 'y', 'n', 'c']@ =~= seq!['v', 's', 'y', 'n', 'c']);
        assert(['m', 'o', 'v']@ =~= seq!['m', 'o', 'v']);
        assert(['t', 'r', 'u', 'n', 'c']@ =~= seq!['t', 'r', 'u', 'n', 'c']);
        assert(['e', 'x', 't']@ =~= seq!['e', 'x', 't']);
        assert(['c', 'o', 'p', 'y']@ =~= seq!['c', 'o', 'p', 'y']);
        assert(['a', 'd', 'd']@ =~= seq!['a', 'd', 'd']);
        assert(['s', 'u', 'b']@ =~= seq!['s', 'u', 'b']);
        assert(['m', 'u', 'l']@ =~= seq!['m', 'u', 'l']);
        assert(['d', 'i', 'v']@ =~= seq!['d', 'i', 'v']);
        assert(['a', 'n', 'd']@ =~= seq!['a', 'n', 'd']);
        assert(['o', 'r']@ =~= seq!['o', 'r']);
        assert(['x', 'o', 'r']@ =~= seq!['x', 'o', 'r']);
        assert(['n', 'o', 't']@ =~= seq!['n', 'o', 't']);
        assert(['s', 'h', 'l']@ =~= seq!['s', 'h', 'l']);
        assert(['s', 'h', 'r']@ =~= seq!['s', 'h', 'r']);
        assert(['j', 'm', 'p']@ =~= seq!['j', 'm', 'p']);
        assert(['j', 'e']@ =~= seq!['j', 'e']);
        assert(['j', 'n', 'e']@ =~= seq!['j', 'n', 'e']);
        assert(['j', 'n', 'z']@ =~= seq!['j', 'n', 'z']);
        assert(['j', 'z']@ =~= seq!['j', 'z']);
        assert(['p', 'u', 's', 'h']@ =~= seq!['p', 'u', 's', 'h']);
        assert(['p', 'o', 'p']@ =~= seq!['p', 'o', 'p']);
        assert(['r', 'e', 't']@ =~= seq!['r', 'e', 't']);
        assert(['c', 'a', 'l', 'l']@ =~= seq!['c', 'a', 'l', 'l']);
    }
    if is_named(token, &['n', 'o', 'o', 'p']) {
        Ok(Opcode::Noop)
    } else if is_named(token, &['h', 'l', 't']) {
        Ok(Opcode::Hlt)
    } else if is_named(token, &['v', 's', 'y', 'n', 'c']) {
        Ok(Opcode::Vsync)
    } else if is_named(token, &['m', 'o', 'v']) {
        Ok(Opcode::Mov)
    } else if is_named(token, &['t', 'r', 'u', 'n', 'c']) {
        Ok(Opcode::Trunc)
    } else if is_named(token, &['e', 'x', 't']) {
        Ok(Opcode::Ext)
    } else if is_named(token, &['c', 'o', 'p', 'y']) {
        Ok(Opcode::Copy)
    } else if is_named(token, &['a', 'd', 'd']) {
        Ok(Opcode::Add)
    } else if is_named(token, &['s', 'u', 'b']) {
        Ok(Opcode::Sub)
    } else if is_named(token, &['m', 'u', 'l']) {
        Ok(Opcode::Mul)
    } else if is_named(token, &['d', 'i', 'v']) {
        Ok(Opcode::Div)
    } else if is_named(token, &['a', 'n', 'd']) {
        Ok(Opcode::And)
    } else if is_named(token, &['o', 'r']) {
        Ok(Opcode::Or)
    } else if is_named(token, &['x', 'o', 'r']) {
        Ok(Opcode::Xor)
    } else if is_named(token, &['n', 'o', 't']) {
        Ok(Opcode::Not)
    } else if is_named(token, &['s', 'h', 'l']) {
        Ok(Opcode::Shl)
    } else if is_named(token, &['s', 'h', 'r']) {
        Ok(Opcode::Shr)
    } else if is_named(token, &['j', 'm', 'p']) {
        Ok(Opcode::Jmp)
    } else if is_named(token, &['j', 'e']) {
        Ok(Opcode::Je)
    } else if is_named(token, &['j', 'n', 'e']) {
        Ok(Opcode::Jne)
    } else if is_named(token, &['j', 'n', 'z']) {
        Ok(Opcode::Je)
    } else if is_named(token, &['j', 'z']) {
        Ok(Opcode::Jne)
    } else if is_named(token, &['p', 'u', 's', 'h']) {
        Ok(Opcode::PUSH)
    } else if is_named(token, &['p', 'o', 'p']) {
        Ok(Opcode::POP)
    } else if is_named(token, &['r', 'e', 't']) {
        Ok(Opcode::RET)
    } else if is_named(token, &['c', 'a', 'l', 'l']) {
        Ok(Opcode::CALL)
    } else {
        Err(CompilationError::UnknownOpcode(chars_to_string(token)))
    }
}

/// The instruction a mnemonic names.
pub fn parse_opcode(token: &str) -> (r: Result<Opcode, CompilationError>)
    ensures
        (match opcode_named(token@) {
            Some(op) => r == Ok::<Opcode, CompilationError>(op),
            None => r is Err && r->Err_0@ == ErrorView::UnknownOpcode(token@),
        }),
{
    let chars = crate::shared::text::str_chars(token);
    opcode_from_chars(chars.as_slice())
}

/// An immediate: `&` marks a 64-bit one, `^` one of any size, and a bare
/// number must fit in a byte.
pub open spec fn parse_numerical_spec(t: Seq<char>) -> Result<OperandView, ErrorView> {
    if t.len() == 0 {
        Err(ErrorView::InvalidOperand(t))
    } else {
        let body = if t[0] == '&' || t[0] == '^' { t.drop_first() } else { t };
        match parse_num_spec(body) {
            None => Err(ErrorView::InvalidOperand(body)),
            Some(n) => if t[0] == '&' {
                if n < 0x1_0000_0000_0000_0000 {
                    Ok(OperandView::LongImmediate(n as u64))
                } else {
                    Err(ErrorView::LongImmediateOverflow(body))
                }
            } else if t[0] == '^' {
                Ok(OperandView::LongerImmediate(n))
            } else {
                if n < 256 {
                    Ok(OperandView::Immediate(n as u8))
                } else {
                    Err(ErrorView::ImmediateOverflow(body))
                }
            },
        }
    }
}

/// The result of parsing agrees with what the grammar says: the same
/// operand (well formed) or the same error.
pub open spec fn parsed_as(r: Result<Operand, CompilationError>, expected: Result<OperandView, ErrorView>) -> bool {
    match expected {
        Ok(v) => r is Ok && r->Ok_0@ == v && r->Ok_0.wf(),
        Err(e) => r is Err && r->Err_0@ == e,
    }
}

fn parse_numerical_operand(input: &[char]) -> (r: Result<Operand, CompilationError>)
    ensures
        parsed_as(r, parse_numerical_spec(input@)),
{
    if input.len() == 0 {
        return Err(CompilationError::InvalidOperand(chars_to_string(input)));
    }
    let first = input[0];
    let body = if first == '&' || first == '^' {
        chars_skip(input, 1)
    } else {
        chars_skip(input, 0)
    };
    proof {
        assert(input@.skip(0) =~= input@);
        assert(input@.skip(1) =~= input@.drop_first());
    }
    let bytes = match parse_num(body.as_slice()) {
        Ok(b) => b,
        Err(e) => return Err(e),
    };
    let ghost n = parse_num_spec(body@)->0;
    proof {
        lemma_canonical_be(n);
        lemma_pow256_8();
    }
    if first == '^' {
        return Ok(Operand::LongerImmediate(bytes));
    }
    let v = be_to_u64_checked(bytes.as_slice());
    if first == '&' {
        match v {
            Some(v) => Ok(Operand::LongImmediate(v)),
            None => Err(CompilationError::LongImmediateOverflow(chars_to_string(body.as_slice()))),
        }
    } else {
        match v {
            Some(v) => if v < 256 {
                Ok(Operand::Immediate(v as u8))
            } else {
                Err(CompilationError::ImmediateOverflow(chars_to_string(body.as_slice())))
            },
            None => Err(CompilationError::ImmediateOverflow(chars_to_string(body.as_slice()))),
        }
    }
}

/// Where ROM starts for a program built with `manifest`: labels are
/// offsets into the program, and the program sits at the start of ROM.
pub open spec fn rom_start_of(manifest: Manifest) -> nat {
    (VRAM_SIZE + manifest.settings.ram_size + manifest.settings.stack_size) as nat
}

/// What an operand token denotes: `$` an address or a label (any address
/// in the first pass, before labels are known), `!` an 8-bit register,
/// `?` a 64-bit register, `[...]` an indirect address through a 64-bit
/// register, and anything else an immediate.
pub open spec fn parse_operand_spec(t: Seq<char>, labels: Map<Seq<char>, u64>, is_first_pass: bool, rom_start: nat) -> Result<OperandView, ErrorView>
    decreases t.len(),
{
    if t.len() > 0 && t[0] == '$' {
        let body = t.drop_first();
        match parse_address_spec(body) {
            Ok(a) => Ok(OperandView::Address(a)),
            Err(e) => if is_first_pass {
                Ok(OperandView::Address(0))
            } else if labels.contains_key(body) {
                Ok(OperandView::Address((labels[body] + rom_start) as u64))
            } else {
                Err(e)
            },
        }
    } else if t.len() > 0 && t[0] == '!' {
        match register_named(t.drop_first()) {
            Some(r) => Ok(OperandView::Register(r)),
            None => Err(ErrorView::UnknownRegister(t)),
        }
    } else if t.len() > 0 && t[0] == '?' {
        match long_register_named(t.drop_first()) {
            Some(r) => Ok(OperandView::LongRegister(r)),
            None => Err(ErrorView::UnknownRegister(t)),
        }
    } else if t.len() > 0 && t[0] == '[' && t.last() == ']' {
        if t.len() < 2 {
            // a single character cannot be both brackets
            Err(ErrorView::IncorrectIndirectAddressBody(t))
        } else {
            match parse_operand_spec(t.subrange(1, t.len() - 1), labels, is_first_pass, rom_start) {
                Ok(OperandView::LongRegister(r)) => Ok(OperandView::IndirectAddress(r)),
                Ok(_) => Err(ErrorView::IncorrectIndirectAddressBody(t)),
                Err(e) => Err(e),
            }
        }
    } else {
        parse_numerical_spec(t)
    }
}

/// Label addresses fit in 64 bits.
pub open spec fn labels_fit(labels: Map<Seq<char>, u64>, rom_start: nat) -> bool {
    &&& rom_start <= u64::MAX
    &&& forall|k: Seq<char>| labels.contains_key(k) ==> labels[k] + rom_start <= u64::MAX
}

/// The characters between the first and the last.
fn token_inner(token: &[char]) -> (r: Vec<char>)
    requires
        token@.len() >= 2,
    ensures
        r@ == token@.subrange(1, token@.len() - 1),
{
    let mut r: Vec<char> = Vec::new();
    let mut i: usize = 1;
    while i < token.len() - 1
        invariant
            token@.len() >= 2,
            1 <= i <= token@.len() - 1,
            r@ =~= token@.subrange(1, i as int),
        decreases token@.len() - 1 - i,
    {
        r.push(token[i]);
        i = i + 1;
    }
    r
}

fn parse_operand(token: &[char], labels: &Labels, is_first_pass: bool, manifest: &Manifest) -> (r: Result<Operand, CompilationError>)
    requires
        labels_fit(labels@, rom_start_of(*manifest)),
    ensures
        parsed_as(r, parse_operand_spec(token@, labels@, is_first_pass, rom_start_of(*manifest))),
    decreases token@.len(),
{
    let n = token.len();
    if n > 0 && token[0] == '$' {
        let body = chars_skip(token, 1);
        proof {
            assert(token@.skip(1) =~= token@.drop_first());
        }
        let text = chars_to_string(body.as_slice());
        return match parse_address_num(text) {
            Ok(addr) => Ok(Operand::Address(addr)),
            Err(err) => {
                if is_first_pass {
                    Ok(Operand::Address(0))
                } else {
                    match labels.get(body.as_slice()) {
                        Some(offset) => {
                            let rom_start = VRAM_SIZE as u64 + manifest.settings.ram_size + manifest.settings.stack_size;
                            Ok(Operand::Address(offset + rom_start))
                        },
                        None => Err(err),
                    }
                }
            },
        };
    }
    if n > 0 && token[0] == '!' {
        let name = chars_skip(token, 1);
        proof {
            assert(token@.skip(1) =~= token@.drop_first());
        }
        return match register_by_name(name.as_slice()) {
            Some(reg) => Ok(Operand::Register(reg)),
            None => Err(CompilationError::UnknownRegister(chars_to_string(token))),
        };
    }
    if n > 0 && token[0] == '?' {
        let name = chars_skip(token, 1);
        proof {
            assert(token@.skip(1) =~= token@.drop_first());
        }
        return match long_register_by_name(name.as_slice()) {
            Some(reg) => Ok(Operand::LongRegister(reg)),
            None => Err(CompilationError::UnknownRegister(chars_to_string(token))),
        };
    }
    if n > 0 && token[0] == '[' && token[n - 1] == ']' {
        let inner = token_inner(token);
        return match parse_operand(inner.as_slice(), labels, is_first_pass, manifest) {
            Ok(Operand::LongRegister(reg)) => Ok(Operand::IndirectAddress(reg)),
            Ok(_) => Err(CompilationError::IncorrectIndirectAddressBody(chars_to_string(token))),
            Err(e) => Err(e),
        };
    }
    parse_numerical_operand(token)
}

/// The operands of a line, each token in turn; the first error stops it.
pub open spec fn parse_operands_spec(args: Seq<Seq<char>>, labels: Map<Seq<char>, u64>, is_first_pass: bool, rom_start: nat) -> Result<Seq<OperandView>, ErrorView>
    decreases args.len(),
{
    if args.len() == 0 {
        Ok(Seq::empty())
    } else {
        match parse_operands_spec(args.drop_last(), labels, is_first_pass, rom_start) {
            Err(e) => Err(e),
            Ok(ops) => match parse_operand_spec(args.last(), labels, is_first_pass, rom_start) {
                Err(e) => Err(e),
                Ok(o) => Ok(ops.push(o)),
            },
        }
    }
}

/// The kinds of some operands.
pub open spec fn kinds_of(ops: Seq<OperandView>) -> Seq<OperandKind> {
    Seq::new(ops.len(), |i: int| kind_of(ops[i]))
}

/// The bytecode of some operands, one after another.
pub open spec fn operands_bytes(ops: Seq<OperandView>) -> Seq<u8>
    decreases ops.len(),
{
    if ops.len() == 0 {
        Seq::empty()
    } else {
        operands_bytes(ops.drop_last()) + operand_bytes(ops.last())
    }
}

/// The bytecode of an instruction: its code, then its operands, which
/// must be a combination the instruction accepts.
pub open spec fn encode_opcode_spec(op: Opcode, args: Seq<Seq<char>>, labels: Map<Seq<char>, u64>, is_first_pass: bool, rom_start: nat) -> Result<Seq<u8>, ErrorView> {
    match parse_operands_spec(args, labels, is_first_pass, rom_start) {
        Err(e) => Err(e),
        Ok(ops) => if signature_of(op).contains(kinds_of(ops)) {
            Ok(seq![opcode_code(op)] + operands_bytes(ops))
        } else {
            Err(ErrorView::InvalidOpcodeSignature(op, kinds_of(ops)))
        },
    }
}

/// The characters of each token.
pub open spec fn token_chars(args: Seq<Vec<char>>) -> Seq<Seq<char>> {
    Seq::new(args.len(), |i: int| args[i]@)
}

/// The characters of each `&str` token.
pub open spec fn str_tokens(args: Seq<&str>) -> Seq<Seq<char>> {
    Seq::new(args.len(), |i: int| args[i]@)
}

/// The values of some operands.
pub open spec fn operand_views(ops: Seq<Operand>) -> Seq<OperandView> {
    Seq::new(ops.len(), |i: int| ops[i]@)
}

/// Once a prefix of the tokens fails to parse, every longer prefix fails
/// the same way.
proof fn lemma_parse_operands_error_stays(args: Seq<Seq<char>>, k: nat, labels: Map<Seq<char>, u64>, is_first_pass: bool, rom_start: nat)
    requires
        k <= args.len(),
        parse_operands_spec(args.take(k as int), labels, is_first_pass, rom_start) is Err,
    ensures
        parse_operands_spec(args, labels, is_first_pass, rom_start)
            == parse_operands_spec(args.take(k as int), labels, is_first_pass, rom_start),
    decreases args.len() - k,
{
    if args.len() == k {
        assert(args.take(k as int) =~= args);
    } else {
        let d = args.drop_last();
        assert(d.take(k as int) =~= args.take(k as int));
        lemma_parse_operands_error_stays(d, k, labels, is_first_pass, rom_start);
    }
}

fn parse_operand_tokens(args: &[Vec<char>], labels: &Labels, is_first_pass: bool, manifest: &Manifest) -> (r: Result<(Vec<OperandKind>, Vec<Operand>), CompilationError>)
    requires
        labels_fit(labels@, rom_start_of(*manifest)),
    ensures
        (match parse_operands_spec(token_chars(args@), labels@, is_first_pass, rom_start_of(*manifest)) {
            Ok(ops) => r is Ok && operand_views(r->Ok_0.1@) == ops && r->Ok_0.0@ == kinds_of(ops)
                && forall|i: int| 0 <= i < r->Ok_0.1@.len() ==> (#[trigger] r->Ok_0.1@[i]).wf(),
            Err(e) => r is Err && r->Err_0@ == e,
        }),
{
    let ghost all = token_chars(args@);
    let mut kinds: Vec<OperandKind> = Vec::new();
    let mut operands: Vec<Operand> = Vec::new();
    let mut i: usize = 0;
    proof {
        assert(all.take(0) =~= Seq::<Seq<char>>::empty());
        assert(operand_views(operands@) =~= Seq::<OperandView>::empty());
        assert(kinds@ =~= kinds_of(operand_views(operands@)));
    }
    while i < args.len()
        invariant
            i <= args@.len(),
            all == token_chars(args@),
            labels_fit(labels@, rom_start_of(*manifest)),
            parse_operands_spec(all.take(i as int), labels@, is_first_pass, rom_start_of(*manifest))
                == Ok::<Seq<OperandView>, ErrorView>(operand_views(operands@)),
            kinds@ == kinds_of(operand_views(operands@)),
            forall|j: int| 0 <= j < operands@.len() ==> (#[trigger] operands@[j]).wf(),
        decreases args@.len() - i,
    {
        proof {
            assert(all.take(i + 1).drop_last() =~= all.take(i as int));
            assert(all.take(i + 1).last() == args@[i as int]@);
        }
        let operand = match parse_operand(args[i].as_slice(), labels, is_first_pass, manifest) {
            Ok(o) => o,
            Err(e) => {
                proof {
                    lemma_parse_operands_error_stays(all, (i + 1) as nat, labels@, is_first_pass, rom_start_of(*manifest));
                }
                return Err(e);
            },
        };
        let ghost prev = operand_views(operands@);
        kinds.push(operand.kind());
        operands.push(operand);
        proof {
            assert(operand_views(operands@) =~= prev.push(operands@.last()@));
            assert(kinds@ =~= kinds_of(operand_views(operands@)));
        }
        i = i + 1;
    }
    proof {
        assert(all.take(i as int) =~= all);
    }
    Ok((kinds, operands))
}

pub(crate) fn encode_opcode_tokens(opcode: Opcode, args: &[Vec<char>], labels: &Labels, is_first_pass: bool, manifest: &Manifest) -> (r: Result<Vec<u8>, CompilationError>)
    requires
        labels_fit(labels@, rom_start_of(*manifest)),
    ensures
        (match encode_opcode_spec(opcode, token_chars(args@), labels@, is_first_pass, rom_start_of(*manifest)) {
            Ok(b) => r is Ok && r->Ok_0@ == b,
            Err(e) => r is Err && r->Err_0@ == e,
        }),
{
    let (kinds, operands) = match parse_operand_tokens(args, labels, is_first_pass, manifest) {
        Ok(parsed) => parsed,
        Err(e) => return Err(e),
    };
    let ghost ops = operand_views(operands@);
    if !get_signature(opcode).check(&kinds) {
        return Err(CompilationError::InvalidOpcodeSignature((opcode, kinds)));
    }
    let mut output: Vec<u8> = vec![opcode.to_bytecode()];
    let mut i: usize = 0;
    proof {
        assert(ops.take(0) =~= Seq::<OperandView>::empty());
    }
    while i < operands.len()
        invariant
            i <= operands@.len(),
            ops == operand_views(operands@),
            forall|j: int| 0 <= j < operands@.len() ==> (#[trigger] operands@[j]).wf(),
            output@ == seq![opcode_code(opcode)] + operands_bytes(ops.take(i as int)),
        decreases operands@.len() - i,
    {
        let bytes = operands[i].to_bytes();
        proof {
            assert(ops.take(i + 1).drop_last() =~= ops.take(i as int));
            assert(ops.take(i + 1).last() == operands@[i as int]@);
        }
        extend_bytes(&mut output, bytes.as_slice());
        proof {
            assert(output@ =~= seq![opcode_code(opcode)] + operands_bytes(ops.take(i + 1)));
        }
        i = i + 1;
    }
    proof {
        assert(ops.take(i as int) =~= ops);
    }
    Ok(output)
}

/// The characters of each token.
fn tokens_of_strs(args: &[&str]) -> (r: Vec<Vec<char>>)
    ensures
        token_chars(r@) == str_tokens(args@),
{
    let mut r: Vec<Vec<char>> = Vec::new();
    let mut i: usize = 0;
    while i < args.len()
        invariant
            i <= args@.len(),
            r@.len() == i,
            token_chars(r@) =~= str_tokens(args@).take(i as int),
        decreases args@.len() - i,
    {
        let chars = crate::shared::text::str_chars(args[i]);
        let ghost prev = r@;
        r.push(chars);
        proof {
            assert(r@ == prev.push(chars));
            assert(chars@ == args@[i as int]@);
            assert forall|j: int| 0 <= j < i + 1 implies #[trigger] token_chars(r@)[j] == str_tokens(args@).take(i + 1)[j] by {
                if j < i {
                    assert(token_chars(prev)[j] == str_tokens(args@).take(i as int)[j]);
                }
            }
            assert(token_chars(r@) =~= str_tokens(args@).take(i + 1));
        }
        i = i + 1;
    }
    proof {
        assert(str_tokens(args@).take(i as int) =~= str_tokens(args@));
    }
    r
}

/// Parses each operand token: their kinds and their values.
pub fn parse_operands(args: &[&str], labels: &Labels, is_first_pass: bool, manifest: &Manifest) -> (r: Result<(Vec<OperandKind>, Vec<Operand>), CompilationError>)
    requires
        labels_fit(labels@, rom_start_of(*manifest)),
    ensures
        (match parse_operands_spec(str_tokens(args@), labels@, is_first_pass, rom_start_of(*manifest)) {
            Ok(ops) => r is Ok && operand_views(r->Ok_0.1@) == ops && r->Ok_0.0@ == kinds_of(ops)
                && forall|i: int| 0 <= i < r->Ok_0.1@.len() ==> (#[trigger] r->Ok_0.1@[i]).wf(),
            Err(e) => r is Err && r->Err_0@ == e,
        }),
{
    let tokens = tokens_of_strs(args);
    parse_operand_tokens(tokens.as_slice(), labels, is_first_pass, manifest)
}

/// The bytecode of an instruction with the given operand tokens.
pub fn encode_opcode(opcode: Opcode, args: &[&str], _line: &str, labels: &Labels, is_first_pass: bool, manifest: &Manifest) -> (r: Result<Vec<u8>, CompilationError>)
    requires
        labels_fit(labels@, rom_start_of(*manifest)),
    ensures
        (match encode_opcode_spec(opcode, str_tokens(args@), labels@, is_first_pass, rom_start_of(*manifest)) {
            Ok(b) => r is Ok && r->Ok_0@ == b,
            Err(e) => r is Err && r->Err_0@ == e,
        }),
{
    let tokens = tokens_of_strs(args);
    encode_opcode_tokens(opcode, tokens.as_slice(), labels, is_first_pass, manifest)
}

/// The assembler reads each register by its name: the name listed at a
/// register's bytecode reads as that register (after `!` for the 8-bit
/// ones, after `?` for the 64-bit ones), and a text that reads as a
/// register is that register's name.
pub proof fn lemma_register_names_read(s: Seq<char>)
    ensures
        forall|c: u8| c < 9 ==> register_named(#[trigger] register_names()[c as int]) == register_of_code(c),
        forall|c: u8| c < 7 ==> long_register_named(#[trigger] long_register_names()[c as int]) == long_register_of_code(c),
        register_named(s) matches Some(r) ==> s == register_names()[register_code(r) as int],
        long_register_named(s) matches Some(r) ==> s == long_register_names()[long_register_code(r) as int],
{
    assert(register_names()[0].len() == 1);
    assert(register_names()[0][0] == 'A');
    assert(register_names()[1].len() == 1);
    assert(register_names()[1][0] == 'X');
    assert(register_names()[2].len() == 1);
    assert(register_names()[2][0] == 'Y');
    assert(register_names()[3].len() == 1);
    assert(register_names()[3][0] == 'Z');
    assert(register_names()[4].len() == 2);
    assert(register_names()[4][0] == 'G');
    assert(register_names()[4][1] == '1');
    assert(register_names()[5].len() == 2);
    assert(register_names()[5][0] == 'G');
    assert(register_names()[5][1] == '2');
    assert(register_names()[6].len() == 2);
    assert(register_names()[6][0] == 'G');
    assert(register_names()[6][1] == '3');
    assert(register_names()[7].len() == 2);
    assert(register_names()[7][0] == 'G');
    assert(register_names()[7][1] == '4');
    assert(register_names()[8].len() == 2);
    assert(register_names()[8][0] == 'G');
    assert(register_names()[8][1] == '5');
    assert(long_register_names()[0].len() == 2);
    assert(long_register_names()[0][0] == 'P');
    assert(long_register_names()[0][1] == 'C');
    assert(long_register_names()[1].len() == 3);
    assert(long_register_names()[1][0] == 'L');
    assert(long_register_names()[1][1] == 'L');
    assert(long_register_names()[1][2] == '1');
    assert(long_register_names()[2].len() == 3);
    assert(long_register_names()[2][0] == 'L');
    assert(long_register_names()[2][1] == 'L');
    assert(long_register_names()[2][2] == '2');
    assert(long_register_names()[3].len() == 3);
    assert(long_register_names()[3][0] == 'G');
    assert(long_register_names()[3][1] == 'P');
    assert(long_register_names()[3][2] == '1');
    assert(long_register_names()[4].len() == 3);
    assert(long_register_names()[4][0] == 'G');
    assert(long_register_names()[4][1] == 'P');
    assert(long_register_names()[4][2] == '2');
    assert(long_register_names()[5].len() == 3);
    assert(long_register_names()[5][0] == 'G');
    assert(long_register_names()[5][1] == 'P');
    assert(long_register_names()[5][2] == '3');
    assert(long_register_names()[6].len() == 2);
    assert(long_register_names()[6][0] == 'S');
    assert(long_register_names()[6][1] == 'P');
    assert forall|c: u8| c < 9 implies register_named(#[trigger] register_names()[c as int]) == register_of_code(c) by {
        assert(c == 0 || c == 1 || c == 2 || c == 3 || c == 4 || c == 5 || c == 6 || c == 7 || c == 8);
    }
    assert forall|c: u8| c < 7 implies long_register_named(#[trigger] long_register_names()[c as int]) == long_register_of_code(c) by {
        assert(c == 0 || c == 1 || c == 2 || c == 3 || c == 4 || c == 5 || c == 6);
    }
}

/// The assembler reads each mnemonic as the instruction listed for it:
/// the opcode it names assembles to the listed bytecode.
pub proof fn lemma_mnemonics_read()
    ensures
        forall|k: int| 0 <= k < mnemonics().len() ==> {
            &&& #[trigger] opcode_named(mnemonics()[k].0) is Some
            &&& opcode_code(opcode_named(mnemonics()[k].0)->0) == mnemonics()[k].1
        },
{
    assert(mnemonics()[0].0 =~= seq!['n', 'o', 'o', 'p']);
    assert(mnemonics()[1].0 =~= seq!['h', 'l', 't']);
    assert(mnemonics()[2].0 =~= seq!['v', 's', 'y', 'n', 'c']);
    assert(mnemonics()[3].0 =~= seq!['m', 'o', 'v']);
    assert(mnemonics()[4].0 =~= seq!['t', 'r', 'u', 'n', 'c']);
    assert(mnemonics()[5].0 =~= seq!['e', 'x', 't']);
    assert(mnemonics()[6].0 =~= seq!['c', 'o', 'p', 'y']);
    assert(mnemonics()[7].0 =~= seq!['a', 'd', 'd']);
    assert(mnemonics()[8].0 =~= seq!['s', 'u', 'b']);
    assert(mnemonics()[9].0 =~= seq!['m', 'u', 'l']);
    assert(mnemonics()[10].0 =~= seq!['d', 'i', 'v']);
    assert(mnemonics()[11].0 =~= seq!['a', 'n', 'd']);
    assert(mnemonics()[12].0 =~= seq!['o', 'r']);
    assert(mnemonics()[13].0 =~= seq!['x', 'o', 'r']);
    assert(mnemonics()[14].0 =~= seq!['n', 'o', 't']);
    assert(mnemonics()[15].0 =~= seq!['s', 'h', 'l']);
    assert(mnemonics()[16].0 =~= seq!['s', 'h', 'r']);
    assert(mnemonics()[17].0 =~= seq!['j', 'm', 'p']);
    assert(mnemonics()[18].0 =~= seq!['j', 'e']);
    assert(mnemonics()[19].0 =~= seq!['j', 'n', 'e']);
    assert(mnemonics()[20].0 =~= seq!['j', 'n', 'z']);
    assert(mnemonics()[21].0 =~= seq!['j', 'z']);
    assert(mnemonics()[22].0 =~= seq!['p', 'u', 's', 'h']);
    assert(mnemonics()[23].0 =~= seq!['p', 'o', 'p']);
    assert(mnemonics()[24].0 =~= seq!['r', 'e', 't']);
    assert(mnemonics()[25].0 =~= seq!['c', 'a', 'l', 'l']);
    assert forall|k: int| 0 <= k < mnemonics().len() implies {
        &&& #[trigger] opcode_named(mnemonics()[k].0) is Some
        &&& opcode_code(opcode_named(mnemonics()[k].0)->0) == mnemonics()[k].1
    } by {
        assert(k == 0 || k == 1 || k == 2 || k == 3 || k == 4 || k == 5 || k == 6 || k == 7 || k == 8 || k == 9 || k == 10 || k == 11 || k == 12 || k == 13 || k == 14 || k == 15 || k == 16 || k == 17 || k == 18 || k == 19 || k == 20 || k == 21 || k == 22 || k == 23 || k == 24 || k == 25);
    }
}

/// A number written in decimal reads as itself.
proof fn lemma_parse_num_dec(v: u64)
    ensures
        parse_num_spec(dec(v)) == Some(v as nat),
        char_digit(dec(v)[0]) < 10,
{
    lemma_dec_reads_back(v);
    let d = dec(v);
    assert(char_digit(d[0]) < 10);
    if v == 0 {
        assert(d.len() == 1);
    }
    assert(radix_split(d) == (10nat, d));
    assert(strip_plus(d) == d);
}

/// A number written as `0x` and hexadecimal digits reads as itself.
proof fn lemma_parse_num_hex(v: u64)
    ensures
        parse_num_spec(seq!['0', 'x'] + hex_digits(v as nat)) == Some(v as nat),
{
    lemma_hex_reads_back(v as nat);
    let h = hex_digits(v as nat);
    let s = seq!['0', 'x'] + h;
    assert(s.skip(2) =~= h);
    assert(char_digit(h[0]) < 16);
    assert(strip_plus(h) == h);
}

/// How operands are written: `!` and an 8-bit register's name, `?` and a
/// 64-bit register's name, that in square brackets for an indirect
/// address, `$` and a number (decimal or `0x` hexadecimal) for an address,
/// `&` and a number for a 64-bit immediate, `^` and a number for a
/// longer one, and a bare number below 256 for an 8-bit immediate.
pub proof fn lemma_operand_syntax(c: u8, v: u64, labels: Map<Seq<char>, u64>, is_first_pass: bool, rom_start: nat)
    ensures
        c < 9 ==> parse_operand_spec(seq!['!'] + register_names()[c as int], labels, is_first_pass, rom_start)
            == Ok::<OperandView, ErrorView>(OperandView::Register(register_of_code(c)->0)),
        c < 7 ==> parse_operand_spec(seq!['?'] + long_register_names()[c as int], labels, is_first_pass, rom_start)
            == Ok::<OperandView, ErrorView>(OperandView::LongRegister(long_register_of_code(c)->0)),
        c < 7 ==> parse_operand_spec(seq!['[', '?'] + long_register_names()[c as int] + seq![']'], labels, is_first_pass, rom_start)
            == Ok::<OperandView, ErrorView>(OperandView::IndirectAddress(long_register_of_code(c)->0)),
        parse_operand_spec(seq!['$'] + dec(v), labels, is_first_pass, rom_start)
            == Ok::<OperandView, ErrorView>(OperandView::Address(v)),
        parse_operand_spec(seq!['$', '0', 'x'] + hex_digits(v as nat), labels, is_first_pass, rom_start)
            == Ok::<OperandView, ErrorView>(OperandView::Address(v)),
        parse_operand_spec(seq!['&'] + dec(v), labels, is_first_pass, rom_start)
            == Ok::<OperandView, ErrorView>(OperandView::LongImmediate(v)),
        parse_operand_spec(seq!['^'] + dec(v), labels, is_first_pass, rom_start)
            == Ok::<OperandView, ErrorView>(OperandView::LongerImmediate(v as nat)),
        v < 256 ==> parse_operand_spec(dec(v), labels, is_first_pass, rom_start)
            == Ok::<OperandView, ErrorView>(OperandView::Immediate(v as u8)),
{
    lemma_register_names_read(Seq::empty());
    lemma_parse_num_dec(v);
    lemma_parse_num_hex(v);
    if c < 9 {
        let n = register_names()[c as int];
        assert((seq!['!'] + n).drop_first() =~= n);
        assert(register_named(n) == register_of_code(c));
    }
    if c < 7 {
        let n = long_register_names()[c as int];
        let t = seq!['?'] + n;
        assert(t.drop_first() =~= n);
        assert(long_register_named(n) == long_register_of_code(c));
        let u = seq!['[', '?'] + n + seq![']'];
        assert(u.subrange(1, u.len() - 1) =~= t);
        assert(u[0] == '[' && u.last() == ']');
    }
    let d = dec(v);
    assert((seq!['$'] + d).drop_first() =~= d);
    assert((seq!['&'] + d).drop_first() =~= d);
    assert((seq!['^'] + d).drop_first() =~= d);
    let h = seq!['0', 'x'] + hex_digits(v as nat);
    assert((seq!['$', '0', 'x'] + hex_digits(v as nat)).drop_first() =~= h);
    assert(d[0] != '$' && d[0] != '!' && d[0] != '?' && d[0] != '[' && d[0] != '&' && d[0] != '^');
}

} // verus!
