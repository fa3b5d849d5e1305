use vstd::prelude::*;
use crate::shared::manifest::Manifest;
use crate::shared::text::str_chars;
use crate::runtime::memory::VRAM_SIZE;
use crate::compiler::errors::{CompilationError, ErrorView};
use crate::compiler::labels::Labels;
use crate::compiler::parsing::{
    opcode_named, encode_opcode_spec, token_chars, rom_start_of, labels_fit, opcode_from_chars,
    encode_opcode_tokens,
};

verus! {

/// Characters that separate tokens on a line.
pub open spec fn is_blank(c: char) -> bool {
    c == ' ' || c == '\t' || c == '\r'
}

/// The tokens so far, with the token being read added if it is not empty.
pub open spec fn finish_token(words: Seq<Seq<char>>, cur: Seq<char>) -> Seq<Seq<char>> {
    if cur.len() > 0 {
        words.push(cur)
    } else {
        words
    }
}

/// Reading source text character by character: the finished lines (each
/// a list of tokens), the tokens of the current line, the token being
/// read, and whether the rest of the line is a comment.
pub open spec fn source_acc(s: Seq<char>) -> (Seq<Seq<Seq<char>>>, Seq<Seq<char>>, Seq<char>, bool)
    decreases s.len(),
{
    if s.len() == 0 {
        (Seq::empty(), Seq::empty(), Seq::empty(), false)
    } else {
        let (lines, words, cur, comment) = source_acc(s.drop_last());
        let c = s.last();
        if c == '\n' {
            (lines.push(finish_token(words, cur)), Seq::empty(), Seq::empty(), false)
        } else if comment || c == ';' {
            (lines, words, cur, true)
        } else if is_blank(c) {
            (lines, finish_token(words, cur), Seq::empty(), false)
        } else {
            (lines, words, cur.push(c), false)
        }
    }
}

/// The lines of a source text as lists of tokens: a `;` starts a comment
/// that runs to the end of the line, and tokens are separated by blanks.
pub open spec fn source_lines(s: Seq<char>) -> Seq<Seq<Seq<char>>> {
    let (lines, words, cur, _) = source_acc(s);
    lines.push(finish_token(words, cur))
}

/// A line that is a single token ending in `:` declares a label.
pub open spec fn is_label_line(toks: Seq<Seq<char>>) -> bool {
    toks.len() == 1 && toks[0].len() > 0 && toks[0].last() == ':'
}

/// The label a label line declares.
pub open spec fn label_name(toks: Seq<Seq<char>>) -> Seq<char> {
    toks[0].drop_last()
}

/// The bytecode of an instruction line: its first token names the
/// instruction, the others are its operands.
pub open spec fn encode_line_spec(toks: Seq<Seq<char>>, labels: Map<Seq<char>, u64>, is_first_pass: bool, rom_start: nat) -> Result<Seq<u8>, ErrorView> {
    match opcode_named(toks[0]) {
        None => Err(ErrorView::UnknownOpcode(toks[0])),
        Some(op) => encode_opcode_spec(op, toks.drop_first(), labels, is_first_pass, rom_start),
    }
}

/// Why a program cannot be assembled.
pub enum AssemblyError {
    /// The line with this index (counting from zero) is wrong.
    Line(usize, CompilationError),
    /// The program would reach past the last 64-bit address.
    TooLarge,
}

pub enum AssemblyErrorView {
    Line(nat, ErrorView),
    TooLarge,
}

impl View for AssemblyError {
    type V = AssemblyErrorView;

    open spec fn view(&self) -> AssemblyErrorView {
        match self {
            AssemblyError::Line(i, e) => AssemblyErrorView::Line(*i as nat, e@),
            AssemblyError::TooLarge => AssemblyErrorView::TooLarge,
        }
    }
}

/// The first pass: the offset of every label, and the size of the
/// program. Instructions are sized with every address operand taken as a
/// placeholder, since labels further down are not known yet.
pub open spec fn first_pass(lines: Seq<Seq<Seq<char>>>, rom_start: nat) -> Result<(Map<Seq<char>, u64>, nat), AssemblyErrorView>
    decreases lines.len(),
{
    if lines.len() == 0 {
        Ok((Map::empty(), 0))
    } else {
        match first_pass(lines.drop_last(), rom_start) {
            Err(e) => Err(e),
            Ok((labels, offset)) => {
                let toks = lines.last();
                if is_label_line(toks) {
                    Ok((labels.insert(label_name(toks), offset as u64), offset))
                } else if toks.len() == 0 {
                    Ok((labels, offset))
                } else {
                    match encode_line_spec(toks, labels, true, rom_start) {
                        Err(e) => Err(AssemblyErrorView::Line((lines.len() - 1) as nat, e)),
                        Ok(b) => if offset + b.len() + rom_start > u64::MAX {
                            Err(AssemblyErrorView::TooLarge)
                        } else {
                            Ok((labels, offset + b.len()))
                        },
                    }
                }
            },
        }
    }
}

/// The second pass: the bytecode of every instruction line, one after
/// another, with labels resolved.
pub open spec fn second_pass(lines: Seq<Seq<Seq<char>>>, labels: Map<Seq<char>, u64>, rom_start: nat) -> Result<Seq<u8>, AssemblyErrorView>
    decreases lines.len(),
{
    if lines.len() == 0 {
        Ok(Seq::empty())
    } else {
        match second_pass(lines.drop_last(), labels, rom_start) {
            Err(e) => Err(e),
            Ok(out) => {
                let toks = lines.last();
                if is_label_line(toks) || toks.len() == 0 {
                    Ok(out)
                } else {
                    match encode_line_spec(toks, labels, false, rom_start) {
                        Err(e) => Err(AssemblyErrorView::Line((lines.len() - 1) as nat, e)),
                        Ok(b) => Ok(out + b),
                    }
                }
            },
        }
    }
}

/// The bytecode of a whole source text, assembled for a cartridge with
/// `manifest` (labels become addresses in its ROM).
pub open spec fn assemble_spec(source: Seq<char>, manifest: Manifest) -> Result<Seq<u8>, AssemblyErrorView> {
    let lines = source_lines(source);
    let rom_start = rom_start_of(manifest);
    if rom_start > u64::MAX {
        Err(AssemblyErrorView::TooLarge)
    } else {
        match first_pass(lines, rom_start) {
            Err(e) => Err(e),
            Ok((labels, _)) => second_pass(lines, labels, rom_start),
        }
    }
}

/// The tokens of each line.
pub open spec fn lines_view(lines: Seq<Vec<Vec<char>>>) -> Seq<Seq<Seq<char>>> {
    Seq::new(lines.len(), |i: int| token_chars(lines[i]@))
}

fn finish(words: &mut Vec<Vec<char>>, cur: Vec<char>)
    ensures
        token_chars(final(words)@) == finish_token(token_chars(old(words)@), cur@),
{
    if cur.len() > 0 {
        let ghost prev = words@;
        words.push(cur);
        proof {
            assert(token_chars(words@) =~= token_chars(prev).push(cur@));
        }
    }
}

/// Splits source text into lines of tokens, dropping comments.
pub fn tokenize(source: &[char]) -> (r: Vec<Vec<Vec<char>>>)
    ensures
        lines_view(r@) == source_lines(source@),
{
    let mut lines: Vec<Vec<Vec<char>>> = Vec::new();
    let mut words: Vec<Vec<char>> = Vec::new();
    let mut cur: Vec<char> = Vec::new();
    let mut comment = false;
    let mut i: usize = 0;
    proof {
        assert(source@.take(0) =~= Seq::<char>::empty());
        assert(lines_view(lines@) =~= Seq::<Seq<Seq<char>>>::empty());
        assert(token_chars(words@) =~= Seq::<Seq<char>>::empty());
    }
    while i < source.len()
        invariant
            i <= source@.len(),
            source_acc(source@.take(i as int)) == (lines_view(lines@), token_chars(words@), cur@, comment),
        decreases source@.len() - i,
    {
        let c = source[i];
        proof {
            assert(source@.take(i + 1).drop_last() =~= source@.take(i as int));
            assert(source@.take(i + 1).last() == c);
        }
        if c == '\n' {
            let mut done = words;
            finish(&mut done, cur);
            let ghost prev = lines@;
            lines.push(done);
            proof {
                assert(lines_view(lines@) =~= lines_view(prev).push(token_chars(done@)));
            }
            words = Vec::new();
            cur = Vec::new();
            comment = false;
            proof {
                assert(token_chars(words@) =~= Seq::<Seq<char>>::empty());
            }
        } else if comment || c == ';' {
            comment = true;
        } else if c == ' ' || c == '\t' || c == '\r' {
            finish(&mut words, cur);
            cur = Vec::new();
        } else {
            cur.push(c);
        }
        i = i + 1;
    }
    finish(&mut words, cur);
    let ghost prev = lines@;
    lines.push(words);
    proof {
        assert(source@.take(i as int) =~= source@);
        assert(lines_view(lines@) =~= lines_view(prev).push(token_chars(words@)));
    }
    lines
}

/// A copy of some characters.
fn copy_chars(s: &[char], n: usize) -> (r: Vec<char>)
    requires
        n <= s@.len(),
    ensures
        r@ == s@.take(n as int),
{
    let mut r: Vec<char> = Vec::new();
    let mut i: usize = 0;
    while i < n
        invariant
            n <= s@.len(),
            i <= n,
            r@ =~= s@.take(i as int),
        decreases n - i,
    {
        r.push(s[i]);
        i = i + 1;
    }
    r
}

/// The tokens after the first.
fn operand_tokens(toks: &Vec<Vec<char>>) -> (r: Vec<Vec<char>>)
    requires
        toks@.len() >= 1,
    ensures
        token_chars(r@) == token_chars(toks@).drop_first(),
{
    let mut r: Vec<Vec<char>> = Vec::new();
    let mut i: usize = 1;
    while i < toks.len()
        invariant
            1 <= i <= toks@.len(),
            r@.len() == i - 1,
            token_chars(r@) =~= token_chars(toks@).subrange(1, i as int),
        decreases toks@.len() - i,
    {
        let t = copy_chars(toks[i].as_slice(), toks[i].len());
        proof {
            assert(toks@[i as int]@.take(toks@[i as int]@.len() as int) =~= toks@[i as int]@);
        }
        let ghost prev = r@;
        r.push(t);
        proof {
            assert(token_chars(r@) =~= token_chars(toks@).subrange(1, i + 1));
        }
        i = i + 1;
    }
    r
}

fn encode_line(toks: &Vec<Vec<char>>, labels: &Labels, is_first_pass: bool, manifest: &Manifest) -> (r: Result<Vec<u8>, CompilationError>)
    requires
        toks@.len() >= 1,
        labels_fit(labels@, rom_start_of(*manifest)),
    ensures
        (match encode_line_spec(token_chars(toks@), labels@, is_first_pass, rom_start_of(*manifest)) {
            Ok(b) => r is Ok && r->Ok_0@ == b,
            Err(e) => r is Err && r->Err_0@ == e,
        }),
{
    let opcode = match opcode_from_chars(toks[0].as_slice()) {
        Ok(op) => op,
        Err(e) => return Err(e),
    };
    let args = operand_tokens(toks);
    encode_opcode_tokens(opcode, args.as_slice(), labels, is_first_pass, manifest)
}

fn line_is_label(toks: &Vec<Vec<char>>) -> (r: bool)
    ensures
        r == is_label_line(token_chars(toks@)),
{
    toks.len() == 1 && toks[0].len() > 0 && toks[0][toks[0].len() - 1] == ':'
}

/// Assembles a source text for a cartridge with `manifest`, in two passes:
/// the first finds the offset of every label, the second emits bytecode
/// with labels turned into ROM addresses.
pub fn assemble(source: &str, manifest: &Manifest) -> (r: Result<Vec<u8>, AssemblyError>)
    ensures
        (match assemble_spec(source@, *manifest) {
            Ok(b) => r is Ok && r->Ok_0@ == b,
            Err(e) => r is Err && r->Err_0@ == e,
        }),
{
    let chars = str_chars(source);
    let lines = tokenize(chars.as_slice());
    let ghost lv = lines_view(lines@);
    let ram = manifest.settings.ram_size;
    let stack = manifest.settings.stack_size;
    if ram > u64::MAX - VRAM_SIZE as u64 || stack > u64::MAX - VRAM_SIZE as u64 - ram {
        return Err(AssemblyError::TooLarge);
    }
    let rom_start: u64 = VRAM_SIZE as u64 + ram + stack;
    let ghost rs = rom_start_of(*manifest);
    // First pass
    let mut labels = Labels::new();
    let mut offset: u64 = 0;
    let mut i: usize = 0;
    proof {
        assert(lv.take(0) =~= Seq::<Seq<Seq<char>>>::empty());
    }
    while i < lines.len()
        invariant
            i <= lines@.len(),
            lv == lines_view(lines@),
            rom_start == rs,
            rs == rom_start_of(*manifest),
            lv == source_lines(source@),
            first_pass(lv.take(i as int), rs) == Ok::<(Map<Seq<char>, u64>, nat), AssemblyErrorView>((labels@, offset as nat)),
            offset + rs <= u64::MAX,
            forall|k: Seq<char>| labels@.contains_key(k) ==> labels@[k] <= offset,
        decreases lines@.len() - i,
    {
        proof {
            assert(lv.take(i + 1).drop_last() =~= lv.take(i as int));
            assert(lv.take(i + 1).last() == token_chars(lines@[i as int]@));
        }
        let toks = &lines[i];
        if line_is_label(toks) {
            let name = copy_chars(toks[0].as_slice(), toks[0].len() - 1);
            proof {
                assert(toks@[0]@.take(toks@[0]@.len() - 1) =~= toks@[0]@.drop_last());
            }
            labels.insert(name, offset);
        } else if toks.len() > 0 {
            proof {
                assert(labels_fit(labels@, rs));
            }
            let bytes = match encode_line(toks, &labels, true, manifest) {
                Ok(b) => b,
                Err(e) => {
                    proof {
                        lemma_first_pass_error_stays(lv, (i + 1) as nat, rs);
                    }
                    return Err(AssemblyError::Line(i, e));
                },
            };
            if bytes.len() as u128 + offset as u128 + rom_start as u128 > u64::MAX as u128 {
                proof {
                    lemma_first_pass_error_stays(lv, (i + 1) as nat, rs);
                }
                return Err(AssemblyError::TooLarge);
            }
            offset = offset + bytes.len() as u64;
        }
        i = i + 1;
    }
    proof {
        assert(lv.take(i as int) =~= lv);
    }
    // Second pass
    let mut output: Vec<u8> = Vec::new();
    let mut j: usize = 0;
    proof {
        assert(lv.take(0) =~= Seq::<Seq<Seq<char>>>::empty());
    }
    while j < lines.len()
        invariant
            j <= lines@.len(),
            lv == lines_view(lines@),
            labels_fit(labels@, rs),
            rs == rom_start_of(*manifest),
            lv == source_lines(source@),
            first_pass(lv, rs) is Ok,
            first_pass(lv, rs)->Ok_0.0 == labels@,
            second_pass(lv.take(j as int), labels@, rs) == Ok::<Seq<u8>, AssemblyErrorView>(output@),
        decreases lines@.len() - j,
    {
        proof {
            assert(lv.take(j + 1).drop_last() =~= lv.take(j as int));
            assert(lv.take(j + 1).last() == token_chars(lines@[j as int]@));
        }
        let toks = &lines[j];
        if !line_is_label(toks) && toks.len() > 0 {
            let bytes = match encode_line(toks, &labels, false, manifest) {
                Ok(b) => b,
                Err(e) => {
                    proof {
                        lemma_second_pass_error_stays(lv, (j + 1) as nat, labels@, rs);
                    }
                    return Err(AssemblyError::Line(j, e));
                },
            };
            crate::shared::text::extend_bytes(&mut output, bytes.as_slice());
        }
        j = j + 1;
    }
    proof {
        assert(lv.take(j as int) =~= lv);
    }
    Ok(output)
}

/// Once the first pass fails on a prefix of the lines, it fails the same
/// way on the whole text.
proof fn lemma_first_pass_error_stays(lines: Seq<Seq<Seq<char>>>, k: nat, rom_start: nat)
    requires
        k <= lines.len(),
        first_pass(lines.take(k as int), rom_start) is Err,
    ensures
        first_pass(lines, rom_start) == first_pass(lines.take(k as int), rom_start),
    decreases lines.len() - k,
{
    if lines.len() == k {
        assert(lines.take(k as int) =~= lines);
    } else {
        let d = lines.drop_last();
        assert(d.take(k as int) =~= lines.take(k as int));
        lemma_first_pass_error_stays(d, k, rom_start);
    }
}

/// Once the second pass fails on a prefix of the lines, it fails the same
/// way on the whole text.
proof fn lemma_second_pass_error_stays(lines: Seq<Seq<Seq<char>>>, k: nat, labels: Map<Seq<char>, u64>, rom_start: nat)
    requires
        k <= lines.len(),
        second_pass(lines.take(k as int), labels, rom_start) is Err,
    ensures
        second_pass(lines, labels, rom_start) == second_pass(lines.take(k as int), labels, rom_start),
    decreases lines.len() - k,
{
    if lines.len() == k {
        assert(lines.take(k as int) =~= lines);
    } else {
        let d = lines.drop_last();
        assert(d.take(k as int) =~= lines.take(k as int));
        lemma_second_pass_error_stays(d, k, labels, rom_start);
    }
}

} // verus!
