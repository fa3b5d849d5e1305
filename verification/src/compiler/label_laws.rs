use vstd::prelude::*;
use crate::compiler::assembler::{
    assemble_spec, encode_line_spec, first_pass, is_label_line, label_name, second_pass, source_lines,
};
use crate::compiler::parsing::{
    kinds_of, operands_bytes, parse_operand_spec, parse_operands_spec,
    rom_start_of,
};
use crate::shared::manifest::Manifest;
use crate::shared::operand_types::{kind_of, operand_bytes};
use crate::shared::bigendian::lemma_be_bytes_of_len;

verus! {

/// An operand token reads as operands of the same kind and size in both
/// passes: only a label's address differs, and every address takes nine
/// bytes.
proof fn lemma_operand_shape(t: Seq<char>, l1: Map<Seq<char>, u64>, l2: Map<Seq<char>, u64>, rom_start: nat)
    requires
        parse_operand_spec(t, l1, true, rom_start) is Ok,
        parse_operand_spec(t, l2, false, rom_start) is Ok,
    ensures
        kind_of(parse_operand_spec(t, l1, true, rom_start)->Ok_0) == kind_of(parse_operand_spec(t, l2, false, rom_start)->Ok_0),
        operand_bytes(parse_operand_spec(t, l1, true, rom_start)->Ok_0).len()
            == operand_bytes(parse_operand_spec(t, l2, false, rom_start)->Ok_0).len(),
    decreases t.len(),
{
    if t.len() > 0 && t[0] == '$' {
        let a1 = parse_operand_spec(t, l1, true, rom_start)->Ok_0;
        let a2 = parse_operand_spec(t, l2, false, rom_start)->Ok_0;
        lemma_be_bytes_of_len(a1->Address_0 as nat, 8);
        lemma_be_bytes_of_len(a2->Address_0 as nat, 8);
    } else if t.len() > 0 && t[0] == '!' {
    } else if t.len() > 0 && t[0] == '?' {
    } else if t.len() > 0 && t[0] == '[' && t.last() == ']' {
        if t.len() >= 2 {
            lemma_operand_shape(t.subrange(1, t.len() - 1), l1, l2, rom_start);
        }
    }
}

/// The operands of a line have the same kinds and bytecode size in both
/// passes.
proof fn lemma_operands_shape(args: Seq<Seq<char>>, l1: Map<Seq<char>, u64>, l2: Map<Seq<char>, u64>, rom_start: nat)
    requires
        parse_operands_spec(args, l1, true, rom_start) is Ok,
        parse_operands_spec(args, l2, false, rom_start) is Ok,
    ensures
        kinds_of(parse_operands_spec(args, l1, true, rom_start)->Ok_0)
            == kinds_of(parse_operands_spec(args, l2, false, rom_start)->Ok_0),
        operands_bytes(parse_operands_spec(args, l1, true, rom_start)->Ok_0).len()
            == operands_bytes(parse_operands_spec(args, l2, false, rom_start)->Ok_0).len(),
    decreases args.len(),
{
    if args.len() > 0 {
        let rest = args.drop_last();
        lemma_operands_shape(rest, l1, l2, rom_start);
        lemma_operand_shape(args.last(), l1, l2, rom_start);
        let p1 = parse_operands_spec(rest, l1, true, rom_start)->Ok_0;
        let p2 = parse_operands_spec(rest, l2, false, rom_start)->Ok_0;
        let o1 = parse_operand_spec(args.last(), l1, true, rom_start)->Ok_0;
        let o2 = parse_operand_spec(args.last(), l2, false, rom_start)->Ok_0;
        assert(p1.push(o1).drop_last() =~= p1);
        assert(p2.push(o2).drop_last() =~= p2);
        assert(kinds_of(p1.push(o1)) =~= kinds_of(p1).push(kind_of(o1)));
        assert(kinds_of(p2.push(o2)) =~= kinds_of(p2).push(kind_of(o2)));
    }
}

/// An instruction line takes as many bytes in the first pass as in the
/// second.
proof fn lemma_line_size(toks: Seq<Seq<char>>, l1: Map<Seq<char>, u64>, l2: Map<Seq<char>, u64>, rom_start: nat)
    requires
        encode_line_spec(toks, l1, true, rom_start) is Ok,
        encode_line_spec(toks, l2, false, rom_start) is Ok,
    ensures
        encode_line_spec(toks, l1, true, rom_start)->Ok_0.len() == encode_line_spec(toks, l2, false, rom_start)->Ok_0.len(),
{
    let args = toks.drop_first();
    lemma_operands_shape(args, l1, l2, rom_start);
}

/// The size the first pass counts is the size the second pass emits.
proof fn lemma_passes_agree(lines: Seq<Seq<Seq<char>>>, labels: Map<Seq<char>, u64>, rom_start: nat)
    requires
        first_pass(lines, rom_start) is Ok,
        second_pass(lines, labels, rom_start) is Ok,
    ensures
        second_pass(lines, labels, rom_start)->Ok_0.len() == first_pass(lines, rom_start)->Ok_0.1,
    decreases lines.len(),
{
    if lines.len() > 0 {
        let rest = lines.drop_last();
        lemma_passes_agree(rest, labels, rom_start);
        let toks = lines.last();
        if !is_label_line(toks) && toks.len() != 0 {
            lemma_line_size(toks, first_pass(rest, rom_start)->Ok_0.0, labels, rom_start);
        }
    }
}

/// A successful second pass goes through every prefix of the lines, each
/// giving the start of the whole output.
pub(crate) proof fn lemma_second_pass_prefix(lines: Seq<Seq<Seq<char>>>, labels: Map<Seq<char>, u64>, rom_start: nat, k: int)
    requires
        second_pass(lines, labels, rom_start) is Ok,
        0 <= k <= lines.len(),
    ensures
        second_pass(lines.take(k), labels, rom_start) is Ok,
        second_pass(lines.take(k), labels, rom_start)->Ok_0.len() <= second_pass(lines, labels, rom_start)->Ok_0.len(),
        second_pass(lines, labels, rom_start)->Ok_0.subrange(0, second_pass(lines.take(k), labels, rom_start)->Ok_0.len() as int)
            == second_pass(lines.take(k), labels, rom_start)->Ok_0,
    decreases lines.len(),
{
    if k == lines.len() {
        assert(lines.take(k) =~= lines);
        let out = second_pass(lines, labels, rom_start)->Ok_0;
        assert(out.subrange(0, out.len() as int) =~= out);
    } else {
        let rest = lines.drop_last();
        lemma_second_pass_prefix(rest, labels, rom_start, k);
        assert(rest.take(k) =~= lines.take(k));
        let part = second_pass(rest, labels, rom_start)->Ok_0;
        let whole = second_pass(lines, labels, rom_start)->Ok_0;
        let pre = second_pass(lines.take(k), labels, rom_start)->Ok_0;
        assert(whole.subrange(0, part.len() as int) =~= part);
        assert(whole.subrange(0, pre.len() as int) =~= part.subrange(0, pre.len() as int));
    }
}

/// A successful first pass goes through every prefix of the lines.
proof fn lemma_first_pass_prefix(lines: Seq<Seq<Seq<char>>>, rom_start: nat, k: int)
    requires
        first_pass(lines, rom_start) is Ok,
        0 <= k <= lines.len(),
    ensures
        first_pass(lines.take(k), rom_start) is Ok,
    decreases lines.len(),
{
    if k == lines.len() {
        assert(lines.take(k) =~= lines);
    } else {
        lemma_first_pass_prefix(lines.drop_last(), rom_start, k);
        assert(lines.drop_last().take(k) =~= lines.take(k));
    }
}

/// The offsets the first pass counts fit in 64 bits.
proof fn lemma_first_pass_bound(lines: Seq<Seq<Seq<char>>>, rom_start: nat)
    requires
        first_pass(lines, rom_start) is Ok,
    ensures
        first_pass(lines, rom_start)->Ok_0.1 <= u64::MAX,
    decreases lines.len(),
{
    if lines.len() > 0 {
        lemma_first_pass_bound(lines.drop_last(), rom_start);
    }
}

/// After the last declaration of a label, the first pass keeps the offset
/// it recorded there.
proof fn lemma_label_kept(lines: Seq<Seq<Seq<char>>>, rom_start: nat, k: int)
    requires
        first_pass(lines, rom_start) is Ok,
        0 <= k < lines.len(),
        is_label_line(lines[k]),
        forall|j: int| k < j < lines.len() ==> !(is_label_line(#[trigger] lines[j]) && label_name(lines[j]) == label_name(lines[k])),
    ensures
        first_pass(lines.take(k), rom_start) is Ok,
        first_pass(lines, rom_start)->Ok_0.0.contains_key(label_name(lines[k])),
        first_pass(lines, rom_start)->Ok_0.0[label_name(lines[k])] == first_pass(lines.take(k), rom_start)->Ok_0.1,
    decreases lines.len(),
{
    lemma_first_pass_prefix(lines, rom_start, k);
    let rest = lines.drop_last();
    let name = label_name(lines[k]);
    lemma_first_pass_prefix(lines, rom_start, lines.len() - 1);
    assert(lines.take(lines.len() - 1) =~= rest);
    let (labels, offset) = first_pass(rest, rom_start)->Ok_0;
    lemma_first_pass_bound(rest, rom_start);
    if k == lines.len() - 1 {
        assert(rest =~= lines.take(k));
        assert(lines.last() == lines[k]);
        assert(first_pass(lines, rom_start)->Ok_0.0 == labels.insert(name, offset as u64));
    } else {
        assert(!(is_label_line(lines[lines.len() - 1]) && label_name(lines[lines.len() - 1]) == name));
        assert forall|j: int| k < j < rest.len() implies !(is_label_line(#[trigger] rest[j]) && label_name(rest[j]) == label_name(rest[k])) by {
            assert(rest[j] == lines[j]);
        }
        lemma_label_kept(rest, rom_start, k);
        assert(rest.take(k) =~= lines.take(k));
        assert(rest[k] == lines[k]);
        assert(labels.contains_key(name));
        let toks = lines.last();
        if is_label_line(toks) {
            assert(label_name(toks) != name);
            assert(first_pass(lines, rom_start)->Ok_0.0 == labels.insert(label_name(toks), offset as u64));
        } else {
            assert(first_pass(lines, rom_start)->Ok_0.0 == labels);
        }
    }
}

/// A label stands for the code after it. In a program that assembles, the
/// address a label is given (its offset from the start of ROM, where the
/// program is loaded) is the size of the code before its last
/// declaration, so a jump to the label lands on the first instruction that
/// follows it; and that code is the start of the assembled program.
pub proof fn lemma_label_marks_its_code(source: Seq<char>, manifest: Manifest, k: int)
    requires
        assemble_spec(source, manifest) is Ok,
        0 <= k < source_lines(source).len(),
        is_label_line(source_lines(source)[k]),
        forall|j: int| k < j < source_lines(source).len() ==> !(is_label_line(#[trigger] source_lines(source)[j])
            && label_name(source_lines(source)[j]) == label_name(source_lines(source)[k])),
    ensures
        ({
            let lines = source_lines(source);
            let rom_start = rom_start_of(manifest);
            let labels = first_pass(lines, rom_start)->Ok_0.0;
            let before = second_pass(lines.take(k), labels, rom_start);
            &&& labels.contains_key(label_name(lines[k]))
            &&& before is Ok
            &&& labels[label_name(lines[k])] == before->Ok_0.len()
            &&& assemble_spec(source, manifest)->Ok_0.subrange(0, before->Ok_0.len() as int) == before->Ok_0
        }),
{
    let lines = source_lines(source);
    let rom_start = rom_start_of(manifest);
    let labels = first_pass(lines, rom_start)->Ok_0.0;
    lemma_label_kept(lines, rom_start, k);
    lemma_second_pass_prefix(lines, labels, rom_start, k);
    lemma_passes_agree(lines.take(k), labels, rom_start);
}

} // verus!
