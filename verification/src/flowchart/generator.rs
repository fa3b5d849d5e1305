use vstd::prelude::*;
use vstd::utf8::{valid_utf8, decode_utf8, encode_utf8, is_char_boundary};
use vstd::string::StringSliceAdditionalSpecFns;
use regex::Regex;
use crate::shared::text::{str_chars, chars_to_string};
use crate::shared::trim::{trim, trim_chars};
use crate::shared::split::{split_on, split_chars, pieces_view};
use crate::flowchart::graph::{extend_chars, replace_all, replace_chars, Graph, GraphView, NodeView, node_id_spec, id_value, lemma_node_id_roundtrip};

verus! {

broadcast use vstd::utf8::group_utf8_lib;

/// The characters of `s` before its first `c` (all of them if there is
/// none).
pub open spec fn before_first(s: Seq<char>, c: char) -> Seq<char>
    decreases s.len(),
{
    if s.len() == 0 || s[0] == c {
        Seq::empty()
    } else {
        seq![s[0]] + before_first(s.drop_first(), c)
    }
}

/// Removes a `;` comment from a line (`Regex::replace_all` with the
/// pattern `;.*` and an empty replacement). On a line without a newline
/// the pattern matches from the first `;` to the end of the line, so the
/// result is the text before the first `;`.
#[verifier::external_body]
fn strip_comment(line: &str) -> (r: String)
    requires
        !line@.contains('\n'),
    ensures
        r@ == before_first(line@, ';'),
{
    Regex::new(r";.*").unwrap().replace_all(line, "").into_owned()
}

/// The byte offsets at which the lines declaring a label (a word followed
/// by `:` and a newline) start in `code`.
pub uninterp spec fn label_line_starts(code: Seq<char>) -> Seq<usize>;

/// Finds the starts of label lines (`Regex::find_iter` with the pattern
/// `[\w\d_]+:\n`, each match's `Match::start`). What the pattern matches
/// (Unicode word characters) is left to the name; the documented facts
/// stated here are that each start lies within the text and on a character
/// boundary of its UTF-8 bytes.
#[verifier::external_body]
fn find_label_starts(code: &str) -> (r: Vec<usize>)
    ensures
        r@ == label_line_starts(code@),
        forall|i: int| 0 <= i < r@.len() ==> (#[trigger] r@[i]) <= encode_utf8(code@).len()
            && is_char_boundary(encode_utf8(code@), r@[i] as int),
{
    Regex::new(r"[\w\d_]+:\n").unwrap().find_iter(code).map(|m| m.start()).collect()
}

/// Cutting the UTF-8 bytes of a text at given offsets: the pieces so far
/// (each decoded and trimmed, an empty piece skipped) and the offset of the
/// piece being read.
pub open spec fn chunks_acc(bytes: Seq<u8>, starts: Seq<usize>) -> (Seq<Seq<char>>, nat)
    decreases starts.len(),
{
    if starts.len() == 0 {
        (Seq::empty(), 0)
    } else {
        let (parts, cur) = chunks_acc(bytes, starts.drop_last());
        let next = starts.last() as nat;
        if next > cur {
            (parts.push(trim(decode_utf8(bytes.subrange(cur as int, next as int)))), next)
        } else {
            (parts, next)
        }
    }
}

/// The text cut before each offset in `starts`, each piece trimmed, with
/// the text after the last offset as the last piece.
pub open spec fn chunks(bytes: Seq<u8>, starts: Seq<usize>) -> Seq<Seq<char>> {
    let (parts, cur) = chunks_acc(bytes, starts);
    if cur < bytes.len() {
        parts.push(trim(decode_utf8(bytes.subrange(cur as int, bytes.len() as int))))
    } else {
        parts
    }
}

/// The characters of each string.
pub open spec fn strings_view(v: Seq<String>) -> Seq<Seq<char>> {
    Seq::new(v.len(), |i: int| v[i]@)
}

/// The bytes `a..b` of `s`, both on character boundaries.
fn str_slice<'a>(s: &'a str, a: usize, b: usize) -> (r: &'a str)
    requires
        a <= b <= encode_utf8(s@).len(),
        is_char_boundary(encode_utf8(s@), a as int),
        is_char_boundary(encode_utf8(s@), b as int),
    ensures
        r@ == decode_utf8(encode_utf8(s@).subrange(a as int, b as int)),
{
    let ghost bytes = encode_utf8(s@);
    let (_, tail) = s.split_at(a);
    let ghost tb = bytes.subrange(a as int, bytes.len() as int);
    proof {
        assert(tail.spec_bytes() =~= tb);
        vstd::utf8::encode_utf8_valid_utf8(s@);
        vstd::utf8::valid_utf8_split(bytes, a as int);
        if b - a < tb.len() {
            assert(tb[b - a] == bytes[b as int]);
            vstd::utf8::is_char_boundary_iff_not_is_continuation_byte(bytes, b as int);
            vstd::utf8::is_char_boundary_iff_not_is_continuation_byte(tb, (b - a) as int);
        } else {
            vstd::utf8::is_char_boundary_start_end_of_seq(tb);
        }
    }
    let (piece, _) = tail.split_at(b - a);
    proof {
        assert(piece.spec_bytes() =~= bytes.subrange(a as int, b as int));
        assert(decode_utf8(encode_utf8(piece@)) == piece@);
    }
    piece
}

/// The trimmed characters of `s` as a string.
fn trimmed_string(s: &str) -> (r: String)
    ensures
        r@ == trim(s@),
{
    let chars = str_chars(s);
    let t = trim_chars(chars.as_slice());
    chars_to_string(t.as_slice())
}

/// Cuts `code` before each of `starts` (byte offsets on character
/// boundaries) and trims the pieces, skipping empty ones between equal or
/// decreasing offsets.
pub fn split_at_starts(code: &str, starts: &[usize]) -> (r: Vec<String>)
    requires
        forall|i: int| 0 <= i < starts@.len() ==> (#[trigger] starts@[i]) <= encode_utf8(code@).len()
            && is_char_boundary(encode_utf8(code@), starts@[i] as int),
    ensures
        strings_view(r@) == chunks(encode_utf8(code@), starts@),
{
    let ghost bytes = encode_utf8(code@);
    let len = code.as_bytes().len();
    let mut parts: Vec<String> = Vec::new();
    let mut cur: usize = 0;
    let mut k: usize = 0;
    proof {
        assert(starts@.take(0) =~= Seq::<usize>::empty());
        assert(strings_view(parts@) =~= Seq::<Seq<char>>::empty());
    }
    while k < starts.len()
        invariant
            bytes == encode_utf8(code@),
            len == bytes.len(),
            k <= starts@.len(),
            forall|i: int| 0 <= i < starts@.len() ==> (#[trigger] starts@[i]) <= bytes.len()
                && is_char_boundary(bytes, starts@[i] as int),
            cur <= len,
            is_char_boundary(bytes, cur as int),
            chunks_acc(bytes, starts@.take(k as int)) == (strings_view(parts@), cur as nat),
        decreases starts@.len() - k,
    {
        let next = starts[k];
        proof {
            assert(starts@.take(k + 1).drop_last() =~= starts@.take(k as int));
            assert(starts@.take(k + 1).last() == next);
        }
        if next > cur {
            let piece = str_slice(code, cur, next);
            let ghost prev = parts@;
            parts.push(trimmed_string(piece));
            proof {
                assert(strings_view(parts@) =~= strings_view(prev).push(trim(piece@)));
            }
        }
        cur = next;
        k = k + 1;
    }
    proof {
        assert(starts@.take(k as int) =~= starts@);
    }
    if cur < len {
        let piece = str_slice(code, cur, len);
        let ghost prev = parts@;
        parts.push(trimmed_string(piece));
        proof {
            assert(strings_view(parts@) =~= strings_view(prev).push(trim(piece@)));
        }
    }
    parts
}

/// Cuts assembly code into its labelled blocks: each block runs from a
/// label line to the next, and code before the first label is a block too.
pub fn split_by_labels(code: String) -> (r: Vec<String>)
    ensures
        strings_view(r@) == chunks(encode_utf8(code@), label_line_starts(code@)),
{
    let starts = find_label_starts(code.as_str());
    split_at_starts(code.as_str(), starts.as_slice())
}

/// A line after its comment is cut off and it is trimmed.
pub open spec fn prep_line(l: Seq<char>) -> Seq<char> {
    trim(before_first(l, ';'))
}

/// The prepared lines that are not empty.
pub open spec fn kept_lines(lines: Seq<Seq<char>>) -> Seq<Seq<char>>
    decreases lines.len(),
{
    if lines.len() == 0 {
        Seq::empty()
    } else if prep_line(lines.last()).len() > 0 {
        kept_lines(lines.drop_last()).push(prep_line(lines.last()))
    } else {
        kept_lines(lines.drop_last())
    }
}

/// Lines joined with newlines.
pub open spec fn join_lines(lines: Seq<Seq<char>>) -> Seq<char>
    decreases lines.len(),
{
    if lines.len() == 0 {
        Seq::empty()
    } else if lines.len() == 1 {
        lines[0]
    } else {
        join_lines(lines.drop_last()) + seq!['\n'] + lines.last()
    }
}

/// Assembly code without comments, blank lines or indentation.
pub open spec fn prep_code_spec(code: Seq<char>) -> Seq<char> {
    join_lines(kept_lines(split_on(code, '\n')))
}

/// No piece of a split contains the separator.
proof fn lemma_split_pieces(s: Seq<char>, sep: char)
    ensures
        forall|i: int| 0 <= i < split_on(s, sep).len() ==> !(#[trigger] split_on(s, sep)[i]).contains(sep),
    decreases s.len(),
{
    if s.len() > 0 {
        lemma_split_pieces(s.drop_last(), sep);
        let (done, cur) = crate::shared::split::split_acc(s.drop_last(), sep);
        assert forall|i: int| 0 <= i < split_on(s, sep).len() implies !(#[trigger] split_on(s, sep)[i]).contains(sep) by {
            assert(split_on(s.drop_last(), sep) == done.push(cur));
            if s.last() == sep {
                if i < done.len() + 1 {
                    assert(split_on(s, sep)[i] == split_on(s.drop_last(), sep)[i]);
                }
            } else {
                if i < done.len() {
                    assert(split_on(s, sep)[i] == split_on(s.drop_last(), sep)[i]);
                } else {
                    let c2 = cur.push(s.last());
                    assert(!cur.contains(sep)) by {
                        assert(split_on(s.drop_last(), sep)[done.len() as int] == cur);
                    }
                    assert forall|j: int| 0 <= j < c2.len() implies c2[j] != sep by {
                        if j < cur.len() {
                            assert(c2[j] == cur[j]);
                        }
                    }
                }
            }
        }
    }
}

/// Removes comments, indentation and blank lines from assembly code.
pub fn prep_code(code: String) -> (r: String)
    ensures
        r@ == prep_code_spec(code@),
{
    let chars = str_chars(code.as_str());
    let lines = split_chars(chars.as_slice(), '\n');
    let ghost lv = pieces_view(lines@);
    proof {
        lemma_split_pieces(chars@, '\n');
    }
    let mut out: Vec<char> = Vec::new();
    let mut count: usize = 0;
    let mut i: usize = 0;
    proof {
        assert(lv.take(0) =~= Seq::<Seq<char>>::empty());
    }
    while i < lines.len()
        invariant
            i <= lines@.len(),
            lv == pieces_view(lines@),
            lv == split_on(code@, '\n'),
            forall|j: int| 0 <= j < lv.len() ==> !(#[trigger] lv[j]).contains('\n'),
            count == kept_lines(lv.take(i as int)).len(),
            count <= i,
            out@ == join_lines(kept_lines(lv.take(i as int))),
        decreases lines@.len() - i,
    {
        proof {
            assert(lv.take(i + 1).drop_last() =~= lv.take(i as int));
            assert(lv.take(i + 1).last() == lines@[i as int]@);
            assert(!lv[i as int].contains('\n'));
        }
        let text = chars_to_string(lines[i].as_slice());
        let stripped = strip_comment(text.as_str());
        let stripped_chars = str_chars(stripped.as_str());
        let kept = trim_chars(stripped_chars.as_slice());
        if kept.len() > 0 {
            if count > 0 {
                out.push('\n');
            }
            extend_chars(&mut out, kept.as_slice());
            proof {
                let k = kept_lines(lv.take(i + 1));
                assert(k == kept_lines(lv.take(i as int)).push(kept@));
                if count > 0 {
                    assert(k.drop_last() =~= kept_lines(lv.take(i as int)));
                    assert(out@ =~= join_lines(k.drop_last()) + seq!['\n'] + k.last());
                } else {
                    assert(out@ =~= kept@);
                }
            }
            count = count + 1;
        }
        i = i + 1;
    }
    proof {
        assert(lv.take(i as int) =~= lv);
    }
    chars_to_string(out.as_slice())
}

/// The block's label, from its first line: the line without its `:` if it
/// has one, `start` for the code before the first label.
pub open spec fn label_of(part: Seq<char>) -> Seq<char> {
    let first = before_first(part, '\n');
    if first.contains(':') {
        replace_all(first, seq![':'], Seq::empty())
    } else {
        seq!['s', 't', 'a', 'r', 't']
    }
}

/// The characters of `s` before its first `c`.
pub(crate) fn chars_before(s: &[char], c: char) -> (r: Vec<char>)
    ensures
        r@ == before_first(s@, c),
{
    let mut i: usize = 0;
    proof {
        assert(s@.skip(0) =~= s@);
    }
    while i < s.len() && s[i] != c
        invariant
            i <= s@.len(),
            forall|j: int| 0 <= j < i ==> s@[j] != c,
            before_first(s@, c) == s@.take(i as int) + before_first(s@.skip(i as int), c),
        decreases s@.len() - i,
    {
        proof {
            assert(s@.skip(i as int).drop_first() =~= s@.skip(i + 1));
            assert(s@.take(i + 1) =~= s@.take(i as int) + seq![s@[i as int]]);
        }
        i = i + 1;
    }
    proof {
        assert(before_first(s@.skip(i as int), c) =~= Seq::<char>::empty());
    }
    let mut r: Vec<char> = Vec::new();
    let mut k: usize = 0;
    while k < i
        invariant
            k <= i <= s@.len(),
            r@ =~= s@.take(k as int),
        decreases i - k,
    {
        r.push(s[k]);
        k = k + 1;
    }
    r
}

/// Whether `c` occurs in `s`.
fn chars_contain(s: &[char], c: char) -> (r: bool)
    ensures
        r == s@.contains(c),
{
    let mut i: usize = 0;
    while i < s.len()
        invariant
            i <= s@.len(),
            forall|j: int| 0 <= j < i ==> s@[j] != c,
        decreases s@.len() - i,
    {
        if s[i] == c {
            proof {
                assert(s@[i as int] == c);
            }
            return true;
        }
        i = i + 1;
    }
    false
}

/// The label of a block and the block itself.
pub fn get_label(part: String) -> (r: (String, String))
    ensures
        r.0@ == label_of(part@),
        r.1@ == part@,
{
    let chars = str_chars(part.as_str());
    let first = chars_before(chars.as_slice(), '\n');
    let name = if chars_contain(first.as_slice(), ':') {
        let colon: [char; 1] = [':'];
        let nothing: [char; 0] = [];
        proof {
            assert(colon@ =~= seq![':']);
            assert(nothing@ =~= Seq::<char>::empty());
        }
        let stripped = replace_chars(first.as_slice(), &colon, &nothing);
        chars_to_string(stripped.as_slice())
    } else {
        proof {
            assert(['s', 't', 'a', 'r', 't']@ =~= seq!['s', 't', 'a', 'r', 't']);
        }
        chars_to_string(&['s', 't', 'a', 'r', 't'])
    };
    (name, part)
}

/// Whether `s` starts with `p`.
pub open spec fn starts_with(s: Seq<char>, p: Seq<char>) -> bool {
    p.len() <= s.len() && s.take(p.len() as int) == p
}

/// The characters of `s` after its first `c`, if it has one.
pub open spec fn after_first(s: Seq<char>, c: char) -> Option<Seq<char>>
    decreases s.len(),
{
    if s.len() == 0 {
        None
    } else if s[0] == c {
        Some(s.drop_first())
    } else {
        after_first(s.drop_first(), c)
    }
}

/// The label a jump line targets. `None` for a line that is no jump;
/// `Some(None)` for a jump line the generator cannot read (it panics): one
/// without its operands, or whose target does not start with an ASCII
/// character (the `$` it drops).
pub open spec fn jump_target(line: Seq<char>) -> Option<Option<Seq<char>>> {
    let rest = if starts_with(line, seq!['j', 'm', 'p']) || starts_with(line, seq!['c', 'a', 'l', 'l']) {
        Some(after_first(line, ' '))
    } else if starts_with(line, seq!['j', 'z']) || starts_with(line, seq!['j', 'n', 'z']) {
        Some(
            match after_first(line, ' ') {
                None => None,
                Some(t) => after_first(t, ' '),
            },
        )
    } else {
        None
    };
    match rest {
        None => None,
        Some(None) => Some(None),
        Some(Some(t)) => if t.len() == 0 || (t[0] as u32) >= 128 {
            Some(None)
        } else {
            Some(Some(t.drop_first()))
        },
    }
}

/// `str::lines`: the text split at newlines, a `\r` before a newline
/// dropped, and no empty last line after a final newline.
pub open spec fn lines_of(s: Seq<char>) -> Seq<Seq<char>> {
    let ps = split_on(s, '\n');
    let n = ps.len();
    Seq::new(
        if s.len() == 0 || s.last() == '\n' { (n - 1) as nat } else { n },
        |i: int| if i < n - 1 && ps[i].len() > 0 && ps[i].last() == '\r' { ps[i].drop_last() } else { ps[i] },
    )
}

/// Each label with the id of its node (a later block with the same label
/// wins).
pub open spec fn label_ids(parts: Seq<Seq<char>>) -> Map<Seq<char>, Seq<char>>
    decreases parts.len(),
{
    if parts.len() == 0 {
        Map::empty()
    } else {
        label_ids(parts.drop_last()).insert(label_of(parts.last()), node_id_spec((parts.len() - 1) as nat))
    }
}

/// Adds an arrow unless it is there already.
pub open spec fn connect(edges: Seq<(Seq<char>, Seq<char>)>, e: (Seq<char>, Seq<char>)) -> Seq<(Seq<char>, Seq<char>)> {
    if edges.contains(e) {
        edges
    } else {
        edges.push(e)
    }
}

/// The arrows of the jump lines among `lines`, from the block `from`.
pub open spec fn jump_edges(edges: Seq<(Seq<char>, Seq<char>)>, lines: Seq<Seq<char>>, ids: Map<Seq<char>, Seq<char>>, from: Seq<char>) -> Seq<(Seq<char>, Seq<char>)>
    decreases lines.len(),
{
    if lines.len() == 0 {
        edges
    } else {
        let e = jump_edges(edges, lines.drop_last(), ids, from);
        match jump_target(lines.last()) {
            Some(Some(t)) => if ids.contains_key(t) {
                connect(e, (from, ids[t]))
            } else {
                e
            },
            _ => e,
        }
    }
}

/// The arrows out of one block: one per jump to a label, then one to the
/// next block unless the block ends in `jmp` or `ret`.
pub open spec fn block_edges(edges: Seq<(Seq<char>, Seq<char>)>, part: Seq<char>, ids: Map<Seq<char>, Seq<char>>, count: nat) -> Seq<(Seq<char>, Seq<char>)> {
    let from = ids[label_of(part)];
    let lines = lines_of(part);
    let e = jump_edges(edges, lines, ids, from);
    let last = lines.last();
    if !(starts_with(last, seq!['j', 'm', 'p']) || starts_with(last, seq!['r', 'e', 't'])) {
        let num = id_value(from) - 1;
        if num + 1 < count {
            connect(e, (from, node_id_spec((num + 1) as nat)))
        } else {
            e
        }
    } else {
        e
    }
}

/// The arrows of all blocks, in order.
pub open spec fn all_edges(parts: Seq<Seq<char>>, ids: Map<Seq<char>, Seq<char>>, count: nat) -> Seq<(Seq<char>, Seq<char>)>
    decreases parts.len(),
{
    if parts.len() == 0 {
        Seq::empty()
    } else {
        block_edges(all_edges(parts.drop_last(), ids, count), parts.last(), ids, count)
    }
}

/// The flowchart of some blocks: a node per block, named by its label and
/// holding its code, and the arrows between them.
pub open spec fn graph_spec(parts: Seq<Seq<char>>) -> GraphView {
    GraphView {
        nodes: Seq::new(parts.len(), |i: int| NodeView { name: label_of(parts[i]), code: parts[i], id: node_id_spec(i as nat) }),
        current_id: parts.len(),
        connection: all_edges(parts, label_ids(parts), parts.len()),
    }
}

/// The generator cannot handle some blocks: an empty one, or one with a
/// jump line it cannot read.
pub open spec fn blocks_panic(parts: Seq<Seq<char>>) -> bool {
    exists|k: int| 0 <= k < parts.len() && (lines_of(#[trigger] parts[k]).len() == 0
        || exists|j: int| 0 <= j < lines_of(parts[k]).len() && jump_target(#[trigger] lines_of(parts[k])[j]) == Some(None::<Seq<char>>))
}

/// Whether `s` starts with `p`.
fn chars_start_with(s: &[char], p: &[char]) -> (r: bool)
    ensures
        r == starts_with(s@, p@),
{
    if p.len() > s.len() {
        return false;
    }
    let mut i: usize = 0;
    while i < p.len()
        invariant
            p@.len() <= s@.len(),
            i <= p@.len(),
            forall|j: int| 0 <= j < i ==> s@[j] == p@[j],
        decreases p@.len() - i,
    {
        if s[i] != p[i] {
            proof {
                assert(s@.take(p@.len() as int)[i as int] != p@[i as int]);
            }
            return false;
        }
        i = i + 1;
    }
    proof {
        assert(s@.take(p@.len() as int) =~= p@);
    }
    true
}

/// The characters of `s` after its first `c`, if it has one.
fn chars_after(s: &[char], c: char) -> (r: Option<Vec<char>>)
    ensures
        (match after_first(s@, c) {
            Some(t) => r is Some && r->0@ == t,
            None => r is None,
        }),
{
    let mut i: usize = 0;
    proof {
        assert(s@.skip(0) =~= s@);
    }
    while i < s.len() && s[i] != c
        invariant
            i <= s@.len(),
            after_first(s@, c) == after_first(s@.skip(i as int), c),
        decreases s@.len() - i,
    {
        proof {
            assert(s@.skip(i as int).drop_first() =~= s@.skip(i + 1));
        }
        i = i + 1;
    }
    if i == s.len() {
        return None;
    }
    proof {
        assert(s@.skip(i as int).drop_first() =~= s@.skip(i + 1));
    }
    let mut r: Vec<char> = Vec::new();
    let mut k: usize = i + 1;
    while k < s.len()
        invariant
            i < s@.len(),
            i + 1 <= k <= s@.len(),
            r@ =~= s@.subrange(i + 1, k as int),
        decreases s@.len() - k,
    {
        r.push(s[k]);
        k = k + 1;
    }
    Some(r)
}

/// The label a jump line targets (see `jump_target`).
fn line_jump_target(line: &[char]) -> (r: Option<Option<Vec<char>>>)
    ensures
        (match jump_target(line@) {
            None => r is None,
            Some(None) => r is Some && r->0 is None,
            Some(Some(t)) => r is Some && r->0 is Some && r->0->0@ == t,
        }),
{
    proof {
        assert(['j', 'm', 'p']@ =~= seq!['j', 'm', 'p']);
        assert(['c', 'a', 'l', 'l']@ =~= seq!['c', 'a', 'l', 'l']);
        assert(['j', 'z']@ =~= seq!['j', 'z']);
        assert(['j', 'n', 'z']@ =~= seq!['j', 'n', 'z']);
    }
    let rest = if chars_start_with(line, &['j', 'm', 'p']) || chars_start_with(line, &['c', 'a', 'l', 'l']) {
        chars_after(line, ' ')
    } else if chars_start_with(line, &['j', 'z']) || chars_start_with(line, &['j', 'n', 'z']) {
        match chars_after(line, ' ') {
            None => None,
            Some(t) => chars_after(t.as_slice(), ' '),
        }
    } else {
        return None;
    };
    match rest {
        None => Some(None),
        Some(t) => {
            if t.len() == 0 || (t[0] as u32) >= 128 {
                Some(None)
            } else {
                let mut target: Vec<char> = Vec::new();
                let mut i: usize = 1;
                while i < t.len()
                    invariant
                        1 <= i <= t@.len(),
                        target@ =~= t@.subrange(1, i as int),
                    decreases t@.len() - i,
                {
                    target.push(t[i]);
                    i = i + 1;
                }
                proof {
                    assert(t@.subrange(1, t@.len() as int) =~= t@.drop_first());
                }
                Some(Some(target))
            }
        },
    }
}

/// The lines of `s` (`str::lines`).
fn chars_lines(s: &[char]) -> (r: Vec<Vec<char>>)
    ensures
        pieces_view(r@) == lines_of(s@),
{
    let ps = split_chars(s, '\n');
    let n = ps.len();
    let count = if s.len() == 0 || s[s.len() - 1] == '\n' { n - 1 } else { n };
    let mut r: Vec<Vec<char>> = Vec::new();
    let mut i: usize = 0;
    while i < count
        invariant
            n == ps@.len(),
            n >= 1,
            pieces_view(ps@) == split_on(s@, '\n'),
            count == (if s@.len() == 0 || s@.last() == '\n' { (n - 1) as nat } else { n as nat }),
            i <= count,
            r@.len() == i,
            forall|j: int| 0 <= j < i ==> (#[trigger] r@[j])@ == lines_of(s@)[j],
        decreases count - i,
    {
        let piece = &ps[i];
        let line = if i < n - 1 && piece.len() > 0 && piece[piece.len() - 1] == '\r' {
            let mut l: Vec<char> = Vec::new();
            let mut k: usize = 0;
            while k < piece.len() - 1
                invariant
                    piece@.len() > 0,
                    k <= piece@.len() - 1,
                    l@ =~= piece@.take(k as int),
                decreases piece@.len() - 1 - k,
            {
                l.push(piece[k]);
                k = k + 1;
            }
            proof {
                assert(piece@.take(piece@.len() - 1) =~= piece@.drop_last());
            }
            l
        } else {
            let mut l: Vec<char> = Vec::new();
            let mut k: usize = 0;
            while k < piece.len()
                invariant
                    k <= piece@.len(),
                    l@ =~= piece@.take(k as int),
                decreases piece@.len() - k,
            {
                l.push(piece[k]);
                k = k + 1;
            }
            proof {
                assert(piece@.take(piece@.len() as int) =~= piece@);
            }
            l
        };
        proof {
            assert(pieces_view(ps@)[i as int] == piece@);
        }
        r.push(line);
        i = i + 1;
    }
    proof {
        assert(pieces_view(r@) =~= lines_of(s@));
    }
    r
}

/// Labels and the ids of their nodes, a later entry winning.
struct NodeIds {
    entries: Vec<(Vec<char>, String)>,
}

/// The map of the entries, a later one replacing an earlier one.
spec fn ids_map(entries: Seq<(Seq<char>, Seq<char>)>) -> Map<Seq<char>, Seq<char>>
    decreases entries.len(),
{
    if entries.len() == 0 {
        Map::empty()
    } else {
        ids_map(entries.drop_last()).insert(entries.last().0, entries.last().1)
    }
}

impl NodeIds {
    spec fn entry_views(&self) -> Seq<(Seq<char>, Seq<char>)> {
        Seq::new(self.entries@.len(), |i: int| (self.entries@[i].0@, self.entries@[i].1@))
    }

    spec fn map(&self) -> Map<Seq<char>, Seq<char>> {
        ids_map(self.entry_views())
    }

    fn new() -> (r: NodeIds)
        ensures
            r.map() == Map::<Seq<char>, Seq<char>>::empty(),
    {
        let r = NodeIds { entries: Vec::new() };
        proof {
            assert(r.entry_views() =~= Seq::<(Seq<char>, Seq<char>)>::empty());
        }
        r
    }

    fn insert(&mut self, name: Vec<char>, id: String)
        ensures
            final(self).map() == old(self).map().insert(name@, id@),
    {
        let ghost old_views = self.entry_views();
        self.entries.push((name, id));
        proof {
            assert(self.entry_views().drop_last() =~= old_views);
        }
    }

    fn get(&self, name: &[char]) -> (r: Option<String>)
        ensures
            r is Some <==> self.map().contains_key(name@),
            r is Some ==> r->0@ == self.map()[name@],
    {
        let ghost views = self.entry_views();
        let mut i: usize = self.entries.len();
        proof {
            assert(views.take(i as int) =~= views);
        }
        while i > 0
            invariant
                i <= views.len(),
                views == self.entry_views(),
                views.len() == self.entries@.len(),
                ids_map(views).contains_key(name@) == ids_map(views.take(i as int)).contains_key(name@),
                ids_map(views.take(i as int)).contains_key(name@) ==> ids_map(views).index(name@)
                    == ids_map(views.take(i as int)).index(name@),
            decreases i,
        {
            proof {
                assert(views.take(i as int).drop_last() =~= views.take(i - 1));
                assert(views.take(i as int).last() == views[i - 1]);
            }
            if crate::compiler::labels::chars_equal(self.entries[i - 1].0.as_slice(), name) {
                return Some(self.entries[i - 1].1.clone());
            }
            i = i - 1;
        }
        proof {
            assert(views.take(0) =~= Seq::<(Seq<char>, Seq<char>)>::empty());
        }
        None
    }
}

/// Every block's label is in the map of labels.
proof fn lemma_label_ids_contains(parts: Seq<Seq<char>>, k: int)
    requires
        0 <= k < parts.len(),
    ensures
        label_ids(parts).contains_key(label_of(parts[k])),
    decreases parts.len(),
{
    if k < parts.len() - 1 {
        lemma_label_ids_contains(parts.drop_last(), k);
        assert(parts.drop_last()[k] == parts[k]);
    }
}

/// Every id in the map of labels is the id of one of the blocks.
proof fn lemma_label_id_index(parts: Seq<Seq<char>>, key: Seq<char>) -> (j: nat)
    requires
        label_ids(parts).contains_key(key),
    ensures
        j < parts.len(),
        label_ids(parts)[key] == node_id_spec(j),
    decreases parts.len(),
{
    if key == label_of(parts.last()) {
        (parts.len() - 1) as nat
    } else {
        lemma_label_id_index(parts.drop_last(), key)
    }
}

/// The flowchart of labelled blocks.
pub fn generate_graph_from_parts(parts: &[String]) -> (g: Graph)
    requires
        parts@.len() < usize::MAX,
        !blocks_panic(strings_view(parts@)),
    ensures
        g@ == graph_spec(strings_view(parts@)),
{
    let ghost pv = strings_view(parts@);
    let ghost gs = graph_spec(pv);
    let mut graph = Graph::new();
    let mut ids = NodeIds::new();
    let mut k: usize = 0;
    proof {
        assert(pv.take(0) =~= Seq::<Seq<char>>::empty());
    }
    while k < parts.len()
        invariant
            k <= parts@.len(),
            parts@.len() < usize::MAX,
            pv == strings_view(parts@),
            gs == graph_spec(pv),
            graph@.nodes =~= gs.nodes.take(k as int),
            graph@.current_id == k,
            graph@.connection.len() == 0,
            ids.map() == label_ids(pv.take(k as int)),
        decreases parts@.len() - k,
    {
        let (name, code) = get_label(parts[k].clone());
        let id = graph.add_node(name.as_str(), code.as_str());
        let name_chars = str_chars(name.as_str());
        ids.insert(name_chars, id);
        proof {
            assert(pv.take(k + 1).drop_last() =~= pv.take(k as int));
            assert(pv.take(k + 1).last() == pv[k as int]);
            assert(graph@.nodes =~= gs.nodes.take(k + 1));
        }
        k = k + 1;
    }
    proof {
        assert(pv.take(k as int) =~= pv);
        assert(graph@.connection =~= Seq::<(Seq<char>, Seq<char>)>::empty());
        assert(pv.take(0) =~= Seq::<Seq<char>>::empty());
    }
    let ghost ids_all = label_ids(pv);
    let count = graph.node_count();
    let mut k: usize = 0;
    while k < parts.len()
        invariant
            k <= parts@.len(),
            parts@.len() < usize::MAX,
            pv == strings_view(parts@),
            !blocks_panic(pv),
            gs == graph_spec(pv),
            count == pv.len(),
            graph@.nodes == gs.nodes,
            graph@.current_id == pv.len(),
            ids.map() == ids_all,
            ids_all == label_ids(pv),
            graph@.connection == all_edges(pv.take(k as int), ids_all, pv.len()),
        decreases parts@.len() - k,
    {
        let (name, code) = get_label(parts[k].clone());
        let name_chars = str_chars(name.as_str());
        proof {
            lemma_label_ids_contains(pv, k as int);
        }
        let from = match ids.get(name_chars.as_slice()) {
            Some(id) => id,
            None => String::new(),
        };
        let ghost fv = from@;
        let code_chars = str_chars(code.as_str());
        let lines = chars_lines(code_chars.as_slice());
        let ghost lv = pieces_view(lines@);
        let ghost before = graph@.connection;
        proof {
            assert(lv.take(0) =~= Seq::<Seq<char>>::empty());
            assert(pv[k as int] == code@);
        }
        let mut j: usize = 0;
        while j < lines.len()
            invariant
                j <= lines@.len(),
                lv == pieces_view(lines@),
                lv == lines_of(pv[k as int]),
                0 <= k < pv.len(),
                forall|jj: int| 0 <= jj < lv.len() ==> jump_target(#[trigger] lv[jj]) != Some(None::<Seq<char>>),
                ids.map() == ids_all,
                graph@.nodes == gs.nodes,
                graph@.current_id == pv.len(),
                fv == from@,
                graph@.connection == jump_edges(before, lv.take(j as int), ids_all, fv),
            decreases lines@.len() - j,
        {
            proof {
                assert(lv.take(j + 1).drop_last() =~= lv.take(j as int));
                assert(lv.take(j + 1).last() == lines@[j as int]@);
                assert(jump_target(lv[j as int]) != Some(None::<Seq<char>>));
            }
            match line_jump_target(lines[j].as_slice()) {
                Some(Some(target)) => {
                    match ids.get(target.as_slice()) {
                        Some(tid) => {
                            graph.connect_nodes(&from, &tid);
                        },
                        None => {},
                    }
                },
                _ => {},
            }
            j = j + 1;
        }
        proof {
            assert(lv.take(j as int) =~= lv);
            assert(lv.len() > 0);
        }
        let last = &lines[lines.len() - 1];
        proof {
            assert(['j', 'm', 'p']@ =~= seq!['j', 'm', 'p']);
            assert(['r', 'e', 't']@ =~= seq!['r', 'e', 't']);
        }
        if !(chars_start_with(last.as_slice(), &['j', 'm', 'p']) || chars_start_with(last.as_slice(), &['r', 'e', 't'])) {
            let ghost jdx = lemma_label_id_index(pv, label_of(pv[k as int]));
            proof {
                lemma_node_id_roundtrip(jdx);
            }
            let num = Graph::id_to_node(from.as_str());
            if num + 1 < graph.node_count() {
                let next = Graph::node_id(num + 1);
                graph.connect_nodes(&from, &next);
            }
        }
        proof {
            assert(pv.take(k + 1).drop_last() =~= pv.take(k as int));
            assert(pv.take(k + 1).last() == pv[k as int]);
        }
        k = k + 1;
    }
    proof {
        assert(pv.take(k as int) =~= pv);
        assert(graph@.nodes =~= gs.nodes);
    }
    graph
}

/// Whether the generator can handle these blocks.
fn blocks_readable(parts: &[String]) -> (r: bool)
    ensures
        r == !blocks_panic(strings_view(parts@)),
{
    let ghost pv = strings_view(parts@);
    let mut k: usize = 0;
    while k < parts.len()
        invariant
            k <= parts@.len(),
            pv == strings_view(parts@),
            forall|kk: int| 0 <= kk < k ==> lines_of(#[trigger] pv[kk]).len() > 0
                && forall|jj: int| 0 <= jj < lines_of(pv[kk]).len() ==> jump_target(#[trigger] lines_of(pv[kk])[jj]) != Some(None::<Seq<char>>),
        decreases parts@.len() - k,
    {
        let chars = str_chars(parts[k].as_str());
        let lines = chars_lines(chars.as_slice());
        proof {
            assert(pv[k as int] == chars@);
        }
        if lines.len() == 0 {
            return false;
        }
        let mut j: usize = 0;
        while j < lines.len()
            invariant
                j <= lines@.len(),
                pieces_view(lines@) == lines_of(pv[k as int]),
                pv == strings_view(parts@),
                0 <= k < pv.len(),
                forall|jj: int| 0 <= jj < j ==> jump_target(#[trigger] lines_of(pv[k as int])[jj]) != Some(None::<Seq<char>>),
            decreases lines@.len() - j,
        {
            proof {
                assert(pieces_view(lines@)[j as int] == lines@[j as int]@);
            }
            match line_jump_target(lines[j].as_slice()) {
                Some(None) => {
                    proof {
                        assert(jump_target(lines_of(pv[k as int])[j as int]) == Some(None::<Seq<char>>));
                        assert(blocks_panic(pv));
                    }
                    return false;
                },
                _ => {},
            }
            j = j + 1;
        }
        k = k + 1;
    }
    true
}

/// The flowchart of assembly code: its comments and blank lines removed,
/// cut into labelled blocks. `None` where the generator cannot read the
/// blocks (an empty block, or a jump without its operands).
pub fn generate_graph(code: String) -> (r: Option<Graph>)
    ensures
        ({
            let parts = chunks(encode_utf8(prep_code_spec(code@)), label_line_starts(prep_code_spec(code@)));
            &&& r is Some <==> (!blocks_panic(parts) && parts.len() < usize::MAX)
            &&& r is Some ==> r->0@ == graph_spec(parts)
        }),
{
    let prepared = prep_code(code);
    let parts = split_by_labels(prepared);
    if parts.len() == usize::MAX || !blocks_readable(parts.as_slice()) {
        return None;
    }
    Some(generate_graph_from_parts(parts.as_slice()))
}

/// The characters after the first space of `p + " " + rest`, where `p`
/// has no space, are `rest`.
proof fn lemma_after_first_space(p: Seq<char>, rest: Seq<char>)
    requires
        !p.contains(' '),
    ensures
        after_first(p + seq![' '] + rest, ' ') == Some(rest),
    decreases p.len(),
{
    let s = p + seq![' '] + rest;
    if p.len() == 0 {
        assert(s[0] == ' ');
        assert(s.drop_first() =~= rest);
    } else {
        assert(s[0] == p[0]);
        assert(p[0] != ' ') by {
            if p[0] == ' ' {
                assert(p.contains(' '));
            }
        }
        assert(!p.drop_first().contains(' ')) by {
            if p.drop_first().contains(' ') {
                let i = choose|i: int| 0 <= i < p.drop_first().len() && p.drop_first()[i] == ' ';
                assert(p[i + 1] == ' ');
            }
        }
        assert(s.drop_first() =~= p.drop_first() + seq![' '] + rest);
        lemma_after_first_space(p.drop_first(), rest);
    }
}

/// Which lines jump where: `jmp $L` and `call $L` go to `L`, and so do
/// `jz x $L` and `jnz x $L`, whose target follows one operand.
pub proof fn lemma_jump_lines(l: Seq<char>, x: Seq<char>)
    ensures
        jump_target(seq!['j', 'm', 'p', ' ', '$'] + l) == Some(Some(l)),
        jump_target(seq!['c', 'a', 'l', 'l', ' ', '$'] + l) == Some(Some(l)),
        !x.contains(' ') ==> jump_target(seq!['j', 'z', ' '] + x + seq![' ', '$'] + l) == Some(Some(l)),
        !x.contains(' ') ==> jump_target(seq!['j', 'n', 'z', ' '] + x + seq![' ', '$'] + l) == Some(Some(l)),
{
    let dl = seq!['$'] + l;
    let jmp = seq!['j', 'm', 'p', ' ', '$'] + l;
    assert(jmp =~= seq!['j', 'm', 'p'] + seq![' '] + dl);
    lemma_after_first_space(seq!['j', 'm', 'p'], dl);
    assert(jmp.take(3) =~= seq!['j', 'm', 'p']);
    assert(dl.drop_first() =~= l);
    let call = seq!['c', 'a', 'l', 'l', ' ', '$'] + l;
    assert(call =~= seq!['c', 'a', 'l', 'l'] + seq![' '] + dl);
    lemma_after_first_space(seq!['c', 'a', 'l', 'l'], dl);
    assert(call.take(4) =~= seq!['c', 'a', 'l', 'l']);
    assert(call.take(3) != seq!['j', 'm', 'p']) by {
        assert(call.take(3)[0] == 'c');
    }
    if !x.contains(' ') {
        let rest = x + seq![' '] + dl;
        lemma_after_first_space(x, dl);
        let jz = seq!['j', 'z', ' '] + x + seq![' ', '$'] + l;
        assert(jz =~= seq!['j', 'z'] + seq![' '] + rest);
        lemma_after_first_space(seq!['j', 'z'], rest);
        assert(jz.take(2) =~= seq!['j', 'z']);
        assert(jz.take(3) != seq!['j', 'm', 'p']) by {
            assert(jz.take(3)[1] == 'z');
        }
        assert(jz.take(4) != seq!['c', 'a', 'l', 'l']) by {
            assert(jz.take(4)[0] == 'j');
        }
        let jnz = seq!['j', 'n', 'z', ' '] + x + seq![' ', '$'] + l;
        assert(jnz =~= seq!['j', 'n', 'z'] + seq![' '] + rest);
        lemma_after_first_space(seq!['j', 'n', 'z'], rest);
        assert(jnz.take(3) =~= seq!['j', 'n', 'z']);
        assert(jnz.take(3) != seq!['j', 'm', 'p']) by {
            assert(jnz.take(3)[1] == 'n');
        }
        assert(jnz.take(4) != seq!['c', 'a', 'l', 'l']) by {
            assert(jnz.take(4)[0] == 'j');
        }
        assert(jnz.take(2) != seq!['j', 'z']) by {
            assert(jnz.take(2)[1] == 'n');
        }
    }
}

proof fn lemma_connect_contains(edges: Seq<(Seq<char>, Seq<char>)>, e: (Seq<char>, Seq<char>), x: (Seq<char>, Seq<char>))
    ensures
        connect(edges, e).contains(e),
        edges.contains(x) ==> connect(edges, e).contains(x),
{
    if !edges.contains(e) {
        assert(edges.push(e)[edges.len() as int] == e);
        if edges.contains(x) {
            let i = choose|i: int| 0 <= i < edges.len() && edges[i] == x;
            assert(edges.push(e)[i] == x);
        }
    }
}

proof fn lemma_jump_edges_keep(edges: Seq<(Seq<char>, Seq<char>)>, lines: Seq<Seq<char>>, ids: Map<Seq<char>, Seq<char>>, from: Seq<char>, x: (Seq<char>, Seq<char>))
    requires
        edges.contains(x),
    ensures
        jump_edges(edges, lines, ids, from).contains(x),
    decreases lines.len(),
{
    if lines.len() > 0 {
        lemma_jump_edges_keep(edges, lines.drop_last(), ids, from, x);
        let e = jump_edges(edges, lines.drop_last(), ids, from);
        match jump_target(lines.last()) {
            Some(Some(t)) => if ids.contains_key(t) {
                lemma_connect_contains(e, (from, ids[t]), x);
            },
            _ => {},
        }
    }
}

proof fn lemma_jump_edges_have(edges: Seq<(Seq<char>, Seq<char>)>, lines: Seq<Seq<char>>, ids: Map<Seq<char>, Seq<char>>, from: Seq<char>, j: int, t: Seq<char>)
    requires
        0 <= j < lines.len(),
        jump_target(lines[j]) == Some(Some(t)),
        ids.contains_key(t),
    ensures
        jump_edges(edges, lines, ids, from).contains((from, ids[t])),
    decreases lines.len(),
{
    let e = jump_edges(edges, lines.drop_last(), ids, from);
    if j == lines.len() - 1 {
        lemma_connect_contains(e, (from, ids[t]), (from, ids[t]));
    } else {
        assert(lines.drop_last()[j] == lines[j]);
        lemma_jump_edges_have(edges, lines.drop_last(), ids, from, j, t);
        match jump_target(lines.last()) {
            Some(Some(u)) => if ids.contains_key(u) {
                lemma_connect_contains(e, (from, ids[u]), (from, ids[t]));
            },
            _ => {},
        }
    }
}

proof fn lemma_block_edges_keep(edges: Seq<(Seq<char>, Seq<char>)>, part: Seq<char>, ids: Map<Seq<char>, Seq<char>>, count: nat, x: (Seq<char>, Seq<char>))
    requires
        jump_edges(edges, lines_of(part), ids, ids[label_of(part)]).contains(x),
    ensures
        block_edges(edges, part, ids, count).contains(x),
{
    let from = ids[label_of(part)];
    let e = jump_edges(edges, lines_of(part), ids, from);
    let num = id_value(from) - 1;
    lemma_connect_contains(e, (from, node_id_spec((num + 1) as nat)), x);
}

proof fn lemma_all_edges_contain(parts: Seq<Seq<char>>, ids: Map<Seq<char>, Seq<char>>, count: nat, k: int, x: (Seq<char>, Seq<char>))
    requires
        0 <= k < parts.len(),
        block_edges(all_edges(parts.take(k), ids, count), parts[k], ids, count).contains(x),
    ensures
        all_edges(parts, ids, count).contains(x),
    decreases parts.len(),
{
    if k == parts.len() - 1 {
        assert(parts.take(k) =~= parts.drop_last());
    } else {
        let d = parts.drop_last();
        assert(d.take(k) =~= parts.take(k));
        assert(d[k] == parts[k]);
        lemma_all_edges_contain(d, ids, count, k, x);
        let e = all_edges(d, ids, count);
        let part = parts.last();
        lemma_jump_edges_keep(e, lines_of(part), ids, ids[label_of(part)], x);
        lemma_block_edges_keep(e, part, ids, count, x);
    }
}

/// A jump or a call to a label draws an arrow: where a line of block `k`
/// is `jmp $L`, `call $L`, `jz x $L` or `jnz x $L` and some block is
/// labelled `L`, the flowchart has an arrow from the node of block `k`'s
/// label to the node of `L`.
pub proof fn lemma_jump_draws_arrow(parts: Seq<Seq<char>>, k: int, j: int, l: Seq<char>, x: Seq<char>)
    requires
        0 <= k < parts.len(),
        0 <= j < lines_of(parts[k]).len(),
        ({
            let line = lines_of(parts[k])[j];
            ||| line == seq!['j', 'm', 'p', ' ', '$'] + l
            ||| line == seq!['c', 'a', 'l', 'l', ' ', '$'] + l
            ||| !x.contains(' ') && line == seq!['j', 'z', ' '] + x + seq![' ', '$'] + l
            ||| !x.contains(' ') && line == seq!['j', 'n', 'z', ' '] + x + seq![' ', '$'] + l
        }),
        label_ids(parts).contains_key(l),
    ensures
        graph_spec(parts).connection.contains((label_ids(parts)[label_of(parts[k])], label_ids(parts)[l])),
{
    let ids = label_ids(parts);
    let count = parts.len();
    lemma_jump_lines(l, x);
    let part = parts[k];
    let from = ids[label_of(part)];
    let before = all_edges(parts.take(k), ids, count);
    lemma_jump_edges_have(before, lines_of(part), ids, from, j, l);
    lemma_block_edges_keep(before, part, ids, count, (from, ids[l]));
    lemma_all_edges_contain(parts, ids, count, k, (from, ids[l]));
}

/// The node of a block's label is the block's own node when no later
/// block has the same label.
proof fn lemma_label_id_of_block(parts: Seq<Seq<char>>, k: int)
    requires
        0 <= k < parts.len(),
        forall|j: int| k < j < parts.len() ==> label_of(#[trigger] parts[j]) != label_of(parts[k]),
    ensures
        label_ids(parts).contains_key(label_of(parts[k])),
        label_ids(parts)[label_of(parts[k])] == node_id_spec(k as nat),
    decreases parts.len(),
{
    if k < parts.len() - 1 {
        let d = parts.drop_last();
        assert forall|j: int| k < j < d.len() implies label_of(#[trigger] d[j]) != label_of(d[k]) by {
            assert(d[j] == parts[j]);
        }
        assert(label_of(parts.last()) != label_of(parts[k])) by {
            assert(parts.last() == parts[parts.len() - 1]);
        }
        lemma_label_id_of_block(d, k);
        assert(d[k] == parts[k]);
    }
}

/// A block falls through to the next one: where block `k` is not the last,
/// its last line does not start with `jmp` or `ret` and no later block
/// has its label, the flowchart has an arrow from block `k`'s node to the
/// node of block `k + 1`.
pub proof fn lemma_block_falls_through(parts: Seq<Seq<char>>, k: int)
    requires
        0 <= k < parts.len() - 1,
        forall|j: int| k < j < parts.len() ==> label_of(#[trigger] parts[j]) != label_of(parts[k]),
        !starts_with(lines_of(parts[k]).last(), seq!['j', 'm', 'p']),
        !starts_with(lines_of(parts[k]).last(), seq!['r', 'e', 't']),
    ensures
        graph_spec(parts).connection.contains((node_id_spec(k as nat), node_id_spec((k + 1) as nat))),
{
    let ids = label_ids(parts);
    let count = parts.len();
    let part = parts[k];
    lemma_label_id_of_block(parts, k);
    lemma_node_id_roundtrip(k as nat);
    let from = ids[label_of(part)];
    assert(from == node_id_spec(k as nat));
    let before = all_edges(parts.take(k), ids, count);
    let e = jump_edges(before, lines_of(part), ids, from);
    let x = (from, node_id_spec((k + 1) as nat));
    lemma_connect_contains(e, x, x);
    assert(block_edges(before, part, ids, count).contains(x));
    lemma_all_edges_contain(parts, ids, count, k, x);
}

} // verus!
