use vstd::prelude::*;
use vstd::utf8::encode_utf8;
use crate::shared::text::{str_chars, chars_to_string};
use crate::shared::trim::{trim, trim_chars, trim_start, trim_end, is_whitespace};
use crate::shared::format::{dec, lemma_dec_reads_back};
use crate::shared::split::{split_on, split_chars, pieces_view, parse_unsigned, parse_unsigned_chars, after_plus, all_decimal, is_decimal_digit};
use crate::flowchart::graph::{extend_chars, push_str};
use crate::flowchart::generator::{before_first, chars_before};

verus! {

/// A span of text in a document: start and end line and character.
#[derive(PartialEq, Eq, Structural, Clone, Copy, Debug)]
pub struct TextRange {
    pub start_line: u32,
    pub start_character: u32,
    pub end_line: u32,
    pub end_character: u32,
}

/// The word under the cursor and where it stands, or an error when the
/// cursor is past the last word.
pub struct HoveredToken {
    pub token: String,
    pub range: TextRange,
    pub is_errored: bool,
}

/// Whether the text, trimmed, is an unsigned 64-bit number.
pub open spec fn is_numeric_spec(s: Seq<char>) -> bool {
    parse_unsigned(trim(s), u64::MAX as nat) is Some
}

/// Whether `s`, trimmed, reads as an unsigned 64-bit number.
pub fn is_numeric(s: &str) -> (r: bool)
    ensures
        r == is_numeric_spec(s@),
{
    let chars = str_chars(s);
    let t = trim_chars(chars.as_slice());
    parse_unsigned_chars(t.as_slice(), u64::MAX).is_some()
}

/// The word at character `col` among the words (split at spaces) of a
/// line, counting `curr` characters before them: the word and where it
/// starts. Positions count UTF-8 bytes.
pub open spec fn hovered_word(words: Seq<Seq<char>>, curr: nat, col: nat) -> Option<(Seq<char>, nat)>
    decreases words.len(),
{
    if words.len() == 0 {
        None
    } else {
        let len = encode_utf8(words[0]).len();
        if curr <= col && col <= curr + len {
            Some((words[0], curr))
        } else {
            hovered_word(words.drop_first(), curr + len + 1, col)
        }
    }
}

/// The UTF-8 length of a piece of text.
fn utf8_len(s: &[char]) -> (r: usize)
    ensures
        r == encode_utf8(s@).len(),
{
    let text = chars_to_string(s);
    text.as_str().as_bytes().len()
}

/// The word under the cursor at character `col` of a line (split at
/// spaces), with its range on line `line_num`.
pub fn get_hovered_token(line: String, line_num: u32, col: u32) -> (r: HoveredToken)
    requires
        encode_utf8(line@).len() < u32::MAX,
    ensures
        (match hovered_word(split_on(line@, ' '), 0, col as nat) {
            Some((w, start)) => !r.is_errored && r.token@ == w && r.range == (TextRange {
                start_line: line_num,
                start_character: start as u32,
                end_line: line_num,
                end_character: (start + encode_utf8(w).len()) as u32,
            }),
            None => r.is_errored && r.token@.len() == 0 && r.range == (TextRange {
                start_line: 0,
                start_character: 0,
                end_line: 0,
                end_character: 0,
            }),
        }),
        !r.is_errored ==> r.range.end_character <= encode_utf8(line@).len(),
        !r.is_errored ==> r.range.start_character <= r.range.end_character,
{
    let chars = str_chars(line.as_str());
    let words = split_chars(chars.as_slice(), ' ');
    let ghost wv = pieces_view(words@);
    let mut curr: u32 = 0;
    let mut i: usize = 0;
    proof {
        assert(wv.skip(0) =~= wv);
        lemma_words_fit(chars@);
    }
    while i < words.len()
        invariant
            i <= words@.len(),
            wv == pieces_view(words@),
            wv == split_on(line@, ' '),
            hovered_word(wv, 0, col as nat) == hovered_word(wv.skip(i as int), curr as nat, col as nat),
            curr + words_len(wv.skip(i as int)) <= encode_utf8(line@).len() + 1,
            encode_utf8(line@).len() < u32::MAX,
        decreases words@.len() - i,
    {
        let len = utf8_len(words[i].as_slice());
        proof {
            assert(wv.skip(i as int)[0] == words@[i as int]@);
            assert(wv.skip(i as int).drop_first() =~= wv.skip(i + 1));
        }
        if curr <= col && col <= curr + len as u32 {
            let token = chars_to_string(words[i].as_slice());
            return HoveredToken {
                token,
                range: TextRange {
                    start_line: line_num,
                    start_character: curr,
                    end_line: line_num,
                    end_character: curr + len as u32,
                },
                is_errored: false,
            };
        }
        curr = curr + len as u32 + 1;
        i = i + 1;
    }
    proof {
        assert(wv.skip(i as int) =~= Seq::<Seq<char>>::empty());
    }
    HoveredToken {
        token: String::new(),
        range: TextRange { start_line: 0, start_character: 0, end_line: 0, end_character: 0 },
        is_errored: true,
    }
}

/// The room the words of a line take: each word and a space after it.
pub open spec fn words_len(words: Seq<Seq<char>>) -> nat
    decreases words.len(),
{
    if words.len() == 0 {
        0
    } else {
        encode_utf8(words[0]).len() + 1 + words_len(words.drop_first())
    }
}

/// The UTF-8 bytes of two texts one after the other.
pub proof fn lemma_encode_utf8_concat(a: Seq<char>, b: Seq<char>)
    ensures
        encode_utf8(a + b) == encode_utf8(a) + encode_utf8(b),
    decreases a.len(),
{
    if a.len() > 0 {
        lemma_encode_utf8_concat(a.drop_first(), b);
        assert((a + b).drop_first() =~= a.drop_first() + b);
        assert((a + b)[0] == a[0]);
        assert(encode_utf8(a + b) =~= encode_utf8(a) + encode_utf8(b));
    } else {
        assert(a + b =~= b);
        assert(encode_utf8(a) =~= Seq::<u8>::empty());
        assert(encode_utf8(a) + encode_utf8(b) =~= encode_utf8(b));
    }
}

/// Adding a word at the end adds its room.
proof fn lemma_words_len_push(a: Seq<Seq<char>>, x: Seq<char>)
    ensures
        words_len(a.push(x)) == words_len(a) + encode_utf8(x).len() + 1,
    decreases a.len(),
{
    if a.len() > 0 {
        assert(a.push(x).drop_first() =~= a.drop_first().push(x));
        assert(a.push(x)[0] == a[0]);
        lemma_words_len_push(a.drop_first(), x);
        assert(words_len(a.push(x)) == encode_utf8(a[0]).len() + 1 + words_len(a.drop_first().push(x)));
    } else {
        assert(a.push(x).drop_first() =~= Seq::<Seq<char>>::empty());
        assert(a.push(x)[0] == x);
        assert(words_len(Seq::<Seq<char>>::empty()) == 0);
    }
}

/// While splitting at spaces, the finished words with their spaces and the
/// word being read take the bytes read so far.
proof fn lemma_split_acc_room(s: Seq<char>)
    ensures
        words_len(crate::shared::split::split_acc(s, ' ').0) + encode_utf8(crate::shared::split::split_acc(s, ' ').1).len()
            == encode_utf8(s).len(),
    decreases s.len(),
{
    if s.len() > 0 {
        let d = s.drop_last();
        lemma_split_acc_room(d);
        let (done, cur) = crate::shared::split::split_acc(d, ' ');
        let c = s.last();
        assert(d + seq![c] =~= s);
        lemma_encode_utf8_concat(d, seq![c]);
        if c == ' ' {
            lemma_words_len_push(done, cur);
            assert(seq![c].drop_first() =~= Seq::<char>::empty());
            assert((c as u32) == 32);
            assert(encode_utf8(seq![c]) == vstd::utf8::encode_scalar(c as u32) + encode_utf8(Seq::<char>::empty()));
            assert(encode_utf8(seq![c]).len() == 1);
            assert(encode_utf8(Seq::<char>::empty()).len() == 0);
        } else {
            assert(cur + seq![c] =~= cur.push(c));
            lemma_encode_utf8_concat(cur, seq![c]);
        }
    } else {
        assert(encode_utf8(s).len() == 0);
        assert(encode_utf8(Seq::<char>::empty()).len() == 0);
    }
}

/// The words of a line and the spaces between them take as many bytes as
/// the line, plus one.
proof fn lemma_words_fit(s: Seq<char>)
    ensures
        words_len(split_on(s, ' ')) == encode_utf8(s).len() + 1,
{
    lemma_split_acc_room(s);
    let (done, cur) = crate::shared::split::split_acc(s, ' ');
    lemma_words_len_push(done, cur);
}

/// Moves each end of a range by the given number of lines and characters.
pub fn update_range(init: TextRange, line_start_delta: i32, char_start_delta: i32, line_end_delta: i32, char_end_delta: i32) -> (r: TextRange)
    requires
        i32::MIN <= (init.start_line as i32) + line_start_delta <= i32::MAX,
        i32::MIN <= (init.start_character as i32) + char_start_delta <= i32::MAX,
        i32::MIN <= (init.end_line as i32) + line_end_delta <= i32::MAX,
        i32::MIN <= (init.end_character as i32) + char_end_delta <= i32::MAX,
    ensures
        r.start_line == ((init.start_line as i32) + line_start_delta) as u32,
        r.start_character == ((init.start_character as i32) + char_start_delta) as u32,
        r.end_line == ((init.end_line as i32) + line_end_delta) as u32,
        r.end_character == ((init.end_character as i32) + char_end_delta) as u32,
        line_start_delta == 0 ==> r.start_line == init.start_line,
        char_start_delta == 0 ==> r.start_character == init.start_character,
        line_end_delta == 0 ==> r.end_line == init.end_line,
        char_end_delta == 0 ==> r.end_character == init.end_character,
{
    proof {
        assert(forall|x: u32| #[trigger] (((x as i32) + 0i32) as u32) == x) by (bit_vector);
    }
    TextRange {
        start_line: (init.start_line as i32 + line_start_delta) as u32,
        start_character: (init.start_character as i32 + char_start_delta) as u32,
        end_line: (init.end_line as i32 + line_end_delta) as u32,
        end_character: (init.end_character as i32 + char_end_delta) as u32,
    }
}

/// The documentation shown for an instruction, where there is one.
pub open spec fn opcode_docs_spec(token: Seq<char>) -> Option<Seq<char>> {
    if token == seq!['m', 'o', 'v'] {
        Some("### Mov\n\nMove data between same-size containers. First operand is the source, second - destination. If you need transfer something between different sizes - you probably need to use `trunc` or `ext`\n\n**Operands:**\n- `Immediate`, `Address`\n- `LongImmediate`, `Address`\n- `LongerImmediate`, `Address`\n- `Register`, `Address`\n- `LongRegister`, `Address`\n- `Immediate`, `IndirectAddress`\n- `LongImmediate`, `IndirectAddress`\n- `LongerImmediate`, `IndirectAddress`\n- `Register`, `IndirectAddress`\n- `LongRegister`, `IndirectAddress`\n- `Address`, `Register`\n- `Address`, `LongRegister`\n- `IndirectAddress`, `Register`\n- `IndirectAddress`, `LongRegister`\n- `Register`, `Register`\n- `LongImmediate`, `LongRegister`\n- `LongRegister`, `LongRegister`\n- `Immediate`, `Register`"@)
    } else if token == seq!['s', 'u', 'b'] {
        Some("### Sub\n\nSubtract two numbers of the same size and stores result in a register. For 8-bit values it's `!A`, for 64-bit - `?LL1`. If underflow occurred, `!Z` is set to `1`, otherwise it's set to `0`\n\n**Operands:**\n- `Immediate`, `Immediate`\n- `LongImmediate`, `LongImmediate`\n- `Register`, `Register`\n- `LongRegister`, `LongRegister`\n- `Immediate`, `Register`\n- `Register`, `Immediate`\n- `LongRegister`, `LongImmediate`\n- `LongImmediate`, `LongRegister`"@)
    } else if token == seq!['t', 'r', 'u', 'n', 'c'] {
        Some("### Trunc\n\nMove data from higher-size container to the lower-size. Only lower bytes is gonna be saved (Big-endian), everything else is gonna be **trunc**ated. Usually used to move 64-bit register to 8-bit one\n\n**Operands:**\n- `LongImmediate`, `Register`\n- `LongerImmediate`, `Register`\n- `LongRegister`, `Register`\n- `LongerImmediate`, `LongRegister`"@)
    } else {
        None
    }
}

/// The documentation of an instruction, where there is one.
pub fn get_opcode_docs(opcode: &str) -> (r: Option<&'static str>)
    ensures
        (match opcode_docs_spec(opcode@) {
            Some(d) => r is Some && r->0@ == d,
            None => r is None,
        }),
{
    let t = str_chars(opcode);
    proof {
        assert(['m', 'o', 'v']@ =~= seq!['m', 'o', 'v']);
        assert(['s', 'u', 'b']@ =~= seq!['s', 'u', 'b']);
        assert(['t', 'r', 'u', 'n', 'c']@ =~= seq!['t', 'r', 'u', 'n', 'c']);
    }
    if crate::compiler::labels::chars_equal(t.as_slice(), &['m', 'o', 'v']) {
        Some("### Mov\n\nMove data between same-size containers. First operand is the source, second - destination. If you need transfer something between different sizes - you probably need to use `trunc` or `ext`\n\n**Operands:**\n- `Immediate`, `Address`\n- `LongImmediate`, `Address`\n- `LongerImmediate`, `Address`\n- `Register`, `Address`\n- `LongRegister`, `Address`\n- `Immediate`, `IndirectAddress`\n- `LongImmediate`, `IndirectAddress`\n- `LongerImmediate`, `IndirectAddress`\n- `Register`, `IndirectAddress`\n- `LongRegister`, `IndirectAddress`\n- `Address`, `Register`\n- `Address`, `LongRegister`\n- `IndirectAddress`, `Register`\n- `IndirectAddress`, `LongRegister`\n- `Register`, `Register`\n- `LongImmediate`, `LongRegister`\n- `LongRegister`, `LongRegister`\n- `Immediate`, `Register`")
    } else if crate::compiler::labels::chars_equal(t.as_slice(), &['s', 'u', 'b']) {
        Some("### Sub\n\nSubtract two numbers of the same size and stores result in a register. For 8-bit values it's `!A`, for 64-bit - `?LL1`. If underflow occurred, `!Z` is set to `1`, otherwise it's set to `0`\n\n**Operands:**\n- `Immediate`, `Immediate`\n- `LongImmediate`, `LongImmediate`\n- `Register`, `Register`\n- `LongRegister`, `LongRegister`\n- `Immediate`, `Register`\n- `Register`, `Immediate`\n- `LongRegister`, `LongImmediate`\n- `LongImmediate`, `LongRegister`")
    } else if crate::compiler::labels::chars_equal(t.as_slice(), &['t', 'r', 'u', 'n', 'c']) {
        Some("### Trunc\n\nMove data from higher-size container to the lower-size. Only lower bytes is gonna be saved (Big-endian), everything else is gonna be **trunc**ated. Usually used to move 64-bit register to 8-bit one\n\n**Operands:**\n- `LongImmediate`, `Register`\n- `LongerImmediate`, `Register`\n- `LongRegister`, `Register`\n- `LongerImmediate`, `LongRegister`")
    } else {
        None
    }
}

/// The line a hover at line `line_num` reads: that line of the text, or its
/// last line if it has fewer, without any comment.
pub open spec fn hover_line(text: Seq<char>, line_num: u32) -> Seq<char> {
    let lines = split_on(text, '\n');
    let line = if line_num < lines.len() { lines[line_num as int] } else { lines.last() };
    before_first(line, ';')
}

/// The text shown for a hovered word before a label's colon is dropped: an
/// instruction's documentation, or the kind of a number, or the word itself.
pub open spec fn hover_heading(token: Seq<char>) -> Seq<char> {
    let t1 = match opcode_docs_spec(token) {
        Some(d) => d,
        None => token,
    };
    let t2 = if is_numeric_spec(t1) { "### "@ + t1 + "\n`Immediate`"@ } else { t1 };
    let t3 = if t2.len() > 0 && t2[0] == '&' && is_numeric_spec(t2.drop_first()) {
        "### "@ + t2 + "\n`LongImmediate`"@
    } else {
        t2
    };
    if t3.len() > 0 && t3[0] == '^' && is_numeric_spec(t3.drop_first()) {
        "### "@ + t3 + "\n`LongerImmediate`"@
    } else {
        t3
    }
}

/// Whether a text ends with a colon (a label).
pub open spec fn ends_with_colon(t: Seq<char>) -> bool {
    t.len() > 0 && t.last() == ':'
}

/// The text shown for a hovered word: an instruction's documentation, or
/// the kind of a number, or a label without its colon.
pub open spec fn hover_contents(token: Seq<char>) -> Seq<char> {
    let t = hover_heading(token);
    if ends_with_colon(t) {
        t.drop_last()
    } else {
        t
    }
}

/// What hovering at character `col` of line `line_num` shows: the text
/// and the range it covers, or nothing on an empty line or past the last
/// word. A label's range leaves out its colon.
pub open spec fn hover_spec(text: Seq<char>, line_num: u32, col: u32) -> Option<(Seq<char>, TextRange)> {
    let line = hover_line(text, line_num);
    if line.len() == 0 {
        None
    } else {
        match hovered_word(split_on(line, ' '), 0, col as nat) {
            None => None,
            Some((w, start)) => {
                let end = start + encode_utf8(w).len();
                let range = TextRange {
                    start_line: line_num,
                    start_character: start as u32,
                    end_line: line_num,
                    end_character: if ends_with_colon(hover_heading(w)) {
                        ((end as u32) as i32 - 1) as u32
                    } else {
                        end as u32
                    },
                };
                Some((hover_contents(w), range))
            },
        }
    }
}

/// Whether the characters, trimmed, read as an unsigned 64-bit number.
fn is_numeric_chars(s: &[char]) -> (r: bool)
    ensures
        r == is_numeric_spec(s@),
{
    let t = trim_chars(s);
    parse_unsigned_chars(t.as_slice(), u64::MAX).is_some()
}

/// `### `, the text, a newline and a kind in backquotes.
fn heading(t: &[char], kind: &str) -> (r: Vec<char>)
    ensures
        r@ == "### "@ + t@ + kind@,
{
    let mut out: Vec<char> = Vec::new();
    push_str(&mut out, "### ");
    extend_chars(&mut out, t);
    push_str(&mut out, kind);
    out
}

/// What hovering at character `col` of line `line_num` of `text` shows.
#[verifier::rlimit(60)]
pub fn hover_text(text: &str, line_num: u32, col: u32) -> (r: Option<(String, TextRange)>)
    requires
        encode_utf8(hover_line(text@, line_num)).len() < i32::MAX,
    ensures
        (match hover_spec(text@, line_num, col) {
            Some((c, range)) => r matches Some((s, rg)) && s@ == c && rg == range,
            None => r is None,
        }),
{
    let chars = str_chars(text);
    let lines = split_chars(chars.as_slice(), '\n');
    let idx: usize = if (line_num as usize) < lines.len() { line_num as usize } else { lines.len() - 1 };
    proof {
        assert(pieces_view(lines@)[idx as int] == lines@[idx as int]@);
    }
    let line = chars_before(lines[idx].as_slice(), ';');
    if line.len() == 0 {
        return None;
    }
    let output = get_hovered_token(chars_to_string(line.as_slice()), line_num, col);
    if output.is_errored {
        return None;
    }
    let token = str_chars(output.token.as_str());
    let mut range = output.range;
    let t1: Vec<char> = match get_opcode_docs(output.token.as_str()) {
        Some(d) => str_chars(d),
        None => token,
    };
    let t2 = if is_numeric_chars(t1.as_slice()) { heading(t1.as_slice(), "\n`Immediate`") } else { t1 };
    let t3 = if t2.len() > 0 && t2[0] == '&' && is_numeric_chars(crate::compiler::numbers::chars_skip(t2.as_slice(), 1).as_slice()) {
        heading(t2.as_slice(), "\n`LongImmediate`")
    } else {
        t2
    };
    let t4 = if t3.len() > 0 && t3[0] == '^' && is_numeric_chars(crate::compiler::numbers::chars_skip(t3.as_slice(), 1).as_slice()) {
        heading(t3.as_slice(), "\n`LongerImmediate`")
    } else {
        t3
    };
    proof {
        assert(t2@.skip(1) =~= t2@.drop_first());
        assert(t3@.skip(1) =~= t3@.drop_first());
        assert(t4@ == hover_heading(output.token@));
    }
    if t4.len() > 0 && t4[t4.len() - 1] == ':' {
        let mut t5: Vec<char> = Vec::new();
        let mut i: usize = 0;
        while i < t4.len() - 1
            invariant
                t4@.len() > 0,
                i <= t4@.len() - 1,
                t5@ =~= t4@.take(i as int),
            decreases t4@.len() - 1 - i,
        {
            t5.push(t4[i]);
            i = i + 1;
        }
        proof {
            assert(t4@.take(t4@.len() - 1) =~= t4@.drop_last());
        }
        range = update_range(range, 0, 0, 0, -1);
        return Some((chars_to_string(t5.as_slice()), range));
    }
    Some((chars_to_string(t4.as_slice()), range))
}

/// A number in decimal, trimmed, reads as a 64-bit number.
proof fn lemma_dec_is_numeric(v: u64)
    ensures
        is_numeric_spec(dec(v)),
        is_decimal_digit(dec(v)[0]),
{
    lemma_dec_reads_back(v);
    let d = dec(v);
    assert(is_decimal_digit(d[0]));
    assert(is_decimal_digit(d[d.len() - 1]));
    assert(trim_start(d) == d);
    assert(trim_end(d) == d);
    assert(after_plus(d) == d);
}

/// A number in decimal after a character that is neither a digit, nor a
/// sign, nor white space does not read as a number.
proof fn lemma_prefixed_not_numeric(c: char, v: u64)
    requires
        !is_decimal_digit(c),
        !is_whitespace(c),
        c != '+',
    ensures
        !is_numeric_spec(seq![c] + dec(v)),
        (seq![c] + dec(v)).drop_first() == dec(v),
{
    lemma_dec_reads_back(v);
    let d = dec(v);
    let t = seq![c] + d;
    assert(t.drop_first() =~= d);
    assert(t[0] == c);
    assert(t.last() == d[d.len() - 1]);
    assert(is_decimal_digit(d[d.len() - 1]));
    assert(trim_start(t) == t);
    assert(trim_end(t) == t);
    assert(after_plus(t) == t);
    assert(!all_decimal(t)) by {
        assert(!is_decimal_digit(t[0]));
    }
}

/// Hovering a number names the kind of immediate it is written as: a bare
/// number is an `Immediate`, one after `&` a `LongImmediate` and one after
/// `^` a `LongerImmediate`.
pub proof fn lemma_hover_number_kinds(v: u64)
    ensures
        hover_contents(dec(v)) == "### "@ + dec(v) + "\n`Immediate`"@,
        hover_contents(seq!['&'] + dec(v)) == "### "@ + (seq!['&'] + dec(v)) + "\n`LongImmediate`"@,
        hover_contents(seq!['^'] + dec(v)) == "### "@ + (seq!['^'] + dec(v)) + "\n`LongerImmediate`"@,
{
    reveal_strlit("### ");
    reveal_strlit("\n`Immediate`");
    reveal_strlit("\n`LongImmediate`");
    reveal_strlit("\n`LongerImmediate`");
    lemma_dec_is_numeric(v);
    lemma_prefixed_not_numeric('&', v);
    lemma_prefixed_not_numeric('^', v);
    let d = dec(v);
    let amp = seq!['&'] + d;
    let hat = seq!['^'] + d;
    assert(opcode_docs_spec(d) is None) by {
        assert(d != seq!['m', 'o', 'v'] && d != seq!['s', 'u', 'b'] && d != seq!['t', 'r', 'u', 'n', 'c']) by {
            assert(is_decimal_digit(d[0]));
            if d == seq!['m', 'o', 'v'] || d == seq!['s', 'u', 'b'] || d == seq!['t', 'r', 'u', 'n', 'c'] {
                assert(!is_decimal_digit(d[0]));
            }
        }
    }
    assert(amp[0] == '&' && hat[0] == '^');
    assert(opcode_docs_spec(amp) is None) by {
        if amp == seq!['m', 'o', 'v'] || amp == seq!['s', 'u', 'b'] || amp == seq!['t', 'r', 'u', 'n', 'c'] {
            assert(amp[0] != '&');
        }
    }
    assert(opcode_docs_spec(hat) is None) by {
        if hat == seq!['m', 'o', 'v'] || hat == seq!['s', 'u', 'b'] || hat == seq!['t', 'r', 'u', 'n', 'c'] {
            assert(hat[0] != '^');
        }
    }
    let h1 = "### "@ + d + "\n`Immediate`"@;
    assert(h1[0] == '#');
    assert(h1.last() == '`');
    let h2 = "### "@ + amp + "\n`LongImmediate`"@;
    assert(h2[0] == '#');
    assert(h2.last() == '`');
    let h3 = "### "@ + hat + "\n`LongerImmediate`"@;
    assert(h3.last() == '`');
}

} // verus!
