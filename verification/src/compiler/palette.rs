use vstd::prelude::*;
use crate::shared::split::{split_on, split_acc, split_chars, pieces_view, parse_unsigned, parse_unsigned_chars, after_plus, is_decimal_digit};
use crate::shared::text::{str_chars, chars_to_string, extend_bytes};
use crate::compiler::labels::chars_equal;

verus! {

/// Why a JASC palette file cannot be converted.
pub enum PaletteError {
    /// Fewer than three lines.
    TooFewLines,
    /// The first line is not `JASC-PAL`.
    InvalidHeader,
    /// The color count (third line) is not a number up to 255.
    TooManyColors,
    /// The color count is zero.
    NoColors,
    /// A color line does not hold four numbers.
    InvalidLine(String),
    /// A channel of a color line is not a number up to 255.
    InvalidChannel(String),
}

pub enum PaletteErrorView {
    TooFewLines,
    InvalidHeader,
    TooManyColors,
    NoColors,
    InvalidLine(Seq<char>),
    InvalidChannel(Seq<char>),
}

impl View for PaletteError {
    type V = PaletteErrorView;

    open spec fn view(&self) -> PaletteErrorView {
        match self {
            PaletteError::TooFewLines => PaletteErrorView::TooFewLines,
            PaletteError::InvalidHeader => PaletteErrorView::InvalidHeader,
            PaletteError::TooManyColors => PaletteErrorView::TooManyColors,
            PaletteError::NoColors => PaletteErrorView::NoColors,
            PaletteError::InvalidLine(s) => PaletteErrorView::InvalidLine(s@),
            PaletteError::InvalidChannel(s) => PaletteErrorView::InvalidChannel(s@),
        }
    }
}

/// A converted palette: four bytes (RGBA) per color, the first color
/// always transparent.
pub struct Palette {
    pub colors: Vec<u8>,
    /// Whether the file's first color differs from `0 0 0 0` (it is
    /// replaced by transparent black all the same).
    pub first_color_replaced: bool,
}

pub open spec fn jasc_header() -> Seq<char> {
    seq!['J', 'A', 'S', 'C', '-', 'P', 'A', 'L']
}

pub open spec fn transparent_entry() -> Seq<char> {
    seq!['0', ' ', '0', ' ', '0', ' ', '0']
}

/// The four channels of a color line.
pub open spec fn color_line_bytes(line: Seq<char>) -> Result<Seq<u8>, PaletteErrorView> {
    let nums = split_on(line, ' ');
    if nums.len() != 4 {
        Err(PaletteErrorView::InvalidLine(line))
    } else if parse_unsigned(nums[0], 255) is None || parse_unsigned(nums[1], 255) is None
        || parse_unsigned(nums[2], 255) is None || parse_unsigned(nums[3], 255) is None {
        Err(PaletteErrorView::InvalidChannel(line))
    } else {
        Ok(seq![
            parse_unsigned(nums[0], 255)->0 as u8,
            parse_unsigned(nums[1], 255)->0 as u8,
            parse_unsigned(nums[2], 255)->0 as u8,
            parse_unsigned(nums[3], 255)->0 as u8,
        ])
    }
}

/// The colors of the color lines, in order; empty lines are skipped.
pub open spec fn colors_of_lines(lines: Seq<Seq<char>>) -> Result<Seq<u8>, PaletteErrorView>
    decreases lines.len(),
{
    if lines.len() == 0 {
        Ok(Seq::empty())
    } else {
        match colors_of_lines(lines.drop_last()) {
            Err(e) => Err(e),
            Ok(out) => if lines.last().len() == 0 {
                Ok(out)
            } else {
                match color_line_bytes(lines.last()) {
                    Err(e) => Err(e),
                    Ok(b) => Ok(out + b),
                }
            },
        }
    }
}

/// A JASC palette: the header `JASC-PAL`, a version line, the number of
/// colors (1 to 255, not otherwise used), then one `R G B A` line per
/// color. The first color line is replaced by transparent black.
pub open spec fn palette_spec(text: Seq<char>) -> Result<Seq<u8>, PaletteErrorView> {
    let lines = split_on(text, '\n');
    if lines.len() < 3 {
        Err(PaletteErrorView::TooFewLines)
    } else if lines[0] != jasc_header() {
        Err(PaletteErrorView::InvalidHeader)
    } else {
        match parse_unsigned(lines[2], 255) {
            None => Err(PaletteErrorView::TooManyColors),
            Some(n) => if n == 0 {
                Err(PaletteErrorView::NoColors)
            } else {
                match colors_of_lines(lines.skip(4)) {
                    Err(e) => Err(e),
                    Ok(c) => Ok(seq![0u8, 0u8, 0u8, 0u8] + c),
                }
            },
        }
    }
}

/// A well-formed header with a valid color count but no fourth line: the
/// converter reads the (missing) first color line and panics.
pub open spec fn palette_panics(text: Seq<char>) -> bool {
    let lines = split_on(text, '\n');
    &&& lines.len() == 3
    &&& lines[0] == jasc_header()
    &&& parse_unsigned(lines[2], 255) is Some
    &&& parse_unsigned(lines[2], 255)->0 != 0
}

/// Whether converting `contents` would panic.
pub fn palette_would_panic(contents: &str) -> (r: bool)
    ensures
        r == palette_panics(contents@),
{
    let text = str_chars(contents);
    let lines = split_chars(text.as_slice(), '\n');
    proof {
        assert(['J', 'A', 'S', 'C', '-', 'P', 'A', 'L']@ =~= jasc_header());
    }
    if lines.len() != 3 {
        return false;
    }
    if !chars_equal(lines[0].as_slice(), &['J', 'A', 'S', 'C', '-', 'P', 'A', 'L']) {
        return false;
    }
    match parse_unsigned_chars(lines[2].as_slice(), 255) {
        Some(n) => n != 0,
        None => false,
    }
}

/// The four channels of a color line.
fn color_line(line: &Vec<char>) -> (r: Result<Vec<u8>, PaletteError>)
    ensures
        (match color_line_bytes(line@) {
            Ok(b) => r is Ok && r->Ok_0@ == b,
            Err(e) => r is Err && r->Err_0@ == e,
        }),
{
    let nums = split_chars(line.as_slice(), ' ');
    if nums.len() != 4 {
        return Err(PaletteError::InvalidLine(chars_to_string(line.as_slice())));
    }
    let r = parse_unsigned_chars(nums[0].as_slice(), 255);
    let g = parse_unsigned_chars(nums[1].as_slice(), 255);
    let b = parse_unsigned_chars(nums[2].as_slice(), 255);
    let a = parse_unsigned_chars(nums[3].as_slice(), 255);
    match (r, g, b, a) {
        (Some(r), Some(g), Some(b), Some(a)) => Ok(vec![r as u8, g as u8, b as u8, a as u8]),
        _ => Err(PaletteError::InvalidChannel(chars_to_string(line.as_slice()))),
    }
}

/// Converts the text of a JASC palette file to RGBA bytes.
pub fn parse_palette(contents: &str) -> (r: Result<Palette, PaletteError>)
    requires
        !palette_panics(contents@),
    ensures
        (match palette_spec(contents@) {
            Ok(c) => r is Ok && r->Ok_0.colors@ == c
                && r->Ok_0.first_color_replaced == (split_on(contents@, '\n')[3] != transparent_entry()),
            Err(e) => r is Err && r->Err_0@ == e,
        }),
{
    let text = str_chars(contents);
    let lines = split_chars(text.as_slice(), '\n');
    let ghost lv = pieces_view(lines@);
    proof {
        assert(['J', 'A', 'S', 'C', '-', 'P', 'A', 'L']@ =~= jasc_header());
        assert(['0', ' ', '0', ' ', '0', ' ', '0']@ =~= transparent_entry());
    }
    if lines.len() < 3 {
        return Err(PaletteError::TooFewLines);
    }
    if !chars_equal(lines[0].as_slice(), &['J', 'A', 'S', 'C', '-', 'P', 'A', 'L']) {
        return Err(PaletteError::InvalidHeader);
    }
    let num = match parse_unsigned_chars(lines[2].as_slice(), 255) {
        Some(n) => n,
        None => return Err(PaletteError::TooManyColors),
    };
    if num == 0 {
        return Err(PaletteError::NoColors);
    }
    let first_color_replaced = !chars_equal(lines[3].as_slice(), &['0', ' ', '0', ' ', '0', ' ', '0']);
    let mut out: Vec<u8> = vec![0u8, 0u8, 0u8, 0u8];
    let ghost rest = lv.skip(4);
    let mut i: usize = 4;
    proof {
        assert(rest.take(0) =~= Seq::<Seq<char>>::empty());
        assert(out@ =~= seq![0u8, 0u8, 0u8, 0u8] + Seq::<u8>::empty());
    }
    while i < lines.len()
        invariant
            4 <= i <= lines@.len(),
            lv == pieces_view(lines@),
            lv == split_on(contents@, '\n'),
            lv[0] == jasc_header(),
            parse_unsigned(lv[2], 255) is Some,
            parse_unsigned(lv[2], 255)->0 != 0,
            rest == lv.skip(4),
            colors_of_lines(rest.take(i - 4)) is Ok,
            out@ == seq![0u8, 0u8, 0u8, 0u8] + colors_of_lines(rest.take(i - 4))->Ok_0,
        decreases lines@.len() - i,
    {
        proof {
            assert(rest.take(i - 4 + 1).drop_last() =~= rest.take(i - 4));
            assert(rest.take(i - 4 + 1).last() == lines@[i as int]@);
        }
        if lines[i].len() > 0 {
            let bytes = match color_line(&lines[i]) {
                Ok(b) => b,
                Err(e) => {
                    proof {
                        lemma_colors_error_stays(rest, (i - 4 + 1) as nat);
                    }
                    return Err(e);
                },
            };
            extend_bytes(&mut out, bytes.as_slice());
            proof {
                assert(out@ =~= seq![0u8, 0u8, 0u8, 0u8] + colors_of_lines(rest.take(i - 4 + 1))->Ok_0);
            }
        }
        i = i + 1;
    }
    proof {
        assert(rest.take(i - 4) =~= rest);
    }
    Ok(Palette { colors: out, first_color_replaced })
}

/// Once a prefix of the color lines fails, all of them fail the same way.
proof fn lemma_colors_error_stays(lines: Seq<Seq<char>>, k: nat)
    requires
        k <= lines.len(),
        colors_of_lines(lines.take(k as int)) is Err,
    ensures
        colors_of_lines(lines) == colors_of_lines(lines.take(k as int)),
    decreases lines.len() - k,
{
    if lines.len() == k {
        assert(lines.take(k as int) =~= lines);
    } else {
        let d = lines.drop_last();
        assert(d.take(k as int) =~= lines.take(k as int));
        lemma_colors_error_stays(d, k);
    }
}

/// Reading on after a piece without `sep` only extends the current piece.
proof fn lemma_split_acc_append(s: Seq<char>, t: Seq<char>, sep: char)
    requires
        !t.contains(sep),
    ensures
        split_acc(s + t, sep) == (split_acc(s, sep).0, split_acc(s, sep).1 + t),
    decreases t.len(),
{
    if t.len() == 0 {
        assert(s + t =~= s);
        assert(split_acc(s, sep).1 + t =~= split_acc(s, sep).1);
    } else {
        let d = t.drop_last();
        assert(!d.contains(sep)) by {
            if d.contains(sep) {
                let i = choose|i: int| 0 <= i < d.len() && d[i] == sep;
                assert(t[i] == sep);
            }
        }
        assert(t.last() != sep) by {
            if t.last() == sep {
                assert(t[t.len() - 1] == sep);
            }
        }
        lemma_split_acc_append(s, d, sep);
        assert((s + t).drop_last() =~= s + d);
        assert((s + t).last() == t.last());
        assert((split_acc(s, sep).1 + d).push(t.last()) =~= split_acc(s, sep).1 + t);
    }
}

/// A number up to `max` has no space in it.
proof fn lemma_number_has_no_space(s: Seq<char>, max: nat)
    requires
        parse_unsigned(s, max) is Some,
    ensures
        !s.contains(' '),
{
    if s.contains(' ') {
        let i = choose|i: int| 0 <= i < s.len() && s[i] == ' ';
        let t = after_plus(s);
        if s.len() > 1 && s[0] == '+' {
            assert(t[i - 1] == ' ');
            assert(is_decimal_digit(t[i - 1]));
        } else {
            assert(is_decimal_digit(t[i]));
        }
    }
}

/// A color line keeps the file's channel order: the line `R G B A`, four
/// numbers up to 255 one space apart, gives the bytes R, G, B and A, in
/// that order.
pub proof fn lemma_color_line_order(r: Seq<char>, g: Seq<char>, b: Seq<char>, a: Seq<char>)
    requires
        parse_unsigned(r, 255) is Some,
        parse_unsigned(g, 255) is Some,
        parse_unsigned(b, 255) is Some,
        parse_unsigned(a, 255) is Some,
    ensures
        color_line_bytes(r + seq![' '] + g + seq![' '] + b + seq![' '] + a) == Ok::<Seq<u8>, PaletteErrorView>(seq![
            parse_unsigned(r, 255)->0 as u8,
            parse_unsigned(g, 255)->0 as u8,
            parse_unsigned(b, 255)->0 as u8,
            parse_unsigned(a, 255)->0 as u8,
        ]),
{
    lemma_number_has_no_space(r, 255);
    lemma_number_has_no_space(g, 255);
    lemma_number_has_no_space(b, 255);
    lemma_number_has_no_space(a, 255);
    let sp = seq![' '];
    let e = Seq::<char>::empty();
    let line = r + sp + g + sp + b + sp + a;
    lemma_split_acc_append(e, r, ' ');
    assert(e + r =~= r);
    assert(split_acc(e, ' ') == (Seq::<Seq<char>>::empty(), e));
    assert(e + r =~= r);
    let s1 = r + sp;
    assert(s1.drop_last() =~= r);
    lemma_split_acc_append(s1, g, ' ');
    let s2 = s1 + g + sp;
    assert(s2.drop_last() =~= s1 + g);
    lemma_split_acc_append(s2, b, ' ');
    let s3 = s2 + b + sp;
    assert(s3.drop_last() =~= s2 + b);
    lemma_split_acc_append(s3, a, ' ');
    assert(line =~= s3 + a);
    assert(e + g =~= g);
    assert(e + b =~= b);
    assert(e + a =~= a);
    let nums = split_on(line, ' ');
    assert(nums =~= seq![r, g, b, a]);
}

/// The colors of color lines that are all there: four bytes per line, the
/// line's own bytes at its place.
proof fn lemma_colors_in_line_order(lines: Seq<Seq<char>>)
    requires
        colors_of_lines(lines) is Ok,
        forall|i: int| 0 <= i < lines.len() ==> #[trigger] lines[i].len() > 0,
    ensures
        colors_of_lines(lines)->Ok_0.len() == 4 * lines.len(),
        forall|k: int| 0 <= k < lines.len() ==> #[trigger] color_line_bytes(lines[k]) is Ok
            && colors_of_lines(lines)->Ok_0.subrange(4 * k, 4 * k + 4) == color_line_bytes(lines[k])->Ok_0,
    decreases lines.len(),
{
    if lines.len() > 0 {
        let d = lines.drop_last();
        assert forall|i: int| 0 <= i < d.len() implies #[trigger] d[i].len() > 0 by {
            assert(d[i] == lines[i]);
        }
        assert(lines.last().len() > 0);
        lemma_colors_in_line_order(d);
        let out = colors_of_lines(d)->Ok_0;
        let last = color_line_bytes(lines.last())->Ok_0;
        let all = colors_of_lines(lines)->Ok_0;
        assert(all == out + last);
        assert forall|k: int| 0 <= k < lines.len() implies #[trigger] color_line_bytes(lines[k]) is Ok
            && all.subrange(4 * k, 4 * k + 4) == color_line_bytes(lines[k])->Ok_0 by {
            if k < d.len() {
                assert(d[k] == lines[k]);
                assert(all.subrange(4 * k, 4 * k + 4) =~= out.subrange(4 * k, 4 * k + 4));
            } else {
                assert(all.subrange(4 * k, 4 * k + 4) =~= last);
            }
        }
    }
}

/// A palette lists its colors in the file's order: transparent black
/// first, then, where the file has its first color line and no line after
/// it is empty, the bytes of each color line after the first, four per
/// line, in turn.
pub proof fn lemma_palette_colors_in_order(text: Seq<char>)
    requires
        palette_spec(text) is Ok,
        split_on(text, '\n').len() >= 4,
        forall|i: int| 4 <= i < split_on(text, '\n').len() ==> #[trigger] split_on(text, '\n')[i].len() > 0,
    ensures
        ({
            let lines = split_on(text, '\n');
            let colors = palette_spec(text)->Ok_0;
            &&& colors.subrange(0, 4) == seq![0u8, 0u8, 0u8, 0u8]
            &&& colors.len() == 4 + 4 * lines.skip(4).len()
            &&& forall|k: int| 4 <= k < lines.len() ==> #[trigger] color_line_bytes(lines[k]) is Ok
                && colors.subrange(4 * (k - 3), 4 * (k - 2)) == color_line_bytes(lines[k])->Ok_0
        }),
{
    let lines = split_on(text, '\n');
    let rest = lines.skip(4);
    assert forall|i: int| 0 <= i < rest.len() implies #[trigger] rest[i].len() > 0 by {
        assert(rest[i] == lines[i + 4]);
    }
    lemma_colors_in_line_order(rest);
    let c = colors_of_lines(rest)->Ok_0;
    let colors = palette_spec(text)->Ok_0;
    assert(colors == seq![0u8, 0u8, 0u8, 0u8] + c);
    assert(colors.subrange(0, 4) =~= seq![0u8, 0u8, 0u8, 0u8]);
    assert forall|k: int| 4 <= k < lines.len() implies #[trigger] color_line_bytes(lines[k]) is Ok
        && colors.subrange(4 * (k - 3), 4 * (k - 2)) == color_line_bytes(lines[k])->Ok_0 by {
        assert(rest[k - 4] == lines[k]);
        assert(colors.subrange(4 * (k - 3), 4 * (k - 2)) =~= c.subrange(4 * (k - 4), 4 * (k - 4) + 4));
    }
}

} // verus!
