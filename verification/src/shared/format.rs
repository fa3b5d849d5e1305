use vstd::prelude::*;
use crate::shared::text::{ascii_chars, decimal_digits, u64_to_decimal};
use crate::compiler::numbers::{radix_value, char_digit};
use crate::shared::split::{decimal_value, all_decimal, is_decimal_digit};

verus! {

/// The characters of the decimal form of `n`.
pub open spec fn dec(n: u64) -> Seq<char> {
    ascii_chars(decimal_digits(n as nat))
}

/// The upper-case hexadecimal digit for `d` (below 16).
pub open spec fn hex_digit(d: nat) -> char {
    if d < 10 {
        (48 + d) as char
    } else {
        (55 + d) as char
    }
}

/// The upper-case hexadecimal digits of `n`, most significant first (`"0"`
/// for zero).
pub open spec fn hex_digits(n: nat) -> Seq<char>
    decreases n,
{
    if n < 16 {
        seq![hex_digit(n)]
    } else {
        hex_digits(n / 16).push(hex_digit(n % 16))
    }
}

/// `s`, with copies of `c` in front to make it `width` long where it is
/// shorter.
pub open spec fn pad_left(s: Seq<char>, width: nat, c: char) -> Seq<char> {
    if s.len() >= width {
        s
    } else {
        Seq::new((width - s.len()) as nat, |i: int| c) + s
    }
}

/// The hexadecimal digits of `n`, zero-padded to at least `width`.
pub open spec fn hex_padded(n: nat, width: nat) -> Seq<char> {
    pad_left(hex_digits(n), width, '0')
}

/// Appends the decimal form of `n`.
pub fn push_decimal(out: &mut Vec<char>, n: u64)
    ensures
        final(out)@ == old(out)@ + dec(n),
{
    let digits = u64_to_decimal(n);
    let mut i: usize = 0;
    while i < digits.len()
        invariant
            i <= digits@.len(),
            digits@ == decimal_digits(n as nat),
            out@ == old(out)@ + ascii_chars(digits@).take(i as int),
        decreases digits@.len() - i,
    {
        proof {
            assert(ascii_chars(digits@).take(i + 1) =~= ascii_chars(digits@).take(i as int).push(
                digits@[i as int] as char,
            ));
        }
        out.push(digits[i] as char);
        i = i + 1;
    }
    proof {
        assert(ascii_chars(digits@).take(i as int) =~= ascii_chars(digits@));
    }
}

/// The hexadecimal digit for `d`.
fn hex_digit_char(d: u64) -> (c: char)
    requires
        d < 16,
    ensures
        c == hex_digit(d as nat),
{
    if d < 10 {
        ((48 + d) as u8) as char
    } else {
        ((55 + d) as u8) as char
    }
}

/// The upper-case hexadecimal digits of `n`.
pub fn hex_chars(n: u64) -> (r: Vec<char>)
    ensures
        r@ == hex_digits(n as nat),
    decreases n,
{
    if n < 16 {
        vec![hex_digit_char(n)]
    } else {
        let mut r = hex_chars(n / 16);
        r.push(hex_digit_char(n % 16));
        r
    }
}

/// Appends `s`, padded on the left with `c` to at least `width`.
pub fn push_padded(out: &mut Vec<char>, s: &[char], width: usize, c: char)
    ensures
        final(out)@ == old(out)@ + pad_left(s@, width as nat, c),
{
    let mut k: usize = s.len();
    let ghost start = out@;
    while k < width
        invariant
            s@.len() <= k <= width || (k == s@.len() && k >= width),
            out@ == start + Seq::new((k - s@.len()) as nat, |i: int| c),
        decreases width - k,
    {
        proof {
            assert(Seq::new((k + 1 - s@.len()) as nat, |i: int| c) =~= Seq::new((k - s@.len()) as nat, |i: int| c).push(c));
        }
        out.push(c);
        k = k + 1;
    }
    let mut i: usize = 0;
    let ghost padded = out@;
    while i < s.len()
        invariant
            i <= s@.len(),
            out@ == padded + s@.take(i as int),
        decreases s@.len() - i,
    {
        proof {
            assert(s@.take(i + 1) =~= s@.take(i as int).push(s@[i as int]));
        }
        out.push(s[i]);
        i = i + 1;
    }
    proof {
        assert(s@.take(i as int) =~= s@);
        if s@.len() >= width {
            assert(Seq::new(0, |i: int| c) + s@ =~= s@);
        }
    }
}

/// Appends the hexadecimal digits of `n`, zero-padded to at least `width`.
pub fn push_hex_padded(out: &mut Vec<char>, n: u64, width: usize)
    ensures
        final(out)@ == old(out)@ + hex_padded(n as nat, width as nat),
{
    let digits = hex_chars(n);
    push_padded(out, digits.as_slice(), width, '0');
}

/// The decimal form of `n` reads back as `n`: its characters are decimal
/// digits, the first not `0` unless `n` is zero.
pub proof fn lemma_dec_reads_back(n: u64)
    ensures
        radix_value(dec(n), 10) == n,
        decimal_value(dec(n)) == n,
        all_decimal(dec(n)),
        dec(n).len() >= 1,
        forall|i: int| 0 <= i < dec(n).len() ==> char_digit(#[trigger] dec(n)[i]) < 10,
        n != 0 ==> dec(n)[0] != '0',
{
    lemma_decimal_digits_value(n as nat);
}

proof fn lemma_decimal_digits_value(n: nat)
    ensures
        radix_value(ascii_chars(decimal_digits(n)), 10) == n,
        decimal_value(ascii_chars(decimal_digits(n))) == n,
        all_decimal(ascii_chars(decimal_digits(n))),
        ascii_chars(decimal_digits(n)).len() >= 1,
        forall|i: int| 0 <= i < ascii_chars(decimal_digits(n)).len()
            ==> char_digit(#[trigger] ascii_chars(decimal_digits(n))[i]) < 10,
        n != 0 ==> ascii_chars(decimal_digits(n))[0] != '0',
    decreases n,
{
    let s = ascii_chars(decimal_digits(n));
    if n < 10 {
        assert(s[0] == ((48 + n) as u8) as char);
        assert(s.drop_last().len() == 0);
        assert(radix_value(s.drop_last(), 10) == 0);
        assert(decimal_value(s.drop_last()) == 0);
        assert(s.last() == s[0]);
        assert(char_digit(s[0]) == n);
        assert(s.last() != '_');
    } else {
        lemma_decimal_digits_value(n / 10);
        let t = ascii_chars(decimal_digits(n / 10));
        assert(s.drop_last() =~= t);
        assert(s.last() == ((48 + n % 10) as u8) as char);
        assert(char_digit(s.last()) == n % 10);
        assert(s.last() != '_');
        assert(radix_value(s, 10) == radix_value(t, 10) * 10 + char_digit(s.last()));
        assert(decimal_value(s) == decimal_value(t) * 10 + ((s.last() as u32) - 48) as nat);
        assert forall|i: int| 0 <= i < s.len() implies is_decimal_digit(#[trigger] s[i]) by {
            if i < t.len() {
                assert(s[i] == t[i]);
            }
        }
        assert((n / 10) * 10 + n % 10 == n);
        assert forall|i: int| 0 <= i < s.len() implies char_digit(#[trigger] s[i]) < 10 by {
            if i < t.len() {
                assert(s[i] == t[i]);
            }
        }
        assert(s[0] == t[0]);
    }
}

/// The hexadecimal digits of `n` read back as `n` in base 16: they are
/// digits of the base, the first not `0` unless `n` is zero.
pub proof fn lemma_hex_reads_back(n: nat)
    ensures
        radix_value(hex_digits(n), 16) == n,
        hex_digits(n).len() >= 1,
        forall|i: int| 0 <= i < hex_digits(n).len() ==> char_digit(#[trigger] hex_digits(n)[i]) < 16,
        n != 0 ==> hex_digits(n)[0] != '0',
    decreases n,
{
    let s = hex_digits(n);
    if n < 16 {
        assert(s.drop_last().len() == 0);
        assert(radix_value(s.drop_last(), 16) == 0);
        assert(s.last() == hex_digit(n));
        assert(char_digit(s.last()) == n);
        assert(s.last() != '_');
    } else {
        lemma_hex_reads_back(n / 16);
        let t = hex_digits(n / 16);
        assert(s.drop_last() =~= t);
        assert(s.last() == hex_digit(n % 16));
        assert(char_digit(s.last()) == n % 16);
        assert(s.last() != '_');
        assert(radix_value(s, 16) == radix_value(t, 16) * 16 + char_digit(s.last()));
        assert((n / 16) * 16 + n % 16 == n);
        assert forall|i: int| 0 <= i < s.len() implies char_digit(#[trigger] s[i]) < 16 by {
            if i < t.len() {
                assert(s[i] == t[i]);
            }
        }
        assert(s[0] == t[0]);
    }
}

} // verus!
