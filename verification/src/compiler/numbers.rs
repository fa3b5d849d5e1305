use vstd::prelude::*;
use num_bigint::BigUint;
use crate::shared::bigendian::{canonical_be, be_value, be_to_u64_checked, lemma_canonical_be, lemma_pow256_8};
use crate::shared::text::{all_ascii, ascii_chars, ascii_bytes, all_ascii_chars, chars_to_string, is_ascii_char};
use crate::compiler::errors::{CompilationError, ErrorView};

verus! {

/// The value of a digit character in bases up to 36 (`0-9`, then `a-z` or
/// `A-Z`); 36 for any other character.
pub open spec fn char_digit(c: char) -> nat {
    let u = c as u32;
    if 48 <= u <= 57 {
        (u - 48) as nat
    } else if 97 <= u <= 122 {
        (u - 97 + 10) as nat
    } else if 65 <= u <= 90 {
        (u - 65 + 10) as nat
    } else {
        36
    }
}

/// `s` without one leading `+`.
pub open spec fn strip_plus(s: Seq<char>) -> Seq<char> {
    if s.len() > 0 && s[0] == '+' {
        s.drop_first()
    } else {
        s
    }
}

/// Every character is a digit of the base or an `_` separator.
pub open spec fn digits_in_radix(s: Seq<char>, radix: nat) -> bool {
    forall|i: int| 0 <= i < s.len() ==> s[i] == '_' || char_digit(#[trigger] s[i]) < radix
}

/// `s` is a number in base `radix`: an optional `+`, then at least one
/// character, the first not `_`, all digits of the base or `_`.
pub open spec fn radix_number_valid(s: Seq<char>, radix: nat) -> bool {
    let t = strip_plus(s);
    &&& t.len() > 0
    &&& t[0] != '_'
    &&& digits_in_radix(t, radix)
}

/// The number the digits of `t` spell in base `radix`, skipping `_`.
pub open spec fn radix_value(t: Seq<char>, radix: nat) -> nat
    decreases t.len(),
{
    if t.len() == 0 {
        0
    } else if t.last() == '_' {
        radix_value(t.drop_last(), radix)
    } else {
        radix_value(t.drop_last(), radix) * radix + char_digit(t.last())
    }
}

/// Parses digits in base `radix` (`BigUint::parse_bytes`, that is
/// `BigUint::from_str_radix` on the text), giving the shortest big-endian
/// bytes of the number (`BigUint::to_bytes_be`). It succeeds exactly on an
/// optional `+`, then digits of the base and `_` separators, not starting
/// with `_` and not empty.
#[verifier::external_body]
fn parse_biguint_radix(digits: &[u8], radix: u32) -> (r: Option<Vec<u8>>)
    requires
        2 <= radix <= 36,
        all_ascii(digits@),
    ensures
        r is Some <==> radix_number_valid(ascii_chars(digits@), radix as nat),
        r is Some ==> r->0@ == canonical_be(radix_value(strip_plus(ascii_chars(digits@)), radix as nat)),
{
    match BigUint::parse_bytes(digits, radix) {
        Some(n) => Some(n.to_bytes_be()),
        None => None,
    }
}

/// The base a number is written in and its digits: `0x` for hexadecimal,
/// `0b` for binary, decimal otherwise.
pub open spec fn radix_split(s: Seq<char>) -> (nat, Seq<char>) {
    if s.len() >= 2 && s[0] == '0' && s[1] == 'x' {
        (16, s.skip(2))
    } else if s.len() >= 2 && s[0] == '0' && s[1] == 'b' {
        (2, s.skip(2))
    } else {
        (10, s)
    }
}

/// The number `s` denotes, if it is one.
pub open spec fn parse_num_spec(s: Seq<char>) -> Option<nat> {
    let (radix, body) = radix_split(s);
    if radix_number_valid(body, radix) {
        Some(radix_value(strip_plus(body), radix))
    } else {
        None
    }
}

/// A 64-bit address written as a number.
pub open spec fn parse_address_spec(s: Seq<char>) -> Result<u64, ErrorView> {
    match parse_num_spec(s) {
        None => Err(ErrorView::InvalidOperand(s)),
        Some(n) => if n < 0x1_0000_0000_0000_0000 {
            Ok(n as u64)
        } else {
            Err(ErrorView::AddressOverflow(s))
        },
    }
}

/// The characters `from..` of `s`.
pub fn chars_skip(s: &[char], from: usize) -> (r: Vec<char>)
    requires
        from <= s@.len(),
    ensures
        r@ == s@.skip(from as int),
{
    let mut r: Vec<char> = Vec::new();
    let mut i: usize = from;
    while i < s.len()
        invariant
            from <= i <= s@.len(),
            r@ =~= s@.subrange(from as int, i as int),
        decreases s@.len() - i,
    {
        r.push(s[i]);
        i = i + 1;
    }
    r
}

/// A non-ASCII character is no digit of any base up to 36.
proof fn lemma_non_ascii_invalid(s: Seq<char>, radix: nat)
    requires
        radix <= 36,
        exists|i: int| 0 <= i < s.len() && !is_ascii_char(#[trigger] s[i]),
    ensures
        !radix_number_valid(s, radix),
{
    let i = choose|i: int| 0 <= i < s.len() && !is_ascii_char(#[trigger] s[i]);
    if s.len() > 0 && s[0] == '+' {
        assert(strip_plus(s)[i - 1] == s[i]);
    } else {
        assert(strip_plus(s)[i] == s[i]);
    }
}

/// The number written in `input`, as its shortest big-endian bytes.
pub fn parse_num(input: &[char]) -> (r: Result<Vec<u8>, CompilationError>)
    ensures
        (match parse_num_spec(input@) {
            Some(n) => r is Ok && r->Ok_0@ == canonical_be(n),
            None => r is Err && r->Err_0@ == ErrorView::InvalidOperand(input@),
        }),
{
    let (radix, body): (u32, Vec<char>) = if input.len() >= 2 && input[0] == '0' && input[1] == 'x' {
        (16, chars_skip(input, 2))
    } else if input.len() >= 2 && input[0] == '0' && input[1] == 'b' {
        (2, chars_skip(input, 2))
    } else {
        (10, chars_skip(input, 0))
    };
    proof {
        assert(input@.skip(0) =~= input@);
    }
    if !all_ascii_chars(body.as_slice()) {
        proof {
            lemma_non_ascii_invalid(body@, radix as nat);
        }
        return Err(CompilationError::InvalidOperand(chars_to_string(input)));
    }
    let bytes = ascii_bytes(body.as_slice());
    match parse_biguint_radix(bytes.as_slice(), radix) {
        Some(v) => Ok(v),
        None => Err(CompilationError::InvalidOperand(chars_to_string(input))),
    }
}

/// An address written as a number: it must fit in 64 bits.
pub fn parse_address_num(input: String) -> (r: Result<u64, CompilationError>)
    ensures
        (match parse_address_spec(input@) {
            Ok(a) => r is Ok && r->Ok_0 == a,
            Err(e) => r is Err && r->Err_0@ == e,
        }),
{
    let chars = crate::shared::text::str_chars(input.as_str());
    let bytes = match parse_num(chars.as_slice()) {
        Ok(b) => b,
        Err(e) => return Err(e),
    };
    proof {
        lemma_pow256_8();
        let n = parse_num_spec(input@)->0;
        lemma_canonical_be(n);
    }
    match be_to_u64_checked(bytes.as_slice()) {
        Some(v) => Ok(v),
        None => Err(CompilationError::AddressOverflow(input)),
    }
}

} // verus!
