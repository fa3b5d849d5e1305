use vstd::prelude::*;

verus! {

/// The decimal digits of `n`, most significant first (`"0"` for zero).
pub open spec fn decimal_digits(n: nat) -> Seq<u8>
    decreases n,
{
    if n < 10 {
        seq![(48 + n) as u8]
    } else {
        decimal_digits(n / 10).push((48 + n % 10) as u8)
    }
}

/// Every byte of `s` is ASCII.
pub open spec fn all_ascii(s: Seq<u8>) -> bool {
    forall|i: int| 0 <= i < s.len() ==> s[i] < 128
}

/// The characters an ASCII byte string stands for.
pub open spec fn ascii_chars(s: Seq<u8>) -> Seq<char> {
    Seq::new(s.len(), |i: int| s[i] as char)
}

pub proof fn lemma_decimal_digits_ascii(n: nat)
    ensures
        all_ascii(decimal_digits(n)),
        decimal_digits(n).len() >= 1,
    decreases n,
{
    if n >= 10 {
        lemma_decimal_digits_ascii(n / 10);
    }
}

/// The decimal representation of `n`.
pub fn u64_to_decimal(n: u64) -> (r: Vec<u8>)
    ensures
        r@ == decimal_digits(n as nat),
    decreases n,
{
    if n < 10 {
        vec![(48 + n) as u8]
    } else {
        let mut r = u64_to_decimal(n / 10);
        r.push((48 + n % 10) as u8);
        r
    }
}

/// Turns ASCII bytes into a `String` (`String::from_utf8`): every ASCII
/// byte is one character, so the string has exactly these characters.
#[verifier::external_body]
pub(crate) fn ascii_to_string(bytes: Vec<u8>) -> (r: String)
    requires
        all_ascii(bytes@),
    ensures
        r@ == ascii_chars(bytes@),
{
    String::from_utf8(bytes).unwrap()
}

/// Appends `b` to `a`.
pub fn extend_bytes(a: &mut Vec<u8>, b: &[u8])
    ensures
        final(a)@ == old(a)@ + b@,
{
    let mut i: usize = 0;
    while i < b.len()
        invariant
            i <= b@.len(),
            a@ == old(a)@ + b@.take(i as int),
        decreases b@.len() - i,
    {
        proof {
            assert(b@.take(i + 1) =~= b@.take(i as int).push(b@[i as int]));
        }
        a.push(b[i]);
        i = i + 1;
    }
    proof {
        assert(b@.take(i as int) =~= b@);
    }
}

/// The characters of `s`, in order.
pub fn str_chars(s: &str) -> (r: Vec<char>)
    ensures
        r@ == s@,
{
    let mut r: Vec<char> = Vec::new();
    for c in it: s.chars()
        invariant
            r@ == it.seq().take(it.index() as int),
    {
        r.push(c);
    }
    r
}

/// Collects characters into a `String` (`String: FromIterator<char>`): the
/// string holds exactly these characters.
#[verifier::external_body]
pub(crate) fn chars_to_string(chars: &[char]) -> (r: String)
    ensures
        r@ == chars@,
{
    chars.iter().collect()
}

/// Whether `c` is ASCII.
pub open spec fn is_ascii_char(c: char) -> bool {
    (c as u32) < 128
}

/// The bytes of ASCII characters.
pub fn ascii_bytes(chars: &[char]) -> (r: Vec<u8>)
    requires
        forall|i: int| 0 <= i < chars@.len() ==> is_ascii_char(#[trigger] chars@[i]),
    ensures
        all_ascii(r@),
        ascii_chars(r@) == chars@,
        r@.len() == chars@.len(),
{
    let mut r: Vec<u8> = Vec::new();
    let mut i: usize = 0;
    while i < chars.len()
        invariant
            i <= chars@.len(),
            forall|k: int| 0 <= k < chars@.len() ==> is_ascii_char(#[trigger] chars@[k]),
            r@.len() == i,
            forall|k: int| 0 <= k < i ==> #[trigger] r@[k] < 128,
            forall|k: int| 0 <= k < i ==> (r@[k] as char) == #[trigger] chars@[k],
        decreases chars@.len() - i,
    {
        let c = chars[i];
        proof {
            assert(is_ascii_char(chars@[i as int]));
        }
        let code = c as u32;
        let b = code as u8;
        proof {
            vstd::utf8::char_u32_cast(c, code);
            assert(b as int == code as int);
            assert((b as char) == (code as char));
        }
        r.push(b);
        i = i + 1;
    }
    proof {
        assert(ascii_chars(r@) =~= chars@);
    }
    r
}

/// Whether every character is ASCII.
pub fn all_ascii_chars(chars: &[char]) -> (r: bool)
    ensures
        r == forall|i: int| 0 <= i < chars@.len() ==> is_ascii_char(#[trigger] chars@[i]),
{
    let mut i: usize = 0;
    while i < chars.len()
        invariant
            i <= chars@.len(),
            forall|k: int| 0 <= k < i ==> is_ascii_char(#[trigger] chars@[k]),
        decreases chars@.len() - i,
    {
        if (chars[i] as u32) >= 128 {
            return false;
        }
        i = i + 1;
    }
    true
}

} // verus!
