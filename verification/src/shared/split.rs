use vstd::prelude::*;

verus! {

/// Splitting character by character on `sep`: the finished pieces and the
/// piece being read.
pub open spec fn split_acc(s: Seq<char>, sep: char) -> (Seq<Seq<char>>, Seq<char>)
    decreases s.len(),
{
    if s.len() == 0 {
        (Seq::empty(), Seq::empty())
    } else {
        let (done, cur) = split_acc(s.drop_last(), sep);
        if s.last() == sep {
            (done.push(cur), Seq::empty())
        } else {
            (done, cur.push(s.last()))
        }
    }
}

/// The pieces of `s` between occurrences of `sep` (`str::split`): always
/// at least one, possibly empty.
pub open spec fn split_on(s: Seq<char>, sep: char) -> Seq<Seq<char>> {
    split_acc(s, sep).0.push(split_acc(s, sep).1)
}

/// The characters of each piece.
pub open spec fn pieces_view(pieces: Seq<Vec<char>>) -> Seq<Seq<char>> {
    Seq::new(pieces.len(), |i: int| pieces[i]@)
}

/// Splits `s` on every `sep`.
pub fn split_chars(s: &[char], sep: char) -> (r: Vec<Vec<char>>)
    ensures
        pieces_view(r@) == split_on(s@, sep),
        r@.len() >= 1,
{
    let mut done: Vec<Vec<char>> = Vec::new();
    let mut cur: Vec<char> = Vec::new();
    let mut i: usize = 0;
    proof {
        assert(s@.take(0) =~= Seq::<char>::empty());
        assert(pieces_view(done@) =~= Seq::<Seq<char>>::empty());
    }
    while i < s.len()
        invariant
            i <= s@.len(),
            split_acc(s@.take(i as int), sep) == (pieces_view(done@), cur@),
        decreases s@.len() - i,
    {
        proof {
            assert(s@.take(i + 1).drop_last() =~= s@.take(i as int));
        }
        if s[i] == sep {
            let ghost prev = done@;
            let piece = cur;
            done.push(piece);
            cur = Vec::new();
            proof {
                assert(pieces_view(done@) =~= pieces_view(prev).push(piece@));
            }
        } else {
            cur.push(s[i]);
        }
        i = i + 1;
    }
    proof {
        assert(s@.take(i as int) =~= s@);
    }
    let ghost prev = done@;
    let piece = cur;
    done.push(piece);
    proof {
        assert(pieces_view(done@) =~= pieces_view(prev).push(piece@));
    }
    done
}

/// Whether `c` is an ASCII decimal digit.
pub open spec fn is_decimal_digit(c: char) -> bool {
    48 <= (c as u32) <= 57
}

/// The number decimal digits spell.
pub open spec fn decimal_value(t: Seq<char>) -> nat
    decreases t.len(),
{
    if t.len() == 0 {
        0
    } else {
        decimal_value(t.drop_last()) * 10 + ((t.last() as u32) - 48) as nat
    }
}

/// `s` without the `+` that may start a number.
pub open spec fn after_plus(s: Seq<char>) -> Seq<char> {
    if s.len() > 1 && s[0] == '+' {
        s.drop_first()
    } else {
        s
    }
}

/// Every character is a decimal digit.
pub open spec fn all_decimal(t: Seq<char>) -> bool {
    forall|i: int| 0 <= i < t.len() ==> is_decimal_digit(#[trigger] t[i])
}

/// The unsigned number `s` denotes, if it is at most `max`, read as
/// `str::parse` reads an unsigned integer: an optional `+`, then at least
/// one decimal digit.
pub open spec fn parse_unsigned(s: Seq<char>, max: nat) -> Option<nat> {
    let t = after_plus(s);
    if t.len() > 0 && all_decimal(t) && decimal_value(t) <= max {
        Some(decimal_value(t))
    } else {
        None
    }
}

/// `decimal_value` grows with every digit added.
proof fn lemma_decimal_value_grows(t: Seq<char>, k: int)
    requires
        0 <= k <= t.len(),
        forall|i: int| 0 <= i < t.len() ==> is_decimal_digit(#[trigger] t[i]),
    ensures
        decimal_value(t.take(k)) <= decimal_value(t),
    decreases t.len() - k,
{
    if k < t.len() {
        let d = t.drop_last();
        assert forall|i: int| 0 <= i < d.len() implies is_decimal_digit(#[trigger] d[i]) by {
            assert(d[i] == t[i]);
        }
        assert(d.take(k) =~= t.take(k));
        lemma_decimal_value_grows(d, k);
    } else {
        assert(t.take(k) =~= t);
    }
}

/// Reads an unsigned number of at most `max` (at most `u64::MAX`).
pub fn parse_unsigned_chars(s: &[char], max: u64) -> (r: Option<u64>)
    ensures
        r is Some <==> parse_unsigned(s@, max as nat) is Some,
        r is Some ==> r->0 == parse_unsigned(s@, max as nat)->0,
{
    let start: usize = if s.len() > 1 && s[0] == '+' { 1 } else { 0 };
    let ghost t = after_plus(s@);
    proof {
        assert(t =~= s@.skip(start as int));
    }
    if start >= s.len() {
        return None;
    }
    let mut value: u64 = 0;
    let mut i: usize = start;
    while i < s.len()
        invariant
            start <= i <= s@.len(),
            start < s@.len(),
            t =~= s@.skip(start as int),
            t == after_plus(s@),
            forall|j: int| 0 <= j < i - start ==> is_decimal_digit(#[trigger] t[j]),
            value as nat == decimal_value(t.take(i - start)),
            value <= max,
        decreases s@.len() - i,
    {
        let c = s[i];
        if !((c as u32) >= 48 && (c as u32) <= 57) {
            proof {
                assert(t[i - start] == c);
                assert(!is_decimal_digit(t[i - start]));
            }
            return None;
        }
        let d = (c as u32 - 48) as u64;
        proof {
            assert(t.take(i - start + 1).drop_last() =~= t.take(i - start));
            assert(t.take(i - start + 1).last() == c);
            assert(t[i - start] == c);
        }
        if d > max {
            proof {
                if all_decimal(t) {
                    lemma_decimal_value_grows(t, i - start + 1);
                }
            }
            return None;
        }
        if value > (max - d) / 10 {
            proof {
                assert(value * 10 + d > max) by (nonlinear_arith)
                    requires value > (max - d) / 10, d <= max;
                if all_decimal(t) {
                    lemma_decimal_value_grows(t, i - start + 1);
                }
            }
            return None;
        }
        assert(value * 10 + d <= max) by (nonlinear_arith)
            requires value <= (max - d) / 10, d <= max;
        value = value * 10 + d;
        i = i + 1;
    }
    proof {
        assert(t.take(i - start) =~= t);
    }
    Some(value)
}

} // verus!
