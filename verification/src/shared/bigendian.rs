use vstd::prelude::*;

verus! {

/// `256` to the power `n`.
pub open spec fn pow256(n: nat) -> nat
    decreases n,
{
    if n == 0 {
        1
    } else {
        256 * pow256((n - 1) as nat)
    }
}

/// The number that a big-endian byte string denotes (the empty string is 0).
pub open spec fn be_value(s: Seq<u8>) -> nat
    decreases s.len(),
{
    if s.len() == 0 {
        0
    } else {
        be_value(s.drop_last()) * 256 + s.last() as nat
    }
}

/// The `n` low-order bytes of `v`, most significant first.
pub open spec fn be_bytes_of(v: nat, n: nat) -> Seq<u8>
    decreases n,
{
    if n == 0 {
        Seq::empty()
    } else {
        be_bytes_of(v / 256, (n - 1) as nat).push((v % 256) as u8)
    }
}

/// The shortest big-endian representation of the number `s` denotes:
/// leading zero bytes removed, and `[0]` for zero.
pub open spec fn minimal_be(s: Seq<u8>) -> Seq<u8>
    decreases s.len(),
{
    if s.len() == 0 {
        seq![0u8]
    } else if s[0] == 0 {
        minimal_be(s.drop_first())
    } else {
        s
    }
}

/// The eight-byte big-endian encoding of a 64-bit value.
pub open spec fn be8(v: u64) -> Seq<u8> {
    be_bytes_of(v as nat, 8)
}

pub proof fn lemma_pow256_positive(n: nat)
    ensures
        pow256(n) >= 1,
    decreases n,
{
    if n > 0 {
        lemma_pow256_positive((n - 1) as nat);
    }
}

pub proof fn lemma_pow256_8()
    ensures
        pow256(8) == 0x1_0000_0000_0000_0000,
{
    reveal_with_fuel(pow256, 9);
}

pub proof fn lemma_pow256_add(a: nat, b: nat)
    ensures
        pow256(a + b) == pow256(a) * pow256(b),
    decreases b,
{
    if b > 0 {
        let bm = (b - 1) as nat;
        lemma_pow256_add(a, bm);
        assert((a + b - 1) as nat == a + bm);
        assert(pow256(a + b) == 256 * pow256(a + bm));
        assert(pow256(b) == 256 * pow256(bm));
        let x = pow256(a);
        let y = pow256(bm);
        assert(x * (256 * y) == 256 * (x * y)) by (nonlinear_arith);
        assert(pow256(a + b) == x * pow256(b));
    } else {
        assert(a + b == a);
        assert(pow256(b) == 1);
        assert(pow256(a) * 1 == pow256(a));
    }
}

pub proof fn lemma_pow256_monotone(a: nat, b: nat)
    requires
        a <= b,
    ensures
        pow256(a) <= pow256(b),
    decreases b,
{
    if a < b {
        lemma_pow256_monotone(a, (b - 1) as nat);
        lemma_pow256_positive((b - 1) as nat);
    }
}

/// A byte string of length `n` denotes a number below `256^n`.
pub proof fn lemma_be_value_bound(s: Seq<u8>)
    ensures
        be_value(s) < pow256(s.len()),
    decreases s.len(),
{
    if s.len() > 0 {
        lemma_be_value_bound(s.drop_last());
        let p = pow256((s.len() - 1) as nat);
        let v = be_value(s.drop_last());
        assert(v * 256 + s.last() < p * 256) by (nonlinear_arith)
            requires
                v < p,
                s.last() < 256,
        ;
    }
}

pub proof fn lemma_be_bytes_of_len(v: nat, n: nat)
    ensures
        be_bytes_of(v, n).len() == n,
    decreases n,
{
    if n > 0 {
        lemma_be_bytes_of_len(v / 256, (n - 1) as nat);
    }
}

/// Reading back the `n` low-order bytes of `v` gives `v` modulo `256^n`.
pub proof fn lemma_be_value_of_bytes(v: nat, n: nat)
    ensures
        be_value(be_bytes_of(v, n)) == v % pow256(n),
        be_bytes_of(v, n).len() == n,
    decreases n,
{
    lemma_be_bytes_of_len(v, n);
    if n > 0 {
        let m = (n - 1) as nat;
        lemma_be_value_of_bytes(v / 256, m);
        let s = be_bytes_of(v, n);
        assert(s.drop_last() =~= be_bytes_of(v / 256, m));
        lemma_pow256_positive(m);
        vstd::arithmetic::div_mod::lemma_mod_breakdown(v as int, 256, pow256(m) as int);
        assert(pow256(n) == 256 * pow256(m));
        assert(((v / 256) % pow256(m)) * 256 == 256 * ((v / 256) % pow256(m))) by (nonlinear_arith);
    }
}

/// Concatenation of big-endian strings: the first part is shifted left by
/// the length of the second.
pub proof fn lemma_be_value_concat(a: Seq<u8>, b: Seq<u8>)
    ensures
        be_value(a + b) == be_value(a) * pow256(b.len()) + be_value(b),
    decreases b.len(),
{
    if b.len() == 0 {
        assert(a + b =~= a);
        assert(pow256(0) == 1);
        assert(be_value(b) == 0);
        assert(be_value(a) * 1 == be_value(a));
    } else {
        assert(be_value(b) == be_value(b.drop_last()) * 256 + b.last() as nat);
        let c = a + b;
        assert(c.drop_last() =~= a + b.drop_last());
        assert(c.last() == b.last());
        assert(be_value(c) == be_value(c.drop_last()) * 256 + c.last() as nat);
        assert(pow256(b.len()) == 256 * pow256((b.len() - 1) as nat));
        lemma_be_value_concat(a, b.drop_last());
        let p = pow256((b.len() - 1) as nat);
        let va = be_value(a);
        let vb = be_value(b.drop_last());
        assert((va * p + vb) * 256 + b.last() == va * (256 * p) + (vb * 256 + b.last())) by (nonlinear_arith);
    }
}

/// A single byte denotes itself.
pub proof fn lemma_be_value_single(x: u8)
    ensures
        be_value(seq![x]) == x as nat,
{
    assert(seq![x].drop_last() =~= Seq::<u8>::empty());
    assert(be_value(Seq::<u8>::empty()) == 0);
    assert(seq![x].last() == x);
}

/// Leading zero bytes do not change the number.
pub proof fn lemma_be_value_leading_zero(s: Seq<u8>)
    requires
        s.len() > 0,
        s[0] == 0,
    ensures
        be_value(s) == be_value(s.drop_first()),
{
    lemma_be_value_concat(seq![s[0]], s.drop_first());
    assert(seq![s[0]] + s.drop_first() =~= s);
    lemma_be_value_single(s[0]);
}

/// The minimal representation denotes the same number, is never empty and
/// has no leading zero byte unless it is `[0]`.
pub proof fn lemma_minimal_be(s: Seq<u8>)
    ensures
        be_value(minimal_be(s)) == be_value(s),
        minimal_be(s).len() >= 1,
        minimal_be(s).len() <= if s.len() == 0 { 1 } else { s.len() },
        minimal_be(s).len() > 1 ==> minimal_be(s)[0] != 0,
        minimal_be(s)[0] == 0 ==> minimal_be(s) == seq![0u8],
    decreases s.len(),
{
    if s.len() == 0 {
        lemma_be_value_single(0u8);
    } else if s[0] == 0 {
        lemma_minimal_be(s.drop_first());
        lemma_be_value_leading_zero(s);
    }
}

/// The shortest big-endian bytes of `n`: one byte for values below 256,
/// and no leading zero byte otherwise.
pub open spec fn canonical_be(n: nat) -> Seq<u8>
    decreases n,
{
    if n < 256 {
        seq![n as u8]
    } else {
        canonical_be(n / 256).push((n % 256) as u8)
    }
}

/// `canonical_be` denotes its number, is never empty, and starts with a
/// non-zero byte when it has more than one.
pub proof fn lemma_canonical_be(n: nat)
    ensures
        be_value(canonical_be(n)) == n,
        canonical_be(n).len() >= 1,
        canonical_be(n).len() > 1 ==> canonical_be(n)[0] != 0,
        n > 0 ==> canonical_be(n)[0] != 0,
    decreases n,
{
    if n < 256 {
        lemma_be_value_single(n as u8);
    } else {
        lemma_canonical_be(n / 256);
        let c = canonical_be(n);
        assert(c.drop_last() =~= canonical_be(n / 256));
        assert(c[0] == canonical_be(n / 256)[0]);
    }
}

/// Stripping leading zero bytes gives the canonical bytes of the number.
pub proof fn lemma_minimal_is_canonical(s: Seq<u8>)
    ensures
        minimal_be(s) == canonical_be(be_value(s)),
{
    lemma_minimal_be(s);
    lemma_canonical_unique(minimal_be(s));
}

/// A byte string without a leading zero (or `[0]` itself) is the canonical
/// form of the number it denotes.
pub proof fn lemma_canonical_unique(t: Seq<u8>)
    requires
        t.len() >= 1,
        t.len() > 1 ==> t[0] != 0,
    ensures
        t == canonical_be(be_value(t)),
    decreases t.len(),
{
    if t.len() == 1 {
        lemma_be_value_single(t[0]);
        assert(t =~= seq![t[0]]);
    } else {
        let h = t.drop_last();
        assert(h[0] == t[0]);
        lemma_canonical_unique(h);
        lemma_be_value_zero(h);
        assert(be_value(h) > 0) by {
            if be_value(h) == 0 {
                assert(h[0] == 0);
            }
        }
        let v = be_value(t);
        assert(v == be_value(h) * 256 + t.last() as nat);
        assert(v >= 256);
        assert(v / 256 == be_value(h));
        assert(v % 256 == t.last() as nat);
        assert(canonical_be(v) == canonical_be(v / 256).push((v % 256) as u8));
        assert(t =~= h.push(t.last()));
    }
}

/// A string of zero bytes denotes zero, and a string denoting zero is all zeros.
pub proof fn lemma_be_value_zero(s: Seq<u8>)
    ensures
        be_value(s) == 0 <==> (forall|i: int| 0 <= i < s.len() ==> s[i] == 0),
    decreases s.len(),
{
    if s.len() > 0 {
        lemma_be_value_zero(s.drop_last());
        if be_value(s) == 0 {
            assert(be_value(s.drop_last()) == 0);
            assert forall|i: int| 0 <= i < s.len() implies s[i] == 0 by {
                if i < s.len() - 1 {
                    assert(s.drop_last()[i] == s[i]);
                }
            }
        } else {
            if forall|i: int| 0 <= i < s.len() ==> s[i] == 0 {
                assert forall|i: int| 0 <= i < s.drop_last().len() implies s.drop_last()[i] == 0 by {
                    assert(s.drop_last()[i] == s[i]);
                }
                assert(s.last() == s[s.len() - 1]);
            }
        }
    }
}

/// Splits a byte string into everything before its last `n` bytes and
/// those last `n` bytes.
pub proof fn lemma_be_value_split(s: Seq<u8>, n: nat)
    requires
        n <= s.len(),
    ensures
        be_value(s) == be_value(s.take(s.len() - n)) * pow256(n) + be_value(s.skip(s.len() - n)),
        be_value(s.skip(s.len() - n)) < pow256(n),
{
    let k = s.len() - n;
    assert(s.take(k) + s.skip(k) =~= s);
    lemma_be_value_concat(s.take(k), s.skip(k));
    lemma_be_value_bound(s.skip(k));
}

/// Computes `be_value(s)` for a string of at most eight bytes.
pub fn be_to_u64(s: &[u8]) -> (r: u64)
    requires
        s@.len() <= 8,
    ensures
        r as nat == be_value(s@),
{
    let mut acc: u64 = 0;
    let mut i: usize = 0;
    while i < s.len()
        invariant
            i <= s@.len() <= 8,
            acc as nat == be_value(s@.take(i as int)),
        decreases s@.len() - i,
    {
        proof {
            assert(s@.take(i + 1).drop_last() =~= s@.take(i as int));
            lemma_be_value_bound(s@.take(i + 1));
            lemma_pow256_monotone((i + 1) as nat, 8);
            lemma_pow256_8();
            lemma_be_value_bound(s@.take(i as int));
            lemma_pow256_monotone(i as nat, 7);
            reveal_with_fuel(pow256, 8);
        }
        acc = acc * 256 + s[i] as u64;
        i = i + 1;
    }
    assert(s@.take(i as int) =~= s@);
    acc
}

/// The `n` low-order bytes of `v`, most significant first.
pub fn u64_to_be_bytes_n(v: u64, n: usize) -> (r: Vec<u8>)
    ensures
        r@ == be_bytes_of(v as nat, n as nat),
    decreases n,
{
    if n == 0 {
        Vec::new()
    } else {
        let mut r = u64_to_be_bytes_n(v / 256, n - 1);
        r.push((v % 256) as u8);
        r
    }
}

/// The eight-byte big-endian encoding of `v`.
pub fn u64_to_be_bytes(v: u64) -> (r: Vec<u8>)
    ensures
        r@ == be8(v),
        r@.len() == 8,
        be_value(r@) == v as nat,
{
    let r = u64_to_be_bytes_n(v, 8);
    proof {
        lemma_be_value_of_bytes(v as nat, 8);
        lemma_pow256_8();
    }
    r
}

/// The number a big-endian string denotes, reduced modulo `256`.
pub fn be_low_u8(s: &[u8]) -> (r: u8)
    ensures
        r as nat == be_value(s@) % 256,
{
    if s.len() == 0 {
        0
    } else {
        proof {
            lemma_be_value_split(s@, 1);
            reveal_with_fuel(pow256, 2);
            assert(s@.skip(s@.len() - 1) =~= seq![s@.last()]);
            assert(seq![s@.last()].drop_last() =~= Seq::<u8>::empty());
            let p = be_value(s@.take(s@.len() - 1));
            assert((p * 256 + s@.last()) % 256 == s@.last() as nat) by (nonlinear_arith)
                requires s@.last() < 256;
        }
        s[s.len() - 1]
    }
}

/// The number a big-endian string denotes, reduced modulo `2^64`.
pub fn be_low_u64(s: &[u8]) -> (r: u64)
    ensures
        r as nat == be_value(s@) % 0x1_0000_0000_0000_0000,
{
    proof {
        lemma_pow256_8();
    }
    if s.len() <= 8 {
        let r = be_to_u64(s);
        proof {
            lemma_be_value_bound(s@);
            lemma_pow256_monotone(s@.len(), 8);
        }
        r
    } else {
        let start = s.len() - 8;
        let tail = slice_skip(s, start);
        let r = be_to_u64(tail);
        proof {
            lemma_be_value_split(s@, 8);
            let p = be_value(s@.take(s@.len() - 8));
            let q = be_value(s@.skip(s@.len() - 8));
            assert((p * 0x1_0000_0000_0000_0000 + q) % 0x1_0000_0000_0000_0000 == q) by (nonlinear_arith)
                requires q < 0x1_0000_0000_0000_0000nat;
        }
        r
    }
}

/// `Some` of the number a big-endian string denotes when it is below `2^64`.
pub fn be_to_u64_checked(s: &[u8]) -> (r: Option<u64>)
    ensures
        r matches Some(v) ==> v as nat == be_value(s@),
        r is None <==> be_value(s@) >= 0x1_0000_0000_0000_0000,
{
    proof {
        lemma_pow256_8();
    }
    if s.len() <= 8 {
        proof {
            lemma_be_value_bound(s@);
            lemma_pow256_monotone(s@.len(), 8);
        }
        Some(be_to_u64(s))
    } else {
        let start = s.len() - 8;
        let mut i: usize = 0;
        while i < start
            invariant
                start == s@.len() - 8,
                i <= start,
                forall|j: int| 0 <= j < i ==> s@[j] == 0,
            decreases start - i,
        {
            if s[i] != 0 {
                proof {
                    let head = s@.take(start as int);
                    lemma_be_value_split(s@, 8);
                    lemma_be_value_zero(head);
                    assert(head[i as int] == s@[i as int]);
                    assert(head[i as int] != 0);
                    let p = be_value(head);
                    assert(p != 0);
                    let q = be_value(s@.skip(start as int));
                    lemma_pow256_8();
                    assert(be_value(s@) == p * pow256(8) + q);
                    assert(p * 0x1_0000_0000_0000_0000 + q >= 0x1_0000_0000_0000_0000) by (nonlinear_arith)
                        requires p >= 1;
                    assert(be_value(s@) >= 0x1_0000_0000_0000_0000);
                }
                return None;
            }
            i = i + 1;
        }
        let tail = slice_skip(s, start);
        let r = be_to_u64(tail);
        proof {
            let head = s@.take(start as int);
            lemma_be_value_split(s@, 8);
            lemma_be_value_zero(head);
            assert forall|j: int| 0 <= j < head.len() implies head[j] == 0 by {
                assert(head[j] == s@[j]);
            }
        }
        Some(r)
    }
}

/// The shortest big-endian representation of the number `s` denotes.
pub fn minimal_be_bytes(s: &[u8]) -> (r: Vec<u8>)
    ensures
        r@ == minimal_be(s@),
{
    let mut i: usize = 0;
    assert(s@.skip(0) =~= s@);
    while i < s.len() && s[i] == 0
        invariant
            i <= s@.len(),
            minimal_be(s@.skip(i as int)) == minimal_be(s@),
        decreases s@.len() - i,
    {
        proof {
            assert(s@.skip(i as int).drop_first() =~= s@.skip(i + 1));
        }
        i = i + 1;
    }
    if i == s.len() {
        proof {
            assert(s@.skip(i as int) =~= Seq::<u8>::empty());
        }
        vec![0u8]
    } else {
        let mut r: Vec<u8> = Vec::new();
        let mut j: usize = i;
        while j < s.len()
            invariant
                i <= j <= s@.len(),
                r@ =~= s@.subrange(i as int, j as int),
            decreases s@.len() - j,
        {
            r.push(s[j]);
            j = j + 1;
        }
        proof {
            assert(s@.skip(i as int) =~= s@.subrange(i as int, s@.len() as int));
        }
        r
    }
}

/// The elements of `s` from `start` on.
pub fn slice_skip(s: &[u8], start: usize) -> (r: &[u8])
    requires
        start <= s@.len(),
    ensures
        r@ == s@.skip(start as int),
{
    let (_, tail) = s.split_at(start);
    proof {
        assert(tail@ =~= s@.skip(start as int));
    }
    tail
}

} // verus!
