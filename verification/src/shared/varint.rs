use vstd::prelude::*;
use unsigned_varint::decode::Error as VarintError;
use crate::shared::bigendian::{pow256, lemma_pow256_8};

verus! {

/// The decoding error of `unsigned_varint` (insufficient input, overflow,
/// non-minimal encoding); held opaquely.
#[verifier::external_type_specification]
#[verifier::external_body]
pub struct ExVarintError(VarintError);

/// `2` to the power `n`.
pub open spec fn pow2(n: nat) -> nat
    decreases n,
{
    if n == 0 {
        1
    } else {
        2 * pow2((n - 1) as nat)
    }
}

/// Unsigned LEB128: seven bits per byte, least significant group first,
/// the high bit set on every byte but the last.
pub open spec fn varint_encode(n: nat) -> Seq<u8>
    decreases n,
{
    if n < 128 {
        seq![n as u8]
    } else {
        seq![((n % 128) + 128) as u8] + varint_encode(n / 128)
    }
}

/// How decoding a 64-bit varint can fail.
pub enum VarintFailure {
    Insufficient,
    Overflow,
    NotMinimal,
}

/// Decoding of a 64-bit varint from `buf`, from byte `i` on, with `acc`
/// the sum of the groups read so far: the value (modulo `2^64`) and the
/// number of bytes used, or why it fails. At most ten bytes are read.
pub open spec fn varint_decode_from(buf: Seq<u8>, i: nat, acc: nat) -> Result<(u64, nat), VarintFailure>
    decreases buf.len() - i,
{
    if i >= buf.len() {
        Err(VarintFailure::Insufficient)
    } else {
        let b = buf[i as int];
        let acc2 = acc + (b % 128) as nat * pow2(7 * i);
        if b < 128 {
            if b == 0 && i > 0 {
                Err(VarintFailure::NotMinimal)
            } else {
                Ok(((acc2 % pow2(64)) as u64, i + 1))
            }
        } else if i == 9 {
            Err(VarintFailure::Overflow)
        } else {
            varint_decode_from(buf, i + 1, acc2)
        }
    }
}

pub open spec fn varint_decode(buf: Seq<u8>) -> Result<(u64, nat), VarintFailure> {
    varint_decode_from(buf, 0, 0)
}

/// Encodes `n` as an unsigned varint (`unsigned_varint::encode::usize`,
/// which encodes through the `u64` or `u32` encoder of the same format):
/// the result is the LEB128 encoding of `n`.
#[verifier::external_body]
pub(crate) fn varint_encode_usize(n: usize) -> (r: Vec<u8>)
    ensures
        r@ == varint_encode(n as nat),
{
    let mut buf = unsigned_varint::encode::usize_buffer();
    unsigned_varint::encode::usize(n, &mut buf).to_vec()
}

/// Decodes an unsigned 64-bit varint at the start of `buf`
/// (`unsigned_varint::decode::u64`): on success the value and how many
/// bytes are left after it; it fails exactly when `varint_decode` says it does. Which of
/// the three errors is returned is not stated: the error is opaque here.
#[verifier::external_body]
pub(crate) fn varint_decode_u64(buf: &[u8]) -> (r: Result<DecodedVarint,VarintError>)
    ensures
        r is Ok == varint_decode(buf@) is Ok,
        r is Ok ==> varint_decode(buf@) == Ok::<(u64, nat), VarintFailure>((r->Ok_0.value, (buf@.len() - r->Ok_0.rest_len) as nat)),
{
    match unsigned_varint::decode::u64(buf) {
        Ok((value, rest)) => Ok(DecodedVarint { value, rest_len: rest.len() }),
        Err(e) => Err(e),
    }
}

/// A decoded varint and the number of input bytes left after it.
pub struct DecodedVarint {
    pub value: u64,
    pub rest_len: usize,
}

pub proof fn lemma_pow2_positive(n: nat)
    ensures
        pow2(n) >= 1,
    decreases n,
{
    if n > 0 {
        lemma_pow2_positive((n - 1) as nat);
    }
}

pub proof fn lemma_pow2_add(a: nat, b: nat)
    ensures
        pow2(a + b) == pow2(a) * pow2(b),
    decreases b,
{
    if b > 0 {
        let bm = (b - 1) as nat;
        lemma_pow2_add(a, bm);
        assert((a + b - 1) as nat == a + bm);
        assert(pow2(a + b) == 2 * pow2(a + bm));
        assert(pow2(b) == 2 * pow2(bm));
        let x = pow2(a);
        let y = pow2(bm);
        assert(x * (2 * y) == 2 * (x * y)) by (nonlinear_arith);
        assert(pow2(a + b) == x * pow2(b));
    } else {
        assert(a + b == a);
        assert(pow2(b) == 1);
        assert(pow2(a) * 1 == pow2(a));
    }
}

pub proof fn lemma_pow2_7(k: nat)
    ensures
        pow2(7 * (k + 1)) == 128 * pow2(7 * k),
{
    lemma_pow2_add(7 * k, 7);
    assert(7 * (k + 1) == 7 * k + 7);
    reveal_with_fuel(pow2, 8);
}

pub proof fn lemma_pow2_monotone(a: nat, b: nat)
    requires
        a <= b,
    ensures
        pow2(a) <= pow2(b),
    decreases b,
{
    if a < b {
        lemma_pow2_monotone(a, (b - 1) as nat);
        lemma_pow2_positive((b - 1) as nat);
    }
}

pub proof fn lemma_pow2_64()
    ensures
        pow2(64) == 0x1_0000_0000_0000_0000,
{
    lemma_pow2_add(32, 32);
    lemma_pow2_add(16, 16);
    lemma_pow2_add(8, 8);
    reveal_with_fuel(pow2, 9);
    assert(pow2(8) == 256);
    assert(pow2(16) == 65536);
    assert(pow2(32) == 65536 * 65536nat);
    assert(pow2(64) == 0x1_0000_0000 * 0x1_0000_0000nat);
}

/// The encoding of `n` is at most ten bytes long for a 64-bit `n`, only its
/// last byte has the high bit clear, and that byte is zero only for `n == 0`.
pub proof fn lemma_varint_encode_shape(n: nat)
    ensures
        varint_encode(n).len() >= 1,
        forall|i: int| 0 <= i < varint_encode(n).len() - 1 ==> varint_encode(n)[i] >= 128,
        varint_encode(n).last() < 128,
        varint_encode(n).last() == 0 ==> n == 0,
        n < pow2(7 * varint_encode(n).len()),
        n >= 128 ==> n >= pow2((7 * (varint_encode(n).len() - 1)) as nat),
    decreases n,
{
    reveal_with_fuel(pow2, 8);
    if n >= 128 {
        lemma_varint_encode_shape(n / 128);
        let rest = varint_encode(n / 128);
        let e = varint_encode(n);
        assert(e == seq![((n % 128) + 128) as u8] + rest);
        assert forall|i: int| 0 <= i < e.len() - 1 implies e[i] >= 128 by {
            if i > 0 {
                assert(e[i] == rest[i - 1]);
            }
        }
        assert(e.last() == rest.last());
        lemma_pow2_7((rest.len()) as nat);
        assert(7 * e.len() == 7 * (rest.len() + 1));
        assert(n / 128 < pow2(7 * rest.len()));
        let p = pow2(7 * rest.len());
        assert(n < 128 * p) by (nonlinear_arith)
            requires n / 128 < p;
        if n / 128 >= 128 {
            lemma_pow2_7((rest.len() - 1) as nat);
            let q = pow2((7 * (rest.len() - 1)) as nat);
            assert(n / 128 >= q);
            assert(7 * ((rest.len() - 1) + 1) == 7 * rest.len());
            assert(n >= 128 * q) by (nonlinear_arith)
                requires n / 128 >= q;
        } else {
            assert(rest.len() == 1);
            assert(pow2((7 * (e.len() - 1)) as nat) == pow2(7));
        }
    } else {
        assert(pow2(7 * 1) == 128);
    }
}

/// Decoding continues the same way after any prefix of groups.
proof fn lemma_varint_decode_shift(buf: Seq<u8>, n: nat, i: nat, acc: nat)
    requires
        i <= 9,
        buf.len() >= i + varint_encode(n).len(),
        buf.subrange(i as int, (i + varint_encode(n).len()) as int) == varint_encode(n),
        i + varint_encode(n).len() <= 10,
        i == 0 || n != 0,
        acc < pow2(7 * i),
    ensures
        varint_decode_from(buf, i, acc) == Ok::<(u64, nat), VarintFailure>(
            (((acc + n * pow2(7 * i)) % pow2(64)) as u64, i + varint_encode(n).len()),
        ),
    decreases n,
{
    reveal_with_fuel(pow2, 8);
    let e = varint_encode(n);
    let b = buf[i as int];
    assert(b == e[0]);
    if n < 128 {
        assert(b == n as u8);
        assert(b % 128 == n);
    } else {
        lemma_varint_encode_shape(n / 128);
        let rest = varint_encode(n / 128);
        assert(e == seq![((n % 128) + 128) as u8] + rest);
        assert(b % 128 == n % 128);
        assert(b >= 128);
        assert(buf.subrange((i + 1) as int, (i + 1 + rest.len()) as int) =~= rest) by {
            assert forall|j: int| 0 <= j < rest.len() implies buf.subrange((i + 1) as int, (i + 1 + rest.len()) as int)[j] == rest[j] by {
                assert(buf[i + 1 + j] == buf.subrange(i as int, (i + e.len()) as int)[1 + j]);
                assert(e[1 + j] == rest[j]);
            }
        }
        let acc2 = acc + (n % 128) * pow2(7 * i);
        lemma_pow2_7(i);
        let p = pow2(7 * i);
        assert(acc2 < pow2(7 * (i + 1))) by (nonlinear_arith)
            requires acc < p, n % 128 < 128, acc2 == acc + (n % 128) * p, pow2(7 * (i + 1)) == 128 * p;
        assert(i != 9);
        lemma_varint_decode_shift(buf, n / 128, i + 1, acc2);
        assert(acc2 + (n / 128) * pow2(7 * (i + 1)) == acc + n * p) by (nonlinear_arith)
            requires acc2 == acc + (n % 128) * p, pow2(7 * (i + 1)) == 128 * p, n == (n / 128) * 128 + n % 128;
    }
}

/// Decoding the encoding of a 64-bit value gives the value and the length
/// of its encoding.
pub proof fn lemma_varint_roundtrip(n: u64, rest: Seq<u8>)
    ensures
        varint_decode(varint_encode(n as nat) + rest) == Ok::<(u64, nat), VarintFailure>((n, varint_encode(n as nat).len())),
        varint_encode(n as nat).len() <= 10,
{
    let e = varint_encode(n as nat);
    lemma_varint_encode_shape(n as nat);
    lemma_pow2_64();
    if e.len() > 10 {
        lemma_pow2_monotone(70, (7 * (e.len() - 1)) as nat);
        lemma_pow2_monotone(64, 70);
        assert(false);
    }
    let buf = e + rest;
    assert(buf.subrange(0, e.len() as int) =~= e);
    reveal_with_fuel(pow2, 2);
    lemma_varint_decode_shift(buf, n as nat, 0, 0);
    assert(pow2(0) == 1);
}

} // verus!
